//! The length of a track, from what the container of its file states.
//!
//! The caller probes the file and hands over what the default track states;
//! the length is known where the track states both its number of frames and
//! its sample rate.

use crate::catalog::TrackLength;
use vstd::prelude::*;

verus! {

/// The length that a number of frames and a sample rate make: known where
/// both are.
pub open spec fn length_of(n_frames: Option<u64>, sample_rate: Option<u32>) -> Option<
    TrackLength,
> {
    match (n_frames, sample_rate) {
        (Some(frames), Some(rate)) => Some(TrackLength { frames, sample_rate: rate }),
        _ => None,
    }
}

/// The length that the outcome of a probe gives: unknown where the probe
/// found no track, else what the track's statements make.
pub open spec fn duration_of(probed: Option<(Option<u64>, Option<u32>)>) -> Option<TrackLength> {
    match probed {
        Some((n_frames, sample_rate)) => length_of(n_frames, sample_rate),
        None => None,
    }
}

/// The length of a track from what its container states: known where it
/// states both the number of frames and the sample rate.
pub fn track_length(n_frames: Option<u64>, sample_rate: Option<u32>) -> (r: Option<TrackLength>)
    ensures
        r == length_of(n_frames, sample_rate),
{
    match (n_frames, sample_rate) {
        (Some(frames), Some(rate)) => Some(TrackLength { frames, sample_rate: rate }),
        _ => None,
    }
}

/// The length of a track from the outcome of a probe of its file. `probed` is
/// nothing where the file could not be opened or understood or holds no
/// track, else the number of frames and the sample rate that its default
/// track states, each of which may be missing.
pub fn probed_duration(probed: Option<(Option<u64>, Option<u32>)>) -> (r: Option<TrackLength>)
    ensures
        r == duration_of(probed),
{
    match probed {
        Some((n_frames, sample_rate)) => track_length(n_frames, sample_rate),
        None => None,
    }
}

} // verus!
