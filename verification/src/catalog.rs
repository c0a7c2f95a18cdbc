//! Listing the audio files of a directory.
//!
//! The caller walks the directory and hands over what it found; the listing
//! keeps the regular files with an audio extension and orders them by name.

use crate::error::{Error, ErrorView};
use crate::names::{
    audio_name, comes_before, is_audio_name, lemma_bytes_before_asymmetric,
    lemma_bytes_before_extends, lemma_bytes_before_irreflexive, lemma_bytes_order_transitive,
    lemma_names_comparable, name_before,
};
use vstd::prelude::*;
use vstd::seq_lib::to_multiset_insert;

verus! {

/// The length of a track as its container states it: a number of frames at a
/// number of frames per second.
#[derive(Debug, Clone, Copy, PartialEq, Eq, Structural)]
pub struct TrackLength {
    pub frames: u64,
    pub sample_rate: u32,
}

/// What stands at the path that was asked for.
#[derive(Debug, Clone, Copy, PartialEq, Eq, Structural)]
pub enum DirectoryKind {
    /// Nothing.
    Missing,
    /// Something that is not a directory.
    NotDirectory,
    /// A directory.
    Directory,
}

/// One entry found in the directory.
#[derive(Debug, Clone, PartialEq, Eq)]
pub struct Scanned {
    /// The entry's file name.
    pub name: String,
    /// The entry's full path.
    pub path: String,
    /// Whether the entry is a regular file.
    pub is_file: bool,
    /// The length of the track, where the entry was probed and states one.
    pub duration: Option<TrackLength>,
}

/// A [`Scanned`] with its texts as sequences of characters.
pub struct ScannedView {
    pub name: Seq<char>,
    pub path: Seq<char>,
    pub is_file: bool,
    pub duration: Option<TrackLength>,
}

impl View for Scanned {
    type V = ScannedView;

    open spec fn view(&self) -> ScannedView {
        ScannedView {
            name: self.name@,
            path: self.path@,
            is_file: self.is_file,
            duration: self.duration,
        }
    }
}

/// One listed audio file.
#[derive(Debug, Clone, PartialEq, Eq)]
pub struct AudioFile {
    name: String,
    path: String,
    duration: Option<TrackLength>,
}

/// An [`AudioFile`] with its texts as sequences of characters.
pub struct AudioFileView {
    pub name: Seq<char>,
    pub path: Seq<char>,
    pub duration: Option<TrackLength>,
}

impl View for AudioFile {
    type V = AudioFileView;

    closed spec fn view(&self) -> AudioFileView {
        AudioFileView { name: self.name@, path: self.path@, duration: self.duration }
    }
}

impl AudioFile {
    /// The descriptor of the file `name` at `path`.
    pub fn new(name: String, path: String, duration: Option<TrackLength>) -> (r: Self)
        ensures
            r@ == (AudioFileView { name: name@, path: path@, duration }),
    {
        AudioFile { name, path, duration }
    }

    /// The file's name, by which it is listed.
    pub fn name(&self) -> (r: &str)
        ensures
            r@ == self@.name,
    {
        self.name.as_str()
    }

    /// The file's full path, by which it is identified.
    pub fn path(&self) -> (r: &str)
        ensures
            r@ == self@.path,
    {
        self.path.as_str()
    }

    /// The track's length, where it is known.
    pub fn duration(&self) -> (r: Option<TrackLength>)
        ensures
            r == self@.duration,
    {
        self.duration
    }
}

/// The views of the entries of `s`, in order.
pub open spec fn scans(s: Seq<Scanned>) -> Seq<ScannedView> {
    s.map_values(|e: Scanned| e@)
}

/// The views of the descriptors of `s`, in order.
pub open spec fn views(s: Seq<AudioFile>) -> Seq<AudioFileView> {
    s.map_values(|f: AudioFile| f@)
}

/// Whether an entry is listed: a regular file with an audio extension.
pub open spec fn listed(e: ScannedView) -> bool {
    e.is_file && audio_name(e.name)
}

/// The descriptor of an entry.
pub open spec fn descriptor(e: ScannedView) -> AudioFileView {
    AudioFileView { name: e.name, path: e.path, duration: e.duration }
}

/// The descriptors of the entries that are listed, in the order in which the
/// entries were found.
pub open spec fn candidates(entries: Seq<ScannedView>) -> Seq<AudioFileView> {
    entries.filter(|e: ScannedView| listed(e)).map_values(|e: ScannedView| descriptor(e))
}

/// The descriptors of `s` that bear the name `name`, in order.
pub open spec fn named(s: Seq<AudioFileView>, name: Seq<char>) -> Seq<AudioFileView> {
    s.filter(|f: AudioFileView| f.name == name)
}

/// No descriptor is followed by one whose name comes before its own.
pub open spec fn sorted_by_name(s: Seq<AudioFileView>) -> bool {
    forall|i: int, j: int| 0 <= i < j < s.len() ==> !name_before(#[trigger] s[j].name, #[trigger] s[i].name)
}

/// `out` holds the descriptors of `of` and no others, and those of one name
/// stand in `out` in the order in which they stand in `of`.
pub open spec fn arranges(out: Seq<AudioFileView>, of: Seq<AudioFileView>) -> bool {
    &&& out.len() == of.len()
    &&& out.to_multiset() == of.to_multiset()
    &&& forall|name: Seq<char>| #[trigger] named(out, name) == named(of, name)
}

/// What a listing fails with where the path is no directory.
pub open spec fn not_a_directory() -> ErrorView {
    ErrorView::InvalidInput("Invalid directory"@)
}

/// `out` is the listing of `entries`: the descriptors of the listed entries,
/// ascending by name, those of equal name in the order in which they were
/// found.
pub open spec fn is_listing(out: Seq<AudioFileView>, entries: Seq<ScannedView>) -> bool {
    sorted_by_name(out) && arranges(out, candidates(entries))
}

/// `named` of a sequence put together from two parts.
proof fn lemma_named_concat(a: Seq<AudioFileView>, b: Seq<AudioFileView>, name: Seq<char>)
    ensures
        named(a + b, name) == named(a, name) + named(b, name),
{
    Seq::filter_distributes_over_add(a, b, |f: AudioFileView| f.name == name);
}

/// `named` finds nothing where no descriptor bears the name.
proof fn lemma_named_absent(s: Seq<AudioFileView>, name: Seq<char>)
    requires
        forall|k: int| 0 <= k < s.len() ==> s[k].name != name,
    ensures
        named(s, name) == Seq::<AudioFileView>::empty(),
    decreases s.len(),
{
    reveal(Seq::filter);
    if s.len() > 0 {
        lemma_named_absent(s.drop_last(), name);
    }
}

/// `named` of a sequence with one more descriptor at its end.
proof fn lemma_named_push(s: Seq<AudioFileView>, f: AudioFileView, name: Seq<char>)
    ensures
        named(s.push(f), name) == if f.name == name {
            named(s, name).push(f)
        } else {
            named(s, name)
        },
{
    reveal(Seq::filter);
    assert(s.push(f).drop_last() =~= s);
}

/// Putting a descriptor in front of the first one of a later name adds it at
/// the end of those of its own name and leaves those of other names alone.
proof fn lemma_named_insert(s: Seq<AudioFileView>, pos: int, f: AudioFileView, name: Seq<char>)
    requires
        0 <= pos <= s.len(),
        forall|k: int| pos <= k < s.len() ==> s[k].name != f.name,
    ensures
        named(s.insert(pos, f), name) == named(s.push(f), name),
{
    let front = s.take(pos);
    let back = s.skip(pos);
    assert(s.insert(pos, f) =~= front.push(f) + back);
    assert(s.push(f) =~= (front + back).push(f));
    assert(s =~= front + back);
    lemma_named_concat(front.push(f), back, name);
    lemma_named_concat(front, back, name);
    lemma_named_push(front, f, name);
    lemma_named_push(front + back, f, name);
    if f.name == name {
        lemma_named_absent(back, name);
        assert(named(front.push(f), name) + named(back, name) =~= named(front, name).push(f));
        assert(named(front, name) + named(back, name) =~= named(front, name));
    }
}

/// The candidates of a sequence of entries with one more entry at its end.
proof fn lemma_candidates_push(entries: Seq<ScannedView>, e: ScannedView)
    ensures
        candidates(entries.push(e)) == if listed(e) {
            candidates(entries).push(descriptor(e))
        } else {
            candidates(entries)
        },
{
    reveal(Seq::filter);
    assert(entries.push(e).drop_last() =~= entries);
    let kept = entries.filter(|e: ScannedView| listed(e));
    if listed(e) {
        assert(kept.push(e).map_values(|e: ScannedView| descriptor(e)) =~= kept.map_values(
            |e: ScannedView| descriptor(e),
        ).push(descriptor(e)));
    }
}

/// Where a descriptor of this name is among those of `s`, it stands at some
/// position of `s`.
proof fn lemma_named_position(s: Seq<AudioFileView>, name: Seq<char>) -> (k: int)
    requires
        named(s, name).len() > 0,
    ensures
        0 <= k < s.len(),
        s[k].name == name,
    decreases s.len(),
{
    reveal(Seq::filter);
    if s.last().name == name {
        s.len() - 1
    } else {
        lemma_named_position(s.drop_last(), name)
    }
}

/// Two sequences of descriptors are the same where both are sorted by name
/// and in both the descriptors of each name are the same, in the same order.
pub proof fn lemma_sorted_arrangement_is_unique(a: Seq<AudioFileView>, b: Seq<AudioFileView>)
    requires
        sorted_by_name(a),
        sorted_by_name(b),
        a.len() == b.len(),
        forall|name: Seq<char>| #[trigger] named(a, name) == named(b, name),
    ensures
        a == b,
    decreases a.len(),
{
    if a.len() == 0 {
        assert(a =~= b);
    } else {
        let last = a.len() - 1;
        let x = a[last];
        let y = b[last];
        let front_a = a.drop_last();
        let front_b = b.drop_last();
        assert(a =~= front_a.push(x));
        assert(b =~= front_b.push(y));
        lemma_named_push(front_a, x, x.name);
        lemma_named_push(front_b, y, y.name);
        assert(named(a, x.name) == named(b, x.name));
        assert(named(a, y.name) == named(b, y.name));
        if x.name != y.name {
            // Each of the two names occurs in the other sequence before its
            // last place, so neither name comes before the other.
            let i = lemma_named_position(a, y.name);
            let j = lemma_named_position(b, x.name);
            assert(!name_before(a[last].name, a[i].name));
            assert(!name_before(b[last].name, b[j].name));
            lemma_names_comparable(x.name, y.name);
        }
        lemma_named_push(front_b, y, x.name);
        assert(named(front_a, x.name).push(x) == named(front_b, x.name).push(y));
        assert(named(front_a, x.name).push(x).last() == x);
        assert(x == y);
        assert forall|name: Seq<char>| #[trigger]
            named(front_a, name) == named(front_b, name) by {
            lemma_named_push(front_a, x, name);
            lemma_named_push(front_b, x, name);
            assert(named(a, name) == named(b, name));
            if x.name == name {
                assert(named(front_a, name) =~= named(front_a, name).push(x).drop_last());
                assert(named(front_b, name) =~= named(front_b, name).push(x).drop_last());
            }
        }
        assert forall|i: int, j: int| 0 <= i < j < front_a.len() implies !name_before(
            #[trigger] front_a[j].name,
            #[trigger] front_a[i].name,
        ) by {
            assert(front_a[i] == a[i] && front_a[j] == a[j]);
        }
        assert forall|i: int, j: int| 0 <= i < j < front_b.len() implies !name_before(
            #[trigger] front_b[j].name,
            #[trigger] front_b[i].name,
        ) by {
            assert(front_b[i] == b[i] && front_b[j] == b[j]);
        }
        lemma_sorted_arrangement_is_unique(front_a, front_b);
    }
}

/// A directory has one listing: what `is_listing` describes is determined by
/// the entries.
pub proof fn lemma_listing_is_unique(
    a: Seq<AudioFileView>,
    b: Seq<AudioFileView>,
    entries: Seq<ScannedView>,
)
    requires
        is_listing(a, entries),
        is_listing(b, entries),
    ensures
        a == b,
{
    let of = candidates(entries);
    assert forall|name: Seq<char>| #[trigger] named(a, name) == named(b, name) by {
        assert(named(a, name) == named(of, name));
        assert(named(b, name) == named(of, name));
    }
    lemma_sorted_arrangement_is_unique(a, b);
}

/// A listing holds as many descriptors as there are regular files with an
/// audio extension among the entries.
pub proof fn lemma_listing_counts(out: Seq<AudioFileView>, entries: Seq<ScannedView>)
    requires
        is_listing(out, entries),
    ensures
        out.len() == entries.filter(|e: ScannedView| listed(e)).len(),
        out.len() <= entries.len(),
{
    entries.lemma_filter_len(|e: ScannedView| listed(e));
}

/// Puts `file` into `out`, which is sorted by name, behind the descriptors
/// whose names do not come after its own, and returns its position.
fn insert_by_name(out: &mut Vec<AudioFile>, file: AudioFile) -> (pos: usize)
    requires
        sorted_by_name(views(old(out)@)),
    ensures
        pos <= old(out)@.len(),
        views(final(out)@) == views(old(out)@).insert(pos as int, file@),
        sorted_by_name(views(final(out)@)),
        forall|k: int| pos <= k < old(out)@.len() ==> name_before(file@.name, views(old(out)@)[k].name),
{
    let ghost before = views(out@);
    let mut pos: usize = out.len();
    while pos > 0 && comes_before(file.name(), out[pos - 1].name())
        invariant
            pos <= out.len(),
            before == views(out@),
            forall|k: int| pos <= k < before.len() ==> name_before(file@.name, before[k].name),
        decreases pos,
    {
        pos -= 1;
    }
    out.insert(pos, file);
    proof {
        let after = views(out@);
        assert(after =~= before.insert(pos as int, file@));
        assert forall|i: int, j: int| 0 <= i < j < after.len() implies !name_before(
            #[trigger] after[j].name,
            #[trigger] after[i].name,
        ) by {
            let a = vstd::utf8::encode_utf8(after[i].name);
            let b = vstd::utf8::encode_utf8(after[j].name);
            let x = vstd::utf8::encode_utf8(file@.name);
            if j < pos {
                assert(after[i] == before[i] && after[j] == before[j]);
            } else if j == pos {
                // `after[i]` stands before the place found: nothing between
                // it and that place comes after `file`.
                assert(after[i] == before[i]);
                if pos as int - 1 != i {
                    let last = vstd::utf8::encode_utf8(before[pos as int - 1].name);
                    assert(!name_before(before[pos as int - 1].name, before[i].name));
                    lemma_bytes_order_transitive(a, last, x);
                }
            } else if i == pos {
                assert(after[j] == before[j - 1]);
                assert(name_before(file@.name, before[j - 1].name));
                lemma_bytes_before_asymmetric(x, b);
            } else if i > pos {
                assert(after[i] == before[i - 1] && after[j] == before[j - 1]);
            } else {
                assert(after[i] == before[i] && after[j] == before[j - 1]);
                assert(name_before(file@.name, before[j - 1].name));
                if name_before(after[j].name, after[i].name) {
                    // `after[i]` is not after `file`, which is before
                    // `after[j]`: the latter cannot be before the former.
                    let last = vstd::utf8::encode_utf8(before[pos as int - 1].name);
                    if pos as int - 1 != i {
                        assert(!name_before(before[pos as int - 1].name, before[i].name));
                    }
                    lemma_bytes_order_transitive(a, last, x);
                    lemma_bytes_before_extends(b, a, x);
                    lemma_bytes_before_asymmetric(x, b);
                }
            }
        }
    }
    pos
}

/// Whether an entry of this name and kind is listed.
pub fn is_audio_file(name: &str, is_file: bool) -> (r: bool)
    ensures
        r == (is_file && audio_name(name@)),
{
    is_file && is_audio_name(name)
}

/// The listing of a directory from what was found in it: the regular files
/// with an audio extension, ascending by name. Fails with `InvalidInput`
/// where the path is no directory.
pub fn list_audio_files(directory: DirectoryKind, entries: Vec<Scanned>) -> (r: Result<
    Vec<AudioFile>,
    Error,
>)
    ensures
        directory != DirectoryKind::Directory ==> r is Err && r->Err_0@ == not_a_directory(),
        directory == DirectoryKind::Directory ==> r is Ok && is_listing(
            views(r->Ok_0@),
            scans(entries@),
        ),
{
    match directory {
        DirectoryKind::Directory => {},
        _ => {
            return Err(Error::InvalidInput("Invalid directory".to_owned()));
        },
    }
    let ghost found = scans(entries@);
    let mut out: Vec<AudioFile> = Vec::new();
    let mut i: usize = 0;
    proof {
        reveal(Seq::filter);
        assert(found.take(0) =~= Seq::<ScannedView>::empty());
        assert(candidates(found.take(0)) =~= Seq::<AudioFileView>::empty());
        assert(views(out@) =~= Seq::<AudioFileView>::empty());
    }
    while i < entries.len()
        invariant
            i <= entries.len(),
            found == scans(entries@),
            is_listing(views(out@), found.take(i as int)),
        decreases entries.len() - i,
    {
        let entry = &entries[i];
        let ghost seen = found.take(i as int);
        let ghost old_out = views(out@);
        proof {
            assert(found.take(i + 1) =~= seen.push(entry@));
            lemma_candidates_push(seen, entry@);
        }
        if is_audio_file(entry.name.as_str(), entry.is_file) {
            let file = AudioFile::new(entry.name.clone(), entry.path.clone(), entry.duration);
            assert(file@ == descriptor(entry@));
            let pos = insert_by_name(&mut out, file);
            proof {
                let wanted = candidates(seen);
                to_multiset_insert(old_out, pos as int, file@);
                vstd::seq_lib::to_multiset_build(wanted, file@);
                assert forall|k: int| pos <= k < old_out.len() implies old_out[k].name
                    != file@.name by {
                    lemma_bytes_before_irreflexive(vstd::utf8::encode_utf8(file@.name));
                }
                assert forall|name: Seq<char>| #[trigger]
                    named(views(out@), name) == named(wanted.push(file@), name) by {
                    lemma_named_insert(old_out, pos as int, file@, name);
                    lemma_named_push(old_out, file@, name);
                    lemma_named_push(wanted, file@, name);
                    assert(named(old_out, name) == named(wanted, name));
                }
            }
        }
        i += 1;
    }
    assert(found.take(entries.len() as int) =~= found);
    Ok(out)
}

} // verus!
