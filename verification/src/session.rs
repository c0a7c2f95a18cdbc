//! A play request, step by step.
//!
//! The caller performs each step that the session hands out and reports how
//! it went. The session decides what comes next: the previous track is given
//! up first, opening the file is tried again after a failure, nothing else
//! is, and the player takes note of the new track only once it plays.

use crate::error::{Error, ErrorView};
use crate::player::{AudioPlayer, Command, PlayerState};
use vstd::prelude::*;

verus! {

/// How long to wait after the previous track was given up, in milliseconds.
pub const SETTLE_MILLIS: u64 = 50;

/// How long to wait before the file is opened again, in milliseconds.
pub const BACKOFF_MILLIS: u64 = 100;

/// How often opening the file is tried.
pub const MAX_OPEN_ATTEMPTS: u32 = 3;

/// The most steps that one play request takes.
pub const MAX_STEPS: usize = 10;

/// Where a play request stands.
#[derive(Debug, Clone, Copy, PartialEq, Eq, Structural)]
pub enum Stage {
    Settling,
    Opening,
    BackingOff,
    Decoding,
    AcquiringDevice,
    CreatingSink,
    Starting,
}

/// What the caller is to do next.
#[derive(Debug, Clone, Copy, PartialEq, Eq, Structural)]
pub enum PlayStep {
    /// Stop and drop the sink and the device of the previous track, if any,
    /// then wait this long.
    Settle { millis: u64 },
    /// Open the file.
    OpenFile,
    /// Wait this long.
    Backoff { millis: u64 },
    /// Decode the opened file into an audio source.
    Decode,
    /// Acquire a new output device.
    AcquireDevice,
    /// Make a new sink on the device.
    CreateSink,
    /// Hand the source to the sink and let it play.
    Start,
}

/// How a step went.
#[derive(Debug, Clone, PartialEq, Eq)]
pub enum Outcome {
    /// It was done.
    Done,
    /// It failed, with this message.
    Failed(String),
}

/// An [`Outcome`] with its message as a sequence of characters.
pub enum OutcomeView {
    Done,
    Failed(Seq<char>),
}

impl View for Outcome {
    type V = OutcomeView;

    open spec fn view(&self) -> OutcomeView {
        match *self {
            Outcome::Done => OutcomeView::Done,
            Outcome::Failed(m) => OutcomeView::Failed(m@),
        }
    }
}

/// A play request under way.
#[derive(Debug)]
pub struct PlaySession {
    path: String,
    stage: Stage,
    failures: u32,
}

/// A play request under way, as the contracts speak of it.
pub struct SessionState {
    /// The path of the track to play.
    pub path: Seq<char>,
    /// Where the request stands.
    pub stage: Stage,
    /// How often opening the file has failed.
    pub failures: u32,
}

/// Where a play request stands after a step.
#[derive(Debug)]
pub enum Progress {
    /// There is a next step: `PlaySession::step` says which.
    Continue(PlaySession),
    /// The track at this path plays: watch for its end.
    Started(String),
    /// The request has failed. Nothing plays.
    Failed(Error),
}

/// A [`Progress`] as the contracts speak of it.
pub enum ProgressView {
    Continue(SessionState),
    Started(Seq<char>),
    Failed(ErrorView),
}

impl View for Progress {
    type V = ProgressView;

    open spec fn view(&self) -> ProgressView {
        match *self {
            Progress::Continue(session) => ProgressView::Continue(session@),
            Progress::Started(path) => ProgressView::Started(path@),
            Progress::Failed(error) => ProgressView::Failed(error@),
        }
    }
}

impl SessionState {
    /// The request for the track at `path`, before its first step.
    pub open spec fn begin(path: Seq<char>) -> SessionState {
        SessionState { path, stage: Stage::Settling, failures: 0 }
    }

    /// Opening the file has not yet failed as often as it is tried.
    pub open spec fn well_formed(self) -> bool {
        self.failures < MAX_OPEN_ATTEMPTS
    }

    /// The step that the caller is to do.
    pub open spec fn step(self) -> PlayStep {
        match self.stage {
            Stage::Settling => PlayStep::Settle { millis: SETTLE_MILLIS },
            Stage::Opening => PlayStep::OpenFile,
            Stage::BackingOff => PlayStep::Backoff { millis: BACKOFF_MILLIS },
            Stage::Decoding => PlayStep::Decode,
            Stage::AcquiringDevice => PlayStep::AcquireDevice,
            Stage::CreatingSink => PlayStep::CreateSink,
            Stage::Starting => PlayStep::Start,
        }
    }

    /// The request at another stage.
    pub open spec fn at(self, stage: Stage) -> ProgressView {
        ProgressView::Continue(SessionState { stage, ..self })
    }

    /// Where the request stands once its step went as `outcome` says. A wait
    /// always leads on. A failure to open the file leads to a wait and
    /// another attempt, and after the last attempt to `NotFound` with what
    /// that attempt reported. Any other failure ends the request at once.
    pub open spec fn next(self, outcome: OutcomeView) -> ProgressView {
        match (self.stage, outcome) {
            (Stage::Settling, _) => self.at(Stage::Opening),
            (Stage::Opening, OutcomeView::Done) => self.at(Stage::Decoding),
            (Stage::Opening, OutcomeView::Failed(reason)) => if self.failures + 1
                < MAX_OPEN_ATTEMPTS {
                ProgressView::Continue(
                    SessionState {
                        stage: Stage::BackingOff,
                        failures: (self.failures + 1) as u32,
                        ..self
                    },
                )
            } else {
                ProgressView::Failed(ErrorView::NotFound { retries: MAX_OPEN_ATTEMPTS, reason })
            },
            (Stage::BackingOff, _) => self.at(Stage::Opening),
            (Stage::Decoding, OutcomeView::Done) => self.at(Stage::AcquiringDevice),
            (Stage::Decoding, OutcomeView::Failed(reason)) => ProgressView::Failed(
                ErrorView::DecodeError(reason),
            ),
            (Stage::AcquiringDevice, OutcomeView::Done) => self.at(Stage::CreatingSink),
            (Stage::AcquiringDevice, OutcomeView::Failed(reason)) => ProgressView::Failed(
                ErrorView::DeviceError(reason),
            ),
            (Stage::CreatingSink, OutcomeView::Done) => self.at(Stage::Starting),
            (Stage::CreatingSink, OutcomeView::Failed(reason)) => ProgressView::Failed(
                ErrorView::DeviceError(reason),
            ),
            (Stage::Starting, OutcomeView::Done) => ProgressView::Started(self.path),
            (Stage::Starting, OutcomeView::Failed(reason)) => ProgressView::Failed(
                ErrorView::DeviceError(reason),
            ),
        }
    }

    /// Where the request stands once its steps went as `outcomes` say, one
    /// after the other. Outcomes that come after its end are not looked at.
    pub open spec fn run(self, outcomes: Seq<OutcomeView>) -> ProgressView
        decreases outcomes.len(),
    {
        if outcomes.len() == 0 {
            ProgressView::Continue(self)
        } else {
            match self.next(outcomes.first()) {
                ProgressView::Continue(session) => session.run(outcomes.drop_first()),
                ended => ended,
            }
        }
    }

    /// The steps that the caller does as the outcomes come in: one for each
    /// outcome, up to the end of the request.
    pub open spec fn steps(self, outcomes: Seq<OutcomeView>) -> Seq<PlayStep>
        decreases outcomes.len(),
    {
        if outcomes.len() == 0 {
            Seq::empty()
        } else {
            seq![self.step()] + match self.next(outcomes.first()) {
                ProgressView::Continue(session) => session.steps(outcomes.drop_first()),
                _ => Seq::empty(),
            }
        }
    }

    /// The most times that the request still opens the file.
    pub open spec fn opens_left(self) -> int {
        match self.stage {
            Stage::Settling | Stage::Opening | Stage::BackingOff => MAX_OPEN_ATTEMPTS
                - self.failures,
            _ => 0,
        }
    }

    /// The longest that the request still waits, in milliseconds.
    pub open spec fn wait_left(self) -> int {
        match self.stage {
            Stage::Settling => SETTLE_MILLIS + BACKOFF_MILLIS * (MAX_OPEN_ATTEMPTS - 1
                - self.failures),
            Stage::Opening => BACKOFF_MILLIS * (MAX_OPEN_ATTEMPTS - 1 - self.failures),
            Stage::BackingOff => BACKOFF_MILLIS * (MAX_OPEN_ATTEMPTS - self.failures),
            _ => 0,
        }
    }

    /// The most steps that the request still takes.
    pub open spec fn steps_left(self) -> int {
        match self.stage {
            Stage::Settling => 4 + 2 * (MAX_OPEN_ATTEMPTS - self.failures),
            Stage::Opening => 3 + 2 * (MAX_OPEN_ATTEMPTS - self.failures),
            Stage::BackingOff => 4 + 2 * (MAX_OPEN_ATTEMPTS - self.failures),
            Stage::Decoding => 4,
            Stage::AcquiringDevice => 3,
            Stage::CreatingSink => 2,
            Stage::Starting => 1,
        }
    }
}

/// How long a step has the caller wait, in milliseconds.
pub open spec fn wait_of(step: PlayStep) -> int {
    match step {
        PlayStep::Settle { millis } => millis as int,
        PlayStep::Backoff { millis } => millis as int,
        _ => 0,
    }
}

/// How long the steps have the caller wait in all, in milliseconds.
pub open spec fn total_wait(steps: Seq<PlayStep>) -> int
    decreases steps.len(),
{
    if steps.len() == 0 {
        0
    } else {
        wait_of(steps.first()) + total_wait(steps.drop_first())
    }
}

/// How often the steps open the file.
pub open spec fn opens(steps: Seq<PlayStep>) -> int
    decreases steps.len(),
{
    if steps.len() == 0 {
        0
    } else if steps.first() == PlayStep::OpenFile {
        1 + opens(steps.drop_first())
    } else {
        opens(steps.drop_first())
    }
}

/// The state of the player after a step of a play request: the state before,
/// unless the step has started the track.
pub open spec fn player_after(player: PlayerState, progress: ProgressView) -> PlayerState {
    match progress {
        ProgressView::Started(path) => player.apply(Command::Start(path)),
        _ => player,
    }
}

impl View for PlaySession {
    type V = SessionState;

    closed spec fn view(&self) -> SessionState {
        SessionState { path: self.path@, stage: self.stage, failures: self.failures }
    }
}

impl AudioPlayer {
    /// Begins a play request for the track at `path`: the player gives up
    /// what it holds and forgets its current path, as by `stop`.
    pub fn play(&mut self, path: &str) -> (session: PlaySession)
        ensures
            final(self)@ == old(self)@.apply(Command::Stop),
            final(self)@.well_formed(),
            session@ == SessionState::begin(path@),
            session@.well_formed(),
    {
        self.stop();
        PlaySession { path: path.to_owned(), stage: Stage::Settling, failures: 0 }
    }
}

impl PlaySession {
    #[verifier::type_invariant]
    spec fn attempts_remain(self) -> bool {
        self@.well_formed()
    }

    /// The path of the track to play.
    pub fn path(&self) -> (r: &str)
        ensures
            r@ == self@.path,
    {
        self.path.as_str()
    }

    /// The step that the caller is to do now.
    pub fn step(&self) -> (r: PlayStep)
        ensures
            r == self@.step(),
            self@.well_formed(),
    {
        proof {
            use_type_invariant(self);
        }
        match self.stage {
            Stage::Settling => PlayStep::Settle { millis: SETTLE_MILLIS },
            Stage::Opening => PlayStep::OpenFile,
            Stage::BackingOff => PlayStep::Backoff { millis: BACKOFF_MILLIS },
            Stage::Decoding => PlayStep::Decode,
            Stage::AcquiringDevice => PlayStep::AcquireDevice,
            Stage::CreatingSink => PlayStep::CreateSink,
            Stage::Starting => PlayStep::Start,
        }
    }

    /// Takes note of how the step went and says where the request stands.
    /// The player is told of the track only where it has started to play.
    pub fn advance(self, player: &mut AudioPlayer, outcome: Outcome) -> (progress: Progress)
        ensures
            self@.well_formed(),
            progress@ == self@.next(outcome@),
            final(player)@ == player_after(old(player)@, progress@),
            final(player)@.well_formed(),
    {
        proof {
            use_type_invariant(&self);
            use_type_invariant(&*player);
        }
        let PlaySession { path, stage, failures } = self;
        match (stage, outcome) {
            (Stage::Settling, _) => Progress::Continue(
                PlaySession { path, stage: Stage::Opening, failures },
            ),
            (Stage::Opening, Outcome::Done) => Progress::Continue(
                PlaySession { path, stage: Stage::Decoding, failures },
            ),
            (Stage::Opening, Outcome::Failed(reason)) => {
                if failures + 1 < MAX_OPEN_ATTEMPTS {
                    Progress::Continue(
                        PlaySession { path, stage: Stage::BackingOff, failures: failures + 1 },
                    )
                } else {
                    Progress::Failed(Error::NotFound { retries: MAX_OPEN_ATTEMPTS, reason })
                }
            },
            (Stage::BackingOff, _) => Progress::Continue(
                PlaySession { path, stage: Stage::Opening, failures },
            ),
            (Stage::Decoding, Outcome::Done) => Progress::Continue(
                PlaySession { path, stage: Stage::AcquiringDevice, failures },
            ),
            (Stage::Decoding, Outcome::Failed(reason)) => Progress::Failed(
                Error::DecodeError(reason),
            ),
            (Stage::AcquiringDevice, Outcome::Done) => Progress::Continue(
                PlaySession { path, stage: Stage::CreatingSink, failures },
            ),
            (Stage::AcquiringDevice, Outcome::Failed(reason)) => Progress::Failed(
                Error::DeviceError(reason),
            ),
            (Stage::CreatingSink, Outcome::Done) => Progress::Continue(
                PlaySession { path, stage: Stage::Starting, failures },
            ),
            (Stage::CreatingSink, Outcome::Failed(reason)) => Progress::Failed(
                Error::DeviceError(reason),
            ),
            (Stage::Starting, Outcome::Done) => {
                player.start(path.clone());
                Progress::Started(path)
            },
            (Stage::Starting, Outcome::Failed(reason)) => Progress::Failed(
                Error::DeviceError(reason),
            ),
        }
    }
}

/// Every step leaves a request that goes on with attempts to spare, and
/// brings it nearer to its end.
pub proof fn lemma_next_goes_on(session: SessionState, outcome: OutcomeView)
    requires
        session.well_formed(),
    ensures
        session.next(outcome) matches ProgressView::Continue(later) ==> later.well_formed()
            && later.path == session.path && later.steps_left() < session.steps_left(),
        session.next(outcome) matches ProgressView::Started(path) ==> path == session.path,
        0 < session.steps_left() <= MAX_STEPS,
{
}

/// A play request ends within `MAX_STEPS` steps, however they go.
pub proof fn lemma_session_ends(session: SessionState, outcomes: Seq<OutcomeView>)
    requires
        session.well_formed(),
        outcomes.len() >= session.steps_left(),
    ensures
        !(session.run(outcomes) is Continue),
    decreases outcomes.len(),
{
    lemma_next_goes_on(session, outcomes.first());
    match session.next(outcomes.first()) {
        ProgressView::Continue(later) => {
            lemma_session_ends(later, outcomes.drop_first());
        },
        _ => {},
    }
}

/// Whatever the outcomes, a request takes no more steps, opens the file no
/// more often and waits no longer than is left to it where it stands.
pub proof fn lemma_session_within_bounds(session: SessionState, outcomes: Seq<OutcomeView>)
    requires
        session.well_formed(),
    ensures
        session.steps(outcomes).len() <= session.steps_left(),
        session.steps(outcomes).len() <= outcomes.len(),
        opens(session.steps(outcomes)) <= session.opens_left(),
        total_wait(session.steps(outcomes)) <= session.wait_left(),
    decreases outcomes.len(),
{
    if outcomes.len() > 0 {
        lemma_next_goes_on(session, outcomes.first());
        let rest = match session.next(outcomes.first()) {
            ProgressView::Continue(later) => {
                lemma_session_within_bounds(later, outcomes.drop_first());
                later.steps(outcomes.drop_first())
            },
            _ => Seq::empty(),
        };
        let all = seq![session.step()] + rest;
        assert(all.first() == session.step());
        assert(all.drop_first() =~= rest);
        assert(all.len() > 0 && all.drop_first() == rest);
        assert(opens(all) == opens(rest) + if session.step() == PlayStep::OpenFile {
            1int
        } else {
            0int
        });
        assert(total_wait(all) == wait_of(session.step()) + total_wait(rest));
    }
}

/// A play request takes at most `MAX_STEPS` steps, opens the file at most
/// `MAX_OPEN_ATTEMPTS` times, and waits once to settle and once between two
/// attempts to open the file, at most.
pub proof fn lemma_play_within_bounds(path: Seq<char>, outcomes: Seq<OutcomeView>)
    ensures
        SessionState::begin(path).steps(outcomes).len() <= MAX_STEPS,
        opens(SessionState::begin(path).steps(outcomes)) <= MAX_OPEN_ATTEMPTS,
        total_wait(SessionState::begin(path).steps(outcomes)) <= SETTLE_MILLIS + BACKOFF_MILLIS * (
        MAX_OPEN_ATTEMPTS - 1),
{
    lemma_session_within_bounds(SessionState::begin(path), outcomes);
}

/// A request plays its own track or none: where it ends started, the track
/// is the one asked for.
pub proof fn lemma_session_starts_own_track(session: SessionState, outcomes: Seq<OutcomeView>)
    requires
        session.well_formed(),
    ensures
        session.run(outcomes) matches ProgressView::Started(path) ==> path == session.path,
        session.run(outcomes) matches ProgressView::Continue(later) ==> later.path
            == session.path && later.well_formed(),
    decreases outcomes.len(),
{
    if outcomes.len() > 0 {
        lemma_next_goes_on(session, outcomes.first());
        match session.next(outcomes.first()) {
            ProgressView::Continue(later) => {
                lemma_session_starts_own_track(later, outcomes.drop_first());
            },
            _ => {},
        }
    }
}

/// Opening the file is given up after three failures in a row, with what the
/// last of them reported, and the waits between them change nothing.
pub proof fn lemma_open_gives_up(
    path: Seq<char>,
    settled: OutcomeView,
    first: Seq<char>,
    waited: OutcomeView,
    second: Seq<char>,
    waited_again: OutcomeView,
    third: Seq<char>,
)
    ensures
        SessionState::begin(path).run(
            seq![
                settled,
                OutcomeView::Failed(first),
                waited,
                OutcomeView::Failed(second),
                waited_again,
                OutcomeView::Failed(third),
            ],
        ) == ProgressView::Failed(ErrorView::NotFound { retries: MAX_OPEN_ATTEMPTS, reason: third }),
{
    reveal_with_fuel(SessionState::run, 7);
    let all = seq![
        settled,
        OutcomeView::Failed(first),
        waited,
        OutcomeView::Failed(second),
        waited_again,
        OutcomeView::Failed(third),
    ];
    let r1 = all.drop_first();
    let r2 = r1.drop_first();
    let r3 = r2.drop_first();
    let r4 = r3.drop_first();
    let r5 = r4.drop_first();
    assert(all.first() == settled && r1.first() == OutcomeView::Failed(first) && r2.first()
        == waited && r3.first() == OutcomeView::Failed(second) && r4.first() == waited_again
        && r5.first() == OutcomeView::Failed(third));
}

} // verus!
