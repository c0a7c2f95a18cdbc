//! The state of the player and the protocol by which a watcher learns that
//! its track has finished.
//!
//! The player holds at most one sink with its output device, and the path of
//! the track that it takes to be the one playing. A watcher is bound to the
//! path of one play request. It polls; once it finds the sink drained it
//! reports the end of its track only if the player's current path is still
//! its own, and the player forgets the path with that report, so that no
//! second report follows.

use vstd::prelude::*;

verus! {

/// How long a watcher waits between two polls, in milliseconds.
pub const POLL_MILLIS: u64 = 100;

/// The state of the player as the contracts speak of it.
pub struct PlayerState {
    /// Whether the player holds a sink.
    pub sink: bool,
    /// Whether the player holds an output device.
    pub device: bool,
    /// The path of the track taken to be playing.
    pub current_path: Option<Seq<char>>,
}

/// What a poll tells its watcher.
#[derive(Debug, Clone, Copy, PartialEq, Eq, Structural)]
pub enum Verdict {
    /// Audio is still queued: poll again after the interval.
    KeepWatching,
    /// The watcher's track has finished: notify, and watch no longer.
    Finished,
    /// The track was stopped or replaced: watch no longer, and stay silent.
    Superseded,
}

/// What can happen to the player.
pub enum Command {
    /// The sink and the device are released and the path is forgotten. Every
    /// play request begins with this.
    Stop,
    /// Playback of the track at this path has started on a new sink and device.
    Start(Seq<char>),
    /// The watcher of the track at `watched` polls, and the sink, if there is
    /// one, reports whether its queue is empty.
    Poll { watched: Seq<char>, queue_empty: bool },
}

impl PlayerState {
    /// The state of a player that holds nothing.
    pub open spec fn idle() -> PlayerState {
        PlayerState { sink: false, device: false, current_path: None }
    }

    /// The state of a player that has just started the track at `path`.
    pub open spec fn playing(path: Seq<char>) -> PlayerState {
        PlayerState { sink: true, device: true, current_path: Some(path) }
    }

    /// A sink is held with its device and never without, and a path is
    /// current only while a sink is held.
    pub open spec fn well_formed(self) -> bool {
        self.sink == self.device && (self.current_path is Some ==> self.sink)
    }

    /// Whether a poll finds nothing left to play: there is no sink, or the
    /// sink reports an empty queue.
    pub open spec fn drained(self, queue_empty: bool) -> bool {
        !self.sink || queue_empty
    }

    /// What a poll tells the watcher of the track at `watched`.
    pub open spec fn verdict(self, watched: Seq<char>, queue_empty: bool) -> Verdict {
        if !self.drained(queue_empty) {
            Verdict::KeepWatching
        } else if self.current_path == Some(watched) {
            Verdict::Finished
        } else {
            Verdict::Superseded
        }
    }

    /// The state after a command.
    pub open spec fn apply(self, command: Command) -> PlayerState {
        match command {
            Command::Stop => PlayerState::idle(),
            Command::Start(path) => PlayerState::playing(path),
            Command::Poll { watched, queue_empty } => if self.verdict(watched, queue_empty)
                == Verdict::Finished {
                PlayerState { current_path: None, ..self }
            } else {
                self
            },
        }
    }

    /// The path of which a command has the end notified, if it has any.
    pub open spec fn notice(self, command: Command) -> Option<Seq<char>> {
        match command {
            Command::Poll { watched, queue_empty } => if self.verdict(watched, queue_empty)
                == Verdict::Finished {
                Some(watched)
            } else {
                None
            },
            _ => None,
        }
    }

    /// The state after a sequence of commands.
    pub open spec fn run(self, commands: Seq<Command>) -> PlayerState
        decreases commands.len(),
    {
        if commands.len() == 0 {
            self
        } else {
            self.run(commands.drop_last()).apply(commands.last())
        }
    }

    /// The paths of which a sequence of commands has the end notified, in order.
    pub open spec fn notices(self, commands: Seq<Command>) -> Seq<Seq<char>>
        decreases commands.len(),
    {
        if commands.len() == 0 {
            Seq::empty()
        } else {
            let earlier = self.notices(commands.drop_last());
            match self.run(commands.drop_last()).notice(commands.last()) {
                Some(path) => earlier.push(path),
                None => earlier,
            }
        }
    }
}

/// Every command is a poll.
pub open spec fn only_polls(commands: Seq<Command>) -> bool {
    forall|i: int| 0 <= i < commands.len() ==> #[trigger] commands[i] is Poll
}

/// Every command is a poll that finds audio queued.
pub open spec fn only_busy_polls(commands: Seq<Command>) -> bool {
    forall|i: int|
        0 <= i < commands.len() ==> (#[trigger] commands[i] matches Command::Poll {
            queue_empty,
            ..
        } && !queue_empty)
}

/// The two commands of a play request that succeeds.
pub open spec fn play(path: Seq<char>) -> Seq<Command> {
    seq![Command::Stop, Command::Start(path)]
}

/// The player.
#[derive(Debug)]
pub struct AudioPlayer {
    sink: bool,
    device: bool,
    current_path: Option<String>,
}

impl View for AudioPlayer {
    type V = PlayerState;

    closed spec fn view(&self) -> PlayerState {
        PlayerState {
            sink: self.sink,
            device: self.device,
            current_path: match self.current_path {
                Some(path) => Some(path@),
                None => None,
            },
        }
    }
}

impl AudioPlayer {
    #[verifier::type_invariant]
    pub(crate) open spec fn holds_together(self) -> bool {
        self@.well_formed()
    }

    /// A player that holds nothing.
    pub fn new() -> (r: Self)
        ensures
            r@ == PlayerState::idle(),
            r@.well_formed(),
    {
        AudioPlayer { sink: false, device: false, current_path: None }
    }

    /// Gives up the sink and the device and forgets the path. Returns whether
    /// there was a sink to stop.
    pub fn stop(&mut self) -> (held: bool)
        ensures
            held == old(self)@.sink,
            final(self)@ == old(self)@.apply(Command::Stop),
            final(self)@.well_formed(),
    {
        let held = self.sink;
        *self = AudioPlayer::new();
        held
    }

    /// Records that playback of the track at `path` has started on a new sink
    /// and device.
    pub(crate) fn start(&mut self, path: String)
        ensures
            final(self)@ == old(self)@.apply(Command::Start(path@)),
            final(self)@.well_formed(),
    {
        *self = AudioPlayer { sink: true, device: true, current_path: Some(path) };
    }

    /// The path of the track taken to be playing.
    pub fn get_current_path(&self) -> (r: Option<String>)
        ensures
            match r {
                Some(path) => self@.current_path == Some(path@),
                None => self@.current_path is None,
            },
            self@.well_formed(),
    {
        proof {
            use_type_invariant(self);
        }
        match &self.current_path {
            Some(path) => Some(path.clone()),
            None => None,
        }
    }

    /// Whether audio is playing: a sink is held and its queue is not empty.
    /// `queue_empty` is what the sink reports; it is not looked at where no
    /// sink is held.
    pub fn is_playing(&self, queue_empty: bool) -> (r: bool)
        ensures
            r == !self@.drained(queue_empty),
            self@.well_formed(),
    {
        proof {
            use_type_invariant(self);
        }
        self.sink && !queue_empty
    }

    /// One poll of the watcher of the track at `watched`. `queue_empty` is
    /// what the sink reports; it is not looked at where no sink is held.
    pub fn poll(&mut self, watched: &str, queue_empty: bool) -> (verdict: Verdict)
        ensures
            verdict == old(self)@.verdict(watched@, queue_empty),
            final(self)@ == old(self)@.apply(Command::Poll { watched: watched@, queue_empty }),
            old(self)@.well_formed(),
            final(self)@.well_formed(),
    {
        proof {
            use_type_invariant(&*self);
        }
        if self.sink && !queue_empty {
            return Verdict::KeepWatching;
        }
        let same = match &self.current_path {
            Some(path) => *path == watched.to_owned(),
            None => false,
        };
        if same {
            self.current_path = None;
            Verdict::Finished
        } else {
            Verdict::Superseded
        }
    }
}

/// Stopping a stopped player changes nothing.
pub proof fn lemma_stop_is_idempotent(state: PlayerState)
    ensures
        state.apply(Command::Stop).apply(Command::Stop) == state.apply(Command::Stop),
        !state.apply(Command::Stop).sink,
        !state.apply(Command::Stop).device,
        state.apply(Command::Stop).current_path is None,
{
}

/// Every command leaves a well-formed state well-formed.
pub proof fn lemma_apply_well_formed(state: PlayerState, command: Command)
    requires
        state.well_formed(),
    ensures
        state.apply(command).well_formed(),
{
}

/// Every sequence of commands leaves a well-formed state well-formed.
pub proof fn lemma_run_well_formed(state: PlayerState, commands: Seq<Command>)
    requires
        state.well_formed(),
    ensures
        state.run(commands).well_formed(),
    decreases commands.len(),
{
    if commands.len() > 0 {
        lemma_run_well_formed(state, commands.drop_last());
    }
}

/// Running two sequences of commands one after the other.
pub proof fn lemma_run_concat(state: PlayerState, first: Seq<Command>, second: Seq<Command>)
    ensures
        state.run(first + second) == state.run(first).run(second),
        state.notices(first + second) == state.notices(first) + state.run(first).notices(second),
    decreases second.len(),
{
    if second.len() == 0 {
        assert(first + second =~= first);
        assert(state.notices(first) + Seq::<Seq<char>>::empty() =~= state.notices(first));
    } else {
        assert((first + second).drop_last() =~= first + second.drop_last());
        assert((first + second).last() == second.last());
        lemma_run_concat(state, first, second.drop_last());
        let earlier = state.notices(first) + state.run(first).notices(second.drop_last());
        match state.run(first).run(second.drop_last()).notice(second.last()) {
            Some(path) => {
                assert(earlier.push(path) =~= state.notices(first) + state.run(first).notices(
                    second.drop_last(),
                ).push(path));
            },
            None => {},
        }
    }
}

/// Polls notify at most once, and only of the current path; they leave the
/// sink and the device as they are, and the path either as it is or forgotten.
pub proof fn lemma_polls_notify_once(state: PlayerState, polls: Seq<Command>)
    requires
        only_polls(polls),
    ensures
        state.notices(polls).len() <= 1,
        forall|i: int|
            0 <= i < state.notices(polls).len() ==> state.current_path == Some(
                #[trigger] state.notices(polls)[i],
            ),
        state.run(polls).sink == state.sink,
        state.run(polls).device == state.device,
        state.run(polls).current_path == if state.notices(polls).len() == 0 {
            state.current_path
        } else {
            None
        },
    decreases polls.len(),
{
    if polls.len() > 0 {
        assert(polls.last() is Poll);
        assert(only_polls(polls.drop_last()));
        lemma_polls_notify_once(state, polls.drop_last());
    }
}

/// Polls notify of nothing and change nothing where no path is current.
pub proof fn lemma_polls_without_path_are_silent(state: PlayerState, polls: Seq<Command>)
    requires
        state.current_path is None,
        only_polls(polls),
    ensures
        state.notices(polls) == Seq::<Seq<char>>::empty(),
        state.run(polls) == state,
{
    lemma_polls_notify_once(state, polls);
    if state.notices(polls).len() > 0 {
        assert(state.current_path == Some(state.notices(polls)[0]));
    }
    assert(state.notices(polls) =~= Seq::<Seq<char>>::empty());
}

/// Polls that find audio queued in a sink notify of nothing and change nothing.
pub proof fn lemma_busy_polls_are_silent(state: PlayerState, polls: Seq<Command>)
    requires
        state.sink,
        only_busy_polls(polls),
    ensures
        state.notices(polls) == Seq::<Seq<char>>::empty(),
        state.run(polls) == state,
    decreases polls.len(),
{
    if polls.len() > 0 {
        assert(polls.last() is Poll);
        assert(only_busy_polls(polls.drop_last()));
        lemma_busy_polls_are_silent(state, polls.drop_last());
    }
}

/// A play request that succeeds leaves the player playing its track, whatever
/// the state before, and notifies of nothing.
pub proof fn lemma_play(state: PlayerState, path: Seq<char>)
    ensures
        state.run(play(path)) == PlayerState::playing(path),
        state.notices(play(path)) == Seq::<Seq<char>>::empty(),
{
    reveal_with_fuel(PlayerState::run, 3);
    reveal_with_fuel(PlayerState::notices, 3);
    assert(play(path).drop_last() =~= seq![Command::Stop]);
    assert(play(path).drop_last().drop_last() =~= Seq::<Command>::empty());
}

/// A play request that fails is never notified of: it leaves the player
/// holding nothing, and no poll after it notifies.
pub proof fn lemma_failed_play_is_silent(state: PlayerState, after: Seq<Command>)
    requires
        only_polls(after),
    ensures
        state.run(seq![Command::Stop]) == PlayerState::idle(),
        state.notices(seq![Command::Stop] + after) == Seq::<Seq<char>>::empty(),
{
    let stop = seq![Command::Stop];
    lemma_single(state, Command::Stop);
    lemma_polls_without_path_are_silent(PlayerState::idle(), after);
    lemma_run_concat(state, stop, after);
    assert(state.notices(stop + after) =~= Seq::<Seq<char>>::empty());
}

/// A track that is replaced by another before it has finished is never
/// notified of: of a play of `first`, polls that find audio queued, a play of
/// `second` with any polls while it is under way, and any polls after it, at
/// most one notification comes, and it bears the path `second`.
pub proof fn lemma_replaced_track_is_silent(
    state: PlayerState,
    first: Seq<char>,
    second: Seq<char>,
    during_first: Seq<Command>,
    meanwhile: Seq<Command>,
    after: Seq<Command>,
)
    requires
        only_busy_polls(during_first),
        only_polls(meanwhile),
        only_polls(after),
    ensures
        ({
            let all = play(first) + during_first + seq![Command::Stop] + meanwhile + seq![
                Command::Start(second),
            ] + after;
            &&& state.notices(all).len() <= 1
            &&& forall|i: int| 0 <= i < state.notices(all).len() ==> state.notices(all)[i] == second
            &&& first != second ==> !state.notices(all).contains(first)
        }),
{
    let stop = seq![Command::Stop];
    let start = seq![Command::Start(second)];
    let s1 = state.run(play(first));
    lemma_play(state, first);
    lemma_busy_polls_are_silent(s1, during_first);
    lemma_run_concat(state, play(first), during_first);
    let c2 = play(first) + during_first;
    assert(state.notices(c2) =~= Seq::<Seq<char>>::empty());
    lemma_single(s1, Command::Stop);
    lemma_run_concat(state, c2, stop);
    let c3 = c2 + stop;
    let s3 = state.run(c3);
    assert(s3 == PlayerState::idle());
    assert(state.notices(c3) =~= Seq::<Seq<char>>::empty());
    lemma_polls_without_path_are_silent(s3, meanwhile);
    lemma_run_concat(state, c3, meanwhile);
    let c4 = c3 + meanwhile;
    let s4 = state.run(c4);
    assert(state.notices(c4) =~= Seq::<Seq<char>>::empty());
    lemma_single(s4, Command::Start(second));
    lemma_run_concat(state, c4, start);
    let c5 = c4 + start;
    let s5 = state.run(c5);
    assert(s5 == PlayerState::playing(second));
    assert(state.notices(c5) =~= Seq::<Seq<char>>::empty());
    lemma_polls_notify_once(s5, after);
    lemma_run_concat(state, c5, after);
    let all = c5 + after;
    assert(state.notices(all) =~= s5.notices(after));
    if first != second && state.notices(all).contains(first) {
        let i = choose|i: int| 0 <= i < state.notices(all).len() && state.notices(all)[i] == first;
        assert(state.notices(all)[i] == second);
    }
}

/// A track that is stopped before it has finished is never notified of: of a
/// play, polls that find audio queued, a stop and any polls after it, no
/// notification comes.
pub proof fn lemma_stopped_track_is_silent(
    state: PlayerState,
    path: Seq<char>,
    during: Seq<Command>,
    after: Seq<Command>,
)
    requires
        only_busy_polls(during),
        only_polls(after),
    ensures
        state.notices(play(path) + during + seq![Command::Stop] + after) == Seq::<
            Seq<char>,
        >::empty(),
{
    let stop = seq![Command::Stop];
    let s1 = state.run(play(path));
    lemma_play(state, path);
    lemma_busy_polls_are_silent(s1, during);
    lemma_run_concat(state, play(path), during);
    let c2 = play(path) + during;
    assert(state.notices(c2) =~= Seq::<Seq<char>>::empty());
    lemma_single(s1, Command::Stop);
    lemma_run_concat(state, c2, stop);
    let c3 = c2 + stop;
    assert(state.run(c3) == PlayerState::idle());
    assert(state.notices(c3) =~= Seq::<Seq<char>>::empty());
    lemma_polls_without_path_are_silent(PlayerState::idle(), after);
    lemma_run_concat(state, c3, after);
    assert(state.notices(c3 + after) =~= Seq::<Seq<char>>::empty());
}

/// A track that plays to its end is notified of exactly once: of a play,
/// polls that find audio queued, the first poll of its watcher that finds the
/// queue empty and any polls after it, one notification comes, with that
/// poll, and it bears the track's path.
pub proof fn lemma_finished_track_notifies_once(
    state: PlayerState,
    path: Seq<char>,
    during: Seq<Command>,
    after: Seq<Command>,
)
    requires
        only_busy_polls(during),
        only_polls(after),
    ensures
        ({
            let found_empty = Command::Poll { watched: path, queue_empty: true };
            let until_then = play(path) + during;
            &&& state.notices(until_then) == Seq::<Seq<char>>::empty()
            &&& state.notices(until_then + seq![found_empty]) == seq![path]
            &&& state.notices(until_then + seq![found_empty] + after) == seq![path]
        }),
{
    let found_empty = Command::Poll { watched: path, queue_empty: true };
    let s1 = state.run(play(path));
    lemma_play(state, path);
    lemma_busy_polls_are_silent(s1, during);
    lemma_run_concat(state, play(path), during);
    let c2 = play(path) + during;
    assert(state.notices(c2) =~= Seq::<Seq<char>>::empty());
    lemma_single(s1, found_empty);
    lemma_run_concat(state, c2, seq![found_empty]);
    let c3 = c2 + seq![found_empty];
    assert(state.notices(c3) =~= seq![path]);
    let s3 = state.run(c3);
    assert(s3.current_path is None);
    lemma_polls_without_path_are_silent(s3, after);
    lemma_run_concat(state, c3, after);
    assert(state.notices(c3 + after) =~= seq![path]);
}

/// Running a single command.
proof fn lemma_single(state: PlayerState, command: Command)
    ensures
        state.run(seq![command]) == state.apply(command),
        state.notices(seq![command]) == match state.notice(command) {
            Some(path) => seq![path],
            None => Seq::empty(),
        },
{
    reveal_with_fuel(PlayerState::run, 2);
    reveal_with_fuel(PlayerState::notices, 2);
    assert(seq![command].drop_last() =~= Seq::<Command>::empty());
    assert(Seq::<Seq<char>>::empty().push(command->Poll_watched) =~= seq![command->Poll_watched]);
}

} // verus!
