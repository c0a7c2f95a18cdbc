use audio_browser::error::Error;
use audio_browser::player::AudioPlayer;
use audio_browser::session::{
    Outcome, PlaySession, PlayStep, Progress, BACKOFF_MILLIS, MAX_OPEN_ATTEMPTS, MAX_STEPS,
    SETTLE_MILLIS,
};

fn failed(message: &str) -> Outcome {
    Outcome::Failed(message.to_string())
}

/// Feeds `outcomes` to a new session and returns the steps handed out and
/// where the session ended.
fn drive(
    player: &mut AudioPlayer,
    path: &str,
    outcomes: Vec<Outcome>,
) -> (Vec<PlayStep>, Progress) {
    let mut session = player.play(path);
    let mut steps = Vec::new();
    let mut pending = outcomes.into_iter();
    loop {
        steps.push(session.step());
        let outcome = match pending.next() {
            Some(outcome) => outcome,
            None => return (steps, Progress::Continue(session)),
        };
        match session.advance(player, outcome) {
            Progress::Continue(next) => session = next,
            ended => return (steps, ended),
        }
    }
}

fn expect_failure(progress: Progress) -> Error {
    match progress {
        Progress::Failed(e) => e,
        other => panic!("{:?}", other),
    }
}

fn continues(progress: Progress) -> PlaySession {
    match progress {
        Progress::Continue(session) => session,
        other => panic!("{:?}", other),
    }
}

#[test]
fn the_fixed_delays_and_bounds() {
    assert_eq!(SETTLE_MILLIS, 50);
    assert_eq!(BACKOFF_MILLIS, 100);
    assert_eq!(MAX_OPEN_ATTEMPTS, 3);
    assert_eq!(MAX_STEPS, 10);
}

#[test]
fn steps_of_a_play_that_succeeds() {
    let mut player = AudioPlayer::new();
    let (steps, end) = drive(&mut player, "/music/a.mp3", vec![Outcome::Done; 6]);
    assert_eq!(
        steps,
        vec![
            PlayStep::Settle { millis: 50 },
            PlayStep::OpenFile,
            PlayStep::Decode,
            PlayStep::AcquireDevice,
            PlayStep::CreateSink,
            PlayStep::Start,
        ]
    );
    match end {
        Progress::Started(path) => assert_eq!(path, "/music/a.mp3"),
        other => panic!("{:?}", other),
    }
    assert_eq!(player.get_current_path(), Some("/music/a.mp3".to_string()));
}

#[test]
fn session_keeps_its_path() {
    let mut player = AudioPlayer::new();
    let session = player.play("/music/a.mp3");
    assert_eq!(session.path(), "/music/a.mp3");
    let session = continues(session.advance(&mut player, Outcome::Done));
    assert_eq!(session.path(), "/music/a.mp3");
    assert_eq!(session.step(), PlayStep::OpenFile);
}

#[test]
fn open_is_given_up_after_three_failures() {
    let mut player = AudioPlayer::new();
    let outcomes = vec![
        Outcome::Done,
        failed("busy"),
        Outcome::Done,
        failed("still busy"),
        Outcome::Done,
        failed("No such file or directory (os error 2)"),
    ];
    let (steps, end) = drive(&mut player, "/gone.mp3", outcomes);
    assert_eq!(
        steps,
        vec![
            PlayStep::Settle { millis: 50 },
            PlayStep::OpenFile,
            PlayStep::Backoff { millis: 100 },
            PlayStep::OpenFile,
            PlayStep::Backoff { millis: 100 },
            PlayStep::OpenFile,
        ]
    );
    assert_eq!(
        expect_failure(end),
        Error::NotFound {
            retries: 3,
            reason: "No such file or directory (os error 2)".to_string()
        }
    );
    assert_eq!(player.get_current_path(), None);
    assert!(!player.is_playing(false));
}

#[test]
fn open_succeeds_at_the_second_attempt() {
    let mut player = AudioPlayer::new();
    let outcomes = vec![
        Outcome::Done,
        failed("busy"),
        Outcome::Done,
        Outcome::Done,
        Outcome::Done,
        Outcome::Done,
        Outcome::Done,
        Outcome::Done,
    ];
    let (steps, end) = drive(&mut player, "a.ogg", outcomes);
    assert_eq!(
        steps,
        vec![
            PlayStep::Settle { millis: 50 },
            PlayStep::OpenFile,
            PlayStep::Backoff { millis: 100 },
            PlayStep::OpenFile,
            PlayStep::Decode,
            PlayStep::AcquireDevice,
            PlayStep::CreateSink,
            PlayStep::Start,
        ]
    );
    assert!(matches!(end, Progress::Started(_)));
}

#[test]
fn open_succeeds_at_the_last_attempt() {
    let mut player = AudioPlayer::new();
    let mut outcomes = vec![Outcome::Done, failed("1"), Outcome::Done, failed("2")];
    outcomes.extend(vec![Outcome::Done; 6]);
    let (steps, end) = drive(&mut player, "a.ogg", outcomes);
    assert_eq!(steps.len(), 10);
    assert_eq!(steps.iter().filter(|s| **s == PlayStep::OpenFile).count(), 3);
    assert_eq!(steps.iter().filter(|s| matches!(s, PlayStep::Backoff { .. })).count(), 2);
    assert!(matches!(end, Progress::Started(_)));
    assert_eq!(player.get_current_path(), Some("a.ogg".to_string()));
}

#[test]
fn waits_cannot_fail() {
    let mut player = AudioPlayer::new();
    let session = player.play("a.ogg");
    let session = continues(session.advance(&mut player, failed("ignored")));
    assert_eq!(session.step(), PlayStep::OpenFile);
    let session = continues(session.advance(&mut player, failed("busy")));
    assert_eq!(session.step(), PlayStep::Backoff { millis: 100 });
    let session = continues(session.advance(&mut player, failed("ignored")));
    assert_eq!(session.step(), PlayStep::OpenFile);
}

#[test]
fn decode_failure_is_not_retried() {
    let mut player = AudioPlayer::new();
    let (steps, end) =
        drive(&mut player, "a.m4a", vec![Outcome::Done, Outcome::Done, failed("unrecognized format")]);
    assert_eq!(steps.len(), 3);
    assert_eq!(steps[2], PlayStep::Decode);
    assert_eq!(expect_failure(end), Error::DecodeError("unrecognized format".to_string()));
    assert_eq!(player.get_current_path(), None);
}

#[test]
fn device_failure_is_not_retried() {
    let mut player = AudioPlayer::new();
    let outcomes = vec![Outcome::Done, Outcome::Done, Outcome::Done, failed("no device")];
    let (steps, end) = drive(&mut player, "a.wav", outcomes);
    assert_eq!(steps.len(), 4);
    assert_eq!(steps[3], PlayStep::AcquireDevice);
    assert_eq!(expect_failure(end), Error::DeviceError("no device".to_string()));
    assert_eq!(player.get_current_path(), None);
}

#[test]
fn sink_failure_is_a_device_error() {
    let mut player = AudioPlayer::new();
    let mut outcomes = vec![Outcome::Done; 4];
    outcomes.push(failed("no sink"));
    let (steps, end) = drive(&mut player, "a.wav", outcomes);
    assert_eq!(steps[4], PlayStep::CreateSink);
    assert_eq!(expect_failure(end), Error::DeviceError("no sink".to_string()));
}

#[test]
fn start_failure_is_a_device_error() {
    let mut player = AudioPlayer::new();
    let mut outcomes = vec![Outcome::Done; 5];
    outcomes.push(failed("lost"));
    let (steps, end) = drive(&mut player, "a.wav", outcomes);
    assert_eq!(steps[5], PlayStep::Start);
    assert_eq!(expect_failure(end), Error::DeviceError("lost".to_string()));
    assert_eq!(player.get_current_path(), None);
    assert!(!player.is_playing(false));
}

#[test]
fn open_failures_are_counted_per_request() {
    let mut player = AudioPlayer::new();
    let (_, end) = drive(
        &mut player,
        "a.wav",
        vec![Outcome::Done, failed("1"), Outcome::Done, failed("2"), Outcome::Done, failed("3")],
    );
    assert!(matches!(end, Progress::Failed(Error::NotFound { retries: 3, .. })));
    // A new request starts counting again.
    let (steps, end) = drive(
        &mut player,
        "a.wav",
        vec![Outcome::Done, failed("1"), Outcome::Done, failed("2"), Outcome::Done, Outcome::Done],
    );
    assert_eq!(steps.len(), 7);
    assert_eq!(steps[6], PlayStep::Decode);
    match end {
        Progress::Continue(session) => assert_eq!(session.step(), PlayStep::Decode),
        other => panic!("{:?}", other),
    }
}

#[test]
fn player_holds_nothing_while_a_request_is_under_way() {
    let mut player = AudioPlayer::new();
    let (_, end) = drive(&mut player, "first.mp3", vec![Outcome::Done; 6]);
    assert!(matches!(end, Progress::Started(_)));
    assert!(player.is_playing(false));
    let mut session = player.play("second.mp3");
    for _ in 0..5 {
        assert_eq!(player.get_current_path(), None);
        assert!(!player.is_playing(false));
        session = continues(session.advance(&mut player, Outcome::Done));
    }
    assert_eq!(session.step(), PlayStep::Start);
    assert!(matches!(session.advance(&mut player, Outcome::Done), Progress::Started(_)));
    assert_eq!(player.get_current_path(), Some("second.mp3".to_string()));
}

fn wait_of(step: &PlayStep) -> u64 {
    match step {
        PlayStep::Settle { millis } => *millis,
        PlayStep::Backoff { millis } => *millis,
        _ => 0,
    }
}

#[test]
fn a_request_waits_a_quarter_second_at_most() {
    let mut player = AudioPlayer::new();
    let worst = vec![
        Outcome::Done,
        failed("1"),
        Outcome::Done,
        failed("2"),
        Outcome::Done,
        failed("3"),
    ];
    let (steps, _) = drive(&mut player, "a.wav", worst);
    assert_eq!(steps.iter().map(wait_of).sum::<u64>(), 250);
    let (steps, _) = drive(&mut player, "a.wav", vec![Outcome::Done; 6]);
    assert_eq!(steps.iter().map(wait_of).sum::<u64>(), 50);
}

#[test]
fn no_request_takes_more_than_ten_steps() {
    // Every pattern of failures over twelve outcomes.
    for pattern in 0u32..4096 {
        let mut player = AudioPlayer::new();
        let mut outcomes = Vec::new();
        for bit in 0..12 {
            outcomes.push(if pattern & (1 << bit) == 0 { Outcome::Done } else { failed("x") });
        }
        let (steps, end) = drive(&mut player, "a.wav", outcomes);
        assert!(steps.len() <= MAX_STEPS, "{:?}", steps);
        assert!(!matches!(end, Progress::Continue(_)));
        assert!(steps.iter().filter(|s| **s == PlayStep::OpenFile).count() <= 3);
        assert!(steps.iter().map(wait_of).sum::<u64>() <= 250);
        let started = matches!(end, Progress::Started(_));
        assert_eq!(player.get_current_path().is_some(), started);
        assert_eq!(player.is_playing(false), started);
    }
}
