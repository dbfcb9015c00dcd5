use owmods_core::progress::{
    ProgressAction, ProgressBar, ProgressFinishPayload, ProgressIncrementPayload,
    ProgressMessagePayload, ProgressPayload, ProgressStartPayload, ProgressType, TrackedBar,
};

#[test]
fn test_progress_start() {
    let start = ProgressPayload::parse("Start|test|50|Definite|Download|Test Download");
    match start {
        ProgressPayload::Start(ProgressStartPayload {
            id,
            len,
            msg,
            progress_type,
            progress_action,
        }) => {
            assert_eq!(id, "test");
            assert_eq!(len, 50);
            assert!(matches!(progress_type, ProgressType::Definite));
            assert!(matches!(progress_action, ProgressAction::Download));
            assert_eq!(msg, "Test Download");
        }
        _ => {
            panic!("Start Payload Not Start!")
        }
    }
}

#[test]
fn test_progress_inc() {
    let inc = ProgressPayload::parse("Increment|test|30");
    match inc {
        ProgressPayload::Increment(ProgressIncrementPayload { id, progress }) => {
            assert_eq!(id, "test");
            assert_eq!(progress, 30);
        }
        _ => {
            panic!("Inc Payload Not Inc!");
        }
    }
}

#[test]
fn test_progress_msg() {
    let msg = ProgressPayload::parse("Msg|test|Test Msg");
    match msg {
        ProgressPayload::Msg(ProgressMessagePayload { id, msg }) => {
            assert_eq!(id, "test");
            assert_eq!(msg, "Test Msg");
        }
        _ => {
            panic!("Msg Payload Not Msg!");
        }
    }
}

#[test]
fn test_progress_finish() {
    let finish = ProgressPayload::parse("Finish|test|true|Finished");
    match finish {
        ProgressPayload::Finish(ProgressFinishPayload { id, success, msg }) => {
            assert_eq!(id, "test");
            assert!(success);
            assert_eq!(msg, "Finished");
        }
        _ => {
            panic!("Finish Payload Not Finish!");
        }
    }
}

#[test]
fn test_progress_decode_and_clamp() {
    let start = ProgressPayload::parse("Start|dl1|100|Definite|Download|Fetching Foo");
    let payload = match &start {
        ProgressPayload::Start(p) => p,
        _ => panic!("Start line did not decode to Start"),
    };
    assert_eq!(payload.id, "dl1");
    assert_eq!(payload.len, 100);
    assert!(matches!(payload.progress_type, ProgressType::Definite));
    assert!(matches!(payload.progress_action, ProgressAction::Download));
    assert_eq!(payload.msg, "Fetching Foo");
    let mut bar = TrackedBar::from_start(payload);
    let inc = ProgressPayload::parse("Increment|dl1|150");
    bar.apply(&inc);
    assert_eq!(bar.progress, 100);
}

#[test]
fn test_progress_malformed_lines_are_unknown() {
    assert!(matches!(
        ProgressPayload::parse("just an ordinary log line"),
        ProgressPayload::Unknown
    ));
    assert!(matches!(
        ProgressPayload::parse("Increment|x|notanumber"),
        ProgressPayload::Unknown
    ));
    assert!(matches!(
        ProgressPayload::parse("Start|x|99999999999999999999|Definite|Download|m"),
        ProgressPayload::Unknown
    ));
    assert!(matches!(
        ProgressPayload::parse("Finish|x"),
        ProgressPayload::Unknown
    ));
}

#[test]
fn test_progress_bar_emits_wire_lines() {
    let (mut bar, start_line) = ProgressBar::new(
        "dl1",
        10,
        "Downloading Foo",
        "Failed to download Foo",
        ProgressType::Definite,
        ProgressAction::Download,
    );
    assert_eq!(start_line, "Start|dl1|10|Definite|Download|Downloading Foo");
    let inc_line = bar.inc(4);
    assert_eq!(inc_line, "Increment|dl1|4");
    let clamped = bar.inc(100);
    assert_eq!(clamped, "Increment|dl1|10");
    let msg_line = bar.set_msg("still going");
    assert_eq!(msg_line, "Msg|dl1|still going");
    let finish_line = bar.finish(true, "Done");
    assert_eq!(finish_line, "Finish|dl1|true|Done");
}

#[test]
fn test_progress_bar_failure_message_stands_in() {
    let (mut bar, _) = ProgressBar::new(
        "x",
        5,
        "working",
        "it broke",
        ProgressType::Indefinite,
        ProgressAction::Extract,
    );
    let line = bar.finish(false, "");
    assert_eq!(line, "Finish|x|false|it broke");
}

#[test]
fn test_progress_release_emits_one_failure() {
    let (mut bar, _) = ProgressBar::new(
        "x",
        5,
        "working",
        "it broke",
        ProgressType::Definite,
        ProgressAction::Download,
    );
    let first = bar.release();
    assert_eq!(first, Some("Finish|x|false|it broke".to_string()));
    let second = bar.release();
    assert!(second.is_none());

    let (mut done_bar, _) = ProgressBar::new(
        "y",
        5,
        "working",
        "it broke",
        ProgressType::Definite,
        ProgressAction::Download,
    );
    let _ = done_bar.finish(true, "ok");
    assert!(done_bar.release().is_none());
}

#[test]
fn test_progress_round_trip_through_parse() {
    let (mut bar, start_line) = ProgressBar::new(
        "Author.Mod",
        42,
        "Fetching | with pipes",
        "failed",
        ProgressType::Indefinite,
        ProgressAction::Extract,
    );
    match ProgressPayload::parse(&start_line) {
        ProgressPayload::Start(p) => {
            assert_eq!(p.id, "Author.Mod");
            assert_eq!(p.len, 42);
            assert!(matches!(p.progress_type, ProgressType::Indefinite));
            assert!(matches!(p.progress_action, ProgressAction::Extract));
            assert_eq!(p.msg, "Fetching | with pipes");
        }
        _ => panic!("start line did not round trip"),
    }
    let inc_line = bar.inc(7);
    match ProgressPayload::parse(&inc_line) {
        ProgressPayload::Increment(p) => {
            assert_eq!(p.id, "Author.Mod");
            assert_eq!(p.progress, 7);
        }
        _ => panic!("increment line did not round trip"),
    }
}
