use combatlog::messages::{tail_event, tail_message};
use combatlog::retry::{
    failure_message, is_unauthorized, LiveRetry, RetryAction, RetryEvent, RetryNote,
    LIVE_RETRY_MAX,
};
use combatlog::session::{
    not_a_directory, report_url, session_message, shown_name, LiveLogState, Session,
    SessionAction, SessionNote, SessionPhase,
};
use combatlog::tail::TailNote;

/// The report of a session whose answers come at 100, 101 and so on.
const CREATE: SessionAction =
    SessionAction::CreateReport { name: "live.log", start_time: 105, end_time: 105 };

fn actions(include_entire_file: bool, oks: &[bool]) -> Vec<SessionAction> {
    let mut step = Session::begin(include_entire_file);
    let mut actions = vec![step.action];
    for (i, ok) in oks.iter().enumerate() {
        step = step.state.step(*ok, 100 + i as i64);
        actions.push(step.action);
    }
    actions
}

#[test]
fn a_session_runs_its_course() {
    assert_eq!(
        actions(false, &[true; 11]),
        [
            SessionAction::OpenSession,
            SessionAction::LogIn,
            SessionAction::FetchParser,
            SessionAction::LocateHarness,
            SessionAction::StartParser,
            SessionAction::ClearParser,
            CREATE,
            SessionAction::SetStartTime { start_ms: 105 },
            SessionAction::Tail { start_ms: 105 },
            SessionAction::CloseParser,
            SessionAction::TerminateReport,
            SessionAction::Done { report: true },
        ]
    );
}

#[test]
fn the_whole_file_needs_no_start_time() {
    let done = actions(true, &[true; 10]);
    assert!(!done.iter().any(|a| matches!(a, SessionAction::SetStartTime { .. })));
    assert_eq!(done[6..8], [CREATE, SessionAction::Tail { start_ms: 105 }]);
    assert_eq!(done.last(), Some(&SessionAction::Done { report: true }));
}

#[test]
fn a_partial_setup_is_cleaned_up() {
    assert_eq!(
        actions(false, &[true, true, true, true, true, true, false, true])[6..],
        [CREATE, SessionAction::CloseParser, SessionAction::Fail]
    );
    assert_eq!(
        actions(false, &[true, true, true, true, true, true, true, false, false, false])[7..],
        [
            SessionAction::SetStartTime { start_ms: 105 },
            SessionAction::CloseParser,
            SessionAction::TerminateReport,
            SessionAction::Fail,
        ]
    );
    assert_eq!(actions(false, &[false]), [SessionAction::OpenSession, SessionAction::Fail]);
}

#[test]
fn a_failed_tail_fails_the_report() {
    let s = Session {
        phase: SessionPhase::Tailing,
        include_entire_file: true,
        report: true,
        failed: false,
        start_ms: 7,
    };
    let ended = s.step(false, 0).state.step(true, 0).state.step(true, 0);
    assert_eq!(ended.action, SessionAction::Fail);
    let ended = s.step(true, 0).state.step(true, 0).state.step(false, 0);
    assert_eq!(ended.action, SessionAction::Done { report: true });
}

#[test]
fn session_notes_are_told() {
    let first = Session::begin(true);
    assert_eq!(first.notes, [SessionNote::Initializing]);
    assert_eq!(session_message(SessionNote::LoggingIn, "").state, "waiting");
    let told = |note, detail| session_message(note, detail).text;
    assert_eq!(told(SessionNote::Initializing, ""), "Initializing session...");
    assert_eq!(told(SessionNote::LoggingIn, ""), "Logging in...");
    assert_eq!(told(SessionNote::LoggedIn, "Ann"), "Logged in as Ann");
    assert_eq!(told(SessionNote::FetchingParser, ""), "Fetching latest parser...");
    assert_eq!(told(SessionNote::StartingParser, ""), "Starting parser...");
    assert_eq!(told(SessionNote::ReportCreated, "abc"), "Live report created: abc");
    assert_eq!(shown_name(None), "?");
    assert_eq!(shown_name(Some("Ann".to_string())), "Ann");
    assert_eq!(report_url("abc"), "https://www.warcraftlogs.com/reports/abc");
    assert_eq!(not_a_directory("/x"), "not a directory: /x");
}

#[test]
fn one_session_runs_at_a_time() {
    let mut state: LiveLogState<&str> = LiveLogState::new();
    assert_eq!(state.stop(), Err("no live log running"));
    assert_eq!(state.start(false, "first"), Ok(1));
    assert_eq!(state.start(false, "second"), Err("live log already running"));
    assert_eq!(state.stop, Some("first"));
    assert_eq!(state.start(true, "second"), Ok(2));
    assert_eq!(state.stop(), Ok("second"));
    assert_eq!(state.stop(), Err("no live log running"));
}

#[test]
fn an_old_session_spares_the_new_one() {
    let mut state: LiveLogState<&str> = LiveLogState::new();
    assert_eq!(state.start(false, "first"), Ok(1));
    assert_eq!(state.stop(), Ok("first"));
    assert_eq!(state.start(false, "second"), Ok(2));
    state.finish(1);
    assert_eq!(state.stop, Some("second"));
    state.finish(2);
    assert_eq!(state.stop, None);
}

#[test]
fn failures_are_retried() {
    let step = LiveRetry::begin();
    assert_eq!(step.action, RetryAction::Try);
    let step = step.state.step(RetryEvent::Failed { unauthorized: false }, false);
    assert_eq!(step.note, Some(RetryNote { attempt: 1, unauthorized: false }));
    assert_eq!(step.action, RetryAction::Wait { seconds: 30 });
    let step = step.state.step(RetryEvent::Waited, false);
    assert_eq!((step.action, step.state.attempt), (RetryAction::Try, 2));
    let step = step.state.step(RetryEvent::Succeeded, false);
    assert_eq!(step.action, RetryAction::Succeed);
}

#[test]
fn an_expired_session_logs_in_again() {
    assert!(is_unauthorized(Some(401)));
    assert!(!is_unauthorized(Some(403)));
    assert!(!is_unauthorized(None));
    let step = LiveRetry::begin().state.step(RetryEvent::Failed { unauthorized: true }, false);
    assert_eq!(step.note, Some(RetryNote { attempt: 1, unauthorized: true }));
    assert_eq!(step.action, RetryAction::LogIn);
    let step = step.state.step(RetryEvent::LoggedIn, false);
    assert_eq!(step.action, RetryAction::Wait { seconds: 3 });
    let step = step.state.step(RetryEvent::Waited, true);
    assert_eq!(step.action, RetryAction::Try);
}

#[test]
fn a_stop_ends_retries() {
    for unauthorized in [false, true] {
        let step = LiveRetry::begin().state.step(RetryEvent::Failed { unauthorized }, true);
        assert_eq!((step.action, step.note), (RetryAction::Fail, None));
    }
}

#[test]
fn failed_tries_are_told() {
    let note = RetryNote { attempt: 7, unauthorized: false };
    let told = failure_message(note, "boom").unwrap();
    assert_eq!(told.state, "retrying");
    assert_eq!(told.text, "Upload failed (attempt 7): boom");
    assert!(failure_message(RetryNote { unauthorized: true, ..note }, "boom").is_none());
}

#[test]
fn retries_take_an_hour() {
    let mut step = LiveRetry::begin();
    let mut tries = 0;
    let mut waited = 0;
    loop {
        let event = match step.action {
            RetryAction::Try => {
                tries += 1;
                RetryEvent::Failed { unauthorized: false }
            }
            RetryAction::Wait { seconds } => {
                waited += seconds;
                RetryEvent::Waited
            }
            RetryAction::LogIn => RetryEvent::LoggedIn,
            RetryAction::Succeed | RetryAction::Fail => break,
        };
        step = step.state.step(event, false);
    }
    assert_eq!(step.action, RetryAction::Fail);
    assert_eq!((tries, waited), (LIVE_RETRY_MAX, 3600));
}

#[test]
fn notes_of_the_tail_are_told() {
    let message = |note| tail_message(note, "a.txt").map(|m| (m.state, m.text));
    let told = |state: &str, text: &str| Some((state.to_string(), text.to_string()));
    assert_eq!(
        message(TailNote::WaitingForLog),
        told("waiting", "Waiting for a combat log to appear...")
    );
    assert_eq!(message(TailNote::Tailing), told("tailing", "Tailing a.txt"));
    assert_eq!(
        message(TailNote::Truncated { offset: 1, file_size: 0 }),
        told("tailing", "Log truncated — reading from the beginning")
    );
    assert_eq!(
        message(TailNote::IdleFlush { offset: 1 }),
        told("idle", "Log idle — flushing current fight")
    );
    assert_eq!(
        message(TailNote::Stopping { offset: 1 }),
        told("uploading", "Stopping — waiting for final log writes...")
    );
    assert_eq!(
        message(TailNote::FinalFlush { offset: 1 }),
        told("uploading", "Stopping — flushing final data...")
    );
    assert_eq!(message(TailNote::FinalFlushFailed), None);
    assert_eq!(tail_event(TailNote::FinalFlushFailed), Some("final_flush_failed"));
    assert_eq!(tail_event(TailNote::Tailing), Some("tail_file"));
    assert_eq!(tail_event(TailNote::WaitingForLog), None);
    assert_eq!(tail_event(TailNote::FinalDrainFailed), None);
}
