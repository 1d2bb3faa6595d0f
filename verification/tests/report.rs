use combatlog::fights::FightData;
use combatlog::report::{
    no_fights_found, progress, report_name, upload_site, Report, ReportAction, ReportEvent,
    ReportNote, ReportStep, UploadArgs, BATCH_SIZE,
};
use combatlog::uploader::MasterIds;

const IDS: MasterIds = MasterIds { actor: 1, ability: 2, tuple: 3, pet: 4 };

fn data(empty: bool) -> FightData {
    FightData {
        empty,
        sliver: false,
        events: 1234,
        first_count: 5,
        start_time: 10,
        end_time: 2010,
        mythic: 3,
        log_version: 22,
        game_version: 1,
    }
}

fn segment(segment_id: i64) -> ReportAction {
    ReportAction::AddSegment {
        segment_id,
        start_time: 10,
        end_time: 2010,
        mythic: 3,
        is_live: false,
        is_real_time: false,
        in_progress_count: 0,
    }
}

/// An upload whose parser is ready.
fn ready(lines: usize) -> ReportStep {
    let step = Report::begin();
    assert_eq!(step.action, ReportAction::ReadLog);
    let mut step = step.state.step(ReportEvent::LinesRead(lines));
    let mut actions = vec![step.action];
    for _ in 0..7 {
        step = step.state.step(ReportEvent::Worked);
        actions.push(step.action);
    }
    assert_eq!(
        actions[..7],
        [
            ReportAction::OpenSession,
            ReportAction::LogIn,
            ReportAction::FetchParser,
            ReportAction::LocateHarness,
            ReportAction::StartParser,
            ReportAction::ClearParser,
            ReportAction::SetStartDate,
        ]
    );
    step
}

#[test]
fn the_batches_are_the_log() {
    let mut step = ready(2 * BATCH_SIZE + 1);
    assert_eq!(step.notes, [ReportNote::ParserReady]);
    let mut ranges = Vec::new();
    while let ReportAction::ParseLines { from, to } = step.action {
        ranges.push((from, to));
        step = step.state.step(ReportEvent::Worked);
        assert_eq!(step.action, ReportAction::CollectFights { push_fight: true });
        step = step.state.step(ReportEvent::Fights(data(true)));
    }
    assert_eq!(
        ranges,
        [(0, BATCH_SIZE), (BATCH_SIZE, 2 * BATCH_SIZE), (2 * BATCH_SIZE, 2 * BATCH_SIZE + 1)]
    );
    assert_eq!(step.action, ReportAction::CloseParser);
}

#[test]
fn a_log_without_fights_fails() {
    let step = ready(0);
    assert_eq!(step.action, ReportAction::CloseParser);
    let step = step.state.step(ReportEvent::Worked);
    assert_eq!(step.action, ReportAction::NoFights);
    assert_eq!(no_fights_found(), "No fights found in log file.");
}

#[test]
fn fights_become_segments_of_one_report() {
    let step = ready(BATCH_SIZE + 1);
    let step = step.state.step(ReportEvent::Worked);
    let step = step.state.step(ReportEvent::Fights(data(false)));
    assert_eq!(step.action, ReportAction::CreateReport { start_time: 10, end_time: 2010 });
    let step = step.state.step(ReportEvent::Worked);
    assert_eq!(step.notes, [ReportNote::ReportCreated { pct: 50 }]);
    assert_eq!(step.action, ReportAction::CollectMaster);
    let step = step.state.step(ReportEvent::Master(IDS));
    assert_eq!(
        step.action,
        ReportAction::SetMaster {
            segment_id: 1,
            is_real_time: false,
            log_version: 22,
            game_version: 1,
        }
    );
    let step = step.state.step(ReportEvent::Worked);
    assert_eq!(
        step.action,
        segment(1)
    );
    let step = step.state.step(ReportEvent::Added(0));
    assert_eq!(step.action, ReportAction::ClearFights);
    let step = step.state.step(ReportEvent::Worked);
    assert_eq!(
        step.notes,
        [ReportNote::SegmentUploaded { batch: 1, batches: 2, events: 1234, pct: 50 }]
    );
    let step = step.state.step(ReportEvent::Worked);
    let step = step.state.step(ReportEvent::Fights(data(false)));
    assert_eq!(step.action, ReportAction::CollectMaster);
    let step = step.state.step(ReportEvent::Master(IDS));
    assert_eq!(
        step.action,
        segment(2)
    );
    let step = step.state.step(ReportEvent::Added(7));
    assert_eq!(step.state.segment_id, 7);
    let step = step.state.step(ReportEvent::Worked);
    assert_eq!(step.action, ReportAction::CloseParser);
    let step = step.state.step(ReportEvent::Worked);
    assert_eq!(step.action, ReportAction::TerminateReport);
    let step = step.state.step(ReportEvent::Worked);
    assert_eq!(step.action, ReportAction::Done);
}

#[test]
fn a_failure_ends_the_upload_of_a_log() {
    let step = ready(5).state.step(ReportEvent::Failed);
    assert_eq!(step.action, ReportAction::Fail);
}

#[test]
fn progress_of_an_upload() {
    let told = |note, detail| {
        let p = progress(note, detail);
        (p.step, p.text, p.pct)
    };
    let expect = |step: &str, text: &str, pct: u32| (step.to_string(), text.to_string(), pct);
    assert_eq!(told(ReportNote::ReadingLog, ""), expect("read", "Reading log file...", 1));
    assert_eq!(
        told(ReportNote::LinesRead { lines: 1234567 }, ""),
        expect("read", "Read 1,234,567 lines", 2)
    );
    assert_eq!(
        told(ReportNote::Initializing, ""),
        expect("session", "Initializing session...", 3)
    );
    assert_eq!(told(ReportNote::LoggingIn, ""), expect("login", "Logging in...", 4));
    assert_eq!(told(ReportNote::LoggedIn, "Ann"), expect("login", "Logged in as Ann", 5));
    assert_eq!(
        told(ReportNote::FetchingParser, ""),
        expect("fetch-parser", "Fetching latest parser...", 6)
    );
    assert_eq!(
        told(ReportNote::ParserLoaded, "61"),
        expect("fetch-parser", "Parser v61 loaded", 7)
    );
    assert_eq!(told(ReportNote::StartingParser, ""), expect("parser", "Starting parser...", 8));
    assert_eq!(told(ReportNote::ParserReady, ""), expect("parser", "Parser ready", 9));
    assert_eq!(
        told(ReportNote::NoFightsYet { batch: 1, batches: 3, pct: 36 }, ""),
        expect("parse", "Batch 1/3 — no fights yet", 36)
    );
    assert_eq!(
        told(ReportNote::ReportCreated { pct: 36 }, "abc"),
        expect("report", "Report created: abc", 36)
    );
    assert_eq!(
        told(ReportNote::SegmentUploaded { batch: 3, batches: 3, events: 4321, pct: 90 }, ""),
        expect("upload", "Segment 3/3 — 4,321 events", 90)
    );
}

#[test]
fn percents_of_batches() {
    let mut step = ready(3 * BATCH_SIZE);
    let mut percents = Vec::new();
    while let ReportAction::ParseLines { .. } = step.action {
        step = step.state.step(ReportEvent::Worked).state.step(ReportEvent::Fights(data(true)));
        match step.notes[..] {
            [ReportNote::NoFightsYet { pct, .. }] => percents.push(pct),
            _ => panic!("no note"),
        }
    }
    assert_eq!(percents, [36, 63, 90]);
}

#[test]
fn sites_and_names_of_reports() {
    let args = |game: &str| UploadArgs {
        log_path: String::new(),
        email: String::new(),
        password: String::new(),
        region: 1,
        visibility: 0,
        guild_id: None,
        game: game.to_string(),
    };
    assert_eq!(upload_site(&args("")), "warcraft");
    assert_eq!(upload_site(&args("ff")), "ff");
    assert_eq!(report_name(None), "log.txt");
    assert_eq!(report_name(Some("a.txt".to_string())), "a.txt");
}
