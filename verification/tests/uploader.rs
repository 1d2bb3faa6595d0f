use combatlog::fights::FightData;
use combatlog::messages::{upload_event, upload_message};
use combatlog::uploader::{
    MasterIds, SegmentNumbers, UploadAction, UploadEvent, UploadNote, UploadPart, Uploader,
};

const IDS: MasterIds = MasterIds { actor: 1, ability: 2, tuple: 3, pet: 4 };

fn data(empty: bool, sliver: bool) -> FightData {
    FightData {
        empty,
        sliver,
        events: 9,
        first_count: 5,
        start_time: 10,
        end_time: 2010,
        mythic: 3,
        log_version: 22,
        game_version: 1,
    }
}

#[test]
fn a_completed_fight_is_final() {
    let step = UploadPart::begin(Uploader::new(true), false, false, false);
    assert_eq!(step.action, UploadAction::ParseLines);
    let step = step.state.step(UploadEvent::Parsed);
    assert_eq!(step.action, UploadAction::CollectFights { push_fight: false });
    let step = step.state.step(UploadEvent::Fights(data(false, false)));
    assert_eq!(step.action, UploadAction::CollectMaster);
    let step = step.state.step(UploadEvent::Master(IDS));
    assert_eq!(
        step.action,
        UploadAction::SetMaster {
            segment_id: 1,
            is_real_time: false,
            log_version: 22,
            game_version: 1,
        }
    );
    let step = step.state.step(UploadEvent::MasterSet);
    assert_eq!(
        step.notes,
        [UploadNote::MasterUploaded { segment_id: 1, is_real_time: false, ids: IDS }]
    );
    assert_eq!(
        step.action,
        UploadAction::AddSegment {
            segment_id: 1,
            start_time: 10,
            end_time: 2010,
            mythic: 3,
            is_live: true,
            is_real_time: false,
            in_progress_count: 0,
        }
    );
    let step = step.state.step(UploadEvent::Added(2));
    assert_eq!(
        step.notes,
        [
            UploadNote::SegmentUploaded(SegmentNumbers {
                segment_id: 1,
                next_segment_id: 2,
                start_time: 10,
                end_time: 2010,
                mythic: 3,
                is_real_time: false,
                in_progress_count: 0,
                push_fight: false,
            }),
            UploadNote::Counted { segments: 1 },
        ]
    );
    assert_eq!(step.action, UploadAction::ClearFights);
    let step = step.state.step(UploadEvent::Cleared);
    assert_eq!(step.action, UploadAction::Done { uploaded: true });
    assert_eq!(
        step.state.uploader,
        Uploader {
            real_time: true,
            segment_id: 2,
            last_master_ids: Some(IDS),
            segments: 1,
            in_progress: false,
        }
    );
}

#[test]
fn known_tables_are_not_sent_again() {
    let uploader = Uploader { last_master_ids: Some(IDS), ..Uploader::new(false) };
    let step = UploadPart::begin(uploader, true, true, false);
    let step = step.state.step(UploadEvent::Fights(data(false, true)));
    let step = step.state.step(UploadEvent::Master(IDS));
    assert!(matches!(step.action, UploadAction::AddSegment { .. }));
    assert!(step.notes.is_empty());
}

#[test]
fn a_forced_sliver_is_dropped() {
    let uploader = Uploader::new(false);
    let step = UploadPart::begin(uploader, true, true, true);
    assert_eq!(step.action, UploadAction::CollectFights { push_fight: true });
    let step = step.state.step(UploadEvent::Fights(data(false, true)));
    assert_eq!(step.notes, [UploadNote::SliverDropped]);
    assert_eq!(step.action, UploadAction::ClearFights);
    let step = step.state.step(UploadEvent::Cleared);
    assert_eq!(step.action, UploadAction::Done { uploaded: false });
    assert_eq!(step.state.uploader, uploader);
}

#[test]
fn an_open_fight_is_provisional() {
    let step = UploadPart::begin(Uploader::new(true), true, false, false);
    let step = step.state.step(UploadEvent::Fights(data(true, true)));
    assert_eq!(step.action, UploadAction::CollectOpenFight);
    let step = step.state.step(UploadEvent::OpenFight(data(false, false)));
    assert_eq!(step.notes, [UploadNote::FightInProgress]);
    let step = step.state.step(UploadEvent::Master(IDS));
    let step = step.state.step(UploadEvent::MasterSet);
    match step.action {
        UploadAction::AddSegment { is_live, is_real_time, in_progress_count, .. } => {
            assert!(is_live && is_real_time);
            assert_eq!(in_progress_count, 5);
        }
        _ => panic!("no segment"),
    }
    let step = step.state.step(UploadEvent::Added(0));
    assert_eq!(step.notes.len(), 1);
    assert_eq!(step.state.uploader.segment_id, 1);
    assert_eq!(step.state.uploader.segments, 0);
    let step = step.state.step(UploadEvent::Cleared);
    assert_eq!(step.action, UploadAction::Done { uploaded: true });
}

#[test]
fn an_open_fight_stays_here_without_real_time() {
    let step = UploadPart::begin(Uploader::new(false), true, false, false);
    let step = step.state.step(UploadEvent::Fights(data(true, true)));
    let step = step.state.step(UploadEvent::OpenFight(data(false, false)));
    assert_eq!(step.notes, [UploadNote::FightInProgress]);
    assert_eq!(step.action, UploadAction::Done { uploaded: false });
    let step = UploadPart::begin(step.state.uploader, true, false, false);
    let step = step.state.step(UploadEvent::Fights(data(true, true)));
    let step = step.state.step(UploadEvent::OpenFight(data(true, true)));
    assert!(step.notes.is_empty());
    assert!(!step.state.uploader.in_progress);
}

#[test]
fn a_failure_ends_an_upload() {
    let step = UploadPart::begin(Uploader::new(false), false, false, false);
    let step = step.state.step(UploadEvent::Failed);
    assert_eq!(step.action, UploadAction::Fail);
}

#[test]
fn notes_of_uploads_are_told() {
    let message = upload_message(UploadNote::Counted { segments: 12 }).unwrap();
    assert_eq!((message.state.as_str(), message.text.as_str()), ("uploading", "Uploaded segment 12"));
    let message = upload_message(UploadNote::FightInProgress).unwrap();
    assert_eq!((message.state.as_str(), message.text.as_str()), ("tailing", "Fight in progress"));
    assert!(upload_message(UploadNote::SliverDropped).is_none());
    assert_eq!(upload_event(UploadNote::SliverDropped), Some("sliver_dropped"));
    assert_eq!(upload_event(UploadNote::Counted { segments: 1 }), None);
    assert_eq!(
        upload_event(UploadNote::MasterUploaded { segment_id: 1, is_real_time: true, ids: IDS }),
        Some("master_upload")
    );
}
