//! What holds of every upload.

use vstd::prelude::*;

use crate::fights::FightData;
use crate::uploader;
use crate::uploader::{
    MasterIds, SegmentNumbers, UploadAction, UploadEvent, UploadNote, UploadPart, UploadPhase, UploadStepView,
    Uploader,
};

verus! {

broadcast use vstd::seq::group_seq_axioms;

/// What is known of what is uploaded, once it is.
pub open spec fn chosen(s: UploadPart) -> bool {
    &&& !s.data.empty
    &&& s.is_real_time ==> {
        &&& s.uploader.real_time
        &&& s.uploader.in_progress
        &&& s.in_progress_count == s.data.first_count
    }
    &&& !s.is_real_time ==> {
        &&& !s.uploader.in_progress
        &&& s.in_progress_count == 0
        &&& !(s.push_fight && s.drop_slivers && s.data.sliver)
    }
}

/// The states that an upload can be in.
pub open spec fn consistent(s: UploadPart) -> bool {
    match s.phase {
        UploadPhase::CollectingMaster | UploadPhase::SettingMaster => chosen(s),
        UploadPhase::Adding | UploadPhase::Clearing => {
            &&& chosen(s)
            &&& s.uploader.last_master_ids == Some(s.ids)
        },
        _ => true,
    }
}

/// Every upload starts in a consistent state.
pub proof fn start_is_consistent(
    uploader: Uploader,
    no_lines: bool,
    push_fight: bool,
    drop_slivers: bool,
)
    ensures
        consistent(
            uploader::begin(uploader::blank(uploader, push_fight, drop_slivers), no_lines).state,
        ),
{
}

/// A consistent state stays consistent.
pub proof fn state_stays_consistent(s: UploadPart, event: UploadEvent)
    requires
        consistent(s),
    ensures
        consistent(uploader::next(s, event).state),
{
}

/// Only a fight in progress is uploaded as provisional, and only where that was
/// asked for; a completed fight is final and has no events in progress.
pub proof fn only_open_fights_are_provisional(s: UploadPart, event: UploadEvent)
    requires
        consistent(s),
    ensures
        uploader::next(s, event).action matches UploadAction::AddSegment {
            is_real_time,
            in_progress_count,
            ..
        } ==> {
            &&& is_real_time ==> s.uploader.real_time && s.uploader.in_progress
            &&& !is_real_time ==> in_progress_count == 0
        },
{
}

/// A forced commit that is a sliver is never uploaded: the parser forgets it, and
/// the journal tells so.
pub proof fn forced_slivers_are_dropped(s: UploadPart, data: FightData)
    requires
        s.phase == UploadPhase::Collecting,
        s.push_fight,
        s.drop_slivers,
        data.sliver,
        !data.empty,
    ensures
        ({
            let dropped = uploader::next(s, UploadEvent::Fights(data));
            let ended = uploader::next(dropped.state, UploadEvent::Cleared);
            &&& dropped.action == UploadAction::ClearFights
            &&& dropped.notes == seq![UploadNote::SliverDropped]
            &&& ended.action == UploadAction::Done { uploaded: false }
            &&& ended.state.uploader == s.uploader
        }),
{
}

/// No forced sliver is ever sent as a completed fight.
pub proof fn slivers_are_not_sent(s: UploadPart, event: UploadEvent)
    requires
        consistent(s),
        uploader::next(s, event).action is AddSegment,
    ensures
        !(s.push_fight && s.drop_slivers && s.data.sliver && !s.is_real_time),
{
}

/// The master tables are sent where the site does not have them, and only there.
pub proof fn changed_tables_are_sent(s: UploadPart, ids: MasterIds)
    requires
        s.phase == UploadPhase::CollectingMaster,
    ensures
        uploader::next(s, UploadEvent::Master(ids)).action is SetMaster
            <==> s.uploader.last_master_ids != Some(ids),
        uploader::next(s, UploadEvent::Master(ids)).action is AddSegment
            <==> s.uploader.last_master_ids == Some(ids),
{
}

/// When a segment is sent, the site has the master tables that it refers to.
pub proof fn tables_go_before_segments(s: UploadPart, event: UploadEvent)
    requires
        consistent(s),
        uploader::next(s, event).action is AddSegment,
    ensures
        ({
            let state = uploader::next(s, event).state;
            state.uploader.last_master_ids == Some(state.ids)
        }),
{
}

/// The id of the next segment changes only when the site hands out a new one, and
/// then one more segment counts as uploaded. A provisional segment keeps its id, so
/// the next one overwrites it.
pub proof fn provisional_segments_keep_their_id(s: UploadPart, event: UploadEvent)
    ensures
        ({
            let after = uploader::next(s, event).state.uploader;
            match (s.phase, event) {
                (UploadPhase::Adding, UploadEvent::Added(id)) if id > 0 => {
                    &&& after.segment_id == id
                    &&& after.segments == s.uploader.segments.wrapping_add(1)
                },
                _ => {
                    &&& after.segment_id == s.uploader.segment_id
                    &&& after.segments == s.uploader.segments
                },
            }
        }),
{
}

/// An upload ends as a success of its own only behind a segment that the site took
/// and fights that the parser forgot.
pub proof fn what_was_sent_is_cleared(s: UploadPart, event: UploadEvent)
    ensures
        uploader::next(s, event).action == (UploadAction::Done { uploaded: true }) <==> s.phase
            == UploadPhase::Clearing && event == UploadEvent::Cleared,
        uploader::next(s, event).state.phase == UploadPhase::Clearing <==> s.phase
            == UploadPhase::Adding && event is Added,
        uploader::next(s, event).state.phase == UploadPhase::Clearing ==> uploader::next(
            s,
            event,
        ).action == UploadAction::ClearFights,
{
}

// ---- a whole upload -----------------------------------------------------------------

/// The last step of an upload that got the answers `events`.
pub open spec fn run(first: UploadStepView, events: Seq<UploadEvent>) -> UploadStepView
    decreases events.len(),
{
    if events.len() == 0 {
        first
    } else {
        uploader::next(run(first, events.drop_last()).state, events.last())
    }
}

/// How many segments the site took in that upload.
pub open spec fn segments_taken(first: UploadStepView, events: Seq<UploadEvent>) -> nat
    decreases events.len(),
{
    if events.len() == 0 {
        0
    } else {
        let before = events.drop_last();
        segments_taken(first, before) + (if run(first, before).state.phase == UploadPhase::Adding
            && events.last() is Added {
            1nat
        } else {
            0nat
        })
    }
}

/// How many answers an upload may still wait for.
pub open spec fn steps_left(phase: UploadPhase) -> nat {
    match phase {
        UploadPhase::Parsing => 7,
        UploadPhase::Collecting => 6,
        UploadPhase::CollectingOpen => 5,
        UploadPhase::CollectingMaster => 4,
        UploadPhase::SettingMaster => 3,
        UploadPhase::Adding => 2,
        UploadPhase::Clearing | UploadPhase::ClearingSliver => 1,
        UploadPhase::Over => 0,
    }
}

proof fn lemma_taken(first: UploadStepView, events: Seq<UploadEvent>)
    requires
        first.state.phase == UploadPhase::Parsing || first.state.phase == UploadPhase::Collecting,
        !(first.action is Done),
    ensures
        ({
            let last = run(first, events);
            let taken = segments_taken(first, events);
            &&& taken <= 1
            &&& last.state.phase == UploadPhase::Clearing ==> taken == 1
            &&& last.state.phase != UploadPhase::Clearing && last.state.phase
                != UploadPhase::Over ==> taken == 0
            &&& last.action matches UploadAction::Done { uploaded } ==> taken == (if uploaded {
                1nat
            } else {
                0nat
            })
        }),
    decreases events.len(),
{
    if events.len() > 0 {
        lemma_taken(first, events.drop_last());
    }
}

/// An upload says that a segment was uploaded exactly where the site took one, and
/// it never sends more than one.
pub proof fn uploads_tell_the_truth(
    uploader: Uploader,
    no_lines: bool,
    push_fight: bool,
    drop_slivers: bool,
    events: Seq<UploadEvent>,
)
    ensures
        ({
            let first = uploader::begin(
                uploader::blank(uploader, push_fight, drop_slivers),
                no_lines,
            );
            let taken = segments_taken(first, events);
            &&& taken <= 1
            &&& run(first, events).action matches UploadAction::Done { uploaded } ==> (uploaded
                <==> taken == 1)
        }),
{
    lemma_taken(
        uploader::begin(uploader::blank(uploader, push_fight, drop_slivers), no_lines),
        events,
    );
}

/// Every upload is over after at most seven answers.
pub proof fn uploads_end(s: UploadPart, event: UploadEvent)
    ensures
        steps_left(s.phase) <= 7,
        s.phase != UploadPhase::Over ==> steps_left(uploader::next(s, event).state.phase)
            < steps_left(s.phase),
        uploader::next(s, event).state.phase == UploadPhase::Over <==> (uploader::next(
            s,
            event,
        ).action is Done || uploader::next(s, event).action is Fail),
{
}

// ---- uploads from their start to their end ---------------------------------------------

/// What an upload does once `step` has asked for the master tables of `data`: it sends
/// the tables where the site does not have them, then the segment with the numbers of
/// `data`, and ends behind the site's answer `id`. `uploader` is what the upload started
/// with, and `in_progress` is what it has learned of the fight in progress.
pub open spec fn sends(
    step: UploadStepView,
    uploader: Uploader,
    in_progress: bool,
    push_fight: bool,
    data: FightData,
    is_real_time: bool,
    in_progress_count: i64,
    ids: MasterIds,
    id: i64,
) -> bool {
    let known = uploader::next(step.state, UploadEvent::Master(ids));
    let has_tables = uploader.last_master_ids == Some(ids);
    let set = if has_tables {
        known
    } else {
        uploader::next(known.state, UploadEvent::MasterSet)
    };
    let added = uploader::next(set.state, UploadEvent::Added(id));
    let done = uploader::next(added.state, UploadEvent::Cleared);
    let numbers = SegmentNumbers {
        segment_id: uploader.segment_id,
        next_segment_id: id,
        start_time: data.start_time,
        end_time: data.end_time,
        mythic: data.mythic,
        is_real_time,
        in_progress_count,
        push_fight,
    };
    let segments = uploader.segments.wrapping_add(1);
    let waiting = Uploader { in_progress, ..uploader };
    &&& step.action == UploadAction::CollectMaster
    &&& step.state.uploader == waiting
    &&& !has_tables ==> known.state.uploader == waiting
    &&& set.state.uploader == (Uploader { last_master_ids: Some(ids), ..waiting })
    &&& added.state.uploader == done.state.uploader
    &&& !has_tables ==> {
        &&& known.notes == Seq::<UploadNote>::empty()
        &&& known.action == (UploadAction::SetMaster {
            segment_id: uploader.segment_id,
            is_real_time,
            log_version: data.log_version,
            game_version: data.game_version,
        })
    }
    &&& set.notes == (if has_tables {
        Seq::<UploadNote>::empty()
    } else {
        seq![
            UploadNote::MasterUploaded { segment_id: uploader.segment_id, is_real_time, ids },
        ]
    })
    &&& set.action == (UploadAction::AddSegment {
        segment_id: uploader.segment_id,
        start_time: data.start_time,
        end_time: data.end_time,
        mythic: data.mythic,
        is_live: true,
        is_real_time,
        in_progress_count,
    })
    &&& added.notes == (if id > 0 {
        seq![UploadNote::SegmentUploaded(numbers), UploadNote::Counted { segments }]
    } else {
        seq![UploadNote::SegmentUploaded(numbers)]
    })
    &&& added.action == UploadAction::ClearFights
    &&& done.notes == Seq::<UploadNote>::empty()
    &&& done.action == (UploadAction::Done { uploaded: true })
    &&& done.state.uploader == (Uploader {
        real_time: uploader.real_time,
        segment_id: if id > 0 {
            id
        } else {
            uploader.segment_id
        },
        last_master_ids: Some(ids),
        segments: if id > 0 {
            segments
        } else {
            uploader.segments
        },
        in_progress,
    })
}

/// The step that asks for the committed fights. Lines, where there are any, go to the
/// parser first.
pub open spec fn asks_for_fights(
    uploader: Uploader,
    no_lines: bool,
    push_fight: bool,
    drop_slivers: bool,
) -> UploadStepView {
    let first = uploader::begin(uploader::blank(uploader, push_fight, drop_slivers), no_lines);
    if no_lines {
        first
    } else {
        uploader::next(first.state, UploadEvent::Parsed)
    }
}

/// An upload starts with the lines, where there are any, and then asks for the fights,
/// with the commit of the open one where that is asked for.
pub proof fn lines_are_parsed_first(
    uploader: Uploader,
    no_lines: bool,
    push_fight: bool,
    drop_slivers: bool,
)
    ensures
        ({
            let first = uploader::begin(
                uploader::blank(uploader, push_fight, drop_slivers),
                no_lines,
            );
            let asking = asks_for_fights(uploader, no_lines, push_fight, drop_slivers);
            &&& first.notes == Seq::<UploadNote>::empty()
            &&& !no_lines ==> first.action == UploadAction::ParseLines
            &&& asking.notes == Seq::<UploadNote>::empty()
            &&& asking.action == (UploadAction::CollectFights { push_fight })
        }),
{
}

/// A completed fight is sent with the numbers of the parser's reply, as final.
pub proof fn completed_fights_are_sent_as_they_are(
    uploader: Uploader,
    no_lines: bool,
    push_fight: bool,
    drop_slivers: bool,
    data: FightData,
    ids: MasterIds,
    id: i64,
)
    requires
        !data.empty,
        !(push_fight && drop_slivers && data.sliver),
    ensures
        ({
            let asking = asks_for_fights(uploader, no_lines, push_fight, drop_slivers);
            let got = uploader::next(asking.state, UploadEvent::Fights(data));
            &&& got.notes == Seq::<UploadNote>::empty()
            &&& sends(got, uploader, false, push_fight, data, false, 0, ids, id)
        }),
{
}

/// Without completed fights, a fight in progress is sent with the numbers of the parser's
/// reply on it, as provisional, where that is asked for. The user is told once that a
/// fight is in progress.
pub proof fn open_fights_are_sent_as_they_are(
    uploader: Uploader,
    no_lines: bool,
    push_fight: bool,
    drop_slivers: bool,
    nothing: FightData,
    data: FightData,
    ids: MasterIds,
    id: i64,
)
    requires
        nothing.empty,
        !data.empty,
        uploader.real_time,
    ensures
        ({
            let asking = asks_for_fights(uploader, no_lines, push_fight, drop_slivers);
            let none = uploader::next(asking.state, UploadEvent::Fights(nothing));
            let got = uploader::next(none.state, UploadEvent::OpenFight(data));
            &&& none.notes == Seq::<UploadNote>::empty()
            &&& none.action == UploadAction::CollectOpenFight
            &&& got.notes == (if uploader.in_progress {
                Seq::<UploadNote>::empty()
            } else {
                seq![UploadNote::FightInProgress]
            })
            &&& sends(got, uploader, true, push_fight, data, true, data.first_count, ids, id)
        }),
{
}

/// Without completed fights, nothing is sent where no fight is in progress, or where such
/// fights are not to be sent; what is known of the fight in progress is kept.
pub proof fn nothing_to_send_is_not_sent(
    uploader: Uploader,
    no_lines: bool,
    push_fight: bool,
    drop_slivers: bool,
    nothing: FightData,
    data: FightData,
)
    requires
        nothing.empty,
        data.empty || !uploader.real_time,
    ensures
        ({
            let asking = asks_for_fights(uploader, no_lines, push_fight, drop_slivers);
            let none = uploader::next(asking.state, UploadEvent::Fights(nothing));
            let done = uploader::next(none.state, UploadEvent::OpenFight(data));
            &&& none.notes == Seq::<UploadNote>::empty()
            &&& none.action == UploadAction::CollectOpenFight
            &&& done.notes == (if !uploader.in_progress && !data.empty {
                seq![UploadNote::FightInProgress]
            } else {
                Seq::<UploadNote>::empty()
            })
            &&& done.action == (UploadAction::Done { uploaded: false })
            &&& done.state.uploader == (Uploader { in_progress: !data.empty, ..uploader })
        }),
{
}

/// A forced sliver is forgotten, and nothing else changes.
pub proof fn slivers_leave_no_trace(
    uploader: Uploader,
    no_lines: bool,
    data: FightData,
)
    requires
        !data.empty,
        data.sliver,
    ensures
        ({
            let asking = asks_for_fights(uploader, no_lines, true, true);
            let dropped = uploader::next(asking.state, UploadEvent::Fights(data));
            let done = uploader::next(dropped.state, UploadEvent::Cleared);
            &&& dropped.notes == seq![UploadNote::SliverDropped]
            &&& dropped.action == UploadAction::ClearFights
            &&& done.notes == Seq::<UploadNote>::empty()
            &&& done.action == (UploadAction::Done { uploaded: false })
            &&& done.state.uploader == uploader
        }),
{
}

/// A failure ends an upload at once. What the upload has learned is kept.
pub proof fn failures_end_uploads(s: UploadPart)
    ensures
        uploader::next(s, UploadEvent::Failed).action == UploadAction::Fail,
        uploader::next(s, UploadEvent::Failed).notes == Seq::<UploadNote>::empty(),
        uploader::next(s, UploadEvent::Failed).state.uploader == s.uploader,
{
}

/// An answer that an upload does not wait for ends it as a failure does.
pub proof fn other_answers_end_uploads(s: UploadPart, event: UploadEvent)
    requires
        match s.phase {
            UploadPhase::Parsing => !(event is Parsed),
            UploadPhase::Collecting => !(event is Fights),
            UploadPhase::ClearingSliver | UploadPhase::Clearing => !(event is Cleared),
            UploadPhase::CollectingOpen => !(event is OpenFight),
            UploadPhase::CollectingMaster => !(event is Master),
            UploadPhase::SettingMaster => !(event is MasterSet),
            UploadPhase::Adding => !(event is Added),
            UploadPhase::Over => true,
        },
    ensures
        uploader::next(s, event).action == UploadAction::Fail,
        uploader::next(s, event).notes == Seq::<UploadNote>::empty(),
        uploader::next(s, event).state == (UploadPart { phase: UploadPhase::Over, ..s }),
{
}

// ---- numbers and replies ---------------------------------------------------------------

/// The last reply with committed fights.
pub open spec fn last_fights(events: Seq<UploadEvent>) -> Option<FightData>
    decreases events.len(),
{
    if events.len() == 0 {
        None
    } else {
        match events.last() {
            UploadEvent::Fights(data) => Some(data),
            _ => last_fights(events.drop_last()),
        }
    }
}

/// The last reply with a fight in progress.
pub open spec fn last_open_fight(events: Seq<UploadEvent>) -> Option<FightData>
    decreases events.len(),
{
    if events.len() == 0 {
        None
    } else {
        match events.last() {
            UploadEvent::OpenFight(data) => Some(data),
            _ => last_open_fight(events.drop_last()),
        }
    }
}

/// The reply that is uploaded: that with the fight in progress where the upload is
/// provisional.
pub open spec fn chosen_reply(events: Seq<UploadEvent>, is_real_time: bool) -> Option<FightData> {
    if is_real_time {
        last_open_fight(events)
    } else {
        last_fights(events)
    }
}

proof fn lemma_chosen_reply(first: UploadStepView, events: Seq<UploadEvent>)
    requires
        first.state.phase == UploadPhase::Parsing || first.state.phase == UploadPhase::Collecting,
        first.action is ParseLines || first.action is CollectFights,
    ensures
        ({
            let s = run(first, events).state;
            &&& s.phase == UploadPhase::CollectingMaster || s.phase == UploadPhase::SettingMaster
                || s.phase == UploadPhase::Adding ==> {
                &&& chosen_reply(events, s.is_real_time) == Some(s.data)
                &&& last_fights(events) is Some
                &&& s.is_real_time == last_fights(events)->0.empty
            }
            &&& s.phase == UploadPhase::CollectingOpen ==> last_fights(events) is Some
                && last_fights(events)->0.empty
            &&& run(first, events).action is SetMaster ==> s.phase == UploadPhase::SettingMaster
            &&& run(first, events).action is AddSegment ==> s.phase == UploadPhase::Adding
            &&& s.uploader.segment_id == first.state.uploader.segment_id || s.phase
                == UploadPhase::Clearing || s.phase == UploadPhase::Over
        }),
    decreases events.len(),
{
    if events.len() > 0 {
        lemma_chosen_reply(first, events.drop_last());
    }
}

/// Over a whole upload, what is sent has the numbers of the very reply that was chosen:
/// of the fight in progress for a provisional segment, and of the committed fights
/// otherwise. It is provisional exactly where there are no committed fights.
pub proof fn segments_carry_the_numbers_of_their_reply(
    uploader: Uploader,
    no_lines: bool,
    push_fight: bool,
    drop_slivers: bool,
    events: Seq<UploadEvent>,
)
    ensures
        ({
            let first = uploader::begin(
                uploader::blank(uploader, push_fight, drop_slivers),
                no_lines,
            );
            let last = run(first, events);
            &&& last.action matches UploadAction::AddSegment {
                segment_id,
                start_time,
                end_time,
                mythic,
                is_live,
                is_real_time,
                in_progress_count,
            } ==> {
                &&& segment_id == uploader.segment_id
                &&& is_live
                &&& last_fights(events) matches Some(fights) && is_real_time == fights.empty
                &&& chosen_reply(events, is_real_time) matches Some(reply) && {
                    &&& start_time == reply.start_time
                    &&& end_time == reply.end_time
                    &&& mythic == reply.mythic
                    &&& in_progress_count == (if is_real_time {
                        reply.first_count
                    } else {
                        0
                    })
                }
            }
            &&& last.action matches UploadAction::SetMaster {
                segment_id,
                is_real_time,
                log_version,
                game_version,
            } ==> {
                &&& segment_id == uploader.segment_id
                &&& last_fights(events) matches Some(fights) && is_real_time == fights.empty
                &&& chosen_reply(events, is_real_time) matches Some(reply) && {
                    &&& log_version == reply.log_version
                    &&& game_version == reply.game_version
                }
            }
        }),
{
    let first = uploader::begin(uploader::blank(uploader, push_fight, drop_slivers), no_lines);
    lemma_chosen_reply(first, events);
    start_is_consistent(uploader, no_lines, push_fight, drop_slivers);
    lemma_run_is_consistent(first, events);
    lemma_actions_of_run(first, events);
}

proof fn lemma_run_is_consistent(first: UploadStepView, events: Seq<UploadEvent>)
    requires
        consistent(first.state),
    ensures
        consistent(run(first, events).state),
    decreases events.len(),
{
    if events.len() > 0 {
        lemma_run_is_consistent(first, events.drop_last());
        state_stays_consistent(run(first, events.drop_last()).state, events.last());
    }
}

/// What is sent has the numbers of the state.
proof fn lemma_actions_of_run(first: UploadStepView, events: Seq<UploadEvent>)
    requires
        first.action is ParseLines || first.action is CollectFights,
    ensures
        ({
            let last = run(first, events);
            let s = last.state;
            &&& last.action matches UploadAction::AddSegment {
                segment_id,
                start_time,
                end_time,
                mythic,
                is_live,
                is_real_time,
                in_progress_count,
            } ==> {
                &&& segment_id == s.uploader.segment_id
                &&& start_time == s.data.start_time
                &&& end_time == s.data.end_time
                &&& mythic == s.data.mythic
                &&& is_live
                &&& is_real_time == s.is_real_time
                &&& in_progress_count == s.in_progress_count
            }
            &&& last.action matches UploadAction::SetMaster {
                segment_id,
                is_real_time,
                log_version,
                game_version,
            } ==> {
                &&& segment_id == s.uploader.segment_id
                &&& is_real_time == s.is_real_time
                &&& log_version == s.data.log_version
                &&& game_version == s.data.game_version
            }
        }),
{
}

/// The first segment has the number 1, the site has no tables yet, and nothing is counted.
pub proof fn uploads_start_afresh(real_time: bool, uploader: Uploader)
    requires
        call_ensures(Uploader::new, (real_time,), uploader),
    ensures
        uploader.real_time == real_time,
        uploader.segment_id == 1,
        uploader.last_master_ids is None,
        uploader.segments == 0,
        !uploader.in_progress,
{
}

} // verus!
