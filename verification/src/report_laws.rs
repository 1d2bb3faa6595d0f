//! What holds of every upload of a finished log.

use vstd::prelude::*;

use crate::fights::FightData;
use crate::numbers;
use crate::report;
use crate::report::{
    Report, ReportAction, ReportEvent, ReportNote, ReportPhase, ReportStepView, UploadArgs,
};
use crate::uploader::MasterIds;

verus! {

broadcast use vstd::seq::group_seq_axioms;

/// The states that an upload can be in.
pub open spec fn consistent(s: Report) -> bool {
    &&& report::in_range(s)
    &&& match s.phase {
        ReportPhase::Parsing | ReportPhase::Collecting | ReportPhase::Closing => true,
        ReportPhase::Creating => !s.created && !s.data.empty,
        ReportPhase::CollectingMaster | ReportPhase::SettingMaster => s.created && !s.data.empty,
        ReportPhase::Adding | ReportPhase::ClearingFights => {
            &&& s.created
            &&& !s.data.empty
            &&& s.last_master_ids == Some(s.ids)
        },
        ReportPhase::Terminating => s.created,
        ReportPhase::Over => true,
        _ => !s.created && s.last_master_ids is None && s.segment_id == 1,
    }
}

/// An upload starts in a consistent state and stays in one.
pub proof fn state_stays_consistent(s: Report, event: ReportEvent)
    ensures
        consistent(report::begin().state),
        consistent(s) ==> consistent(report::next(s, event).state),
{
}

/// The report is created by the first batch that has fights, and only once.
pub proof fn one_report_is_created(s: Report, event: ReportEvent)
    requires
        consistent(s),
    ensures
        report::next(s, event).action is CreateReport <==> {
            &&& s.phase == ReportPhase::Collecting
            &&& !s.created
            &&& event matches ReportEvent::Fights(data) && !data.empty
        },
        s.created ==> report::next(s, event).state.created,
        report::next(s, event).state.created && !s.created <==> s.phase == ReportPhase::Creating
            && event == ReportEvent::Worked,
{
}

/// A segment is sent to a report that exists, and the site has the master tables
/// that the segment refers to.
pub proof fn segments_have_report_and_tables(s: Report, event: ReportEvent)
    requires
        consistent(s),
        report::next(s, event).action is AddSegment,
    ensures
        ({
            let state = report::next(s, event).state;
            &&& state.created
            &&& !state.data.empty
            &&& state.last_master_ids == Some(state.ids)
        }),
{
}

/// The master tables are sent where the site does not have them, and only there.
pub proof fn changed_tables_are_sent(s: Report, ids: MasterIds)
    requires
        s.phase == ReportPhase::CollectingMaster,
    ensures
        report::next(s, ReportEvent::Master(ids)).action is SetMaster <==> s.last_master_ids
            != Some(ids),
{
}

/// The batches follow in order: the first behind the setup, the next behind a batch
/// without fights or behind one whose fights were sent and cleared, and the end only
/// behind the last.
pub proof fn batches_follow_in_order(s: Report, event: ReportEvent)
    requires
        consistent(s),
    ensures
        ({
            let after = report::next(s, event);
            let due: nat = if s.phase == ReportPhase::SettingDate {
                0
            } else {
                s.batch as nat + 1
            };
            &&& after.action matches ReportAction::ParseLines { from, to } ==> {
                &&& from == report::batch_start(due)
                &&& to == report::batch_end(due, s.total as nat)
                &&& after.state.batch == due
            }
            &&& after.action == ReportAction::CloseParser ==> due == report::batch_count(
                s.total as nat,
            )
            &&& after.state.phase == ReportPhase::Parsing || after.state.phase
                == ReportPhase::Closing ==> {
                ||| s.phase == ReportPhase::SettingDate
                ||| s.phase == ReportPhase::Collecting && (event matches ReportEvent::Fights(data)
                    && data.empty)
                ||| s.phase == ReportPhase::ClearingFights && event == ReportEvent::Worked
            }
        }),
{
    if s.phase == ReportPhase::SettingDate || s.phase == ReportPhase::Collecting || s.phase
        == ReportPhase::ClearingFights {
        let due: nat = if s.phase == ReportPhase::SettingDate {
            0
        } else {
            s.batch as nat + 1
        };
        if due < report::batch_count(s.total as nat) {
            report::batches_are_the_log(due, s.total as nat);
        }
    }
}

// ---- a whole upload -------------------------------------------------------------------

/// The last step of an upload that got the answers `events`.
pub open spec fn run(events: Seq<ReportEvent>) -> ReportStepView
    decreases events.len(),
{
    if events.len() == 0 {
        report::begin()
    } else {
        report::next(run(events.drop_last()).state, events.last())
    }
}

/// Some answer of the parser held fights.
pub open spec fn fights_seen(events: Seq<ReportEvent>) -> bool
    decreases events.len(),
{
    events.len() > 0 && {
        ||| run(events.drop_last()).state.phase == ReportPhase::Collecting && (events.last() matches
            ReportEvent::Fights(data) && !data.empty)
        ||| fights_seen(events.drop_last())
    }
}

proof fn lemma_fights(events: Seq<ReportEvent>)
    ensures
        ({
            let s = run(events).state;
            &&& consistent(s)
            &&& s.created || s.phase == ReportPhase::Creating ==> fights_seen(events)
            &&& fights_seen(events) && !s.created ==> s.phase == ReportPhase::Creating || (s.phase
                == ReportPhase::Over && !(run(events).action is NoFights))
            &&& run(events).action is NoFights ==> s.phase == ReportPhase::Over
        }),
    decreases events.len(),
{
    if events.len() > 0 {
        lemma_fights(events.drop_last());
        state_stays_consistent(run(events.drop_last()).state, events.last());
    }
}

/// An upload ends with the error that the log has no fights only where the parser
/// never found one, and it ends well only where it did.
pub proof fn a_log_without_fights_is_an_error(events: Seq<ReportEvent>)
    ensures
        run(events).action is NoFights ==> !fights_seen(events),
        run(events).action is Done ==> fights_seen(events),
{
    lemma_fights(events);
    if events.len() > 0 {
        lemma_fights(events.drop_last());
    }
}

/// The id of the next segment changes only when the site takes a segment, to the one
/// that it names or to the next number.
pub proof fn segments_are_numbered(s: Report, event: ReportEvent)
    ensures
        report::next(s, event).state.segment_id == (match (s.phase, event) {
            (ReportPhase::Adding, ReportEvent::Added(id)) => report::following(s.segment_id, id),
            _ => s.segment_id,
        }),
        s.segment_id < i64::MAX ==> report::following(s.segment_id, 0) == s.segment_id + 1,
{
}

// ---- uploads from their start to their end ---------------------------------------------

/// How many batches of a hundred thousand lines there are.
pub open spec fn batches_of(total: usize) -> int {
    (total + 99_999) / 100_000
}

/// The progress in percent while batch `number`, counted from 1, is at work: ten percent
/// for the setup, and eighty over the batches.
pub open spec fn percent_at(number: int, total: usize) -> u32 {
    (10 + 80 * number / batches_of(total)) as u32
}

/// The lines go to the parser in batches of a hundred thousand; behind the last batch
/// comes the end.
pub open spec fn turns_to(step: ReportStepView, total: usize, number: int) -> bool {
    if number <= batches_of(total) {
        &&& step.state.phase == ReportPhase::Parsing
        &&& step.state.batch == number - 1
        &&& step.action matches ReportAction::ParseLines { from, to } && {
            &&& from == 100_000 * (number - 1)
            &&& to == (if 100_000 * number <= total {
                100_000 * number
            } else {
                total as int
            })
        }
    } else {
        step.state.phase == ReportPhase::Closing && step.action == ReportAction::CloseParser
    }
}

/// A log is read, and everything is set up, in this order; each step is told. An empty
/// log has no batch.
pub proof fn setup_runs_in_order(lines: usize)
    ensures
        ({
            let first = report::begin();
            let read = report::next(first.state, ReportEvent::LinesRead(lines));
            let opened = report::next(read.state, ReportEvent::Worked);
            let logged_in = report::next(opened.state, ReportEvent::Worked);
            let fetched = report::next(logged_in.state, ReportEvent::Worked);
            let located = report::next(fetched.state, ReportEvent::Worked);
            let running = report::next(located.state, ReportEvent::Worked);
            let cleared = report::next(running.state, ReportEvent::Worked);
            let ready = report::next(cleared.state, ReportEvent::Worked);
            &&& first.action == ReportAction::ReadLog
            &&& first.notes == seq![ReportNote::ReadingLog]
            &&& read.action == ReportAction::OpenSession
            &&& read.notes == seq![ReportNote::LinesRead { lines }, ReportNote::Initializing]
            &&& opened.action == ReportAction::LogIn
            &&& opened.notes == seq![ReportNote::LoggingIn]
            &&& logged_in.action == ReportAction::FetchParser
            &&& logged_in.notes == seq![ReportNote::LoggedIn, ReportNote::FetchingParser]
            &&& fetched.action == ReportAction::LocateHarness
            &&& fetched.notes == seq![ReportNote::ParserLoaded]
            &&& located.action == ReportAction::StartParser
            &&& located.notes == seq![ReportNote::StartingParser]
            &&& running.action == ReportAction::ClearParser
            &&& running.notes == Seq::<ReportNote>::empty()
            &&& cleared.action == ReportAction::SetStartDate
            &&& cleared.notes == Seq::<ReportNote>::empty()
            &&& ready.notes == seq![ReportNote::ParserReady]
            &&& turns_to(ready, lines, 1)
            &&& ready.state.total == lines
            &&& !ready.state.created
            &&& ready.state.segment_id == 1
            &&& ready.state.last_master_ids is None
        }),
{
}

/// A batch without fights is told and passed over; nothing else changes.
pub proof fn batches_without_fights_are_passed_over(s: Report, data: FightData)
    requires
        report::in_range(s),
        s.phase == ReportPhase::Parsing,
        data.empty,
    ensures
        ({
            let asking = report::next(s, ReportEvent::Worked);
            let after = report::next(asking.state, ReportEvent::Fights(data));
            let number = s.batch + 1;
            &&& asking.action == (ReportAction::CollectFights { push_fight: true })
            &&& asking.notes == Seq::<ReportNote>::empty()
            &&& after.notes.len() == 1
            &&& after.notes[0] matches ReportNote::NoFightsYet { batch, batches, pct } && {
                &&& batch == number
                &&& batches == batches_of(s.total)
                &&& pct == percent_at(number, s.total)
            }
            &&& turns_to(after, s.total, number + 1)
            &&& after.state.total == s.total
            &&& after.state.created == s.created
            &&& after.state.segment_id == s.segment_id
            &&& after.state.last_master_ids == s.last_master_ids
        }),
{
}

/// A batch with fights becomes a segment with the numbers of its own fights, whatever
/// came before it. The first such batch creates the report over the time of its fights.
pub proof fn batches_with_fights_become_segments(
    s: Report,
    data: FightData,
    ids: MasterIds,
    id: i64,
)
    requires
        report::in_range(s),
        s.phase == ReportPhase::Parsing,
        !data.empty,
    ensures
        ({
            let asking = report::next(s, ReportEvent::Worked);
            let got = report::next(asking.state, ReportEvent::Fights(data));
            let created = if s.created {
                got
            } else {
                report::next(got.state, ReportEvent::Worked)
            };
            let known = report::next(created.state, ReportEvent::Master(ids));
            let has_tables = s.last_master_ids == Some(ids);
            let set = if has_tables {
                known
            } else {
                report::next(known.state, ReportEvent::Worked)
            };
            let added = report::next(set.state, ReportEvent::Added(id));
            let after = report::next(added.state, ReportEvent::Worked);
            let number = s.batch + 1;
            &&& asking.action == (ReportAction::CollectFights { push_fight: true })
            &&& asking.notes == Seq::<ReportNote>::empty()
            &&& got.notes == Seq::<ReportNote>::empty()
            &&& !s.created ==> {
                &&& got.action == (ReportAction::CreateReport {
                    start_time: data.start_time,
                    end_time: data.end_time,
                })
                &&& created.notes == seq![
                    ReportNote::ReportCreated { pct: percent_at(number, s.total) },
                ]
            }
            &&& created.action == ReportAction::CollectMaster
            &&& known.notes == Seq::<ReportNote>::empty()
            &&& !has_tables ==> known.action == (ReportAction::SetMaster {
                segment_id: s.segment_id,
                is_real_time: false,
                log_version: data.log_version,
                game_version: data.game_version,
            })
            &&& set.notes == Seq::<ReportNote>::empty()
            &&& set.action == (ReportAction::AddSegment {
                segment_id: s.segment_id,
                start_time: data.start_time,
                end_time: data.end_time,
                mythic: data.mythic,
                is_live: false,
                is_real_time: false,
                in_progress_count: 0,
            })
            &&& added.notes == Seq::<ReportNote>::empty()
            &&& added.action == ReportAction::ClearFights
            &&& after.notes.len() == 1
            &&& after.notes[0] matches ReportNote::SegmentUploaded {
                batch,
                batches,
                events,
                pct,
            } && {
                &&& batch == number
                &&& batches == batches_of(s.total)
                &&& events == data.events
                &&& pct == percent_at(number, s.total)
            }
            &&& turns_to(after, s.total, number + 1)
            &&& after.state.total == s.total
            &&& after.state.created
            &&& after.state.last_master_ids == Some(ids)
            &&& after.state.segment_id == (if id > 0 {
                id
            } else {
                s.segment_id.wrapping_add(1)
            })
        }),
{
}

/// Behind the last batch the parser is closed, whatever it answers. A report is
/// terminated, and its end is the end of the upload; without one, there were no fights.
pub proof fn uploads_close_what_they_opened(s: Report, answer: ReportEvent)
    requires
        s.phase == ReportPhase::Closing,
    ensures
        ({
            let closed = report::next(s, answer);
            let ended = report::next(closed.state, ReportEvent::Worked);
            &&& closed.notes == Seq::<ReportNote>::empty()
            &&& closed.action == (if s.created {
                ReportAction::TerminateReport
            } else {
                ReportAction::NoFights
            })
            &&& s.created ==> ended.action == ReportAction::Done && ended.notes == Seq::<
                ReportNote,
            >::empty()
        }),
{
}

/// A failure ends the upload at once, wherever it happens but at the close of the
/// parser.
pub proof fn failures_end_the_upload(s: Report)
    requires
        s.phase != ReportPhase::Closing,
    ensures
        report::next(s, ReportEvent::Failed).action == ReportAction::Fail,
        report::next(s, ReportEvent::Failed).notes == Seq::<ReportNote>::empty(),
{
}

/// An answer that the upload does not wait for ends it as a failure does.
pub proof fn other_answers_end_the_upload(s: Report, event: ReportEvent)
    requires
        match s.phase {
            ReportPhase::Reading => !(event is LinesRead),
            ReportPhase::Collecting => !(event is Fights),
            ReportPhase::CollectingMaster => !(event is Master),
            ReportPhase::Adding => !(event is Added),
            ReportPhase::Closing => false,
            ReportPhase::Over => true,
            _ => !(event is Worked),
        },
    ensures
        report::next(s, event) == (ReportStepView {
            state: Report { phase: ReportPhase::Over, ..s },
            notes: Seq::empty(),
            action: ReportAction::Fail,
        }),
{
}

/// The last reply with fights.
pub open spec fn last_fights(events: Seq<ReportEvent>) -> Option<FightData>
    decreases events.len(),
{
    if events.len() == 0 {
        None
    } else {
        match events.last() {
            ReportEvent::Fights(data) => Some(data),
            _ => last_fights(events.drop_last()),
        }
    }
}

proof fn lemma_last_fights(events: Seq<ReportEvent>)
    ensures
        ({
            let last = run(events);
            let s = last.state;
            &&& s.phase == ReportPhase::Creating || s.phase == ReportPhase::CollectingMaster
                || s.phase == ReportPhase::SettingMaster || s.phase == ReportPhase::Adding
                ==> last_fights(events) == Some(s.data)
            &&& last.action is CreateReport ==> s.phase == ReportPhase::Creating
            &&& last.action is SetMaster ==> s.phase == ReportPhase::SettingMaster
            &&& last.action is AddSegment ==> s.phase == ReportPhase::Adding
        }),
    decreases events.len(),
{
    if events.len() > 0 {
        lemma_last_fights(events.drop_last());
    }
}

/// Over a whole upload, what is sent to the site has the numbers of the last reply of the
/// parser, which is that on the batch at work.
pub proof fn segments_carry_the_numbers_of_their_batch(events: Seq<ReportEvent>)
    ensures
        run(events).action matches ReportAction::AddSegment { start_time, end_time, mythic, .. }
            ==> {
            &&& last_fights(events) matches Some(reply)
            &&& start_time == reply.start_time
            &&& end_time == reply.end_time
            &&& mythic == reply.mythic
        },
        run(events).action matches ReportAction::SetMaster { log_version, game_version, .. } ==> {
            &&& last_fights(events) matches Some(reply)
            &&& log_version == reply.log_version
            &&& game_version == reply.game_version
        },
        run(events).action matches ReportAction::CreateReport { start_time, end_time } ==> {
            &&& last_fights(events) matches Some(reply)
            &&& start_time == reply.start_time
            &&& end_time == reply.end_time
        },
{
    lemma_last_fights(events);
    if events.len() > 0 {
        lemma_last_fights(events.drop_last());
    }
}

// ---- what the user is told ---------------------------------------------------------------

/// The steps of the setup are told with their texts and percents.
pub proof fn setup_is_told(detail: Seq<char>, lines: usize)
    ensures
        report::note_text(ReportNote::ReadingLog, detail) == "Reading log file..."@,
        report::note_text(ReportNote::LinesRead { lines }, detail) == "Read "@ + numbers::grouped(
            numbers::decimal(lines as nat),
        ) + " lines"@,
        report::note_text(ReportNote::Initializing, detail) == "Initializing session..."@,
        report::note_text(ReportNote::LoggingIn, detail) == "Logging in..."@,
        report::note_text(ReportNote::LoggedIn, detail) == "Logged in as "@ + detail,
        report::note_text(ReportNote::FetchingParser, detail) == "Fetching latest parser..."@,
        report::note_text(ReportNote::ParserLoaded, detail) == "Parser v"@ + detail + " loaded"@,
        report::note_text(ReportNote::StartingParser, detail) == "Starting parser..."@,
        report::note_text(ReportNote::ParserReady, detail) == "Parser ready"@,
        report::note_step(ReportNote::ReadingLog) == "read"@,
        report::note_step(ReportNote::LinesRead { lines }) == "read"@,
        report::note_step(ReportNote::Initializing) == "session"@,
        report::note_step(ReportNote::LoggingIn) == "login"@,
        report::note_step(ReportNote::LoggedIn) == "login"@,
        report::note_step(ReportNote::FetchingParser) == "fetch-parser"@,
        report::note_step(ReportNote::ParserLoaded) == "fetch-parser"@,
        report::note_step(ReportNote::StartingParser) == "parser"@,
        report::note_step(ReportNote::ParserReady) == "parser"@,
        report::note_percent(ReportNote::ReadingLog) == 1,
        report::note_percent(ReportNote::LinesRead { lines }) == 2,
        report::note_percent(ReportNote::Initializing) == 3,
        report::note_percent(ReportNote::LoggingIn) == 4,
        report::note_percent(ReportNote::LoggedIn) == 5,
        report::note_percent(ReportNote::FetchingParser) == 6,
        report::note_percent(ReportNote::ParserLoaded) == 7,
        report::note_percent(ReportNote::StartingParser) == 8,
        report::note_percent(ReportNote::ParserReady) == 9,
{
}

/// The batches are told with their numbers, and with the progress that they carry.
pub proof fn batches_are_told(
    detail: Seq<char>,
    batch: usize,
    batches: usize,
    events: i64,
    pct: u32,
)
    ensures
        ({
            let of = numbers::decimal(batch as nat) + "/"@ + numbers::decimal(batches as nat);
            let without = ReportNote::NoFightsYet { batch, batches, pct };
            let created = ReportNote::ReportCreated { pct };
            let uploaded = ReportNote::SegmentUploaded { batch, batches, events, pct };
            &&& report::note_text(without, detail) == "Batch "@ + of + " — no fights yet"@
            &&& report::note_text(created, detail) == "Report created: "@ + detail
            &&& report::note_text(uploaded, detail) == "Segment "@ + of + " — "@
                + numbers::grouped(numbers::decimal(events as usize as nat)) + " events"@
            &&& report::note_step(without) == "parse"@
            &&& report::note_step(created) == "report"@
            &&& report::note_step(uploaded) == "upload"@
            &&& report::note_percent(without) == pct
            &&& report::note_percent(created) == pct
            &&& report::note_percent(uploaded) == pct
        }),
{
}

/// A log goes to the site that is named, and to Warcraft Logs where none is.
pub proof fn logs_go_to_the_site_that_is_named(args: &UploadArgs, site: String)
    requires
        call_ensures(report::upload_site, (args,), site),
    ensures
        args.game@.len() > 0 ==> site@ == args.game@,
        args.game@.len() == 0 ==> site@ == "warcraft"@,
{
}

/// A report has the name of its log, and that of a log where it cannot be read.
pub proof fn reports_are_named_after_their_log(file_name: Option<String>, name: String)
    requires
        call_ensures(report::report_name, (file_name,), name),
    ensures
        file_name matches Some(given) ==> name@ == given@,
        file_name is None ==> name@ == "log.txt"@,
{
}

} // verus!
