//! What the live tail promises in every state and over whole runs.

use vstd::prelude::*;

use crate::tail;
use crate::tail::{ActionView, EventView, Marks, Phase, StepView, TailView};
use crate::text;

verus! {

broadcast use vstd::seq::group_seq_axioms;

/// The state stays consistent, whatever happens.
pub proof fn state_stays_consistent(s: TailView, event: EventView, cancelled: bool, now: u64)
    requires
        tail::consistent(s),
    ensures
        tail::consistent(tail::next(s, event, cancelled, now).state),
{
}

/// The loop starts in a consistent state.
pub proof fn start_is_consistent(cancelled: bool, now: u64)
    ensures
        tail::consistent(tail::poll(tail::initial(now), Seq::empty(), cancelled).state),
{
}

/// No commit is forced while an encounter or a keystone run is open: it would split
/// the fight. Only the last commit of a stopped session closes what is open.
pub proof fn open_fights_are_not_split(s: TailView, event: EventView, cancelled: bool, now: u64)
    ensures
        ({
            let step = tail::next(s, event, cancelled, now);
            step.action matches ActionView::Upload { push_fight: true, .. } ==> {
                ||| step.state.phase == Phase::FinalFlushing
                ||| !step.state.encounter_open && !step.state.key_open
            }
        }),
{
}

/// Slivers are dropped from the commit of a silent log only, and from the last commit
/// where no keystone run waits for it. A commit for the end of a keystone run keeps
/// them: its fragment may itself be short.
pub proof fn key_commits_keep_slivers(s: TailView, event: EventView, cancelled: bool, now: u64)
    ensures
        ({
            let step = tail::next(s, event, cancelled, now);
            step.action matches ActionView::Upload {
                drop_slivers: true,
                push_fight,
                lines,
            } ==> {
                &&& push_fight
                &&& lines.len() == 0
                &&& step.state.phase == Phase::FlushingIdle || (step.state.phase
                    == Phase::FinalFlushing && !step.state.pending_key)
            }
        }),
{
}

/// Once a keystone run has ended, its commit stays pending until a segment is
/// uploaded.
pub proof fn key_end_stays_pending(s: TailView, event: EventView, cancelled: bool, now: u64)
    requires
        s.pending_key,
        event != EventView::Uploaded(Some(true)),
    ensures
        tail::next(s, event, cancelled, now).state.pending_key,
{
}

/// The end of a keystone run in the lines of a poll makes its commit pending, and a
/// pending commit is forced with every upload of lines while nothing is open.
pub proof fn key_end_is_committed(s: TailView, now: u64)
    ensures
        tail::mark_lines(tail::carried(s), s.lines).key_ended ==> tail::commit(
            s,
            now,
        ).state.pending_key,
        tail::commit(s, now).action->push_fight == (tail::commit(s, now).state.pending_key
            && !tail::commit(s, now).state.encounter_open && !tail::commit(s, now).state.key_open),
{
}

/// The end of a keystone run in what is read after the stop makes its commit pending
/// as well, so the last commit keeps its fragment unless a segment is uploaded first.
pub proof fn key_end_after_the_stop_is_kept(
    s: TailView,
    chunk: crate::chunk::ChunkView,
    cancelled: bool,
    now: u64,
)
    requires
        s.phase == Phase::FinalReading,
        chunk.lines.len() > 0,
        tail::mark_lines(tail::carried(s), chunk.lines).key_ended,
    ensures
        ({
            let drained = tail::next(s, EventView::Read(Some(chunk)), cancelled, now).state;
            let failed = tail::next(drained, EventView::Uploaded(None), cancelled, now);
            let kept = tail::next(drained, EventView::Uploaded(Some(false)), cancelled, now).state;
            let last = tail::next(kept, EventView::Read(None), cancelled, now);
            let flush = ActionView::Upload {
                lines: Seq::empty(),
                push_fight: true,
                drop_slivers: false,
            };
            &&& drained.pending_key
            &&& failed.action == flush
            &&& last.action == flush
        }),
{
}

/// A pending commit is tried again on every poll that finds no lines, while nothing
/// is open.
pub proof fn pending_key_is_retried(
    s: TailView,
    chunk: crate::chunk::ChunkView,
    cancelled: bool,
    now: u64,
)
    requires
        s.phase == Phase::Reading,
        s.pending_key,
        !s.encounter_open,
        !s.key_open,
        chunk.lines.len() == 0,
        chunk.file_size >= s.offset,
    ensures
        tail::next(s, EventView::Read(Some(chunk)), cancelled, now).action
            == (ActionView::Upload {
            lines: Seq::empty(),
            push_fight: true,
            drop_slivers: false,
        }),
{
}

/// The open fight of a silent log is flushed only after lines were parsed, when
/// nothing has come for longer than the threshold, and while nothing is open.
pub proof fn idle_flush_waits(s: TailView, event: EventView, cancelled: bool, now: u64)
    requires
        tail::next(s, event, cancelled, now).state.phase == Phase::FlushingIdle,
    ensures
        s.dirty,
        now - s.last_data > tail::IDLE_THRESHOLD_NS,
        !s.encounter_open,
        !s.key_open,
        !tail::next(s, event, cancelled, now).state.dirty,
{
}

/// The lines that an answer adds to what is to be uploaded.
pub open spec fn accepted(s: TailView, event: EventView) -> Seq<Seq<char>> {
    match (s.phase, event) {
        (
            Phase::ReadingOld | Phase::Gathering | Phase::FinalReading,
            EventView::Read(Some(chunk)),
        ) => chunk.lines,
        (Phase::Reading, EventView::Read(Some(chunk))) => if chunk.file_size < s.offset {
            Seq::empty()
        } else {
            chunk.lines
        },
        _ => Seq::empty(),
    }
}

/// The lines that an action uploads.
pub open spec fn sent(action: ActionView) -> Seq<Seq<char>> {
    match action {
        ActionView::Upload { lines, .. } => lines,
        _ => Seq::empty(),
    }
}

/// Every line that is read is uploaded or kept for the upload of the poll, in its
/// order, and no other line is.
pub proof fn lines_are_sent_or_kept(s: TailView, event: EventView, cancelled: bool, now: u64)
    requires
        tail::consistent(s),
        tail::awaits(s.phase, event),
    ensures
        ({
            let step = tail::next(s, event, cancelled, now);
            s.lines + accepted(s, event) == sent(step.action) + step.state.lines
        }),
{
    let step = tail::next(s, event, cancelled, now);
    assert(s.lines + accepted(s, event) =~= sent(step.action) + step.state.lines);
}

/// An answer with the stop signal and the clock.
pub struct Answer {
    pub event: EventView,
    pub cancelled: bool,
    pub now: u64,
}

/// The state behind a series of answers.
pub open spec fn state_after(s: TailView, answers: Seq<Answer>) -> TailView
    decreases answers.len(),
{
    if answers.len() == 0 {
        s
    } else {
        let before = state_after(s, answers.drop_last());
        tail::next(
            before,
            answers.last().event,
            answers.last().cancelled,
            answers.last().now,
        ).state
    }
}

/// All lines that a series of answers adds.
pub open spec fn all_accepted(s: TailView, answers: Seq<Answer>) -> Seq<Seq<char>>
    decreases answers.len(),
{
    if answers.len() == 0 {
        Seq::empty()
    } else {
        let earlier = answers.drop_last();
        all_accepted(s, earlier) + accepted(state_after(s, earlier), answers.last().event)
    }
}

/// All lines that are uploaded on a series of answers.
pub open spec fn all_sent(s: TailView, answers: Seq<Answer>) -> Seq<Seq<char>>
    decreases answers.len(),
{
    if answers.len() == 0 {
        Seq::empty()
    } else {
        let earlier = answers.drop_last();
        all_sent(s, earlier) + sent(
            tail::next(
                state_after(s, earlier),
                answers.last().event,
                answers.last().cancelled,
                answers.last().now,
            ).action,
        )
    }
}

/// Each answer is of the kind that the loop waits for.
pub open spec fn in_turn(s: TailView, answers: Seq<Answer>) -> bool
    decreases answers.len(),
{
    answers.len() > 0 ==> {
        &&& in_turn(s, answers.drop_last())
        &&& tail::awaits(state_after(s, answers.drop_last()).phase, answers.last().event)
    }
}

/// Over a whole run, the lines that were uploaded, followed by those of the poll
/// that is under way, are the lines that were read: none is lost, none is sent
/// twice, and their order stays.
pub proof fn no_line_is_lost_or_repeated(s: TailView, answers: Seq<Answer>)
    requires
        tail::consistent(s),
        in_turn(s, answers),
    ensures
        tail::consistent(state_after(s, answers)),
        s.lines + all_accepted(s, answers) == all_sent(s, answers) + state_after(s, answers).lines,
    decreases answers.len(),
{
    if answers.len() == 0 {
        assert(s.lines + all_accepted(s, answers) =~= all_sent(s, answers) + s.lines);
    } else {
        let earlier = answers.drop_last();
        let last = answers.last();
        let t = state_after(s, earlier);
        no_line_is_lost_or_repeated(s, earlier);
        lines_are_sent_or_kept(t, last.event, last.cancelled, last.now);
        state_stays_consistent(t, last.event, last.cancelled, last.now);
        lemma_append_balance(
            s.lines,
            all_accepted(s, earlier),
            all_sent(s, earlier),
            t.lines,
            accepted(t, last.event),
            sent(tail::next(t, last.event, last.cancelled, last.now).action),
            state_after(s, answers).lines,
        );
    }
}

proof fn lemma_append_balance<T>(
    x: Seq<T>,
    a: Seq<T>,
    b: Seq<T>,
    l: Seq<T>,
    c: Seq<T>,
    d: Seq<T>,
    m: Seq<T>,
)
    requires
        x + a == b + l,
        l + c == d + m,
    ensures
        x + (a + c) == (b + d) + m,
{
    assert(x + (a + c) =~= (x + a) + c);
    assert((b + l) + c =~= b + (l + c));
    assert(b + (d + m) =~= (b + d) + m);
}

/// The session is being stopped.
pub open spec fn stopping(phase: Phase) -> bool {
    phase == Phase::Grace || phase == Phase::FinalReading || phase == Phase::FinalUploading
        || phase == Phase::FinalFlushing
}

/// A stopped session reads what is left of its file, makes its last commit and
/// ends: it looks for no other log, no failure breaks it off, and it is over only
/// behind the last commit.
pub proof fn stop_runs_to_its_end(s: TailView, event: EventView, cancelled: bool, now: u64)
    requires
        stopping(s.phase),
        tail::awaits(s.phase, event),
    ensures
        ({
            let step = tail::next(s, event, cancelled, now);
            &&& stopping(step.state.phase) || s.phase == Phase::FinalFlushing && step.action
                == ActionView::Done
            &&& !(step.action is Fail)
            &&& !(step.action is FindLog)
            &&& step.state.phase == Phase::FinalFlushing ==> step.action == (ActionView::Upload {
                lines: Seq::empty(),
                push_fight: true,
                drop_slivers: !step.state.pending_key,
            })
        }),
{
}

/// The session fails only where an upload failed and no stop was asked for, or where
/// the parser did not take the date of a new file. So an upload that fails because
/// of the stop leads to the last commit.
pub proof fn failures_are_few(s: TailView, event: EventView, cancelled: bool, now: u64)
    requires
        tail::awaits(s.phase, event),
        tail::next(s, event, cancelled, now).action is Fail,
    ensures
        event == EventView::Uploaded(None) && !cancelled || event == EventView::DateSet(false),
{
}

/// The offset moves to the end of a chunk whose lines are taken, or back to the
/// start for a new or a truncated file, and not otherwise.
pub proof fn offset_follows_the_lines(s: TailView, event: EventView, cancelled: bool, now: u64)
    ensures
        ({
            let step = tail::next(s, event, cancelled, now);
            ||| step.state.offset == s.offset
            ||| event matches EventView::Read(Some(chunk)) && step.state.offset == chunk.new_offset
                && accepted(s, event).len() > 0
            ||| step.state.offset == 0 && step.state.phase == Phase::Switching
            ||| step.state.offset == 0 && s.phase == Phase::Reading && (event matches EventView::Read(
                Some(chunk),
            ) && chunk.file_size < s.offset)
        }),
{
}

/// Lines are uploaded when the file holds no more of them, or when the poll has as
/// many as it may gather: what the game wrote in one burst is not torn apart by the
/// size of a read.
pub proof fn bursts_stay_together(s: TailView, event: EventView, cancelled: bool, now: u64)
    requires
        tail::next(s, event, cancelled, now).state.phase == Phase::UploadingLines,
    ensures
        ({
            let step = tail::next(s, event, cancelled, now);
            ||| sent(step.action).len() >= tail::DRAIN_MAX_LINES
            ||| s.phase == Phase::Gathering && accepted(s, event).len() == 0
        }),
{
}

/// The line tells of the start or the end of an encounter.
pub open spec fn encounter_marker(line: Seq<char>) -> bool {
    text::contains_text(line, "ENCOUNTER_START"@) || text::contains_text(line, "ENCOUNTER_END"@)
}

/// An encounter is open behind some lines exactly where the last of them that tells
/// of an encounter tells of its start; where none does, nothing changes.
pub proof fn last_marker_decides(marks: Marks, lines: Seq<Seq<char>>)
    ensures
        (forall|i: int| 0 <= i < lines.len() ==> !encounter_marker(#[trigger] lines[i]))
            ==> tail::mark_lines(marks, lines).encounter_open == marks.encounter_open,
        forall|i: int|
            0 <= i < lines.len() && encounter_marker(#[trigger] lines[i]) && (forall|j: int|
                i < j < lines.len() ==> !encounter_marker(#[trigger] lines[j]))
                ==> tail::mark_lines(marks, lines).encounter_open == text::contains_text(
                lines[i],
                "ENCOUNTER_START"@,
            ),
    decreases lines.len(),
{
    if lines.len() > 0 {
        let front = lines.drop_last();
        let last = lines.last();
        last_marker_decides(marks, front);
        assert(last == lines[lines.len() - 1]);
        if forall|i: int| 0 <= i < lines.len() ==> !encounter_marker(#[trigger] lines[i]) {
            assert forall|i: int| 0 <= i < front.len() implies !encounter_marker(
                #[trigger] front[i],
            ) by {
                assert(front[i] == lines[i]);
            }
        }
        assert forall|i: int|
            0 <= i < lines.len() && encounter_marker(#[trigger] lines[i]) && (forall|j: int|
                i < j < lines.len() ==> !encounter_marker(#[trigger] lines[j])) implies tail::mark_lines(
            marks,
            lines,
        ).encounter_open == text::contains_text(lines[i], "ENCOUNTER_START"@) by {
            if i < lines.len() - 1 {
                assert(front[i] == lines[i]);
                assert forall|j: int| i < j < front.len() implies !encounter_marker(
                    #[trigger] front[j],
                ) by {
                    assert(front[j] == lines[j]);
                }
            }
        }
    }
}

/// A keystone run has ended in some lines exactly where one of them says so and tells
/// of no encounter and no start of a run.
pub proof fn key_end_is_seen(marks: Marks, lines: Seq<Seq<char>>)
    requires
        !marks.key_ended,
    ensures
        tail::mark_lines(marks, lines).key_ended <==> exists|i: int|
            0 <= i < lines.len() && #[trigger] ends_key(lines[i]),
    decreases lines.len(),
{
    if lines.len() > 0 {
        let front = lines.drop_last();
        key_end_is_seen(marks, front);
        if exists|i: int| 0 <= i < front.len() && #[trigger] ends_key(front[i]) {
            let i = choose|i: int| 0 <= i < front.len() && #[trigger] ends_key(front[i]);
            assert(ends_key(lines[i]));
        }
        if exists|i: int| 0 <= i < lines.len() && #[trigger] ends_key(lines[i]) {
            let i = choose|i: int| 0 <= i < lines.len() && #[trigger] ends_key(lines[i]);
            if i < front.len() {
                assert(ends_key(front[i]));
            }
        }
        if ends_key(lines.last()) {
            assert(ends_key(lines[lines.len() - 1]));
        }
    }
}

/// The line tells of the end of a keystone run.
pub open spec fn ends_key(line: Seq<char>) -> bool {
    &&& !encounter_marker(line)
    &&& !text::contains_text(line, "CHALLENGE_MODE_START"@)
    &&& text::contains_text(line, "CHALLENGE_MODE_END"@)
}

/// The line tells of the start of a keystone run.
pub open spec fn starts_key(line: Seq<char>) -> bool {
    !encounter_marker(line) && text::contains_text(line, "CHALLENGE_MODE_START"@)
}

/// The line tells of the start or the end of a keystone run.
pub open spec fn key_marker(line: Seq<char>) -> bool {
    starts_key(line) || ends_key(line)
}

/// A keystone run is open behind some lines exactly where the last of them that tells
/// of a run tells of its start; where none does, nothing changes.
pub proof fn last_key_marker_decides(marks: Marks, lines: Seq<Seq<char>>)
    ensures
        (forall|i: int| 0 <= i < lines.len() ==> !key_marker(#[trigger] lines[i]))
            ==> tail::mark_lines(marks, lines).key_open == marks.key_open,
        forall|i: int|
            0 <= i < lines.len() && key_marker(#[trigger] lines[i]) && (forall|j: int|
                i < j < lines.len() ==> !key_marker(#[trigger] lines[j])) ==> tail::mark_lines(
                marks,
                lines,
            ).key_open == starts_key(lines[i]),
    decreases lines.len(),
{
    if lines.len() > 0 {
        let front = lines.drop_last();
        let last = lines.last();
        last_key_marker_decides(marks, front);
        assert(last == lines[lines.len() - 1]);
        if forall|i: int| 0 <= i < lines.len() ==> !key_marker(#[trigger] lines[i]) {
            assert forall|i: int| 0 <= i < front.len() implies !key_marker(#[trigger] front[i]) by {
                assert(front[i] == lines[i]);
            }
        }
        assert forall|i: int|
            0 <= i < lines.len() && key_marker(#[trigger] lines[i]) && (forall|j: int|
                i < j < lines.len() ==> !key_marker(#[trigger] lines[j])) implies tail::mark_lines(
            marks,
            lines,
        ).key_open == starts_key(lines[i]) by {
            if i < lines.len() - 1 {
                assert(front[i] == lines[i]);
                assert forall|j: int| i < j < front.len() implies !key_marker(
                    #[trigger] front[j],
                ) by {
                    assert(front[j] == lines[j]);
                }
            }
        }
    }
}

/// The last of `lines` that tells of an encounter tells of its start.
pub open spec fn encounter_started(lines: Seq<Seq<char>>) -> bool {
    exists|i: int|
        0 <= i < lines.len() && encounter_marker(#[trigger] lines[i]) && text::contains_text(
            lines[i],
            "ENCOUNTER_START"@,
        ) && (forall|j: int| i < j < lines.len() ==> !encounter_marker(#[trigger] lines[j]))
}

/// The last of `lines` that tells of a keystone run tells of its start.
pub open spec fn key_started(lines: Seq<Seq<char>>) -> bool {
    exists|i: int|
        0 <= i < lines.len() && starts_key(#[trigger] lines[i]) && (forall|j: int|
            i < j < lines.len() ==> !key_marker(#[trigger] lines[j]))
}

/// What is open behind some lines and more lines.
proof fn lemma_mark_more(marks: Marks, again: Marks, lines: Seq<Seq<char>>, more: Seq<Seq<char>>)
    requires
        again.encounter_open == tail::mark_lines(marks, lines).encounter_open,
        again.key_open == tail::mark_lines(marks, lines).key_open,
    ensures
        tail::mark_lines(marks, lines + more).encounter_open == tail::mark_lines(
            again,
            more,
        ).encounter_open,
        tail::mark_lines(marks, lines + more).key_open == tail::mark_lines(again, more).key_open,
    decreases more.len(),
{
    if more.len() == 0 {
        assert(lines + more =~= lines);
    } else {
        assert((lines + more).drop_last() =~= lines + more.drop_last());
        lemma_mark_more(marks, again, lines, more.drop_last());
    }
}

/// Every line that a step uploads has its marks taken.
proof fn lemma_marks_of_step(s: TailView, answer: Answer)
    ensures
        ({
            let step = tail::next(s, answer.event, answer.cancelled, answer.now);
            let marks = tail::mark_lines(tail::carried(s), sent(step.action));
            &&& step.state.encounter_open == marks.encounter_open
            &&& step.state.key_open == marks.key_open
        }),
{
    let step = tail::next(s, answer.event, answer.cancelled, answer.now);
    let lines = sent(step.action);
    let marks = tail::mark_lines(tail::carried(s), lines);
    if step.state.phase == Phase::UploadingLines {
        let gathered = TailView { lines, ..s };
        assert(tail::carried(gathered) == tail::carried(s));
        if s.phase == Phase::Gathering {
            assert(lines =~= s.lines + accepted(s, answer.event));
        }
        assert(step.state.encounter_open == marks.encounter_open);
        assert(step.state.key_open == marks.key_open);
    } else if step.state.phase == Phase::UploadingOld || step.state.phase
        == Phase::FinalUploading {
        assert(step.state.encounter_open == marks.encounter_open);
        assert(step.state.key_open == marks.key_open);
    } else {
        assert(lines == Seq::<Seq<char>>::empty());
        assert(marks == tail::carried(s));
        assert(step.state.encounter_open == s.encounter_open);
    }
}

/// Over a whole run, the loop takes an encounter or a keystone run for open exactly
/// where the marks of all lines that were uploaded say so.
pub proof fn lemma_marks_of_run(s: TailView, answers: Seq<Answer>)
    ensures
        ({
            let marks = tail::mark_lines(tail::carried(s), all_sent(s, answers));
            let state = state_after(s, answers);
            state.encounter_open == marks.encounter_open && state.key_open == marks.key_open
        }),
    decreases answers.len(),
{
    if answers.len() > 0 {
        let earlier = answers.drop_last();
        let last = answers.last();
        let t = state_after(s, earlier);
        let step = tail::next(t, last.event, last.cancelled, last.now);
        lemma_marks_of_run(s, earlier);
        lemma_marks_of_step(t, last);
        assert(state_after(s, answers) == step.state);
        lemma_mark_more(
            tail::carried(s),
            tail::carried(t),
            all_sent(s, earlier),
            sent(step.action),
        );
    }
}

/// The loop at its start.
pub open spec fn started(cancelled: bool, start: u64) -> TailView {
    tail::poll(tail::initial(start), Seq::empty(), cancelled).state
}

/// The step that the last of some answers leads to.
pub open spec fn last_step(s: TailView, answers: Seq<Answer>) -> StepView {
    let last = answers.last();
    tail::next(state_after(s, answers.drop_last()), last.event, last.cancelled, last.now)
}

/// Over a whole run, no commit is forced while the last marker of all lines read is the
/// start of an encounter or of a keystone run. Only the last commit of a stopped session
/// closes what is open.
pub proof fn nothing_started_is_forced(cancelled: bool, start: u64, answers: Seq<Answer>)
    requires
        answers.len() > 0,
        in_turn(started(cancelled, start), answers),
    ensures
        ({
            let s = started(cancelled, start);
            let step = last_step(s, answers);
            let lines = all_accepted(s, answers);
            (step.action matches ActionView::Upload { push_fight: true, .. }) && step.state.phase
                != Phase::FinalFlushing ==> !encounter_started(lines) && !key_started(lines)
        }),
{
    let s = started(cancelled, start);
    let last = answers.last();
    let step = last_step(s, answers);
    let lines = all_accepted(s, answers);
    start_is_consistent(cancelled, start);
    no_line_is_lost_or_repeated(s, answers);
    assert(state_after(s, answers) == step.state);
    if (step.action matches ActionView::Upload { push_fight: true, .. }) && step.state.phase
        != Phase::FinalFlushing {
        lemma_forced_phase(state_after(s, answers.drop_last()), last);
        assert(s.lines + lines =~= lines);
        assert(all_sent(s, answers) + step.state.lines =~= all_sent(s, answers));
        assert(lines == all_sent(s, answers));
        lemma_marks_of_run(s, answers);
        last_marker_decides(tail::carried(s), lines);
        last_key_marker_decides(tail::carried(s), lines);
        open_fights_are_not_split(
            state_after(s, answers.drop_last()),
            last.event,
            last.cancelled,
            last.now,
        );
        if key_started(lines) {
            let i = choose|i: int|
                0 <= i < lines.len() && starts_key(#[trigger] lines[i]) && (forall|j: int|
                    i < j < lines.len() ==> !key_marker(#[trigger] lines[j]));
            assert(key_marker(lines[i]));
        }
    }
}

/// A step that uploads is in no phase that keeps lines.
proof fn lemma_forced_phase(s: TailView, answer: Answer)
    ensures
        ({
            let step = tail::next(s, answer.event, answer.cancelled, answer.now);
            step.action is Upload ==> step.state.phase != Phase::Gathering && step.state.phase
                != Phase::Over
        }),
{
}

/// Some of `lines` ends a keystone run.
pub open spec fn has_key_end(lines: Seq<Seq<char>>) -> bool {
    exists|i: int| 0 <= i < lines.len() && #[trigger] ends_key(lines[i])
}

/// The commit of a keystone run that has ended is pending, or its end is among the lines
/// of the poll that is under way.
pub open spec fn key_is_owed(s: TailView) -> bool {
    s.pending_key || has_key_end(s.lines)
}

pub proof fn lemma_key_end_in_concat(a: Seq<Seq<char>>, b: Seq<Seq<char>>)
    ensures
        has_key_end(a + b) == (has_key_end(a) || has_key_end(b)),
{
    let all = a + b;
    if has_key_end(a) {
        let i = choose|i: int| 0 <= i < a.len() && #[trigger] ends_key(a[i]);
        assert(ends_key(all[i]));
    }
    if has_key_end(b) {
        let i = choose|i: int| 0 <= i < b.len() && #[trigger] ends_key(b[i]);
        assert(ends_key(all[a.len() + i]));
    }
    if has_key_end(all) {
        let i = choose|i: int| 0 <= i < all.len() && #[trigger] ends_key(all[i]);
        if i < a.len() {
            assert(ends_key(a[i]));
        } else {
            assert(ends_key(b[i - a.len()]));
        }
    }
}

/// What is owed stays owed, and a key end that is read is owed, unless a segment is
/// uploaded.
proof fn lemma_key_is_owed(s: TailView, answer: Answer)
    requires
        tail::consistent(s),
        tail::awaits(s.phase, answer.event),
        key_is_owed(s) || has_key_end(accepted(s, answer.event)),
        answer.event != EventView::Uploaded(Some(true)),
    ensures
        key_is_owed(tail::next(s, answer.event, answer.cancelled, answer.now).state),
{
    let step = tail::next(s, answer.event, answer.cancelled, answer.now);
    let got = accepted(s, answer.event);
    let all = s.lines + got;
    lemma_key_end_in_concat(s.lines, got);
    lines_are_sent_or_kept(s, answer.event, answer.cancelled, answer.now);
    lemma_key_end_in_concat(sent(step.action), step.state.lines);
    key_end_is_seen(tail::carried(s), sent(step.action));
    lemma_marks_pend(s, answer);
}

/// A key end among the lines that a step uploads makes the commit pending.
proof fn lemma_marks_pend(s: TailView, answer: Answer)
    ensures
        ({
            let step = tail::next(s, answer.event, answer.cancelled, answer.now);
            let marks = tail::mark_lines(tail::carried(s), sent(step.action));
            &&& marks.key_ended ==> step.state.pending_key
            &&& s.pending_key && answer.event != EventView::Uploaded(Some(true))
                ==> step.state.pending_key
        }),
{
    let step = tail::next(s, answer.event, answer.cancelled, answer.now);
    let lines = sent(step.action);
    let marks = tail::mark_lines(tail::carried(s), lines);
    if step.state.phase == Phase::UploadingLines {
        let gathered = TailView { lines, ..s };
        assert(tail::carried(gathered) == tail::carried(s));
        if s.phase == Phase::Gathering {
            assert(lines =~= s.lines + accepted(s, answer.event));
        }
        assert(marks.key_ended ==> step.state.pending_key);
    } else if step.state.phase == Phase::UploadingOld || step.state.phase
        == Phase::FinalUploading {
        assert(marks.key_ended ==> step.state.pending_key);
    } else {
        assert(lines == Seq::<Seq<char>>::empty());
        assert(marks == tail::carried(s));
    }
}

proof fn lemma_key_is_owed_over_run(s: TailView, answers: Seq<Answer>, k: int)
    requires
        tail::consistent(s),
        in_turn(s, answers),
        0 <= k < answers.len(),
        has_key_end(accepted(state_after(s, answers.take(k)), answers[k].event)),
        forall|j: int|
            k < j < answers.len() ==> (#[trigger] answers[j]).event != EventView::Uploaded(
                Some(true),
            ),
    ensures
        key_is_owed(state_after(s, answers)),
        tail::consistent(state_after(s, answers)),
    decreases answers.len(),
{
    let earlier = answers.drop_last();
    let t = state_after(s, earlier);
    no_line_is_lost_or_repeated(s, earlier);
    no_line_is_lost_or_repeated(s, answers);
    if k == answers.len() - 1 {
        assert(answers.take(k) =~= earlier);
        assert(answers[k] == answers.last());
        if answers.last().event != EventView::Uploaded(Some(true)) {
            lemma_key_is_owed(t, answers.last());
        }
    } else {
        assert(earlier.take(k) =~= answers.take(k));
        assert(earlier[k] == answers[k]);
        assert forall|j: int| k < j < earlier.len() implies (#[trigger] earlier[j]).event
            != EventView::Uploaded(Some(true)) by {
            assert(answers[j] == earlier[j]);
        }
        lemma_key_is_owed_over_run(s, earlier, k);
        assert(answers[answers.len() - 1] == answers.last());
        lemma_key_is_owed(t, answers.last());
    }
}

/// Over a whole run, where a line read anywhere ends a keystone run and no segment is
/// uploaded behind it, the run is still owed its commit, and the last commit of the
/// session is made with slivers kept.
pub proof fn a_key_end_is_never_dropped(s: TailView, answers: Seq<Answer>, k: int)
    requires
        tail::consistent(s),
        in_turn(s, answers),
        0 <= k < answers.len(),
        has_key_end(accepted(state_after(s, answers.take(k)), answers[k].event)),
        forall|j: int|
            k < j < answers.len() ==> (#[trigger] answers[j]).event != EventView::Uploaded(
                Some(true),
            ),
    ensures
        key_is_owed(state_after(s, answers)),
        last_step(s, answers).state.phase == Phase::FinalFlushing ==> last_step(s, answers).action
            == (ActionView::Upload {
            lines: Seq::empty(),
            push_fight: true,
            drop_slivers: false,
        }),
{
    lemma_key_is_owed_over_run(s, answers, k);
    lemma_final_flush(state_after(s, answers.drop_last()), answers.last());
    assert(state_after(s, answers) == last_step(s, answers).state);
}

/// The step into the last commit.
proof fn lemma_final_flush(s: TailView, answer: Answer)
    ensures
        ({
            let step = tail::next(s, answer.event, answer.cancelled, answer.now);
            step.state.phase == Phase::FinalFlushing ==> step.action == (ActionView::Upload {
                lines: Seq::empty(),
                push_fight: true,
                drop_slivers: !step.state.pending_key,
            })
        }),
{
}

} // verus!
