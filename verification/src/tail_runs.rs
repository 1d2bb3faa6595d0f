//! What the live tail does over whole runs, told from the answers that it got: which
//! lines it has read, how far it is in which file, and since when the log is silent.

use vstd::prelude::*;

use crate::chunk::ChunkView;
use crate::tail;
use crate::tail::{ActionView, EventView, Marks, Phase, StepView, TailNote, TailView};
use crate::tail_laws;
use crate::tail_laws::Answer;
use crate::text;

verus! {

broadcast use vstd::seq::group_seq_axioms;

/// No line is in hand: all that were read have been uploaded.
pub open spec fn none_in_hand(s: TailView) -> bool {
    s.lines.len() == 0
}

// ---- what is open ---------------------------------------------------------------------

proof fn lemma_encounter(marks: Marks, lines: Seq<Seq<char>>)
    requires
        !marks.encounter_open,
    ensures
        tail::mark_lines(marks, lines).encounter_open <==> tail_laws::encounter_started(lines),
    decreases lines.len(),
{
    tail_laws::last_marker_decides(marks, lines);
    if lines.len() > 0 {
        let front = lines.drop_last();
        let n = lines.len() - 1;
        lemma_encounter(marks, front);
        if tail_laws::encounter_marker(lines[n]) {
            if text::contains_text(lines[n], "ENCOUNTER_START"@) {
                assert(tail_laws::encounter_started(lines));
            }
        } else if tail_laws::encounter_started(front) {
            let i = choose|i: int|
                0 <= i < front.len() && tail_laws::encounter_marker(#[trigger] front[i])
                    && text::contains_text(front[i], "ENCOUNTER_START"@) && (forall|j: int|
                    i < j < front.len() ==> !tail_laws::encounter_marker(#[trigger] front[j]));
            assert(lines[i] == front[i]);
            assert forall|j: int| i < j < lines.len() implies !tail_laws::encounter_marker(
                #[trigger] lines[j],
            ) by {
                if j < n {
                    assert(front[j] == lines[j]);
                }
            }
            assert(tail_laws::encounter_started(lines));
        } else if tail_laws::encounter_started(lines) {
            let i = choose|i: int|
                0 <= i < lines.len() && tail_laws::encounter_marker(#[trigger] lines[i])
                    && text::contains_text(lines[i], "ENCOUNTER_START"@) && (forall|j: int|
                    i < j < lines.len() ==> !tail_laws::encounter_marker(#[trigger] lines[j]));
            assert(front[i] == lines[i]);
            assert forall|j: int| i < j < front.len() implies !tail_laws::encounter_marker(
                #[trigger] front[j],
            ) by {
                assert(front[j] == lines[j]);
            }
            assert(tail_laws::encounter_started(front));
        }
    }
}

proof fn lemma_key(marks: Marks, lines: Seq<Seq<char>>)
    requires
        !marks.key_open,
    ensures
        tail::mark_lines(marks, lines).key_open <==> tail_laws::key_started(lines),
    decreases lines.len(),
{
    tail_laws::last_key_marker_decides(marks, lines);
    if lines.len() > 0 {
        let front = lines.drop_last();
        let n = lines.len() - 1;
        lemma_key(marks, front);
        if tail_laws::key_marker(lines[n]) {
            if tail_laws::starts_key(lines[n]) {
                assert(tail_laws::key_started(lines));
            }
        } else if tail_laws::key_started(front) {
            let i = choose|i: int|
                0 <= i < front.len() && tail_laws::starts_key(#[trigger] front[i]) && (forall|
                    j: int,
                |
                    i < j < front.len() ==> !tail_laws::key_marker(#[trigger] front[j]));
            assert(lines[i] == front[i]);
            assert forall|j: int| i < j < lines.len() implies !tail_laws::key_marker(
                #[trigger] lines[j],
            ) by {
                if j < n {
                    assert(front[j] == lines[j]);
                }
            }
            assert(tail_laws::key_started(lines));
        } else if tail_laws::key_started(lines) {
            let i = choose|i: int|
                0 <= i < lines.len() && tail_laws::starts_key(#[trigger] lines[i]) && (forall|
                    j: int,
                |
                    i < j < lines.len() ==> !tail_laws::key_marker(#[trigger] lines[j]));
            assert(tail_laws::key_marker(lines[i]));
            assert(front[i] == lines[i]);
            assert forall|j: int| i < j < front.len() implies !tail_laws::key_marker(
                #[trigger] front[j],
            ) by {
                assert(front[j] == lines[j]);
            }
            assert(tail_laws::key_started(front));
        }
    }
}

/// Behind all lines read, an encounter or a keystone run counts as open exactly where the
/// last marker of its kind is a start.
pub proof fn open_is_what_was_started_last(cancelled: bool, start: u64, answers: Seq<Answer>)
    requires
        tail_laws::in_turn(tail_laws::started(cancelled, start), answers),
        none_in_hand(tail_laws::state_after(tail_laws::started(cancelled, start), answers)),
    ensures
        ({
            let s = tail_laws::started(cancelled, start);
            let state = tail_laws::state_after(s, answers);
            let lines = tail_laws::all_accepted(s, answers);
            &&& state.encounter_open <==> tail_laws::encounter_started(lines)
            &&& state.key_open <==> tail_laws::key_started(lines)
        }),
{
    let s = tail_laws::started(cancelled, start);
    let state = tail_laws::state_after(s, answers);
    let lines = tail_laws::all_accepted(s, answers);
    tail_laws::start_is_consistent(cancelled, start);
    tail_laws::no_line_is_lost_or_repeated(s, answers);
    assert(s.lines + lines =~= lines);
    assert(tail_laws::all_sent(s, answers) + state.lines =~= tail_laws::all_sent(s, answers));
    tail_laws::lemma_marks_of_run(s, answers);
    lemma_encounter(tail::carried(s), lines);
    lemma_key(tail::carried(s), lines);
}

// ---- what is owed -----------------------------------------------------------------------

/// A line read at some answer ends a keystone run, and no segment was uploaded behind it.
pub open spec fn key_end_unsent(s: TailView, answers: Seq<Answer>) -> bool {
    exists|k: int| #[trigger] key_end_unsent_since(s, answers, k)
}

/// A line read at answer `k` ends a keystone run, and no segment was uploaded behind it.
pub open spec fn key_end_unsent_since(s: TailView, answers: Seq<Answer>, k: int) -> bool {
    &&& 0 <= k < answers.len()
    &&& tail_laws::has_key_end(
        tail_laws::accepted(tail_laws::state_after(s, answers.take(k)), answers[k].event),
    )
    &&& forall|j: int|
        k < j < answers.len() ==> (#[trigger] answers[j]).event != EventView::Uploaded(Some(true))
}

proof fn lemma_owed_step(s: TailView, answer: Answer)
    requires
        tail::consistent(s),
        tail::awaits(s.phase, answer.event),
        tail_laws::key_is_owed(
            tail::next(s, answer.event, answer.cancelled, answer.now).state,
        ),
    ensures
        tail_laws::has_key_end(tail_laws::accepted(s, answer.event)) || (tail_laws::key_is_owed(s)
            && answer.event != EventView::Uploaded(Some(true))),
{
    let step = tail::next(s, answer.event, answer.cancelled, answer.now);
    let got = tail_laws::accepted(s, answer.event);
    let gone = tail_laws::sent(step.action);
    tail_laws::lines_are_sent_or_kept(s, answer.event, answer.cancelled, answer.now);
    tail_laws::lemma_key_end_in_concat(s.lines, got);
    tail_laws::lemma_key_end_in_concat(gone, step.state.lines);
    tail_laws::key_end_is_seen(tail::carried(s), gone);
    lemma_pending_step(s, answer);
}

/// A commit becomes pending only by a key end among the lines that are uploaded.
proof fn lemma_pending_step(s: TailView, answer: Answer)
    requires
        tail::consistent(s),
        tail::awaits(s.phase, answer.event),
    ensures
        ({
            let step = tail::next(s, answer.event, answer.cancelled, answer.now);
            let marks = tail::mark_lines(tail::carried(s), tail_laws::sent(step.action));
            &&& step.state.pending_key ==> s.pending_key || marks.key_ended
            &&& answer.event == EventView::Uploaded(Some(true)) ==> !step.state.pending_key
                && step.state.lines.len() == 0
        }),
{
    let step = tail::next(s, answer.event, answer.cancelled, answer.now);
    let lines = tail_laws::sent(step.action);
    if step.state.phase == Phase::UploadingLines {
        let gathered = TailView { lines, ..s };
        assert(tail::carried(gathered) == tail::carried(s));
        if s.phase == Phase::Gathering {
            assert(lines =~= s.lines + tail_laws::accepted(s, answer.event));
        }
    }
}

proof fn lemma_owed_is_unsent(s: TailView, answers: Seq<Answer>)
    requires
        tail::consistent(s),
        tail_laws::in_turn(s, answers),
        !tail_laws::key_is_owed(s),
        tail_laws::key_is_owed(tail_laws::state_after(s, answers)),
    ensures
        key_end_unsent(s, answers),
    decreases answers.len(),
{
    if answers.len() > 0 {
        let earlier = answers.drop_last();
        let last = answers.last();
        let t = tail_laws::state_after(s, earlier);
        let n = answers.len() - 1;
        tail_laws::no_line_is_lost_or_repeated(s, earlier);
        lemma_owed_step(t, last);
        if tail_laws::has_key_end(tail_laws::accepted(t, last.event)) {
            assert(answers.take(n) =~= earlier);
            assert(key_end_unsent_since(s, answers, n));
        } else {
            lemma_owed_is_unsent(s, earlier);
            let k = choose|k: int| #[trigger] key_end_unsent_since(s, earlier, k);
            assert(earlier.take(k) =~= answers.take(k));
            assert(earlier[k] == answers[k]);
            assert forall|j: int| k < j < answers.len() implies (#[trigger] answers[j]).event
                != EventView::Uploaded(Some(true)) by {
                if j < n {
                    assert(earlier[j] == answers[j]);
                }
            }
            assert(key_end_unsent_since(s, answers, k));
        }
    }
}

/// The commit of a keystone run is owed exactly where a line read anywhere ends one and no
/// segment was uploaded behind it.
pub proof fn owed_is_what_ended_unsent(cancelled: bool, start: u64, answers: Seq<Answer>)
    requires
        tail_laws::in_turn(tail_laws::started(cancelled, start), answers),
        none_in_hand(tail_laws::state_after(tail_laws::started(cancelled, start), answers)),
    ensures
        ({
            let s = tail_laws::started(cancelled, start);
            tail_laws::state_after(s, answers).pending_key <==> key_end_unsent(s, answers)
        }),
{
    let s = tail_laws::started(cancelled, start);
    let state = tail_laws::state_after(s, answers);
    tail_laws::start_is_consistent(cancelled, start);
    if state.pending_key {
        lemma_owed_is_unsent(s, answers);
    }
    if key_end_unsent(s, answers) {
        let k = choose|k: int| #[trigger] key_end_unsent_since(s, answers, k);
        tail_laws::a_key_end_is_never_dropped(s, answers, k);
    }
}

// ---- silence ------------------------------------------------------------------------------

/// Since when the log is silent: since lines were last uploaded, or since the silence was
/// last passed over because something was open.
pub open spec fn silent_since(s: TailView, start: u64, answers: Seq<Answer>) -> u64
    decreases answers.len(),
{
    if answers.len() == 0 {
        start
    } else {
        let step = tail_laws::last_step(s, answers);
        if tail_laws::sent(step.action).len() > 0 || (step.notes.len() == 1 && step.notes[0]
            is IdleFlushSkipped) {
            answers.last().now
        } else {
            silent_since(s, start, answers.drop_last())
        }
    }
}

/// Lines were uploaded since the last flush of a silent log.
pub open spec fn has_unflushed(s: TailView, answers: Seq<Answer>) -> bool
    decreases answers.len(),
{
    if answers.len() == 0 {
        false
    } else {
        let step = tail_laws::last_step(s, answers);
        if tail_laws::sent(step.action).len() > 0 {
            true
        } else if step.state.phase == Phase::FlushingIdle {
            false
        } else {
            has_unflushed(s, answers.drop_last())
        }
    }
}

/// A poll reads on only where it has lines.
pub proof fn polls_that_read_on_hold_lines(cancelled: bool, start: u64, answers: Seq<Answer>)
    requires
        tail_laws::in_turn(tail_laws::started(cancelled, start), answers),
    ensures
        ({
            let state = tail_laws::state_after(tail_laws::started(cancelled, start), answers);
            state.phase == Phase::Gathering ==> state.lines.len() > 0
        }),
    decreases answers.len(),
{
    if answers.len() > 0 {
        polls_that_read_on_hold_lines(cancelled, start, answers.drop_last());
    }
}

proof fn lemma_silence_step(s: TailView, answer: Answer)
    requires
        tail::consistent(s),
        s.phase == Phase::Gathering ==> s.lines.len() > 0,
        tail::awaits(s.phase, answer.event),
    ensures
        ({
            let step = tail::next(s, answer.event, answer.cancelled, answer.now);
            let fed = tail_laws::sent(step.action).len() > 0;
            let skipped = step.notes.len() == 1 && step.notes[0] is IdleFlushSkipped;
            &&& step.state.last_data == (if fed || skipped {
                answer.now
            } else {
                s.last_data
            })
            &&& step.state.dirty == (fed || (s.dirty && step.state.phase != Phase::FlushingIdle))
        }),
{
}

/// The clock of the silence, and what is there to flush, over a whole run.
pub proof fn silence_starts_behind_the_last_lines(
    cancelled: bool,
    start: u64,
    answers: Seq<Answer>,
)
    requires
        tail_laws::in_turn(tail_laws::started(cancelled, start), answers),
    ensures
        ({
            let s = tail_laws::started(cancelled, start);
            let state = tail_laws::state_after(s, answers);
            &&& state.last_data == silent_since(s, start, answers)
            &&& state.dirty == has_unflushed(s, answers)
        }),
    decreases answers.len(),
{
    let s = tail_laws::started(cancelled, start);
    tail_laws::start_is_consistent(cancelled, start);
    if answers.len() > 0 {
        let earlier = answers.drop_last();
        silence_starts_behind_the_last_lines(cancelled, start, earlier);
        tail_laws::no_line_is_lost_or_repeated(s, earlier);
        polls_that_read_on_hold_lines(cancelled, start, earlier);
        lemma_silence_step(tail_laws::state_after(s, earlier), answers.last());
    }
}

/// The clock does not go back from one answer to the next.
pub open spec fn clock_runs_on(start: u64, answers: Seq<Answer>) -> bool {
    &&& forall|i: int| 0 <= i < answers.len() ==> start <= (#[trigger] answers[i]).now
    &&& forall|i: int, j: int|
        0 <= i <= j < answers.len() ==> (#[trigger] answers[i]).now <= (#[trigger] answers[j]).now
}

proof fn lemma_lines_before_silence(
    cancelled: bool,
    start: u64,
    answers: Seq<Answer>,
    k: int,
)
    requires
        tail_laws::in_turn(tail_laws::started(cancelled, start), answers),
        clock_runs_on(start, answers),
        0 <= k < answers.len(),
        tail_laws::accepted(
            tail_laws::state_after(tail_laws::started(cancelled, start), answers.take(k)),
            answers[k].event,
        ).len() > 0,
    ensures
        ({
            let s = tail_laws::started(cancelled, start);
            let state = tail_laws::state_after(s, answers);
            state.lines.len() > 0 || answers[k].now <= state.last_data
        }),
    decreases answers.len(),
{
    let s = tail_laws::started(cancelled, start);
    let earlier = answers.drop_last();
    let last = answers.last();
    let n = answers.len() - 1;
    let t = tail_laws::state_after(s, earlier);
    tail_laws::start_is_consistent(cancelled, start);
    tail_laws::no_line_is_lost_or_repeated(s, earlier);
    tail_laws::lines_are_sent_or_kept(t, last.event, last.cancelled, last.now);
    polls_that_read_on_hold_lines(cancelled, start, earlier);
    lemma_silence_step(t, last);
    let step = tail_laws::last_step(s, answers);
    let got = tail_laws::accepted(t, last.event);
    assert((t.lines + got).len() == (tail_laws::sent(step.action) + step.state.lines).len());
    assert(answers[n] == last);
    assert(answers[k].now <= answers[n].now);
    if k == n {
        assert(answers.take(k) =~= earlier);
    } else {
        assert(earlier.take(k) =~= answers.take(k));
        assert(earlier[k] == answers[k]);
        assert forall|i: int| 0 <= i < earlier.len() implies start <= (#[trigger] earlier[i]).now by {
            assert(earlier[i] == answers[i]);
        }
        assert forall|i: int, j: int| 0 <= i <= j < earlier.len() implies (#[trigger] earlier[i]).now
            <= (#[trigger] earlier[j]).now by {
            assert(earlier[i] == answers[i] && earlier[j] == answers[j]);
        }
        lemma_lines_before_silence(cancelled, start, earlier, k);
    }
}

/// The open fight is flushed only once no line has come for more than two minutes: every
/// answer of the run that brought lines lies further back than that.
pub proof fn only_silent_logs_are_flushed(
    cancelled: bool,
    start: u64,
    answers: Seq<Answer>,
    k: int,
)
    requires
        answers.len() > 0,
        tail_laws::in_turn(tail_laws::started(cancelled, start), answers),
        clock_runs_on(start, answers),
        tail_laws::last_step(tail_laws::started(cancelled, start), answers).state.phase
            == Phase::FlushingIdle,
        0 <= k < answers.len(),
        tail_laws::accepted(
            tail_laws::state_after(tail_laws::started(cancelled, start), answers.take(k)),
            answers[k].event,
        ).len() > 0,
    ensures
        answers.last().now - answers[k].now > 120_000_000_000,
{
    let s = tail_laws::started(cancelled, start);
    let earlier = answers.drop_last();
    let last = answers.last();
    let n = answers.len() - 1;
    let t = tail_laws::state_after(s, earlier);
    tail_laws::start_is_consistent(cancelled, start);
    tail_laws::no_line_is_lost_or_repeated(s, earlier);
    tail_laws::idle_flush_waits(t, last.event, last.cancelled, last.now);
    assert(tail_laws::accepted(t, last.event).len() == 0 && t.lines.len() == 0) by {
        lemma_flush_is_quiet(t, last);
    }
    if k == n {
        assert(answers.take(k) =~= earlier);
    } else {
        assert(earlier.take(k) =~= answers.take(k));
        assert(earlier[k] == answers[k]);
        assert forall|i: int| 0 <= i < earlier.len() implies start <= (#[trigger] earlier[i]).now by {
            assert(earlier[i] == answers[i]);
        }
        assert forall|i: int, j: int| 0 <= i <= j < earlier.len() implies (#[trigger] earlier[i]).now
            <= (#[trigger] earlier[j]).now by {
            assert(earlier[i] == answers[i] && earlier[j] == answers[j]);
        }
        lemma_lines_before_silence(cancelled, start, earlier, k);
    }
}

proof fn lemma_flush_is_quiet(s: TailView, answer: Answer)
    requires
        tail::consistent(s),
        tail::next(s, answer.event, answer.cancelled, answer.now).state.phase
            == Phase::FlushingIdle,
    ensures
        tail_laws::accepted(s, answer.event).len() == 0,
        s.lines.len() == 0,
        s.phase == Phase::Reading,
{
}

/// A poll that finds no lines, told from the whole run. A keystone run that is owed its
/// commit gets it while nothing is open. A log that has been silent for more than two
/// minutes is flushed where there is something to flush; while something is open, the
/// silence is passed over instead. Otherwise the loop rests.
pub proof fn quiet_polls_do_what_is_due(
    cancelled: bool,
    start: u64,
    answers: Seq<Answer>,
    chunk: ChunkView,
)
    requires
        answers.len() > 0,
        tail_laws::in_turn(tail_laws::started(cancelled, start), answers),
        tail_laws::state_after(
            tail_laws::started(cancelled, start),
            answers.drop_last(),
        ).phase == Phase::Reading,
        answers.last().event == EventView::Read(Some(chunk)),
        chunk.lines.len() == 0,
        chunk.file_size >= tail_laws::state_after(
            tail_laws::started(cancelled, start),
            answers.drop_last(),
        ).offset,
    ensures
        ({
            let s = tail_laws::started(cancelled, start);
            let earlier = answers.drop_last();
            let step = tail_laws::last_step(s, answers);
            let lines = tail_laws::all_accepted(s, earlier);
            let encounter_open = tail_laws::encounter_started(lines);
            let key_open = tail_laws::key_started(lines);
            let offset = tail_laws::state_after(s, earlier).offset;
            let silence = answers.last().now - silent_since(s, start, earlier);
            if key_end_unsent(s, earlier) && !encounter_open && !key_open {
                &&& step.notes == Seq::<TailNote>::empty()
                &&& step.action == (ActionView::Upload {
                    lines: Seq::empty(),
                    push_fight: true,
                    drop_slivers: false,
                })
                &&& step.state.phase == Phase::RetryingKey
            } else if has_unflushed(s, earlier) && silence > 120_000_000_000 {
                if encounter_open || key_open {
                    &&& step.notes == seq![
                        TailNote::IdleFlushSkipped { offset, encounter_open, key_open },
                    ]
                    &&& step.action == ActionView::Rest
                    &&& step.state.phase == Phase::Resting
                } else {
                    &&& step.notes == seq![TailNote::IdleFlush { offset }]
                    &&& step.state.phase == Phase::FlushingIdle
                    &&& step.action == (ActionView::Upload {
                        lines: Seq::empty(),
                        push_fight: true,
                        drop_slivers: true,
                    })
                }
            } else {
                &&& step.notes == Seq::<TailNote>::empty()
                &&& step.action == ActionView::Rest
                &&& step.state.phase == Phase::Resting
            }
        }),
{
    let s = tail_laws::started(cancelled, start);
    let earlier = answers.drop_last();
    tail_laws::start_is_consistent(cancelled, start);
    tail_laws::no_line_is_lost_or_repeated(s, earlier);
    open_is_what_was_started_last(cancelled, start, earlier);
    owed_is_what_ended_unsent(cancelled, start, earlier);
    silence_starts_behind_the_last_lines(cancelled, start, earlier);
}

// ---- uploads ------------------------------------------------------------------------------

/// The uploads of lines, told from the whole run: those of a poll force the commit of a
/// keystone run that is owed one while nothing is open, and no other upload of lines forces
/// a commit. None drops slivers.
pub proof fn uploads_of_lines_force_what_is_owed(
    cancelled: bool,
    start: u64,
    answers: Seq<Answer>,
)
    requires
        answers.len() > 0,
        tail_laws::in_turn(tail_laws::started(cancelled, start), answers),
    ensures
        ({
            let s = tail_laws::started(cancelled, start);
            let step = tail_laws::last_step(s, answers);
            let lines = tail_laws::all_accepted(s, answers);
            step.action matches ActionView::Upload { lines: gone, push_fight, drop_slivers } ==> {
                &&& gone.len() > 0 ==> !drop_slivers
                &&& gone.len() > 0 ==> push_fight == (step.state.phase == Phase::UploadingLines
                    && key_end_unsent(s, answers) && !tail_laws::encounter_started(lines)
                    && !tail_laws::key_started(lines))
                &&& gone.len() == 0 ==> push_fight
                &&& gone.len() == 0 ==> drop_slivers == (step.state.phase == Phase::FlushingIdle
                    || (step.state.phase == Phase::FinalFlushing && !key_end_unsent(s, answers)))
            }
        }),
{
    let s = tail_laws::started(cancelled, start);
    let earlier = answers.drop_last();
    let step = tail_laws::last_step(s, answers);
    let t = tail_laws::state_after(s, earlier);
    tail_laws::start_is_consistent(cancelled, start);
    tail_laws::no_line_is_lost_or_repeated(s, earlier);
    tail_laws::no_line_is_lost_or_repeated(s, answers);
    assert(tail_laws::state_after(s, answers) == step.state);
    if step.action is Upload {
        polls_that_read_on_hold_lines(cancelled, start, earlier);
        lemma_upload_shape(t, answers.last());
        open_is_what_was_started_last(cancelled, start, answers);
        owed_is_what_ended_unsent(cancelled, start, answers);
    }
}

proof fn lemma_upload_shape(s: TailView, answer: Answer)
    requires
        tail::consistent(s),
        s.phase == Phase::Gathering ==> s.lines.len() > 0,
        tail::awaits(s.phase, answer.event),
        tail::next(s, answer.event, answer.cancelled, answer.now).action is Upload,
    ensures
        ({
            let step = tail::next(s, answer.event, answer.cancelled, answer.now);
            &&& step.state.lines.len() == 0
            &&& step.action matches ActionView::Upload { lines, push_fight, drop_slivers } && {
                &&& lines.len() > 0 ==> !drop_slivers
                &&& lines.len() > 0 ==> push_fight == (step.state.phase == Phase::UploadingLines
                    && step.state.pending_key && !step.state.encounter_open
                    && !step.state.key_open)
                &&& lines.len() == 0 ==> push_fight
                &&& lines.len() == 0 ==> drop_slivers == (step.state.phase == Phase::FlushingIdle
                    || (step.state.phase == Phase::FinalFlushing && !step.state.pending_key))
            }
        }),
{
}

// ---- files and offsets ----------------------------------------------------------------------

/// The last log that was found.
pub open spec fn last_found(answers: Seq<Answer>) -> Option<Seq<char>>
    decreases answers.len(),
{
    if answers.len() == 0 {
        None
    } else {
        match answers.last().event {
            EventView::Found(Some(name)) => Some(name),
            _ => last_found(answers.drop_last()),
        }
    }
}

/// The file that is tailed: the one whose date the parser took last, until the loop turns
/// to another.
pub open spec fn tailed(s: TailView, answers: Seq<Answer>) -> Option<Seq<char>>
    decreases answers.len(),
{
    if answers.len() == 0 {
        None
    } else if tail_laws::last_step(s, answers).action is SetStartDate {
        None
    } else if answers.last().event == EventView::DateSet(true) {
        last_found(answers)
    } else {
        tailed(s, answers.drop_last())
    }
}

/// How much of the file has been read: up to where its last chunk with lines ended, and
/// nothing of a file that the loop turns to or that has been cut short.
pub open spec fn read_up_to(s: TailView, answers: Seq<Answer>) -> u64
    decreases answers.len(),
{
    if answers.len() == 0 {
        0
    } else {
        let earlier = answers.drop_last();
        let step = tail_laws::last_step(s, answers);
        let before = read_up_to(s, earlier);
        if step.action is SetStartDate {
            0
        } else {
            match answers.last().event {
                EventView::Read(Some(chunk)) => if chunk.file_size < before
                    && tail_laws::state_after(s, earlier).phase == Phase::Reading {
                    0
                } else if chunk.lines.len() > 0 {
                    chunk.new_offset
                } else {
                    before
                },
                _ => before,
            }
        }
    }
}

/// The loop knows its file, the file to turn to, and how far it is, over a whole run.
pub proof fn files_are_followed(cancelled: bool, start: u64, answers: Seq<Answer>)
    requires
        tail_laws::in_turn(tail_laws::started(cancelled, start), answers),
    ensures
        ({
            let s = tail_laws::started(cancelled, start);
            let state = tail_laws::state_after(s, answers);
            &&& state.current == tailed(s, answers)
            &&& state.offset == read_up_to(s, answers)
            &&& state.phase == Phase::ReadingOld || state.phase == Phase::UploadingOld
                || state.phase == Phase::Switching ==> state.next == last_found(answers)
        }),
    decreases answers.len(),
{
    let s = tail_laws::started(cancelled, start);
    tail_laws::start_is_consistent(cancelled, start);
    if answers.len() > 0 {
        let earlier = answers.drop_last();
        files_are_followed(cancelled, start, earlier);
        tail_laws::no_line_is_lost_or_repeated(s, earlier);
        lemma_file_step(tail_laws::state_after(s, earlier), answers.last());
    }
}

proof fn lemma_file_step(s: TailView, answer: Answer)
    requires
        tail::consistent(s),
        tail::awaits(s.phase, answer.event),
    ensures
        ({
            let step = tail::next(s, answer.event, answer.cancelled, answer.now);
            &&& step.action is SetStartDate ==> step.state.current is None && step.state.offset == 0
                && step.state.phase == Phase::Switching
            &&& answer.event == EventView::DateSet(true) ==> step.state.current == s.next
                && step.state.offset == s.offset && s.phase == Phase::Switching
            &&& !(step.action is SetStartDate) && answer.event != EventView::DateSet(true)
                ==> step.state.current == s.current
            &&& !(step.action is SetStartDate) ==> step.state.offset == (match answer.event {
                EventView::Read(Some(chunk)) => if chunk.file_size < s.offset && s.phase
                    == Phase::Reading {
                    0
                } else if chunk.lines.len() > 0 {
                    chunk.new_offset
                } else {
                    s.offset
                },
                _ => s.offset,
            })
            &&& step.state.phase == Phase::ReadingOld || step.state.phase == Phase::UploadingOld
                || step.state.phase == Phase::Switching ==> match answer.event {
                EventView::Found(Some(name)) => step.state.next == Some(name),
                EventView::Found(None) => false,
                _ => step.state.next == s.next && (s.phase == Phase::ReadingOld || s.phase
                    == Phase::UploadingOld || s.phase == Phase::Switching),
            }
        }),
{
}

/// A read goes to the file that is tailed, from where its last lines ended; the parser
/// gets the name of the log that was found last.
pub proof fn reads_go_on_where_they_ended(cancelled: bool, start: u64, answers: Seq<Answer>)
    requires
        answers.len() > 0,
        tail_laws::in_turn(tail_laws::started(cancelled, start), answers),
    ensures
        ({
            let s = tail_laws::started(cancelled, start);
            let step = tail_laws::last_step(s, answers);
            &&& step.action matches ActionView::Read { name, offset } ==> {
                &&& tailed(s, answers) == Some(name)
                &&& offset == read_up_to(s, answers)
            }
            &&& step.action matches ActionView::SetStartDate { name } ==> last_found(answers)
                == Some(name)
        }),
{
    let s = tail_laws::started(cancelled, start);
    let earlier = answers.drop_last();
    tail_laws::start_is_consistent(cancelled, start);
    tail_laws::no_line_is_lost_or_repeated(s, earlier);
    files_are_followed(cancelled, start, answers);
    files_are_followed(cancelled, start, earlier);
    lemma_read_shape(tail_laws::state_after(s, earlier), answers.last());
}

proof fn lemma_read_shape(s: TailView, answer: Answer)
    requires
        tail::consistent(s),
        tail::awaits(s.phase, answer.event),
    ensures
        ({
            let step = tail::next(s, answer.event, answer.cancelled, answer.now);
            &&& step.action matches ActionView::Read { name, offset } ==> step.state.current
                == Some(name) && offset == step.state.offset
            &&& step.action matches ActionView::SetStartDate { name } ==> step.state.next
                == Some(name) && step.state.phase == Phase::Switching
        }),
{
}

// ---- the course of the loop -------------------------------------------------------------------

/// What follows the head of the loop: the search for a log, or the stop.
pub open spec fn heads(step: StepView, notes: Seq<TailNote>, cancelled: bool) -> bool {
    if cancelled {
        &&& step.action == ActionView::WaitForWrites
        &&& step.notes == notes.push(TailNote::Stopping { offset: step.state.offset })
        &&& step.state.phase == Phase::Grace
    } else {
        &&& step.action == ActionView::FindLog
        &&& step.notes == notes
        &&& step.state.phase == Phase::Finding
    }
}

/// The search for a log: without one the loop rests, and tells so once; the file at hand
/// is read on; a new one is turned to, once the old one has been read to its end.
pub proof fn found_logs_are_turned_to(s: TailView, name: Seq<char>, cancelled: bool, now: u64)
    requires
        s.phase == Phase::Finding,
    ensures
        ({
            let none = tail::next(s, EventView::Found(None), cancelled, now);
            let some = tail::next(s, EventView::Found(Some(name)), cancelled, now);
            &&& none.action == ActionView::Rest
            &&& none.state.phase == Phase::Resting
            &&& none.notes == (if s.current is None && !s.waiting_logged {
                seq![TailNote::WaitingForLog]
            } else {
                Seq::<TailNote>::empty()
            })
            &&& none.state.waiting_logged == (s.waiting_logged || s.current is None)
            &&& some.notes == Seq::<TailNote>::empty()
            &&& s.current == Some(name) ==> some.action == (ActionView::Read {
                name,
                offset: s.offset,
            }) && some.state.phase == Phase::Reading
            &&& s.current is None ==> some.action == (ActionView::SetStartDate { name })
            &&& some.action is SetStartDate ==> some.state.phase == Phase::Switching
            &&& s.current matches Some(old) ==> old != name ==> {
                &&& cancelled ==> some.action == (ActionView::SetStartDate { name })
                &&& !cancelled ==> some.action == (ActionView::Read { name: old, offset: s.offset })
                    && some.state.phase == Phase::ReadingOld
            }
        }),
{
}

/// The rest of the old file is uploaded chunk by chunk until there is none, a read fails,
/// or the session is stopped; then comes the new file. A failed upload ends the session
/// unless it is being stopped.
pub proof fn old_logs_are_read_to_their_end(
    s: TailView,
    chunk: ChunkView,
    uploaded: bool,
    cancelled: bool,
    now: u64,
)
    requires
        tail::consistent(s),
    ensures
        s.phase == Phase::ReadingOld ==> {
            let got = tail::next(s, EventView::Read(Some(chunk)), cancelled, now);
            let failed = tail::next(s, EventView::Read(None), cancelled, now);
            let turned = ActionView::SetStartDate { name: s.next->0 };
            &&& got.notes == Seq::<TailNote>::empty()
            &&& failed.notes == Seq::<TailNote>::empty()
            &&& got.action == (if chunk.lines.len() > 0 {
                ActionView::Upload { lines: chunk.lines, push_fight: false, drop_slivers: false }
            } else {
                turned
            })
            &&& got.state.phase == (if chunk.lines.len() > 0 {
                Phase::UploadingOld
            } else {
                Phase::Switching
            })
            &&& failed.action == turned
            &&& failed.state.phase == Phase::Switching
        },
        s.phase == Phase::UploadingOld ==> {
            let done = tail::next(s, EventView::Uploaded(Some(uploaded)), cancelled, now);
            let failed = tail::next(s, EventView::Uploaded(None), cancelled, now);
            let turned = ActionView::SetStartDate { name: s.next->0 };
            &&& done.notes == Seq::<TailNote>::empty()
            &&& failed.notes == Seq::<TailNote>::empty()
            &&& done.action == (if cancelled {
                turned
            } else {
                ActionView::Read { name: s.current->0, offset: s.offset }
            })
            &&& done.state.phase == (if cancelled {
                Phase::Switching
            } else {
                Phase::ReadingOld
            })
            &&& failed.action == (if cancelled {
                turned
            } else {
                ActionView::Fail
            })
            &&& failed.state.phase == (if cancelled {
                Phase::Switching
            } else {
                Phase::Over
            })
        },
{
}

/// A new file is told, and read from its start.
pub proof fn new_logs_are_read_from_their_start(s: TailView, cancelled: bool, now: u64)
    requires
        tail::consistent(s),
        s.phase == Phase::Switching,
    ensures
        ({
            let taken = tail::next(s, EventView::DateSet(true), cancelled, now);
            &&& taken.notes == seq![TailNote::Tailing]
            &&& taken.action == (ActionView::Read { name: s.next->0, offset: s.offset })
            &&& taken.state.current == s.next
            &&& !taken.state.waiting_logged
            &&& taken.state.phase == Phase::Reading
            &&& tail::next(s, EventView::DateSet(false), cancelled, now).action == ActionView::Fail
        }),
{
}

/// A poll that reads: an error is told and rested on; a file that has been cut short is
/// told and read anew; lines are gathered, and uploaded in one once the file holds no more
/// of them or there are a hundred thousand.
pub proof fn polls_gather_lines(
    s: TailView,
    chunk: ChunkView,
    cancelled: bool,
    now: u64,
)
    requires
        tail::consistent(s),
    ensures
        s.phase == Phase::Reading ==> {
            let failed = tail::next(s, EventView::Read(None), cancelled, now);
            let got = tail::next(s, EventView::Read(Some(chunk)), cancelled, now);
            &&& failed.notes == seq![TailNote::ReadError { offset: s.offset }]
            &&& failed.action == ActionView::Rest
            &&& failed.state.phase == Phase::Resting
            &&& chunk.file_size < s.offset ==> {
                &&& got.state.offset == 0
                &&& heads(
                    got,
                    seq![TailNote::Truncated { offset: s.offset, file_size: chunk.file_size }],
                    cancelled,
                )
            }
            &&& chunk.file_size >= s.offset && 0 < chunk.lines.len() < 100_000 ==> {
                &&& got.notes == Seq::<TailNote>::empty()
                &&& got.action == (ActionView::Read {
                    name: s.current->0,
                    offset: chunk.new_offset,
                })
                &&& got.state.lines == chunk.lines
                &&& got.state.phase == Phase::Gathering
            }
            &&& chunk.file_size >= s.offset && chunk.lines.len() >= 100_000 ==> {
                &&& got.notes == Seq::<TailNote>::empty()
                &&& tail_laws::sent(got.action) == chunk.lines
                &&& got.state.phase == Phase::UploadingLines
            }
        },
        s.phase == Phase::Gathering ==> {
            let failed = tail::next(s, EventView::Read(None), cancelled, now);
            let got = tail::next(s, EventView::Read(Some(chunk)), cancelled, now);
            let all = s.lines + chunk.lines;
            &&& failed.notes == Seq::<TailNote>::empty()
            &&& tail_laws::sent(failed.action) == s.lines
            &&& failed.state.phase == Phase::UploadingLines
            &&& got.notes == Seq::<TailNote>::empty()
            &&& chunk.lines.len() > 0 && all.len() < 100_000 ==> {
                &&& got.action == (ActionView::Read {
                    name: s.current->0,
                    offset: chunk.new_offset,
                })
                &&& got.state.lines == all
                &&& got.state.phase == Phase::Gathering
            }
            &&& chunk.lines.len() == 0 || all.len() >= 100_000 ==> {
                &&& tail_laws::sent(got.action) == all
                &&& got.state.phase == Phase::UploadingLines
            }
        },
{
    assert(s.lines + Seq::<Seq<char>>::empty() =~= s.lines);
    if chunk.lines.len() == 0 {
        assert(s.lines + chunk.lines =~= s.lines);
    }
}

/// Behind an upload of lines, the next poll follows at once; behind a commit without lines,
/// a pause. A failed upload ends the session unless it is being stopped.
pub proof fn uploads_lead_on(s: TailView, uploaded: bool, cancelled: bool, now: u64)
    requires
        tail::consistent(s),
    ensures
        ({
            let done = tail::next(s, EventView::Uploaded(Some(uploaded)), cancelled, now);
            let failed = tail::next(s, EventView::Uploaded(None), cancelled, now);
            &&& s.phase == Phase::UploadingLines ==> heads(
                done,
                Seq::<TailNote>::empty(),
                cancelled,
            )
            &&& s.phase == Phase::RetryingKey || s.phase == Phase::FlushingIdle ==> {
                &&& done.action == ActionView::Rest
                &&& done.notes == Seq::<TailNote>::empty()
                &&& done.state.phase == Phase::Resting
            }
            &&& s.phase == Phase::UploadingLines || s.phase == Phase::RetryingKey || s.phase
                == Phase::FlushingIdle ==> {
                &&& cancelled ==> heads(failed, Seq::<TailNote>::empty(), true)
                &&& !cancelled ==> failed.action == ActionView::Fail && failed.notes.len() == 0
                    && failed.state.phase == Phase::Over
            }
            &&& s.phase == Phase::Resting ==> heads(
                tail::next(s, EventView::Rested, cancelled, now),
                Seq::<TailNote>::empty(),
                cancelled,
            )
        }),
{
}

/// A stop: behind the wait, what the file holds is uploaded chunk by chunk; then, or where
/// a read or an upload fails, comes the last commit, and behind it the end.
pub proof fn stops_drain_and_commit(
    s: TailView,
    chunk: ChunkView,
    uploaded: bool,
    cancelled: bool,
    now: u64,
)
    requires
        tail::consistent(s),
    ensures
        ({
            let waited = tail::next(s, EventView::Rested, cancelled, now);
            let got = tail::next(s, EventView::Read(Some(chunk)), cancelled, now);
            let unread = tail::next(s, EventView::Read(None), cancelled, now);
            let done = tail::next(s, EventView::Uploaded(Some(uploaded)), cancelled, now);
            let failed = tail::next(s, EventView::Uploaded(None), cancelled, now);
            let read = ActionView::Read { name: s.current->0, offset: s.offset };
            let flush = ActionView::Upload {
                lines: Seq::<Seq<char>>::empty(),
                push_fight: true,
                drop_slivers: !s.pending_key,
            };
            let note = TailNote::FinalFlush { offset: s.offset };
            &&& s.phase == Phase::Grace && s.current is Some ==> waited.action == read
                && waited.notes == Seq::<TailNote>::empty() && waited.state.phase
                == Phase::FinalReading
            &&& s.phase == Phase::Grace && s.current is None ==> waited.action == flush
                && waited.notes == seq![note] && waited.state.phase == Phase::FinalFlushing
            &&& s.phase == Phase::FinalReading ==> {
                &&& chunk.lines.len() > 0 ==> got.action == (ActionView::Upload {
                    lines: chunk.lines,
                    push_fight: false,
                    drop_slivers: false,
                }) && got.notes == Seq::<TailNote>::empty() && got.state.phase
                    == Phase::FinalUploading
                &&& chunk.lines.len() == 0 ==> got.action == flush && got.notes == seq![note]
                    && got.state.phase == Phase::FinalFlushing
                &&& unread.action == flush
                &&& unread.notes == seq![note]
                &&& unread.state.phase == Phase::FinalFlushing
            }
            &&& s.phase == Phase::FinalUploading ==> {
                &&& done.action == read
                &&& done.notes == Seq::<TailNote>::empty()
                &&& done.state.phase == Phase::FinalReading
                &&& failed.action == flush
                &&& failed.notes == seq![TailNote::FinalDrainFailed, note]
                &&& failed.state.phase == Phase::FinalFlushing
            }
            &&& s.phase == Phase::FinalFlushing ==> {
                &&& done.state.phase == Phase::Over
                &&& failed.state.phase == Phase::Over
                &&& done.action == ActionView::Done
                &&& done.notes == Seq::<TailNote>::empty()
                &&& failed.action == ActionView::Done
                &&& failed.notes == seq![TailNote::FinalFlushFailed]
            }
        }),
{
    let note = TailNote::FinalFlush { offset: s.offset };
    assert(Seq::<TailNote>::empty().push(note) =~= seq![note]);
    assert(seq![TailNote::FinalDrainFailed].push(note) =~= seq![TailNote::FinalDrainFailed, note]);
}

/// The user has been told that there is no log, and none has been tailed since.
pub open spec fn told_to_wait(s: TailView, answers: Seq<Answer>) -> bool
    decreases answers.len(),
{
    if answers.len() == 0 {
        false
    } else if tail_laws::last_step(s, answers).notes == seq![TailNote::WaitingForLog] {
        true
    } else if answers.last().event == EventView::DateSet(true) {
        false
    } else {
        told_to_wait(s, answers.drop_last())
    }
}

/// While no log is tailed and none is found, the user is told so, once.
pub proof fn waiting_is_told_once(cancelled: bool, start: u64, answers: Seq<Answer>)
    requires
        tail_laws::in_turn(tail_laws::started(cancelled, start), answers),
    ensures
        ({
            let s = tail_laws::started(cancelled, start);
            let state = tail_laws::state_after(s, answers);
            state.waiting_logged == told_to_wait(s, answers)
        }),
        answers.len() > 0 ==> {
            let s = tail_laws::started(cancelled, start);
            let earlier = answers.drop_last();
            let notes = tail_laws::last_step(s, answers).notes;
            notes.contains(TailNote::WaitingForLog) <==> answers.last().event
                == EventView::Found(None) && tailed(s, earlier) is None && !told_to_wait(s, earlier)
        },
    decreases answers.len(),
{
    let s = tail_laws::started(cancelled, start);
    if answers.len() > 0 {
        let earlier = answers.drop_last();
        waiting_is_told_once(cancelled, start, earlier);
        files_are_followed(cancelled, start, earlier);
        lemma_waiting_step(tail_laws::state_after(s, earlier), answers.last());
    }
}

proof fn lemma_waiting_step(s: TailView, answer: Answer)
    requires
        tail::awaits(s.phase, answer.event),
    ensures
        ({
            let step = tail::next(s, answer.event, answer.cancelled, answer.now);
            let told = answer.event == EventView::Found(None) && s.current is None
                && !s.waiting_logged;
            &&& told <==> step.notes.contains(TailNote::WaitingForLog)
            &&& told <==> step.notes == seq![TailNote::WaitingForLog]
            &&& step.state.waiting_logged == (told || (s.waiting_logged && answer.event
                != EventView::DateSet(true)))
        }),
{
    let step = tail::next(s, answer.event, answer.cancelled, answer.now);
    if answer.event == EventView::Found(None) && s.current is None && !s.waiting_logged {
        assert(step.notes[0] == TailNote::WaitingForLog);
    }
    assert(step.notes.len() <= 2);
    if step.notes == seq![TailNote::WaitingForLog] {
        assert(step.notes[0] == TailNote::WaitingForLog);
    }
}

/// An answer that the loop does not wait for ends it, and nothing is told.
pub proof fn other_answers_end_the_loop(s: TailView, event: EventView, cancelled: bool, now: u64)
    requires
        match s.phase {
            Phase::Resting | Phase::Grace => !(event is Rested),
            Phase::Finding => !(event is Found),
            Phase::Switching => !(event is DateSet),
            Phase::ReadingOld
            | Phase::Reading
            | Phase::Gathering
            | Phase::FinalReading => !(event is Read),
            Phase::Over => true,
            _ => !(event is Uploaded),
        },
    ensures
        tail::next(s, event, cancelled, now) == (StepView {
            state: TailView { phase: Phase::Over, ..s },
            notes: Seq::empty(),
            action: ActionView::Fail,
        }),
{
}

/// The loop starts with the search for a log, or with the stop, and with nothing read.
pub proof fn the_loop_starts_afresh(cancelled: bool, start: u64)
    ensures
        ({
            let step = tail::poll(tail::initial(start), Seq::empty(), cancelled);
            let state = step.state;
            &&& heads(step, Seq::<TailNote>::empty(), cancelled)
            &&& state.current is None
            &&& state.offset == 0
            &&& state.last_data == start
            &&& !state.dirty
            &&& !state.encounter_open
            &&& !state.key_open
            &&& !state.pending_key
            &&& !state.waiting_logged
            &&& state.lines.len() == 0
        }),
{
}

/// The loop polls every second, gives the game three seconds behind a stop, flushes a log
/// that has been silent for more than two minutes, and uploads once it has a hundred
/// thousand lines.
pub proof fn the_loop_keeps_its_times()
    ensures
        tail::POLL_INTERVAL_MS == 1_000,
        tail::STOP_GRACE_MS == 3_000,
        tail::IDLE_THRESHOLD_NS == 120_000_000_000,
        tail::DRAIN_MAX_LINES == 100_000,
{
}

} // verus!
