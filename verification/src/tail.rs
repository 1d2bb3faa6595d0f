//! The live tail: which file to read, when to upload what was read, and when to
//! force the parser to commit a fight.
//!
//! The loop itself waits for files, uploads and time. Its decisions are a state
//! machine: each answer that the loop gets is an event, and the machine says what
//! to do next.

use vstd::prelude::*;

use crate::chunk;
use crate::chunk::Chunk;
use crate::text;

verus! {

broadcast use {vstd::string::group_string_axioms, vstd::seq::group_seq_axioms};

/// How long the loop pauses between two polls, in milliseconds.
pub const POLL_INTERVAL_MS: u64 = 1_000;

/// How long the game gets after the stop to write what it holds back, in
/// milliseconds.
pub const STOP_GRACE_MS: u64 = 3_000;

/// How long a log may stay silent before the open fight is flushed, in
/// nanoseconds.
pub const IDLE_THRESHOLD_NS: u64 = 120_000_000_000;

/// A poll goes on reading until the file holds no more or it has this many lines,
/// and uploads once.
pub const DRAIN_MAX_LINES: usize = 100_000;

// ---- markers in the log -----------------------------------------------------------

/// What the lines read so far leave open.
#[derive(Clone, Copy, PartialEq, Eq, Structural, Debug)]
pub struct Marks {
    /// A boss encounter has started and not ended.
    pub encounter_open: bool,
    /// A keystone run has started and not ended.
    pub key_open: bool,
    /// A keystone run has ended in the lines at hand.
    pub key_ended: bool,
}

/// The marks behind one more line.
pub open spec fn mark_line(marks: Marks, line: Seq<char>) -> Marks {
    if text::contains_text(line, "ENCOUNTER_START"@) {
        Marks { encounter_open: true, ..marks }
    } else if text::contains_text(line, "ENCOUNTER_END"@) {
        Marks { encounter_open: false, ..marks }
    } else if text::contains_text(line, "CHALLENGE_MODE_START"@) {
        Marks { key_open: true, ..marks }
    } else if text::contains_text(line, "CHALLENGE_MODE_END"@) {
        Marks { key_open: false, key_ended: true, ..marks }
    } else {
        marks
    }
}

/// The marks behind all of `lines`.
pub open spec fn mark_lines(marks: Marks, lines: Seq<Seq<char>>) -> Marks
    decreases lines.len(),
{
    if lines.len() == 0 {
        marks
    } else {
        mark_line(mark_lines(marks, lines.drop_last()), lines.last())
    }
}

fn marked(marks: Marks, line: &str) -> (r: Marks)
    ensures
        r == mark_line(marks, line@),
{
    proof {
        reveal_strlit("ENCOUNTER_START");
        reveal_strlit("ENCOUNTER_END");
        reveal_strlit("CHALLENGE_MODE_START");
        reveal_strlit("CHALLENGE_MODE_END");
    }
    if text::contains(line, "ENCOUNTER_START") {
        Marks { encounter_open: true, ..marks }
    } else if text::contains(line, "ENCOUNTER_END") {
        Marks { encounter_open: false, ..marks }
    } else if text::contains(line, "CHALLENGE_MODE_START") {
        Marks { key_open: true, ..marks }
    } else if text::contains(line, "CHALLENGE_MODE_END") {
        // completed and abandoned runs alike
        Marks { key_open: false, key_ended: true, ..marks }
    } else {
        marks
    }
}

/// Reads the markers in `lines`.
pub fn scan_lines(marks: Marks, lines: &Vec<String>) -> (r: Marks)
    ensures
        r == mark_lines(marks, chunk::texts(lines@)),
{
    let ghost all = chunk::texts(lines@);
    let mut r = marks;
    let mut i: usize = 0;
    assert(all.take(0) =~= Seq::<Seq<char>>::empty());
    while i < lines.len()
        invariant
            all == chunk::texts(lines@),
            i <= lines@.len(),
            r == mark_lines(marks, all.take(i as int)),
        decreases lines@.len() - i,
    {
        assert(all.take(i + 1).drop_last() =~= all.take(i as int));
        assert(all.take(i + 1).last() == lines@[i as int]@);
        r = marked(r, lines[i].as_str());
        i += 1;
    }
    assert(all.take(i as int) =~= all);
    r
}

// ---- the machine's words --------------------------------------------------------

/// What the loop is waiting for.
#[derive(Clone, Copy, PartialEq, Eq, Structural, Debug)]
pub enum Phase {
    /// The pause between two polls.
    Resting,
    /// The name of the newest log.
    Finding,
    /// A last read of the file before the current one.
    ReadingOld,
    /// The upload of what that read gave.
    UploadingOld,
    /// The parser to take the date of the new file.
    Switching,
    /// A read of the current file.
    Reading,
    /// A further read of the current file in the same poll.
    Gathering,
    /// The upload of the lines of a poll.
    UploadingLines,
    /// The commit of a keystone run that has ended.
    RetryingKey,
    /// The commit of the open fight of a silent log.
    FlushingIdle,
    /// The game to write what it holds back, after the stop.
    Grace,
    /// A last read of the current file, after the stop.
    FinalReading,
    /// The upload of what that read gave.
    FinalUploading,
    /// The last commit.
    FinalFlushing,
    /// Nothing: the loop is over.
    Over,
}

/// An answer that the loop got.
pub enum TailEvent {
    /// A pause is over.
    Rested,
    /// The newest log, where there is one.
    Found(Option<String>),
    /// A chunk, or none where reading failed.
    Read(Option<Chunk>),
    /// Whether a segment was uploaded, or none where the upload failed.
    Uploaded(Option<bool>),
    /// Whether the parser took the start date.
    DateSet(bool),
}

/// What the loop does next.
pub enum TailAction {
    /// Look for the newest log.
    FindLog,
    /// Pause until the next poll.
    Rest,
    /// Hand the parser the date in the name of a file.
    SetStartDate { name: String },
    /// Read a file.
    Read { name: String, offset: u64 },
    /// Parse `lines` and upload what the parser commits.
    Upload { lines: Vec<String>, push_fight: bool, drop_slivers: bool },
    /// Wait for the game to write what it holds back.
    WaitForWrites,
    /// End the session with the error at hand.
    Fail,
    /// End the session.
    Done,
}

/// What the loop tells the user and the journal.
#[derive(Clone, Copy, PartialEq, Eq, Structural, Debug)]
pub enum TailNote {
    WaitingForLog,
    Tailing,
    ReadError { offset: u64 },
    Truncated { offset: u64, file_size: u64 },
    IdleFlushSkipped { offset: u64, encounter_open: bool, key_open: bool },
    IdleFlush { offset: u64 },
    Stopping { offset: u64 },
    FinalDrainFailed,
    FinalFlush { offset: u64 },
    FinalFlushFailed,
}

/// One step of the loop.
pub struct TailStep {
    pub notes: Vec<TailNote>,
    pub action: TailAction,
}

/// An event as plain values.
pub enum EventView {
    Rested,
    Found(Option<Seq<char>>),
    Read(Option<chunk::ChunkView>),
    Uploaded(Option<bool>),
    DateSet(bool),
}

impl View for TailEvent {
    type V = EventView;

    open spec fn view(&self) -> EventView {
        match *self {
            TailEvent::Rested => EventView::Rested,
            TailEvent::Found(Some(name)) => EventView::Found(Some(name@)),
            TailEvent::Found(None) => EventView::Found(None),
            TailEvent::Read(Some(chunk)) => EventView::Read(Some(chunk@)),
            TailEvent::Read(None) => EventView::Read(None),
            TailEvent::Uploaded(uploaded) => EventView::Uploaded(uploaded),
            TailEvent::DateSet(ok) => EventView::DateSet(ok),
        }
    }
}

/// An action as plain values.
pub enum ActionView {
    FindLog,
    Rest,
    SetStartDate { name: Seq<char> },
    Read { name: Seq<char>, offset: u64 },
    Upload { lines: Seq<Seq<char>>, push_fight: bool, drop_slivers: bool },
    WaitForWrites,
    Fail,
    Done,
}

impl View for TailAction {
    type V = ActionView;

    open spec fn view(&self) -> ActionView {
        match *self {
            TailAction::FindLog => ActionView::FindLog,
            TailAction::Rest => ActionView::Rest,
            TailAction::SetStartDate { name } => ActionView::SetStartDate { name: name@ },
            TailAction::Read { name, offset } => ActionView::Read { name: name@, offset },
            TailAction::Upload { lines, push_fight, drop_slivers } => ActionView::Upload {
                lines: chunk::texts(lines@),
                push_fight,
                drop_slivers,
            },
            TailAction::WaitForWrites => ActionView::WaitForWrites,
            TailAction::Fail => ActionView::Fail,
            TailAction::Done => ActionView::Done,
        }
    }
}

/// The state of the loop.
pub struct TailLoop {
    phase: Phase,
    current: Option<String>,
    next: Option<String>,
    offset: u64,
    last_data: u64,
    dirty: bool,
    encounter_open: bool,
    key_open: bool,
    pending_key: bool,
    waiting_logged: bool,
    lines: Vec<String>,
}

/// The state of the loop as plain values.
#[verifier::ext_equal]
pub struct TailView {
    /// What the loop is waiting for.
    pub phase: Phase,
    /// The file that is tailed.
    pub current: Option<Seq<char>>,
    /// The file that is to be tailed next.
    pub next: Option<Seq<char>>,
    /// How much of the current file has been read.
    pub offset: u64,
    /// When lines last went to the parser, or the wait for them last began anew.
    pub last_data: u64,
    /// Lines have been parsed since the open fight was last flushed.
    pub dirty: bool,
    /// An encounter has started and not ended.
    pub encounter_open: bool,
    /// A keystone run has started and not ended.
    pub key_open: bool,
    /// A keystone run has ended, and no segment has been uploaded since.
    pub pending_key: bool,
    /// The user has been told that there is no log yet.
    pub waiting_logged: bool,
    /// The lines of this poll, read and not yet uploaded.
    pub lines: Seq<Seq<char>>,
}

pub open spec fn name_view(name: Option<String>) -> Option<Seq<char>> {
    match name {
        Some(s) => Some(s@),
        None => None,
    }
}

impl View for TailLoop {
    type V = TailView;

    closed spec fn view(&self) -> TailView {
        TailView {
            phase: self.phase,
            current: name_view(self.current),
            next: name_view(self.next),
            offset: self.offset,
            last_data: self.last_data,
            dirty: self.dirty,
            encounter_open: self.encounter_open,
            key_open: self.key_open,
            pending_key: self.pending_key,
            waiting_logged: self.waiting_logged,
            lines: chunk::texts(self.lines@),
        }
    }
}

// ---- the machine's rules ----------------------------------------------------------

/// A step as plain values: the state behind it, what is told, and what to do.
pub struct StepView {
    pub state: TailView,
    pub notes: Seq<TailNote>,
    pub action: ActionView,
}

/// The loop as it starts.
pub open spec fn initial(now: u64) -> TailView {
    TailView {
        phase: Phase::Resting,
        current: None,
        next: None,
        offset: 0,
        last_data: now,
        dirty: false,
        encounter_open: false,
        key_open: false,
        pending_key: false,
        waiting_logged: false,
        lines: Seq::empty(),
    }
}

/// The head of the loop: look for a log, or stop.
pub open spec fn poll(s: TailView, notes: Seq<TailNote>, cancelled: bool) -> StepView {
    if cancelled {
        stop(s, notes)
    } else {
        StepView {
            state: TailView { phase: Phase::Finding, ..s },
            notes,
            action: ActionView::FindLog,
        }
    }
}

/// The stop: wait for what the game has not written yet.
pub open spec fn stop(s: TailView, notes: Seq<TailNote>) -> StepView {
    StepView {
        state: TailView { phase: Phase::Grace, ..s },
        notes: notes.push(TailNote::Stopping { offset: s.offset }),
        action: ActionView::WaitForWrites,
    }
}

pub open spec fn rest(s: TailView, notes: Seq<TailNote>) -> StepView {
    StepView {
        state: TailView { phase: Phase::Resting, ..s },
        notes,
        action: ActionView::Rest,
    }
}

pub open spec fn fail(s: TailView) -> StepView {
    StepView {
        state: TailView { phase: Phase::Over, ..s },
        notes: Seq::empty(),
        action: ActionView::Fail,
    }
}

/// An upload failed: the stop, where one was asked for, else the end.
pub open spec fn upload_failed(s: TailView, cancelled: bool) -> StepView {
    if cancelled {
        stop(s, Seq::empty())
    } else {
        fail(s)
    }
}

/// Read the current file.
pub open spec fn read(s: TailView, phase: Phase, notes: Seq<TailNote>) -> StepView {
    StepView {
        state: TailView { phase, ..s },
        notes,
        action: ActionView::Read { name: s.current->0, offset: s.offset },
    }
}

/// Turn to the file `s.next`.
pub open spec fn switch_file(s: TailView) -> StepView {
    StepView {
        state: TailView { phase: Phase::Switching, current: None, offset: 0, ..s },
        notes: Seq::empty(),
        action: ActionView::SetStartDate { name: s.next->0 },
    }
}

/// Read what is left of the old file before turning to the new one.
pub open spec fn drain_old(s: TailView, cancelled: bool) -> StepView {
    if cancelled {
        switch_file(s)
    } else {
        read(s, Phase::ReadingOld, Seq::empty())
    }
}

/// A poll that found lines: read on, or upload them.
pub open spec fn gather(s: TailView, now: u64) -> StepView {
    if s.lines.len() < DRAIN_MAX_LINES {
        read(s, Phase::Gathering, Seq::empty())
    } else {
        commit(s, now)
    }
}

/// The marks that the state carries from one poll to the next.
pub open spec fn carried(s: TailView) -> Marks {
    Marks { encounter_open: s.encounter_open, key_open: s.key_open, key_ended: false }
}

/// Upload the lines of the poll. The end of a keystone run forces a commit, now
/// or as soon as nothing is open.
pub open spec fn commit(s: TailView, now: u64) -> StepView {
    let marks = mark_lines(carried(s), s.lines);
    let pending_key = s.pending_key || marks.key_ended;
    StepView {
        state: TailView {
            phase: Phase::UploadingLines,
            last_data: now,
            dirty: true,
            encounter_open: marks.encounter_open,
            key_open: marks.key_open,
            pending_key,
            lines: Seq::empty(),
            ..s
        },
        notes: Seq::empty(),
        action: ActionView::Upload {
            lines: s.lines,
            push_fight: pending_key && !marks.encounter_open && !marks.key_open,
            drop_slivers: false,
        },
    }
}

/// A poll that found no lines: try the pending commit again, flush a fight that
/// has been silent for long, or rest.
pub open spec fn quiet(s: TailView, now: u64) -> StepView {
    if s.pending_key && !s.encounter_open && !s.key_open {
        StepView {
            state: TailView { phase: Phase::RetryingKey, ..s },
            notes: Seq::empty(),
            action: ActionView::Upload {
                lines: Seq::empty(),
                push_fight: true,
                drop_slivers: false,
            },
        }
    } else if s.dirty && now - s.last_data > IDLE_THRESHOLD_NS {
        if s.encounter_open || s.key_open {
            rest(
                TailView { last_data: now, ..s },
                seq![
                    TailNote::IdleFlushSkipped {
                        offset: s.offset,
                        encounter_open: s.encounter_open,
                        key_open: s.key_open,
                    },
                ],
            )
        } else {
            StepView {
                state: TailView { phase: Phase::FlushingIdle, dirty: false, ..s },
                notes: seq![TailNote::IdleFlush { offset: s.offset }],
                action: ActionView::Upload {
                    lines: Seq::empty(),
                    push_fight: true,
                    drop_slivers: true,
                },
            }
        }
    } else {
        rest(s, Seq::empty())
    }
}

/// The last commit, so that a fight in progress makes it into the report. Where it is
/// also the commit of a keystone run that has ended, slivers are kept.
pub open spec fn final_flush(s: TailView, notes: Seq<TailNote>) -> StepView {
    StepView {
        state: TailView { phase: Phase::FinalFlushing, ..s },
        notes: notes.push(TailNote::FinalFlush { offset: s.offset }),
        action: ActionView::Upload {
            lines: Seq::empty(),
            push_fight: true,
            drop_slivers: !s.pending_key,
        },
    }
}

/// Upload the rest of a file, with no commit forced. Its markers count as those of a
/// poll do.
pub open spec fn drain(
    s: TailView,
    phase: Phase,
    lines: Seq<Seq<char>>,
    now: u64,
) -> StepView {
    let marks = mark_lines(carried(s), lines);
    upload(
        TailView {
            last_data: now,
            dirty: true,
            encounter_open: marks.encounter_open,
            key_open: marks.key_open,
            pending_key: s.pending_key || marks.key_ended,
            ..s
        },
        phase,
        lines,
    )
}

pub open spec fn done(s: TailView, notes: Seq<TailNote>) -> StepView {
    StepView { state: TailView { phase: Phase::Over, ..s }, notes, action: ActionView::Done }
}

/// Upload `lines` as they are.
pub open spec fn upload(s: TailView, phase: Phase, lines: Seq<Seq<char>>) -> StepView {
    StepView {
        state: TailView { phase, ..s },
        notes: Seq::empty(),
        action: ActionView::Upload { lines, push_fight: false, drop_slivers: false },
    }
}

/// The state without the pending commit, where a segment was uploaded.
pub open spec fn settled(s: TailView, uploaded: bool) -> TailView {
    TailView { pending_key: s.pending_key && !uploaded, ..s }
}

/// What follows in state `s` on `event`. `cancelled` and `now` are the stop signal
/// and the clock, read when the event came in.
pub open spec fn next(s: TailView, event: EventView, cancelled: bool, now: u64) -> StepView {
    match (s.phase, event) {
        (Phase::Resting, EventView::Rested) => poll(s, Seq::empty(), cancelled),
        (Phase::Finding, EventView::Found(None)) => if s.current is None && !s.waiting_logged {
            rest(TailView { waiting_logged: true, ..s }, seq![TailNote::WaitingForLog])
        } else {
            rest(s, Seq::empty())
        },
        (Phase::Finding, EventView::Found(Some(name))) => if s.current == Some(name) {
            read(s, Phase::Reading, Seq::empty())
        } else {
            let found = TailView { next: Some(name), ..s };
            if s.current is Some {
                drain_old(found, cancelled)
            } else {
                switch_file(found)
            }
        },
        (Phase::ReadingOld, EventView::Read(Some(chunk))) if chunk.lines.len() > 0 => drain(
            TailView { offset: chunk.new_offset, ..s },
            Phase::UploadingOld,
            chunk.lines,
            now,
        ),
        (Phase::ReadingOld, EventView::Read(_)) => switch_file(s),
        (Phase::UploadingOld, EventView::Uploaded(Some(uploaded))) => drain_old(
            settled(s, uploaded),
            cancelled,
        ),
        (Phase::UploadingOld, EventView::Uploaded(None)) => if cancelled {
            switch_file(s)
        } else {
            fail(s)
        },
        (Phase::Switching, EventView::DateSet(true)) => read(
            TailView { current: s.next, next: None, waiting_logged: false, ..s },
            Phase::Reading,
            seq![TailNote::Tailing],
        ),
        (Phase::Switching, EventView::DateSet(false)) => fail(s),
        (Phase::Reading, EventView::Read(None)) => rest(
            s,
            seq![TailNote::ReadError { offset: s.offset }],
        ),
        (Phase::Reading, EventView::Read(Some(chunk))) => if chunk.file_size < s.offset {
            poll(
                TailView { offset: 0, ..s },
                seq![TailNote::Truncated { offset: s.offset, file_size: chunk.file_size }],
                cancelled,
            )
        } else if chunk.lines.len() == 0 {
            quiet(s, now)
        } else {
            gather(TailView { offset: chunk.new_offset, lines: chunk.lines, ..s }, now)
        },
        (Phase::Gathering, EventView::Read(Some(chunk))) if chunk.lines.len() > 0 => gather(
            TailView { offset: chunk.new_offset, lines: s.lines + chunk.lines, ..s },
            now,
        ),
        (Phase::Gathering, EventView::Read(_)) => commit(s, now),
        (Phase::UploadingLines, EventView::Uploaded(Some(uploaded))) => poll(
            settled(s, uploaded),
            Seq::empty(),
            cancelled,
        ),
        (Phase::RetryingKey, EventView::Uploaded(Some(uploaded))) => rest(
            settled(s, uploaded),
            Seq::empty(),
        ),
        (Phase::FlushingIdle, EventView::Uploaded(Some(uploaded))) => rest(
            settled(s, uploaded),
            Seq::empty(),
        ),
        (Phase::UploadingLines, EventView::Uploaded(None)) => upload_failed(s, cancelled),
        (Phase::RetryingKey, EventView::Uploaded(None)) => upload_failed(s, cancelled),
        (Phase::FlushingIdle, EventView::Uploaded(None)) => upload_failed(s, cancelled),
        (Phase::Grace, EventView::Rested) => if s.current is Some {
            read(s, Phase::FinalReading, Seq::empty())
        } else {
            final_flush(s, Seq::empty())
        },
        (Phase::FinalReading, EventView::Read(Some(chunk))) if chunk.lines.len() > 0 => drain(
            TailView { offset: chunk.new_offset, ..s },
            Phase::FinalUploading,
            chunk.lines,
            now,
        ),
        (Phase::FinalReading, EventView::Read(_)) => final_flush(s, Seq::empty()),
        (Phase::FinalUploading, EventView::Uploaded(Some(uploaded))) => read(
            settled(s, uploaded),
            Phase::FinalReading,
            Seq::empty(),
        ),
        (Phase::FinalUploading, EventView::Uploaded(None)) => final_flush(
            s,
            seq![TailNote::FinalDrainFailed],
        ),
        (Phase::FinalFlushing, EventView::Uploaded(Some(uploaded))) => done(
            settled(s, uploaded),
            Seq::empty(),
        ),
        (Phase::FinalFlushing, EventView::Uploaded(None)) => done(
            s,
            seq![TailNote::FinalFlushFailed],
        ),
        _ => fail(s),
    }
}

/// The kind of answer that a phase waits for.
pub open spec fn awaits(phase: Phase, event: EventView) -> bool {
    match phase {
        Phase::Resting | Phase::Grace => event is Rested,
        Phase::Finding => event is Found,
        Phase::Switching => event is DateSet,
        Phase::ReadingOld
        | Phase::Reading
        | Phase::Gathering
        | Phase::FinalReading => event is Read,
        Phase::UploadingOld
        | Phase::UploadingLines
        | Phase::RetryingKey
        | Phase::FlushingIdle
        | Phase::FinalUploading
        | Phase::FinalFlushing => event is Uploaded,
        Phase::Over => false,
    }
}

/// What holds of the loop's state at all times: the phases that read a file have
/// one, those that turn to a file have one to turn to, and only a poll that reads
/// on, or one that was broken off, holds lines.
pub open spec fn consistent(s: TailView) -> bool {
    &&& match s.phase {
        Phase::ReadingOld
        | Phase::UploadingOld
        | Phase::Reading
        | Phase::Gathering
        | Phase::UploadingLines
        | Phase::RetryingKey
        | Phase::FlushingIdle
        | Phase::FinalReading
        | Phase::FinalUploading => s.current is Some,
        _ => true,
    }
    &&& match s.phase {
        Phase::ReadingOld | Phase::UploadingOld | Phase::Switching => s.next is Some,
        _ => true,
    }
    &&& s.lines.len() > 0 ==> s.phase == Phase::Gathering || s.phase == Phase::Over
}

// ---- the machine --------------------------------------------------------------------

/// A state and a step as plain values.
pub open spec fn stepped(r: (TailLoop, TailStep)) -> StepView {
    StepView { state: r.0@, notes: r.1.notes@, action: r.1.action@ }
}

fn no_notes() -> (r: Vec<TailNote>)
    ensures
        r@ == Seq::<TailNote>::empty(),
{
    Vec::new()
}

fn one_note(note: TailNote) -> (r: Vec<TailNote>)
    ensures
        r@ == seq![note],
{
    let mut notes: Vec<TailNote> = Vec::new();
    notes.push(note);
    assert(notes@ =~= seq![note]);
    notes
}

fn no_lines() -> (r: Vec<String>)
    ensures
        chunk::texts(r@) == Seq::<Seq<char>>::empty(),
        r@.len() == 0,
{
    let lines: Vec<String> = Vec::new();
    assert(chunk::texts(lines@) =~= Seq::<Seq<char>>::empty());
    lines
}

/// A copy of a file name; empty where there is none.
fn name_copy(name: &Option<String>) -> (r: String)
    ensures
        name_view(*name) matches Some(text) ==> r@ == text,
{
    match name {
        Some(text) => text.clone(),
        None => String::new(),
    }
}

fn same_name(a: &Option<String>, b: &String) -> (r: bool)
    ensures
        r == (name_view(*a) == Some(b@)),
{
    match a {
        Some(text) => *text == *b,
        None => false,
    }
}

impl TailLoop {
    #[verifier::type_invariant]
    spec fn inv(self) -> bool {
        consistent(self@)
    }

    /// Starts the loop at `now`.
    pub fn start(cancelled: bool, now: u64) -> (r: (TailLoop, TailStep))
        ensures
            stepped(r) == poll(initial(now), Seq::empty(), cancelled),
    {
        let fresh = TailLoop {
            phase: Phase::Resting,
            current: None,
            next: None,
            offset: 0,
            last_data: now,
            dirty: false,
            encounter_open: false,
            key_open: false,
            pending_key: false,
            waiting_logged: false,
            lines: no_lines(),
        };
        fresh.poll(no_notes(), cancelled)
    }

    fn poll(self, notes: Vec<TailNote>, cancelled: bool) -> (r: (TailLoop, TailStep))
        requires
            self@.lines.len() == 0,
        ensures
            stepped(r) == poll(self@, notes@, cancelled),
    {
        if cancelled {
            self.stop(notes)
        } else {
            let state = TailLoop { phase: Phase::Finding, ..self };
            (state, TailStep { notes, action: TailAction::FindLog })
        }
    }

    fn stop(self, notes: Vec<TailNote>) -> (r: (TailLoop, TailStep))
        requires
            self@.lines.len() == 0,
        ensures
            stepped(r) == stop(self@, notes@),
    {
        let mut notes = notes;
        notes.push(TailNote::Stopping { offset: self.offset });
        let state = TailLoop { phase: Phase::Grace, ..self };
        (state, TailStep { notes, action: TailAction::WaitForWrites })
    }

    fn rest(self, notes: Vec<TailNote>) -> (r: (TailLoop, TailStep))
        requires
            self@.lines.len() == 0,
        ensures
            stepped(r) == rest(self@, notes@),
    {
        let state = TailLoop { phase: Phase::Resting, ..self };
        (state, TailStep { notes, action: TailAction::Rest })
    }

    fn fail(self) -> (r: (TailLoop, TailStep))
        ensures
            stepped(r) == fail(self@),
    {
        let state = TailLoop { phase: Phase::Over, ..self };
        (state, TailStep { notes: no_notes(), action: TailAction::Fail })
    }

    fn upload_failed(self, cancelled: bool) -> (r: (TailLoop, TailStep))
        requires
            self@.lines.len() == 0,
        ensures
            stepped(r) == upload_failed(self@, cancelled),
    {
        if cancelled {
            self.stop(no_notes())
        } else {
            self.fail()
        }
    }

    fn read(self, phase: Phase, notes: Vec<TailNote>) -> (r: (TailLoop, TailStep))
        requires
            self@.current is Some,
            consistent(TailView { phase, ..self@ }),
        ensures
            stepped(r) == read(self@, phase, notes@),
    {
        let name = name_copy(&self.current);
        let offset = self.offset;
        let state = TailLoop { phase, ..self };
        (state, TailStep { notes, action: TailAction::Read { name, offset } })
    }

    fn switch_file(self) -> (r: (TailLoop, TailStep))
        requires
            self@.next is Some,
            self@.lines.len() == 0,
        ensures
            stepped(r) == switch_file(self@),
    {
        let name = name_copy(&self.next);
        let state = TailLoop { phase: Phase::Switching, current: None, offset: 0, ..self };
        (state, TailStep { notes: no_notes(), action: TailAction::SetStartDate { name } })
    }

    fn drain_old(self, cancelled: bool) -> (r: (TailLoop, TailStep))
        requires
            self@.current is Some,
            self@.next is Some,
            self@.lines.len() == 0,
        ensures
            stepped(r) == drain_old(self@, cancelled),
    {
        if cancelled {
            self.switch_file()
        } else {
            self.read(Phase::ReadingOld, no_notes())
        }
    }

    fn gather(self, now: u64) -> (r: (TailLoop, TailStep))
        requires
            self@.current is Some,
        ensures
            stepped(r) == gather(self@, now),
    {
        if self.lines.len() < DRAIN_MAX_LINES {
            self.read(Phase::Gathering, no_notes())
        } else {
            self.commit(now)
        }
    }

    fn commit(self, now: u64) -> (r: (TailLoop, TailStep))
        requires
            self@.current is Some,
        ensures
            stepped(r) == commit(self@, now),
    {
        let carried = Marks {
            encounter_open: self.encounter_open,
            key_open: self.key_open,
            key_ended: false,
        };
        let marks = scan_lines(carried, &self.lines);
        let pending_key = self.pending_key || marks.key_ended;
        let push_fight = pending_key && !marks.encounter_open && !marks.key_open;
        let lines = self.lines;
        let state = TailLoop {
            phase: Phase::UploadingLines,
            current: self.current,
            next: self.next,
            offset: self.offset,
            last_data: now,
            dirty: true,
            encounter_open: marks.encounter_open,
            key_open: marks.key_open,
            pending_key,
            waiting_logged: self.waiting_logged,
            lines: no_lines(),
        };
        let action = TailAction::Upload { lines, push_fight, drop_slivers: false };
        (state, TailStep { notes: no_notes(), action })
    }

    fn quiet(self, now: u64) -> (r: (TailLoop, TailStep))
        requires
            self@.current is Some,
            self@.lines.len() == 0,
        ensures
            stepped(r) == quiet(self@, now),
    {
        proof {
            use_type_invariant(&self);
        }
        if self.pending_key && !self.encounter_open && !self.key_open {
            let state = TailLoop { phase: Phase::RetryingKey, ..self };
            let action = TailAction::Upload {
                lines: no_lines(),
                push_fight: true,
                drop_slivers: false,
            };
            (state, TailStep { notes: no_notes(), action })
        } else if self.dirty && now > self.last_data && now - self.last_data > IDLE_THRESHOLD_NS {
            let offset = self.offset;
            if self.encounter_open || self.key_open {
                let note = TailNote::IdleFlushSkipped {
                    offset,
                    encounter_open: self.encounter_open,
                    key_open: self.key_open,
                };
                let state = TailLoop { last_data: now, ..self };
                state.rest(one_note(note))
            } else {
                let state = TailLoop { phase: Phase::FlushingIdle, dirty: false, ..self };
                let action = TailAction::Upload {
                    lines: no_lines(),
                    push_fight: true,
                    drop_slivers: true,
                };
                (state, TailStep { notes: one_note(TailNote::IdleFlush { offset }), action })
            }
        } else {
            self.rest(no_notes())
        }
    }

    fn final_flush(self, notes: Vec<TailNote>) -> (r: (TailLoop, TailStep))
        requires
            self@.lines.len() == 0,
        ensures
            stepped(r) == final_flush(self@, notes@),
    {
        let mut notes = notes;
        notes.push(TailNote::FinalFlush { offset: self.offset });
        let drop_slivers = !self.pending_key;
        let state = TailLoop { phase: Phase::FinalFlushing, ..self };
        let action = TailAction::Upload { lines: no_lines(), push_fight: true, drop_slivers };
        (state, TailStep { notes, action })
    }

    fn drain(self, phase: Phase, offset: u64, lines: Vec<String>, now: u64) -> (r: (
        TailLoop,
        TailStep,
    ))
        requires
            consistent(TailView { phase, ..self@ }),
        ensures
            stepped(r) == drain(TailView { offset, ..self@ }, phase, chunk::texts(lines@), now),
    {
        proof {
            use_type_invariant(&self);
        }
        let carried = Marks {
            encounter_open: self.encounter_open,
            key_open: self.key_open,
            key_ended: false,
        };
        let marks = scan_lines(carried, &lines);
        let state = TailLoop {
            last_data: now,
            dirty: true,
            encounter_open: marks.encounter_open,
            key_open: marks.key_open,
            pending_key: self.pending_key || marks.key_ended,
            ..self
        };
        state.upload(phase, offset, lines)
    }

    fn done(self, notes: Vec<TailNote>) -> (r: (TailLoop, TailStep))
        requires
            self@.lines.len() == 0,
        ensures
            stepped(r) == done(self@, notes@),
    {
        let state = TailLoop { phase: Phase::Over, ..self };
        (state, TailStep { notes, action: TailAction::Done })
    }

    fn upload(self, phase: Phase, offset: u64, lines: Vec<String>) -> (r: (TailLoop, TailStep))
        requires
            consistent(TailView { phase, offset, ..self@ }),
        ensures
            stepped(r) == upload(TailView { offset, ..self@ }, phase, chunk::texts(lines@)),
    {
        let state = TailLoop { phase, offset, ..self };
        let action = TailAction::Upload { lines, push_fight: false, drop_slivers: false };
        (state, TailStep { notes: no_notes(), action })
    }

    fn found(self, name: Option<String>, cancelled: bool) -> (r: (TailLoop, TailStep))
        requires
            self@.phase == Phase::Finding,
        ensures
            stepped(r) == next(self@, EventView::Found(name_view(name)), cancelled, 0),
    {
        proof {
            use_type_invariant(&self);
        }
        match name {
            None => {
                if self.current.is_none() && !self.waiting_logged {
                    let state = TailLoop { waiting_logged: true, ..self };
                    state.rest(one_note(TailNote::WaitingForLog))
                } else {
                    self.rest(no_notes())
                }
            },
            Some(name) => {
                if same_name(&self.current, &name) {
                    self.read(Phase::Reading, no_notes())
                } else {
                    let state = TailLoop { next: Some(name), ..self };
                    if state.current.is_some() {
                        state.drain_old(cancelled)
                    } else {
                        state.switch_file()
                    }
                }
            },
        }
    }

    fn chunk_read(self, chunk: Option<Chunk>, cancelled: bool, now: u64) -> (r: (
        TailLoop,
        TailStep,
    ))
        requires
            awaits(self@.phase, EventView::Read(None)),
        ensures
            stepped(r) == next(
                self@,
                EventView::Read(
                    match chunk {
                        Some(chunk) => Some(chunk@),
                        None => None,
                    },
                ),
                cancelled,
                now,
            ),
    {
        proof {
            use_type_invariant(&self);
        }
        match (self.phase, chunk) {
            (Phase::ReadingOld, Some(chunk)) if chunk.lines.len() > 0 => {
                self.drain(Phase::UploadingOld, chunk.new_offset, chunk.lines, now)
            },
            (Phase::ReadingOld, _) => self.switch_file(),
            (Phase::Reading, None) => {
                let offset = self.offset;
                self.rest(one_note(TailNote::ReadError { offset }))
            },
            (Phase::Reading, Some(chunk)) => {
                if chunk.file_size < self.offset {
                    let note = TailNote::Truncated {
                        offset: self.offset,
                        file_size: chunk.file_size,
                    };
                    let state = TailLoop { offset: 0, ..self };
                    state.poll(one_note(note), cancelled)
                } else if chunk.lines.len() == 0 {
                    self.quiet(now)
                } else {
                    let state = TailLoop {
                        phase: Phase::Gathering,
                        offset: chunk.new_offset,
                        lines: chunk.lines,
                        ..self
                    };
                    state.gather(now)
                }
            },
            (Phase::Gathering, Some(chunk)) if chunk.lines.len() > 0 => {
                let offset = chunk.new_offset;
                let mut more = chunk.lines;
                let TailLoop {
                    phase,
                    current,
                    next,
                    offset: _,
                    last_data,
                    dirty,
                    encounter_open,
                    key_open,
                    pending_key,
                    waiting_logged,
                    mut lines,
                } = self;
                let ghost all = chunk::texts(lines@) + chunk::texts(more@);
                lines.append(&mut more);
                assert(chunk::texts(lines@) =~= all);
                let state = TailLoop {
                    phase,
                    current,
                    next,
                    offset,
                    last_data,
                    dirty,
                    encounter_open,
                    key_open,
                    pending_key,
                    waiting_logged,
                    lines,
                };
                state.gather(now)
            },
            (Phase::Gathering, _) => self.commit(now),
            (Phase::FinalReading, Some(chunk)) if chunk.lines.len() > 0 => {
                self.drain(Phase::FinalUploading, chunk.new_offset, chunk.lines, now)
            },
            _ => self.final_flush(no_notes()),
        }
    }

    fn uploaded(self, uploaded: Option<bool>, cancelled: bool) -> (r: (TailLoop, TailStep))
        requires
            awaits(self@.phase, EventView::Uploaded(None)),
        ensures
            stepped(r) == next(self@, EventView::Uploaded(uploaded), cancelled, 0),
    {
        proof {
            use_type_invariant(&self);
        }
        let state = match uploaded {
            Some(uploaded) => {
                let pending_key = self.pending_key && !uploaded;
                TailLoop { pending_key, ..self }
            },
            None => self,
        };
        match (state.phase, uploaded) {
            (Phase::UploadingOld, Some(_)) => state.drain_old(cancelled),
            (Phase::UploadingOld, None) => {
                if cancelled {
                    state.switch_file()
                } else {
                    state.fail()
                }
            },
            (Phase::UploadingLines, Some(_)) => state.poll(no_notes(), cancelled),
            (Phase::RetryingKey, Some(_)) => state.rest(no_notes()),
            (Phase::FlushingIdle, Some(_)) => state.rest(no_notes()),
            (Phase::FinalUploading, Some(_)) => state.read(Phase::FinalReading, no_notes()),
            (Phase::FinalUploading, None) => state.final_flush(
                one_note(TailNote::FinalDrainFailed),
            ),
            (Phase::FinalFlushing, Some(_)) => state.done(no_notes()),
            (Phase::FinalFlushing, None) => state.done(one_note(TailNote::FinalFlushFailed)),
            _ => state.upload_failed(cancelled),
        }
    }

    /// What follows on the answer `event`. `cancelled` and `now` are the stop signal
    /// and the clock, in nanoseconds, read when the answer came in. An answer that
    /// the loop does not wait for ends it.
    pub fn step(self, event: TailEvent, cancelled: bool, now: u64) -> (r: (TailLoop, TailStep))
        ensures
            stepped(r) == next(self@, event@, cancelled, now),
    {
        proof {
            use_type_invariant(&self);
        }
        match (self.phase, event) {
            (Phase::Resting, TailEvent::Rested) => self.poll(no_notes(), cancelled),
            (Phase::Grace, TailEvent::Rested) => {
                if self.current.is_some() {
                    self.read(Phase::FinalReading, no_notes())
                } else {
                    self.final_flush(no_notes())
                }
            },
            (Phase::Finding, TailEvent::Found(name)) => self.found(name, cancelled),
            (Phase::Switching, TailEvent::DateSet(ok)) => {
                if ok {
                    let name = name_copy(&self.next);
                    let state = TailLoop {
                        current: Some(name),
                        next: None,
                        phase: Phase::Reading,
                        waiting_logged: false,
                        ..self
                    };
                    state.read(Phase::Reading, one_note(TailNote::Tailing))
                } else {
                    self.fail()
                }
            },
            (
                Phase::ReadingOld
                | Phase::Reading
                | Phase::Gathering
                | Phase::FinalReading,
                TailEvent::Read(chunk),
            ) => self.chunk_read(chunk, cancelled, now),
            (
                Phase::UploadingOld
                | Phase::UploadingLines
                | Phase::RetryingKey
                | Phase::FlushingIdle
                | Phase::FinalUploading
                | Phase::FinalFlushing,
                TailEvent::Uploaded(uploaded),
            ) => self.uploaded(uploaded, cancelled),
            _ => self.fail(),
        }
    }
}

} // verus!
