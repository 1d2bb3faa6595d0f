//! The split of one combat log into a file for each session.
//!
//! The game writes a version line at the start of each session. The lines before
//! the first one cannot be attributed to a session and are dropped.

use vstd::prelude::*;
use vstd::utf8::*;

use crate::names;
use crate::names::UsedNames;
use crate::numbers;
use crate::text;

verus! {

broadcast use {
    vstd::string::group_string_axioms,
    vstd::seq::group_seq_axioms,
    vstd::set::group_set_axioms,
};

/// What to split, and where the files go.
#[derive(Debug)]
pub struct SplitArgs {
    pub source: String,
    pub output_dir: String,
}

/// One file that a split wrote.
#[derive(Clone)]
pub struct SplitOutput {
    pub name: String,
    pub lines: u64,
    pub bytes: u64,
}

// ---- sessions ---------------------------------------------------------------------

/// The line starts a session.
pub open spec fn is_marker(line: Seq<char>) -> bool {
    text::contains_text(line, "COMBAT_LOG_VERSION"@)
}

/// The sessions of a log: each marker line starts one, and the lines behind it
/// belong to it.
pub open spec fn sessions(lines: Seq<Seq<char>>) -> Seq<Seq<Seq<char>>>
    decreases lines.len(),
{
    if lines.len() == 0 {
        Seq::empty()
    } else {
        let before = sessions(lines.drop_last());
        let line = lines.last();
        if is_marker(line) {
            before.push(seq![line])
        } else if before.len() == 0 {
            before
        } else {
            before.update(before.len() - 1, before.last().push(line))
        }
    }
}

/// The names of the sessions' files, each new among those before it.
pub open spec fn session_names(lines: Seq<Seq<char>>) -> Seq<Seq<char>>
    decreases lines.len(),
{
    if lines.len() == 0 {
        Seq::empty()
    } else {
        let before = session_names(lines.drop_last());
        if is_marker(lines.last()) {
            before.push(names::session_name(lines.last(), before.len() + 1, before.to_set()))
        } else {
            before
        }
    }
}

/// How many bytes `lines` have.
pub open spec fn text_length(lines: Seq<Seq<char>>) -> nat
    decreases lines.len(),
{
    if lines.len() == 0 {
        0
    } else {
        text_length(lines.drop_last()) + encode_utf8(lines.last()).len()
    }
}

/// The file has the name `name` and holds the lines of `session`.
pub open spec fn describes(
    output: SplitOutput,
    name: Seq<char>,
    session: Seq<Seq<char>>,
) -> bool {
    &&& output.name@ == name
    &&& output.lines == session.len()
    &&& output.bytes == text_length(session)
}

/// `line` may follow `lines` in a log: it is not empty, and the counts stay in range.
pub open spec fn countable(lines: Seq<Seq<char>>, line: Seq<char>) -> bool {
    &&& line.len() > 0
    &&& text_length(lines) + encode_utf8(line).len() <= u64::MAX
    &&& sessions(lines).len() < u32::MAX
}

/// How much of a file of `total` bytes has been read, in percent.
pub open spec fn percent_read(read: nat, total: u64) -> u32 {
    let hundredfold = if read * 100 <= u64::MAX {
        (read * 100) as u64
    } else {
        u64::MAX
    };
    (hundredfold / total) as u32
}

/// The progress is told again once it is two percent further.
pub open spec fn is_due(pct: u32, last: u32) -> bool {
    pct >= last + 2
}

// ---- the split --------------------------------------------------------------------

/// A split at work.
pub struct Splitter {
    outputs: Vec<SplitOutput>,
    current: Option<SplitOutput>,
    used: UsedNames,
    count: u32,
    read: u64,
    total: u64,
    last_pct: u32,
    lines: Ghost<Seq<Seq<char>>>,
}

/// A split at work as plain values.
pub struct SplitView {
    /// The lines read so far, with their ends.
    pub lines: Seq<Seq<char>>,
    /// How many bytes the log has.
    pub total: u64,
    /// The percent that was told last.
    pub last_pct: u32,
}

/// What to do with a line.
pub struct LineStep {
    /// The file to start, where the line starts a session.
    pub open: Option<String>,
    /// The line goes to the open file.
    pub write: bool,
    /// The progress to tell.
    pub progress: Option<u32>,
}

impl View for Splitter {
    type V = SplitView;

    closed spec fn view(&self) -> SplitView {
        SplitView { lines: self.lines@, total: self.total, last_pct: self.last_pct }
    }
}

proof fn lemma_text_length_grows(lines: Seq<Seq<char>>, line: Seq<char>)
    ensures
        text_length(lines.push(line)) == text_length(lines) + encode_utf8(line).len(),
{
    assert(lines.push(line).drop_last() =~= lines);
}

/// There are as many names as sessions.
proof fn lemma_counts(lines: Seq<Seq<char>>)
    ensures
        session_names(lines).len() == sessions(lines).len(),
    decreases lines.len(),
{
    if lines.len() > 0 {
        lemma_counts(lines.drop_last());
    }
}

/// No session is larger than what was read.
proof fn lemma_sizes(lines: Seq<Seq<char>>)
    ensures
        forall|i: int|
            0 <= i < sessions(lines).len() ==> {
                &&& (#[trigger] sessions(lines)[i]).len() <= lines.len()
                &&& text_length(sessions(lines)[i]) <= text_length(lines)
            },
    decreases lines.len(),
{
    if lines.len() > 0 {
        let less = lines.drop_last();
        let line = lines.last();
        lemma_sizes(less);
        assert(lines =~= less.push(line));
        assert forall|i: int| 0 <= i < sessions(lines).len() implies {
            &&& (#[trigger] sessions(lines)[i]).len() <= lines.len()
            &&& text_length(sessions(lines)[i]) <= text_length(lines)
        } by {
            if is_marker(line) && i == sessions(lines).len() - 1 {
                lemma_text_length_grows(Seq::empty(), line);
                assert(Seq::<Seq<char>>::empty().push(line) =~= seq![line]);
            } else {
                assert(sessions(less)[i].len() <= less.len());
                if !is_marker(line) && i == sessions(lines).len() - 1 {
                    lemma_text_length_grows(sessions(less)[i], line);
                }
            }
        }
    }
}

/// No line is empty, so there are no more lines than bytes.
proof fn lemma_line_count(lines: Seq<Seq<char>>)
    requires
        forall|i: int| 0 <= i < lines.len() ==> (#[trigger] lines[i]).len() > 0,
    ensures
        lines.len() <= text_length(lines),
    decreases lines.len(),
{
    if lines.len() > 0 {
        let less = lines.drop_last();
        assert forall|i: int| 0 <= i < less.len() implies (#[trigger] less[i]).len() > 0 by {
            assert(lines[i].len() > 0);
        }
        lemma_line_count(less);
        assert(lines[lines.len() - 1].len() > 0);
        text::lemma_encode_char(lines.last()[0]);
    }
}

impl Splitter {
    #[verifier::type_invariant]
    spec fn keeps_count(self) -> bool {
        let sessions = sessions(self.lines@);
        let names = session_names(self.lines@);
        &&& names.len() == sessions.len() == self.count
        &&& self.current is Some <==> self.count > 0
        &&& self.outputs@.len() == (if self.count > 0 {
            self.count - 1
        } else {
            0
        })
        &&& forall|i: int|
            0 <= i < self.outputs@.len() ==> describes(
                #[trigger] self.outputs@[i],
                names[i],
                sessions[i],
            )
        &&& self.current matches Some(output) ==> describes(
            output,
            names[self.count - 1],
            sessions[self.count - 1],
        )
        &&& self.used@ == names.to_set()
        &&& self.read == text_length(self.lines@)
        &&& self.total >= 1
        &&& forall|i: int| 0 <= i < self.lines@.len() ==> (#[trigger] self.lines@[i]).len() > 0
    }

    /// Starts the split of a log of `size` bytes; 0 where its size is not known.
    pub fn new(size: u64) -> (r: Splitter)
        ensures
            r@ == (SplitView {
                lines: Seq::empty(),
                total: if size > 0 {
                    size
                } else {
                    1
                },
                last_pct: 0,
            }),
    {
        let total = if size > 0 {
            size
        } else {
            1
        };
        assert(Seq::<Seq<char>>::empty().to_set() =~= Set::<Seq<char>>::empty());
        Splitter {
            outputs: Vec::new(),
            current: None,
            used: UsedNames::new(),
            count: 0,
            read: 0,
            total,
            last_pct: 0,
            lines: Ghost(Seq::empty()),
        }
    }

    /// Whether `line` can be the next line of the log.
    pub fn accepts(&self, line: &str) -> (r: bool)
        ensures
            r == countable(self@.lines, line@),
    {
        proof {
            use_type_invariant(self);
            if line@.len() > 0 {
                text::lemma_encode_char(line@[0]);
            } else {
                assert(encode_utf8(line@) =~= Seq::<u8>::empty());
            }
        }
        let n = line.as_bytes().len();
        n > 0 && n as u64 <= u64::MAX - self.read && self.count < u32::MAX
    }

    /// Takes the next line of the log, with its end.
    pub fn step(self, line: &str) -> (r: (Splitter, LineStep))
        requires
            countable(self@.lines, line@),
        ensures
            ({
                let lines = self@.lines.push(line@);
                let pct = percent_read(text_length(lines), self@.total);
                let due = is_due(pct, self@.last_pct);
                &&& r.0@.lines == lines
                &&& r.0@.total == self@.total
                &&& r.0@.last_pct == (if due {
                    pct
                } else {
                    self@.last_pct
                })
                &&& r.1.open is Some <==> is_marker(line@)
                &&& r.1.open matches Some(name) ==> name@ == session_names(lines).last()
                &&& r.1.write == (sessions(lines).len() > 0)
                &&& r.1.progress == (if due {
                    Some(pct)
                } else {
                    None
                })
            }),
    {
        proof {
            use_type_invariant(&self);
        }
        let n = line.as_bytes().len() as u64;
        let ghost before = self.lines@;
        let ghost lines = self.lines@.push(line@);
        proof {
            assert(lines.drop_last() =~= before);
            lemma_text_length_grows(before, line@);
            lemma_sizes(before);
            lemma_line_count(before);
            reveal_strlit("COMBAT_LOG_VERSION");
        }
        let read = self.read + n;
        let mut outputs = self.outputs;
        let mut current = self.current;
        let mut used = self.used;
        let mut count = self.count;
        let mut open: Option<String> = None;
        if text::contains(line, "COMBAT_LOG_VERSION") {
            if let Some(output) = current {
                outputs.push(output);
            }
            count = count + 1;
            let name = names::session_filename(line, count, &mut used);
            proof {
                lemma_text_length_grows(Seq::empty(), line@);
                assert(Seq::<Seq<char>>::empty().push(line@) =~= seq![line@]);
                assert(session_names(lines).to_set() =~= session_names(before).to_set().insert(
                    name@,
                )) by {
                    let older = session_names(before);
                    let newer = session_names(lines);
                    assert(newer == older.push(name@));
                    assert forall|s: Seq<char>| newer.to_set().contains(s) implies older.to_set().insert(
                        name@,
                    ).contains(s) by {
                        let i = choose|i: int| 0 <= i < newer.len() && newer[i] == s;
                        if i < older.len() {
                            assert(older[i] == s);
                        }
                    }
                    assert forall|s: Seq<char>| older.to_set().insert(name@).contains(
                        s,
                    ) implies newer.to_set().contains(s) by {
                        if s == name@ {
                            assert(newer[older.len() as int] == s);
                        } else {
                            let i = choose|i: int| 0 <= i < older.len() && older[i] == s;
                            assert(newer[i] == s);
                        }
                    }
                }
            }
            open = Some(name.clone());
            current = Some(SplitOutput { name, lines: 1, bytes: n });
        } else if let Some(output) = current {
            proof {
                lemma_text_length_grows(sessions(before)[count - 1], line@);
                assert(sessions(before)[count - 1].len() <= before.len());
            }
            current = Some(
                SplitOutput {
                    name: output.name,
                    lines: output.lines + 1,
                    bytes: output.bytes + n,
                },
            );
        }
        let write = count > 0;
        let hundredfold: u64 = if read <= u64::MAX / 100 {
            read * 100
        } else {
            u64::MAX
        };
        let pct = (hundredfold / self.total) as u32;
        let mut progress: Option<u32> = None;
        let mut last_pct = self.last_pct;
        if pct as u64 >= last_pct as u64 + 2 {
            last_pct = pct;
            progress = Some(pct);
        }
        let splitter = Splitter {
            outputs,
            current,
            used,
            count,
            read,
            total: self.total,
            last_pct,
            lines: Ghost(lines),
        };
        (splitter, LineStep { open, write, progress })
    }

    /// Ends the split: the files that were written, in order. A log without a marker
    /// line is an error.
    pub fn finish(self) -> (r: Result<Vec<SplitOutput>, &'static str>)
        ensures
            match r {
                Ok(outputs) => {
                    &&& outputs@.len() == sessions(self@.lines).len() > 0
                    &&& forall|i: int|
                        0 <= i < outputs@.len() ==> describes(
                            #[trigger] outputs@[i],
                            session_names(self@.lines)[i],
                            sessions(self@.lines)[i],
                        )
                    &&& forall|i: int|
                        0 <= i < outputs@.len() ==> {
                            &&& (#[trigger] outputs@[i]).name@ == session_names(self@.lines)[i]
                            &&& outputs@[i].lines == sessions(self@.lines)[i].len()
                            &&& outputs@[i].bytes == text_length(sessions(self@.lines)[i])
                        }
                },
                Err(e) => {
                    &&& sessions(self@.lines).len() == 0
                    &&& e@
                        == "No COMBAT_LOG_VERSION markers found — is this a WoW combat log?"@
                },
            },
    {
        proof {
            use_type_invariant(&self);
        }
        let mut outputs = self.outputs;
        match self.current {
            Some(output) => {
                outputs.push(output);
                Ok(outputs)
            },
            None => Err("No COMBAT_LOG_VERSION markers found — is this a WoW combat log?"),
        }
    }
}

/// What the user is told of the progress of a split.
pub fn split_message(pct: u32) -> (r: String)
    ensures
        r@ == "Splitting… "@ + numbers::decimal(pct as nat) + "%"@,
{
    let mut out = "Splitting… ".to_owned();
    numbers::push_decimal(&mut out, pct as u128);
    out.append("%");
    out
}

// ---- laws -------------------------------------------------------------------------

/// The lines from the first marker line on.
pub open spec fn from_marker(lines: Seq<Seq<char>>) -> Seq<Seq<char>>
    decreases lines.len(),
{
    if lines.len() == 0 || is_marker(lines[0]) {
        lines
    } else {
        from_marker(lines.drop_first())
    }
}

/// The lines of all sessions, one session behind the other.
pub open spec fn joined(sessions: Seq<Seq<Seq<char>>>) -> Seq<Seq<char>>
    decreases sessions.len(),
{
    if sessions.len() == 0 {
        Seq::empty()
    } else {
        joined(sessions.drop_last()) + sessions.last()
    }
}

/// How many bytes the files of all sessions have.
pub open spec fn files_length(sessions: Seq<Seq<Seq<char>>>) -> nat
    decreases sessions.len(),
{
    if sessions.len() == 0 {
        0
    } else {
        files_length(sessions.drop_last()) + text_length(sessions.last())
    }
}

proof fn lemma_from_marker_grows(lines: Seq<Seq<char>>, line: Seq<char>)
    ensures
        from_marker(lines.push(line)) == (if from_marker(lines).len() > 0 || is_marker(line) {
            from_marker(lines).push(line)
        } else {
            Seq::empty()
        }),
    decreases lines.len(),
{
    let more = lines.push(line);
    if lines.len() == 0 {
        reveal_with_fuel(from_marker, 2);
        assert(more.drop_first() =~= Seq::<Seq<char>>::empty());
    } else if !is_marker(lines[0]) {
        assert(more.drop_first() =~= lines.drop_first().push(line));
        lemma_from_marker_grows(lines.drop_first(), line);
    }
}

/// The sessions are the log from its first marker line on: every line is in one
/// file, in its place, and only the lines before the first marker are dropped.
pub proof fn sessions_lose_nothing(lines: Seq<Seq<char>>)
    ensures
        joined(sessions(lines)) == from_marker(lines),
    decreases lines.len(),
{
    if lines.len() > 0 {
        let less = lines.drop_last();
        let line = lines.last();
        let before = sessions(less);
        let after = sessions(lines);
        sessions_lose_nothing(less);
        lemma_from_marker_grows(less, line);
        assert(lines =~= less.push(line));
        if is_marker(line) {
            assert(after.drop_last() =~= before);
            assert(joined(after) =~= joined(before).push(line));
        } else if before.len() > 0 {
            sessions_start_at_markers(less);
            assert(before[before.len() - 1].len() > 0);
            assert(after.drop_last() =~= before.drop_last());
            assert(joined(after) =~= joined(before).push(line));
        }
    }
}

/// A session starts with a marker line and has no other.
pub proof fn sessions_start_at_markers(lines: Seq<Seq<char>>)
    ensures
        forall|i: int|
            0 <= i < sessions(lines).len() ==> {
                &&& (#[trigger] sessions(lines)[i]).len() > 0
                &&& is_marker(sessions(lines)[i][0])
                &&& forall|j: int|
                    0 < j < sessions(lines)[i].len() ==> !is_marker(
                        #[trigger] sessions(lines)[i][j],
                    )
            },
    decreases lines.len(),
{
    if lines.len() > 0 {
        let less = lines.drop_last();
        let line = lines.last();
        sessions_start_at_markers(less);
        let before = sessions(less);
        let after = sessions(lines);
        assert forall|i: int| 0 <= i < after.len() implies {
            &&& (#[trigger] after[i]).len() > 0
            &&& is_marker(after[i][0])
            &&& forall|j: int| 0 < j < after[i].len() ==> !is_marker(#[trigger] after[i][j])
        } by {
            if i < before.len() {
                assert(before[i].len() > 0);
                assert forall|j: int| 0 < j < after[i].len() implies !is_marker(
                    #[trigger] after[i][j],
                ) by {
                    if j < before[i].len() {
                        assert(after[i][j] == before[i][j]);
                    }
                }
            }
        }
    }
}

proof fn lemma_joined_length(sessions: Seq<Seq<Seq<char>>>)
    ensures
        files_length(sessions) == text_length(joined(sessions)),
    decreases sessions.len(),
{
    if sessions.len() > 0 {
        lemma_joined_length(sessions.drop_last());
        lemma_concat_length(joined(sessions.drop_last()), sessions.last());
    }
}

proof fn lemma_concat_length(a: Seq<Seq<char>>, b: Seq<Seq<char>>)
    ensures
        text_length(a + b) == text_length(a) + text_length(b),
    decreases b.len(),
{
    if b.len() == 0 {
        assert(a + b =~= a);
    } else {
        lemma_concat_length(a, b.drop_last());
        assert((a + b).drop_last() =~= a + b.drop_last());
    }
}

/// The files together have as many bytes as the log has from its first marker line
/// on.
pub proof fn files_are_as_long_as_the_log(lines: Seq<Seq<char>>)
    ensures
        files_length(sessions(lines)) == text_length(from_marker(lines)),
{
    sessions_lose_nothing(lines);
    lemma_joined_length(sessions(lines));
}

/// No two sessions get the same file.
pub proof fn session_names_are_distinct(lines: Seq<Seq<char>>)
    ensures
        session_names(lines).no_duplicates(),
    decreases lines.len(),
{
    if lines.len() > 0 {
        let less = lines.drop_last();
        session_names_are_distinct(less);
        let before = session_names(less);
        if is_marker(lines.last()) {
            let base = names::session_base(lines.last(), before.len() + 1);
            vstd::seq_lib::seq_to_set_is_finite(before);
            names::a_name_is_free(before.to_set(), base, ".txt"@);
            let name = names::session_name(lines.last(), before.len() + 1, before.to_set());
            assert(!before.to_set().contains(name));
            assert forall|i: int| 0 <= i < before.len() implies before[i] != name by {
                if before[i] == name {
                    assert(before.to_set().contains(before[i]));
                }
            }
        }
    }
}

/// A log without a marker line is the only one without a session.
pub proof fn logs_with_a_marker_have_sessions(lines: Seq<Seq<char>>)
    ensures
        sessions(lines).len() == 0 <==> forall|i: int|
            0 <= i < lines.len() ==> !is_marker(#[trigger] lines[i]),
    decreases lines.len(),
{
    if lines.len() > 0 {
        let less = lines.drop_last();
        logs_with_a_marker_have_sessions(less);
        if sessions(lines).len() == 0 {
            assert forall|i: int| 0 <= i < lines.len() implies !is_marker(#[trigger] lines[i]) by {
                if i < less.len() {
                    assert(!is_marker(less[i]));
                }
            }
        }
        if forall|i: int| 0 <= i < lines.len() ==> !is_marker(#[trigger] lines[i]) {
            assert forall|i: int| 0 <= i < less.len() implies !is_marker(#[trigger] less[i]) by {
                assert(!is_marker(lines[i]));
            }
            assert(!is_marker(lines[lines.len() - 1]));
        }
    }
}

// ---- sessions and the text of the log -----------------------------------------------------

/// How many of `lines` hold the text `COMBAT_LOG_VERSION`.
pub open spec fn version_lines(lines: Seq<Seq<char>>) -> nat
    decreases lines.len(),
{
    if lines.len() == 0 {
        0
    } else {
        version_lines(lines.drop_last()) + (if text::contains_text(
            lines.last(),
            "COMBAT_LOG_VERSION"@,
        ) {
            1nat
        } else {
            0nat
        })
    }
}

/// There are as many sessions, and as many files, as lines with the text
/// `COMBAT_LOG_VERSION`.
pub proof fn version_lines_make_sessions(lines: Seq<Seq<char>>)
    ensures
        sessions(lines).len() == version_lines(lines),
        session_names(lines).len() == version_lines(lines),
    decreases lines.len(),
{
    if lines.len() > 0 {
        version_lines_make_sessions(lines.drop_last());
    }
}

/// The first line of a session holds the text `COMBAT_LOG_VERSION`, and no other line of
/// it does.
pub proof fn sessions_start_at_version_lines(lines: Seq<Seq<char>>, i: int, j: int)
    requires
        0 <= i < sessions(lines).len(),
        0 <= j < sessions(lines)[i].len(),
    ensures
        text::contains_text(sessions(lines)[i][j], "COMBAT_LOG_VERSION"@) <==> j == 0,
{
    sessions_start_at_markers(lines);
    assert(sessions(lines)[i].len() > 0);
    if j > 0 {
        assert(!is_marker(sessions(lines)[i][j]));
    }
}

/// The files hold the log but for the lines before its first line with the text
/// `COMBAT_LOG_VERSION`, line by line and in order.
pub proof fn files_hold_the_log(lines: Seq<Seq<char>>, before: Seq<Seq<char>>, rest: Seq<Seq<char>>)
    requires
        lines == before + rest,
        forall|i: int|
            0 <= i < before.len() ==> !text::contains_text(
                #[trigger] before[i],
                "COMBAT_LOG_VERSION"@,
            ),
        rest.len() > 0 ==> text::contains_text(rest[0], "COMBAT_LOG_VERSION"@),
    ensures
        joined(sessions(lines)) == rest,
    decreases before.len(),
{
    sessions_lose_nothing(lines);
    lemma_from_first(lines, before, rest);
}

proof fn lemma_from_first(lines: Seq<Seq<char>>, before: Seq<Seq<char>>, rest: Seq<Seq<char>>)
    requires
        lines == before + rest,
        forall|i: int| 0 <= i < before.len() ==> !is_marker(#[trigger] before[i]),
        rest.len() > 0 ==> is_marker(rest[0]),
    ensures
        from_marker(lines) == rest,
    decreases before.len(),
{
    if before.len() == 0 {
        assert(lines =~= rest);
    } else {
        assert(lines[0] == before[0]);
        assert(lines.drop_first() =~= before.drop_first() + rest);
        assert forall|i: int| 0 <= i < before.drop_first().len() implies !is_marker(
            #[trigger] before.drop_first()[i],
        ) by {
            assert(!is_marker(before[i + 1]));
        }
        lemma_from_first(lines.drop_first(), before.drop_first(), rest);
    }
}

/// Each file is named after the first line of its session and the session's number, and
/// is new among the names of the files before it.
pub proof fn files_are_named_after_their_sessions(lines: Seq<Seq<char>>, i: int)
    requires
        0 <= i < sessions(lines).len(),
    ensures
        i < session_names(lines).len(),
        sessions(lines)[i].len() > 0,
        session_names(lines)[i] == names::session_name(
            sessions(lines)[i][0],
            (i + 1) as nat,
            session_names(lines).take(i).to_set(),
        ),
    decreases lines.len(),
{
    lemma_counts(lines);
    sessions_start_at_markers(lines);
    assert(sessions(lines)[i].len() > 0);
    if lines.len() > 0 {
        let less = lines.drop_last();
        let before = sessions(less);
        lemma_counts(less);
        sessions_start_at_markers(less);
        if i < before.len() {
            files_are_named_after_their_sessions(less, i);
            assert(before[i].len() > 0);
            assert(sessions(lines)[i][0] == before[i][0]);
            assert(session_names(lines).take(i) =~= session_names(less).take(i));
        } else {
            assert(session_names(lines).take(i) =~= session_names(less));
        }
    }
}

/// A log that goes on: what was cut stays as it is, and a line goes to a new session or to
/// the end of the last one.
pub proof fn sessions_grow_at_the_end(lines: Seq<Seq<char>>, line: Seq<char>)
    ensures
        ({
            let before = sessions(lines);
            let after = sessions(lines.push(line));
            let starts = text::contains_text(line, "COMBAT_LOG_VERSION"@);
            &&& starts ==> after == before.push(seq![line])
            &&& !starts && before.len() == 0 ==> after == before
            &&& !starts && before.len() > 0 ==> after == before.drop_last().push(
                before.last().push(line),
            )
            &&& session_names(lines).is_prefix_of(session_names(lines.push(line)))
        }),
{
    let before = sessions(lines);
    assert(lines.push(line).drop_last() =~= lines);
    if before.len() > 0 {
        assert(before.update(before.len() - 1, before.last().push(line))
            =~= before.drop_last().push(before.last().push(line)));
    }
    assert(session_names(lines) =~= session_names(lines.push(line)).subrange(
        0,
        session_names(lines).len() as int,
    ));
}

/// The bytes of `lines` in one.
pub open spec fn bytes_of(lines: Seq<Seq<char>>) -> Seq<u8>
    decreases lines.len(),
{
    if lines.len() == 0 {
        Seq::empty()
    } else {
        bytes_of(lines.drop_last()) + encode_utf8(lines.last())
    }
}

/// The length of lines is that of their bytes.
pub proof fn lengths_are_in_bytes(lines: Seq<Seq<char>>)
    ensures
        text_length(lines) == bytes_of(lines).len(),
    decreases lines.len(),
{
    if lines.len() > 0 {
        lengths_are_in_bytes(lines.drop_last());
    }
}

/// The progress is the share of the bytes read in whole percents, and it is told when it
/// is at least two percents further than when it was told last.
pub proof fn progress_is_the_share_of_bytes(read: nat, total: u64, last: u32)
    requires
        total > 0,
        read <= total,
        total <= u64::MAX / 100,
    ensures
        percent_read(read, total) <= 100,
        percent_read(read, total) * total <= read * 100 < (percent_read(read, total) + 1) * total,
        is_due(percent_read(read, total), last) <==> percent_read(read, total) >= last + 2,
{
    let q = (read * 100) as u64 / total;
    assert(q * total <= read * 100 < (q + 1) * total && q <= 100) by (nonlinear_arith)
        requires
            q == (read * 100) as u64 / total,
            (read * 100) as u64 == read * 100,
            0 < total,
            read <= total,
    ;
}

/// The progress does not fall while a log is read, whatever its size.
pub proof fn progress_does_not_fall(read: nat, later: nat, total: u64)
    requires
        0 < total,
        read <= later,
        later * 100 / total as nat <= u32::MAX,
    ensures
        percent_read(read, total) <= percent_read(later, total),
{
    let a: u64 = if read * 100 <= u64::MAX {
        (read * 100) as u64
    } else {
        u64::MAX
    };
    let b: u64 = if later * 100 <= u64::MAX {
        (later * 100) as u64
    } else {
        u64::MAX
    };
    assert(a <= b);
    assert(a / total <= b / total <= later * 100 / total as nat) by (nonlinear_arith)
        requires
            a <= b,
            b <= later * 100,
            0 < total,
    ;
}

/// The share of a log that has been read, whatever its size: a hundredfold that does not
/// fit counts as the largest number that does.
pub proof fn progress_of_huge_logs_is_cut(read: nat, total: u64)
    requires
        total > 0,
    ensures
        read * 100 <= 0xffff_ffff_ffff_ffff ==> percent_read(read, total) == ((read * 100) as int / (
        total as int)) as u32,
        read * 100 > 0xffff_ffff_ffff_ffff ==> percent_read(read, total) == (
        0xffff_ffff_ffff_ffffint / (total as int)) as u32,
{
}

/// The text `COMBAT_LOG_VERSION`, wherever it stands in a line, makes it start a session,
/// and nothing else does.
pub proof fn version_texts_mark_lines(line: Seq<char>, front: Seq<char>, back: Seq<char>)
    ensures
        is_marker(front + "COMBAT_LOG_VERSION"@ + back),
        is_marker(line) <==> exists|f: Seq<char>, b: Seq<char>|
            line == #[trigger] (f + "COMBAT_LOG_VERSION"@ + b),
{
    text::texts_stand_between(line, front, "COMBAT_LOG_VERSION"@, back);
}

/// The progress is told where it is two percent or more beyond what was told last.
pub proof fn progress_is_told_every_two_percent(pct: u32, last: u32)
    ensures
        is_due(pct, last) <==> pct - last >= 2,
{
}

} // verus!
