//! The search for the log that the game is writing.

use regex::Regex;
use vstd::prelude::*;

use crate::pattern;

verus! {

broadcast use {vstd::string::group_string_axioms, vstd::seq::group_seq_axioms};

/// A log that has not been written for longer than this is over, in nanoseconds.
pub const MAX_FILE_AGE_NS: u128 = 21_600_000_000_000;

/// An entry of a directory.
pub struct DirEntry {
    /// Its name, where that is text.
    pub name: Option<String>,
    /// It is a file; false where that cannot be told.
    pub is_file: bool,
    /// When it was last written, in nanoseconds since some fixed time, where that is
    /// known.
    pub modified: Option<i128>,
    /// How long ago that is, in nanoseconds; none for a time in the future.
    pub age: Option<u128>,
}

/// What a pattern takes for the name of a log; the one of `log_pattern` takes the
/// names of combat logs.
pub open spec fn is_named(re: Regex, name: Seq<char>) -> bool {
    if re == pattern::compiled(pattern::LOG_FILE_PATTERN@) {
        pattern::is_log_name(name)
    } else {
        pattern::regex_matches(re, name)
    }
}

/// The entry is a log that was written lately.
pub open spec fn eligible(re: Regex, entry: DirEntry) -> bool {
    &&& entry.name matches Some(name) && is_named(re, name@)
    &&& entry.is_file
    &&& entry.modified is Some
    &&& entry.age matches Some(age) ==> age <= MAX_FILE_AGE_NS
}

/// Entry `i` is the newest of the logs written lately, and the first of those
/// that are equally new.
pub open spec fn is_newest(re: Regex, entries: Seq<DirEntry>, i: int) -> bool {
    &&& 0 <= i < entries.len()
    &&& eligible(re, entries[i])
    &&& forall|j: int|
        0 <= j < entries.len() && eligible(re, #[trigger] entries[j]) ==> {
            &&& entries[j].modified->0 <= entries[i].modified->0
            &&& j < i ==> entries[j].modified->0 < entries[i].modified->0
        }
}

/// Compiles the pattern of a combat log's file name.
pub fn log_pattern() -> (r: Result<Regex, regex::Error>)
    ensures
        r matches Ok(re) && re == pattern::compiled(pattern::LOG_FILE_PATTERN@),
{
    pattern::compile(pattern::LOG_FILE_PATTERN)
}

/// Whether the entry is a log that was written lately, and when.
fn written(re: &Regex, entry: &DirEntry) -> (r: Option<i128>)
    ensures
        r is Some <==> eligible(*re, *entry),
        r is Some ==> r == entry.modified,
{
    let is_log = match &entry.name {
        Some(name) => pattern::is_match(re, name.as_str()),
        None => false,
    };
    if !is_log || !entry.is_file {
        return None;
    }
    if let Some(age) = entry.age {
        if age > MAX_FILE_AGE_NS {
            return None;
        }
    }
    entry.modified
}

/// The newest log of a directory: the index of its entry. A log that has not
/// been written for long is passed over, and one from the future is not.
pub fn find_newest_log(re: &Regex, entries: &Vec<DirEntry>) -> (r: Option<usize>)
    ensures
        match r {
            Some(i) => is_newest(*re, entries@, i as int),
            None => forall|j: int| 0 <= j < entries@.len() ==> !eligible(*re, #[trigger] entries@[j]),
        },
{
    let mut newest: Option<(i128, usize)> = None;
    let mut i: usize = 0;
    while i < entries.len()
        invariant
            i <= entries@.len(),
            match newest {
                Some((time, at)) => {
                    &&& at < i
                    &&& is_newest(*re, entries@.take(i as int), at as int)
                    &&& entries@[at as int].modified == Some(time)
                },
                None => forall|j: int| 0 <= j < i ==> !eligible(*re, #[trigger] entries@[j]),
            },
        decreases entries@.len() - i,
    {
        let ghost seen = entries@.take(i as int);
        let ghost more = entries@.take(i + 1);
        let written = written(re, &entries[i]);
        proof {
            assert(forall|j: int| 0 <= j < i ==> more[j] == #[trigger] seen[j]);
            assert(forall|j: int| 0 <= j < i ==> seen[j] == #[trigger] entries@[j]);
            assert(forall|j: int| 0 <= j <= i ==> #[trigger] more[j] == entries@[j]);
        }
        if let Some(time) = written {
            let newer = match newest {
                Some((latest, _)) => time > latest,
                None => true,
            };
            if newer {
                newest = Some((time, i));
            }
        }
        i += 1;
    }
    assert(entries@.take(i as int) =~= entries@);
    match newest {
        Some((_, at)) => Some(at),
        None => None,
    }
}

/// There is at most one newest log.
pub proof fn the_newest_log_is_one(re: Regex, entries: Seq<DirEntry>, a: int, b: int)
    requires
        is_newest(re, entries, a),
        is_newest(re, entries, b),
    ensures
        a == b,
{
}

/// The newest log is a file with the name of a combat log, written within six hours or
/// after now; none like it was written later, and none before it in the directory was
/// written at the same time. One that meets all this is the newest.
pub proof fn the_newest_log_was_written_last(entries: Seq<DirEntry>, i: int)
    requires
        0 <= i < entries.len(),
    ensures
        ({
            let re = pattern::compiled(pattern::LOG_FILE_PATTERN@);
            let live = |e: DirEntry|
                {
                    &&& e.name matches Some(name) && pattern::is_log_name(name@)
                    &&& e.is_file
                    &&& e.modified is Some
                    &&& e.age is None || e.age->0 <= 21_600_000_000_000
                };
            &&& forall|j: int|
                0 <= j < entries.len() ==> live(#[trigger] entries[j]) == eligible(re, entries[j])
            &&& is_newest(re, entries, i) <==> live(entries[i]) && forall|j: int|
                0 <= j < entries.len() && live(#[trigger] entries[j]) ==> {
                    ||| entries[j].modified->0 < entries[i].modified->0
                    ||| entries[j].modified->0 == entries[i].modified->0 && i <= j
                }
        }),
{
    let re = pattern::compiled(pattern::LOG_FILE_PATTERN@);
    assert(forall|j: int|
        0 <= j < entries.len() ==> #[trigger] eligible(re, entries[j]) == ({
            &&& entries[j].name matches Some(name) && pattern::is_log_name(name@)
            &&& entries[j].is_file
            &&& entries[j].modified is Some
            &&& entries[j].age is None || entries[j].age->0 <= 21_600_000_000_000
        }));
}

/// The name of a combat log is `WoWCombatLog`, anything on one line, and `.txt`.
pub proof fn log_names_have_a_front_and_a_back(middle: Seq<char>, name: Seq<char>)
    ensures
        !middle.contains('\n') ==> pattern::is_log_name("WoWCombatLog"@ + middle + ".txt"@),
        pattern::is_log_name(name) ==> exists|m: Seq<char>|
            name == #[trigger] ("WoWCombatLog"@ + m + ".txt"@),
        name.contains('\n') ==> !pattern::is_log_name(name),
{
    reveal_strlit("WoWCombatLog");
    reveal_strlit(".txt");
    let whole = "WoWCombatLog"@ + middle + ".txt"@;
    assert(whole.take(12) =~= "WoWCombatLog"@);
    assert(whole.skip(whole.len() - 4) =~= ".txt"@);
    if !middle.contains('\n') {
        assert forall|k: int| 0 <= k < whole.len() implies whole[k] != '\n' by {
            if 12 <= k < whole.len() - 4 {
                assert(whole[k] == middle[k - 12]);
            }
        }
    }
    if pattern::is_log_name(name) {
        let m = name.subrange(12, name.len() - 4);
        assert(name =~= name.take(12) + m + name.skip(name.len() - 4));
        assert(name == "WoWCombatLog"@ + m + ".txt"@);
    }
}

} // verus!
