//! The two regular expressions of the library, run by the `regex` crate.

use regex::{Captures, Regex};
use vstd::prelude::*;

use crate::numbers;

verus! {

/// The file name of a combat log: the standard log or one of the dated files
/// that the game writes for each session.
pub const LOG_FILE_PATTERN: &'static str = r"^WoWCombatLog.*\.txt$";

/// The date and time at the front of a log line: month, day, year, hour, minute
/// and second.
pub const STAMP_PATTERN: &'static str =
    r"^(\d{1,2})/(\d{1,2})/(\d{2,4})\s+(\d{1,2}):(\d{2}):(\d{2})";

/// `regex::Regex`.
#[verifier::external_type_specification]
#[verifier::external_body]
pub struct ExRegex(regex::Regex);

/// `regex::Error`.
#[verifier::external_type_specification]
#[verifier::external_body]
pub struct ExRegexError(regex::Error);

/// `regex::Captures`.
#[verifier::external_type_specification]
#[verifier::external_body]
pub struct ExCaptures<'h>(regex::Captures<'h>);

/// The regular expression that a pattern is compiled to.
pub uninterp spec fn compiled(pattern: Seq<char>) -> Regex;

/// Whether a regular expression matches somewhere in a text.
pub uninterp spec fn regex_matches(re: Regex, text: Seq<char>) -> bool;

/// The groups of the first match of a regular expression in a text, the whole
/// match at index 0; a group that took no part in the match is absent.
pub uninterp spec fn regex_groups(re: Regex, text: Seq<char>) -> Option<
    Seq<Option<Seq<char>>>,
>;

/// The groups that a set of captures holds.
pub uninterp spec fn captured(captures: Captures) -> Seq<Option<Seq<char>>>;

/// `text` is `WoWCombatLog`, then anything on one line, then `.txt`.
pub open spec fn is_log_name(text: Seq<char>) -> bool {
    let front = "WoWCombatLog"@;
    let back = ".txt"@;
    &&& text.len() >= front.len() + back.len()
    &&& text.take(front.len() as int) == front
    &&& text.skip(text.len() - back.len()) == back
    &&& !text.contains('\n')
}

/// The parts of a date and time at the front of a log line.
pub struct Stamp {
    pub month: Seq<char>,
    pub day: Seq<char>,
    pub year: Seq<char>,
    pub space: Seq<char>,
    pub hour: Seq<char>,
    pub minute: Seq<char>,
    pub second: Seq<char>,
}

/// A date and time as it is written: `month/day/year`, white space, and
/// `hour:minute:second`.
pub open spec fn front_of(p: Stamp) -> Seq<char> {
    p.month + seq!['/'] + p.day + seq!['/'] + p.year + p.space + p.hour + seq![':'] + p.minute
        + seq![':'] + p.second
}

/// The character is white space.
pub open spec fn is_space(c: char) -> bool {
    let n = c as u32;
    ||| 0x9 <= n <= 0xd
    ||| n == 0x20
    ||| n == 0x85
    ||| n == 0xa0
    ||| n == 0x1680
    ||| 0x2000 <= n <= 0x200a
    ||| 0x2028 <= n <= 0x2029
    ||| n == 0x202f
    ||| n == 0x205f
    ||| n == 0x3000
}

/// Each part is as long as `STAMP_PATTERN` lets it be, and there is white space between
/// the date and the time.
pub open spec fn is_sized(p: Stamp) -> bool {
    &&& 1 <= p.month.len() <= 2
    &&& 1 <= p.day.len() <= 2
    &&& 2 <= p.year.len() <= 4
    &&& p.space.len() >= 1
    &&& forall|i: int| 0 <= i < p.space.len() ==> is_space(#[trigger] p.space[i])
    &&& 1 <= p.hour.len() <= 2
    &&& p.minute.len() == 2
    &&& p.second.len() == 2
}

/// The text has no ASCII characters but digits.
pub open spec fn is_numeric(text: Seq<char>) -> bool {
    forall|i: int|
        0 <= i < text.len() && (#[trigger] text[i] as u32) < 0x80 ==> numbers::is_digit(text[i])
}

/// A date and time with numbers in any script.
pub open spec fn is_stamp(p: Stamp) -> bool {
    &&& is_sized(p)
    &&& is_numeric(p.month)
    &&& is_numeric(p.day)
    &&& is_numeric(p.year)
    &&& is_numeric(p.hour)
    &&& is_numeric(p.minute)
    &&& is_numeric(p.second)
}

/// A date and time with ASCII digits.
pub open spec fn is_plain(p: Stamp) -> bool {
    &&& is_sized(p)
    &&& numbers::all_digits(p.month)
    &&& numbers::all_digits(p.day)
    &&& numbers::all_digits(p.year)
    &&& numbers::all_digits(p.hour)
    &&& numbers::all_digits(p.minute)
    &&& numbers::all_digits(p.second)
}

/// `text` begins with `front`.
pub open spec fn begins(text: Seq<char>, front: Seq<char>) -> bool {
    front.len() <= text.len() && text.take(front.len() as int) == front
}

/// The groups of a match of `STAMP_PATTERN`, the whole match first.
pub open spec fn groups_of(p: Stamp) -> Seq<Option<Seq<char>>> {
    seq![
        Some(front_of(p)),
        Some(p.month),
        Some(p.day),
        Some(p.year),
        Some(p.hour),
        Some(p.minute),
        Some(p.second),
    ]
}

/// What `STAMP_PATTERN` finds in a text: a match is a date and time at the front of the
/// text, and one with ASCII digits is found.
pub open spec fn finds_stamp(text: Seq<char>, groups: Option<Seq<Option<Seq<char>>>>) -> bool {
    &&& groups matches Some(g) ==> exists|p: Stamp| #[trigger]
        is_stamp(p) && begins(text, front_of(p)) && g == groups_of(p)
    &&& forall|p: Stamp| #[trigger]
        is_plain(p) && begins(text, front_of(p)) ==> groups == Some(groups_of(p))
}

/// The groups that a search found.
pub open spec fn found(captures: Option<Captures>) -> Option<Seq<Option<Seq<char>>>> {
    match captures {
        Some(c) => Some(captured(c)),
        None => None,
    }
}

/// `regex::Regex::new`: compiles a pattern with the default settings. The two
/// patterns of this module are well-formed and small, so they compile; of other
/// patterns nothing is said but what comes back where they do.
#[verifier::external_body]
pub(crate) fn compile(pattern: &str) -> (r: Result<Regex, regex::Error>)
    ensures
        r matches Ok(re) ==> re == compiled(pattern@),
        pattern@ == LOG_FILE_PATTERN@ || pattern@ == STAMP_PATTERN@ ==> r is Ok,
{
    Regex::new(pattern)
}

/// `regex::Regex::is_match`: whether the expression matches somewhere in `text`.
/// `LOG_FILE_PATTERN` is anchored at both ends, and its dot stands for any
/// character but a line feed.
#[verifier::external_body]
pub(crate) fn is_match(re: &Regex, text: &str) -> (r: bool)
    ensures
        r == regex_matches(*re, text@),
        *re == compiled(LOG_FILE_PATTERN@) ==> r == is_log_name(text@),
{
    re.is_match(text)
}

/// `regex::Regex::captures`: the groups of the first match in `text`. `STAMP_PATTERN`
/// is anchored at the front, so a match is a front of the text, made of its parts in
/// turn: its `\d` is any decimal digit, of which 0 to 9 are the ASCII ones, and its
/// `\s` is any white space. No digit is a slash, a colon or white space, so a date and
/// time can be matched in one way only.
#[verifier::external_body]
pub(crate) fn captures<'h>(re: &Regex, text: &'h str) -> (r: Option<Captures<'h>>)
    ensures
        found(r) == regex_groups(*re, text@),
        *re == compiled(STAMP_PATTERN@) ==> finds_stamp(text@, found(r)),
{
    re.captures(text)
}

/// `regex::Captures::get`, as text: the group at `index`, where there is one and
/// it took part in the match.
#[verifier::external_body]
pub(crate) fn group<'h>(captures: &Captures<'h>, index: usize) -> (r: Option<&'h str>)
    ensures
        match r {
            Some(text) => index < captured(*captures).len() && captured(*captures)[index as int]
                == Some(text@),
            None => index >= captured(*captures).len() || captured(*captures)[index as int]
                is None,
        },
{
    captures.get(index).map(|found| found.as_str())
}

} // verus!
