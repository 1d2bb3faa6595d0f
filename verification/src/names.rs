//! Names for output files that never repeat within a run.

use vstd::hash_set::StringHashSet;
use vstd::prelude::*;

use crate::numbers;
use crate::pattern;
use crate::pattern::Stamp;

verus! {

broadcast use {
    vstd::string::group_string_axioms,
    vstd::seq::group_seq_axioms,
    vstd::set::group_set_axioms,
};

/// The file names that a run has given out.
pub struct UsedNames {
    names: StringHashSet,
}

impl View for UsedNames {
    type V = Set<Seq<char>>;

    closed spec fn view(&self) -> Set<Seq<char>> {
        self.names@
    }
}

impl UsedNames {
    #[verifier::type_invariant]
    spec fn finite(self) -> bool {
        self.names@.finite()
    }

    /// No names given out yet.
    pub fn new() -> (r: UsedNames)
        ensures
            r@ == Set::<Seq<char>>::empty(),
    {
        UsedNames { names: StringHashSet::new() }
    }

    /// Whether `name` has been given out.
    pub fn contains(&self, name: &str) -> (r: bool)
        ensures
            r == self@.contains(name@),
    {
        self.names.contains(name)
    }

    /// How many names have been given out.
    pub fn len(&self) -> (r: usize)
        ensures
            r == self@.len(),
    {
        self.names.len()
    }

    /// Records `name` as given out.
    pub fn insert(&mut self, name: String)
        ensures
            final(self)@ == old(self)@.insert(name@),
    {
        proof {
            use_type_invariant(&*self);
        }
        let mut names = StringHashSet::new();
        std::mem::swap(&mut names, &mut self.names);
        names.insert(name);
        self.names = names;
    }
}

/// The name of candidate `k`: the base alone first, then with a number from 2 on.
pub open spec fn numbered(base: Seq<char>, k: nat, extension: Seq<char>) -> Seq<char> {
    if k <= 1 {
        base + extension
    } else {
        base.push('_') + numbers::decimal(k) + extension
    }
}

/// Candidate `k` is the first, from `from` on, whose name is not in `used`.
pub open spec fn first_free(
    used: Set<Seq<char>>,
    base: Seq<char>,
    from: nat,
    k: nat,
    extension: Seq<char>,
) -> bool {
    &&& k >= from
    &&& !used.contains(numbered(base, k, extension))
    &&& forall|j: nat| from <= j < k ==> used.contains(#[trigger] numbered(base, j, extension))
}

/// Different candidates have different names.
pub proof fn numbered_injective(base: Seq<char>, a: nat, b: nat, extension: Seq<char>)
    requires
        1 <= a < b,
    ensures
        numbered(base, a, extension) != numbered(base, b, extension),
{
    let x = numbered(base, a, extension);
    let y = numbered(base, b, extension);
    numbers::decimal_round_trip(b);
    if a == 1 {
        assert(x.len() == base.len() + extension.len());
        assert(y.len() == base.len() + 1 + numbers::decimal(b).len() + extension.len());
    } else if x == y {
        let n = base.len() as int + 1;
        let m = numbers::decimal(a).len() as int;
        assert(x.len() == n + m + extension.len());
        assert(y.len() == n + numbers::decimal(b).len() + extension.len());
        assert(x.subrange(n, n + m) =~= numbers::decimal(a));
        assert(y.subrange(n, n + m) =~= numbers::decimal(b));
        numbers::decimal_injective(a, b);
    }
}

/// The names of the candidates from `from` on, below `to`.
spec fn candidates(base: Seq<char>, from: nat, to: nat, extension: Seq<char>) -> Set<Seq<char>>
    decreases to,
{
    if to <= from {
        Set::empty()
    } else {
        let last = (to - 1) as nat;
        candidates(base, from, last, extension).insert(numbered(base, last, extension))
    }
}

proof fn lemma_candidates(base: Seq<char>, from: nat, to: nat, extension: Seq<char>)
    requires
        1 <= from <= to,
    ensures
        candidates(base, from, to, extension).finite(),
        candidates(base, from, to, extension).len() == to - from,
        forall|s: Seq<char>|
            candidates(base, from, to, extension).contains(s) ==> exists|j: nat|
                from <= j < to && s == #[trigger] numbered(base, j, extension),
    decreases to,
{
    if to > from {
        let last = (to - 1) as nat;
        lemma_candidates(base, from, last, extension);
        let less = candidates(base, from, last, extension);
        let name = numbered(base, last, extension);
        assert(!less.contains(name)) by {
            if less.contains(name) {
                let j = choose|j: nat|
                    from <= j < last && name == #[trigger] numbered(base, j, extension);
                numbered_injective(base, j, last, extension);
            }
        }
        assert forall|s: Seq<char>|
            candidates(base, from, to, extension).contains(s) implies exists|j: nat|
            from <= j < to && s == #[trigger] numbered(base, j, extension) by {
            if less.contains(s) {
                let j = choose|j: nat|
                    from <= j < last && s == #[trigger] numbered(base, j, extension);
                assert(from <= j < to && s == numbered(base, j, extension));
            } else {
                assert(from <= last < to && s == numbered(base, last, extension));
            }
        }
    }
}

/// A set that holds all candidates from `from` on, below `to`, has that many names.
proof fn lemma_candidates_fill(
    used: Set<Seq<char>>,
    base: Seq<char>,
    from: nat,
    to: nat,
    extension: Seq<char>,
)
    requires
        1 <= from <= to,
        used.finite(),
        forall|j: nat| from <= j < to ==> used.contains(#[trigger] numbered(base, j, extension)),
    ensures
        to - from <= used.len(),
{
    lemma_candidates(base, from, to, extension);
    assert(candidates(base, from, to, extension).subset_of(used));
    vstd::set_lib::lemma_len_subset(candidates(base, from, to, extension), used);
}

proof fn lemma_find_free(used: Set<Seq<char>>, base: Seq<char>, from: nat, k: nat, extension: Seq<char>)
    requires
        used.finite(),
        1 <= from <= k,
        forall|j: nat| from <= j < k ==> used.contains(#[trigger] numbered(base, j, extension)),
    ensures
        exists|n: nat| #[trigger] first_free(used, base, from, n, extension),
    decreases used.len() + from + 1 - k,
{
    if used.contains(numbered(base, k, extension)) {
        assert forall|j: nat| from <= j < k + 1 implies used.contains(
            #[trigger] numbered(base, j, extension),
        ) by {
            if j == k {
            }
        }
        lemma_candidates_fill(used, base, from, k + 1, extension);
        lemma_find_free(used, base, from, k + 1, extension);
    } else {
        assert(first_free(used, base, from, k, extension));
    }
}

/// There is always a candidate whose name is not in use.
pub proof fn a_name_is_free(used: Set<Seq<char>>, base: Seq<char>, extension: Seq<char>)
    requires
        used.finite(),
    ensures
        exists|k: nat| #[trigger] first_free(used, base, 1, k, extension),
{
    lemma_find_free(used, base, 1, 1, extension);
}

/// The name of candidate `k`.
fn candidate_name(base: &str, k: u128, extension: &str) -> (r: String)
    requires
        k >= 1,
    ensures
        r@ == numbered(base@, k as nat, extension@),
{
    let mut name = base.to_owned();
    if k > 1 {
        name.push('_');
        numbers::push_decimal(&mut name, k);
    }
    name.append(extension);
    name
}

/// The first candidate, from `from` on, whose name is not in `used`.
fn next_free(used: &UsedNames, base: &str, from: u64, extension: &str) -> (r: (u128, String))
    requires
        from >= 1,
    ensures
        first_free(used@, base@, from as nat, r.0 as nat, extension@),
        r.1@ == numbered(base@, r.0 as nat, extension@),
        r.0 <= from + used@.len(),
{
    proof {
        use_type_invariant(used);
    }
    let total = used.names.len();
    let mut k: u128 = from as u128;
    let mut name = candidate_name(base, k, extension);
    while used.contains(name.as_str())
        invariant
            1 <= from <= k <= from + total,
            used@.finite(),
            total == used@.len(),
            name@ == numbered(base@, k as nat, extension@),
            forall|j: nat|
                from <= j < k ==> used@.contains(#[trigger] numbered(base@, j, extension@)),
        decreases from + total - k,
    {
        proof {
            assert forall|j: nat| from <= j < k + 1 implies used@.contains(
                #[trigger] numbered(base@, j, extension@),
            ) by {
                if j == k {
                }
            }
            lemma_candidates_fill(used@, base@, from as nat, (k + 1) as nat, extension@);
        }
        k += 1;
        name = candidate_name(base, k, extension);
    }
    (k, name)
}

// ---- session files ------------------------------------------------------------

/// Six numbers as `MMDDYY_HHMMSS`.
pub open spec fn stamp_text(mm: nat, dd: nat, yy: nat, hh: nat, mi: nat, ss: nat) -> Seq<char> {
    numbers::two_digits(mm) + numbers::two_digits(dd) + numbers::two_digits(yy) + seq!['_']
        + numbers::two_digits(hh) + numbers::two_digits(mi) + numbers::two_digits(ss)
}

/// Month, day, year, hour, minute and second as `MMDDYY_HHMMSS`, the year without
/// its century; none where one of them is no number.
pub open spec fn stamp(
    month: Seq<char>,
    day: Seq<char>,
    year: Seq<char>,
    hour: Seq<char>,
    minute: Seq<char>,
    second: Seq<char>,
) -> Option<Seq<char>> {
    match (
        numbers::u32_of(month),
        numbers::u32_of(day),
        numbers::i32_of(year),
        numbers::u32_of(hour),
        numbers::u32_of(minute),
        numbers::u32_of(second),
    ) {
        (Some(mm), Some(dd), Some(yy), Some(hh), Some(mi), Some(ss)) => Some(
            stamp_text(
                mm as nat,
                dd as nat,
                (yy as int % 100) as nat,
                hh as nat,
                mi as nat,
                ss as nat,
            ),
        ),
        _ => None,
    }
}

fn write_stamp(mm: u32, dd: u32, yy: u32, hh: u32, mi: u32, ss: u32) -> (r: String)
    ensures
        r@ == stamp_text(mm as nat, dd as nat, yy as nat, hh as nat, mi as nat, ss as nat),
{
    let mut out = String::new();
    numbers::push_two_digits(&mut out, mm);
    assert(out@ =~= numbers::two_digits(mm as nat));
    numbers::push_two_digits(&mut out, dd);
    numbers::push_two_digits(&mut out, yy);
    let ghost date = out@;
    out.push('_');
    assert(out@ =~= date + seq!['_']);
    numbers::push_two_digits(&mut out, hh);
    numbers::push_two_digits(&mut out, mi);
    numbers::push_two_digits(&mut out, ss);
    out
}

/// The last two digits of a year.
fn year_of_century(year: i32) -> (r: u32)
    ensures
        r == year as int % 100,
{
    (((year % 100) + 100) % 100) as u32
}

/// Writes a date and time as `MMDDYY_HHMMSS`.
pub fn format_stamp(
    month: &str,
    day: &str,
    year: &str,
    hour: &str,
    minute: &str,
    second: &str,
) -> (r: Option<String>)
    ensures
        r is Some <==> stamp(month@, day@, year@, hour@, minute@, second@) is Some,
        r matches Some(s) ==> s@ == stamp(month@, day@, year@, hour@, minute@, second@)->0,
{
    match (
        numbers::parse_u32(month),
        numbers::parse_u32(day),
        numbers::parse_i32(year),
        numbers::parse_u32(hour),
        numbers::parse_u32(minute),
        numbers::parse_u32(second),
    ) {
        (Some(mm), Some(dd), Some(year), Some(hh), Some(mi), Some(ss)) => {
            Some(write_stamp(mm, dd, year_of_century(year), hh, mi, ss))
        },
        _ => None,
    }
}

/// Six digits, an underscore and six digits.
pub open spec fn stamp_shaped(s: Seq<char>) -> bool {
    &&& s.len() == 13
    &&& s[6] == '_'
    &&& numbers::all_digits(s.take(6))
    &&& numbers::all_digits(s.skip(7))
}

proof fn lemma_two_digits(n: nat)
    requires
        n < 100,
    ensures
        numbers::two_digits(n).len() == 2,
        numbers::is_digit(numbers::two_digits(n)[0]),
        numbers::is_digit(numbers::two_digits(n)[1]),
{
    reveal_with_fuel(numbers::decimal, 2);
}

proof fn lemma_stamp_shape(mm: nat, dd: nat, yy: nat, hh: nat, mi: nat, ss: nat)
    requires
        mm < 100,
        dd < 100,
        yy < 100,
        hh < 100,
        mi < 100,
        ss < 100,
    ensures
        stamp_shaped(stamp_text(mm, dd, yy, hh, mi, ss)),
{
    lemma_two_digits(mm);
    lemma_two_digits(dd);
    lemma_two_digits(yy);
    lemma_two_digits(hh);
    lemma_two_digits(mi);
    lemma_two_digits(ss);
    let date = numbers::two_digits(mm) + numbers::two_digits(dd) + numbers::two_digits(yy);
    let time = numbers::two_digits(hh) + numbers::two_digits(mi) + numbers::two_digits(ss);
    let s = stamp_text(mm, dd, yy, hh, mi, ss);
    assert(s =~= date + seq!['_'] + time);
    assert(s.take(6) =~= date);
    assert(s.skip(7) =~= time);
}

proof fn lemma_short_number(s: Seq<char>)
    requires
        s.len() <= 2,
    ensures
        numbers::u32_of(s) matches Some(n) ==> n < 100,
{
    reveal_with_fuel(numbers::digits_value, 3);
    let t = s.drop_first();
    if s.len() > 0 && s[0] == '+' && numbers::all_digits(t) && t.len() > 0 {
        assert(numbers::is_digit(t[0]));
    }
    if s.len() > 0 && numbers::all_digits(s) {
        assert(numbers::is_digit(s[0]));
        assert(numbers::is_digit(s[s.len() - 1]));
        if s.len() == 2 {
            assert(s.drop_last()[0] == s[0]);
        }
    }
}

/// The line has the date and time `p` at its front.
pub open spec fn stamped(line: Seq<char>, p: Stamp) -> bool {
    pattern::is_plain(p) && pattern::begins(line, pattern::front_of(p))
}

/// A date and time as `MMDDYY_HHMMSS`.
pub open spec fn stamp_of_parts(p: Stamp) -> Option<Seq<char>> {
    stamp(p.month, p.day, p.year, p.hour, p.minute, p.second)
}

/// The date and time at the front of a log line, as `MMDDYY_HHMMSS`; none where
/// the line has none with a year.
pub open spec fn session_stamp(line: Seq<char>) -> Option<Seq<char>> {
    if exists|p: Stamp| stamped(line, p) {
        stamp_of_parts(choose|p: Stamp| stamped(line, p))
    } else {
        None
    }
}

/// What is a number and has no ASCII characters but digits has digits only.
proof fn lemma_numeric(text: Seq<char>)
    requires
        pattern::is_numeric(text),
        numbers::u32_of(text) is Some || numbers::i32_of(text) is Some,
    ensures
        numbers::all_digits(text),
{
    if text.len() > 0 {
        assert((text[0] as u32) < 0x80 ==> numbers::is_digit(text[0]));
        assert(('+' as u32) < 0x80 && ('-' as u32) < 0x80);
    }
}

/// The groups of a match whose parts are numbers are those of the line's date and time.
proof fn lemma_session_stamp(line: Seq<char>, groups: Option<Seq<Option<Seq<char>>>>)
    requires
        pattern::finds_stamp(line, groups),
    ensures
        groups is None ==> session_stamp(line) is None,
        groups matches Some(g) ==> {
            &&& g.len() == 7
            &&& g[1] is Some && g[1]->0.len() <= 2
            &&& g[2] is Some && g[2]->0.len() <= 2
            &&& g[3] is Some
            &&& g[4] is Some && g[4]->0.len() <= 2
            &&& g[5] is Some && g[5]->0.len() <= 2
            &&& g[6] is Some && g[6]->0.len() <= 2
            &&& session_stamp(line) == stamp(
                g[1]->0,
                g[2]->0,
                g[3]->0,
                g[4]->0,
                g[5]->0,
                g[6]->0,
            )
        },
{
    if let Some(g) = groups {
        let p = choose|p: Stamp| #[trigger]
            pattern::is_stamp(p) && pattern::begins(line, pattern::front_of(p)) && g
                == pattern::groups_of(p);
        assert(g[1] == Some(p.month) && g[2] == Some(p.day) && g[3] == Some(p.year));
        assert(g[4] == Some(p.hour) && g[5] == Some(p.minute) && g[6] == Some(p.second));
        if stamp_of_parts(p) is Some {
            lemma_numeric(p.month);
            lemma_numeric(p.day);
            lemma_numeric(p.year);
            lemma_numeric(p.hour);
            lemma_numeric(p.minute);
            lemma_numeric(p.second);
            assert(stamped(line, p));
        }
        if exists|q: Stamp| stamped(line, q) {
            let q = choose|q: Stamp| stamped(line, q);
            assert(pattern::is_plain(q));
            assert(pattern::groups_of(q) == g);
            assert(g[1] == Some(q.month) && g[2] == Some(q.day) && g[3] == Some(q.year));
            assert(g[4] == Some(q.hour) && g[5] == Some(q.minute) && g[6] == Some(q.second));
        }
    }
}

/// Reads `MMDDYY_HHMMSS` from the front of a log line such as
/// `4/17/2024 20:13:45.123-4  COMBAT_LOG_VERSION,...`. A line without a year
/// gives none.
pub fn parse_session_stamp(line: &str) -> (r: Option<String>)
    ensures
        r is Some <==> session_stamp(line@) is Some,
        r matches Some(s) ==> s@ == session_stamp(line@)->0,
        r matches Some(s) ==> stamp_shaped(s@),
{
    let re = match pattern::compile(pattern::STAMP_PATTERN) {
        Ok(re) => re,
        Err(_) => {
            return None;
        },
    };
    let search = pattern::captures(&re, line);
    proof {
        lemma_session_stamp(line@, pattern::found(search));
    }
    let found = match search {
        Some(found) => found,
        None => {
            return None;
        },
    };
    match (
        pattern::group(&found, 1),
        pattern::group(&found, 2),
        pattern::group(&found, 3),
        pattern::group(&found, 4),
        pattern::group(&found, 5),
        pattern::group(&found, 6),
    ) {
        (Some(month), Some(day), Some(year), Some(hour), Some(minute), Some(second)) => {
            let r = format_stamp(month, day, year, hour, minute, second);
            proof {
                lemma_short_number(month@);
                lemma_short_number(day@);
                lemma_short_number(hour@);
                lemma_short_number(minute@);
                lemma_short_number(second@);
                lemma_shaped(month@, day@, year@, hour@, minute@, second@);
            }
            r
        },
        _ => None,
    }
}

proof fn lemma_shaped(
    month: Seq<char>,
    day: Seq<char>,
    year: Seq<char>,
    hour: Seq<char>,
    minute: Seq<char>,
    second: Seq<char>,
)
    requires
        numbers::u32_of(month) matches Some(n) ==> n < 100,
        numbers::u32_of(day) matches Some(n) ==> n < 100,
        numbers::u32_of(hour) matches Some(n) ==> n < 100,
        numbers::u32_of(minute) matches Some(n) ==> n < 100,
        numbers::u32_of(second) matches Some(n) ==> n < 100,
    ensures
        stamp(month, day, year, hour, minute, second) matches Some(s) ==> stamp_shaped(s),
{
    if let (Some(mm), Some(dd), Some(yy), Some(hh), Some(mi), Some(ss)) = (
        numbers::u32_of(month),
        numbers::u32_of(day),
        numbers::i32_of(year),
        numbers::u32_of(hour),
        numbers::u32_of(minute),
        numbers::u32_of(second),
    ) {
        lemma_stamp_shape(
            mm as nat,
            dd as nat,
            (yy as int % 100) as nat,
            hh as nat,
            mi as nat,
            ss as nat,
        );
    }
}

/// The older format, `4/17 20:13:45.123`, has no year: a line without a second slash
/// among its first six characters has no stamp.
pub proof fn lines_without_a_year_have_no_stamp(line: Seq<char>)
    requires
        forall|i: int, j: int|
            0 <= i < j < 6 && j < line.len() && #[trigger] line[i] == '/' ==> #[trigger] line[j]
                != '/',
    ensures
        session_stamp(line) is None,
{
    if exists|p: Stamp| stamped(line, p) {
        let p = choose|p: Stamp| stamped(line, p);
        let front = pattern::front_of(p);
        let i = p.month.len() as int;
        let j = i + 1 + p.day.len();
        assert(front[i] == '/' && front[j] == '/');
        assert(line[i] == front[i] && line[j] == front[j]);
    }
}

/// What stands in a line from `from` to `to`.
spec fn part(line: Seq<char>, from: int, to: int) -> Seq<char> {
    line.subrange(from, to)
}

/// Where a run of digits ends in a line that goes on with something else.
proof fn lemma_same_run(line: Seq<char>, at: int, a: Seq<char>, b: Seq<char>)
    requires
        0 <= at,
        at + a.len() < line.len(),
        at + b.len() < line.len(),
        part(line, at, at + a.len()) == a,
        part(line, at, at + b.len()) == b,
        numbers::all_digits(a),
        numbers::all_digits(b),
        !numbers::is_digit(line[at + a.len()]),
        !numbers::is_digit(line[at + b.len()]),
    ensures
        a == b,
{
    if a.len() < b.len() {
        assert(b[a.len() as int] == line[at + a.len()]);
    } else if b.len() < a.len() {
        assert(a[b.len() as int] == line[at + b.len()]);
    }
}

/// A line has at most one date and time.
pub proof fn a_line_has_one_stamp(line: Seq<char>, p: Stamp, q: Stamp)
    requires
        stamped(line, p),
        stamped(line, q),
    ensures
        p == q,
{
    lemma_parts(line, p);
    lemma_parts(line, q);
    lemma_same_run(line, 0, p.month, q.month);
    let day = p.month.len() as int + 1;
    lemma_same_run(line, day, p.day, q.day);
    let year = day + p.day.len() + 1;
    lemma_same_run(line, year, p.year, q.year);
    let space = year + p.year.len();
    if p.space.len() < q.space.len() {
        assert(line[space + p.space.len()] == q.space[p.space.len() as int]);
    } else if q.space.len() < p.space.len() {
        assert(line[space + q.space.len()] == p.space[q.space.len() as int]);
    }
    let hour = space + p.space.len();
    lemma_same_run(line, hour, p.hour, q.hour);
}

/// The parts of a date and time, and what stands behind each of them.
proof fn lemma_parts(line: Seq<char>, p: Stamp)
    requires
        stamped(line, p),
    ensures
        ({
            let day = p.month.len() as int + 1;
            let year = day + p.day.len() + 1;
            let space = year + p.year.len();
            let hour = space + p.space.len();
            let minute = hour + p.hour.len() + 1;
            let second = minute + 3;
            &&& second + 2 <= line.len()
            &&& part(line, 0, p.month.len() as int) == p.month
            &&& line[day - 1] == '/'
            &&& part(line, day, day + p.day.len()) == p.day
            &&& line[year - 1] == '/'
            &&& part(line, year, year + p.year.len()) == p.year
            &&& part(line, space, space + p.space.len()) == p.space
            &&& pattern::is_space(line[space])
            &&& part(line, hour, hour + p.hour.len()) == p.hour
            &&& numbers::is_digit(line[hour])
            &&& line[minute - 1] == ':'
            &&& part(line, minute, minute + 2) == p.minute
            &&& part(line, second, second + 2) == p.second
        }),
{
    let front = pattern::front_of(p);
    let day = p.month.len() as int + 1;
    let year = day + p.day.len() + 1;
    let space = year + p.year.len();
    let hour = space + p.space.len();
    let minute = hour + p.hour.len() + 1;
    let second = minute + 3;
    assert(front.len() == second + 2);
    assert(forall|i: int| 0 <= i < front.len() ==> #[trigger] line[i] == front[i]) by {
        assert(forall|i: int|
            0 <= i < front.len() ==> #[trigger] line.take(front.len() as int)[i] == line[i]);
    }
    assert(part(line, 0, p.month.len() as int) =~= p.month);
    assert(part(line, day, day + p.day.len()) =~= p.day);
    assert(part(line, year, year + p.year.len()) =~= p.year);
    assert(part(line, space, space + p.space.len()) =~= p.space);
    assert(part(line, hour, hour + p.hour.len()) =~= p.hour);
    assert(part(line, minute, minute + 2) =~= p.minute);
    assert(part(line, second, second + 2) =~= p.second);
    assert(line[space] == p.space[0]);
    assert(line[hour] == p.hour[0]);
    assert(numbers::is_digit(p.hour[0]));
}

proof fn lemma_year(s: Seq<char>)
    requires
        numbers::all_digits(s),
        1 <= s.len() <= 4,
    ensures
        numbers::i32_of(s) is Some,
{
    reveal_with_fuel(numbers::digits_value, 5);
    assert(numbers::is_digit(s[0]));
    assert(numbers::is_digit(s[s.len() - 1]));
    if s.len() > 1 {
        assert(numbers::is_digit(s[s.len() - 2]));
        assert(s.drop_last().last() == s[s.len() - 2]);
    }
    if s.len() > 2 {
        assert(numbers::is_digit(s[s.len() - 3]));
        assert(s.drop_last().drop_last().last() == s[s.len() - 3]);
    }
    if s.len() > 3 {
        assert(s.drop_last().drop_last().drop_last().last() == s[0]);
    }
}

proof fn lemma_two_digit_number(s: Seq<char>)
    requires
        numbers::all_digits(s),
        1 <= s.len() <= 2,
    ensures
        numbers::u32_of(s) is Some,
{
    reveal_with_fuel(numbers::digits_value, 3);
    assert(numbers::is_digit(s[0]));
    assert(numbers::is_digit(s[s.len() - 1]));
    if s.len() == 2 {
        assert(s.drop_last()[0] == s[0]);
    }
}

/// A line with a date and time at its front has them as its stamp.
pub proof fn stamped_lines_have_their_stamp(line: Seq<char>, p: Stamp)
    requires
        stamped(line, p),
    ensures
        session_stamp(line) == stamp_of_parts(p),
        session_stamp(line) is Some,
{
    let q = choose|q: Stamp| stamped(line, q);
    a_line_has_one_stamp(line, p, q);
    lemma_two_digit_number(p.month);
    lemma_two_digit_number(p.day);
    lemma_year(p.year);
    lemma_two_digit_number(p.hour);
    lemma_two_digit_number(p.minute);
    lemma_two_digit_number(p.second);
}

/// The name of a session's file without its number and extension: from the date
/// and time of the session's first line, or from its place in the log.
pub open spec fn session_base(version_line: Seq<char>, idx: nat) -> Seq<char> {
    match session_stamp(version_line) {
        Some(s) => "WoWCombatLog-"@ + s,
        None => "WoWCombatLog-session"@ + numbers::two_digits(idx),
    }
}

/// `base` starts like a log file's name and is one line.
spec fn log_base(base: Seq<char>) -> bool {
    &&& base.len() >= 12
    &&& base.take(12) == "WoWCombatLog"@
    &&& forall|i: int| 0 <= i < base.len() ==> #[trigger] base[i] != '\n'
}

proof fn lemma_stamped_base(s: Seq<char>)
    requires
        stamp_shaped(s),
    ensures
        log_base("WoWCombatLog-"@ + s),
{
    reveal_strlit("WoWCombatLog-");
    reveal_strlit("WoWCombatLog");
    let base = "WoWCombatLog-"@ + s;
    assert(base.take(12) =~= "WoWCombatLog"@);
    assert forall|i: int| 0 <= i < base.len() implies #[trigger] base[i] != '\n' by {
        if 13 <= i < 19 {
            assert(numbers::is_digit(s.take(6)[i - 13]));
        } else if i >= 20 {
            assert(numbers::is_digit(s.skip(7)[i - 20]));
        }
    }
}

proof fn lemma_counted_base(idx: nat)
    ensures
        log_base("WoWCombatLog-session"@ + numbers::two_digits(idx)),
{
    reveal_strlit("WoWCombatLog-session");
    reveal_strlit("WoWCombatLog");
    let base = "WoWCombatLog-session"@ + numbers::two_digits(idx);
    assert(base.take(12) =~= "WoWCombatLog"@);
    numbers::decimal_round_trip(idx);
    assert forall|i: int| 0 <= i < base.len() implies #[trigger] base[i] != '\n' by {
        if i >= 20 {
            assert(base[i] == numbers::two_digits(idx)[i - 20]);
            if idx >= 10 {
                assert(numbers::is_digit(numbers::decimal(idx)[i - 20]));
            }
        }
    }
}

proof fn lemma_log_name(base: Seq<char>, k: nat)
    requires
        log_base(base),
    ensures
        pattern::is_log_name(numbered(base, k, ".txt"@)),
{
    reveal_strlit("WoWCombatLog");
    reveal_strlit(".txt");
    let name = numbered(base, k, ".txt"@);
    numbers::decimal_round_trip(k);
    assert(name.take(12) =~= base.take(12));
    assert(name.skip(name.len() - 4) =~= ".txt"@);
    assert forall|i: int| 0 <= i < name.len() implies #[trigger] name[i] != '\n' by {
        if i < base.len() {
            assert(name[i] == base[i]);
        } else if i < name.len() - 4 && i > base.len() {
            assert(numbers::is_digit(numbers::decimal(k)[i - base.len() - 1]));
        }
    }
}

/// The name of the session that starts with `version_line`: the first numbered name
/// that is not in `used`.
pub open spec fn session_name(
    version_line: Seq<char>,
    idx: nat,
    used: Set<Seq<char>>,
) -> Seq<char> {
    let base = session_base(version_line, idx);
    let k = choose|k: nat| #[trigger] first_free(used, base, 1, k, ".txt"@);
    numbered(base, k, ".txt"@)
}

/// There is one first free candidate.
pub proof fn lemma_first_free_once(
    used: Set<Seq<char>>,
    base: Seq<char>,
    from: nat,
    a: nat,
    b: nat,
    extension: Seq<char>,
)
    requires
        first_free(used, base, from, a, extension),
        first_free(used, base, from, b, extension),
    ensures
        a == b,
{
    if a < b {
        assert(used.contains(numbered(base, a, extension)));
    } else if b < a {
        assert(used.contains(numbered(base, b, extension)));
    }
}

/// Names a session file after the time stamp on its first line, in the shape of
/// the game's own `WoWCombatLog-MMDDYY_HHMMSS.txt`, or after its place in the
/// log where the line has no time stamp with a year. A name that is in use gets
/// the first number from 2 on that makes it new.
pub fn session_filename(version_line: &str, idx: u32, used: &mut UsedNames) -> (r: String)
    ensures
        exists|k: nat|
            #![trigger numbered(session_base(version_line@, idx as nat), k, ".txt"@)]
            first_free(old(used)@, session_base(version_line@, idx as nat), 1, k, ".txt"@)
                && r@ == numbered(session_base(version_line@, idx as nat), k, ".txt"@),
        r@ == session_name(version_line@, idx as nat, old(used)@),
        !old(used)@.contains(r@),
        final(used)@ == old(used)@.insert(r@),
        pattern::is_log_name(r@),
{
    let mut base = String::new();
    match parse_session_stamp(version_line) {
        Some(s) => {
            base.append("WoWCombatLog-");
            base.append(s.as_str());
            assert(base@ =~= "WoWCombatLog-"@ + s@);
            proof {
                lemma_stamped_base(s@);
            }
        },
        None => {
            base.append("WoWCombatLog-session");
            assert(base@ =~= "WoWCombatLog-session"@);
            numbers::push_two_digits(&mut base, idx);
            proof {
                lemma_counted_base(idx as nat);
            }
        },
    }
    assert(base@ == session_base(version_line@, idx as nat));
    let (k, name) = next_free(used, base.as_str(), 1, ".txt");
    proof {
        lemma_log_name(base@, k as nat);
        let first = choose|j: nat| #[trigger] first_free(used@, base@, 1, j, ".txt"@);
        lemma_first_free_once(used@, base@, 1, k as nat, first, ".txt"@);
    }
    used.insert(name.clone());
    name
}

// ---- archive files ------------------------------------------------------------

/// A name to try for an archive.
pub struct ZipCandidate {
    /// The number of the try, from 1 on.
    pub attempt: u64,
    /// The file name.
    pub name: String,
}

impl ZipCandidate {
    /// The first name for `stem`, from try `from` on, that the run has not used.
    pub open spec fn follows(
        self,
        used: Set<Seq<char>>,
        stem: Seq<char>,
        from: nat,
    ) -> bool {
        &&& first_free(used, stem, from, self.attempt as nat, ".zip"@)
        &&& self.name@ == numbered(stem, self.attempt as nat, ".zip"@)
    }
}

/// The first archive name for `stem`, from try `from` on, that is not in `used`:
/// `stem.zip`, then `stem_2.zip`, `stem_3.zip` and so on.
pub fn zip_candidate(stem: &str, used: &UsedNames, from: u64) -> (r: ZipCandidate)
    requires
        from >= 1,
        from + used@.len() <= u64::MAX,
    ensures
        r.follows(used@, stem@, from as nat),
        from <= r.attempt <= from + used@.len(),
{
    let (k, name) = next_free(used, stem, from, ".zip");
    ZipCandidate { attempt: k as u64, name }
}

/// Takes the answer whether the file of `candidate` exists already. One that does
/// not is the archive's name and is recorded as used; for one that does, the next
/// name to try comes back.
pub fn unique_zip_path(
    stem: &str,
    used: &mut UsedNames,
    candidate: ZipCandidate,
    exists: bool,
) -> (r: Result<String, ZipCandidate>)
    requires
        candidate.attempt + 1 + old(used)@.len() <= u64::MAX,
    ensures
        match r {
            Ok(name) => {
                &&& !exists
                &&& name == candidate.name
                &&& final(used)@ == old(used)@.insert(name@)
            },
            Err(next) => {
                &&& exists
                &&& next.follows(old(used)@, stem@, candidate.attempt as nat + 1)
                &&& next.attempt <= candidate.attempt + 1 + old(used)@.len()
                &&& final(used)@ == old(used)@
            },
        },
{
    if exists {
        Err(zip_candidate(stem, used, candidate.attempt + 1))
    } else {
        used.insert(candidate.name.clone());
        Ok(candidate.name)
    }
}

/// The first try, from `from` on, whose archive name is not in `used`.
pub open spec fn zip_attempt(used: Set<Seq<char>>, stem: Seq<char>, from: nat) -> nat {
    choose|k: nat| #[trigger] first_free(used, stem, from, k, ".zip"@)
}

/// The archive name of try `k`.
pub open spec fn zip_name(stem: Seq<char>, k: nat) -> Seq<char> {
    numbered(stem, k, ".zip"@)
}

/// There is always an archive name that the run has not used.
pub proof fn a_zip_name_is_free(used: Set<Seq<char>>, stem: Seq<char>, from: nat)
    requires
        used.finite(),
        from >= 1,
    ensures
        first_free(used, stem, from, zip_attempt(used, stem, from), ".zip"@),
{
    lemma_find_free(used, stem, from, from, ".zip"@);
}

/// A candidate that follows is the first free try.
pub proof fn lemma_follows(
    candidate: ZipCandidate,
    used: Set<Seq<char>>,
    stem: Seq<char>,
    from: nat,
)
    requires
        candidate.follows(used, stem, from),
    ensures
        candidate.attempt == zip_attempt(used, stem, from),
        candidate.name@ == zip_name(stem, zip_attempt(used, stem, from)),
        !used.contains(candidate.name@),
{
    let k = zip_attempt(used, stem, from);
    lemma_first_free_once(used, stem, from, candidate.attempt as nat, k, ".zip"@);
}

/// Every archive name before try `k` is used in this run or is on disk.
pub open spec fn taken_before(
    used: Set<Seq<char>>,
    on_disk: Set<Seq<char>>,
    stem: Seq<char>,
    k: nat,
) -> bool {
    forall|j: nat|
        1 <= j < k ==> used.contains(#[trigger] numbered(stem, j, ".zip"@)) || on_disk.contains(
            numbered(stem, j, ".zip"@),
        )
}

/// The search for an archive name passes over taken names only: those before the
/// first name to try are taken, and where a name turns out to be on disk, so are
/// all before the next one.
pub proof fn zip_search_skips_taken_names(
    used: Set<Seq<char>>,
    on_disk: Set<Seq<char>>,
    stem: Seq<char>,
    candidate: ZipCandidate,
    next: ZipCandidate,
)
    ensures
        candidate.follows(used, stem, 1) ==> taken_before(
            used,
            on_disk,
            stem,
            candidate.attempt as nat,
        ),
        ({
            &&& taken_before(used, on_disk, stem, candidate.attempt as nat)
            &&& on_disk.contains(numbered(stem, candidate.attempt as nat, ".zip"@))
            &&& next.follows(used, stem, candidate.attempt as nat + 1)
        }) ==> taken_before(used, on_disk, stem, next.attempt as nat),
{
}

// ---- what the names are ----------------------------------------------------------------

/// The first name is the base, the others have `_2`, `_3` and so on behind it.
pub proof fn names_are_numbered_from_two(base: Seq<char>, k: nat, extension: Seq<char>)
    requires
        k >= 2,
    ensures
        numbered(base, 1, extension) == base + extension,
        numbered(base, k, extension) == base + "_"@ + numbers::decimal(k) + extension,
{
    reveal_strlit("_");
    assert(base + "_"@ =~= base.push('_'));
}

/// A session gets its base name with `.txt`, or where that is used, the first number from
/// two on whose name is not.
pub proof fn sessions_get_the_first_free_name(
    version_line: Seq<char>,
    idx: nat,
    used: Set<Seq<char>>,
    k: nat,
)
    requires
        used.finite(),
    ensures
        ({
            let base = session_base(version_line, idx);
            let name = session_name(version_line, idx, used);
            &&& !used.contains(name)
            &&& !used.contains(base + ".txt"@) ==> name == base + ".txt"@
            &&& used.contains(base + ".txt"@) && k >= 2 && !used.contains(
                base + "_"@ + numbers::decimal(k) + ".txt"@,
            ) && (forall|j: nat|
                2 <= j < k ==> used.contains(
                    base + "_"@ + #[trigger] numbers::decimal(j) + ".txt"@,
                )) ==> name == base + "_"@ + numbers::decimal(k) + ".txt"@
        }),
{
    let base = session_base(version_line, idx);
    lemma_find_free(used, base, 1, 1, ".txt"@);
    let first = choose|n: nat| #[trigger] first_free(used, base, 1, n, ".txt"@);
    if !used.contains(base + ".txt"@) {
        assert(first_free(used, base, 1, 1, ".txt"@));
        lemma_first_free_once(used, base, 1, first, 1, ".txt"@);
    } else if k >= 2 && !used.contains(base + "_"@ + numbers::decimal(k) + ".txt"@) && (forall|
        j: nat,
    |
        2 <= j < k ==> used.contains(base + "_"@ + #[trigger] numbers::decimal(j) + ".txt"@)) {
        names_are_numbered_from_two(base, k, ".txt"@);
        assert forall|j: nat| 1 <= j < k implies used.contains(
            #[trigger] numbered(base, j, ".txt"@),
        ) by {
            if j >= 2 {
                names_are_numbered_from_two(base, j, ".txt"@);
                assert(used.contains(base + "_"@ + numbers::decimal(j) + ".txt"@));
            }
        }
        assert(first_free(used, base, 1, k, ".txt"@));
        lemma_first_free_once(used, base, 1, first, k, ".txt"@);
    }
}

/// An archive is tried under the first name, from a try on, that the run has not used.
pub proof fn archives_get_the_first_free_name(
    used: Set<Seq<char>>,
    stem: Seq<char>,
    from: nat,
    k: nat,
)
    requires
        used.finite(),
        from >= 1,
    ensures
        zip_name(stem, 1) == stem + ".zip"@,
        k >= 2 ==> zip_name(stem, k) == stem + "_"@ + numbers::decimal(k) + ".zip"@,
        !used.contains(zip_name(stem, zip_attempt(used, stem, from))),
        zip_attempt(used, stem, from) >= from,
        from <= k < zip_attempt(used, stem, from) ==> used.contains(zip_name(stem, k)),
{
    a_zip_name_is_free(used, stem, from);
    if k >= 2 {
        names_are_numbered_from_two(stem, k, ".zip"@);
    } else {
        names_are_numbered_from_two(stem, 2, ".zip"@);
    }
}

/// A date and time as a session's name writes it: month, day and the last two digits of
/// the year, and hour, minute and second, two digits each.
pub open spec fn time_in_name(p: Stamp) -> Seq<char> {
    numbers::two_digits(numbers::digits_value(p.month)) + numbers::two_digits(
        numbers::digits_value(p.day),
    ) + numbers::two_digits(numbers::digits_value(p.year) % 100) + "_"@ + numbers::two_digits(
        numbers::digits_value(p.hour),
    ) + numbers::two_digits(numbers::digits_value(p.minute)) + numbers::two_digits(
        numbers::digits_value(p.second),
    )
}

/// `p` is a date and time in decimal digits with spaces or tabs between them.
pub open spec fn is_spaced(p: Stamp) -> bool {
    &&& 1 <= p.month.len() <= 2
    &&& 1 <= p.day.len() <= 2
    &&& 2 <= p.year.len() <= 4
    &&& p.space.len() >= 1
    &&& forall|i: int| 0 <= i < p.space.len() ==> #[trigger] p.space[i] == ' ' || p.space[i] == '\t'
    &&& 1 <= p.hour.len() <= 2
    &&& p.minute.len() == 2
    &&& p.second.len() == 2
    &&& numbers::all_digits(p.month)
    &&& numbers::all_digits(p.day)
    &&& numbers::all_digits(p.year)
    &&& numbers::all_digits(p.hour)
    &&& numbers::all_digits(p.minute)
    &&& numbers::all_digits(p.second)
}

proof fn lemma_front_text(p: Stamp)
    ensures
        pattern::front_of(p) == p.month + "/"@ + p.day + "/"@ + p.year + p.space + p.hour + ":"@
            + p.minute + ":"@ + p.second,
{
    reveal_strlit("/");
    reveal_strlit(":");
    assert("/"@ =~= seq!['/']);
    assert(":"@ =~= seq![':']);
}

proof fn lemma_time_in_name(p: Stamp)
    requires
        is_spaced(p),
    ensures
        stamp_of_parts(p) == Some(time_in_name(p)),
{
    reveal_strlit("_");
    assert("_"@ =~= seq!['_']);
    lemma_two_digit_number(p.month);
    lemma_two_digit_number(p.day);
    lemma_year(p.year);
    lemma_two_digit_number(p.hour);
    lemma_two_digit_number(p.minute);
    lemma_two_digit_number(p.second);
    assert(numbers::is_digit(p.month[0]));
    assert(numbers::is_digit(p.day[0]));
    assert(numbers::is_digit(p.year[0]));
    assert(numbers::is_digit(p.hour[0]));
    assert(numbers::is_digit(p.minute[0]));
    assert(numbers::is_digit(p.second[0]));
}

/// A session whose first line starts with a date and time, year and all, is named after
/// them. Any other is named after its place in the log.
pub proof fn sessions_are_named_after_their_time(
    p: Stamp,
    rest: Seq<char>,
    other: Seq<char>,
    idx: nat,
)
    requires
        is_spaced(p),
    ensures
        session_base(
            p.month + "/"@ + p.day + "/"@ + p.year + p.space + p.hour + ":"@ + p.minute + ":"@
                + p.second + rest,
            idx,
        ) == "WoWCombatLog-"@ + time_in_name(p),
        session_stamp(other) is None ==> session_base(other, idx) == "WoWCombatLog-session"@
            + numbers::two_digits(idx),
{
    lemma_front_text(p);
    let front = pattern::front_of(p);
    let line = front + rest;
    assert(line.take(front.len() as int) =~= front);
    assert forall|i: int| 0 <= i < p.space.len() implies pattern::is_space(
        #[trigger] p.space[i],
    ) by {}
    assert(stamped(line, p));
    stamped_lines_have_their_stamp(line, p);
    lemma_time_in_name(p);
}

/// A line has a stamp only where it starts with a date and time: digits, slashes, white
/// space and colons in their places.
pub proof fn only_times_make_stamps(line: Seq<char>)
    requires
        session_stamp(line) is Some,
    ensures
        exists|p: Stamp| {
            &&& #[trigger] stamped(line, p)
            &&& 1 <= p.month.len() <= 2
            &&& 1 <= p.day.len() <= 2
            &&& 2 <= p.year.len() <= 4
            &&& p.space.len() >= 1
            &&& 1 <= p.hour.len() <= 2
            &&& p.minute.len() == 2
            &&& p.second.len() == 2
            &&& '0' <= line[0] <= '9'
            &&& line[p.month.len() as int] == '/'
            &&& line[p.month.len() as int + 1 + p.day.len()] == '/'
        },
{
    let p = choose|p: Stamp| stamped(line, p);
    let front = pattern::front_of(p);
    let i = p.month.len() as int;
    let j = i + 1 + p.day.len();
    assert(front[0] == p.month[0] && front[i] == '/' && front[j] == '/');
    assert(numbers::is_digit(p.month[0]));
    assert(line[0] == line.take(front.len() as int)[0]);
    assert(line[i] == line.take(front.len() as int)[i]);
    assert(line[j] == line.take(front.len() as int)[j]);
}

} // verus!
