//! Fights, as the log parser reports them: their time span, their fingerprint,
//! and whether a batch of them is worth a segment of a report.

use std::collections::hash_map::DefaultHasher;
use std::hash::{Hash, Hasher};

use serde_json::Value;
use vstd::prelude::*;
use vstd::std_specs::hash::*;
use vstd::utf8::*;

use crate::json;
use crate::numbers;
use crate::text;

verus! {

broadcast use {vstd::string::group_string_axioms, vstd::seq::group_seq_axioms};

/// A forced commit shorter than this is a sliver of trailing events, not a fight.
pub const MIN_FORCED_FIGHT_MS: i64 = 1000;

// ---- one fight ------------------------------------------------------------------

/// The time stamp at the front of an event line, up to its first `|`; -1 where
/// there is none.
pub open spec fn stamp_of(line: Seq<char>) -> i64 {
    match numbers::i64_of(text::before(line, '|')) {
        Some(t) => t,
        None => (-1) as i64,
    }
}

/// The time stamps of the first and of the last event line that is not empty.
pub open spec fn span_of(events: Seq<char>) -> (i64, i64) {
    (stamp_of(text::first_piece(events, '\n')), stamp_of(text::last_piece(events, '\n')))
}

/// The time stamp of the event line in the bytes of `b` from `lo` to `hi`.
fn stamp_at(b: &[u8], lo: usize, hi: usize, Ghost(line): Ghost<Seq<char>>) -> (r: i64)
    requires
        lo <= hi <= b@.len(),
        b@.subrange(lo as int, hi as int) == encode_utf8(line),
    ensures
        r == stamp_of(line),
{
    let mut end: usize = lo;
    let ghost cut = b@.subrange(lo as int, hi as int);
    assert(cut.skip(0) =~= cut);
    assert(b@.subrange(lo as int, lo as int) =~= Seq::<u8>::empty());
    while end < hi && b[end] != 124
        invariant
            lo <= end <= hi <= b@.len(),
            cut == b@.subrange(lo as int, hi as int),
            text::before(cut, 124u8) =~= b@.subrange(lo as int, end as int) + text::before(
                cut.skip(end - lo),
                124u8,
            ),
        decreases hi - end,
    {
        assert(cut.skip(end - lo).drop_first() =~= cut.skip(end - lo + 1));
        assert(b@.subrange(lo as int, end + 1) =~= b@.subrange(lo as int, end as int).push(
            b@[end as int],
        ));
        end += 1;
    }
    proof {
        text::lemma_before_bytes(line, '|');
        numbers::lemma_number_bytes(text::before(line, '|'));
    }
    match numbers::i64_at(b, lo, end) {
        Some(t) => t,
        None => -1,
    }
}

/// First and last event time stamps, in milliseconds relative to the report, of
/// a fight's event lines; -1 for one that cannot be read.
pub fn fight_span(events: &str) -> (r: (i64, i64))
    ensures
        r == span_of(events@),
{
    let b = events.as_bytes();
    let (lo, hi) = text::first_piece_bounds(b, 10);
    proof {
        text::lemma_without_leading_bytes(events@, '\n');
        text::lemma_before_bytes(text::without_leading(events@, '\n'), '\n');
    }
    let first = stamp_at(b, lo, hi, Ghost(text::first_piece(events@, '\n')));
    let (lo, hi) = text::last_piece_bounds(b, 10);
    proof {
        text::lemma_without_trailing_bytes(events@, '\n');
        text::lemma_after_last_bytes(text::without_trailing(events@, '\n'), '\n');
    }
    let last = stamp_at(b, lo, hi, Ghost(text::last_piece(events@, '\n')));
    (first, last)
}

/// What hashing a text writes to a hasher.
pub uninterp spec fn text_writes(text: Seq<char>) -> Seq<Seq<u8>>;

/// `<str as std::hash::Hash>::hash`: feeds a text to a hasher. What it writes
/// depends on the text alone.
#[verifier::external_body]
fn hash_text(text: &str, hasher: &mut DefaultHasher)
    ensures
        final(hasher)@ == old(hasher)@ + text_writes(text@),
{
    text.hash(hasher);
}

/// The fingerprint of a text: what a fresh default hasher makes of it, in
/// sixteen hexadecimal digits.
pub open spec fn fingerprint(text: Seq<char>) -> Seq<char> {
    numbers::hex(DefaultHasher::spec_finish(text_writes(text)) as nat, 16)
}

/// Cheap content fingerprint for journal records (not cryptographic).
pub fn content_hash(s: &str) -> (r: String)
    ensures
        r@ == fingerprint(s@),
        r@.len() == 16,
{
    let mut h = DefaultHasher::new();
    hash_text(s, &mut h);
    assert(h@ =~= text_writes(s@));
    let mut out = String::new();
    numbers::push_hex(&mut out, h.finish(), 16);
    proof {
        assert(out@ =~= fingerprint(s@));
        reveal_with_fuel(numbers::hex, 17);
    }
    out
}

// ---- a batch of fights ------------------------------------------------------------

/// What is read of one fight.
pub struct Fight<'a> {
    /// How many events it has, where the parser says.
    pub event_count: Option<i64>,
    /// Its event lines.
    pub events: &'a str,
}

/// A fight as plain values.
pub struct FightView {
    pub event_count: Option<i64>,
    pub events: Seq<char>,
}

impl<'a> View for Fight<'a> {
    type V = FightView;

    open spec fn view(&self) -> FightView {
        FightView { event_count: self.event_count, events: self.events@ }
    }
}

/// A list of fights as plain values.
pub open spec fn views(fights: Seq<Fight>) -> Seq<FightView> {
    fights.map_values(|f: Fight| f@)
}

/// The fight that a JSON value describes.
pub open spec fn fight_of(value: Value) -> FightView {
    FightView {
        event_count: json::integer_field(value, "eventCount"@),
        events: match json::text_field(value, "eventsString"@) {
            Some(text) => text,
            None => Seq::empty(),
        },
    }
}

/// The JSON items under `fights`.
pub open spec fn fight_items(fd: Value) -> Option<Seq<Value>> {
    match json::field_of(fd, "fights"@) {
        Some(list) => json::array_items(list),
        None => None,
    }
}

/// The fights that a parser reply lists under `fights`; none where it has no
/// such list.
pub open spec fn fights_of(fd: Value) -> Option<Seq<FightView>> {
    match fight_items(fd) {
        Some(items) => Some(items.map_values(|item: Value| fight_of(item))),
        None => None,
    }
}

/// The list under `fights`.
pub(crate) fn fight_list(fd: &Value) -> (r: Option<&Vec<Value>>)
    ensures
        r is Some <==> fight_items(*fd) is Some,
        r matches Some(list) ==> list@ == fight_items(*fd)->0,
{
    match json::field(fd, "fights") {
        Some(list) => json::items(list),
        None => None,
    }
}

/// Reads the fights of a parser reply.
pub fn read_fights(fd: &Value) -> (r: Option<Vec<Fight<'_>>>)
    ensures
        r is Some <==> fights_of(*fd) is Some,
        r matches Some(fights) ==> views(fights@) == fights_of(*fd)->0,
{
    let list = match fight_list(fd) {
        Some(list) => list,
        None => {
            return None;
        },
    };
    let mut fights: Vec<Fight> = Vec::new();
    let mut i: usize = 0;
    while i < list.len()
        invariant
            fight_items(*fd) == Some(list@),
            i <= list@.len(),
            fights@.len() == i,
            forall|k: int| 0 <= k < i ==> (#[trigger] fights@[k])@ == fight_of(list@[k]),
        decreases list@.len() - i,
    {
        let item = &list[i];
        let event_count = json::get_integer(item, "eventCount");
        let events = match json::get_text(item, "eventsString") {
            Some(text) => text,
            None => "",
        };
        proof {
            reveal_strlit("");
            assert(""@ =~= Seq::<char>::empty());
        }
        fights.push(Fight { event_count, events });
        i += 1;
    }
    assert(views(fights@) =~= fights_of(*fd)->0);
    Some(fights)
}

/// No list of fights, or an empty one.
pub open spec fn no_fights(fights: Option<Seq<FightView>>) -> bool {
    fights is None || fights->0.len() == 0
}

/// Whether a parser reply holds no fights.
pub fn fights_empty(v: &Value) -> (r: bool)
    ensures
        r == no_fights(fights_of(*v)),
{
    match fight_list(v) {
        Some(list) => list.is_empty(),
        None => true,
    }
}

/// The sum of the event counts that are given.
pub open spec fn event_sum(fights: Seq<FightView>) -> int
    decreases fights.len(),
{
    if fights.len() == 0 {
        0
    } else {
        event_sum(fights.drop_last()) + (match fights.last().event_count {
            Some(n) => n as int,
            None => 0,
        })
    }
}

/// The events of all `fights`, as far as they are counted. A sum beyond `i64`
/// wraps around.
pub fn total_events(fights: &Vec<Fight>) -> (r: i64)
    ensures
        r == event_sum(views(fights@)) as i64,
{
    let n = fights.len();
    let mut sum: i128 = 0;
    let mut i: usize = 0;
    let ghost all = views(fights@);
    assert(all.take(0) =~= Seq::<FightView>::empty());
    while i < n
        invariant
            all == views(fights@),
            i <= n == fights@.len(),
            sum == event_sum(all.take(i as int)),
            -0x8000_0000_0000_0000 * i <= sum <= 0x8000_0000_0000_0000 * i,
        decreases n - i,
    {
        assert(all.take(i + 1).drop_last() =~= all.take(i as int));
        assert(all.take(i + 1).last() == fights@[i as int]@);
        if let Some(count) = fights[i].event_count {
            sum = sum + count as i128;
        }
        i += 1;
    }
    assert(all.take(i as int) =~= all);
    sum as i64
}

/// The fight's first event has a time stamp.
pub open spec fn timed(fight: FightView) -> bool {
    span_of(fight.events).0 >= 0
}

/// A committed batch that is too short or too empty to be a real fight: no list,
/// no events, or every time stamp less than a second behind every other.
pub open spec fn sliver(fights: Option<Seq<FightView>>) -> bool {
    match fights {
        None => true,
        Some(list) => {
            ||| event_sum(list) as i64 == 0
            ||| forall|i: int, j: int|
                #![trigger timed(list[i]), timed(list[j])]
                0 <= i < list.len() && 0 <= j < list.len() && timed(list[i]) && timed(list[j])
                    ==> span_of(list[j].events).1 - span_of(list[i].events).0
                    < MIN_FORCED_FIGHT_MS
        },
    }
}

/// Whether `fights` are too short or too empty to be a real fight. The span is
/// measured from the fights' own event time stamps.
pub fn sliver_of(fights: &Vec<Fight>) -> (r: bool)
    ensures
        r == sliver(Some(views(fights@))),
{
    if total_events(fights) == 0 {
        return true;
    }
    let ghost all = views(fights@);
    let mut first: i64 = i64::MAX;
    let mut last: i64 = i64::MIN;
    let mut seen = false;
    let ghost mut at_first: int = 0;
    let ghost mut at_last: int = 0;
    let mut i: usize = 0;
    while i < fights.len()
        invariant
            all == views(fights@),
            i <= fights@.len(),
            !seen ==> first == i64::MAX && last == i64::MIN,
            !seen ==> forall|k: int| 0 <= k < i ==> !timed(#[trigger] all[k]),
            seen ==> {
                &&& 0 <= at_first < i
                &&& timed(all[at_first])
                &&& first == span_of(all[at_first].events).0
                &&& 0 <= at_last < i
                &&& timed(all[at_last])
                &&& last == span_of(all[at_last].events).1
            },
            first >= 0,
            forall|k: int|
                0 <= k < i && timed(#[trigger] all[k]) ==> first <= span_of(all[k].events).0
                    && span_of(all[k].events).1 <= last,
        decreases fights@.len() - i,
    {
        let (a, b) = fight_span(fights[i].events);
        assert(all[i as int] == fights@[i as int]@);
        if a >= 0 {
            assert(timed(all[i as int]));
            if !seen || a < first {
                first = a;
                proof {
                    at_first = i as int;
                }
            }
            if !seen || b > last {
                last = b;
                proof {
                    at_last = i as int;
                }
            }
            seen = true;
        }
        i += 1;
    }
    let r = first > last || last - first < MIN_FORCED_FIGHT_MS;
    proof {
        if seen && !r {
            assert(timed(all[at_first]) && timed(all[at_last]));
        }
    }
    r
}

/// Whether a committed batch is too short or too empty to be a real fight.
pub fn is_sliver(fd: &Value) -> (r: bool)
    ensures
        r == sliver(fights_of(*fd)),
{
    match read_fights(fd) {
        Some(fights) => sliver_of(&fights),
        None => true,
    }
}

// ---- what an upload reads of a parser reply -----------------------------------------

/// What an upload reads of a parser reply.
#[derive(Clone, Copy, PartialEq, Eq, Structural, Debug)]
pub struct FightData {
    /// The reply holds no fights.
    pub empty: bool,
    /// The fights are too short or too empty to be real ones.
    pub sliver: bool,
    /// How many events the fights have, wrapped around beyond `i64`.
    pub events: i64,
    /// How many events the first fight has; 0 where that is not said.
    pub first_count: i64,
    pub start_time: i64,
    pub end_time: i64,
    pub mythic: i32,
    pub log_version: i64,
    pub game_version: i64,
}

/// The integer in the field `key`, or 0.
pub open spec fn integer_or_zero(value: Value, key: Seq<char>) -> i64 {
    match json::integer_field(value, key) {
        Some(n) => n,
        None => 0,
    }
}

fn read_integer(value: &Value, key: &str) -> (r: i64)
    ensures
        r == integer_or_zero(*value, key@),
{
    match json::get_integer(value, key) {
        Some(n) => n,
        None => 0,
    }
}

/// The event count of the first fight, or 0.
pub open spec fn first_count(fights: Option<Seq<FightView>>) -> i64 {
    if no_fights(fights) {
        0
    } else {
        match fights->0[0].event_count {
            Some(n) => n,
            None => 0,
        }
    }
}

/// What a parser reply says.
pub open spec fn data_of(fd: Value) -> FightData {
    let fights = fights_of(fd);
    FightData {
        empty: no_fights(fights),
        sliver: sliver(fights),
        events: match fights {
            Some(list) => event_sum(list) as i64,
            None => 0,
        },
        first_count: first_count(fights),
        start_time: integer_or_zero(fd, "startTime"@),
        end_time: integer_or_zero(fd, "endTime"@),
        mythic: integer_or_zero(fd, "mythic"@) as i32,
        log_version: integer_or_zero(fd, "logVersion"@),
        game_version: integer_or_zero(fd, "gameVersion"@),
    }
}

/// Reads a parser reply.
pub fn fight_data(fd: &Value) -> (r: FightData)
    ensures
        r == data_of(*fd),
{
    let (empty, sliver, events, first_count) = match read_fights(fd) {
        Some(fights) => {
            assert(fights@.len() == views(fights@).len());
            let first_count = if fights.len() == 0 {
                0
            } else {
                assert(views(fights@)[0] == fights@[0]@);
                match fights[0].event_count {
                    Some(n) => n,
                    None => 0,
                }
            };
            (fights.len() == 0, sliver_of(&fights), total_events(&fights), first_count)
        },
        None => (true, true, 0, 0),
    };
    FightData {
        empty,
        sliver,
        events,
        first_count,
        start_time: read_integer(fd, "startTime"),
        end_time: read_integer(fd, "endTime"),
        mythic: read_integer(fd, "mythic") as i32,
        log_version: read_integer(fd, "logVersion"),
        game_version: read_integer(fd, "gameVersion"),
    }
}

/// What the journal records of one fight of a segment.
pub struct FightMeta {
    /// The event count as the parser gave it.
    pub events: Option<Value>,
    pub first_ts: i64,
    pub last_ts: i64,
    /// The fingerprint of the event lines.
    pub hash: String,
}

/// The record tells of the fight that `item` describes.
pub open spec fn meta_of(meta: FightMeta, item: Value) -> bool {
    let events = fight_of(item).events;
    &&& meta.events == json::field_of(item, "eventCount"@)
    &&& (meta.first_ts, meta.last_ts) == span_of(events)
    &&& meta.hash@ == fingerprint(events)
}

/// The records of the fights of a parser reply, so that what was sent can be told
/// apart later.
pub fn fight_meta(fd: &Value) -> (r: Vec<FightMeta>)
    ensures
        match fight_items(*fd) {
            Some(items) => {
                &&& r@.len() == items.len()
                &&& forall|i: int|
                    0 <= i < items.len() ==> meta_of(#[trigger] r@[i], items[i])
            },
            None => r@.len() == 0,
        },
{
    let mut metas: Vec<FightMeta> = Vec::new();
    let list = match fight_list(fd) {
        Some(list) => list,
        None => {
            return metas;
        },
    };
    let mut i: usize = 0;
    while i < list.len()
        invariant
            fight_items(*fd) == Some(list@),
            i <= list@.len(),
            metas@.len() == i,
            forall|k: int| 0 <= k < i ==> meta_of(#[trigger] metas@[k], list@[k]),
        decreases list@.len() - i,
    {
        let item = &list[i];
        let events = match json::get_text(item, "eventsString") {
            Some(text) => text,
            None => "",
        };
        proof {
            reveal_strlit("");
            assert(""@ =~= Seq::<char>::empty());
        }
        let (first_ts, last_ts) = fight_span(events);
        let count = match json::field(item, "eventCount") {
            Some(v) => Some(json::copy_of(v)),
            None => None,
        };
        metas.push(FightMeta { events: count, first_ts, last_ts, hash: content_hash(events) });
        i += 1;
    }
    metas
}

// ---- what the readings are -------------------------------------------------------------

/// A line's time stamp is the number before its first `|`. Lines without a number there
/// have none, written as -1.
pub proof fn lines_are_stamped_before_their_bar(t: nat, front: Seq<char>, rest: Seq<char>)
    requires
        forall|i: int| 0 <= i < front.len() ==> #[trigger] front[i] != '|',
    ensures
        t <= 0x7fff_ffff_ffff_ffff ==> stamp_of(numbers::decimal(t) + seq!['|'] + rest) == t,
        t <= 0x7fff_ffff_ffff_ffff ==> stamp_of(numbers::decimal(t)) == t,
        t <= 0x8000_0000_0000_0000 ==> stamp_of(
            seq!['-'] + numbers::decimal(t) + seq!['|'] + rest,
        ) == -(t as int),
        t > 0x7fff_ffff_ffff_ffff ==> stamp_of(numbers::decimal(t) + seq!['|'] + rest) == -1,
        stamp_of(front + seq!['|'] + rest) == stamp_of(front),
        numbers::i64_of(front) is None ==> stamp_of(front) == -1,
        numbers::i64_of(front) matches Some(n) ==> stamp_of(front) == n,
{
    let d = numbers::decimal(t);
    numbers::decimal_round_trip(t);
    assert forall|i: int| 0 <= i < d.len() implies '0' <= #[trigger] d[i] <= '9' by {
        assert(numbers::is_digit(d[i]));
    }
    numbers::digits_are_read(d);
    assert(text::lacks(d, '|'));
    text::a_front_stands_before(d, '|', rest);
    assert(text::lacks(front, '|'));
    text::a_front_stands_before(front, '|', rest);
    let minus = seq!['-'] + d;
    assert(text::lacks(minus, '|'));
    text::a_front_stands_before(minus, '|', rest);
}

/// A fight's span goes from the stamp of its first line to that of its last, empty lines
/// left out.
pub proof fn spans_reach_from_the_first_line_to_the_last(
    lead: Seq<char>,
    first: Seq<char>,
    between: Seq<char>,
    last: Seq<char>,
    trail: Seq<char>,
)
    requires
        forall|i: int| 0 <= i < lead.len() ==> #[trigger] lead[i] == '\n',
        forall|i: int| 0 <= i < trail.len() ==> #[trigger] trail[i] == '\n',
        first.len() > 0,
        forall|i: int| 0 <= i < first.len() ==> #[trigger] first[i] != '\n',
        last.len() > 0,
        forall|i: int| 0 <= i < last.len() ==> #[trigger] last[i] != '\n',
    ensures
        span_of(lead + first + seq!['\n'] + between + seq!['\n'] + last + trail) == (
            stamp_of(first),
            stamp_of(last),
        ),
        span_of(lead + first + seq!['\n'] + last + trail) == (stamp_of(first), stamp_of(last)),
        span_of(lead + first + trail) == (stamp_of(first), stamp_of(first)),
        span_of(lead) == (-1i64, -1i64),
{
    assert(text::all_are(lead, '\n') && text::all_are(trail, '\n'));
    assert(text::lacks(first, '\n') && text::lacks(last, '\n'));
    let long = lead + first + seq!['\n'] + between + seq!['\n'] + last + trail;
    text::the_first_piece_follows_the_separators(
        lead,
        first,
        '\n',
        between + seq!['\n'] + last + trail,
    );
    assert(long =~= lead + first + seq!['\n'] + (between + seq!['\n'] + last + trail));
    text::the_last_piece_precedes_the_separators(
        lead + first + seq!['\n'] + between,
        '\n',
        last,
        trail,
    );
    let two = lead + first + seq!['\n'] + last + trail;
    text::the_first_piece_follows_the_separators(lead, first, '\n', last + trail);
    assert(two =~= lead + first + seq!['\n'] + (last + trail));
    text::the_last_piece_precedes_the_separators(lead + first, '\n', last, trail);
    let one = lead + first + trail;
    if trail.len() > 0 {
        text::the_first_piece_follows_the_separators(lead, first, '\n', trail.drop_first());
        assert(one =~= lead + first + seq!['\n'] + trail.drop_first());
    } else {
        assert(one =~= lead + first);
    }
    if lead.len() > 0 {
        text::the_last_piece_precedes_the_separators(lead.drop_last(), '\n', first, trail);
        assert(one =~= lead.drop_last() + seq!['\n'] + first + trail);
    } else {
        text::the_last_piece_precedes_the_separators(lead, '\n', first, trail);
        assert(one =~= first + trail);
    }
    text::the_last_piece_precedes_the_separators(lead, '\n', first, lead);
    let none = Seq::<char>::empty();
    numbers::other_text_is_no_number(none, 0);
    text::a_front_stands_before(none, '|', none);
}

/// The events of a batch add up.
pub proof fn events_add_up(a: Seq<FightView>, fight: FightView, b: Seq<FightView>)
    ensures
        event_sum(Seq::empty()) == 0,
        fight.event_count matches Some(n) ==> event_sum(seq![fight]) == n,
        fight.event_count is None ==> event_sum(seq![fight]) == 0,
        event_sum(a + b) == event_sum(a) + event_sum(b),
    decreases b.len(),
{
    reveal_with_fuel(event_sum, 2);
    assert(seq![fight].drop_last() =~= Seq::<FightView>::empty());
    if b.len() == 0 {
        assert(a + b =~= a);
    } else {
        events_add_up(a, fight, b.drop_last());
        assert((a + b).drop_last() =~= a + b.drop_last());
        assert((a + b).last() == b.last());
    }
}

/// A batch with events is a fight where its time stamps lie a second or more apart, from
/// the first of one fight to the last of the same or another. Fights whose first line has
/// no stamp do not count.
pub proof fn fights_of_a_second_are_no_slivers(list: Seq<FightView>, i: int, j: int)
    ensures
        ({
            &&& event_sum(list) as i64 != 0
            &&& 0 <= i < list.len()
            &&& 0 <= j < list.len()
            &&& span_of(list[i].events).0 >= 0
            &&& span_of(list[j].events).0 >= 0
            &&& span_of(list[j].events).1 - span_of(list[i].events).0 >= 1000
        }) ==> !sliver(Some(list)),
        !sliver(Some(list)) ==> event_sum(list) as i64 != 0 && exists|a: int, b: int| {
            &&& 0 <= a < list.len()
            &&& 0 <= b < list.len()
            &&& span_of(#[trigger] list[a].events).0 >= 0
            &&& span_of(#[trigger] list[b].events).0 >= 0
            &&& span_of(list[b].events).1 - span_of(list[a].events).0 >= 1000
        },
        sliver(None),
        event_sum(list) as i64 == 0 ==> sliver(Some(list)),
{
    if 0 <= i < list.len() && 0 <= j < list.len() {
        assert(timed(list[i]) == (span_of(list[i].events).0 >= 0));
        assert(timed(list[j]) == (span_of(list[j].events).0 >= 0));
    }
    if !sliver(Some(list)) {
        let (a, b) = choose|a: int, b: int|
            #![trigger timed(list[a]), timed(list[b])]
            !(0 <= a < list.len() && 0 <= b < list.len() && timed(list[a]) && timed(list[b])
                ==> span_of(list[b].events).1 - span_of(list[a].events).0
                < MIN_FORCED_FIGHT_MS);
        assert(span_of(list[a].events).0 >= 0 && span_of(list[b].events).0 >= 0);
    }
}

/// A fight is read from the fields `eventCount` and `eventsString`.
pub proof fn fights_are_read_from_their_fields(item: Value)
    ensures
        fight_of(item).event_count == json::integer_field(item, "eventCount"@),
        json::text_field(item, "eventsString"@) matches Some(events) ==> fight_of(item).events
            == events,
        json::text_field(item, "eventsString"@) is None ==> fight_of(item).events.len() == 0,
{
}

/// The fights of a reply are the items of its list `fights`, one for one.
pub proof fn replies_list_their_fights(fd: Value)
    ensures
        json::field_of(fd, "fights"@) is None ==> fights_of(fd) is None,
        json::field_of(fd, "fights"@) matches Some(list) ==> match json::array_items(list) {
            Some(items) => fights_of(fd) matches Some(fights) && {
                &&& fights.len() == items.len()
                &&& forall|i: int| 0 <= i < items.len() ==> #[trigger] fights[i] == fight_of(items[i])
            },
            None => fights_of(fd) is None,
        },
{
}

/// What an upload reads of a reply, number by number.
pub proof fn replies_are_read_by_their_fields(fd: Value)
    ensures
        ({
            let data = data_of(fd);
            let or_zero = |n: Option<i64>|
                match n {
                    Some(n) => n,
                    None => 0i64,
                };
            &&& data.start_time == or_zero(json::integer_field(fd, "startTime"@))
            &&& data.end_time == or_zero(json::integer_field(fd, "endTime"@))
            &&& data.log_version == or_zero(json::integer_field(fd, "logVersion"@))
            &&& data.game_version == or_zero(json::integer_field(fd, "gameVersion"@))
            &&& data.mythic == or_zero(json::integer_field(fd, "mythic"@)) as i32
            &&& data.sliver == sliver(fights_of(fd))
            &&& fights_of(fd) is None ==> data.empty && data.events == 0 && data.first_count == 0
            &&& fights_of(fd) matches Some(fights) ==> {
                &&& data.empty == (fights.len() == 0)
                &&& data.events == event_sum(fights) as i64
                &&& fights.len() == 0 ==> data.first_count == 0
                &&& fights.len() > 0 ==> data.first_count == or_zero(fights[0].event_count)
            }
        }),
{
}

/// A fingerprint is the hasher's number in sixteen hexadecimal digits.
pub proof fn fingerprints_write_the_hash(text: Seq<char>, i: int)
    requires
        0 <= i < 16,
    ensures
        fingerprint(text).len() == 16,
        ({
            let n = DefaultHasher::spec_finish(text_writes(text)) as nat;
            let d = n / numbers::sixteen_to((15 - i) as nat) % 16;
            fingerprint(text)[i] == (if d < 10 {
                ('0' as int + d) as char
            } else {
                ('a' as int + (d - 10)) as char
            })
        }),
{
    numbers::hexadecimal_digits_stand_in_their_place(
        DefaultHasher::spec_finish(text_writes(text)) as nat,
        16,
        i,
    );
}

/// Each fight of a reply is recorded by its count as it was given, the stamps of its first
/// and last line, and the fingerprint of its lines.
pub proof fn fights_are_recorded_one_by_one(fd: &Value, records: Vec<FightMeta>, i: int)
    requires
        call_ensures(fight_meta, (fd,), records),
    ensures
        fight_items(*fd) is None ==> records@.len() == 0,
        fight_items(*fd) matches Some(items) ==> {
            &&& records@.len() == items.len()
            &&& 0 <= i < items.len() ==> {
                let events = fight_of(items[i]).events;
                &&& records@[i].events == json::field_of(items[i], "eventCount"@)
                &&& records@[i].first_ts == span_of(events).0
                &&& records@[i].last_ts == span_of(events).1
                &&& records@[i].hash@ == fingerprint(events)
            }
        },
{
    if fight_items(*fd) is Some && 0 <= i < records@.len() {
        assert(meta_of(records@[i], (fight_items(*fd)->0)[i]));
    }
}

} // verus!
