//! Numbers in text: decimal and hexadecimal digits, grouping, and reading
//! decimal numbers back.

use vstd::prelude::*;
use vstd::utf8::*;

use crate::text;

verus! {

broadcast use {vstd::string::group_string_axioms, vstd::seq::group_seq_axioms};

// ---- decimal digits -----------------------------------------------------------

/// The decimal digit for `d`, which is below ten.
pub open spec fn digit(d: nat) -> char {
    (48 + d) as char
}

pub open spec fn is_digit(c: char) -> bool {
    '0' <= c <= '9'
}

pub open spec fn all_digits(s: Seq<char>) -> bool {
    forall|i: int| 0 <= i < s.len() ==> is_digit(#[trigger] s[i])
}

/// The number that a run of decimal digits writes.
pub open spec fn digits_value(s: Seq<char>) -> nat
    decreases s.len(),
{
    if s.len() == 0 {
        0
    } else {
        (digits_value(s.drop_last()) * 10 + (s.last() as int - 48)) as nat
    }
}

/// `n` in decimal digits, without leading zeros.
pub open spec fn decimal(n: nat) -> Seq<char>
    decreases n,
{
    if n < 10 {
        seq![digit(n)]
    } else {
        decimal(n / 10).push(digit(n % 10))
    }
}

/// `n` in decimal digits, at least two of them.
pub open spec fn two_digits(n: nat) -> Seq<char> {
    if n < 10 {
        seq!['0', digit(n)]
    } else {
        decimal(n)
    }
}

/// Writing a number in decimal digits and reading them back gives the number.
pub proof fn decimal_round_trip(n: nat)
    ensures
        decimal(n).len() >= 1,
        all_digits(decimal(n)),
        digits_value(decimal(n)) == n,
    decreases n,
{
    reveal_with_fuel(digits_value, 2);
    if n < 10 {
        assert(decimal(n).drop_last() =~= Seq::<char>::empty());
        assert(decimal(n).last() == digit(n));
    } else {
        decimal_round_trip(n / 10);
        assert(decimal(n).drop_last() =~= decimal(n / 10));
        assert(decimal(n).last() == digit(n % 10));
    }
}

/// Different numbers have different decimal digits.
pub proof fn decimal_injective(a: nat, b: nat)
    requires
        decimal(a) == decimal(b),
    ensures
        a == b,
{
    decimal_round_trip(a);
    decimal_round_trip(b);
}

/// The character of a decimal digit.
fn digit_char(d: u8) -> (c: char)
    requires
        d < 10,
    ensures
        c == digit(d as nat),
{
    (48 + d) as char
}

/// Appends `n` in decimal digits to `out`.
pub fn push_decimal(out: &mut String, n: u128)
    ensures
        final(out)@ == old(out)@ + decimal(n as nat),
    decreases n,
{
    if n >= 10 {
        push_decimal(out, n / 10);
    }
    out.push(digit_char((n % 10) as u8));
    assert(out@ =~= old(out)@ + decimal(n as nat));
}

/// Appends `n` in decimal digits, at least two of them, to `out`.
pub fn push_two_digits(out: &mut String, n: u32)
    ensures
        final(out)@ == old(out)@ + two_digits(n as nat),
{
    if n < 10 {
        out.push('0');
    }
    push_decimal(out, n as u128);
    assert(out@ =~= old(out)@ + two_digits(n as nat));
}

// ---- groups of three ----------------------------------------------------------

/// `s` with a comma between groups of three, counted from the end.
pub open spec fn grouped(s: Seq<char>) -> Seq<char>
    decreases s.len(),
{
    if s.len() <= 3 {
        s
    } else {
        grouped(s.take(s.len() - 3)).push(',') + s.skip(s.len() - 3)
    }
}

/// `s` without its commas.
pub open spec fn without_commas(s: Seq<char>) -> Seq<char> {
    s.filter(|c: char| c != ',')
}

/// Taking the commas out of grouped digits gives the digits back.
pub proof fn grouping_keeps_digits(s: Seq<char>)
    requires
        all_digits(s),
    ensures
        without_commas(grouped(s)) == s,
    decreases s.len(),
{
    let keep = |c: char| c != ',';
    if s.len() <= 3 {
        lemma_filter_all(s);
    } else {
        let front = s.take(s.len() - 3);
        let back = s.skip(s.len() - 3);
        grouping_keeps_digits(front);
        lemma_filter_all(back);
        let g = grouped(front);
        assert(g.push(',').filter(keep) == g.filter(keep)) by {
            reveal(Seq::filter);
            assert(g.push(',').drop_last() =~= g);
        }
        Seq::filter_distributes_over_add(g.push(','), back, keep);
        assert(s =~= front + back);
    }
}

proof fn lemma_filter_all(s: Seq<char>)
    requires
        all_digits(s),
    ensures
        without_commas(s) == s,
    decreases s.len(),
{
    reveal(Seq::filter);
    if s.len() > 0 {
        assert(is_digit(s[s.len() - 1]));
        lemma_filter_all(s.drop_last());
        assert(s =~= s.drop_last().push(s.last()));
    }
}

/// Appends `n` in decimal digits with commas between groups of three to `out`.
fn push_grouped(out: &mut String, n: u128)
    ensures
        final(out)@ == old(out)@ + grouped(decimal(n as nat)),
    decreases n,
{
    if n < 1000 {
        push_decimal(out, n);
        proof {
            reveal_with_fuel(decimal, 4);
        }
    } else {
        push_grouped(out, n / 1000);
        out.push(',');
        out.push(digit_char((n / 100 % 10) as u8));
        out.push(digit_char((n / 10 % 10) as u8));
        out.push(digit_char((n % 10) as u8));
        proof {
            let m = n as nat;
            reveal_with_fuel(decimal, 4);
            decimal_round_trip(m / 1000);
            assert(m / 10 / 10 == m / 100);
            assert(m / 100 / 10 == m / 1000);
            let d = decimal(m);
            assert(d =~= decimal(m / 1000).push(digit(m / 100 % 10)).push(
                digit(m / 10 % 10),
            ).push(digit(m % 10)));
            assert(d.take(d.len() - 3) =~= decimal(m / 1000));
            assert(out@ =~= old(out)@ + grouped(d));
        }
    }
}

/// `n` in decimal digits with commas between groups of three: `12,345`.
pub fn format_with_commas(n: usize) -> (r: String)
    ensures
        r@ == grouped(decimal(n as nat)),
{
    let mut out = String::new();
    push_grouped(&mut out, n as u128);
    assert(out@ =~= grouped(decimal(n as nat)));
    out
}

// ---- hexadecimal --------------------------------------------------------------

/// The lower-case hexadecimal digit for `d`, which is below sixteen.
pub open spec fn hex_digit(d: nat) -> char {
    if d < 10 {
        (48 + d) as char
    } else {
        (87 + d) as char
    }
}

/// The last `width` hexadecimal digits of `n`.
pub open spec fn hex(n: nat, width: nat) -> Seq<char>
    decreases width,
{
    if width == 0 {
        Seq::empty()
    } else {
        hex(n / 16, (width - 1) as nat).push(hex_digit(n % 16))
    }
}

/// Appends the last `width` hexadecimal digits of `n` to `out`.
pub fn push_hex(out: &mut String, n: u64, width: u8)
    ensures
        final(out)@ == old(out)@ + hex(n as nat, width as nat),
    decreases width,
{
    if width > 0 {
        push_hex(out, n / 16, width - 1);
        let d = (n % 16) as u8;
        if d < 10 {
            out.push((48 + d) as char);
        } else {
            out.push((87 + d) as char);
        }
    }
    assert(out@ =~= old(out)@ + hex(n as nat, width as nat));
}

// ---- reading numbers ------------------------------------------------------------

/// The number that `s` writes, where `s` is one or more decimal digits.
pub open spec fn magnitude(s: Seq<char>) -> Option<nat> {
    if s.len() > 0 && all_digits(s) {
        Some(digits_value(s))
    } else {
        None
    }
}

/// The number that `s` writes: decimal digits behind an optional `+`.
pub open spec fn unsigned_number(s: Seq<char>) -> Option<nat> {
    if s.len() > 0 && s[0] == '+' {
        magnitude(s.drop_first())
    } else {
        magnitude(s)
    }
}

/// The number that `s` writes: decimal digits behind an optional `+` or `-`.
pub open spec fn signed_number(s: Seq<char>) -> Option<int> {
    if s.len() > 0 && s[0] == '-' {
        match magnitude(s.drop_first()) {
            Some(m) => Some(-(m as int)),
            None => None,
        }
    } else {
        match unsigned_number(s) {
            Some(m) => Some(m as int),
            None => None,
        }
    }
}

/// The `i64` that `s` writes; none where it writes no number or one out of range.
pub open spec fn i64_of(s: Seq<char>) -> Option<i64> {
    match signed_number(s) {
        Some(n) if i64::MIN <= n <= i64::MAX => Some(n as i64),
        _ => None,
    }
}

/// The `i32` that `s` writes; none where it writes no number or one out of range.
pub open spec fn i32_of(s: Seq<char>) -> Option<i32> {
    match signed_number(s) {
        Some(n) if i32::MIN <= n <= i32::MAX => Some(n as i32),
        _ => None,
    }
}

/// The `u32` that `s` writes; none where it writes no number or one out of range.
pub open spec fn u32_of(s: Seq<char>) -> Option<u32> {
    match unsigned_number(s) {
        Some(n) if n <= u32::MAX => Some(n as u32),
        _ => None,
    }
}

/// Each byte as the character of its number.
pub open spec fn chars_of(b: Seq<u8>) -> Seq<char> {
    b.map_values(|x: u8| x as char)
}

proof fn lemma_chars_of_ascii(s: Seq<char>)
    requires
        is_ascii_chars(s),
    ensures
        chars_of(encode_utf8(s)) == s,
{
    is_ascii_chars_encode_utf8(s);
    assert forall|i: int| 0 <= i < s.len() implies chars_of(encode_utf8(s))[i] == s[i] by {
        assert(encode_utf8(s)[i] == s[i] as u8);
    }
    assert(chars_of(encode_utf8(s)) =~= s);
}

proof fn lemma_no_number(s: Seq<char>, i: int)
    requires
        0 <= i < s.len(),
        s[i] as u32 >= 0x80,
    ensures
        signed_number(s) is None,
        unsigned_number(s) is None,
{
    if i > 0 {
        assert(s.drop_first()[i - 1] == s[i]);
        assert(!is_digit(s.drop_first()[i - 1]));
    }
    assert(!is_digit(s[i]));
}

/// Where a text holds a character beyond ASCII, so do its bytes.
proof fn lemma_beyond_ascii(s: Seq<char>, i: int) -> (k: int)
    requires
        0 <= i < s.len(),
        s[i] as u32 >= 0x80,
    ensures
        0 <= k < encode_utf8(s).len(),
        encode_utf8(s)[k] >= 0x80,
{
    let front = s.take(i);
    let back = s.skip(i);
    assert(s =~= front + back);
    text::lemma_encode_concat(front, back);
    text::lemma_encode_char(s[i]);
    assert(back[0] == s[i]);
    assert(encode_utf8(back)[0] == encode_scalar(s[i] as u32)[0]);
    encode_utf8(front).len() as int
}

proof fn lemma_not_ascii(c: char)
    requires
        !('\0' <= c <= '\u{7f}'),
    ensures
        c as u32 >= 0x80,
{
}

/// A text and its bytes write the same numbers.
pub proof fn lemma_number_bytes(s: Seq<char>)
    ensures
        signed_number(chars_of(encode_utf8(s))) == signed_number(s),
        unsigned_number(chars_of(encode_utf8(s))) == unsigned_number(s),
{
    if is_ascii_chars(s) {
        lemma_chars_of_ascii(s);
    } else {
        let i = choose|i: int| 0 <= i < s.len() && !('\0' <= #[trigger] s[i] <= '\u{7f}');
        lemma_not_ascii(s[i]);
        let k = lemma_beyond_ascii(s, i);
        lemma_no_number(s, i);
        lemma_no_number(chars_of(encode_utf8(s)), k);
    }
}

/// What a run of bytes writes as decimal digits.
enum Magnitude {
    /// No digits, or something else among them.
    Malformed,
    /// A number beyond `u64`.
    Huge,
    Value(u64),
}

spec fn measures(m: Magnitude, s: Seq<char>) -> bool {
    match m {
        Magnitude::Malformed => magnitude(s) is None,
        Magnitude::Huge => magnitude(s) is Some && magnitude(s)->0 > u64::MAX,
        Magnitude::Value(v) => magnitude(s) == Some(v as nat),
    }
}

fn read_magnitude(b: &[u8], lo: usize, hi: usize) -> (r: Magnitude)
    requires
        lo <= hi <= b@.len(),
    ensures
        measures(r, chars_of(b@.subrange(lo as int, hi as int))),
{
    let ghost s = chars_of(b@.subrange(lo as int, hi as int));
    if lo == hi {
        return Magnitude::Malformed;
    }
    let mut at: usize = lo;
    let mut value: u64 = 0;
    let mut huge = false;
    assert(s.take(0) =~= Seq::<char>::empty());
    while at < hi
        invariant
            lo <= at <= hi <= b@.len(),
            s == chars_of(b@.subrange(lo as int, hi as int)),
            all_digits(s.take(at - lo)),
            !huge ==> digits_value(s.take(at - lo)) == value,
            huge ==> digits_value(s.take(at - lo)) > u64::MAX,
        decreases hi - at,
    {
        let d = b[at];
        assert(s[at - lo] == d as char);
        assert(s.take(at - lo + 1).drop_last() =~= s.take(at - lo));
        assert(s.take(at - lo + 1).last() == d as char);
        if d < 48 || d > 57 {
            assert(!is_digit(s[at - lo]));
            return Magnitude::Malformed;
        }
        if !huge {
            let next: u128 = value as u128 * 10 + (d - 48) as u128;
            if next > u64::MAX as u128 {
                huge = true;
            } else {
                value = next as u64;
            }
        }
        assert(all_digits(s.take(at - lo + 1))) by {
            assert forall|i: int| 0 <= i < at - lo + 1 implies is_digit(
                #[trigger] s.take(at - lo + 1)[i],
            ) by {
                if i < at - lo {
                    assert(is_digit(s.take(at - lo)[i]));
                }
            }
        }
        at += 1;
    }
    assert(s.take(hi - lo) =~= s);
    if huge {
        Magnitude::Huge
    } else {
        Magnitude::Value(value)
    }
}

/// The `i64` that the bytes of `b` from `lo` to `hi` write.
pub(crate) fn i64_at(b: &[u8], lo: usize, hi: usize) -> (r: Option<i64>)
    requires
        lo <= hi <= b@.len(),
    ensures
        r == i64_of(chars_of(b@.subrange(lo as int, hi as int))),
{
    let ghost s = chars_of(b@.subrange(lo as int, hi as int));
    if lo < hi && (b[lo] == 45 || b[lo] == 43) {
        assert(s[0] == b@[lo as int] as char);
        assert(s.drop_first() =~= chars_of(b@.subrange(lo + 1, hi as int)));
        let m = read_magnitude(b, lo + 1, hi);
        if b[lo] == 45 {
            match m {
                Magnitude::Value(v) if v <= 0x8000_0000_0000_0000 => Some(
                    (-(v as i128)) as i64,
                ),
                _ => None,
            }
        } else {
            match m {
                Magnitude::Value(v) if v <= 0x7fff_ffff_ffff_ffff => Some(v as i64),
                _ => None,
            }
        }
    } else {
        if lo < hi {
            assert(s[0] == b@[lo as int] as char);
        }
        match read_magnitude(b, lo, hi) {
            Magnitude::Value(v) if v <= 0x7fff_ffff_ffff_ffff => Some(v as i64),
            _ => None,
        }
    }
}

/// Reads a signed decimal number.
pub fn parse_i64(s: &str) -> (r: Option<i64>)
    ensures
        r == i64_of(s@),
{
    let b = s.as_bytes();
    proof {
        lemma_number_bytes(s@);
        assert(b@.subrange(0, b@.len() as int) =~= b@);
    }
    i64_at(b, 0, b.len())
}

/// Reads a signed decimal number.
pub fn parse_i32(s: &str) -> (r: Option<i32>)
    ensures
        r == i32_of(s@),
{
    match parse_i64(s) {
        Some(n) if n >= i32::MIN as i64 && n <= i32::MAX as i64 => Some(n as i32),
        _ => None,
    }
}

/// Reads a decimal number.
pub fn parse_u32(s: &str) -> (r: Option<u32>)
    ensures
        r == u32_of(s@),
{
    let b = s.as_bytes();
    proof {
        lemma_number_bytes(s@);
        let c = chars_of(b@);
        assert(b@.subrange(0, b@.len() as int) =~= b@);
        if b@.len() > 0 {
            assert(c[0] == b@[0] as char);
            assert(c.drop_first() =~= chars_of(b@.subrange(1, b@.len() as int)));
        }
    }
    let lo: usize = if b.len() > 0 && b[0] == 43 {
        1
    } else {
        0
    };
    match read_magnitude(b, lo, b.len()) {
        Magnitude::Value(v) if v <= u32::MAX as u64 => Some(v as u32),
        _ => None,
    }
}

// ---- what the digits are ---------------------------------------------------------------

/// Ten to the power of `n`.
pub open spec fn ten_to(n: nat) -> nat
    decreases n,
{
    if n == 0 {
        1
    } else {
        10 * ten_to((n - 1) as nat)
    }
}

/// Each digit of a number counts ten times the one behind it.
pub proof fn digits_count_by_their_place(a: Seq<char>, b: Seq<char>, c: char)
    requires
        all_digits(a),
        all_digits(b),
        '0' <= c <= '9',
    ensures
        digits_value(Seq::empty()) == 0,
        digits_value(seq![c]) == c as int - '0' as int,
        digits_value(a + b) == digits_value(a) * ten_to(b.len()) + digits_value(b),
    decreases b.len(),
{
    reveal_with_fuel(digits_value, 2);
    assert(seq![c].drop_last() =~= Seq::<char>::empty());
    if b.len() == 0 {
        assert(a + b =~= a);
        assert(digits_value(a) * ten_to(0) == digits_value(a)) by (nonlinear_arith)
            requires
                ten_to(0) == 1,
        ;
    } else {
        let front = b.drop_last();
        digits_count_by_their_place(a, front, c);
        assert((a + b).drop_last() =~= a + front);
        assert(is_digit(b[b.len() - 1]));
        let v = digits_value(a) as int;
        let t = ten_to(front.len()) as int;
        assert((a + b).last() == b.last());
        assert(v * (10 * t) == v * t * 10) by (nonlinear_arith);
        assert(ten_to(b.len()) == 10 * t);
        let d = b.last() as int - 48;
        assert(digits_value(a + b) == (v * t + digits_value(front)) * 10 + d);
        assert(digits_value(b) == digits_value(front) * 10 + d);
        assert(digits_value(a) * ten_to(b.len()) == v * (10 * t)) by (nonlinear_arith)
            requires
                ten_to(b.len()) == 10 * t,
                digits_value(a) == v,
        ;
    }
}

/// A number is written without leading zeros.
pub proof fn numbers_have_no_leading_zeros(n: nat)
    ensures
        n == 0 ==> decimal(n) == seq!['0'],
        n > 0 ==> decimal(n).len() > 0 && decimal(n)[0] != '0',
    decreases n,
{
    if n >= 10 {
        numbers_have_no_leading_zeros(n / 10);
        assert(decimal(n)[0] == decimal(n / 10)[0]);
    }
}

/// Two digits write a number below a hundred, and a larger one has no more than it needs.
pub proof fn two_digits_write_the_number(n: nat)
    ensures
        all_digits(two_digits(n)),
        digits_value(two_digits(n)) == n,
        n < 100 ==> two_digits(n).len() == 2,
        n >= 100 ==> two_digits(n)[0] != '0',
{
    reveal_with_fuel(digits_value, 3);
    reveal_with_fuel(decimal, 3);
    decimal_round_trip(n);
    numbers_have_no_leading_zeros(n);
    if n < 10 {
        let s = two_digits(n);
        assert(s.drop_last() =~= seq!['0']);
        assert(s.drop_last().drop_last() =~= Seq::<char>::empty());
    }
}

/// Every fourth character of grouped digits, counted from the end, is a comma, and no
/// other is.
pub proof fn commas_stand_between_groups_of_three(s: Seq<char>, i: int)
    requires
        all_digits(s),
        0 <= i < grouped(s).len(),
    ensures
        grouped(s)[i] == ',' <==> (grouped(s).len() - i) % 4 == 0,
        grouped(s).len() == s.len() + (s.len() - 1) / 3,
    decreases s.len(),
{
    if s.len() <= 3 {
        assert(is_digit(s[i]));
    } else {
        let front = s.take(s.len() - 3);
        let back = s.skip(s.len() - 3);
        let g = grouped(front);
        assert(grouped(s).len() == g.len() + 4);
        assert(all_digits(front));
        assert(front.len() > 0);
        lemma_grouped_len(front);
        if i < g.len() {
            commas_stand_between_groups_of_three(front, i);
            assert(grouped(s)[i] == g[i]);
        } else if i > g.len() {
            assert(grouped(s)[i] == back[i - g.len() - 1]);
            assert(is_digit(s[s.len() - 3 + (i - g.len() - 1)]));
        }
    }
}

proof fn lemma_grouped_len(s: Seq<char>)
    requires
        s.len() > 0,
    ensures
        grouped(s).len() == s.len() + (s.len() - 1) / 3,
    decreases s.len(),
{
    if s.len() > 3 {
        lemma_grouped_len(s.take(s.len() - 3));
    }
}

/// Sixteen to the power of `n`.
pub open spec fn sixteen_to(n: nat) -> nat
    decreases n,
{
    if n == 0 {
        1
    } else {
        16 * sixteen_to((n - 1) as nat)
    }
}

proof fn lemma_sixteen_positive(n: nat)
    ensures
        sixteen_to(n) > 0,
    decreases n,
{
    if n > 0 {
        lemma_sixteen_positive((n - 1) as nat);
    }
}

/// The digit at a place is the number's digit there, one of `0` to `9` and `a` to `f`.
pub proof fn hexadecimal_digits_stand_in_their_place(n: nat, width: nat, i: int)
    requires
        0 <= i < width,
    ensures
        hex(n, width).len() == width,
        ({
            let d = n / sixteen_to((width - 1 - i) as nat) % 16;
            hex(n, width)[i] == (if d < 10 {
                ('0' as int + d) as char
            } else {
                ('a' as int + (d - 10)) as char
            })
        }),
    decreases width,
{
    lemma_hex_len(n, width);
    lemma_hex_len(n / 16, (width - 1) as nat);
    if i < width - 1 {
        hexadecimal_digits_stand_in_their_place(n / 16, (width - 1) as nat, i);
        let e = (width - 2 - i) as nat;
        lemma_sixteen_positive(e);
        let t = sixteen_to(e) as int;
        vstd::arithmetic::div_mod::lemma_div_denominator(n as int, 16, t);
        assert(hex(n, width)[i] == hex(n / 16, (width - 1) as nat)[i]);
        assert(sixteen_to((width - 1 - i) as nat) == 16 * sixteen_to(e));
        assert(((width - 1) as nat - 1 - i) as nat == e);
    } else {
        assert(sixteen_to(0) == 1);
        assert(n as int / 1 == n);
        assert(hex(n, width)[i] == hex_digit(n % 16));
    }
}

proof fn lemma_hex_len(n: nat, width: nat)
    ensures
        hex(n, width).len() == width,
    decreases width,
{
    if width > 0 {
        lemma_hex_len(n / 16, (width - 1) as nat);
    }
}

/// Decimal digits are read as the number they write, behind a sign too.
pub proof fn digits_are_read(s: Seq<char>)
    requires
        s.len() > 0,
        forall|i: int| 0 <= i < s.len() ==> '0' <= #[trigger] s[i] <= '9',
    ensures
        ({
            let n = digits_value(s) as int;
            &&& signed_number(s) == Some(n)
            &&& signed_number(seq!['+'] + s) == Some(n)
            &&& signed_number(seq!['-'] + s) == Some(-n)
            &&& unsigned_number(s) == Some(n as nat)
            &&& unsigned_number(seq!['+'] + s) == Some(n as nat)
            &&& unsigned_number(seq!['-'] + s) is None
        }),
{
    assert(is_digit(s[0]));
    assert((seq!['+'] + s).drop_first() =~= s);
    assert((seq!['-'] + s).drop_first() =~= s);
    assert(!is_digit((seq!['-'] + s)[0]));
}

/// Text with anything else in it is no number, nor is a sign without digits, nor nothing.
pub proof fn other_text_is_no_number(s: Seq<char>, i: int)
    requires
        s.len() == 0 || (s.len() == 1 && (s[0] == '+' || s[0] == '-')) || (0 <= i < s.len() && !(
        '0' <= s[i] <= '9') && (i > 0 || (s[0] != '+' && s[0] != '-'))),
    ensures
        signed_number(s) is None,
        unsigned_number(s) is None,
{
    if s.len() > 0 && 0 <= i < s.len() {
        assert(s.len() > 1 && i > 0 ==> s.drop_first()[i - 1] == s[i]);
        if s.len() > 1 || !(s[0] == '+' || s[0] == '-') {
            assert(!is_digit(s[i]));
            if i > 0 {
                assert(!is_digit(s.drop_first()[i - 1]));
            }
        }
    }
    if s.len() == 1 && s[0] == '-' {
        assert(!is_digit(s[0]));
    }
}

/// A number is read where it fits.
pub proof fn numbers_that_fit_are_read(s: Seq<char>, n: int)
    requires
        signed_number(s) == Some(n),
    ensures
        -0x8000_0000_0000_0000 <= n <= 0x7fff_ffff_ffff_ffff ==> i64_of(s) == Some(n as i64)
            && i64_of(s)->0 == n,
        n < -0x8000_0000_0000_0000 || n > 0x7fff_ffff_ffff_ffff ==> i64_of(s) is None,
        -0x8000_0000 <= n <= 0x7fff_ffff ==> i32_of(s) == Some(n as i32) && i32_of(s)->0 == n,
        n < -0x8000_0000 || n > 0x7fff_ffff ==> i32_of(s) is None,
        unsigned_number(s) == Some(n as nat) && 0 <= n <= 0xffff_ffff ==> u32_of(s) == Some(
            n as u32,
        ) && u32_of(s)->0 == n,
        n > 0xffff_ffff ==> u32_of(s) is None,
{
}

/// What is no number is not read as one.
pub proof fn what_is_no_number_is_not_read(s: Seq<char>)
    ensures
        signed_number(s) is None ==> i64_of(s) is None && i32_of(s) is None,
        unsigned_number(s) is None ==> u32_of(s) is None,
{
}

} // verus!
