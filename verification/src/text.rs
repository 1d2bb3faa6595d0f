//! Text as sequences of characters: searching, cutting and splitting into lines.
//! Searches run over the UTF-8 bytes of a string; what they find is stated over its
//! characters.

use vstd::prelude::*;
use vstd::string::*;
use vstd::utf8::*;

verus! {

broadcast use {vstd::string::group_string_axioms, vstd::seq::group_seq_axioms};

/// `std::string::String::push`: appends one character to the end of a string.
pub assume_specification[ String::push ](string: &mut String, ch: char)
    ensures
        final(string)@ == old(string)@.push(ch),
;

// ---- pieces between separators ------------------------------------------------

/// What stands before the first `c`; all of `s` where there is none.
pub open spec fn before<T>(s: Seq<T>, c: T) -> Seq<T>
    decreases s.len(),
{
    if s.len() == 0 || s[0] == c {
        Seq::empty()
    } else {
        seq![s[0]] + before(s.drop_first(), c)
    }
}

/// What stands behind the last `c`; all of `s` where there is none.
pub open spec fn after_last<T>(s: Seq<T>, c: T) -> Seq<T>
    decreases s.len(),
{
    if s.len() == 0 || s.last() == c {
        Seq::empty()
    } else {
        after_last(s.drop_last(), c).push(s.last())
    }
}

/// `s` without the run of `c` that it starts with.
pub open spec fn without_leading<T>(s: Seq<T>, c: T) -> Seq<T>
    decreases s.len(),
{
    if s.len() > 0 && s[0] == c {
        without_leading(s.drop_first(), c)
    } else {
        s
    }
}

/// `s` without the run of `c` that it ends with.
pub open spec fn without_trailing<T>(s: Seq<T>, c: T) -> Seq<T>
    decreases s.len(),
{
    if s.len() > 0 && s.last() == c {
        without_trailing(s.drop_last(), c)
    } else {
        s
    }
}

/// The first piece of `s` between separators `c` that is not empty; empty where
/// there is no such piece.
pub open spec fn first_piece<T>(s: Seq<T>, c: T) -> Seq<T> {
    before(without_leading(s, c), c)
}

/// The last piece of `s` between separators `c` that is not empty; empty where
/// there is no such piece.
pub open spec fn last_piece<T>(s: Seq<T>, c: T) -> Seq<T> {
    after_last(without_trailing(s, c), c)
}

/// `needle` stands in `hay` at index `i`.
pub open spec fn occurs_at<T>(hay: Seq<T>, needle: Seq<T>, i: int) -> bool {
    &&& 0 <= i <= hay.len() - needle.len()
    &&& hay.subrange(i, i + needle.len()) == needle
}

/// `needle` stands somewhere in `hay`.
pub open spec fn contains_text<T>(hay: Seq<T>, needle: Seq<T>) -> bool {
    exists|i: int| occurs_at(hay, needle, i)
}

// ---- UTF-8 ----------------------------------------------------------------------

/// The encoding of a concatenation is the concatenation of the encodings.
pub proof fn lemma_encode_concat(a: Seq<char>, b: Seq<char>)
    ensures
        encode_utf8(a + b) == encode_utf8(a) + encode_utf8(b),
    decreases a.len(),
{
    if a.len() == 0 {
        assert(a + b =~= b);
    } else {
        assert((a + b).drop_first() =~= a.drop_first() + b);
        lemma_encode_concat(a.drop_first(), b);
        assert(encode_utf8(a + b) =~= encode_utf8(a) + encode_utf8(b));
    }
}

/// An ASCII character is encoded by the byte of its number; every byte of any
/// other character is at least 0x80.
pub proof fn lemma_encode_char(c: char)
    ensures
        encode_utf8(seq![c]) == encode_scalar(c as u32),
        encode_scalar(c as u32).len() >= 1,
        (c as u32) < 0x80 ==> encode_scalar(c as u32) == seq![c as u8] && encode_scalar(
            c as u32,
        )[0] as u32 == c as u32,
        (c as u32) >= 0x80 ==> forall|i: int|
            0 <= i < encode_scalar(c as u32).len() ==> #[trigger] encode_scalar(c as u32)[i]
                >= 0x80,
{
    assert(seq![c].drop_first() =~= Seq::<char>::empty());
    assert(encode_utf8(Seq::<char>::empty()) =~= Seq::<u8>::empty());
    assert(encode_utf8(seq![c]) =~= encode_scalar(c as u32));
    let v = c as u32;
    assert({
        &&& v < 0x80 ==> leading_byte_width_1(v) == v as u8
        &&& leading_byte_width_2(v) >= 0x80
        &&& leading_byte_width_3(v) >= 0x80
        &&& leading_byte_width_4(v) >= 0x80
        &&& last_continuation_byte(v) >= 0x80
        &&& second_last_continuation_byte(v) >= 0x80
        &&& third_last_continuation_byte(v) >= 0x80
    }) by (bit_vector);
}

/// A text is the encoding of all but its last character followed by that one's.
proof fn lemma_encode_back(s: Seq<char>)
    requires
        s.len() > 0,
    ensures
        encode_utf8(s) == encode_utf8(s.drop_last()) + encode_scalar(s.last() as u32),
{
    assert(s =~= s.drop_last() + seq![s.last()]);
    lemma_encode_concat(s.drop_last(), seq![s.last()]);
    lemma_encode_char(s.last());
}

/// Where `c` is not in a front, what stands before `c` starts with that front.
pub proof fn lemma_before_skips<T>(p: Seq<T>, r: Seq<T>, c: T)
    requires
        forall|i: int| 0 <= i < p.len() ==> p[i] != c,
    ensures
        before(p + r, c) == p + before(r, c),
    decreases p.len(),
{
    if p.len() == 0 {
        assert(p + r =~= r);
        assert(p + before(r, c) =~= before(r, c));
    } else {
        assert((p + r).drop_first() =~= p.drop_first() + r);
        lemma_before_skips(p.drop_first(), r, c);
        assert(before(p + r, c) =~= p + before(r, c));
    }
}

proof fn lemma_after_last_skips<T>(r: Seq<T>, p: Seq<T>, c: T)
    requires
        forall|i: int| 0 <= i < p.len() ==> p[i] != c,
    ensures
        after_last(r + p, c) == after_last(r, c) + p,
    decreases p.len(),
{
    if p.len() == 0 {
        assert(r + p =~= r);
        assert(after_last(r, c) + p =~= after_last(r, c));
    } else {
        assert((r + p).drop_last() =~= r + p.drop_last());
        lemma_after_last_skips(r, p.drop_last(), c);
        assert(after_last(r + p, c) =~= after_last(r, c) + p);
    }
}

/// No byte of a character's encoding is the byte of another, ASCII, character.
proof fn lemma_encode_other(a: char, c: char)
    requires
        (c as u32) < 0x80,
        a != c,
    ensures
        forall|i: int|
            0 <= i < encode_scalar(a as u32).len() ==> #[trigger] encode_scalar(a as u32)[i]
                != c as u8,
{
    lemma_encode_char(a);
}

/// `before` commutes with the encoding where the separator is ASCII.
pub proof fn lemma_before_bytes(s: Seq<char>, c: char)
    requires
        (c as u32) < 0x80,
    ensures
        before(encode_utf8(s), c as u8) == encode_utf8(before(s, c)),
    decreases s.len(),
{
    if s.len() > 0 {
        let e = encode_scalar(s[0] as u32);
        let rest = s.drop_first();
        lemma_encode_char(s[0]);
        if s[0] != c {
            lemma_encode_other(s[0], c);
            lemma_before_skips(e, encode_utf8(rest), c as u8);
            lemma_before_bytes(rest, c);
            assert(before(s, c).drop_first() =~= before(rest, c));
        }
    }
}

/// `after_last` commutes with the encoding where the separator is ASCII.
pub proof fn lemma_after_last_bytes(s: Seq<char>, c: char)
    requires
        (c as u32) < 0x80,
    ensures
        after_last(encode_utf8(s), c as u8) == encode_utf8(after_last(s, c)),
    decreases s.len(),
{
    if s.len() > 0 {
        let e = encode_scalar(s.last() as u32);
        let rest = s.drop_last();
        lemma_encode_char(s.last());
        lemma_encode_back(s);
        if s.last() != c {
            lemma_encode_other(s.last(), c);
            lemma_after_last_skips(encode_utf8(rest), e, c as u8);
            lemma_after_last_bytes(rest, c);
            lemma_encode_back(after_last(s, c));
            assert(after_last(s, c).drop_last() =~= after_last(rest, c));
        } else {
            assert(encode_utf8(s).last() == c as u8);
        }
    }
}

/// `without_leading` commutes with the encoding where the separator is ASCII.
pub proof fn lemma_without_leading_bytes(s: Seq<char>, c: char)
    requires
        (c as u32) < 0x80,
    ensures
        without_leading(encode_utf8(s), c as u8) == encode_utf8(without_leading(s, c)),
    decreases s.len(),
{
    if s.len() > 0 {
        let rest = s.drop_first();
        lemma_encode_char(s[0]);
        if s[0] == c {
            lemma_without_leading_bytes(rest, c);
            assert(encode_utf8(s).drop_first() =~= encode_utf8(rest));
        } else {
            lemma_encode_other(s[0], c);
            assert(encode_utf8(s)[0] == encode_scalar(s[0] as u32)[0]);
        }
    }
}

/// `without_trailing` commutes with the encoding where the separator is ASCII.
pub proof fn lemma_without_trailing_bytes(s: Seq<char>, c: char)
    requires
        (c as u32) < 0x80,
    ensures
        without_trailing(encode_utf8(s), c as u8) == encode_utf8(without_trailing(s, c)),
    decreases s.len(),
{
    if s.len() > 0 {
        let rest = s.drop_last();
        let e = encode_scalar(s.last() as u32);
        lemma_encode_char(s.last());
        lemma_encode_back(s);
        if s.last() == c {
            lemma_without_trailing_bytes(rest, c);
            assert(encode_utf8(s).drop_last() =~= encode_utf8(rest));
            assert(encode_utf8(s).last() == c as u8);
        } else {
            lemma_encode_other(s.last(), c);
            assert(encode_utf8(s).last() == e[e.len() - 1]);
        }
    }
}

/// An ASCII byte of an encoding is that of a character of the text.
pub proof fn lemma_ascii_byte(s: Seq<char>, i: int) -> (j: int)
    requires
        0 <= i < encode_utf8(s).len(),
        encode_utf8(s)[i] < 0x80,
    ensures
        0 <= j < s.len(),
        encode_utf8(s.take(j)) == encode_utf8(s).take(i),
        encode_utf8(s.skip(j)) == encode_utf8(s).skip(i),
        s[j] as u32 == encode_utf8(s)[i] as u32,
    decreases s.len(),
{
    let e = encode_scalar(s[0] as u32);
    let rest = s.drop_first();
    lemma_encode_char(s[0]);
    if i < e.len() {
        assert(encode_utf8(s)[i] == e[i]);
        assert(s.take(0) =~= Seq::<char>::empty());
        assert(encode_utf8(s).take(0) =~= Seq::<u8>::empty());
        assert(s.skip(0) =~= s);
        assert(encode_utf8(s).skip(0) =~= encode_utf8(s));
        0
    } else {
        let k = lemma_ascii_byte(rest, i - e.len());
        assert(s.take(k + 1).drop_first() =~= rest.take(k));
        assert(encode_utf8(s.take(k + 1)) =~= encode_utf8(s).take(i));
        assert(s.skip(k + 1) =~= rest.skip(k));
        assert(encode_utf8(s).skip(i) =~= encode_utf8(rest).skip(i - e.len()));
        k + 1
    }
}

/// A text whose encoding starts with that of an ASCII text starts with it.
proof fn lemma_ascii_prefix(s: Seq<char>, n: Seq<char>)
    requires
        is_ascii_chars(n),
        n.len() <= encode_utf8(s).len(),
        encode_utf8(s).take(n.len() as int) == encode_utf8(n),
    ensures
        n.len() <= s.len(),
        s.take(n.len() as int) == n,
    decreases n.len(),
{
    is_ascii_chars_encode_utf8(n);
    if n.len() == 0 {
        assert(s.take(0) =~= n);
    } else {
        lemma_encode_char(n[0]);
        assert(encode_utf8(s)[0] == encode_utf8(s).take(n.len() as int)[0]);
        assert(encode_utf8(n)[0] == n[0] as u8);
        assert(s.len() > 0);
        lemma_encode_char(s[0]);
        assert(encode_utf8(s)[0] == encode_scalar(s[0] as u32)[0]);
        assert(encode_utf8(n)[0] == encode_scalar(n[0] as u32)[0]);
        assert((n[0] as u32) < 0x80);
        char_u32_cast(s[0], s[0] as u32);
        char_u32_cast(n[0], s[0] as u32);
        let rest = s.drop_first();
        let tail = n.drop_first();
        assert(encode_utf8(rest) =~= encode_utf8(s).drop_first());
        assert(encode_utf8(tail) =~= encode_utf8(n).drop_first());
        is_ascii_chars_encode_utf8(tail);
        assert(encode_utf8(rest).take(tail.len() as int) =~= encode_utf8(s).take(
            n.len() as int,
        ).drop_first());
        lemma_ascii_prefix(rest, tail);
        assert(s.take(n.len() as int) =~= seq![s[0]] + rest.take(tail.len() as int));
        assert(n =~= seq![n[0]] + tail);
    }
}

/// An ASCII text stands in another exactly where its bytes stand in the other's.
pub proof fn lemma_contains_bytes(hay: Seq<char>, needle: Seq<char>)
    requires
        is_ascii_chars(needle),
        needle.len() > 0,
    ensures
        contains_text(encode_utf8(hay), encode_utf8(needle)) <==> contains_text(hay, needle),
{
    let hb = encode_utf8(hay);
    let nb = encode_utf8(needle);
    is_ascii_chars_encode_utf8(needle);
    if contains_text(hay, needle) {
        let i = choose|i: int| occurs_at(hay, needle, i);
        let end = i + needle.len();
        let a = hay.take(i);
        let b = hay.skip(end);
        assert(hay =~= a + (needle + b));
        lemma_encode_concat(a, needle + b);
        lemma_encode_concat(needle, b);
        let k = encode_utf8(a).len() as int;
        assert(hb =~= encode_utf8(a) + nb + encode_utf8(b));
        assert(hb.subrange(k, k + nb.len()) =~= nb);
        assert(occurs_at(hb, nb, k));
    }
    if contains_text(hb, nb) {
        let i = choose|i: int| occurs_at(hb, nb, i);
        assert(hb.subrange(i, i + nb.len())[0] == hb[i]);
        assert(nb[0] == needle[0] as u8);
        let j = lemma_ascii_byte(hay, i);
        assert(encode_utf8(hay.skip(j)).take(nb.len() as int) =~= hb.subrange(i, i + nb.len()));
        lemma_ascii_prefix(hay.skip(j), needle);
        assert(hay.subrange(j, j + needle.len()) =~= hay.skip(j).take(needle.len() as int));
        assert(occurs_at(hay, needle, j));
    }
}

// ---- searching ----------------------------------------------------------------

fn bytes_at(hay: &[u8], needle: &[u8], at: usize) -> (r: bool)
    requires
        at + needle@.len() <= hay@.len(),
    ensures
        r == occurs_at(hay@, needle@, at as int),
{
    let n = needle.len();
    let total = hay.len();
    let mut k: usize = 0;
    while k < n
        invariant
            n == needle@.len(),
            total == hay@.len(),
            at + n <= total,
            k <= n,
            forall|i: int| 0 <= i < k ==> hay@[at + i] == #[trigger] needle@[i],
        decreases n - k,
    {
        if hay[at + k] != needle[k] {
            assert(hay@.subrange(at as int, at + n)[k as int] == hay@[at + k]);
            return false;
        }
        k += 1;
    }
    assert(hay@.subrange(at as int, at + n) =~= needle@);
    true
}

/// Whether the ASCII text `needle` stands somewhere in `hay`.
pub(crate) fn contains(hay: &str, needle: &str) -> (r: bool)
    requires
        needle.is_ascii(),
        needle@.len() > 0,
    ensures
        r == contains_text(hay@, needle@),
{
    let h = hay.as_bytes();
    let n = needle.as_bytes();
    proof {
        lemma_contains_bytes(hay@, needle@);
    }
    if h.len() < n.len() {
        return false;
    }
    let total = h.len();
    let last = total - n.len();
    let mut at: usize = 0;
    while at <= last
        invariant
            last + n@.len() == h@.len() == total,
            at <= last + 1,
            n@ == encode_utf8(needle@),
            h@ == encode_utf8(hay@),
            contains_text(h@, n@) <==> contains_text(hay@, needle@),
            forall|i: int| 0 <= i < at ==> !occurs_at(h@, n@, i),
            n@.len() > 0,
        decreases last + 1 - at,
    {
        if bytes_at(h, n, at) {
            return true;
        }
        at += 1;
    }
    false
}

/// The bounds in `b` of its first piece between separators that is not empty.
pub(crate) fn first_piece_bounds(b: &[u8], sep: u8) -> (r: (usize, usize))
    ensures
        r.0 <= r.1 <= b@.len(),
        b@.subrange(r.0 as int, r.1 as int) == first_piece(b@, sep),
{
    let mut lo: usize = 0;
    assert(b@.skip(0) =~= b@);
    while lo < b.len() && b[lo] == sep
        invariant
            lo <= b@.len(),
            without_leading(b@, sep) == without_leading(b@.skip(lo as int), sep),
        decreases b@.len() - lo,
    {
        assert(b@.skip(lo as int).drop_first() =~= b@.skip(lo + 1));
        lo += 1;
    }
    let hi = piece_end(b, sep, lo);
    (lo, hi)
}

/// Where the piece of `b` that starts at `lo` ends.
pub(crate) fn piece_end(b: &[u8], sep: u8, lo: usize) -> (hi: usize)
    requires
        lo <= b@.len(),
    ensures
        lo <= hi <= b@.len(),
        b@.subrange(lo as int, hi as int) == before(b@.skip(lo as int), sep),
        hi < b@.len() ==> b@[hi as int] == sep,
{
    let mut hi: usize = lo;
    assert(b@.subrange(lo as int, lo as int) =~= Seq::<u8>::empty());
    while hi < b.len() && b[hi] != sep
        invariant
            lo <= hi <= b@.len(),
            before(b@.skip(lo as int), sep) =~= b@.subrange(lo as int, hi as int) + before(
                b@.skip(hi as int),
                sep,
            ),
        decreases b@.len() - hi,
    {
        assert(b@.skip(hi as int).drop_first() =~= b@.skip(hi + 1));
        assert(b@.subrange(lo as int, hi + 1) =~= b@.subrange(lo as int, hi as int).push(
            b@[hi as int],
        ));
        hi += 1;
    }
    hi
}

/// The bounds in `b` of its last piece between separators that is not empty.
pub(crate) fn last_piece_bounds(b: &[u8], sep: u8) -> (r: (usize, usize))
    ensures
        r.0 <= r.1 <= b@.len(),
        b@.subrange(r.0 as int, r.1 as int) == last_piece(b@, sep),
{
    let mut hi: usize = b.len();
    assert(b@.take(hi as int) =~= b@);
    while hi > 0 && b[hi - 1] == sep
        invariant
            hi <= b@.len(),
            without_trailing(b@, sep) == without_trailing(b@.take(hi as int), sep),
        decreases hi,
    {
        assert(b@.take(hi as int).drop_last() =~= b@.take(hi - 1));
        hi -= 1;
    }
    let mut lo: usize = hi;
    assert(b@.subrange(hi as int, hi as int) =~= Seq::<u8>::empty());
    while lo > 0 && b[lo - 1] != sep
        invariant
            lo <= hi <= b@.len(),
            after_last(b@.take(hi as int), sep) =~= after_last(b@.take(lo as int), sep)
                + b@.subrange(lo as int, hi as int),
        decreases lo,
    {
        assert(b@.take(lo as int).drop_last() =~= b@.take(lo - 1));
        assert(b@.subrange(lo - 1, hi as int) =~= seq![b@[lo - 1]] + b@.subrange(
            lo as int,
            hi as int,
        ));
        lo -= 1;
    }
    (lo, hi)
}

// ---- lines ------------------------------------------------------------------------

/// A line without the carriage return at its end.
pub open spec fn without_return(line: Seq<char>) -> Seq<char> {
    if line.len() > 0 && line.last() == '\r' {
        line.drop_last()
    } else {
        line
    }
}

/// The lines of a text. A line ends at a line feed or at a carriage return with a
/// line feed behind it; the end of the last line is optional.
pub open spec fn lines_of(s: Seq<char>) -> Seq<Seq<char>>
    decreases s.len(),
{
    if s.len() == 0 {
        Seq::empty()
    } else {
        let line = before(s, '\n');
        if line.len() >= s.len() {
            seq![line]
        } else {
            seq![without_return(line)] + lines_of(s.skip(line.len() as int + 1))
        }
    }
}

/// What stands before the first `c` is a front of `s`, and `c` follows it.
proof fn lemma_before_front<T>(s: Seq<T>, c: T)
    ensures
        before(s, c).len() <= s.len(),
        s.take(before(s, c).len() as int) == before(s, c),
        before(s, c).len() < s.len() ==> s[before(s, c).len() as int] == c,
    decreases s.len(),
{
    if s.len() > 0 && s[0] != c {
        let t = s.drop_first();
        lemma_before_front(t, c);
        let n = before(t, c).len() as int;
        assert(s.take(n + 1) =~= seq![s[0]] + t.take(n));
    } else {
        assert(s.take(0) =~= Seq::<T>::empty());
    }
}

/// The end of a front of a text is the start of a character, or the text's end.
proof fn lemma_boundary(head: Seq<char>, tail: Seq<char>)
    ensures
        is_char_boundary(encode_utf8(head + tail), encode_utf8(head).len() as int),
    decreases head.len(),
{
    let s = head + tail;
    encode_utf8_valid_utf8(s);
    if head.len() > 0 {
        let rest = head.drop_first();
        let bytes = encode_utf8(s);
        assert(s.drop_first() =~= rest + tail);
        encode_utf8_first_scalar(s);
        lemma_encode_char(s[0]);
        assert(pop_first_scalar(bytes) =~= encode_utf8(rest + tail));
        lemma_encode_concat(head, tail);
        lemma_boundary(rest, tail);
        assert(encode_utf8(head).len() == encode_scalar(s[0] as u32).len() + encode_utf8(
            rest,
        ).len());
    }
}

/// Cuts a string in two at a byte that ends a front of it.
fn cut(s: &str, at: usize, Ghost(head): Ghost<Seq<char>>, Ghost(tail): Ghost<Seq<char>>) -> (r: (
    &str,
    &str,
))
    requires
        s@ == head + tail,
        at == encode_utf8(head).len(),
    ensures
        r.0@ == head,
        r.1@ == tail,
{
    proof {
        lemma_boundary(head, tail);
        lemma_encode_concat(head, tail);
    }
    let r = s.split_at(at);
    proof {
        assert(r.0.spec_bytes() =~= encode_utf8(head));
        assert(r.1.spec_bytes() =~= encode_utf8(tail));
        encode_utf8_decode_utf8(head);
        encode_utf8_decode_utf8(tail);
        encode_utf8_decode_utf8(r.0@);
        encode_utf8_decode_utf8(r.1@);
    }
    r
}

/// The last byte of a text is a carriage return where its last character is one.
pub proof fn lemma_last_byte(line: Seq<char>)
    requires
        line.len() > 0,
    ensures
        encode_utf8(line).len() > 0,
        encode_utf8(line).last() == 13u8 <==> line.last() == '\r',
        line.last() == '\r' ==> encode_utf8(line.drop_last()).len() == encode_utf8(line).len() - 1,
{
    let c = line.last();
    lemma_encode_char(c);
    lemma_encode_concat(line.drop_last(), seq![c]);
    assert(line =~= line.drop_last() + seq![c]);
    let e = encode_scalar(c as u32);
    assert(encode_utf8(line).last() == e.last());
    if c != '\r' {
        lemma_encode_other(c, '\r');
        assert(e[e.len() - 1] != 13u8);
    }
}

/// How many bytes of the line of `hi` bytes stand before its carriage return.
fn line_length(b: &[u8], hi: usize, Ghost(line): Ghost<Seq<char>>) -> (r: usize)
    requires
        hi <= b@.len(),
        b@.take(hi as int) == encode_utf8(line),
    ensures
        r == encode_utf8(without_return(line)).len(),
{
    proof {
        if line.len() > 0 {
            lemma_last_byte(line);
            assert(encode_utf8(line).last() == b@[hi - 1]);
        } else {
            assert(encode_utf8(line) =~= Seq::<u8>::empty());
        }
    }
    if hi > 0 && b[hi - 1] == 13 {
        hi - 1
    } else {
        hi
    }
}

/// Splits a text into its lines.
pub fn lines(s: &str) -> (r: Vec<String>)
    ensures
        r@.map_values(|line: String| line@) == lines_of(s@),
{
    let mut out: Vec<String> = Vec::new();
    let mut rest = s;
    assert(out@.map_values(|line: String| line@) =~= Seq::<Seq<char>>::empty());
    loop
        invariant_except_break
            out@.map_values(|line: String| line@) + lines_of(rest@) == lines_of(s@),
        ensures
            out@.map_values(|line: String| line@) == lines_of(s@),
        decreases rest@.len(),
    {
        let ghost sofar = out@.map_values(|line: String| line@);
        let b = rest.as_bytes();
        proof {
            if rest@.len() > 0 {
                lemma_encode_char(rest@[0]);
            } else {
                assert(encode_utf8(rest@) =~= Seq::<u8>::empty());
            }
        }
        if b.len() == 0 {
            assert(sofar + lines_of(rest@) =~= sofar);
            break;
        }
        let hi = piece_end(b, 10, 0);
        let ghost line = before(rest@, '\n');
        let ghost tail = rest@.skip(line.len() as int);
        proof {
            assert(b@.skip(0) =~= b@);
            assert(b@.subrange(0, hi as int) =~= b@.take(hi as int));
            lemma_before_bytes(rest@, '\n');
            lemma_before_front(rest@, '\n');
            assert(rest@ =~= line + tail);
            lemma_encode_concat(line, tail);
        }
        if hi == b.len() {
            proof {
                if tail.len() > 0 {
                    lemma_encode_char(tail[0]);
                }
                assert(rest@ =~= line);
            }
            out.push(rest.to_owned());
            assert(out@.map_values(|line: String| line@) =~= sofar + seq![line]);
            break;
        }
        proof {
            if tail.len() == 0 {
                assert(encode_utf8(tail) =~= Seq::<u8>::empty());
            }
            let end = seq!['\n'];
            lemma_encode_char('\n');
            lemma_encode_concat(line, end);
            assert(rest@ =~= (line + end) + rest@.skip(line.len() as int + 1));
            assert(rest@ =~= without_return(line) + rest@.skip(without_return(line).len() as int));
        }
        let at = line_length(b, hi, Ghost(line));
        let (head, _) = cut(
            rest,
            at,
            Ghost(without_return(line)),
            Ghost(rest@.skip(without_return(line).len() as int)),
        );
        let (_, behind) = cut(
            rest,
            hi + 1,
            Ghost(line + seq!['\n']),
            Ghost(rest@.skip(line.len() as int + 1)),
        );
        out.push(head.to_owned());
        proof {
            assert(out@.map_values(|line: String| line@) =~= sofar + seq![head@]);
            assert(lines_of(rest@) =~= seq![head@] + lines_of(behind@));
            assert(sofar + lines_of(rest@) =~= (sofar + seq![head@]) + lines_of(behind@));
        }
        rest = behind;
    }
    out
}

// ---- what the pieces are -------------------------------------------------------------

/// `s` holds no `c`.
pub open spec fn lacks<T>(s: Seq<T>, c: T) -> bool {
    forall|i: int| 0 <= i < s.len() ==> #[trigger] s[i] != c
}

/// `s` is a run of `c`.
pub open spec fn all_are<T>(s: Seq<T>, c: T) -> bool {
    forall|i: int| 0 <= i < s.len() ==> #[trigger] s[i] == c
}

/// A front that lacks `c`, with `c` behind it, is what stands before `c`.
pub proof fn a_front_stands_before<T>(front: Seq<T>, c: T, back: Seq<T>)
    requires
        lacks(front, c),
    ensures
        before(front, c) == front,
        before(front + seq![c] + back, c) == front,
{
    lemma_before_skips(front, Seq::<T>::empty(), c);
    assert(front + Seq::<T>::empty() =~= front);
    lemma_before_skips(front, seq![c] + back, c);
    assert(front + (seq![c] + back) =~= front + seq![c] + back);
    assert((seq![c] + back)[0] == c);
    assert(front + before(seq![c] + back, c) =~= front);
}

/// A back that lacks `c`, with `c` before it, is what stands behind the last `c`.
pub proof fn a_back_stands_behind<T>(front: Seq<T>, c: T, back: Seq<T>)
    requires
        lacks(back, c),
    ensures
        after_last(back, c) == back,
        after_last(front + seq![c] + back, c) == back,
{
    lemma_after_last_skips(Seq::<T>::empty(), back, c);
    assert(Seq::<T>::empty() + back =~= back);
    lemma_after_last_skips(front + seq![c], back, c);
    assert((front + seq![c]).last() == c);
    assert(Seq::<T>::empty() + back =~= back);
}

proof fn lemma_leading_run<T>(run: Seq<T>, rest: Seq<T>, c: T)
    requires
        all_are(run, c),
    ensures
        without_leading(run + rest, c) == without_leading(rest, c),
    decreases run.len(),
{
    if run.len() == 0 {
        assert(run + rest =~= rest);
    } else {
        assert((run + rest).drop_first() =~= run.drop_first() + rest);
        assert((run + rest)[0] == run[0]);
        lemma_leading_run(run.drop_first(), rest, c);
    }
}

proof fn lemma_trailing_run<T>(rest: Seq<T>, run: Seq<T>, c: T)
    requires
        all_are(run, c),
    ensures
        without_trailing(rest + run, c) == without_trailing(rest, c),
    decreases run.len(),
{
    if run.len() == 0 {
        assert(rest + run =~= rest);
    } else {
        assert((rest + run).drop_last() =~= rest + run.drop_last());
        assert((rest + run).last() == run.last());
        lemma_trailing_run(rest, run.drop_last(), c);
    }
}

/// The first piece that is not empty: what stands behind a run of separators, up to the
/// next one or the end. Nothing but separators has no piece.
pub proof fn the_first_piece_follows_the_separators<T>(
    run: Seq<T>,
    piece: Seq<T>,
    c: T,
    back: Seq<T>,
)
    requires
        all_are(run, c),
        lacks(piece, c),
    ensures
        first_piece(run, c) == Seq::<T>::empty(),
        first_piece(run + piece, c) == piece,
        piece.len() > 0 ==> first_piece(run + piece + seq![c] + back, c) == piece,
{
    lemma_leading_run(run, Seq::<T>::empty(), c);
    assert(run + Seq::<T>::empty() =~= run);
    lemma_leading_run(run, piece, c);
    a_front_stands_before(piece, c, back);
    if piece.len() > 0 {
        let rest = piece + seq![c] + back;
        lemma_leading_run(run, rest, c);
        assert(run + rest =~= run + piece + seq![c] + back);
        assert(rest[0] == piece[0]);
    }
}

/// The last piece that is not empty: what stands before a run of separators, from the one
/// before or the start. Nothing but separators has no piece.
pub proof fn the_last_piece_precedes_the_separators<T>(
    front: Seq<T>,
    c: T,
    piece: Seq<T>,
    run: Seq<T>,
)
    requires
        all_are(run, c),
        lacks(piece, c),
    ensures
        last_piece(run, c) == Seq::<T>::empty(),
        last_piece(piece + run, c) == piece,
        piece.len() > 0 ==> last_piece(front + seq![c] + piece + run, c) == piece,
{
    lemma_trailing_run(Seq::<T>::empty(), run, c);
    assert(Seq::<T>::empty() + run =~= run);
    lemma_trailing_run(piece, run, c);
    a_back_stands_behind(front, c, piece);
    if piece.len() > 0 {
        let rest = front + seq![c] + piece;
        lemma_trailing_run(rest, run, c);
        assert(rest.last() == piece.last());
    }
}

/// A text stands in another where something before it and something behind it make up the
/// other.
pub proof fn texts_stand_between<T>(hay: Seq<T>, front: Seq<T>, needle: Seq<T>, back: Seq<T>)
    ensures
        contains_text(front + needle + back, needle),
        contains_text(hay, needle) <==> exists|f: Seq<T>, b: Seq<T>| hay == #[trigger] (f + needle + b),
{
    let whole = front + needle + back;
    assert(whole.subrange(front.len() as int, (front.len() + needle.len()) as int) =~= needle);
    assert(occurs_at(whole, needle, front.len() as int));
    if contains_text(hay, needle) {
        let i = choose|i: int| occurs_at(hay, needle, i);
        let f = hay.take(i);
        let b = hay.skip(i + needle.len());
        assert(hay =~= f + hay.subrange(i, i + needle.len()) + b);
        assert(hay == f + needle + b);
    }
    if exists|f: Seq<T>, b: Seq<T>| hay == #[trigger] (f + needle + b) {
        let (f, b) = choose|f: Seq<T>, b: Seq<T>| hay == #[trigger] (f + needle + b);
        assert(hay.subrange(f.len() as int, (f.len() + needle.len()) as int) =~= needle);
        assert(occurs_at(hay, needle, f.len() as int));
    }
}

/// A text's first line ends at its first line feed, and loses a carriage return there; the
/// others follow. What stands behind the last line feed is a line as it is, unless it is
/// empty.
pub proof fn lines_end_at_line_feeds(line: Seq<char>, rest: Seq<char>)
    requires
        lacks(line, '\n'),
    ensures
        lines_of(Seq::empty()) == Seq::<Seq<char>>::empty(),
        line.len() > 0 ==> lines_of(line) == seq![line],
        line.len() == 0 || line.last() != '\r' ==> lines_of(line + seq!['\n'] + rest)
            == seq![line] + lines_of(rest),
        lines_of(line + seq!['\r', '\n'] + rest) == seq![line] + lines_of(rest),
{
    a_front_stands_before(line, '\n', rest);
    let whole = line + seq!['\n'] + rest;
    assert(whole.skip(line.len() as int + 1) =~= rest);
    let returned = line.push('\r');
    assert(lacks(returned, '\n'));
    a_front_stands_before(returned, '\n', rest);
    let other = line + seq!['\r', '\n'] + rest;
    assert(other =~= returned + seq!['\n'] + rest);
    assert(other.skip(returned.len() as int + 1) =~= rest);
    assert(returned.drop_last() =~= line);
}

} // verus!
