//! Reading a growing log file in chunks of complete lines.

use vstd::prelude::*;
use vstd::utf8::*;

use crate::text;

verus! {

broadcast use {vstd::string::group_string_axioms, vstd::seq::group_seq_axioms};

/// No chunk has more lines than this.
pub const MAX_CHUNK_LINES: usize = 5_000;

/// No chunk is cut from more bytes than this.
pub const MAX_CHUNK_BYTES: u64 = 8_388_608;

/// Complete lines of a log file.
pub struct Chunk {
    pub lines: Vec<String>,
    /// Where the next chunk starts, just behind a line feed.
    pub new_offset: u64,
    /// The size of the file when it was read; below the offset where the file was
    /// truncated.
    pub file_size: u64,
}

/// A chunk as plain values.
pub struct ChunkView {
    pub lines: Seq<Seq<char>>,
    pub new_offset: u64,
    pub file_size: u64,
}

/// Lines as plain values.
pub open spec fn texts(lines: Seq<String>) -> Seq<Seq<char>> {
    lines.map_values(|line: String| line@)
}

impl View for Chunk {
    type V = ChunkView;

    open spec fn view(&self) -> ChunkView {
        ChunkView {
            lines: texts(self.lines@),
            new_offset: self.new_offset,
            file_size: self.file_size,
        }
    }
}

/// The first line feed of `buf` is behind its first line.
pub open spec fn has_line(buf: Seq<u8>) -> bool {
    text::before(buf, 10u8).len() < buf.len()
}

/// `buf` behind its first line and that line's line feed.
pub open spec fn behind_line(buf: Seq<u8>) -> Seq<u8> {
    buf.skip(text::before(buf, 10u8).len() as int + 1)
}

/// The first complete lines of `buf`, at most `most` of them, without line feeds.
pub open spec fn raw_lines(buf: Seq<u8>, most: nat) -> Seq<Seq<u8>>
    decreases most,
{
    if most == 0 || !has_line(buf) {
        Seq::empty()
    } else {
        seq![text::before(buf, 10u8)] + raw_lines(behind_line(buf), (most - 1) as nat)
    }
}

/// How many bytes of `buf` its first complete lines take, at most `most` lines.
pub open spec fn lines_length(buf: Seq<u8>, most: nat) -> nat
    decreases most,
{
    if most == 0 || !has_line(buf) {
        0
    } else {
        text::before(buf, 10u8).len() + 1 + lines_length(behind_line(buf), (most - 1) as nat)
    }
}

/// `line` without a carriage return at its end.
pub open spec fn without_return(line: Seq<u8>) -> Seq<u8> {
    if line.len() > 0 && line.last() == 13u8 {
        line.drop_last()
    } else {
        line
    }
}

/// The text of `bytes`, with a replacement character for what is no UTF-8.
pub uninterp spec fn lossy_text(bytes: Seq<u8>) -> Seq<char>;

/// `std::string::String::from_utf8_lossy`: the text of `bytes`. Bytes that are
/// UTF-8 give the text that they encode.
#[verifier::external_body]
fn lossy(bytes: &[u8]) -> (r: String)
    ensures
        r@ == lossy_text(bytes@),
        valid_utf8(bytes@) ==> r@ == decode_utf8(bytes@),
{
    String::from_utf8_lossy(bytes).into_owned()
}

/// The text of a line: what its bytes encode, where they are UTF-8.
pub open spec fn line_text(line: Seq<u8>) -> Seq<char> {
    let bytes = without_return(line);
    if valid_utf8(bytes) {
        decode_utf8(bytes)
    } else {
        lossy_text(bytes)
    }
}

/// The texts of the first complete lines of `buf`, at most `most` of them.
pub open spec fn line_texts(buf: Seq<u8>, most: nat) -> Seq<Seq<char>> {
    raw_lines(buf, most).map_values(|line: Seq<u8>| line_text(line))
}

/// How many bytes to read at `offset` from a file of `size` bytes: all that it holds
/// behind the offset, but for what is too much at once.
pub open spec fn wanted(size: u64, offset: u64) -> nat {
    if size <= offset {
        0
    } else if size - offset < MAX_CHUNK_BYTES {
        (size - offset) as nat
    } else {
        MAX_CHUNK_BYTES as nat
    }
}

/// How many bytes to read at `offset` from a file of `size` bytes; none where the
/// file holds no more.
pub fn read_length(size: u64, offset: u64) -> (r: Option<usize>)
    ensures
        r is Some <==> size > offset,
        r matches Some(n) ==> n == wanted(size, offset),
{
    if size <= offset {
        return None;
    }
    let left = size - offset;
    if left < MAX_CHUNK_BYTES {
        Some(left as usize)
    } else {
        Some(MAX_CHUNK_BYTES as usize)
    }
}

/// The chunk of a file of `size` bytes that `buf` makes, read at `offset`: its
/// complete lines. A partial line at the end is left for the next read.
pub open spec fn chunk_of(size: u64, offset: u64, buf: Seq<u8>) -> ChunkView {
    if size <= offset {
        ChunkView { lines: Seq::empty(), new_offset: offset, file_size: size }
    } else {
        ChunkView {
            lines: line_texts(buf, MAX_CHUNK_LINES as nat),
            new_offset: (offset + lines_length(buf, MAX_CHUNK_LINES as nat)) as u64,
            file_size: size,
        }
    }
}

proof fn lemma_before_length<T>(s: Seq<T>, c: T)
    ensures
        text::before(s, c).len() <= s.len(),
        text::before(s, c) == s.take(text::before(s, c).len() as int),
        text::before(s, c).len() < s.len() ==> s[text::before(s, c).len() as int] == c,
    decreases s.len(),
{
    if s.len() > 0 && s[0] != c {
        lemma_before_length(s.drop_first(), c);
        assert(text::before(s, c) =~= s.take(text::before(s, c).len() as int));
    } else {
        assert(s.take(0) =~= Seq::empty());
    }
}

proof fn lemma_lines_length(buf: Seq<u8>, most: nat)
    ensures
        lines_length(buf, most) <= buf.len(),
        lines_length(buf, most) > 0 ==> buf[lines_length(buf, most) - 1] == 10u8,
    decreases most,
{
    lemma_before_length(buf, 10u8);
    if most > 0 && has_line(buf) {
        lemma_lines_length(behind_line(buf), (most - 1) as nat);
    }
}

/// Cuts complete lines from the bytes `buf`, read at `offset` from a file of
/// `size` bytes.
pub fn read_chunk(size: u64, offset: u64, buf: &[u8]) -> (r: Chunk)
    requires
        size > offset ==> offset + buf@.len() <= u64::MAX,
    ensures
        r@ == chunk_of(size, offset, buf@),
        offset <= r.new_offset <= offset + buf@.len(),
        r.new_offset > offset ==> buf@[r.new_offset - offset - 1] == 10u8,
{
    if size <= offset {
        let lines: Vec<String> = Vec::new();
        assert(texts(lines@) =~= Seq::<Seq<char>>::empty());
        return Chunk { lines, new_offset: offset, file_size: size };
    }
    let ghost most = MAX_CHUNK_LINES as nat;
    let mut lines: Vec<String> = Vec::new();
    let mut start: usize = 0;
    let total = buf.len();
    assert(buf@.skip(0) =~= buf@);
    assert(texts(lines@) =~= Seq::<Seq<char>>::empty());
    assert(texts(lines@) + line_texts(buf@, most) =~= line_texts(buf@, most));
    proof {
        lemma_lines_length(buf@, most);
    }
    while lines.len() < MAX_CHUNK_LINES
        invariant
            lines@.len() <= most == MAX_CHUNK_LINES,
            start <= total == buf@.len(),
            texts(lines@) + line_texts(buf@.skip(start as int), (most - lines@.len()) as nat)
                == line_texts(buf@, most),
            start + lines_length(buf@.skip(start as int), (most - lines@.len()) as nat)
                == lines_length(buf@, most),
        ensures
            texts(lines@) == line_texts(buf@, most),
            start == lines_length(buf@, most),
        decreases most - lines@.len(),
    {
        let ghost rest = buf@.skip(start as int);
        let ghost left = (most - lines@.len()) as nat;
        let end = text::piece_end(buf, 10, start);
        if end == total {
            assert(line_texts(rest, left) =~= Seq::<Seq<char>>::empty());
            assert(texts(lines@) + line_texts(rest, left) =~= texts(lines@));
            break;
        }
        let mut stop: usize = end;
        if start < end && buf[end - 1] == 13 {
            stop = end - 1;
        }
        let ghost raw = text::before(rest, 10u8);
        assert(buf@.subrange(start as int, stop as int) =~= without_return(raw));
        let line = lossy(vstd::slice::slice_subrange(buf, start, stop));
        proof {
            let next = behind_line(rest);
            assert(line@ == line_text(raw));
            assert(next =~= buf@.skip(end + 1));
            assert(line_texts(rest, left) =~= seq![line@] + line_texts(next, (left - 1) as nat));
            assert(texts(lines@.push(line)) =~= texts(lines@).push(line@));
            assert(texts(lines@.push(line)) + line_texts(next, (left - 1) as nat) =~= texts(lines@)
                + line_texts(rest, left));
        }
        lines.push(line);
        start = end + 1;
    }
    proof {
        lemma_lines_length(buf@, most);
    }
    Chunk { lines, new_offset: offset + start as u64, file_size: size }
}

// ---- laws -----------------------------------------------------------------------

/// `lines` with a line feed behind each.
pub open spec fn joined(lines: Seq<Seq<u8>>) -> Seq<u8>
    decreases lines.len(),
{
    if lines.len() == 0 {
        Seq::empty()
    } else {
        lines[0].push(10u8) + joined(lines.drop_first())
    }
}

/// The lines of a chunk, with their line feeds, are exactly the bytes that the
/// chunk takes.
pub proof fn lines_lose_nothing(buf: Seq<u8>, most: nat)
    ensures
        lines_length(buf, most) <= buf.len(),
        joined(raw_lines(buf, most)) == buf.take(lines_length(buf, most) as int),
    decreases most,
{
    lemma_before_length(buf, 10u8);
    if most > 0 && has_line(buf) {
        let line = text::before(buf, 10u8);
        let rest = behind_line(buf);
        let fewer = (most - 1) as nat;
        lines_lose_nothing(rest, fewer);
        assert(raw_lines(buf, most).drop_first() =~= raw_lines(rest, fewer));
        assert(joined(raw_lines(buf, most)) =~= buf.take(lines_length(buf, most) as int));
    } else {
        assert(buf.take(0) =~= Seq::<u8>::empty());
    }
}

/// The bytes of `lines` as a program writes them: each line ends in a line feed, with
/// a carriage return before it where `crlf` says so.
pub open spec fn written(lines: Seq<Seq<char>>, crlf: bool) -> Seq<u8>
    decreases lines.len(),
{
    if lines.len() == 0 {
        Seq::empty()
    } else {
        encode_utf8(ended(lines[0], crlf)).push(10u8) + written(lines.drop_first(), crlf)
    }
}

/// A line with a carriage return at its end, where `crlf` says so.
pub open spec fn ended(line: Seq<char>, crlf: bool) -> Seq<char> {
    if crlf {
        line.push('\r')
    } else {
        line
    }
}

proof fn lemma_before_whole(s: Seq<char>)
    requires
        !s.contains('\n'),
    ensures
        text::before(s, '\n') == s,
    decreases s.len(),
{
    if s.len() > 0 {
        assert(s.contains(s[0]));
        let t = s.drop_first();
        assert(!t.contains('\n')) by {
            if t.contains('\n') {
                let i = choose|i: int| 0 <= i < t.len() && t[i] == '\n';
                assert(s[i + 1] == '\n');
            }
        }
        lemma_before_whole(t);
        assert(text::before(s, '\n') =~= s);
    }
}

/// The first line of what was written, and what follows it.
proof fn lemma_written_line(line: Seq<char>, crlf: bool, rest: Seq<u8>)
    requires
        !line.contains('\n'),
        line.len() > 0 && line.last() == '\r' ==> crlf,
    ensures
        ({
            let buf = encode_utf8(ended(line, crlf)).push(10u8) + rest;
            &&& has_line(buf)
            &&& behind_line(buf) == rest
            &&& line_text(text::before(buf, 10u8)) == line
            &&& text::before(buf, 10u8) == encode_utf8(ended(line, crlf))
        }),
{
    let term = ended(line, crlf);
    let bytes = encode_utf8(term);
    let buf = bytes.push(10u8) + rest;
    let tail = seq![10u8] + rest;
    assert(!term.contains('\n')) by {
        if term.contains('\n') {
            let i = choose|i: int| 0 <= i < term.len() && term[i] == '\n';
            if i < line.len() {
                assert(line[i] == '\n');
            }
        }
    }
    lemma_before_whole(term);
    text::lemma_before_bytes(term, '\n');
    lemma_before_single(bytes, 10u8);
    assert forall|i: int| 0 <= i < bytes.len() implies bytes[i] != 10u8 by {
        assert(bytes.contains(bytes[i]));
    }
    assert(buf =~= bytes + tail);
    text::lemma_before_skips(bytes, tail, 10u8);
    assert(text::before(tail, 10u8) =~= Seq::<u8>::empty());
    assert(text::before(buf, 10u8) =~= bytes);
    assert(behind_line(buf) =~= rest);
    encode_utf8_valid_utf8(line);
    encode_utf8_decode_utf8(line);
    if crlf {
        text::lemma_last_byte(term);
        text::lemma_encode_char('\r');
        text::lemma_encode_concat(line, seq!['\r']);
        assert(term =~= line + seq!['\r']);
        assert(bytes.drop_last() =~= encode_utf8(line));
    } else if line.len() > 0 {
        text::lemma_last_byte(line);
    } else {
        assert(bytes =~= Seq::<u8>::empty());
    }
}

/// Lines that were written are read back: a chunk of them has the same lines, and
/// takes all of their bytes.
pub proof fn written_lines_come_back(lines: Seq<Seq<char>>, crlf: bool, most: nat)
    requires
        lines.len() <= most,
        forall|i: int| 0 <= i < lines.len() ==> !(#[trigger] lines[i]).contains('\n'),
        !crlf ==> forall|i: int|
            0 <= i < lines.len() && (#[trigger] lines[i]).len() > 0 ==> lines[i].last() != '\r',
    ensures
        line_texts(written(lines, crlf), most) == lines,
        lines_length(written(lines, crlf), most) == written(lines, crlf).len(),
    decreases lines.len(),
{
    let buf = written(lines, crlf);
    if lines.len() > 0 {
        let rest = lines.drop_first();
        let fewer = (most - 1) as nat;
        assert(!lines[0].contains('\n'));
        assert forall|i: int| 0 <= i < rest.len() implies !(#[trigger] rest[i]).contains('\n') by {
            assert(!lines[i + 1].contains('\n'));
        }
        if !crlf {
            assert forall|i: int| 0 <= i < rest.len() && (#[trigger] rest[i]).len() > 0 implies rest[i].last()
                != '\r' by {
                assert(lines[i + 1].len() > 0);
            }
        }
        written_lines_come_back(rest, crlf, fewer);
        lemma_written_line(lines[0], crlf, written(rest, crlf));
        assert(line_texts(buf, most) =~= seq![lines[0]] + line_texts(
            written(rest, crlf),
            fewer,
        ));
        assert(lines =~= seq![lines[0]] + rest);
    } else {
        assert(line_texts(buf, most) =~= lines);
    }
}

/// No line of a chunk holds a line feed.
pub proof fn lines_are_single(buf: Seq<u8>, most: nat)
    ensures
        raw_lines(buf, most).len() <= most,
        forall|i: int|
            0 <= i < raw_lines(buf, most).len() ==> !(#[trigger] raw_lines(buf, most)[i]).contains(
                10u8,
            ),
    decreases most,
{
    if most > 0 && has_line(buf) {
        let rest = behind_line(buf);
        let fewer = (most - 1) as nat;
        lines_are_single(rest, fewer);
        lemma_before_single(buf, 10u8);
        assert forall|i: int| 0 <= i < raw_lines(buf, most).len() implies !(
        #[trigger] raw_lines(buf, most)[i]).contains(10u8) by {
            if i > 0 {
                assert(raw_lines(buf, most)[i] == raw_lines(rest, fewer)[i - 1]);
            }
        }
    }
}

proof fn lemma_before_single<T>(s: Seq<T>, c: T)
    ensures
        !text::before(s, c).contains(c),
    decreases s.len(),
{
    if s.len() > 0 && s[0] != c {
        lemma_before_single(s.drop_first(), c);
        let b = text::before(s, c);
        assert forall|i: int| 0 <= i < b.len() implies b[i] != c by {
            if i > 0 {
                assert(text::before(s.drop_first(), c).contains(
                    text::before(s.drop_first(), c)[i - 1],
                ));
            }
        }
    }
}

/// Reading on where a chunk ended gives the lines that follow: two chunks in a row
/// hold the same lines as one that may hold as many.
pub proof fn reading_resumes(buf: Seq<u8>, first: nat, second: nat)
    ensures
        raw_lines(buf, first + second) == raw_lines(buf, first) + raw_lines(
            buf.skip(lines_length(buf, first) as int),
            second,
        ),
    decreases first,
{
    lemma_before_length(buf, 10u8);
    if first == 0 {
        assert(buf.skip(0) =~= buf);
        assert(raw_lines(buf, 0) + raw_lines(buf, second) =~= raw_lines(buf, second));
    } else if !has_line(buf) {
        assert(buf.skip(0) =~= buf);
        assert(raw_lines(buf, first) + raw_lines(buf, second) =~= Seq::<Seq<u8>>::empty());
    } else {
        let rest = behind_line(buf);
        let fewer = (first - 1) as nat;
        reading_resumes(rest, fewer, second);
        lemma_lines_length(rest, fewer);
        assert(buf.skip(lines_length(buf, first) as int) =~= rest.skip(
            lines_length(rest, fewer) as int,
        ));
        assert((first + second - 1) as nat == fewer + second);
        assert(raw_lines(buf, first + second) =~= raw_lines(buf, first) + raw_lines(
            buf.skip(lines_length(buf, first) as int),
            second,
        ));
    }
}

/// A partial line at the end of the file is not lost: when more bytes are behind
/// it, the lines already cut stay as they are, and reading on from the end of the
/// last one gives the rest.
pub proof fn growth_keeps_lines(buf: Seq<u8>, more: Seq<u8>, most: nat)
    ensures
        raw_lines(buf, most).len() <= most,
        raw_lines(buf + more, most) == raw_lines(buf, most) + raw_lines(
            buf.skip(lines_length(buf, most) as int) + more,
            (most - raw_lines(buf, most).len()) as nat,
        ),
    decreases most,
{
    lemma_before_length(buf, 10u8);
    if most == 0 {
        assert(raw_lines(buf + more, 0) =~= Seq::<Seq<u8>>::empty());
    } else if !has_line(buf) {
        assert(buf.skip(0) =~= buf);
        assert(raw_lines(buf, most) + raw_lines(buf + more, most) =~= raw_lines(buf + more, most));
    } else {
        let rest = behind_line(buf);
        let fewer = (most - 1) as nat;
        growth_keeps_lines(rest, more, fewer);
        lemma_lines_length(rest, fewer);
        lemma_before_grows(buf, more, 10u8);
        assert(behind_line(buf + more) =~= rest + more);
        assert(buf.skip(lines_length(buf, most) as int) =~= rest.skip(
            lines_length(rest, fewer) as int,
        ));
        assert(raw_lines(buf + more, most) =~= raw_lines(buf, most) + raw_lines(
            buf.skip(lines_length(buf, most) as int) + more,
            (most - raw_lines(buf, most).len()) as nat,
        ));
    }
}

proof fn lemma_before_grows<T>(s: Seq<T>, more: Seq<T>, c: T)
    requires
        text::before(s, c).len() < s.len(),
    ensures
        text::before(s + more, c) == text::before(s, c),
    decreases s.len(),
{
    assert((s + more).drop_first() =~= s.drop_first() + more);
    if s[0] != c {
        lemma_before_grows(s.drop_first(), more, c);
    }
}

// ---- a whole file -----------------------------------------------------------------

/// All complete lines of `buf`, without their line feeds.
pub open spec fn all_lines(buf: Seq<u8>) -> Seq<Seq<u8>>
    decreases buf.len(),
{
    if !has_line(buf) {
        Seq::empty()
    } else {
        seq![text::before(buf, 10u8)] + all_lines(behind_line(buf))
    }
}

/// Where the last complete line of `buf` ends.
pub open spec fn complete_length(buf: Seq<u8>) -> nat
    decreases buf.len(),
{
    if !has_line(buf) {
        0
    } else {
        text::before(buf, 10u8).len() + 1 + complete_length(behind_line(buf))
    }
}

/// The complete lines of `buf` end behind its last line feed; where there is none,
/// there are no lines.
pub proof fn complete_lines_end_at_the_last_feed(buf: Seq<u8>)
    ensures
        complete_length(buf) <= buf.len(),
        complete_length(buf) > 0 ==> buf[complete_length(buf) - 1] == 10u8,
        forall|i: int| complete_length(buf) <= i < buf.len() ==> #[trigger] buf[i] != 10u8,
        all_lines(buf).len() == 0 <==> !buf.contains(10u8),
        joined(all_lines(buf)) == buf.take(complete_length(buf) as int),
    decreases buf.len(),
{
    lemma_before_length(buf, 10u8);
    lemma_before_single(buf, 10u8);
    let line = text::before(buf, 10u8);
    if has_line(buf) {
        let rest = behind_line(buf);
        let n = line.len() as int + 1;
        complete_lines_end_at_the_last_feed(rest);
        assert forall|i: int| complete_length(buf) <= i < buf.len() implies #[trigger] buf[i]
            != 10u8 by {
            assert(buf[i] == rest[i - n]);
        }
        assert(buf.contains(buf[line.len() as int]));
        assert(all_lines(buf).drop_first() =~= all_lines(rest));
        assert(joined(all_lines(buf)) =~= buf.take(complete_length(buf) as int));
    } else {
        assert(line =~= buf);
        assert forall|i: int| 0 <= i < buf.len() implies #[trigger] buf[i] != 10u8 by {
            assert(line.contains(line[i]));
        }
        assert(buf.take(0) =~= Seq::<u8>::empty());
    }
}

/// The lines of a buffer at the front of `rest`, and those behind them.
proof fn lemma_front(rest: Seq<u8>, n: int, most: nat)
    requires
        0 <= n <= rest.len(),
    ensures
        ({
            let len = lines_length(rest.take(n), most);
            &&& len <= n
            &&& all_lines(rest) == raw_lines(rest.take(n), most) + all_lines(rest.skip(len as int))
            &&& complete_length(rest) == len + complete_length(rest.skip(len as int))
        }),
    decreases most,
{
    let buf = rest.take(n);
    let more = rest.skip(n);
    assert(rest =~= buf + more);
    lemma_before_length(buf, 10u8);
    if most == 0 || !has_line(buf) {
        assert(rest.skip(0) =~= rest);
        assert(raw_lines(buf, most) + all_lines(rest) =~= all_lines(rest));
    } else {
        let line = text::before(buf, 10u8);
        let fewer = (most - 1) as nat;
        let next = behind_line(rest);
        let left = n - line.len() - 1;
        lemma_before_grows(buf, more, 10u8);
        assert(next.take(left) =~= behind_line(buf));
        lemma_front(next, left, fewer);
        let len = lines_length(next.take(left), fewer) as int;
        assert(next.skip(len) =~= rest.skip(line.len() as int + 1 + len));
        assert(all_lines(rest) =~= raw_lines(buf, most) + all_lines(
            rest.skip(lines_length(buf, most) as int),
        ));
    }
}

/// A line that fits in a buffer is read from it.
proof fn lemma_fits(rest: Seq<u8>, n: int)
    requires
        has_line(rest),
        text::before(rest, 10u8).len() < n <= rest.len(),
    ensures
        has_line(rest.take(n)),
{
    let buf = rest.take(n);
    let at = text::before(rest, 10u8).len() as int;
    lemma_before_length(rest, 10u8);
    lemma_before_length(buf, 10u8);
    lemma_before_single(buf, 10u8);
    if !has_line(buf) {
        assert(text::before(buf, 10u8) =~= buf);
        assert(buf[at] == 10u8);
        assert(buf.contains(buf[at]));
    }
}

/// The chunk that is read at `offset` from a file that holds `file`.
pub open spec fn chunk_at(file: Seq<u8>, offset: u64) -> ChunkView {
    let size = file.len() as u64;
    chunk_of(
        size,
        offset,
        file.subrange(offset as int, offset + wanted(size, offset)),
    )
}

/// No line of the file is too long for one read.
pub open spec fn lines_fit(file: Seq<u8>) -> bool {
    forall|i: int|
        0 <= i < all_lines(file).len() ==> (#[trigger] all_lines(file)[i]).len() + 1
            <= MAX_CHUNK_BYTES
}

/// The offsets of reads in a row: the first is 0, and each other is where the chunk at
/// the one before it ends.
pub open spec fn in_a_row(file: Seq<u8>, offsets: Seq<u64>) -> bool {
    &&& offsets.len() > 0
    &&& offsets[0] == 0
    &&& forall|k: int|
        0 < k < offsets.len() ==> #[trigger] offsets[k] == chunk_at(file, offsets[k - 1]).new_offset
}

/// The lines of the chunks at `offsets`, one chunk behind the other.
pub open spec fn lines_at(file: Seq<u8>, offsets: Seq<u64>) -> Seq<Seq<char>>
    decreases offsets.len(),
{
    if offsets.len() == 0 {
        Seq::empty()
    } else {
        lines_at(file, offsets.drop_last()) + chunk_at(file, offsets.last()).lines
    }
}

/// The texts of all complete lines of a file.
pub open spec fn all_texts(file: Seq<u8>) -> Seq<Seq<char>> {
    all_lines(file).map_values(|line: Seq<u8>| line_text(line))
}

/// One read: its lines, and what is left behind them.
proof fn lemma_chunk_at(file: Seq<u8>, offset: u64)
    requires
        file.len() <= u64::MAX,
        offset <= file.len(),
    ensures
        ({
            let chunk = chunk_at(file, offset);
            let rest = file.skip(offset as int);
            let behind = file.skip(chunk.new_offset as int);
            &&& offset <= chunk.new_offset <= file.len()
            &&& all_texts(rest) == chunk.lines + all_texts(behind)
            &&& all_lines(rest).len() == chunk.lines.len() + all_lines(behind).len()
            &&& forall|i: int|
                0 <= i < all_lines(behind).len() ==> #[trigger] all_lines(behind)[i] == all_lines(
                    rest,
                )[i + chunk.lines.len()]
            &&& complete_length(rest) == chunk.new_offset - offset + complete_length(behind)
        }),
{
    let size = file.len() as u64;
    let rest = file.skip(offset as int);
    let n = wanted(size, offset) as int;
    let chunk = chunk_at(file, offset);
    if offset < size {
        let buf = file.subrange(offset as int, offset + n);
        assert(buf =~= rest.take(n));
        lemma_front(rest, n, MAX_CHUNK_LINES as nat);
        let len = lines_length(buf, MAX_CHUNK_LINES as nat) as int;
        assert(rest.skip(len) =~= file.skip(offset + len));
        assert(all_texts(rest) =~= chunk.lines + all_texts(rest.skip(len)));
    } else {
        assert(all_texts(rest) =~= chunk.lines + all_texts(rest));
    }
}

/// A read that gives no lines leaves none behind it, where no line is too long.
proof fn lemma_empty_chunk(file: Seq<u8>, offset: u64)
    requires
        file.len() <= u64::MAX,
        offset <= file.len(),
        lines_fit(file.skip(offset as int)),
        chunk_at(file, offset).lines.len() == 0,
    ensures
        all_lines(file.skip(offset as int)).len() == 0,
        complete_length(file.skip(offset as int)) == 0,
{
    let size = file.len() as u64;
    let rest = file.skip(offset as int);
    let n = wanted(size, offset) as int;
    lemma_before_length(rest, 10u8);
    if has_line(rest) {
        assert(all_lines(rest)[0] == text::before(rest, 10u8));
        lemma_fits(rest, n);
        assert(file.subrange(offset as int, offset + n) =~= rest.take(n));
        assert(raw_lines(rest.take(n), MAX_CHUNK_LINES as nat).len() > 0);
    }
}

/// The lines of some reads in a row, and what is left behind the last of them.
proof fn lemma_reads(file: Seq<u8>, offsets: Seq<u64>)
    requires
        file.len() <= u64::MAX,
        lines_fit(file),
        in_a_row(file, offsets),
    ensures
        ({
            let last = offsets.last();
            let rest = file.skip(last as int);
            &&& last <= file.len()
            &&& lines_fit(rest)
            &&& all_texts(file) == lines_at(file, offsets.drop_last()) + all_texts(rest)
            &&& complete_length(file) == last + complete_length(rest)
        }),
    decreases offsets.len(),
{
    let last = offsets.last();
    let front = offsets.drop_last();
    if offsets.len() == 1 {
        assert(file.skip(0) =~= file);
        assert(lines_at(file, front) + all_texts(file) =~= all_texts(file));
    } else {
        assert forall|k: int| 0 < k < front.len() implies #[trigger] front[k] == chunk_at(
            file,
            front[k - 1],
        ).new_offset by {
            assert(offsets[k] == front[k]);
        }
        lemma_reads(file, front);
        let before = front.last();
        assert(offsets[offsets.len() - 1] == chunk_at(file, before).new_offset);
        lemma_chunk_at(file, before);
        let rest = file.skip(before as int);
        let behind = file.skip(last as int);
        assert forall|i: int| 0 <= i < all_lines(behind).len() implies (#[trigger] all_lines(
            behind,
        )[i]).len() + 1 <= MAX_CHUNK_BYTES by {
            let at = i + chunk_at(file, before).lines.len();
            assert(all_lines(rest)[at].len() + 1 <= MAX_CHUNK_BYTES);
        }
        assert(lines_at(file, front) + all_texts(behind) =~= lines_at(file, front.drop_last()) + (
        chunk_at(file, before).lines + all_texts(behind)));
    }
}

/// Reading a file to its end: reads in a row from its start, until one gives no lines,
/// give all of its complete lines in order, each of them once, and end behind its last
/// line feed. No line may be too long for one read.
pub proof fn reading_to_the_end_gives_every_line(file: Seq<u8>, offsets: Seq<u64>)
    requires
        file.len() <= u64::MAX,
        lines_fit(file),
        in_a_row(file, offsets),
        chunk_at(file, offsets.last()).lines.len() == 0,
    ensures
        lines_at(file, offsets) == all_texts(file),
        offsets.last() == complete_length(file),
{
    lemma_reads(file, offsets);
    lemma_empty_chunk(file, offsets.last());
    let rest = file.skip(offsets.last() as int);
    assert(all_texts(rest) =~= Seq::<Seq<char>>::empty());
    assert(lines_at(file, offsets) =~= lines_at(file, offsets.drop_last()));
    assert(lines_at(file, offsets.drop_last()) + all_texts(rest) =~= lines_at(
        file,
        offsets.drop_last(),
    ));
}

/// Reading goes on: a read that gives lines moves on, so that a file is read to its end
/// after finitely many of them.
pub proof fn reads_with_lines_move_on(file: Seq<u8>, offset: u64)
    requires
        file.len() <= u64::MAX,
        offset <= file.len(),
    ensures
        offset <= chunk_at(file, offset).new_offset <= file.len(),
        chunk_at(file, offset).lines.len() > 0 ==> offset < chunk_at(file, offset).new_offset,
{
    lemma_chunk_at(file, offset);
}

// ---- what one read takes ------------------------------------------------------------

/// A read takes what the file holds behind the offset, and at most eight mebibytes.
pub proof fn reads_take_what_is_there(size: u64, offset: u64)
    ensures
        size <= offset ==> wanted(size, offset) == 0,
        offset < size <= offset + 8_388_608 ==> wanted(size, offset) == size - offset,
        size > offset + 8_388_608 ==> wanted(size, offset) == 8_388_608,
{
}

proof fn lemma_first_lines(buf: Seq<u8>, most: nat)
    ensures
        all_lines(buf).len() <= most ==> raw_lines(buf, most) == all_lines(buf) && lines_length(
            buf,
            most,
        ) == complete_length(buf),
        all_lines(buf).len() > most ==> raw_lines(buf, most) == all_lines(buf).take(most as int),
    decreases most,
{
    if most == 0 {
        assert(all_lines(buf).take(0) =~= Seq::<Seq<u8>>::empty());
    } else if has_line(buf) {
        let rest = behind_line(buf);
        let fewer = (most - 1) as nat;
        lemma_first_lines(rest, fewer);
        assert(all_lines(buf).len() == all_lines(rest).len() + 1);
        if all_lines(buf).len() > most {
            assert(all_lines(buf).take(most as int) =~= seq![text::before(buf, 10u8)] + all_lines(
                rest,
            ).take(fewer as int));
        }
    }
}

/// A chunk holds all complete lines of what was read, or the first five thousand, and
/// ends behind the last of them. Where the file holds nothing behind the offset, nothing
/// is read.
pub proof fn chunks_hold_the_first_lines(size: u64, offset: u64, buf: Seq<u8>)
    requires
        offset + buf.len() <= u64::MAX,
    ensures
        ({
            let chunk = chunk_of(size, offset, buf);
            let lines = all_lines(buf).map_values(|line: Seq<u8>| line_text(line));
            &&& chunk.file_size == size
            &&& size <= offset ==> chunk.lines.len() == 0 && chunk.new_offset == offset
            &&& size > offset && lines.len() <= 5_000 ==> chunk.lines == lines && chunk.new_offset
                == offset + complete_length(buf)
            &&& size > offset && lines.len() > 5_000 ==> chunk.lines == lines.take(5_000)
                && chunk.new_offset == offset + joined(all_lines(buf).take(5_000)).len()
        }),
{
    lemma_first_lines(buf, 5_000);
    lines_lose_nothing(buf, 5_000);
    let lines = all_lines(buf).map_values(|line: Seq<u8>| line_text(line));
    complete_lines_end_at_the_last_feed(buf);
    if lines.len() > 5_000 {
        assert(all_lines(buf).take(5_000).map_values(|line: Seq<u8>| line_text(line))
            =~= lines.take(5_000));
        assert(buf.take(lines_length(buf, 5_000) as int).len() == lines_length(buf, 5_000));
    }
}

/// A read asks for what is there, and for nothing where the file holds no more.
pub proof fn reads_ask_for_what_is_there(size: u64, offset: u64, length: Option<usize>)
    requires
        call_ensures(read_length, (size, offset), length),
    ensures
        length is None <==> size <= offset,
        length matches Some(n) ==> n <= 8_388_608 && (size - offset <= 8_388_608 ==> n == size
            - offset) && (size - offset > 8_388_608 ==> n == 8_388_608),
{
}

} // verus!
