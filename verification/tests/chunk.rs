use combatlog::chunk::{read_chunk, read_length, MAX_CHUNK_BYTES, MAX_CHUNK_LINES};

#[test]
fn lengths_to_read() {
    assert_eq!(read_length(10, 10), None);
    assert_eq!(read_length(5, 10), None);
    assert_eq!(read_length(15, 10), Some(5));
    assert_eq!(read_length(u64::MAX, 0), Some(MAX_CHUNK_BYTES as usize));
}

#[test]
fn a_partial_line_waits() {
    let chunk = read_chunk(100, 40, b"one\ntwo\r\nthr");
    assert_eq!(chunk.lines, ["one", "two"]);
    assert_eq!(chunk.new_offset, 49);
    assert_eq!(chunk.file_size, 100);
    let chunk = read_chunk(100, 49, b"three\n");
    assert_eq!(chunk.lines, ["three"]);
    assert_eq!(chunk.new_offset, 55);
}

#[test]
fn nothing_new_is_no_line() {
    let chunk = read_chunk(40, 40, b"");
    assert!(chunk.lines.is_empty());
    assert_eq!(chunk.new_offset, 40);
    let chunk = read_chunk(30, 40, b"");
    assert!(chunk.lines.is_empty());
    assert_eq!((chunk.new_offset, chunk.file_size), (40, 30));
}

#[test]
fn broken_text_is_replaced() {
    let chunk = read_chunk(10, 0, b"a\xffb\n");
    assert_eq!(chunk.lines, ["a\u{fffd}b"]);
    assert_eq!(chunk.new_offset, 4);
}

#[test]
fn one_return_is_cut() {
    let chunk = read_chunk(10, 0, b"a\r\r\n\r\n\n");
    assert_eq!(chunk.lines, ["a\r", "", ""]);
    assert_eq!(chunk.new_offset, 7);
}

#[test]
fn lines_are_capped_and_resumed() {
    let mut text = String::new();
    for i in 0..MAX_CHUNK_LINES + 3 {
        text.push_str(&format!("{i}\n"));
    }
    let size = text.len() as u64;
    let first = read_chunk(size, 0, text.as_bytes());
    assert_eq!(first.lines.len(), MAX_CHUNK_LINES);
    let rest = &text.as_bytes()[first.new_offset as usize..];
    let second = read_chunk(size, first.new_offset, rest);
    assert_eq!(second.lines, ["5000", "5001", "5002"]);
    assert_eq!(second.new_offset, size);
}

#[test]
fn joined_lines_are_the_file() {
    let text = b"a\nbb\n\nccc\n";
    let chunk = read_chunk(10, 0, text);
    let joined: String = chunk.lines.iter().map(|l| format!("{l}\n")).collect();
    assert_eq!(joined.as_bytes(), &text[..]);
}

/// Reads a file from its start until a chunk has no lines.
fn read_all(file: &[u8]) -> (Vec<String>, u64) {
    let size = file.len() as u64;
    let mut lines = Vec::new();
    let mut offset = 0;
    loop {
        let from = offset as usize;
        let n = read_length(size, offset).unwrap_or(0);
        let chunk = read_chunk(size, offset, &file[from..from + n]);
        if chunk.lines.is_empty() {
            return (lines, offset);
        }
        lines.extend(chunk.lines);
        offset = chunk.new_offset;
    }
}

#[test]
fn a_file_is_read_to_its_end() {
    let mut text = String::new();
    for i in 0..2 * MAX_CHUNK_LINES + 1 {
        text.push_str(&format!("line {i}\r\n"));
    }
    let complete = text.len() as u64;
    text.push_str("partial");
    let (lines, end) = read_all(text.as_bytes());
    assert_eq!(lines.len(), 2 * MAX_CHUNK_LINES + 1);
    assert!(lines.iter().enumerate().all(|(i, l)| *l == format!("line {i}")));
    assert_eq!(end, complete);
    assert_eq!(read_all(b"none"), (Vec::new(), 0));
}

#[test]
fn lines_across_the_end_of_a_read_are_whole() {
    let long = "x".repeat(MAX_CHUNK_BYTES as usize - 2);
    let text = format!("ab\n{long}\ncd\n");
    let (lines, end) = read_all(text.as_bytes());
    assert_eq!(lines, ["ab".to_string(), long, "cd".to_string()]);
    assert_eq!(end, text.len() as u64);
}
