use std::collections::HashMap;

use hello_server::reader::{ReadError, ReadOutcome, ReadStep, SafeBuf};
use hello_server::server::ServerLimits;

fn limits(mem: usize, chunk: usize, total: usize) -> ServerLimits {
    ServerLimits { buf_string_limit: mem, file_buf_size_limit: chunk, file_size_limit: total }
}

/// Runs one read over the given chunks, writing spilled bytes into `files`.
fn read_until(
    buf: &mut SafeBuf,
    chunks: &mut Vec<Vec<u8>>,
    files: &mut HashMap<String, Vec<u8>>,
    delimiter: &[u8],
) -> Result<ReadOutcome, ReadError> {
    loop {
        match buf.read_step(delimiter) {
            ReadStep::NeedChunk => {
                let chunk = if chunks.is_empty() { Vec::new() } else { chunks.remove(0) };
                buf.fill(chunk);
            }
            ReadStep::Write { path, data, append } => {
                let file = files.entry(path).or_default();
                if !append {
                    file.clear();
                }
                file.extend_from_slice(&data);
            }
            ReadStep::Done(outcome) => return Ok(outcome),
            ReadStep::Failed(e) => return Err(e),
        }
    }
}

fn in_memory(r: Result<ReadOutcome, ReadError>) -> Vec<u8> {
    match r {
        Ok(ReadOutcome::InMemory(v)) => v,
        other => panic!("expected bytes in memory, got {:?}", other),
    }
}

#[test]
fn single_occurrence_returns_bytes_before_it() {
    let mut buf = SafeBuf::new(limits(0, 0, 0));
    let mut chunks = vec![b"GET / HTTP/1.1\r\nHost: x".to_vec()];
    let mut files = HashMap::new();
    let line = in_memory(read_until(&mut buf, &mut chunks, &mut files, b"\r\n"));
    assert_eq!(line, b"GET / HTTP/1.1".to_vec());
    assert!(buf.delimiter_found());
    // the stream continues right after the delimiter
    let rest = in_memory(read_until(&mut buf, &mut chunks, &mut files, b"\r\n"));
    assert_eq!(rest, b"Host: x".to_vec());
    assert!(!buf.delimiter_found());
}

#[test]
fn delimiter_in_a_later_chunk() {
    let mut buf = SafeBuf::new(limits(0, 0, 0));
    let mut chunks = vec![b"abc".to_vec(), b"def--ghi".to_vec()];
    let mut files = HashMap::new();
    let r = in_memory(read_until(&mut buf, &mut chunks, &mut files, b"--"));
    assert_eq!(r, b"abcdef".to_vec());
    let r = in_memory(read_until(&mut buf, &mut chunks, &mut files, b"--"));
    assert_eq!(r, b"ghi".to_vec());
}

#[test]
fn no_occurrence_returns_everything() {
    let mut buf = SafeBuf::new(limits(0, 0, 0));
    let mut chunks = vec![b"hello ".to_vec(), b"world".to_vec()];
    let mut files = HashMap::new();
    let r = in_memory(read_until(&mut buf, &mut chunks, &mut files, b"\r\n"));
    assert_eq!(r, b"hello world".to_vec());
    assert!(!buf.delimiter_found());
}

#[test]
fn empty_stream_gives_empty_read() {
    let mut buf = SafeBuf::new(limits(0, 0, 0));
    let mut chunks = Vec::new();
    let mut files = HashMap::new();
    let r = in_memory(read_until(&mut buf, &mut chunks, &mut files, b"\r\n"));
    assert!(r.is_empty());
}

#[test]
fn spilled_file_equals_returned_bytes() {
    let input = vec![b"part one, ".to_vec(), b"part two, ".to_vec(), b"end\r\n--X rest".to_vec()];
    let mut plain = SafeBuf::new(limits(0, 4, 0));
    let mut chunks = input.clone();
    let mut files = HashMap::new();
    let expected = in_memory(read_until(&mut plain, &mut chunks, &mut files, b"\r\n--X"));
    assert!(files.is_empty());

    let mut spill = SafeBuf::new(limits(0, 4, 0));
    spill.set_file_path("./out.bin");
    let mut chunks = input.clone();
    let r = read_until(&mut spill, &mut chunks, &mut files, b"\r\n--X");
    assert!(matches!(r, Ok(ReadOutcome::Spilled)));
    assert_eq!(files.get("./out.bin").unwrap(), &expected);
    assert_eq!(expected, b"part one, part two, end".to_vec());
    // the spill target is used up by the read
    let r = in_memory(read_until(&mut spill, &mut chunks, &mut files, b"\r\n"));
    assert_eq!(r, b" rest".to_vec());
}

#[test]
fn memory_limit_stops_a_long_read() {
    let mut buf = SafeBuf::new(limits(8, 0, 0));
    let mut chunks = vec![b"12345".to_vec(), b"67890".to_vec(), b"abcde".to_vec()];
    let mut files = HashMap::new();
    let r = read_until(&mut buf, &mut chunks, &mut files, b"\r\n");
    assert!(matches!(r, Err(ReadError::MemoryLimit(8))));
    // the second chunk was the last one taken
    assert_eq!(chunks.len(), 1);
}

#[test]
fn memory_limit_allows_a_short_read() {
    let mut buf = SafeBuf::new(limits(8, 0, 0));
    let mut chunks = vec![b"1234\r\n".to_vec()];
    let mut files = HashMap::new();
    let r = in_memory(read_until(&mut buf, &mut chunks, &mut files, b"\r\n"));
    assert_eq!(r, b"1234".to_vec());
}

#[test]
fn file_size_limit_fails_after_the_flush() {
    let mut buf = SafeBuf::new(limits(0, 2, 4));
    buf.set_file_path("./big.bin");
    let mut chunks = vec![b"abc".to_vec(), b"def".to_vec(), b"ghi".to_vec()];
    let mut files = HashMap::new();
    let r = read_until(&mut buf, &mut chunks, &mut files, b"\r\n");
    assert!(matches!(r, Err(ReadError::FileSizeLimit(4))));
    // the partial file stays; the last byte is held back, since a
    // two-byte delimiter could begin there
    assert_eq!(files.get("./big.bin").unwrap(), &b"abcde".to_vec());
}

#[test]
fn delimiter_longer_than_window_is_refused() {
    let mut buf = SafeBuf::new(limits(0, 0, 0));
    let mut chunks = vec![b"ab".to_vec()];
    let mut files = HashMap::new();
    let r = read_until(&mut buf, &mut chunks, &mut files, b"abcdef");
    assert!(matches!(r, Err(ReadError::DelimiterTooLong)));
}

#[test]
fn delimiter_across_chunks_is_found() {
    let mut buf = SafeBuf::new(limits(0, 0, 0));
    let mut chunks = vec![b"ab\r".to_vec(), b"\ncd".to_vec()];
    let mut files = HashMap::new();
    let r = in_memory(read_until(&mut buf, &mut chunks, &mut files, b"\r\n"));
    assert_eq!(r, b"ab".to_vec());
    assert!(buf.delimiter_found());
    let r = in_memory(read_until(&mut buf, &mut chunks, &mut files, b"\r\n"));
    assert_eq!(r, b"cd".to_vec());
}

#[test]
fn long_delimiter_across_two_chunks() {
    let mut buf = SafeBuf::new(limits(0, 0, 0));
    let mut chunks = vec![b"0123456789xy--bo".to_vec(), b"undary!abc".to_vec()];
    let mut files = HashMap::new();
    let r = in_memory(read_until(&mut buf, &mut chunks, &mut files, b"--boundary"));
    assert_eq!(r, b"0123456789xy".to_vec());
    let r = in_memory(read_until(&mut buf, &mut chunks, &mut files, b"\r\n"));
    assert_eq!(r, b"!abc".to_vec());
}

#[test]
fn spilled_read_with_split_delimiter() {
    let mut buf = SafeBuf::new(limits(0, 2, 0));
    buf.set_file_path("./split.bin");
    let mut chunks = vec![b"hello wor".to_vec(), b"ld\r\n-".to_vec(), b"-X rest".to_vec()];
    let mut files = HashMap::new();
    let r = read_until(&mut buf, &mut chunks, &mut files, b"\r\n--X");
    assert!(matches!(r, Ok(ReadOutcome::Spilled)));
    assert_eq!(files.get("./split.bin").unwrap(), &b"hello world".to_vec());
    let r = in_memory(read_until(&mut buf, &mut chunks, &mut files, b"\r\n"));
    assert_eq!(r, b" rest".to_vec());
}

#[test]
fn error_messages() {
    assert_eq!(ReadError::MemoryLimit(8).message(), "BUF_STRING_LIMIT(8) was reached");
    assert_eq!(ReadError::FileSizeLimit(1024).message(), "FILE_SIZE_LIMIT(1024) was reached");
    assert!(!ReadError::DelimiterTooLong.message().is_empty());
}
