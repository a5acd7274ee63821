use titan::chunks::{count_lines, read_chunks};
use titan::CHUNK_SIZE;

fn concat(chunks: &Vec<Vec<u8>>) -> Vec<u8> {
    let mut out = Vec::new();
    for c in chunks {
        out.extend_from_slice(c);
    }
    out
}

#[test]
fn empty_stream_yields_no_chunks() {
    let chunks = read_chunks(b"", 8);
    assert_eq!(chunks.len(), 0);
}

#[test]
fn small_stream_is_one_chunk() {
    let content = b"alpha\nbeta\n".to_vec();
    let chunks = read_chunks(&content, CHUNK_SIZE);
    assert_eq!(chunks.len(), 1);
    assert_eq!(chunks[0], content);
}

#[test]
fn chunks_cut_right_after_a_newline() {
    // Target 4: the first chunk must close at the first newline at or
    // past offset 3.
    let content = b"aaa\nbbb\nc".to_vec();
    let chunks = read_chunks(&content, 4);
    assert_eq!(chunks.len(), 3);
    assert_eq!(chunks[0], b"aaa\n".to_vec());
    assert_eq!(chunks[1], b"bbb\n".to_vec());
    assert_eq!(chunks[2], b"c".to_vec());
}

#[test]
fn a_line_longer_than_the_target_stays_whole() {
    let content = b"abcdefgh\nxy\n".to_vec();
    let chunks = read_chunks(&content, 4);
    assert_eq!(chunks.len(), 2);
    assert_eq!(chunks[0], b"abcdefgh\n".to_vec());
    assert_eq!(chunks[1], b"xy\n".to_vec());
}

#[test]
fn concatenated_chunks_restore_the_stream() {
    let mut content = Vec::new();
    for i in 0..1000u32 {
        content.extend_from_slice(format!("line number {}\n", i).as_bytes());
    }
    for target in [1usize, 7, 64, 1000, 1 << 20] {
        let chunks = read_chunks(&content, target);
        assert_eq!(concat(&chunks), content);
        for (k, chunk) in chunks.iter().enumerate() {
            assert!(!chunk.is_empty());
            if k + 1 < chunks.len() {
                assert_eq!(*chunk.last().unwrap(), b'\n');
            }
        }
    }
}

#[test]
fn trailing_partial_line_is_emitted() {
    let content = b"one\ntwo\nthree with no newline".to_vec();
    let chunks = read_chunks(&content, 4);
    assert_eq!(concat(&chunks), content);
    assert_eq!(chunks.last().unwrap(), &b"three with no newline".to_vec());
}

#[test]
fn five_mebibyte_line_is_a_single_chunk() {
    // One line of 5 MiB against a 1 MiB target: no newline is ever
    // found, so exactly one chunk holds the whole line.
    let content = vec![b'a'; 5 * 1024 * 1024];
    let chunks = read_chunks(&content, CHUNK_SIZE);
    assert_eq!(chunks.len(), 1);
    assert_eq!(chunks[0].len(), 5 * 1024 * 1024);
}

#[test]
fn count_lines_counts_newline_separated_records() {
    assert_eq!(count_lines(b""), 0);
    assert_eq!(count_lines(b"a"), 1);
    assert_eq!(count_lines(b"a\n"), 1);
    assert_eq!(count_lines(b"a\nb"), 2);
    assert_eq!(count_lines(b"a\nb\n"), 2);
    assert_eq!(count_lines(b"\n\n"), 2);
}
