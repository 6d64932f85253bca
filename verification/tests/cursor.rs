//! The buffer list and its cursor on concrete chunks.

use buf_list::{BufList, Cursor, ErrorKind};
use bytes::Bytes;

fn list_of(chunks: &[&[u8]]) -> BufList {
    let mut bl = BufList::new();
    for c in chunks {
        bl.push_chunk(Bytes::copy_from_slice(c));
    }
    bl
}

#[test]
fn new_list_is_empty() {
    let bl = BufList::new();
    assert_eq!(bl.num_bytes(), 0);
    assert_eq!(bl.num_chunks(), 0);
}

#[test]
fn push_chunk_counts_bytes_and_hands_back_the_chunk() {
    let mut bl = BufList::new();
    let pushed = bl.push_chunk(Bytes::from_static(b"abc"));
    assert_eq!(&pushed[..], b"abc");
    let pushed = bl.push_chunk(Bytes::new());
    assert!(pushed.is_empty());
    bl.push_chunk(Bytes::from_static(b"de"));
    assert_eq!(bl.num_bytes(), 5);
    assert_eq!(bl.num_chunks(), 2);
}

#[test]
fn read_exact_reads_across_chunks() {
    let bl = list_of(&[b"abc", b"", b"de", b"fgh"]);
    let mut cursor = Cursor::new(&bl);
    cursor.set_position(1);
    let mut buf = [0u8; 5];
    assert_eq!(cursor.read_exact(&mut buf), Ok(()));
    assert_eq!(&buf, b"bcdef");
    assert_eq!(cursor.position(), 6);
    let mut buf = [0u8; 2];
    assert_eq!(cursor.read_exact(&mut buf), Ok(()));
    assert_eq!(&buf, b"gh");
    assert_eq!(cursor.position(), 8);
}

#[test]
fn read_exact_from_start_reads_everything() {
    let bl = list_of(&[b"hello", b"xyz"]);
    let mut cursor = Cursor::new(&bl);
    let mut buf = [0u8; 8];
    assert_eq!(cursor.read_exact(&mut buf), Ok(()));
    assert_eq!(&buf, b"helloxyz");
    assert_eq!(cursor.position(), 8);
}

#[test]
fn read_exact_past_end_moves_to_end_and_leaves_buffer() {
    let bl = list_of(&[b"hello", b"xyz"]);
    let mut cursor = Cursor::new(&bl);
    cursor.set_position(3);
    let mut buf = [9u8; 20];
    assert_eq!(cursor.read_exact(&mut buf), Err(ErrorKind::UnexpectedEof));
    assert_eq!(cursor.position(), 8);
    assert_eq!(buf, [9u8; 20]);
}

#[test]
fn read_exact_past_end_from_beyond_end_moves_back_to_end() {
    let bl = list_of(&[b"abc", b"de"]);
    let mut cursor = Cursor::new(&bl);
    cursor.set_position(40);
    assert_eq!(cursor.position(), 40);
    let mut empty: [u8; 0] = [];
    assert_eq!(cursor.read_exact(&mut empty), Ok(()));
    assert_eq!(cursor.position(), 40);
    let mut buf = [0u8; 1];
    assert_eq!(cursor.read_exact(&mut buf), Err(ErrorKind::UnexpectedEof));
    assert_eq!(cursor.position(), 5);
}

#[test]
fn read_exact_on_empty_list() {
    let bl = BufList::new();
    let mut cursor = Cursor::new(&bl);
    let mut empty: [u8; 0] = [];
    assert_eq!(cursor.read_exact(&mut empty), Ok(()));
    let mut buf = [0u8; 3];
    assert_eq!(cursor.read_exact(&mut buf), Err(ErrorKind::UnexpectedEof));
    assert_eq!(cursor.position(), 0);
}

#[test]
fn cursor_matches_std_cursor_after_failed_read() {
    let chunks: [&[u8]; 3] = [b"ab", b"cde", b"f"];
    let bl = list_of(&chunks);
    let flat = chunks.concat();
    for start in 0..8u64 {
        for len in 0..9usize {
            let mut cursor = Cursor::new(&bl);
            cursor.set_position(start);
            let mut buf = vec![0u8; len];
            let r = cursor.read_exact(&mut buf);
            let mut std_cursor = std::io::Cursor::new(flat.as_slice());
            std_cursor.set_position(start);
            let mut std_buf = vec![0u8; len];
            let std_r = std::io::Read::read_exact(&mut std_cursor, &mut std_buf);
            assert_eq!(r.is_ok(), std_r.is_ok());
            assert_eq!(cursor.position(), std_cursor.position());
            if r.is_ok() {
                assert_eq!(buf, std_buf);
            }
        }
    }
}
