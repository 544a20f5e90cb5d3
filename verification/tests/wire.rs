use keyward::wire::{frame, low32, number_at, same_bytes, Reader, Writer};

#[test]
fn what_is_written_is_read_back() {
    let mut w = Writer::new();
    w.u8(7);
    w.u32(0x0102_0304);
    w.string(b"hello");
    w.string(b"");
    assert_eq!(w.buf, b"\x07\x01\x02\x03\x04\x00\x00\x00\x05hello\x00\x00\x00\x00");
    let mut r = Reader::new(&w.buf);
    assert_eq!(r.u8(), Some(7));
    assert_eq!(r.u32(), Some(0x0102_0304));
    assert_eq!(r.string(), Some(&b"hello"[..]));
    assert_eq!(r.string(), Some(&b""[..]));
    assert_eq!(r.u8(), None);
    assert_eq!(r.u32(), None);
    assert_eq!(r.string(), None);
}

#[test]
fn a_failed_read_leaves_the_position() {
    let data = b"\x00\x00\x00\x05hel";
    let mut r = Reader::new(data);
    assert_eq!(r.string(), None);
    assert_eq!(r.u32(), Some(5));
    assert_eq!(r.u32(), None);
    assert_eq!(r.u8(), Some(b'h'));
}

#[test]
fn the_largest_numbers_pass() {
    let mut w = Writer::new();
    w.u32(u32::MAX);
    assert_eq!(w.buf, [255; 4]);
    assert_eq!(number_at(&[0, 255, 255, 255, 255], 1), u32::MAX);
    let mut r = Reader::new(&w.buf);
    assert_eq!(r.string(), None);
}

#[test]
fn a_frame_is_a_length_and_a_message() {
    assert_eq!(frame(&[11]), vec![0, 0, 0, 1, 11]);
    assert_eq!(frame(&[]), vec![0, 0, 0, 0]);
    assert_eq!(frame(&vec![9; 300])[..4], [0, 0, 1, 44]);
}

#[test]
fn lengths_keep_their_low_bits() {
    assert_eq!(low32(5), 5);
    assert_eq!(low32(u32::MAX as usize), u32::MAX);
    if usize::BITS == 64 {
        assert_eq!(low32((1usize << 33) + 3), 3);
    }
}

#[test]
fn bytes_are_compared_whole() {
    assert!(same_bytes(b"", b""));
    assert!(same_bytes(b"ab", b"ab"));
    assert!(!same_bytes(b"ab", b"ac"));
    assert!(!same_bytes(b"ab", b"abc"));
}
