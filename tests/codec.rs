use bytes::BytesMut;
use compute_server::codec::{decode_frame, encode_frame, position, render};
use compute_server::decimal::{parse_u32, push_decimal};
use compute_server::{Completion, Request, Response, TaskCodec, TaskProto};

fn buf(s: &str) -> BytesMut {
    BytesMut::from(s.as_bytes())
}

#[test]
fn partial_line_waits_for_line_feed() {
    let mut b = buf("12 3");
    assert_eq!(decode_frame(&mut b), None);
    assert_eq!(&b[..], b"12 3");
    b.extend_from_slice(b"\n");
    assert_eq!(decode_frame(&mut b), Some(Request { id: 12, difficulty: 3 }));
    assert!(b.is_empty());
}

#[test]
fn malformed_line_gives_nothing_and_is_consumed() {
    let mut b = buf("abc def\n");
    assert_eq!(decode_frame(&mut b), None);
    assert!(b.is_empty());
}

#[test]
fn two_lines_decode_in_order() {
    let mut codec = TaskCodec;
    let mut b = buf("1 0\n2 0\n");
    assert_eq!(codec.decode(&mut b), Some(Request { id: 1, difficulty: 0 }));
    assert_eq!(&b[..], b"2 0\n");
    assert_eq!(codec.decode(&mut b), Some(Request { id: 2, difficulty: 0 }));
    assert_eq!(codec.decode(&mut b), None);
    assert!(b.is_empty());
}

#[test]
fn line_without_space_gives_nothing() {
    let mut b = buf("123\n7 8\n");
    assert_eq!(decode_frame(&mut b), None);
    assert_eq!(&b[..], b"7 8\n");
    assert_eq!(decode_frame(&mut b), Some(Request { id: 7, difficulty: 8 }));
}

#[test]
fn carriage_return_is_rejected() {
    let mut b = buf("5 6\r\n");
    assert_eq!(decode_frame(&mut b), None);
    assert!(b.is_empty());
}

#[test]
fn token_bounds() {
    let mut b = buf("4294967295 4294967295\n");
    assert_eq!(
        decode_frame(&mut b),
        Some(Request { id: u32::MAX, difficulty: u32::MAX })
    );
    let mut b = buf("4294967296 1\n");
    assert_eq!(decode_frame(&mut b), None);
    let mut b = buf(" 5\n");
    assert_eq!(decode_frame(&mut b), None);
    let mut b = buf("5 \n");
    assert_eq!(decode_frame(&mut b), None);
    let mut b = buf("+5 1\n");
    assert_eq!(decode_frame(&mut b), None);
    let mut b = buf("1 2 3\n");
    assert_eq!(decode_frame(&mut b), None);
    let mut b = buf("007 010\n");
    assert_eq!(decode_frame(&mut b), Some(Request { id: 7, difficulty: 10 }));
}

#[test]
fn empty_buffer_gives_nothing() {
    let mut b = BytesMut::new();
    assert_eq!(decode_frame(&mut b), None);
    assert!(b.is_empty());
}

#[test]
fn encode_completed() {
    let mut b = buf("x");
    let res = Response { id: 5, completion: Completion::Time(12) };
    encode_frame(res, &mut b);
    assert_eq!(&b[..], b"x5 completed in 12 milliseconds\n");
}

#[test]
fn encode_out_of_time() {
    let mut codec = TaskCodec;
    let mut b = BytesMut::new();
    codec.encode(Response { id: 4294967295, completion: Completion::OutOfTime }, &mut b);
    assert_eq!(&b[..], b"4294967295 ran out of time\n");
}

#[test]
fn render_largest_time() {
    let line = render(Response { id: 0, completion: Completion::Time(u64::MAX) });
    assert_eq!(line, b"0 completed in 18446744073709551615 milliseconds\n".to_vec());
}

#[test]
fn decode_then_encode_keeps_id() {
    let mut codec = TaskProto.codec();
    let mut b = buf("31337 9\n");
    let req = codec.decode(&mut b).unwrap();
    let mut out = BytesMut::new();
    codec.encode(Response { id: req.id, completion: Completion::Time(0) }, &mut out);
    assert_eq!(&out[..], b"31337 completed in 0 milliseconds\n");
    let mut out = BytesMut::new();
    codec.encode(Response { id: req.id, completion: Completion::OutOfTime }, &mut out);
    assert!(out.starts_with(b"31337 "));
}

#[test]
fn numerals() {
    let mut v: Vec<u8> = vec![b'#'];
    push_decimal(&mut v, 0);
    push_decimal(&mut v, 1090);
    assert_eq!(v, b"#01090".to_vec());
    assert_eq!(parse_u32(b"0"), Some(0));
    assert_eq!(parse_u32(b"65536"), Some(65536));
    assert_eq!(parse_u32(b""), None);
    assert_eq!(parse_u32(b"12a"), None);
    assert_eq!(parse_u32(b"99999999999"), None);
}

#[test]
fn positions() {
    assert_eq!(position(b"ab\ncd\n", b'\n'), Some(2));
    assert_eq!(position(b"abc", b' '), None);
    assert_eq!(position(b"", b' '), None);
}
