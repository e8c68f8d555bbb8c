use chat::common::{Buffer, Codec, ErrorKind, Stream};

fn stream_with(bytes: &[u8]) -> Stream {
    let mut s = Stream::new(String::from("peer"));
    s.deliver(bytes);
    s
}

#[test]
fn new_buffer_is_empty_and_finished() {
    let b = Buffer::new();
    assert!(b.finished());
}

#[test]
fn resized_buffer_waits_for_its_bytes() {
    let mut b = Buffer::new();
    b.resize(3);
    assert!(!b.finished());
    b.resize(0);
    assert!(b.finished());
}

#[test]
fn fill_in_one_attempt() {
    let mut b = Buffer::new();
    b.resize(3);
    let mut s = stream_with(&[1, 2, 3, 4]);
    assert_eq!(b.try_fill_from(&mut s), Ok(()));
    assert!(!b.finished());
    assert_eq!(b.read(10), vec![1, 2, 3]);
    assert!(b.finished());
    assert_eq!(s.read(10), Ok(vec![4]));
}

#[test]
fn fill_over_several_attempts() {
    let mut b = Buffer::new();
    b.resize(4);
    let mut s = stream_with(&[1]);
    assert_eq!(b.try_fill_from(&mut s), Err(ErrorKind::WouldBlock));
    assert_eq!(b.try_fill_from(&mut s), Err(ErrorKind::WouldBlock));
    s.deliver(&[2, 3]);
    assert_eq!(b.try_fill_from(&mut s), Err(ErrorKind::WouldBlock));
    s.deliver(&[4, 5]);
    assert_eq!(b.try_fill_from(&mut s), Ok(()));
    assert_eq!(b.read(4), vec![1, 2, 3, 4]);
    assert_eq!(s.read(10), Ok(vec![5]));
}

#[test]
fn fill_from_an_ended_stream_is_an_unexpected_end() {
    let mut b = Buffer::new();
    b.resize(2);
    let mut s = stream_with(&[1]);
    s.close();
    assert_eq!(b.try_fill_from(&mut s), Err(ErrorKind::WouldBlock));
    assert_eq!(b.try_fill_from(&mut s), Err(ErrorKind::UnexpectedEof));
}

#[test]
fn fill_of_a_full_buffer_is_an_unexpected_end() {
    let mut b = Buffer::new();
    let mut s = stream_with(&[1]);
    assert_eq!(b.try_fill_from(&mut s), Err(ErrorKind::UnexpectedEof));
    assert_eq!(s.read(1), Ok(vec![1]));
}

#[test]
fn fill_passes_on_the_failure_of_the_stream() {
    let mut b = Buffer::new();
    b.resize(2);
    let mut s = stream_with(&[]);
    s.fail(ErrorKind::ConnectionAborted);
    assert_eq!(b.try_fill_from(&mut s), Err(ErrorKind::ConnectionAborted));
}

#[test]
fn resize_keeps_the_front_and_pads_with_zeros() {
    let mut b = Buffer::new();
    b.resize(3);
    let mut s = stream_with(&[7, 8, 9]);
    assert_eq!(b.try_fill_from(&mut s), Ok(()));
    b.resize(5);
    assert_eq!(b.read(5), vec![7, 8, 9, 0, 0]);
    b.resize(2);
    assert_eq!(b.read(5), vec![7, 8]);
    assert!(b.finished());
}

#[test]
fn read_stops_at_the_end() {
    let mut b = Buffer::new();
    b.resize(3);
    let mut s = stream_with(&[1, 2, 3]);
    assert_eq!(b.try_fill_from(&mut s), Ok(()));
    assert_eq!(b.read(2), vec![1, 2]);
    assert_eq!(b.read(2), vec![3]);
    assert_eq!(b.read(2), Vec::<u8>::new());
    assert!(b.finished());
}

#[test]
fn decode_reads_from_the_cursor() {
    let mut b = Buffer::new();
    b.resize(4);
    let mut s = stream_with(&[0, 7, 1, 0]);
    assert_eq!(b.try_fill_from(&mut s), Ok(()));
    assert_eq!(u16::decode(&mut b), Ok(7));
    assert_eq!(u16::decode(&mut b), Ok(256));
    assert_eq!(u16::decode(&mut b), Err(ErrorKind::UnexpectedEof));
}
