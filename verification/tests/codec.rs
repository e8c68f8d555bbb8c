use chat::common::{Buffer, ClientCommand, Codec, ErrorKind, ServerCommand, Stream};

fn buffer_of(bytes: &[u8]) -> Buffer {
    let mut stream = Stream::new(String::from("test"));
    stream.deliver(bytes);
    let mut buffer = Buffer::new();
    buffer.resize(bytes.len());
    if !bytes.is_empty() {
        assert_eq!(buffer.try_fill_from(&mut stream), Ok(()));
    }
    buffer
}

fn coded<T: Codec>(value: &T) -> Vec<u8> {
    let mut bytes = Vec::new();
    value.code(&mut bytes);
    bytes
}

fn round_trip_client(value: ClientCommand) {
    let bytes = coded(&value);
    assert_eq!(value.coded_size(), bytes.len());
    let mut buffer = buffer_of(&bytes);
    assert_eq!(ClientCommand::decode(&mut buffer), Ok(value));
    assert!(buffer.finished());
}

fn round_trip_server(value: ServerCommand) {
    let bytes = coded(&value);
    assert_eq!(value.coded_size(), bytes.len());
    let mut buffer = buffer_of(&bytes);
    assert_eq!(ServerCommand::decode(&mut buffer), Ok(value));
    assert!(buffer.finished());
}

fn sample_strings() -> Vec<String> {
    vec![
        String::new(),
        String::from("a"),
        String::from("hello world"),
        String::from("héllo wörld ✓ 日本語 🎉"),
        "x".repeat(255),
        "x".repeat(256),
        "é".repeat(1000),
        "z".repeat(65535),
    ]
}

#[test]
fn u16_is_coded_big_endian() {
    assert_eq!(coded(&0u16), vec![0, 0]);
    assert_eq!(coded(&1u16), vec![0, 1]);
    assert_eq!(coded(&258u16), vec![1, 2]);
    assert_eq!(coded(&0xabcdu16), vec![0xab, 0xcd]);
    assert_eq!(coded(&u16::MAX), vec![255, 255]);
    assert_eq!(7u16.coded_size(), 2);
}

#[test]
fn u16_round_trips() {
    for value in [0u16, 1, 255, 256, 257, 0x1234, 0xff00, u16::MAX] {
        let mut buffer = buffer_of(&coded(&value));
        assert_eq!(u16::decode(&mut buffer), Ok(value));
        assert!(buffer.finished());
    }
}

#[test]
fn u16_decode_needs_two_bytes() {
    let mut empty = buffer_of(&[]);
    assert_eq!(u16::decode(&mut empty), Err(ErrorKind::UnexpectedEof));
    let mut one = buffer_of(&[7]);
    assert_eq!(u16::decode(&mut one), Err(ErrorKind::UnexpectedEof));
    assert!(one.finished());
}

#[test]
fn string_is_length_prefixed_utf8() {
    assert_eq!(coded(&String::new()), vec![0, 0]);
    assert_eq!(coded(&String::from("hi")), vec![0, 2, b'h', b'i']);
    assert_eq!(coded(&String::from("é")), vec![0, 2, 0xc3, 0xa9]);
    assert_eq!(String::from("é").coded_size(), 4);
    let long = "a".repeat(300);
    let bytes = coded(&long);
    assert_eq!(&bytes[..2], &[1, 44]);
    assert_eq!(bytes.len(), 302);
}

#[test]
fn string_round_trips() {
    for s in sample_strings() {
        let bytes = coded(&s);
        assert_eq!(s.coded_size(), bytes.len());
        assert_eq!(bytes.len(), 2 + s.len());
        let mut buffer = buffer_of(&bytes);
        assert_eq!(String::decode(&mut buffer), Ok(s));
        assert!(buffer.finished());
    }
}

#[test]
fn byte_string_round_trips() {
    for b in [vec![], vec![0u8], vec![0xff, 0xfe, 0x00, 0x80], vec![9u8; 65535]] {
        let bytes = coded(&b);
        assert_eq!(b.coded_size(), bytes.len());
        let mut buffer = buffer_of(&bytes);
        assert_eq!(Vec::<u8>::decode(&mut buffer), Ok(b));
        assert!(buffer.finished());
    }
}

#[test]
fn decode_takes_one_value_and_leaves_the_rest() {
    let mut bytes = coded(&String::from("ab"));
    bytes.extend_from_slice(&coded(&0x0102u16));
    let mut buffer = buffer_of(&bytes);
    assert_eq!(String::decode(&mut buffer), Ok(String::from("ab")));
    assert!(!buffer.finished());
    assert_eq!(u16::decode(&mut buffer), Ok(0x0102));
    assert!(buffer.finished());
}

#[test]
fn string_decode_rejects_invalid_utf8() {
    for bad in [vec![0xffu8], vec![0xc3], vec![b'a', 0x80, b'b'], vec![0xed, 0xa0, 0x80], vec![0xf8, 0x88, 0x80, 0x80, 0x80]] {
        let mut bytes = coded(&(bad.len() as u16));
        bytes.extend_from_slice(&bad);
        let mut buffer = buffer_of(&bytes);
        assert_eq!(String::decode(&mut buffer), Err(ErrorKind::InvalidData));
        assert!(buffer.finished());
    }
}

#[test]
fn string_decode_reports_missing_bytes() {
    let mut buffer = buffer_of(&[0, 5, b'a', b'b']);
    assert_eq!(String::decode(&mut buffer), Err(ErrorKind::UnexpectedEof));
    let mut prefix_only = buffer_of(&[0]);
    assert_eq!(String::decode(&mut prefix_only), Err(ErrorKind::UnexpectedEof));
}

#[test]
fn longest_string_has_the_largest_prefix() {
    let longest = "a".repeat(65535);
    let bytes = coded(&longest);
    assert_eq!(&bytes[..2], &[255, 255]);
    assert_eq!(bytes.len(), 2 + 65535);
    let mut buffer = buffer_of(&bytes);
    assert_eq!(String::decode(&mut buffer), Ok(longest));
    assert!(buffer.finished());
}

#[test]
fn coded_size_counts_strings_of_any_length() {
    assert_eq!("a".repeat(65536).coded_size(), 2 + 65536);
    assert_eq!(vec![0u8; 70000].coded_size(), 2 + 70000);
    assert_eq!(ClientCommand::Message { message: "a".repeat(65536) }.coded_size(), 4 + 65536);
    assert_eq!(
        ServerCommand::Message { msg_id: 1, user_id: 2, message: "a".repeat(100000) }.coded_size(),
        8 + 100000
    );
}

#[test]
fn client_command_bytes() {
    assert_eq!(coded(&ClientCommand::Padding), vec![0, 0]);
    assert_eq!(
        coded(&ClientCommand::Connect { name: String::from("alice") }),
        vec![0, 1, 0, 5, b'a', b'l', b'i', b'c', b'e']
    );
    assert_eq!(
        coded(&ClientCommand::Message { message: String::from("hi") }),
        vec![0, 2, 0, 2, b'h', b'i']
    );
}

#[test]
fn server_command_bytes() {
    assert_eq!(coded(&ServerCommand::Padding), vec![0, 0]);
    assert_eq!(
        coded(&ServerCommand::AddUser { user_id: 1, name: String::from("alice") }),
        vec![0, 1, 0, 1, 0, 5, b'a', b'l', b'i', b'c', b'e']
    );
    assert_eq!(coded(&ServerCommand::RemoveUser { user_id: 0x0203 }), vec![0, 2, 2, 3]);
    assert_eq!(
        coded(&ServerCommand::Message { msg_id: 258, user_id: 1, message: String::from("hi") }),
        vec![0, 3, 1, 2, 0, 1, 0, 2, b'h', b'i']
    );
}

#[test]
fn client_command_sizes() {
    assert_eq!(ClientCommand::Padding.coded_size(), 2);
    assert_eq!(ClientCommand::Connect { name: String::from("alice") }.coded_size(), 9);
    assert_eq!(ClientCommand::Message { message: String::new() }.coded_size(), 4);
    assert_eq!(ClientCommand::Message { message: "z".repeat(65535) }.coded_size(), 65539);
}

#[test]
fn server_command_sizes() {
    assert_eq!(ServerCommand::Padding.coded_size(), 2);
    assert_eq!(ServerCommand::AddUser { user_id: 9, name: String::from("alice") }.coded_size(), 11);
    assert_eq!(ServerCommand::RemoveUser { user_id: 9 }.coded_size(), 4);
    assert_eq!(
        ServerCommand::Message { msg_id: 1, user_id: 2, message: "z".repeat(65535) }.coded_size(),
        65543
    );
}

#[test]
fn client_commands_round_trip() {
    round_trip_client(ClientCommand::Padding);
    for s in sample_strings() {
        round_trip_client(ClientCommand::Connect { name: s.clone() });
        round_trip_client(ClientCommand::Message { message: s });
    }
}

#[test]
fn server_commands_round_trip() {
    round_trip_server(ServerCommand::Padding);
    for user_id in [0u16, 1, 256, u16::MAX] {
        round_trip_server(ServerCommand::RemoveUser { user_id });
        for s in sample_strings() {
            round_trip_server(ServerCommand::AddUser { user_id, name: s.clone() });
            round_trip_server(ServerCommand::Message {
                msg_id: user_id.wrapping_add(7),
                user_id,
                message: s,
            });
        }
    }
}

#[test]
fn client_decode_rejects_unknown_tags() {
    for tag in [3u16, 4, 255, 256, 0x0300, u16::MAX] {
        let mut bytes = coded(&tag);
        bytes.extend_from_slice(&coded(&String::from("payload")));
        let mut buffer = buffer_of(&bytes);
        assert_eq!(ClientCommand::decode(&mut buffer), Err(ErrorKind::InvalidData));
    }
}

#[test]
fn server_decode_rejects_unknown_tags() {
    for tag in [4u16, 5, 255, 256, 0x0400, u16::MAX] {
        let mut bytes = coded(&tag);
        bytes.extend_from_slice(&[0, 1, 0, 1, b'x']);
        let mut buffer = buffer_of(&bytes);
        assert_eq!(ServerCommand::decode(&mut buffer), Err(ErrorKind::InvalidData));
    }
}

#[test]
fn client_decode_rejects_invalid_utf8() {
    for tag in [1u8, 2] {
        let mut buffer = buffer_of(&[0, tag, 0, 2, 0xc3, 0x28]);
        assert_eq!(ClientCommand::decode(&mut buffer), Err(ErrorKind::InvalidData));
    }
}

#[test]
fn server_decode_rejects_invalid_utf8() {
    let mut add_user = buffer_of(&[0, 1, 0, 7, 0, 1, 0xff]);
    assert_eq!(ServerCommand::decode(&mut add_user), Err(ErrorKind::InvalidData));
    let mut message = buffer_of(&[0, 3, 0, 1, 0, 7, 0, 2, 0xe2, 0x82]);
    assert_eq!(ServerCommand::decode(&mut message), Err(ErrorKind::InvalidData));
}

#[test]
fn decode_reports_truncated_commands() {
    let whole = coded(&ServerCommand::Message { msg_id: 1, user_id: 2, message: String::from("hey") });
    for cut in 0..whole.len() {
        let mut buffer = buffer_of(&whole[..cut]);
        assert_eq!(ServerCommand::decode(&mut buffer), Err(ErrorKind::UnexpectedEof));
    }
    let whole = coded(&ClientCommand::Connect { name: String::from("bob") });
    for cut in 0..whole.len() {
        let mut buffer = buffer_of(&whole[..cut]);
        assert_eq!(ClientCommand::decode(&mut buffer), Err(ErrorKind::UnexpectedEof));
    }
}
