use synd_kvsd_protocol::connection::{Connection, ConnectionError};
use synd_kvsd_protocol::frame::{frame_length, message_start, message_type, string, time, Frame};
use synd_kvsd_protocol::message::{Authenticate, Message, Parser, Ping};
use synd_kvsd_protocol::time::Timestamp;
use synd_kvsd_protocol::wire::{
    Expected, MessageType, ParseError, FRAME_LENGTH, MESSAGE_START, MESSAGE_TYPE, NULL, STRING,
    TIME,
};

fn ts(secs: i64) -> Timestamp {
    Timestamp::from_unix(secs, 0).unwrap()
}

fn ping(client: Option<Timestamp>, server: Option<Timestamp>) -> Message {
    Message::Ping(Ping {
        client_timestamp: client,
        server_timestamp: server,
    })
}

fn auth(username: &str, password: &str) -> Message {
    Message::Authenticate(Authenticate::new(username.to_owned(), password.to_owned()))
}

fn decode(bytes: &[u8]) -> Result<(Message, usize), ParseError> {
    Parser::new().parse(bytes)
}

#[test]
fn parse_message_start() {
    let mut buf = Vec::new();
    Frame::MessageStart.write(&mut buf);

    let ((), used) = message_start(buf.as_slice()).unwrap();
    assert_eq!(used, buf.len());
    assert_eq!(buf, vec![MESSAGE_START]);

    let err = message_start(b"").unwrap_err();
    assert!(err.is_incomplete());
}

#[test]
fn parse_frame_length() {
    let mut buf = Vec::new();
    Frame::Length(100).write(&mut buf);

    let (length, used) = frame_length(buf.as_slice()).unwrap();
    assert_eq!(length, 100);
    assert_eq!(used, buf.len());

    let err = frame_length(b"").unwrap_err();
    assert!(err.is_incomplete());
}

#[test]
fn parse_message_type() {
    let mut buf = Vec::new();
    let auth = MessageType::Authenticate;
    Frame::MessageType(auth).write(&mut buf);

    let (mt, used) = message_type(buf.as_slice()).unwrap();
    assert_eq!(mt, auth.code());
    assert_eq!(used, buf.len());

    let err = message_type(b"").unwrap_err();
    assert!(err.is_incomplete());
}

#[test]
fn parse_string_frame() {
    for string_data in ["Hello", "", "\r\n"] {
        let mut buf = Vec::new();
        Frame::String(string_data.to_owned()).write(&mut buf);

        let (parsed_string, used) = string(buf.as_slice()).unwrap();
        assert_eq!(parsed_string, string_data.as_bytes());
        assert_eq!(used, buf.len());
    }
    let err = string(b"").unwrap_err();
    assert!(err.is_incomplete());
}

#[test]
fn parse_time_frame() {
    let mut buf = Vec::new();
    let t = ts(1000);
    Frame::Time(t).write(&mut buf);

    let (parsed_time, used) = time(buf.as_slice()).unwrap();
    assert_eq!(parsed_time, t.to_rfc3339().as_bytes());
    assert_eq!(used, buf.len());

    let err = time(b"").unwrap_err();
    assert!(err.is_incomplete());
}

#[test]
fn round_trip_every_shape() {
    let messages = vec![
        ping(Some(ts(1000)), Some(ts(1_700_000_000))),
        ping(Some(ts(1000)), None),
        ping(None, Some(ts(86_400))),
        ping(None, None),
        ping(Some(Timestamp::from_unix(5, 123_456_789).unwrap()), None),
        auth("alice", "secret"),
        auth("", ""),
        auth("\r\n", "a\r\nb"),
        auth("山口", "пароль"),
    ];
    for m in messages {
        let bytes = m.encode();
        let (decoded, used) = decode(&bytes).unwrap();
        assert_eq!(decoded, m);
        assert_eq!(used, bytes.len());

        let mut longer = bytes.clone();
        longer.extend_from_slice(b"*@trailing");
        let (decoded, used) = decode(&longer).unwrap();
        assert_eq!(decoded, m);
        assert_eq!(used, bytes.len());
    }
}

#[test]
fn ping_with_client_time_encodes_exactly() {
    let m = ping(Some(ts(1000)), None);
    let text = b"1970-01-01T00:16:40+00:00";
    let mut expected = vec![MESSAGE_START, FRAME_LENGTH];
    let body_len: u64 = 2 + 1 + (1 + 8 + text.len() as u64 + 2) + 1;
    expected.extend_from_slice(&body_len.to_be_bytes());
    expected.extend_from_slice(&[MESSAGE_TYPE, 1, TIME, TIME]);
    expected.extend_from_slice(&(text.len() as u64).to_be_bytes());
    expected.extend_from_slice(text);
    expected.extend_from_slice(b"\r\n");
    expected.push(NULL);

    let bytes = m.encode();
    assert_eq!(bytes, expected);
    assert_eq!(decode(&expected).unwrap(), (m, expected.len()));
}

#[test]
fn authenticate_encodes_exactly() {
    let bytes = auth("ab", "").encode();
    let mut expected = vec![MESSAGE_START, FRAME_LENGTH];
    expected.extend_from_slice(&(2u64 + 13 + 11).to_be_bytes());
    expected.extend_from_slice(&[MESSAGE_TYPE, 2, STRING]);
    expected.extend_from_slice(&2u64.to_be_bytes());
    expected.extend_from_slice(b"ab\r\n");
    expected.push(STRING);
    expected.extend_from_slice(&0u64.to_be_bytes());
    expected.extend_from_slice(b"\r\n");
    assert_eq!(bytes, expected);
}

#[test]
fn one_byte_at_a_time_yields_one_message() {
    let m = auth("user", "pass");
    let bytes = m.encode();
    let mut conn = Connection::new(4);
    for (i, b) in bytes.iter().enumerate() {
        assert_eq!(conn.parse_message_frames(), Ok(None));
        conn.receive(&[*b]);
        if i + 1 < bytes.len() {
            assert_eq!(conn.buffered(), &bytes[..i + 1]);
        }
    }
    assert_eq!(conn.parse_message_frames(), Ok(Some(m)));
    assert!(conn.buffered().is_empty());
    assert_eq!(conn.parse_message_frames(), Ok(None));
}

#[test]
fn any_split_yields_the_same_message() {
    let m = ping(Some(ts(1000)), Some(ts(2000)));
    let bytes = m.encode();
    for cut in 0..=bytes.len() {
        let mut conn = Connection::new(0);
        conn.receive(&bytes[..cut]);
        if cut < bytes.len() {
            assert_eq!(conn.parse_message_frames(), Ok(None));
        }
        conn.receive(&bytes[cut..]);
        assert_eq!(conn.parse_message_frames(), Ok(Some(m.clone())));
        assert!(conn.buffered().is_empty());
    }
}

#[test]
fn two_messages_in_one_chunk_come_out_in_order() {
    let first = auth("a", "b");
    let second = ping(None, None);
    let mut bytes = first.encode();
    bytes.extend_from_slice(&second.encode());
    let mut conn = Connection::new(64);
    conn.receive(&bytes);
    assert_eq!(conn.parse_message_frames(), Ok(Some(first)));
    assert_eq!(conn.parse_message_frames(), Ok(Some(second)));
    assert_eq!(conn.end_of_stream(), Ok(None));
}

#[test]
fn truncated_message_is_reset_by_peer() {
    let bytes = auth("user", "pass").encode();
    for cut in 1..bytes.len() {
        let mut conn = Connection::new(0);
        conn.receive(&bytes[..cut]);
        assert_eq!(conn.parse_message_frames(), Ok(None));
        assert_eq!(conn.end_of_stream(), Err(ConnectionError::ResetByPeer));
    }
}

#[test]
fn clean_close_gives_no_message() {
    let mut conn = Connection::new(16);
    assert_eq!(conn.parse_message_frames(), Ok(None));
    assert_eq!(conn.end_of_stream(), Ok(None));
}

#[test]
fn unknown_type_code_is_rejected_and_buffer_kept() {
    for code in [0u8, 8, 0xff] {
        let mut bytes = vec![MESSAGE_START, FRAME_LENGTH];
        bytes.extend_from_slice(&2u64.to_be_bytes());
        bytes.extend_from_slice(&[MESSAGE_TYPE, code]);
        let mut conn = Connection::new(0);
        conn.receive(&bytes);
        assert_eq!(
            conn.parse_message_frames(),
            Err(ConnectionError::ReadMessageFrames(ParseError::InvalidMessageType(code)))
        );
        assert_eq!(conn.buffered(), bytes.as_slice());
    }
}

#[test]
fn bytes_kept_across_an_abandoned_read() {
    let m = ping(None, Some(ts(1000)));
    let bytes = m.encode();
    let mut conn = Connection::new(8);
    conn.receive(&bytes[..7]);
    assert_eq!(conn.parse_message_frames(), Ok(None));
    // The bounded read gives up here; the buffer is left as it is.
    assert_eq!(conn.buffered(), &bytes[..7]);
    conn.receive(&bytes[7..]);
    assert_eq!(conn.parse_message_frames(), Ok(Some(m)));
    assert!(conn.buffered().is_empty());
}

#[test]
fn grammar_errors_name_the_frame() {
    assert_eq!(decode(b"x"), Err(ParseError::Expect(Expected::MessageStart)));
    assert_eq!(decode(b"*x"), Err(ParseError::Expect(Expected::FrameLength)));
    let mut bytes = vec![MESSAGE_START, FRAME_LENGTH];
    bytes.extend_from_slice(&0u64.to_be_bytes());
    let mut wrong_type_tag = bytes.clone();
    wrong_type_tag.push(b'x');
    assert_eq!(decode(&wrong_type_tag), Err(ParseError::Expect(Expected::MessageType)));

    let mut bad_marker = bytes.clone();
    bad_marker.extend_from_slice(&[MESSAGE_TYPE, 1, b'?']);
    assert_eq!(decode(&bad_marker), Err(ParseError::Expect(Expected::Prefix)));

    let mut bad_delimiter = bytes.clone();
    bad_delimiter.extend_from_slice(&[MESSAGE_TYPE, 2, STRING]);
    bad_delimiter.extend_from_slice(&1u64.to_be_bytes());
    bad_delimiter.extend_from_slice(b"a\rx");
    assert_eq!(decode(&bad_delimiter), Err(ParseError::Expect(Expected::Authenticate)));

    let mut conn = Connection::new(0);
    conn.receive(&bad_delimiter);
    assert_eq!(
        conn.parse_message_frames(),
        Err(ConnectionError::ParseMessageFrames(ParseError::Expect(Expected::Authenticate)))
    );
}

#[test]
fn semantic_errors() {
    let mut header = vec![MESSAGE_START, FRAME_LENGTH];
    header.extend_from_slice(&0u64.to_be_bytes());

    let mut bad_utf8 = header.clone();
    bad_utf8.extend_from_slice(&[MESSAGE_TYPE, 2]);
    Frame::String("ok".to_owned()).write(&mut bad_utf8);
    bad_utf8.push(STRING);
    bad_utf8.extend_from_slice(&1u64.to_be_bytes());
    bad_utf8.extend_from_slice(&[0xff, b'\r', b'\n']);
    assert_eq!(decode(&bad_utf8), Err(ParseError::InvalidUtf8));

    let mut bad_time = header.clone();
    bad_time.extend_from_slice(&[MESSAGE_TYPE, 1, TIME, TIME]);
    bad_time.extend_from_slice(&3u64.to_be_bytes());
    bad_time.extend_from_slice(b"now\r\n");
    bad_time.push(NULL);
    assert_eq!(decode(&bad_time), Err(ParseError::InvalidTime));

    for (code, t) in [
        (3u8, MessageType::Success),
        (4, MessageType::Fail),
        (5, MessageType::SetValue),
        (6, MessageType::Get),
        (7, MessageType::Delete),
    ] {
        let mut bytes = header.clone();
        bytes.extend_from_slice(&[MESSAGE_TYPE, code]);
        assert_eq!(decode(&bytes), Err(ParseError::NotImplemented(t)));
        assert_eq!(MessageType::from_code(code), Some(t));
        assert_eq!(t.code(), code);
    }
}

#[test]
fn timestamps_and_text() {
    assert_eq!(ts(1000).to_rfc3339(), "1970-01-01T00:16:40+00:00");
    assert_eq!(
        Timestamp::parse_rfc3339("1970-01-01T09:16:40+09:00"),
        Some(ts(1000))
    );
    assert_eq!(Timestamp::parse_rfc3339("yesterday"), None);
    assert_eq!(Timestamp::from_unix(i64::MAX, 0), None);
}
