//! Domain messages, their wire form, and the decoder that reads one message
//! from the front of a byte buffer.
use vstd::prelude::*;
use vstd::utf8::{decode_utf8, encode_utf8, valid_utf8};
use crate::frame::{spec_payload_bytes, write_bytes, write_payload, Frame};
use crate::time::{Timestamp, rfc3339_instant};
use crate::wire::{
    agrees, be_bytes, read_be_u64, read_byte, read_payload, read_tag, spec_be_u64, spec_byte,
    spec_payload, spec_tag, Expected, MessageType, ParseError, FRAME_LENGTH, MESSAGE_START, MESSAGE_TYPE, NULL, STRING, TIME,
};

verus! {

/// A liveness probe; either side may stamp the time at which it handled it.
#[derive(Clone, Debug, PartialEq, Eq)]
pub struct Ping {
    pub client_timestamp: Option<Timestamp>,
    pub server_timestamp: Option<Timestamp>,
}

/// Credentials, carried verbatim.
#[derive(Clone, Debug, PartialEq, Eq)]
pub struct Authenticate {
    pub username: String,
    pub password: String,
}

impl Authenticate {
    pub fn new(username: String, password: String) -> (r: Authenticate)
        ensures
            r.username@ == username@,
            r.password@ == password@,
    {
        Authenticate { username, password }
    }
}

/// One protocol message as callers use it.
#[derive(Clone, Debug, PartialEq, Eq)]
pub enum Message {
    Ping(Ping),
    Authenticate(Authenticate),
}

/// What a message is, with its strings as character sequences.
pub enum MessageModel {
    Ping { client: Option<Timestamp>, server: Option<Timestamp> },
    Authenticate { username: Seq<char>, password: Seq<char> },
}

impl View for Message {
    type V = MessageModel;

    open spec fn view(&self) -> MessageModel {
        match self {
            Message::Ping(p) => MessageModel::Ping {
                client: p.client_timestamp,
                server: p.server_timestamp,
            },
            Message::Authenticate(a) => MessageModel::Authenticate {
                username: a.username@,
                password: a.password@,
            },
        }
    }
}

pub open spec fn optional_representable(t: Option<Timestamp>) -> bool {
    t matches Some(v) ==> v.representable()
}

impl MessageModel {
    /// Every timestamp in the message can be written out.
    pub open spec fn representable(self) -> bool {
        match self {
            MessageModel::Ping { client, server } => optional_representable(client)
                && optional_representable(server),
            MessageModel::Authenticate { .. } => true,
        }
    }
}

/// The payload of a timestamp frame, read as an instant.
pub open spec fn spec_time_value(bytes: Seq<u8>) -> Result<Timestamp, ParseError> {
    if !valid_utf8(bytes) {
        Err(ParseError::InvalidUtf8)
    } else {
        match rfc3339_instant(decode_utf8(bytes)) {
            Some((secs, nanos)) => Ok(Timestamp { secs, nanos }),
            None => Err(ParseError::InvalidTime),
        }
    }
}

/// A presence marker at `p`, followed by a timestamp frame when it says so.
pub open spec fn spec_optional_time(s: Seq<u8>, p: nat) -> Result<(Option<Timestamp>, nat), ParseError> {
    match spec_byte(s, p) {
        Err(e) => Err(e),
        Ok((marker, q)) => if marker == TIME {
            match spec_payload(s, q, TIME, Expected::Time) {
                Err(e) => Err(e),
                Ok((b, r)) => match spec_time_value(b) {
                    Err(e) => Err(e),
                    Ok(t) => Ok((Some(t), r)),
                },
            }
        } else if marker == NULL {
            Ok((None, q))
        } else {
            Err(ParseError::Expect(Expected::Prefix))
        },
    }
}

/// The type-specific part of a message of type `t`, from `p` on.
pub open spec fn spec_body(s: Seq<u8>, p: nat, t: MessageType) -> Result<(MessageModel, nat), ParseError> {
    match t {
        MessageType::Ping => match spec_optional_time(s, p) {
            Err(e) => Err(e),
            Ok((client, pos1)) => match spec_optional_time(s, pos1) {
                Err(e) => Err(e),
                Ok((server, pos2)) => Ok((MessageModel::Ping { client, server }, pos2)),
            },
        },
        MessageType::Authenticate => match spec_payload(s, p, STRING, Expected::Authenticate) {
            Err(e) => Err(e),
            Ok((u, pos1)) => match spec_payload(s, pos1, STRING, Expected::Authenticate) {
                Err(e) => Err(e),
                Ok((w, pos2)) => if !valid_utf8(u) || !valid_utf8(w) {
                    Err(ParseError::InvalidUtf8)
                } else {
                    Ok(
                        (
                            MessageModel::Authenticate {
                                username: decode_utf8(u),
                                password: decode_utf8(w),
                            },
                            pos2,
                        ),
                    )
                },
            },
        },
        _ => Err(ParseError::NotImplemented(t)),
    }
}

/// One message from the front of `s`, with the number of bytes it takes.
pub open spec fn spec_decode(s: Seq<u8>) -> Result<(MessageModel, nat), ParseError> {
    match spec_tag(s, 0, MESSAGE_START, Expected::MessageStart) {
        Err(e) => Err(e),
        Ok((_, pos1)) => match spec_tag(s, pos1, FRAME_LENGTH, Expected::FrameLength) {
            Err(e) => Err(e),
            Ok((_, pos2)) => match spec_be_u64(s, pos2) {
                Err(e) => Err(e),
                Ok((_, pos3)) => match spec_tag(s, pos3, MESSAGE_TYPE, Expected::MessageType) {
                    Err(e) => Err(e),
                    Ok((_, pos4)) => match spec_byte(s, pos4) {
                        Err(e) => Err(e),
                        Ok((code, pos5)) => match MessageType::spec_from_code(code) {
                            None => Err(ParseError::InvalidMessageType(code)),
                            Some(t) => spec_body(s, pos5, t),
                        },
                    },
                },
            },
        },
    }
}

pub open spec fn spec_optional_time_bytes(t: Option<Timestamp>) -> Seq<u8> {
    match t {
        None => seq![NULL],
        Some(v) => seq![TIME] + spec_payload_bytes(TIME, encode_utf8(v.text())),
    }
}

/// Everything of a message after its declared length.
pub open spec fn spec_body_bytes(m: MessageModel) -> Seq<u8> {
    match m {
        MessageModel::Ping { client, server } => seq![MESSAGE_TYPE, MessageType::Ping.spec_code()]
            + spec_optional_time_bytes(client) + spec_optional_time_bytes(server),
        MessageModel::Authenticate { username, password } => seq![
            MESSAGE_TYPE,
            MessageType::Authenticate.spec_code(),
        ] + spec_payload_bytes(STRING, encode_utf8(username)) + spec_payload_bytes(
            STRING,
            encode_utf8(password),
        ),
    }
}

/// The wire form of a message.
#[verifier::opaque]
pub open spec fn spec_encode(m: MessageModel) -> Seq<u8> {
    let body = spec_body_bytes(m);
    seq![MESSAGE_START, FRAME_LENGTH] + be_bytes(body.len() as u64) + body
}

/// Appends the presence marker of `t` and, when it is there, its frame.
fn write_optional_time(buf: &mut Vec<u8>, t: Option<Timestamp>)
    requires
        optional_representable(t),
    ensures
        final(buf)@ == old(buf)@ + spec_optional_time_bytes(t),
{
    match t {
        None => Frame::Null.write(buf),
        Some(v) => {
            buf.push(TIME);
            Frame::Time(v).write(buf);
        },
    }
    assert(buf@ =~= old(buf)@ + spec_optional_time_bytes(t));
}

impl Message {
    /// The wire form of the message: start tag, declared length of the rest,
    /// type, then the frames of its type.
    pub fn encode(&self) -> (r: Vec<u8>)
        requires
            self@.representable(),
        ensures
            r@ == spec_encode(self@),
    {
        let mut body: Vec<u8> = Vec::new();
        match self {
            Message::Ping(p) => {
                Frame::MessageType(MessageType::Ping).write(&mut body);
                write_optional_time(&mut body, p.client_timestamp);
                write_optional_time(&mut body, p.server_timestamp);
            },
            Message::Authenticate(a) => {
                Frame::MessageType(MessageType::Authenticate).write(&mut body);
                write_payload(&mut body, STRING, a.username.as_str().as_bytes());
                write_payload(&mut body, STRING, a.password.as_str().as_bytes());
            },
        }
        assert(body@ =~= spec_body_bytes(self@));
        reveal(spec_encode);
        let mut out: Vec<u8> = Vec::new();
        Frame::MessageStart.write(&mut out);
        Frame::Length(body.len() as u64).write(&mut out);
        write_bytes(&mut out, body.as_slice());
        assert(out@ =~= spec_encode(self@));
        out
    }
}

/// Relies on `std::str::from_utf8`: it accepts exactly the valid UTF-8 byte
/// sequences, and then the text is the one those bytes encode.
#[verifier::external_body]
fn utf8_text(bytes: &[u8]) -> (r: Option<String>)
    ensures
        r is Some <==> valid_utf8(bytes@),
        r matches Some(s) ==> s@ == decode_utf8(bytes@),
{
    match std::str::from_utf8(bytes) {
        Ok(s) => Some(s.to_string()),
        Err(_) => None,
    }
}

/// Reads an optional timestamp at `p`.
fn read_optional_time(input: &[u8], p: usize) -> (r: Result<(Option<Timestamp>, usize), ParseError>)
    ensures
        agrees(r, spec_optional_time(input@, p as nat)),
{
    let (marker, q) = match read_byte(input, p) {
        Err(e) => return Err(e),
        Ok(x) => x,
    };
    if marker == TIME {
        let (b, r) = match read_payload(input, q, TIME, Expected::Time) {
            Err(e) => return Err(e),
            Ok(x) => x,
        };
        match utf8_text(b) {
            None => Err(ParseError::InvalidUtf8),
            Some(text) => match Timestamp::parse_rfc3339(text.as_str()) {
                None => Err(ParseError::InvalidTime),
                Some(t) => Ok((Some(t), r)),
            },
        }
    } else if marker == NULL {
        Ok((None, q))
    } else {
        Err(ParseError::Expect(Expected::Prefix))
    }
}

/// Decodes messages from the front of a byte buffer.
pub struct Parser;

impl Parser {
    pub fn new() -> Parser {
        Parser
    }

    /// Decodes one message from the front of `input`, with the number of bytes
    /// it takes. `Incomplete` when `input` ends before the message does.
    pub fn parse(&self, input: &[u8]) -> (r: Result<(Message, usize), ParseError>)
        ensures
            match r {
                Ok((m, n)) => spec_decode(input@) == Ok::<(MessageModel, nat), ParseError>((m@, n as nat)),
                Err(e) => spec_decode(input@) == Err::<(MessageModel, nat), ParseError>(e),
            },
    {
        let pos1 = match read_tag(input, 0, MESSAGE_START, Expected::MessageStart) {
            Err(e) => return Err(e),
            Ok((_, p)) => p,
        };
        let pos2 = match read_tag(input, pos1, FRAME_LENGTH, Expected::FrameLength) {
            Err(e) => return Err(e),
            Ok((_, p)) => p,
        };
        let pos3 = match read_be_u64(input, pos2) {
            Err(e) => return Err(e),
            Ok((_, p)) => p,
        };
        let pos4 = match read_tag(input, pos3, MESSAGE_TYPE, Expected::MessageType) {
            Err(e) => return Err(e),
            Ok((_, p)) => p,
        };
        let (code, pos5) = match read_byte(input, pos4) {
            Err(e) => return Err(e),
            Ok(x) => x,
        };
        let t = match MessageType::from_code(code) {
            None => return Err(ParseError::InvalidMessageType(code)),
            Some(t) => t,
        };
        match t {
            MessageType::Ping => {
                let (client, q1) = match read_optional_time(input, pos5) {
                    Err(e) => return Err(e),
                    Ok(x) => x,
                };
                let (server, q2) = match read_optional_time(input, q1) {
                    Err(e) => return Err(e),
                    Ok(x) => x,
                };
                Ok((Message::Ping(Ping { client_timestamp: client, server_timestamp: server }), q2))
            },
            MessageType::Authenticate => {
                let (u, q1) = match read_payload(input, pos5, STRING, Expected::Authenticate) {
                    Err(e) => return Err(e),
                    Ok(x) => x,
                };
                let (w, q2) = match read_payload(input, q1, STRING, Expected::Authenticate) {
                    Err(e) => return Err(e),
                    Ok(x) => x,
                };
                let username = match utf8_text(u) {
                    None => return Err(ParseError::InvalidUtf8),
                    Some(s) => s,
                };
                let password = match utf8_text(w) {
                    None => return Err(ParseError::InvalidUtf8),
                    Some(s) => s,
                };
                Ok((Message::Authenticate(Authenticate::new(username, password)), q2))
            },
            _ => Err(ParseError::NotImplemented(t)),
        }
    }
}

} // verus!
