//! Frames, the atomic units of the wire format, and how each is written.
use vstd::prelude::*;
use vstd::utf8::encode_utf8;
use crate::time::Timestamp;
use crate::wire::{
    agrees, be_bytes, read_be_u64, read_byte, read_payload, read_tag, spec_be_u64, spec_byte,
    spec_payload, spec_tag, Expected, MessageType, ParseError, DELIMITER_CR, DELIMITER_LF,
    FRAME_LENGTH, MESSAGE_START, MESSAGE_TYPE, NULL, STRING, TIME,
};

verus! {

/// The wire form of a variable-length frame with tag `t` around `data`.
pub open spec fn spec_payload_bytes(t: u8, data: Seq<u8>) -> Seq<u8> {
    seq![t] + be_bytes(data.len() as u64) + data + seq![DELIMITER_CR, DELIMITER_LF]
}

/// One wire primitive.
#[derive(Clone, Debug, PartialEq, Eq)]
pub enum Frame {
    MessageStart,
    Length(u64),
    MessageType(MessageType),
    String(String),
    Time(Timestamp),
    Null,
}

impl Frame {
    /// Whether the frame can be written out.
    pub open spec fn writable(&self) -> bool {
        match self {
            Frame::Time(t) => t.representable(),
            _ => true,
        }
    }

    /// The wire form of the frame.
    pub open spec fn spec_bytes(&self) -> Seq<u8> {
        match self {
            Frame::MessageStart => seq![MESSAGE_START],
            Frame::Length(n) => seq![FRAME_LENGTH] + be_bytes(*n),
            Frame::MessageType(t) => seq![MESSAGE_TYPE, t.spec_code()],
            Frame::String(s) => spec_payload_bytes(STRING, encode_utf8(s@)),
            Frame::Time(t) => spec_payload_bytes(TIME, encode_utf8(t.text())),
            Frame::Null => seq![NULL],
        }
    }

    /// Appends the wire form of the frame to `buf`.
    pub fn write(&self, buf: &mut Vec<u8>)
        requires
            self.writable(),
        ensures
            final(buf)@ == old(buf)@ + self.spec_bytes(),
    {
        match self {
            Frame::MessageStart => buf.push(MESSAGE_START),
            Frame::Length(n) => {
                buf.push(FRAME_LENGTH);
                write_be_u64(buf, *n);
            },
            Frame::MessageType(t) => {
                buf.push(MESSAGE_TYPE);
                buf.push(t.code());
            },
            Frame::String(s) => write_payload(buf, STRING, s.as_str().as_bytes()),
            Frame::Time(t) => {
                let text = t.to_rfc3339();
                write_payload(buf, TIME, text.as_str().as_bytes());
            },
            Frame::Null => buf.push(NULL),
        }
        assert(buf@ =~= old(buf)@ + self.spec_bytes());
    }
}

/// Appends the eight big-endian bytes of `n`.
pub fn write_be_u64(buf: &mut Vec<u8>, n: u64)
    ensures
        final(buf)@ == old(buf)@ + be_bytes(n),
{
    buf.push((n >> 56u64) as u8);
    buf.push((n >> 48u64) as u8);
    buf.push((n >> 40u64) as u8);
    buf.push((n >> 32u64) as u8);
    buf.push((n >> 24u64) as u8);
    buf.push((n >> 16u64) as u8);
    buf.push((n >> 8u64) as u8);
    buf.push(n as u8);
    assert(buf@ =~= old(buf)@ + be_bytes(n));
}

/// Appends `data` byte by byte.
pub fn write_bytes(buf: &mut Vec<u8>, data: &[u8])
    ensures
        final(buf)@ == old(buf)@ + data@,
{
    let ghost start = buf@;
    let mut i: usize = 0;
    while i < data.len()
        invariant
            i <= data@.len(),
            buf@ == start + data@.subrange(0, i as int),
        decreases data@.len() - i,
    {
        buf.push(data[i]);
        i = i + 1;
        assert(buf@ =~= start + data@.subrange(0, i as int));
    }
    assert(data@.subrange(0, i as int) =~= data@);
}

/// Appends a variable-length frame with tag `t` around `data`.
pub fn write_payload(buf: &mut Vec<u8>, t: u8, data: &[u8])
    ensures
        final(buf)@ == old(buf)@ + spec_payload_bytes(t, data@),
{
    buf.push(t);
    write_be_u64(buf, data.len() as u64);
    write_bytes(buf, data);
    buf.push(DELIMITER_CR);
    buf.push(DELIMITER_LF);
    assert(buf@ =~= old(buf)@ + spec_payload_bytes(t, data@));
}

/// Reads the message-start tag at the front of `input`.
pub fn message_start(input: &[u8]) -> (r: Result<((), usize), ParseError>)
    ensures
        agrees(r, spec_tag(input@, 0, MESSAGE_START, Expected::MessageStart)),
{
    read_tag(input, 0, MESSAGE_START, Expected::MessageStart)
}

/// Reads a frame-length frame at the front of `input`.
pub fn frame_length(input: &[u8]) -> (r: Result<(u64, usize), ParseError>)
    ensures
        match spec_tag(input@, 0, FRAME_LENGTH, Expected::FrameLength) {
            Err(e) => r == Err::<(u64, usize), ParseError>(e),
            Ok((_, p)) => agrees(r, spec_be_u64(input@, p)),
        },
{
    match read_tag(input, 0, FRAME_LENGTH, Expected::FrameLength) {
        Err(e) => Err(e),
        Ok((_, p)) => read_be_u64(input, p),
    }
}

/// Reads a message-type frame at the front of `input`; its value is the code.
pub fn message_type(input: &[u8]) -> (r: Result<(u8, usize), ParseError>)
    ensures
        match spec_tag(input@, 0, MESSAGE_TYPE, Expected::MessageType) {
            Err(e) => r == Err::<(u8, usize), ParseError>(e),
            Ok((_, p)) => agrees(r, spec_byte(input@, p)),
        },
{
    match read_tag(input, 0, MESSAGE_TYPE, Expected::MessageType) {
        Err(e) => Err(e),
        Ok((_, p)) => read_byte(input, p),
    }
}

/// Reads a string frame at the front of `input`; its value is the payload.
pub fn string<'a>(input: &'a [u8]) -> (r: Result<(&'a [u8], usize), ParseError>)
    ensures
        match r {
            Ok((d, n)) => spec_payload(input@, 0, STRING, Expected::Authenticate) == Ok::<(Seq<u8>, nat), ParseError>((d@, n as nat)),
            Err(e) => spec_payload(input@, 0, STRING, Expected::Authenticate) == Err::<(Seq<u8>, nat), ParseError>(e),
        },
{
    read_payload(input, 0, STRING, Expected::Authenticate)
}

/// Reads a timestamp frame at the front of `input`; its value is the payload.
pub fn time<'a>(input: &'a [u8]) -> (r: Result<(&'a [u8], usize), ParseError>)
    ensures
        match r {
            Ok((d, n)) => spec_payload(input@, 0, TIME, Expected::Time) == Ok::<(Seq<u8>, nat), ParseError>((d@, n as nat)),
            Err(e) => spec_payload(input@, 0, TIME, Expected::Time) == Err::<(Seq<u8>, nat), ParseError>(e),
        },
{
    read_payload(input, 0, TIME, Expected::Time)
}

} // verus!
