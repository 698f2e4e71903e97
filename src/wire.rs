//! Byte-level grammar of the protocol: tags, big-endian lengths, delimiters,
//! and the streaming primitives that read them.
use vstd::prelude::*;

verus! {

/// Tag that opens every message.
pub const MESSAGE_START: u8 = 0x2a;

/// Tag in front of the 8-byte declared length of the rest of a message.
pub const FRAME_LENGTH: u8 = 0x40;

/// Tag in front of the 1-byte message type code.
pub const MESSAGE_TYPE: u8 = 0x23;

/// Tag in front of a length-prefixed UTF-8 string.
pub const STRING: u8 = 0x2b;

/// Tag in front of a length-prefixed RFC 3339 timestamp; also the presence
/// marker of an optional timestamp that is there.
pub const TIME: u8 = 0x54;

/// Presence marker of an optional value that is absent.
pub const NULL: u8 = 0x7c;

/// First byte of the delimiter that ends a variable-length payload.
pub const DELIMITER_CR: u8 = 0x0d;

/// Second byte of the delimiter that ends a variable-length payload.
pub const DELIMITER_LF: u8 = 0x0a;

/// The seven message kinds, each with its one-byte wire code.
#[derive(Clone, Copy, Debug, PartialEq, Eq, Structural)]
pub enum MessageType {
    Ping,
    Authenticate,
    Success,
    Fail,
    SetValue,
    Get,
    Delete,
}

impl MessageType {
    pub open spec fn spec_code(self) -> u8 {
        match self {
            MessageType::Ping => 1,
            MessageType::Authenticate => 2,
            MessageType::Success => 3,
            MessageType::Fail => 4,
            MessageType::SetValue => 5,
            MessageType::Get => 6,
            MessageType::Delete => 7,
        }
    }

    pub open spec fn spec_from_code(code: u8) -> Option<MessageType> {
        if code == 1 {
            Some(MessageType::Ping)
        } else if code == 2 {
            Some(MessageType::Authenticate)
        } else if code == 3 {
            Some(MessageType::Success)
        } else if code == 4 {
            Some(MessageType::Fail)
        } else if code == 5 {
            Some(MessageType::SetValue)
        } else if code == 6 {
            Some(MessageType::Get)
        } else if code == 7 {
            Some(MessageType::Delete)
        } else {
            None
        }
    }

    /// The wire code of this message type.
    pub fn code(self) -> (r: u8)
        ensures
            r == self.spec_code(),
            MessageType::spec_from_code(r) == Some(self),
    {
        match self {
            MessageType::Ping => 1,
            MessageType::Authenticate => 2,
            MessageType::Success => 3,
            MessageType::Fail => 4,
            MessageType::SetValue => 5,
            MessageType::Get => 6,
            MessageType::Delete => 7,
        }
    }

    /// The message type of a wire code; `None` for a code outside the seven.
    pub fn from_code(code: u8) -> (r: Option<MessageType>)
        ensures
            r == MessageType::spec_from_code(code),
            r matches Some(t) ==> t.spec_code() == code,
    {
        match code {
            1 => Some(MessageType::Ping),
            2 => Some(MessageType::Authenticate),
            3 => Some(MessageType::Success),
            4 => Some(MessageType::Fail),
            5 => Some(MessageType::SetValue),
            6 => Some(MessageType::Get),
            7 => Some(MessageType::Delete),
            _ => None,
        }
    }
}

/// The frame a decoder was looking for when the bytes broke the grammar.
#[derive(Clone, Copy, Debug, PartialEq, Eq, Structural)]
pub enum Expected {
    MessageStart,
    FrameLength,
    MessageType,
    Prefix,
    Time,
    Authenticate,
}

/// Why bytes could not be turned into a value. `Incomplete` is not a defect
/// of the bytes: more of them are needed.
#[derive(Clone, Copy, Debug, PartialEq, Eq, Structural)]
pub enum ParseError {
    EndOfStream,
    InvalidMessageType(u8),
    InvalidUtf8,
    InvalidTime,
    Expect(Expected),
    Incomplete,
    NotImplemented(MessageType),
}

impl ParseError {
    pub fn is_incomplete(&self) -> (r: bool)
        ensures
            r == (*self == ParseError::Incomplete),
    {
        match self {
            ParseError::Incomplete => true,
            _ => false,
        }
    }
}

/// An exec parse result, with its end position, agrees with a spec one.
pub open spec fn agrees<T>(r: Result<(T, usize), ParseError>, s: Result<(T, nat), ParseError>) -> bool {
    match r {
        Ok((v, n)) => s == Ok::<(T, nat), ParseError>((v, n as nat)),
        Err(e) => s == Err::<(T, nat), ParseError>(e),
    }
}

/// The eight big-endian bytes of `n`.
pub open spec fn be_bytes(n: u64) -> Seq<u8> {
    seq![
        (n >> 56u64) as u8,
        (n >> 48u64) as u8,
        (n >> 40u64) as u8,
        (n >> 32u64) as u8,
        (n >> 24u64) as u8,
        (n >> 16u64) as u8,
        (n >> 8u64) as u8,
        n as u8,
    ]
}

/// The number whose big-endian bytes are `b[0..8]`.
pub open spec fn be_value(b: Seq<u8>) -> u64
    recommends
        b.len() >= 8,
{
    ((b[0] as u64) << 56u64) | ((b[1] as u64) << 48u64) | ((b[2] as u64) << 40u64) | ((
    b[3] as u64) << 32u64) | ((b[4] as u64) << 24u64) | ((b[5] as u64) << 16u64) | ((
    b[6] as u64) << 8u64) | (b[7] as u64)
}

pub proof fn lemma_be_round_trip(n: u64)
    ensures
        be_value(be_bytes(n)) == n,
{
    let b = be_bytes(n);
    let b0 = b[0];
    let b1 = b[1];
    let b2 = b[2];
    let b3 = b[3];
    let b4 = b[4];
    let b5 = b[5];
    let b6 = b[6];
    let b7 = b[7];
    assert(((b0 as u64) << 56u64) | ((b1 as u64) << 48u64) | ((b2 as u64) << 40u64) | ((
    b3 as u64) << 32u64) | ((b4 as u64) << 24u64) | ((b5 as u64) << 16u64) | ((b6 as u64)
        << 8u64) | (b7 as u64) == n) by (bit_vector)
        requires
            b0 == (n >> 56u64) as u8,
            b1 == (n >> 48u64) as u8,
            b2 == (n >> 40u64) as u8,
            b3 == (n >> 32u64) as u8,
            b4 == (n >> 24u64) as u8,
            b5 == (n >> 16u64) as u8,
            b6 == (n >> 8u64) as u8,
            b7 == n as u8,
    ;
}

/// One byte at `p`.
pub open spec fn spec_byte(s: Seq<u8>, p: nat) -> Result<(u8, nat), ParseError> {
    if p < s.len() {
        Ok((s[p as int], p + 1))
    } else {
        Err(ParseError::Incomplete)
    }
}

/// The tag `t` at `p`; another byte there breaks the frame `what`.
pub open spec fn spec_tag(s: Seq<u8>, p: nat, t: u8, what: Expected) -> Result<((), nat), ParseError> {
    if p >= s.len() {
        Err(ParseError::Incomplete)
    } else if s[p as int] == t {
        Ok(((), p + 1))
    } else {
        Err(ParseError::Expect(what))
    }
}

/// A big-endian `u64` at `p`.
pub open spec fn spec_be_u64(s: Seq<u8>, p: nat) -> Result<(u64, nat), ParseError> {
    if p + 8 <= s.len() {
        Ok((be_value(s.subrange(p as int, p + 8int)), p + 8))
    } else {
        Err(ParseError::Incomplete)
    }
}

/// The two delimiter bytes at `p`; other bytes there break the frame `what`.
pub open spec fn spec_delimiter(s: Seq<u8>, p: nat, what: Expected) -> Result<((), nat), ParseError> {
    if p >= s.len() {
        Err(ParseError::Incomplete)
    } else if s[p as int] != DELIMITER_CR {
        Err(ParseError::Expect(what))
    } else if p + 1 >= s.len() {
        Err(ParseError::Incomplete)
    } else if s[p + 1 as int] != DELIMITER_LF {
        Err(ParseError::Expect(what))
    } else {
        Ok(((), p + 2))
    }
}

/// A variable-length frame at `p`: tag `t`, length `n`, `n` payload bytes,
/// delimiter. Its value is the payload.
pub open spec fn spec_payload(s: Seq<u8>, p: nat, t: u8, what: Expected) -> Result<(Seq<u8>, nat), ParseError> {
    match spec_tag(s, p, t, what) {
        Err(e) => Err(e),
        Ok((_, pos1)) => match spec_be_u64(s, pos1) {
            Err(e) => Err(e),
            Ok((n, pos2)) => if pos2 + n > s.len() {
                Err(ParseError::Incomplete)
            } else {
                match spec_delimiter(s, (pos2 + n) as nat, what) {
                    Err(e) => Err(e),
                    Ok((_, pos3)) => Ok((s.subrange(pos2 as int, pos2 + n as int), pos3)),
                }
            },
        },
    }
}

/// Reads one byte at `p`.
pub fn read_byte(input: &[u8], p: usize) -> (r: Result<(u8, usize), ParseError>)
    ensures
        agrees(r, spec_byte(input@, p as nat)),
{
    if p < input.len() {
        Ok((input[p], p + 1))
    } else {
        Err(ParseError::Incomplete)
    }
}

/// Reads the tag `t` at `p`.
pub fn read_tag(input: &[u8], p: usize, t: u8, what: Expected) -> (r: Result<((), usize), ParseError>)
    ensures
        agrees(r, spec_tag(input@, p as nat, t, what)),
{
    if p >= input.len() {
        Err(ParseError::Incomplete)
    } else if input[p] == t {
        Ok(((), p + 1))
    } else {
        Err(ParseError::Expect(what))
    }
}

/// Reads a big-endian `u64` at `p`.
pub fn read_be_u64(input: &[u8], p: usize) -> (r: Result<(u64, usize), ParseError>)
    ensures
        agrees(r, spec_be_u64(input@, p as nat)),
{
    if p <= input.len() && input.len() - p >= 8 {
        let v: u64 = ((input[p] as u64) << 56u64) | ((input[p + 1] as u64) << 48u64) | ((
        input[p + 2] as u64) << 40u64) | ((input[p + 3] as u64) << 32u64) | ((input[p
            + 4] as u64) << 24u64) | ((input[p + 5] as u64) << 16u64) | ((input[p + 6] as u64)
            << 8u64) | (input[p + 7] as u64);
        let ghost sub = input@.subrange(p as int, p + 8);
        assert(sub[0] == input@[p as int] && sub[1] == input@[p + 1] && sub[2] == input@[p + 2]
            && sub[3] == input@[p + 3] && sub[4] == input@[p + 4] && sub[5] == input@[p + 5]
            && sub[6] == input@[p + 6] && sub[7] == input@[p + 7]);
        Ok((v, p + 8))
    } else {
        Err(ParseError::Incomplete)
    }
}

/// Reads the delimiter at `p`.
pub fn read_delimiter(input: &[u8], p: usize, what: Expected) -> (r: Result<((), usize), ParseError>)
    ensures
        agrees(r, spec_delimiter(input@, p as nat, what)),
{
    if p >= input.len() {
        Err(ParseError::Incomplete)
    } else if input[p] != DELIMITER_CR {
        Err(ParseError::Expect(what))
    } else if p + 1 >= input.len() {
        Err(ParseError::Incomplete)
    } else if input[p + 1] != DELIMITER_LF {
        Err(ParseError::Expect(what))
    } else {
        Ok(((), p + 2))
    }
}

/// Reads a variable-length frame with tag `t` at `p`; its value is the payload.
pub fn read_payload<'a>(input: &'a [u8], p: usize, t: u8, what: Expected) -> (r: Result<(&'a [u8], usize), ParseError>)
    ensures
        match r {
            Ok((d, n)) => spec_payload(input@, p as nat, t, what) == Ok::<(Seq<u8>, nat), ParseError>((d@, n as nat)),
            Err(e) => spec_payload(input@, p as nat, t, what) == Err::<(Seq<u8>, nat), ParseError>(e),
        },
{
    let pos1 = match read_tag(input, p, t, what) {
        Err(e) => return Err(e),
        Ok((_, pos1)) => pos1,
    };
    let (n, pos2) = match read_be_u64(input, pos1) {
        Err(e) => return Err(e),
        Ok(x) => x,
    };
    if (input.len() - pos2) as u64 >= n {
        let end = pos2 + n as usize;
        match read_delimiter(input, end, what) {
            Err(e) => Err(e),
            Ok((_, pos3)) => Ok((&input[pos2..end], pos3)),
        }
    } else {
        Err(ParseError::Incomplete)
    }
}

} // verus!
