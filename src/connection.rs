//! The receive side of a connection: a buffer of bytes that have arrived but
//! not yet formed a message, and the decisions of the read loop. The loop
//! itself, which waits on the transport, runs outside the library and hands
//! each received chunk and each end of stream to these functions.
use vstd::prelude::*;
use crate::message::{spec_decode, Message, Parser};
use crate::wire::ParseError;

verus! {

/// Why a message could not be read.
#[derive(Clone, Copy, Debug, PartialEq, Eq, Structural)]
pub enum ConnectionError {
    /// The bytes form a message that cannot be given meaning: an unknown type
    /// code, text that is not UTF-8 or not a timestamp, or a type that is not
    /// implemented yet.
    ReadMessageFrames(ParseError),
    /// The bytes break the wire grammar.
    ParseMessageFrames(ParseError),
    /// The peer closed the transport in the middle of a message.
    ResetByPeer,
}

/// The connection error that a decode error becomes.
pub open spec fn spec_error_of(e: ParseError) -> ConnectionError {
    match e {
        ParseError::InvalidMessageType(_) => ConnectionError::ReadMessageFrames(e),
        ParseError::InvalidUtf8 => ConnectionError::ReadMessageFrames(e),
        ParseError::InvalidTime => ConnectionError::ReadMessageFrames(e),
        ParseError::NotImplemented(_) => ConnectionError::ReadMessageFrames(e),
        _ => ConnectionError::ParseMessageFrames(e),
    }
}

/// What reading gives when the transport reports end of stream with
/// `buffer` still held: nothing on a clean close, else a reset.
pub open spec fn spec_end_of_stream(buffer: Seq<u8>) -> Result<Option<Message>, ConnectionError> {
    if buffer.len() == 0 {
        Ok(None)
    } else {
        Err(ConnectionError::ResetByPeer)
    }
}

fn error_of(e: ParseError) -> (r: ConnectionError)
    ensures
        r == spec_error_of(e),
{
    match e {
        ParseError::InvalidMessageType(_) => ConnectionError::ReadMessageFrames(e),
        ParseError::InvalidUtf8 => ConnectionError::ReadMessageFrames(e),
        ParseError::InvalidTime => ConnectionError::ReadMessageFrames(e),
        ParseError::NotImplemented(_) => ConnectionError::ReadMessageFrames(e),
        _ => ConnectionError::ParseMessageFrames(e),
    }
}

proof fn lemma_decode_within(s: Seq<u8>)
    ensures
        spec_decode(s) matches Ok((_, n)) ==> n <= s.len(),
{
}

/// The receive state of one connection.
pub struct Connection {
    buffer: Vec<u8>,
}

impl View for Connection {
    type V = Seq<u8>;

    /// The bytes received and not yet taken into a message.
    closed spec fn view(&self) -> Seq<u8> {
        self.buffer@
    }
}

impl Connection {
    /// A connection with nothing received yet, its buffer sized for
    /// `buffer_size` bytes.
    pub fn new(buffer_size: usize) -> (r: Connection)
        ensures
            r@ == Seq::<u8>::empty(),
    {
        Connection { buffer: Vec::with_capacity(buffer_size) }
    }

    /// The bytes received and not yet taken into a message.
    pub fn buffered(&self) -> (r: &[u8])
        ensures
            r@ == self@,
    {
        self.buffer.as_slice()
    }

    /// Records bytes that the transport delivered.
    pub fn receive(&mut self, data: &[u8])
        ensures
            final(self)@ == old(self)@ + data@,
    {
        crate::frame::write_bytes(&mut self.buffer, data);
    }

    /// Takes one complete message off the front of the buffer. `Ok(None)` when
    /// the buffer holds only part of a message: more bytes are needed. On an
    /// error the buffer is left as it was.
    pub fn parse_message_frames(&mut self) -> (r: Result<Option<Message>, ConnectionError>)
        ensures
            match spec_decode(old(self)@) {
                Ok((m, n)) => r matches Ok(Some(msg)) && msg@ == m && final(self)@ == old(self)@.subrange(
                    n as int,
                    old(self)@.len() as int,
                ),
                Err(ParseError::Incomplete) => r == Ok::<Option<Message>, ConnectionError>(None)
                    && final(self)@ == old(self)@,
                Err(e) => r == Err::<Option<Message>, ConnectionError>(spec_error_of(e))
                    && final(self)@ == old(self)@,
            },
    {
        let parser = Parser::new();
        match parser.parse(self.buffer.as_slice()) {
            Ok((m, n)) => {
                proof {
                    lemma_decode_within(self.buffer@);
                }
                let rest = self.buffer.split_off(n);
                self.buffer = rest;
                Ok(Some(m))
            },
            Err(e) => if e.is_incomplete() {
                Ok(None)
            } else {
                Err(error_of(e))
            },
        }
    }

    /// What reading gives when the transport reports end of stream.
    pub fn end_of_stream(&self) -> (r: Result<Option<Message>, ConnectionError>)
        ensures
            r == spec_end_of_stream(self@),
    {
        if self.buffer.len() == 0 {
            Ok(None)
        } else {
            Err(ConnectionError::ResetByPeer)
        }
    }
}

} // verus!
