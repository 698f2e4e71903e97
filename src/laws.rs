//! Properties of the wire format as a whole: what the encoder writes the
//! decoder reads back, and a message that has only partly arrived is never
//! mistaken for a complete or a malformed one.
use vstd::prelude::*;
use vstd::utf8::{encode_utf8, encode_utf8_decode_utf8, encode_utf8_valid_utf8};
use crate::connection::{spec_end_of_stream, spec_error_of, ConnectionError};
use crate::frame::spec_payload_bytes;
use crate::message::{
    spec_body, spec_body_bytes, spec_decode, spec_encode, spec_optional_time, spec_optional_time_bytes,
    spec_time_value, Message, MessageModel,
};
use crate::time::Timestamp;
use crate::wire::{
    be_bytes, lemma_be_round_trip, spec_be_u64, spec_byte, spec_delimiter, spec_payload, spec_tag, Expected, MessageType, ParseError, DELIMITER_CR,
    DELIMITER_LF, FRAME_LENGTH, MESSAGE_START, MESSAGE_TYPE, NULL, STRING, TIME,
};

verus! {

/// The bytes `w` stand in `s` from position `p` on.
pub open spec fn window(s: Seq<u8>, p: nat, w: Seq<u8>) -> bool {
    p + w.len() <= s.len() && s.subrange(p as int, p + w.len() as int) == w
}

proof fn lemma_window_bytes(s: Seq<u8>, p: nat, w: Seq<u8>)
    requires
        window(s, p, w),
    ensures
        forall|j: int| 0 <= j < w.len() ==> s[p + j] == #[trigger] w[j],
{
    assert forall|j: int| 0 <= j < w.len() implies s[p + j] == #[trigger] w[j] by {
        assert(s.subrange(p as int, p + w.len() as int)[j] == s[p + j]);
    }
}

proof fn lemma_window_split(s: Seq<u8>, p: nat, w1: Seq<u8>, w2: Seq<u8>)
    requires
        window(s, p, w1 + w2),
    ensures
        window(s, p, w1),
        window(s, p + w1.len(), w2),
{
    let a: int = p as int;
    let l1: int = w1.len() as int;
    let l2: int = w2.len() as int;
    lemma_window_bytes(s, p, w1 + w2);
    assert(s.subrange(a, a + l1) =~= w1) by {
        assert forall|j: int| 0 <= j < l1 implies s.subrange(a, a + l1)[j] == w1[j] by {
            assert((w1 + w2)[j] == w1[j]);
        }
    }
    assert(s.subrange(a + l1, a + l1 + l2) =~= w2) by {
        assert forall|j: int| 0 <= j < l2 implies s.subrange(a + l1, a + l1 + l2)[j] == w2[j] by {
            assert((w1 + w2)[l1 + j] == w2[j]);
        }
    }
}

proof fn lemma_payload_read(s: Seq<u8>, p: nat, t: u8, data: Seq<u8>, what: Expected)
    requires
        window(s, p, spec_payload_bytes(t, data)),
        data.len() <= u64::MAX,
    ensures
        spec_payload(s, p, t, what) == Ok::<(Seq<u8>, nat), ParseError>(
            (data, p + spec_payload_bytes(t, data).len()),
        ),
{
    let n = data.len() as u64;
    let w1 = seq![t];
    let w2 = be_bytes(n);
    let w3 = data;
    let w4 = seq![DELIMITER_CR, DELIMITER_LF];
    assert(spec_payload_bytes(t, data) == w1 + w2 + w3 + w4);
    lemma_window_split(s, p, w1 + w2 + w3, w4);
    lemma_window_split(s, p, w1 + w2, w3);
    lemma_window_split(s, p, w1, w2);
    lemma_window_bytes(s, p, w1);
    lemma_window_bytes(s, p + 9 + data.len(), w4);
    lemma_be_round_trip(n);
    assert(w1[0] == t);
    assert(s[p as int] == t);
    assert(spec_tag(s, p, t, what) == Ok::<((), nat), ParseError>(((), p + 1)));
    assert(s.subrange(p + 1int, p + 9int) == w2);
    assert(spec_be_u64(s, p + 1) == Ok::<(u64, nat), ParseError>((n, p + 9)));
    let e: int = p + 9 + data.len() as int;
    assert(s[e] == w4[0]);
    assert(s[e + 1] == w4[1]);
    assert(s.subrange(p + 9int, e) == data);
}

/// Every timestamp of the message reads back from its own text.
pub open spec fn reads_back(m: MessageModel) -> bool {
    match m {
        MessageModel::Ping { client, server } => (client matches Some(t) ==> t.reads_back()) && (
        server matches Some(t) ==> t.reads_back()),
        MessageModel::Authenticate { .. } => true,
    }
}

proof fn lemma_optional_time_read(s: Seq<u8>, p: nat, o: Option<Timestamp>)
    requires
        window(s, p, spec_optional_time_bytes(o)),
        spec_optional_time_bytes(o).len() <= u64::MAX,
        o matches Some(t) ==> t.reads_back(),
    ensures
        spec_optional_time(s, p) == Ok::<(Option<Timestamp>, nat), ParseError>(
            (o, p + spec_optional_time_bytes(o).len()),
        ),
{
    match o {
        None => {
            lemma_window_bytes(s, p, seq![NULL]);
            assert(seq![NULL][0] == NULL);
            assert(s[p as int] == NULL);
        },
        Some(t) => {
            let data = encode_utf8(t.text());
            lemma_window_split(s, p, seq![TIME], spec_payload_bytes(TIME, data));
            lemma_window_bytes(s, p, seq![TIME]);
            assert(seq![TIME][0] == TIME);
            assert(s[p as int] == TIME);
            lemma_payload_read(s, p + 1, TIME, data, Expected::Time);
            encode_utf8_valid_utf8(t.text());
            encode_utf8_decode_utf8(t.text());
            assert(spec_time_value(data) == Ok::<Timestamp, ParseError>(t));
        },
    }
}


proof fn lemma_header_read(s: Seq<u8>, declared: u64, t: MessageType)
    requires
        window(
            s,
            0,
            seq![MESSAGE_START, FRAME_LENGTH] + be_bytes(declared) + seq![MESSAGE_TYPE, t.spec_code()],
        ),
    ensures
        spec_decode(s) == spec_body(s, 12, t),
{
    let h1 = seq![MESSAGE_START, FRAME_LENGTH];
    let h2 = be_bytes(declared);
    let h3 = seq![MESSAGE_TYPE, t.spec_code()];
    lemma_window_split(s, 0, h1 + h2, h3);
    lemma_window_split(s, 0, h1, h2);
    lemma_window_bytes(s, 0, h1);
    lemma_window_bytes(s, 10, h3);
    assert(h1[0] == MESSAGE_START && h1[1] == FRAME_LENGTH);
    assert(h3[0] == MESSAGE_TYPE && h3[1] == t.spec_code());
    assert(s[0] == MESSAGE_START && s[1] == FRAME_LENGTH);
    assert(s[10] == MESSAGE_TYPE && s[11] == t.spec_code());
    assert(spec_byte(s, 11) == Ok::<(u8, nat), ParseError>((t.spec_code(), 12)));
}

proof fn lemma_ping_read(s: Seq<u8>, client: Option<Timestamp>, server: Option<Timestamp>)
    requires
        window(s, 12, spec_optional_time_bytes(client) + spec_optional_time_bytes(server)),
        spec_optional_time_bytes(client).len() + spec_optional_time_bytes(server).len() <= u64::MAX,
        client matches Some(t) ==> t.reads_back(),
        server matches Some(t) ==> t.reads_back(),
    ensures
        spec_body(s, 12, MessageType::Ping) == Ok::<(MessageModel, nat), ParseError>(
            (
                MessageModel::Ping { client, server },
                12 + spec_optional_time_bytes(client).len() + spec_optional_time_bytes(server).len(),
            ),
        ),
{
    let c = spec_optional_time_bytes(client);
    let v = spec_optional_time_bytes(server);
    lemma_window_split(s, 12, c, v);
    lemma_optional_time_read(s, 12, client);
    lemma_optional_time_read(s, 12 + c.len(), server);
}

proof fn lemma_authenticate_read(s: Seq<u8>, username: Seq<char>, password: Seq<char>)
    requires
        window(
            s,
            12,
            spec_payload_bytes(STRING, encode_utf8(username)) + spec_payload_bytes(
                STRING,
                encode_utf8(password),
            ),
        ),
        encode_utf8(username).len() <= u64::MAX,
        encode_utf8(password).len() <= u64::MAX,
    ensures
        spec_body(s, 12, MessageType::Authenticate) == Ok::<(MessageModel, nat), ParseError>(
            (
                MessageModel::Authenticate { username, password },
                12 + spec_payload_bytes(STRING, encode_utf8(username)).len() + spec_payload_bytes(
                    STRING,
                    encode_utf8(password),
                ).len(),
            ),
        ),
{
    let u = encode_utf8(username);
    let w = encode_utf8(password);
    let c = spec_payload_bytes(STRING, u);
    let v = spec_payload_bytes(STRING, w);
    lemma_window_split(s, 12, c, v);
    lemma_payload_read(s, 12, STRING, u, Expected::Authenticate);
    lemma_payload_read(s, 12 + c.len(), STRING, w, Expected::Authenticate);
    encode_utf8_valid_utf8(username);
    encode_utf8_decode_utf8(username);
    encode_utf8_valid_utf8(password);
    encode_utf8_decode_utf8(password);
}

#[verifier::rlimit(40)]
proof fn lemma_round_trip_ping(client: Option<Timestamp>, server: Option<Timestamp>, rest: Seq<u8>)
    requires
        reads_back(MessageModel::Ping { client, server }),
        spec_encode(MessageModel::Ping { client, server }).len() <= u64::MAX,
    ensures
        spec_decode(spec_encode(MessageModel::Ping { client, server }) + rest) == Ok::<
            (MessageModel, nat),
            ParseError,
        >((MessageModel::Ping { client, server }, spec_encode(MessageModel::Ping { client, server }).len())),
{
    reveal(spec_encode);
    let m = MessageModel::Ping { client, server };
    let body = spec_body_bytes(m);
    let enc = spec_encode(m);
    let s = enc + rest;
    let h = seq![MESSAGE_START, FRAME_LENGTH] + be_bytes(body.len() as u64);
    let w0 = seq![MESSAGE_TYPE, MessageType::Ping.spec_code()];
    let c = spec_optional_time_bytes(client);
    let v = spec_optional_time_bytes(server);
    assert(body == w0 + c + v);
    assert(enc == h + body);
    assert(enc =~= h + w0 + (c + v));
    assert(enc.len() == 12 + c.len() + v.len());
    assert(window(s, 0, h + w0 + (c + v))) by {
        assert(s.subrange(0, enc.len() as int) =~= enc);
    }
    assert(window(s, 12, c + v)) by {
        lemma_window_split(s, 0, h + w0, c + v);
    }
    assert(window(s, 0, h + w0)) by {
        lemma_window_split(s, 0, h + w0, c + v);
    }
    assert(spec_decode(s) == spec_body(s, 12, MessageType::Ping)) by {
        lemma_header_read(s, body.len() as u64, MessageType::Ping);
    }
    lemma_ping_read(s, client, server);
}

#[verifier::rlimit(40)]
proof fn lemma_round_trip_authenticate(username: Seq<char>, password: Seq<char>, rest: Seq<u8>)
    requires
        spec_encode(MessageModel::Authenticate { username, password }).len() <= u64::MAX,
    ensures
        spec_decode(spec_encode(MessageModel::Authenticate { username, password }) + rest) == Ok::<
            (MessageModel, nat),
            ParseError,
        >(
            (
                MessageModel::Authenticate { username, password },
                spec_encode(MessageModel::Authenticate { username, password }).len(),
            ),
        ),
{
    reveal(spec_encode);
    let m = MessageModel::Authenticate { username, password };
    let body = spec_body_bytes(m);
    let enc = spec_encode(m);
    let s = enc + rest;
    let h = seq![MESSAGE_START, FRAME_LENGTH] + be_bytes(body.len() as u64);
    let w0 = seq![MESSAGE_TYPE, MessageType::Authenticate.spec_code()];
    let u = encode_utf8(username);
    let w = encode_utf8(password);
    let c = spec_payload_bytes(STRING, u);
    let v = spec_payload_bytes(STRING, w);
    assert(body == w0 + c + v);
    assert(enc == h + body);
    assert(enc =~= h + w0 + (c + v));
    assert(enc.len() == 12 + c.len() + v.len());
    assert(window(s, 0, h + w0 + (c + v))) by {
        assert(s.subrange(0, enc.len() as int) =~= enc);
    }
    assert(window(s, 12, c + v)) by {
        lemma_window_split(s, 0, h + w0, c + v);
    }
    assert(window(s, 0, h + w0)) by {
        lemma_window_split(s, 0, h + w0, c + v);
    }
    assert(spec_decode(s) == spec_body(s, 12, MessageType::Authenticate)) by {
        lemma_header_read(s, body.len() as u64, MessageType::Authenticate);
    }
    lemma_authenticate_read(s, username, password);
}

/// Encoding a message and decoding the bytes, with anything at all after
/// them, gives the same message back and takes exactly the encoded bytes,
/// as long as the RFC 3339 text of each of its timestamps reads back as that
/// timestamp.
pub proof fn lemma_round_trip(m: MessageModel, rest: Seq<u8>)
    requires
        reads_back(m),
        spec_encode(m).len() <= u64::MAX,
    ensures
        spec_decode(spec_encode(m) + rest) == Ok::<(MessageModel, nat), ParseError>(
            (m, spec_encode(m).len()),
        ),
{
    match m {
        MessageModel::Ping { client, server } => lemma_round_trip_ping(client, server, rest),
        MessageModel::Authenticate { username, password } => lemma_round_trip_authenticate(
            username,
            password,
            rest,
        ),
    }
}

/// `a` is the start of `b`.
pub open spec fn is_prefix(a: Seq<u8>, b: Seq<u8>) -> bool {
    a.len() <= b.len() && a == b.subrange(0, a.len() as int)
}

/// What a reader of the first `alen` bytes gets, given what a reader of all
/// of them got: the same result if those bytes already hold all it took,
/// else the request for more.
pub open spec fn settles<T>(ra: Result<(T, nat), ParseError>, rb: Result<(T, nat), ParseError>, alen: nat) -> bool {
    match rb {
        Ok((_, q)) => if q <= alen {
            ra == rb
        } else {
            ra == Err::<(T, nat), ParseError>(ParseError::Incomplete)
        },
        Err(_) => true,
    }
}

proof fn lemma_prefix_bytes(a: Seq<u8>, b: Seq<u8>)
    requires
        is_prefix(a, b),
    ensures
        forall|i: int| 0 <= i < a.len() ==> #[trigger] a[i] == b[i],
{
    assert forall|i: int| 0 <= i < a.len() implies #[trigger] a[i] == b[i] by {
        assert(b.subrange(0, a.len() as int)[i] == b[i]);
    }
}

proof fn lemma_byte_prefix(a: Seq<u8>, b: Seq<u8>, p: nat)
    requires
        is_prefix(a, b),
    ensures
        settles(spec_byte(a, p), spec_byte(b, p), a.len()),
{
    lemma_prefix_bytes(a, b);
}

proof fn lemma_tag_prefix(a: Seq<u8>, b: Seq<u8>, p: nat, t: u8, what: Expected)
    requires
        is_prefix(a, b),
    ensures
        settles(spec_tag(a, p, t, what), spec_tag(b, p, t, what), a.len()),
{
    lemma_prefix_bytes(a, b);
}

proof fn lemma_be_u64_prefix(a: Seq<u8>, b: Seq<u8>, p: nat)
    requires
        is_prefix(a, b),
    ensures
        settles(spec_be_u64(a, p), spec_be_u64(b, p), a.len()),
{
    lemma_prefix_bytes(a, b);
    if p + 8 <= a.len() {
        assert(a.subrange(p as int, p + 8int) =~= b.subrange(p as int, p + 8int));
    }
}

proof fn lemma_delimiter_prefix(a: Seq<u8>, b: Seq<u8>, p: nat, what: Expected)
    requires
        is_prefix(a, b),
    ensures
        settles(spec_delimiter(a, p, what), spec_delimiter(b, p, what), a.len()),
{
    lemma_prefix_bytes(a, b);
}

proof fn lemma_payload_prefix(a: Seq<u8>, b: Seq<u8>, p: nat, t: u8, what: Expected)
    requires
        is_prefix(a, b),
    ensures
        settles(spec_payload(a, p, t, what), spec_payload(b, p, t, what), a.len()),
{
    lemma_prefix_bytes(a, b);
    lemma_tag_prefix(a, b, p, t, what);
    if let Ok((_, pos1)) = spec_tag(b, p, t, what) {
        lemma_be_u64_prefix(a, b, pos1);
        if let Ok((n, pos2)) = spec_be_u64(b, pos1) {
            if pos2 + n <= b.len() {
                lemma_delimiter_prefix(a, b, (pos2 + n) as nat, what);
                if pos2 + n + 2 <= a.len() {
                    assert(a.subrange(pos2 as int, pos2 + n as int) =~= b.subrange(
                        pos2 as int,
                        pos2 + n as int,
                    ));
                }
            }
        }
    }
}

proof fn lemma_optional_time_prefix(a: Seq<u8>, b: Seq<u8>, p: nat)
    requires
        is_prefix(a, b),
    ensures
        settles(spec_optional_time(a, p), spec_optional_time(b, p), a.len()),
{
    lemma_byte_prefix(a, b, p);
    if let Ok((marker, q)) = spec_byte(b, p) {
        if marker == TIME {
            lemma_payload_prefix(a, b, q, TIME, Expected::Time);
        }
    }
}

proof fn lemma_body_prefix(a: Seq<u8>, b: Seq<u8>, p: nat, t: MessageType)
    requires
        is_prefix(a, b),
    ensures
        settles(spec_body(a, p, t), spec_body(b, p, t), a.len()),
{
    match t {
        MessageType::Ping => {
            lemma_optional_time_prefix(a, b, p);
            if let Ok((_, pos1)) = spec_optional_time(b, p) {
                lemma_optional_time_prefix(a, b, pos1);
            }
        },
        MessageType::Authenticate => {
            lemma_payload_prefix(a, b, p, STRING, Expected::Authenticate);
            if let Ok((_, pos1)) = spec_payload(b, p, STRING, Expected::Authenticate) {
                lemma_payload_prefix(a, b, pos1, STRING, Expected::Authenticate);
            }
        },
        _ => {},
    }
}

/// Reading a message from the start of a byte stream whose first message is
/// complete: the first `k` bytes of the stream ask for more while `k` falls
/// short of that message, and give the same message from there on. So
/// however the bytes are split into deliveries, nothing is decided before the
/// message has arrived whole, and then exactly that message comes out.
pub proof fn lemma_prefix_settles(a: Seq<u8>, b: Seq<u8>)
    requires
        is_prefix(a, b),
        spec_decode(b) is Ok,
    ensures
        settles(spec_decode(a), spec_decode(b), a.len()),
{
    lemma_tag_prefix(a, b, 0, MESSAGE_START, Expected::MessageStart);
    lemma_tag_prefix(a, b, 1, FRAME_LENGTH, Expected::FrameLength);
    lemma_be_u64_prefix(a, b, 2);
    lemma_tag_prefix(a, b, 10, MESSAGE_TYPE, Expected::MessageType);
    lemma_byte_prefix(a, b, 11);
    if let Ok((code, pos5)) = spec_byte(b, 11) {
        if let Some(t) = MessageType::spec_from_code(code) {
            lemma_body_prefix(a, b, 12, t);
        }
    }
}

/// Incremental delivery: cut the encoded bytes of a message at any point `k`.
/// The bytes before the cut ask for more; those bytes followed by the rest
/// of the message, and by whatever comes after it, give the message and take
/// exactly its bytes.
pub proof fn lemma_incremental_delivery(m: MessageModel, k: nat, after: Seq<u8>)
    requires
        reads_back(m),
        spec_encode(m).len() <= u64::MAX,
        k < spec_encode(m).len(),
    ensures
        spec_decode(spec_encode(m).subrange(0, k as int)) == Err::<(MessageModel, nat), ParseError>(
            ParseError::Incomplete,
        ),
        spec_decode(
            spec_encode(m).subrange(0, k as int) + spec_encode(m).subrange(
                k as int,
                spec_encode(m).len() as int,
            ) + after,
        ) == Ok::<(MessageModel, nat), ParseError>((m, spec_encode(m).len())),
{
    let enc = spec_encode(m);
    let head = enc.subrange(0, k as int);
    assert(spec_decode(enc) == Ok::<(MessageModel, nat), ParseError>((m, enc.len()))) by {
        lemma_round_trip(m, Seq::<u8>::empty());
        assert(enc + Seq::<u8>::empty() =~= enc);
    }
    assert(spec_decode(head) == Err::<(MessageModel, nat), ParseError>(ParseError::Incomplete))
        by {
        assert(is_prefix(head, enc)) by {
            assert(head =~= enc.subrange(0, head.len() as int));
        }
        lemma_prefix_settles(head, enc);
    }
    assert(head + enc.subrange(k as int, enc.len() as int) =~= enc);
    lemma_round_trip(m, after);
}

/// Truncation: when the transport closes after a non-empty strict prefix of
/// a message, the buffer asks for more bytes and the close is a reset by the
/// peer, never a decoded message.
pub proof fn lemma_truncation(m: MessageModel, k: nat)
    requires
        reads_back(m),
        spec_encode(m).len() <= u64::MAX,
        0 < k < spec_encode(m).len(),
    ensures
        spec_decode(spec_encode(m).subrange(0, k as int)) == Err::<(MessageModel, nat), ParseError>(
            ParseError::Incomplete,
        ),
        spec_end_of_stream(spec_encode(m).subrange(0, k as int)) == Err::<Option<Message>, ConnectionError>(
            ConnectionError::ResetByPeer,
        ),
{
    lemma_incremental_delivery(m, k, Seq::<u8>::empty());
}

/// Clean close: with nothing buffered, the buffer asks for more bytes and a
/// close gives no message and no error.
pub proof fn lemma_clean_close()
    ensures
        spec_decode(Seq::<u8>::empty()) == Err::<(MessageModel, nat), ParseError>(
            ParseError::Incomplete,
        ),
        spec_end_of_stream(Seq::<u8>::empty()) == Ok::<Option<Message>, ConnectionError>(None),
{
}

/// Unknown type code: a message whose type byte is none of the seven codes
/// is rejected as an invalid message type, whatever follows it; reading it
/// from a connection leaves the buffer untouched.
pub proof fn lemma_unknown_type_code(declared: u64, code: u8, rest: Seq<u8>)
    requires
        MessageType::spec_from_code(code) is None,
    ensures
        spec_decode(
            seq![MESSAGE_START, FRAME_LENGTH] + be_bytes(declared) + seq![MESSAGE_TYPE, code] + rest,
        ) == Err::<(MessageModel, nat), ParseError>(ParseError::InvalidMessageType(code)),
        spec_error_of(ParseError::InvalidMessageType(code)) == ConnectionError::ReadMessageFrames(
            ParseError::InvalidMessageType(code),
        ),
{
    let h = seq![MESSAGE_START, FRAME_LENGTH] + be_bytes(declared) + seq![MESSAGE_TYPE, code];
    let s = h + rest;
    assert(s.subrange(0, h.len() as int) =~= h);
    lemma_window_bytes(s, 0, h);
    assert(h[0] == MESSAGE_START && h[1] == FRAME_LENGTH && h[10] == MESSAGE_TYPE && h[11] == code);
    assert(s[0] == MESSAGE_START && s[1] == FRAME_LENGTH && s[10] == MESSAGE_TYPE && s[11] == code);
}

/// Timeout resumption: a read that gave up while only the first `k` bytes
/// of a message were buffered left them in place, since they only asked for
/// more; once the remaining bytes are received behind them, the next read
/// gives the message and empties the buffer, no byte lost or read twice.
pub proof fn lemma_timeout_resumption(m: MessageModel, k: nat)
    requires
        reads_back(m),
        spec_encode(m).len() <= u64::MAX,
        k < spec_encode(m).len(),
    ensures
        spec_decode(spec_encode(m).subrange(0, k as int)) == Err::<(MessageModel, nat), ParseError>(
            ParseError::Incomplete,
        ),
        ({
            let whole = spec_encode(m).subrange(0, k as int) + spec_encode(m).subrange(
                k as int,
                spec_encode(m).len() as int,
            );
            &&& spec_decode(whole) == Ok::<(MessageModel, nat), ParseError>((m, whole.len()))
            &&& whole.subrange(whole.len() as int, whole.len() as int) == Seq::<u8>::empty()
        }),
{
    let enc = spec_encode(m);
    lemma_incremental_delivery(m, k, Seq::<u8>::empty());
    let whole = enc.subrange(0, k as int) + enc.subrange(k as int, enc.len() as int);
    assert(whole + Seq::<u8>::empty() =~= whole);
    assert(whole =~= enc);
    assert(whole.subrange(whole.len() as int, whole.len() as int) =~= Seq::<u8>::empty());
}

} // verus!
