//! The frames of the client protocol.
//!
//! A frame starts with its total size and a code, 16 bits each, big-endian.
//! A put carries a time to live (16 bits), a number of replicas, a reserved
//! byte, the key and the value; a get carries the key; a success carries the
//! key and the value; a failure carries the key.

use crate::chord::RequestError;
use crate::types::{Key, Value};
use vstd::prelude::*;

verus! {

/// The code of a put request.
pub const DHT_PUT: u16 = 650;

/// The code of a get request.
pub const DHT_GET: u16 = 651;

/// The code of a reply that carries a value.
pub const DHT_SUCCESS: u16 = 652;

/// The code of a reply that carries none.
pub const DHT_FAILURE: u16 = 653;

/// The length of the size and the code of a frame.
pub const HEADER_LEN: usize = 4;

/// The length of a key.
pub const KEY_LEN: usize = 32;

/// The length of a frame that carries a key and nothing else.
pub const KEY_FRAME_LEN: usize = 36;

/// The length of a put request up to its value.
pub const PUT_PREFIX_LEN: usize = 40;

/// The longest value that fits into a reply.
pub const MAX_REPLY_VALUE_LEN: usize = 65499;

/// A request of a client.
#[derive(Debug)]
pub enum ClientRequest {
    Put { ttl: u16, replication: u8, reserved: u8, key: Key, value: Value },
    Get { key: Key },
}

/// What a [`ClientRequest`] holds.
pub enum RequestView {
    Put { ttl: u16, replication: u8, reserved: u8, key: Seq<u8>, value: Seq<u8> },
    Get { key: Seq<u8> },
}

impl View for ClientRequest {
    type V = RequestView;

    open spec fn view(&self) -> RequestView {
        match *self {
            ClientRequest::Put { ttl, replication, reserved, key, value } => RequestView::Put {
                ttl,
                replication,
                reserved,
                key: key@,
                value: value@,
            },
            ClientRequest::Get { key } => RequestView::Get { key: key@ },
        }
    }
}

/// Why a frame is no request.
#[derive(Clone, Copy, Debug, PartialEq, Eq, Structural)]
pub enum FrameError {
    /// The frame is shorter than a size and a code.
    Truncated,
    /// The size that the frame states is not its length.
    SizeMismatch,
    /// The frame is too short for a request of its code, or too long.
    BadLength,
    /// The code is that of no request.
    UnknownCode(u16),
}

/// What to read after the size of a frame.
#[derive(Clone, Copy, Debug, PartialEq, Eq, Structural)]
pub enum NextRead {
    /// The client is done: close the connection.
    Close,
    /// Read this many bytes more, the rest of the frame.
    Rest(usize),
}

/// The number that two bytes spell out, the high byte first.
pub open spec fn be16(high: u8, low: u8) -> int {
    high as int * 256 + low as int
}

/// The two bytes that spell out `x`, the high byte first.
pub open spec fn u16_bytes(x: int) -> Seq<u8> {
    seq![(x / 256) as u8, (x % 256) as u8]
}

/// Whether a request can be framed: its key has the length of a key and
/// its frame a size that 16 bits can state.
pub open spec fn frameable(request: RequestView) -> bool {
    match request {
        RequestView::Put { key, value, .. } => key.len() == KEY_LEN && PUT_PREFIX_LEN
            + value.len() <= u16::MAX,
        RequestView::Get { key } => key.len() == KEY_LEN,
    }
}

/// The frame of a request.
pub open spec fn request_bytes(request: RequestView) -> Seq<u8> {
    match request {
        RequestView::Put { ttl, replication, reserved, key, value } => u16_bytes(
            PUT_PREFIX_LEN + value.len(),
        ) + u16_bytes(DHT_PUT as int) + u16_bytes(ttl as int) + seq![replication, reserved] + key
            + value,
        RequestView::Get { key } => u16_bytes(KEY_FRAME_LEN as int) + u16_bytes(DHT_GET as int)
            + key,
    }
}

/// The frame of the reply that carries `value` for `key`.
pub open spec fn success_bytes(key: Seq<u8>, value: Seq<u8>) -> Seq<u8> {
    u16_bytes(KEY_FRAME_LEN + value.len()) + u16_bytes(DHT_SUCCESS as int) + key + value
}

/// The frame of the reply that there is no value for `key`.
pub open spec fn failure_bytes(key: Seq<u8>) -> Seq<u8> {
    u16_bytes(KEY_FRAME_LEN as int) + u16_bytes(DHT_FAILURE as int) + key
}

/// The request that a frame holds, or why it holds none.
pub open spec fn spec_parse_request(frame: Seq<u8>) -> Result<RequestView, FrameError> {
    if frame.len() < HEADER_LEN {
        Err(FrameError::Truncated)
    } else if be16(frame[0], frame[1]) != frame.len() {
        Err(FrameError::SizeMismatch)
    } else if be16(frame[2], frame[3]) == DHT_GET {
        if frame.len() == KEY_FRAME_LEN {
            Ok(RequestView::Get { key: frame.subrange(HEADER_LEN as int, KEY_FRAME_LEN as int) })
        } else {
            Err(FrameError::BadLength)
        }
    } else if be16(frame[2], frame[3]) == DHT_PUT {
        if frame.len() >= PUT_PREFIX_LEN {
            Ok(
                RequestView::Put {
                    ttl: be16(frame[4], frame[5]) as u16,
                    replication: frame[6],
                    reserved: frame[7],
                    key: frame.subrange(8, PUT_PREFIX_LEN as int),
                    value: frame.subrange(PUT_PREFIX_LEN as int, frame.len() as int),
                },
            )
        } else {
            Err(FrameError::BadLength)
        }
    } else {
        Err(FrameError::UnknownCode(be16(frame[2], frame[3]) as u16))
    }
}

/// The reply to a get: a success with the value where the node found one
/// that fits a frame, a failure else.
pub open spec fn spec_reply_for_get(
    key: Seq<u8>,
    reply: Result<Option<Value>, RequestError>,
) -> Seq<u8> {
    match reply {
        Ok(Some(value)) => if value@.len() <= MAX_REPLY_VALUE_LEN {
            success_bytes(key, value@)
        } else {
            failure_bytes(key)
        },
        _ => failure_bytes(key),
    }
}

/// Reads two bytes as a number, the high byte first.
fn read_u16(bytes: &[u8], at: usize) -> (x: u16)
    requires
        at + 1 < bytes@.len(),
    ensures
        x as int == be16(bytes@[at as int], bytes@[at + 1]),
{
    let high: u16 = bytes[at] as u16;
    let low: u16 = bytes[at + 1] as u16;
    high * 256 + low
}

/// Appends `x` to `out`, the high byte first.
fn write_u16(out: &mut Vec<u8>, x: u16)
    ensures
        final(out)@ == old(out)@ + u16_bytes(x as int),
{
    out.push((x / 256) as u8);
    out.push((x % 256) as u8);
    assert(out@ =~= old(out)@ + u16_bytes(x as int));
}

/// Appends `bytes` to `out`.
fn write_bytes(out: &mut Vec<u8>, bytes: &[u8])
    ensures
        final(out)@ == old(out)@ + bytes@,
{
    let mut i: usize = 0;
    while i < bytes.len()
        invariant
            i <= bytes@.len(),
            out@ == old(out)@ + bytes@.take(i as int),
        decreases bytes@.len() - i,
    {
        out.push(bytes[i]);
        assert(bytes@.take(i + 1) =~= bytes@.take(i as int).push(bytes@[i as int]));
        i = i + 1;
    }
    assert(bytes@.take(bytes@.len() as int) =~= bytes@);
}

/// The key that starts at `at`.
fn read_key(bytes: &[u8], at: usize) -> (key: Key)
    requires
        at + KEY_LEN <= bytes@.len(),
    ensures
        key@ == bytes@.subrange(at as int, at + KEY_LEN),
{
    let mut key: Key = [0u8; 32];
    let mut i: usize = 0;
    let length: usize = bytes.len();
    while i < KEY_LEN
        invariant
            i <= KEY_LEN,
            at + KEY_LEN <= bytes@.len() == length,
            forall|j: int| 0 <= j < i ==> key@[j] == bytes@[at + j],
        decreases KEY_LEN - i,
    {
        key[i] = bytes[at + i];
        i = i + 1;
    }
    assert(key@ =~= bytes@.subrange(at as int, at + KEY_LEN));
    key
}

/// What to read after the size of a frame was read: nothing where the
/// size is 0, with which a client ends the connection, and else the rest
/// of the frame.
pub fn next_read(size: u16) -> (next: NextRead)
    ensures
        next == (if size == 0 {
            NextRead::Close
        } else if size < 2 {
            NextRead::Rest(0)
        } else {
            NextRead::Rest((size - 2) as usize)
        }),
{
    if size == 0 {
        NextRead::Close
    } else if size < 2 {
        NextRead::Rest(0)
    } else {
        NextRead::Rest((size - 2) as usize)
    }
}

/// The size that the first two bytes of a frame state.
pub fn frame_size(header: &[u8; 2]) -> (size: u16)
    ensures
        size as int == be16(header@[0], header@[1]),
{
    let high: u16 = header[0] as u16;
    let low: u16 = header[1] as u16;
    high * 256 + low
}

/// Reads a request from its frame.
pub fn parse_request(frame: &[u8]) -> (request: Result<ClientRequest, FrameError>)
    ensures
        match request {
            Ok(r) => spec_parse_request(frame@) == Ok::<RequestView, FrameError>(r@),
            Err(e) => spec_parse_request(frame@) == Err::<RequestView, FrameError>(e),
        },
{
    if frame.len() < HEADER_LEN {
        return Err(FrameError::Truncated);
    }
    let size: u16 = read_u16(frame, 0);
    if size as usize != frame.len() {
        return Err(FrameError::SizeMismatch);
    }
    let code: u16 = read_u16(frame, 2);
    if code == DHT_GET {
        if frame.len() != KEY_FRAME_LEN {
            return Err(FrameError::BadLength);
        }
        Ok(ClientRequest::Get { key: read_key(frame, HEADER_LEN) })
    } else if code == DHT_PUT {
        if frame.len() < PUT_PREFIX_LEN {
            return Err(FrameError::BadLength);
        }
        let ttl: u16 = read_u16(frame, 4);
        let key = read_key(frame, 8);
        let mut value: Value = Vec::new();
        write_bytes(&mut value, vstd::slice::slice_subrange(frame, PUT_PREFIX_LEN, frame.len()));
        assert(value@ =~= frame@.subrange(PUT_PREFIX_LEN as int, frame@.len() as int));
        Ok(ClientRequest::Put { ttl, replication: frame[6], reserved: frame[7], key, value })
    } else {
        Err(FrameError::UnknownCode(code))
    }
}

/// The frame of the reply that carries `value` for `key`, if the value
/// fits into a frame.
pub fn encode_success(key: &Key, value: &Value) -> (frame: Option<Vec<u8>>)
    ensures
        match frame {
            Some(bytes) => value@.len() <= MAX_REPLY_VALUE_LEN && bytes@ == success_bytes(
                key@,
                value@,
            ),
            None => value@.len() > MAX_REPLY_VALUE_LEN,
        },
{
    if value.len() > MAX_REPLY_VALUE_LEN {
        return None;
    }
    let size: u16 = (KEY_FRAME_LEN + value.len()) as u16;
    let mut bytes: Vec<u8> = Vec::new();
    write_u16(&mut bytes, size);
    write_u16(&mut bytes, DHT_SUCCESS);
    write_bytes(&mut bytes, key.as_slice());
    write_bytes(&mut bytes, value.as_slice());
    assert(bytes@ =~= success_bytes(key@, value@));
    Some(bytes)
}

/// The frame of the reply that there is no value for `key`.
pub fn encode_failure(key: &Key) -> (bytes: Vec<u8>)
    ensures
        bytes@ == failure_bytes(key@),
{
    let mut bytes: Vec<u8> = Vec::new();
    write_u16(&mut bytes, KEY_FRAME_LEN as u16);
    write_u16(&mut bytes, DHT_FAILURE);
    write_bytes(&mut bytes, key.as_slice());
    assert(bytes@ =~= failure_bytes(key@));
    bytes
}

/// The frame with which a get of `key` is answered, given what the
/// responsible node replied.
pub fn reply_for_get(key: &Key, reply: &Result<Option<Value>, RequestError>) -> (bytes: Vec<u8>)
    ensures
        bytes@ == spec_reply_for_get(key@, *reply),
{
    match reply {
        Ok(Some(value)) => match encode_success(key, value) {
            Some(bytes) => bytes,
            None => encode_failure(key),
        },
        _ => encode_failure(key),
    }
}

/// The two bytes of a number spell it out.
pub proof fn lemma_u16_bytes(x: int)
    requires
        0 <= x <= u16::MAX,
    ensures
        u16_bytes(x).len() == 2,
        be16(u16_bytes(x)[0], u16_bytes(x)[1]) == x,
{
}

/// Reading the frame of a request gives the request back.
pub proof fn lemma_parse_request_bytes(request: RequestView)
    requires
        frameable(request),
    ensures
        spec_parse_request(request_bytes(request)) == Ok::<RequestView, FrameError>(request),
{
    let frame = request_bytes(request);
    match request {
        RequestView::Put { ttl, replication, reserved, key, value } => {
            lemma_u16_bytes(PUT_PREFIX_LEN + value.len());
            lemma_u16_bytes(DHT_PUT as int);
            lemma_u16_bytes(ttl as int);
            assert(frame.len() == PUT_PREFIX_LEN + value.len());
            assert(frame.subrange(8, PUT_PREFIX_LEN as int) =~= key);
            assert(frame.subrange(PUT_PREFIX_LEN as int, frame.len() as int) =~= value);
        },
        RequestView::Get { key } => {
            lemma_u16_bytes(KEY_FRAME_LEN as int);
            lemma_u16_bytes(DHT_GET as int);
            assert(frame.len() == KEY_FRAME_LEN);
            assert(frame.subrange(HEADER_LEN as int, KEY_FRAME_LEN as int) =~= key);
        },
    }
}

/// A frame that holds a request is the frame of that request, and of no
/// other.
pub proof fn lemma_request_bytes_of_parsed(frame: Seq<u8>)
    requires
        spec_parse_request(frame) is Ok,
    ensures
        frameable(spec_parse_request(frame)->Ok_0),
        request_bytes(spec_parse_request(frame)->Ok_0) == frame,
{
    let request = spec_parse_request(frame)->Ok_0;
    assert(request_bytes(request) =~= frame);
}

} // verus!
