//! Length-prefixed frames: a four-byte big-endian header whose top bit marks a
//! compressed payload and whose other bits give the payload's length.
use vstd::prelude::*;

use crate::error::KvError;

verus! {

/// Bytes in a frame header.
pub const LEN_LEN: usize = 4;

/// The largest payload a frame may declare.
pub const MAX_FRAME: usize = 16777216;

/// Payloads longer than this are compressed.
pub const COMPRESSION_LIMIT: usize = 1436;

/// The header bit that marks a compressed payload.
pub const COMPRESSION_BIT: u32 = 0x8000_0000;

/// The gzip stream that `flate2` makes of `b` at the default level.
pub uninterp spec fn gzip_of(b: Seq<u8>) -> Seq<u8>;

/// What `flate2` reads back from the gzip stream `b`; `None` for a stream it rejects.
pub uninterp spec fn gunzip_of(b: Seq<u8>) -> Option<Seq<u8>>;

/// Relies on `flate2::write::GzEncoder` writing into a `Vec`: the gzip stream of `b`,
/// which reads back as `b`. The encoder writes into a `Vec`, which never fails, so a
/// stream always comes back.
#[verifier::external_body]
fn gzip(b: &[u8]) -> (r: Option<Vec<u8>>)
    ensures
        r is Some,
        r matches Some(c) ==> c@ == gzip_of(b@) && gunzip_of(c@) == Some(b@),
{
    let mut e = flate2::write::GzEncoder::new(Vec::new(), flate2::Compression::default());
    match std::io::Write::write_all(&mut e, b) {
        Ok(()) => e.finish().ok(),
        Err(_) => None,
    }
}

/// Relies on `flate2::read::GzDecoder`: the bytes the gzip stream `b` holds.
#[verifier::external_body]
fn gunzip(b: &[u8]) -> (r: Option<Vec<u8>>)
    ensures
        r matches Some(d) ==> gunzip_of(b@) == Some(d@),
        r is None ==> gunzip_of(b@) is None,
{
    let mut d = flate2::read::GzDecoder::new(b);
    let mut out = Vec::new();
    match std::io::Read::read_to_end(&mut d, &mut out) {
        Ok(_) => Some(out),
        Err(_) => None,
    }
}

/// The four big-endian bytes of `x`.
pub open spec fn be32(x: u32) -> Seq<u8> {
    seq![(x >> 24u32) as u8, (x >> 16u32) as u8, (x >> 8u32) as u8, x as u8]
}

/// The integer whose big-endian bytes are `b[0..4]`.
pub open spec fn from_be32(b: Seq<u8>) -> u32 {
    ((b[0] as u32) << 24u32) | ((b[1] as u32) << 16u32) | ((b[2] as u32) << 8u32) | (b[3] as u32)
}

/// Reading back the four big-endian bytes of `x` gives `x`.
pub proof fn lemma_be32_round_trip(x: u32)
    ensures
        from_be32(be32(x)) == x,
{
    let b = be32(x);
    let (b0, b1, b2, b3) = (b[0], b[1], b[2], b[3]);
    assert(b0 == (x >> 24u32) as u8 && b1 == (x >> 16u32) as u8 && b2 == (x >> 8u32) as u8 && b3
        == x as u8);
    assert(((b0 as u32) << 24u32) | ((b1 as u32) << 16u32) | ((b2 as u32) << 8u32) | (b3 as u32) == x)
        by (bit_vector)
        requires
            b0 == (x >> 24u32) as u8 && b1 == (x >> 16u32) as u8 && b2 == (x >> 8u32) as u8 && b3
                == x as u8,
    ;
}

/// The header word for a payload of `len` bytes.
pub open spec fn header_word(len: nat, compressed: bool) -> u32 {
    if compressed {
        (len as u32) | COMPRESSION_BIT
    } else {
        len as u32
    }
}

/// The payload length a header word declares.
pub open spec fn declared_len(h: u32) -> u32 {
    h & !COMPRESSION_BIT
}

/// Whether a header word marks its payload compressed.
pub open spec fn declared_compressed(h: u32) -> bool {
    h & COMPRESSION_BIT != 0
}

proof fn lemma_header_word(len: u32, compressed: bool)
    requires
        len < COMPRESSION_BIT,
    ensures
        declared_len(header_word(len as nat, compressed)) == len,
        declared_compressed(header_word(len as nat, compressed)) == compressed,
{
    if compressed {
        assert((len | 0x8000_0000u32) & !0x8000_0000u32 == len && (len | 0x8000_0000u32)
            & 0x8000_0000u32 != 0) by (bit_vector)
            requires
                len < 0x8000_0000u32,
        ;
    } else {
        assert(len & !0x8000_0000u32 == len && len & 0x8000_0000u32 == 0) by (bit_vector)
            requires
                len < 0x8000_0000u32,
        ;
    }
}

/// The body a payload travels as: compressed above the limit.
pub open spec fn frame_body(p: Seq<u8>) -> Seq<u8> {
    if p.len() > COMPRESSION_LIMIT {
        gzip_of(p)
    } else {
        p
    }
}

/// The frame of a payload: header, then body.
pub open spec fn frame_of(p: Seq<u8>) -> Seq<u8> {
    be32(header_word(frame_body(p).len(), p.len() > COMPRESSION_LIMIT)) + frame_body(p)
}

/// `f` is the frame that encoding `p` produces, and its body reads back as `p`.
pub open spec fn encodes(p: Seq<u8>, f: Seq<u8>) -> bool {
    &&& f == frame_of(p)
    &&& frame_body(p).len() <= MAX_FRAME
    &&& p.len() > COMPRESSION_LIMIT ==> gunzip_of(gzip_of(p)) == Some(p)
}

/// What decoding makes of a buffer: the payload of its first frame (or `None` while the
/// frame is incomplete), or an error, with what is left in the buffer afterwards.
pub enum Decoded {
    Incomplete,
    Frame(Seq<u8>),
    TooLong,
    BadBody,
}

pub open spec fn decode_spec(buf: Seq<u8>) -> (Decoded, Seq<u8>) {
    if buf.len() < LEN_LEN {
        (Decoded::Incomplete, buf)
    } else {
        let h = from_be32(buf.subrange(0, 4));
        let len = declared_len(h) as int;
        if len > MAX_FRAME {
            (Decoded::TooLong, buf)
        } else if buf.len() < LEN_LEN + len {
            (Decoded::Incomplete, buf)
        } else {
            let body = buf.subrange(4, 4 + len);
            let rest = buf.subrange(4 + len, buf.len() as int);
            if declared_compressed(h) {
                match gunzip_of(body) {
                    Some(d) => (Decoded::Frame(d), rest),
                    None => (Decoded::BadBody, rest),
                }
            } else {
                (Decoded::Frame(body), rest)
            }
        }
    }
}

pub fn push_be32(out: &mut Vec<u8>, x: u32)
    ensures
        final(out)@ == old(out)@ + be32(x),
{
    out.push((x >> 24u32) as u8);
    out.push((x >> 16u32) as u8);
    out.push((x >> 8u32) as u8);
    out.push(x as u8);
    assert(final(out)@ =~= old(out)@ + be32(x));
}

fn append(out: &mut Vec<u8>, b: &[u8])
    ensures
        final(out)@ == old(out)@ + b@,
{
    let mut i: usize = 0;
    let ghost start = out@;
    while i < b.len()
        invariant
            i <= b@.len(),
            out@ == start + b@.subrange(0, i as int),
        decreases b@.len() - i,
    {
        out.push(b[i]);
        i = i + 1;
        assert(out@ =~= start + b@.subrange(0, i as int));
    }
    assert(b@.subrange(0, i as int) =~= b@);
}

/// The header word at the front of `buf`.
pub fn header_of(buf: &Vec<u8>) -> (r: u32)
    requires
        buf@.len() >= LEN_LEN,
    ensures
        r == from_be32(buf@.subrange(0, 4)),
{
    let h: u32 = ((buf[0] as u32) << 24u32) | ((buf[1] as u32) << 16u32) | ((buf[2] as u32) << 8u32) | (
    buf[3] as u32);
    assert(buf@.subrange(0, 4)[0] == buf@[0] && buf@.subrange(0, 4)[3] == buf@[3]);
    h
}

/// The payload length a header word declares.
pub fn length_of(h: u32) -> (r: u32)
    ensures
        r == declared_len(h),
{
    h & !COMPRESSION_BIT
}

/// Frames a payload: compresses it above the limit, then writes the header and the
/// body. A body over `MAX_FRAME` is a `FrameError`.
pub fn encode_frame(payload: &Vec<u8>) -> (r: Result<Vec<u8>, KvError>)
    ensures
        r matches Ok(f) ==> encodes(payload@, f@),
        r matches Err(e) ==> e is FrameError,
        r is Ok <==> frame_body(payload@).len() <= MAX_FRAME,
{
    let compressed = payload.len() > COMPRESSION_LIMIT;
    let mut out: Vec<u8> = Vec::new();
    if compressed {
        match gzip(payload.as_slice()) {
            None => Err(KvError::EncodeError),
            Some(body) => {
                if body.len() > MAX_FRAME {
                    return Err(KvError::FrameError);
                }
                let word = (body.len() as u32) | COMPRESSION_BIT;
                push_be32(&mut out, word);
                append(&mut out, body.as_slice());
                Ok(out)
            },
        }
    } else {
        if payload.len() > MAX_FRAME {
            return Err(KvError::FrameError);
        }
        push_be32(&mut out, payload.len() as u32);
        append(&mut out, payload.as_slice());
        Ok(out)
    }
}

/// Takes the first frame off the front of `buf`. While the header or the body is still
/// incomplete, returns `Ok(None)` and leaves `buf` as it is, so later bytes can be added.
/// A header that declares more than `MAX_FRAME` is a `FrameError` and also leaves `buf`
/// as it is: the declared body may not have arrived yet, so skipping it is left to the
/// caller that keeps reading (`Connection::next_frame`). A compressed body that does not decompress is a `DecodeError`; its frame is
/// consumed.
pub fn decode_frame(buf: &mut Vec<u8>) -> (r: Result<Option<Vec<u8>>, KvError>)
    ensures
        final(buf)@ == decode_spec(old(buf)@).1,
        match decode_spec(old(buf)@).0 {
            Decoded::Incomplete => r matches Ok(None),
            Decoded::Frame(p) => r matches Ok(Some(v)) && v@ == p,
            Decoded::TooLong => r matches Err(e) && e is FrameError,
            Decoded::BadBody => r matches Err(e) && e is DecodeError,
        },
{
    let n = buf.len();
    if n < LEN_LEN {
        return Ok(None);
    }
    let h: u32 = ((buf[0] as u32) << 24u32) | ((buf[1] as u32) << 16u32) | ((buf[2] as u32) << 8u32) | (
    buf[3] as u32);
    assert(h == from_be32(buf@.subrange(0, 4)));
    let len = h & !COMPRESSION_BIT;
    let compressed = h & COMPRESSION_BIT != 0;
    if len as usize > MAX_FRAME {
        return Err(KvError::FrameError);
    }
    let total = LEN_LEN + len as usize;
    if n < total {
        return Ok(None);
    }
    let ghost whole = buf@;
    let mut head = buf.split_off(total);
    std::mem::swap(buf, &mut head);
    let body = head.split_off(LEN_LEN);
    assert(body@ =~= whole.subrange(4, total as int));
    assert(buf@ =~= whole.subrange(total as int, whole.len() as int));
    if compressed {
        match gunzip(body.as_slice()) {
            Some(d) => Ok(Some(d)),
            None => Err(KvError::DecodeError),
        }
    } else {
        Ok(Some(body))
    }
}

/// Decoding the frame that encoding produced, followed by any further bytes, gives back
/// the payload exactly and leaves the further bytes for the next frame.
pub proof fn lemma_frame_round_trip(p: Seq<u8>, f: Seq<u8>, rest: Seq<u8>)
    requires
        encodes(p, f),
    ensures
        decode_spec(f + rest) == (Decoded::Frame(p), rest),
{
    let compressed = p.len() > COMPRESSION_LIMIT;
    let body = frame_body(p);
    let len = body.len();
    let word = header_word(len, compressed);
    let buf = f + rest;
    assert(buf.subrange(0, 4) =~= be32(word));
    lemma_be32_round_trip(word);
    lemma_header_word(len as u32, compressed);
    assert(buf.subrange(4, 4 + len as int) =~= body);
    assert(buf.subrange(4 + len as int, buf.len() as int) =~= rest);
}

} // verus!
