//! The per-connection state machine: Connecting, Established, Closing, Closed. It keeps
//! the bytes read so far and the subscriptions the connection holds; the caller does
//! the reading and writing and reports what happened.
use vstd::prelude::*;

use crate::error::KvError;
use crate::frame::{
    be32, declared_len, decode_frame, decode_spec, encodes, from_be32, header_of, length_of,
    lemma_frame_round_trip, Decoded, COMPRESSION_BIT, LEN_LEN, MAX_FRAME,
};
use crate::pb::{CommandRequest, CommandResponse, RequestData, Value};

verus! {

#[derive(Clone, Copy, Debug, PartialEq, Eq, Structural)]
pub enum ConnState {
    Connecting,
    Established,
    Closing,
    Closed,
}

/// One connection: its state, the bytes received and not yet framed, and the
/// (topic, id) of each subscription it opened and has not closed.
pub struct Connection {
    state: ConnState,
    rbuf: Vec<u8>,
    skip: usize,
    subs: Vec<(String, u32)>,
}

/// `buf` once the first `skip` bytes that arrive are thrown away, and how many are
/// still to be thrown away.
pub open spec fn discard(buf: Seq<u8>, skip: nat) -> (Seq<u8>, nat) {
    if skip >= buf.len() {
        (Seq::empty(), (skip - buf.len()) as nat)
    } else {
        (buf.subrange(skip as int, buf.len() as int), 0)
    }
}

/// One framing step on a connection: with `skip` bytes of a rejected frame still to be
/// thrown away, what `buf` yields, and the buffer and skip count after. A frame that
/// declares more than `MAX_FRAME` is rejected, and its header and declared body are
/// thrown away, so the frames after it parse as if it had never been sent.
pub open spec fn step(buf: Seq<u8>, skip: nat) -> (Decoded, Seq<u8>, nat) {
    let (b, s) = discard(buf, skip);
    if s > 0 {
        (Decoded::Incomplete, b, s)
    } else if b.len() >= LEN_LEN && declared_len(from_be32(b.subrange(0, 4))) > MAX_FRAME {
        let (b2, s2) = discard(
            b.subrange(4, b.len() as int),
            declared_len(from_be32(b.subrange(0, 4))) as nat,
        );
        (Decoded::TooLong, b2, s2)
    } else {
        (decode_spec(b).0, decode_spec(b).1, 0)
    }
}

/// The subscription a request opens, given its first response: a subscribe request
/// whose first response carries the new id.
pub open spec fn opened(req: CommandRequest, first: Option<CommandResponse>) -> Option<(Seq<char>, u32)> {
    match (req.request_data, first) {
        (Some(RequestData::Subscribe(s)), Some(r)) => {
            if r.values@.len() > 0 && r.values@[0] is Integer && 0 <= r.values@[0]->Integer_0 <= u32::MAX {
                Some((s.topic@, r.values@[0]->Integer_0 as u32))
            } else {
                None
            }
        },
        _ => None,
    }
}

/// The subscription a request closes.
pub open spec fn closed(req: CommandRequest) -> Option<(Seq<char>, u32)> {
    match req.request_data {
        Some(RequestData::Unsubscribe(u)) => Some((u.topic@, u.id)),
        _ => None,
    }
}

pub open spec fn subs_view(s: Seq<(String, u32)>) -> Seq<(Seq<char>, u32)> {
    s.map_values(|p: (String, u32)| (p.0@, p.1))
}

impl Connection {
    pub closed spec fn spec_state(&self) -> ConnState {
        self.state
    }

    /// The bytes received and not yet taken as frames.
    pub closed spec fn buffered(&self) -> Seq<u8> {
        self.rbuf@
    }

    /// How many bytes of a rejected frame are still to be thrown away.
    pub closed spec fn pending_skip(&self) -> nat {
        self.skip as nat
    }

    /// The subscriptions held, in the order they were opened.
    pub closed spec fn held(&self) -> Seq<(Seq<char>, u32)> {
        subs_view(self.subs@)
    }

    pub fn new() -> (r: Self)
        ensures
            r.spec_state() == ConnState::Connecting,
            r.buffered().len() == 0,
            r.held().len() == 0,
    {
        let r = Connection { state: ConnState::Connecting, rbuf: Vec::new(), skip: 0, subs: Vec::new() };
        assert(r.held() =~= Seq::<(Seq<char>, u32)>::empty());
        r
    }

    pub fn state(&self) -> (r: ConnState)
        ensures
            r == self.spec_state(),
    {
        self.state
    }

    /// The transport is ready (after the TLS handshake, where there is one).
    pub fn established(&mut self)
        ensures
            old(self).spec_state() == ConnState::Connecting ==> final(self).spec_state()
                == ConnState::Established,
            old(self).spec_state() != ConnState::Connecting ==> final(self).spec_state() == old(
                self,
            ).spec_state(),
            final(self).buffered() == old(self).buffered(),
            final(self).held() == old(self).held(),
    {
        if self.state == ConnState::Connecting {
            self.state = ConnState::Established;
        }
    }

    /// Bytes arrived; they are kept behind those not yet framed. Bytes that arrive
    /// outside the established state are ignored.
    pub fn received(&mut self, bytes: &[u8])
        ensures
            final(self).spec_state() == old(self).spec_state(),
            old(self).spec_state() == ConnState::Established ==> final(self).buffered() == old(
                self,
            ).buffered() + bytes@,
            old(self).spec_state() != ConnState::Established ==> final(self).buffered() == old(
                self,
            ).buffered(),
            final(self).held() == old(self).held(),
    {
        if self.state != ConnState::Established {
            return;
        }
        let mut i: usize = 0;
        let ghost start = self.rbuf@;
        let ghost st = self.state;
        let ghost sb = self.subs@;
        while i < bytes.len()
            invariant
                i <= bytes@.len(),
                self.state == st,
                self.subs@ == sb,
                self.rbuf@ == start + bytes@.subrange(0, i as int),
            decreases bytes@.len() - i,
        {
            self.rbuf.push(bytes[i]);
            i = i + 1;
            assert(self.rbuf@ =~= start + bytes@.subrange(0, i as int));
        }
        assert(bytes@.subrange(0, i as int) =~= bytes@);
    }

    /// Throws away up to `self.skip` bytes from the front of the buffer.
    fn discard_pending(&mut self)
        ensures
            (final(self).buffered(), final(self).pending_skip()) == discard(
                old(self).buffered(),
                old(self).pending_skip(),
            ),
            final(self).spec_state() == old(self).spec_state(),
            final(self).held() == old(self).held(),
    {
        let n = if self.skip < self.rbuf.len() { self.skip } else { self.rbuf.len() };
        let ghost before = self.rbuf@;
        let tail = self.rbuf.split_off(n);
        self.rbuf = tail;
        self.skip = self.skip - n;
        assert(self.rbuf@ =~= discard(before, old(self).skip as nat).0);
    }

    /// The payload of the next complete frame, if one has arrived, as `step` describes.
    /// A frame that declares more than `MAX_FRAME` is a `FrameError` that leaves the
    /// connection established: the frame is skipped. A body that does not decompress is a
    /// `DecodeError` and moves the connection to Closing.
    pub fn next_frame(&mut self) -> (r: Result<Option<Vec<u8>>, KvError>)
        requires
            old(self).spec_state() == ConnState::Established,
        ensures
            final(self).buffered() == step(old(self).buffered(), old(self).pending_skip()).1,
            final(self).pending_skip() == step(old(self).buffered(), old(self).pending_skip()).2,
            final(self).held() == old(self).held(),
            match step(old(self).buffered(), old(self).pending_skip()).0 {
                Decoded::Incomplete => r matches Ok(None),
                Decoded::Frame(p) => r matches Ok(Some(v)) && v@ == p,
                Decoded::TooLong => r matches Err(e) && e is FrameError,
                Decoded::BadBody => r matches Err(e) && e is DecodeError,
            },
            r matches Err(e) && e is DecodeError ==> final(self).spec_state() == ConnState::Closing,
            !(r matches Err(e) && e is DecodeError) ==> final(self).spec_state() == ConnState::Established,
    {
        self.discard_pending();
        if self.skip > 0 {
            return Ok(None);
        }
        if self.rbuf.len() >= LEN_LEN {
            let len = length_of(header_of(&self.rbuf));
            if len as usize > MAX_FRAME {
                let ghost b = self.rbuf@;
                let tail = self.rbuf.split_off(LEN_LEN);
                self.rbuf = tail;
                assert(self.rbuf@ =~= b.subrange(4, b.len() as int));
                self.skip = len as usize;
                self.discard_pending();
                return Err(KvError::FrameError);
            }
        }
        let r = decode_frame(&mut self.rbuf);
        if r.is_err() {
            self.state = ConnState::Closing;
        }
        r
    }

    /// The peer closed the stream, or the server shuts the connection down.
    pub fn closing(&mut self)
        ensures
            old(self).spec_state() == ConnState::Closed ==> final(self).spec_state() == ConnState::Closed,
            old(self).spec_state() != ConnState::Closed ==> final(self).spec_state() == ConnState::Closing,
            final(self).held() == old(self).held(),
            final(self).buffered() == old(self).buffered(),
    {
        if self.state != ConnState::Closed {
            self.state = ConnState::Closing;
        }
    }

    /// The stream is shut; the subscriptions still held are handed over so that they
    /// can be closed, and none is held after.
    pub fn shut(&mut self) -> (r: Vec<(String, u32)>)
        ensures
            final(self).spec_state() == ConnState::Closed,
            subs_view(r@) == old(self).held(),
            final(self).held().len() == 0,
    {
        self.state = ConnState::Closed;
        let mut out: Vec<(String, u32)> = Vec::new();
        std::mem::swap(&mut out, &mut self.subs);
        assert(self.held() =~= Seq::<(Seq<char>, u32)>::empty());
        out
    }

    /// The (topic, id) of each subscription held, in the order they were opened.
    pub fn subscriptions(&self) -> (r: &Vec<(String, u32)>)
        ensures
            subs_view(r@) == self.held(),
    {
        &self.subs
    }

    /// Notes what a served request did to the subscriptions: a subscribe adds the id its
    /// first response carries, an unsubscribe removes that (topic, id).
    pub fn record(&mut self, req: &CommandRequest, responses: &Vec<CommandResponse>)
        ensures
            final(self).spec_state() == old(self).spec_state(),
            final(self).buffered() == old(self).buffered(),
            final(self).held() == without(
                with(old(self).held(), opened(*req, if responses@.len() > 0 { Some(responses@[0]) } else { None })),
                closed(*req),
            ),
    {
        let ghost first = if responses@.len() > 0 { Some(responses@[0]) } else { None };
        match &req.request_data {
            Some(RequestData::Subscribe(s)) => {
                if responses.len() > 0 && responses[0].values.len() > 0 {
                    match &responses[0].values[0] {
                        Value::Integer(id) => {
                            if 0 <= *id && *id <= u32::MAX as i64 {
                                let ghost before = self.subs@;
                                self.subs.push((s.topic.clone(), *id as u32));
                                assert(subs_view(self.subs@) =~= subs_view(before).push((s.topic@, *id as u32)));
                            }
                        },
                        _ => {},
                    }
                }
                assert(closed(*req) is None);
            },
            Some(RequestData::Unsubscribe(u)) => {
                self.remove(&u.topic, u.id);
            },
            _ => {},
        }
    }

    fn remove(&mut self, topic: &String, id: u32)
        ensures
            final(self).spec_state() == old(self).spec_state(),
            final(self).buffered() == old(self).buffered(),
            final(self).held() == without(old(self).held(), Some((topic@, id))),
    {
        let mut kept: Vec<(String, u32)> = Vec::new();
        let mut i: usize = 0;
        let ghost all = subs_view(self.subs@);
        let ghost target = (topic@, id);
        while i < self.subs.len()
            invariant
                i <= self.subs@.len(),
                all == subs_view(self.subs@),
                target == (topic@, id),
                subs_view(kept@) == all.subrange(0, i as int).filter(other_than(target)),
            decreases self.subs@.len() - i,
        {
            let ghost prev = kept@;
            let keep = !(self.subs[i].1 == id && self.subs[i].0 == *topic);
            if keep {
                kept.push((self.subs[i].0.clone(), self.subs[i].1));
            }
            proof {
                let sub = all.subrange(0, i + 1);
                let f0 = all.subrange(0, i as int).filter(other_than(target));
                assert(sub.len() == i + 1);
                assert(sub.drop_last() =~= all.subrange(0, i as int));
                assert(sub.last() == all[i as int]);
                assert(all[i as int] == (self.subs@[i as int].0@, self.subs@[i as int].1));
                assert(keep == (all[i as int] != target));
                reveal(Seq::filter);
                assert(other_than(target)(all[i as int]) == (all[i as int] != target));
                if keep {
                    assert(subs_view(kept@) =~= subs_view(prev).push(all[i as int]));
                    assert(sub.filter(other_than(target)) == f0.push(all[i as int]));
                } else {
                    assert(sub.filter(other_than(target)) == f0);
                }
            }
            i = i + 1;
        }
        assert(all.subrange(0, i as int) =~= all);
        self.subs = kept;
    }
}

/// A frame that declares more than `MAX_FRAME` bytes fails with `FrameError`, and once
/// its declared body has passed, a valid frame that follows decodes to its payload and
/// leaves the bytes after it for later.
pub proof fn lemma_oversized_frame_skipped(len: u32, junk: Seq<u8>, p: Seq<u8>, f: Seq<u8>, rest: Seq<u8>)
    requires
        MAX_FRAME < len < COMPRESSION_BIT,
        junk.len() == len,
        encodes(p, f),
    ensures
        step(be32(len) + junk + f + rest, 0).0 is TooLong,
        step(step(be32(len) + junk + f + rest, 0).1, step(be32(len) + junk + f + rest, 0).2) == (
            Decoded::Frame(p),
            rest,
            0nat,
        ),
{
    let buf = be32(len) + junk + f + rest;
    assert(discard(buf, 0).0 =~= buf);
    assert(buf.subrange(0, 4) =~= be32(len));
    crate::frame::lemma_be32_round_trip(len);
    assert(declared_len(len) == len) by (bit_vector)
        requires
            len < 0x8000_0000u32,
    ;
    let after = buf.subrange(4, buf.len() as int);
    assert(after.subrange(len as int, after.len() as int) =~= f + rest);
    lemma_frame_round_trip(p, f, rest);
    assert(discard(f + rest, 0).0 =~= f + rest);
}

/// `held` with the subscription `o`, if any, added at the end.
pub open spec fn with(held: Seq<(Seq<char>, u32)>, o: Option<(Seq<char>, u32)>) -> Seq<(Seq<char>, u32)> {
    match o {
        Some(p) => held.push(p),
        None => held,
    }
}

/// Whether a subscription is not `p`.
pub open spec fn other_than(p: (Seq<char>, u32)) -> spec_fn((Seq<char>, u32)) -> bool {
    |q: (Seq<char>, u32)| q != p
}

/// `held` without every entry equal to `c`, if any.
pub open spec fn without(held: Seq<(Seq<char>, u32)>, c: Option<(Seq<char>, u32)>) -> Seq<(Seq<char>, u32)> {
    match c {
        Some(p) => held.filter(other_than(p)),
        None => held,
    }
}

} // verus!
