//! An unbounded multi-producer channel: senders queue items, one receiver takes them
//! in order; either side learns when the other is gone.
use std::collections::VecDeque;
use std::sync::Arc;
use vstd::prelude::*;
use vstd::rwlock::{RwLock, RwLockPredicate};

verus! {

/// Why a channel operation did not go through.
#[derive(Clone, Copy, Debug, PartialEq, Eq, Structural)]
pub enum ChannelError {
    /// Every receiver is gone: nothing sent would be read.
    NoReceivers,
    /// Nothing is queued and every sender is gone: nothing more will come.
    NoSenders,
    /// Nothing is queued yet; senders remain, so the caller may try again.
    Empty,
}

/// Relies on std's `Arc::strong_count`: how many `Arc`s share `a`'s allocation. The
/// count includes `a` itself.
#[verifier::external_body]
fn handles(a: &Arc<()>) -> (r: usize)
    ensures
        r >= 1,
{
    Arc::strong_count(a)
}

/// Queues `t` behind `queue`, unless no receiver is left.
pub fn push_item<T>(queue: &mut VecDeque<T>, t: T, receivers: usize) -> (r: Result<(), ChannelError>)
    ensures
        receivers == 0 ==> r == Err::<(), ChannelError>(ChannelError::NoReceivers) && final(queue)@
            == old(queue)@,
        receivers > 0 ==> r is Ok && final(queue)@ == old(queue)@.push(t),
{
    if receivers == 0 {
        return Err(ChannelError::NoReceivers);
    }
    queue.push_back(t);
    Ok(())
}

/// Takes the oldest item of `queue`; with none queued, tells whether more may come.
pub fn pop_item<T>(queue: &mut VecDeque<T>, senders: usize) -> (r: Result<T, ChannelError>)
    ensures
        old(queue)@.len() > 0 ==> r == Ok::<T, ChannelError>(old(queue)@[0]) && final(queue)@ == old(
            queue,
        )@.drop_first(),
        old(queue)@.len() == 0 ==> final(queue)@ == old(queue)@ && (if senders == 0 {
            r == Err::<T, ChannelError>(ChannelError::NoSenders)
        } else {
            r == Err::<T, ChannelError>(ChannelError::Empty)
        }),
{
    match queue.pop_front() {
        Some(t) => Ok(t),
        None => {
            if senders == 0 {
                Err(ChannelError::NoSenders)
            } else {
                Err(ChannelError::Empty)
            }
        },
    }
}

/// The state a channel's handles share: the queued items, oldest first, and one
/// token per side. Each handle holds a clone of its side's token, so a token's count,
/// less the one kept here, is how many handles of that side are alive.
pub struct Shared<T> {
    pub queue: VecDeque<T>,
    senders: Arc<()>,
    receivers: Arc<()>,
}

impl<T> Shared<T> {
    pub fn total_senders(&self) -> (r: usize) {
        handles(&self.senders) - 1
    }

    pub fn total_receivers(&self) -> (r: usize) {
        handles(&self.receivers) - 1
    }
}

/// The lock around a channel's shared state holds no further invariant.
pub struct ChannelPred;

impl<T> RwLockPredicate<Shared<T>> for ChannelPred {
    open spec fn inv(self, v: Shared<T>) -> bool {
        true
    }
}

/// The sending side; clones share the channel and count as further senders.
pub struct Sender<T> {
    shared: Arc<RwLock<Shared<T>, ChannelPred>>,
    token: Arc<()>,
}

/// The receiving side. Items it took from the shared queue in one go wait in `cache`.
pub struct Receiver<T> {
    shared: Arc<RwLock<Shared<T>, ChannelPred>>,
    token: Arc<()>,
    pub cache: VecDeque<T>,
}

/// A channel without a bound on what may be queued.
pub fn unbounded<T>() -> (r: (Sender<T>, Receiver<T>))
    ensures
        r.1.cached().len() == 0,
{
    let senders = Arc::new(());
    let receivers = Arc::new(());
    let state = Shared { queue: VecDeque::new(), senders: senders.clone(), receivers: receivers.clone() };
    let shared = Arc::new(RwLock::new(state, Ghost(ChannelPred)));
    (
        Sender { shared: shared.clone(), token: senders },
        Receiver { shared, token: receivers, cache: VecDeque::new() },
    )
}

impl<T> Sender<T> {
    /// Queues `t`; fails once no receiver is left.
    pub fn send(&mut self, t: T) -> (r: Result<(), ChannelError>)
        ensures
            r matches Err(e) ==> e == ChannelError::NoReceivers,
    {
        let (mut state, handle) = self.shared.acquire_write();
        let receivers = state.total_receivers();
        let r = push_item(&mut state.queue, t, receivers);
        handle.release_write(state);
        r
    }

    /// How many items wait in the shared queue.
    pub fn total_queued_items(&self) -> (r: usize) {
        let handle = self.shared.acquire_read();
        let n = handle.borrow().queue.len();
        handle.release_read();
        n
    }

    pub fn total_receivers(&self) -> (r: usize) {
        let handle = self.shared.acquire_read();
        let n = handle.borrow().total_receivers();
        handle.release_read();
        n
    }
}

impl<T> Clone for Sender<T> {
    /// Another sender on the same channel.
    fn clone(&self) -> (r: Self) {
        Sender { shared: self.shared.clone(), token: self.token.clone() }
    }
}

impl<T> Receiver<T> {
    /// The items waiting in the cache, oldest first.
    pub closed spec fn cached(&self) -> Seq<T> {
        self.cache@
    }

    /// Takes the oldest item. Items already moved to the cache come first; otherwise the
    /// oldest item of the shared queue is taken and the rest of the queue is moved to the
    /// cache at once. Does not wait: with nothing queued it reports `Empty` while senders
    /// remain and `NoSenders` after.
    pub fn recv(&mut self) -> (r: Result<T, ChannelError>)
        ensures
            old(self).cached().len() > 0 ==> r == Ok::<T, ChannelError>(old(self).cached()[0])
                && final(self).cached() == old(self).cached().drop_first(),
            r matches Err(e) ==> old(self).cached().len() == 0 && final(self).cached().len() == 0 && (e
                == ChannelError::NoSenders || e == ChannelError::Empty),
    {
        if let Some(t) = self.cache.pop_front() {
            return Ok(t);
        }
        let (mut state, handle) = self.shared.acquire_write();
        let senders = state.total_senders();
        let r = pop_item(&mut state.queue, senders);
        if r.is_ok() && state.queue.len() > 0 {
            std::mem::swap(&mut self.cache, &mut state.queue);
        }
        handle.release_write(state);
        r
    }

    pub fn total_senders(&self) -> (r: usize) {
        let handle = self.shared.acquire_read();
        let n = handle.borrow().total_senders();
        handle.release_read();
        n
    }
}

} // verus!
