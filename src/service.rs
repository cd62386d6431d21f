//! The request pipeline: observers, dispatch, editing hooks.
use vstd::prelude::*;

use crate::command::{dispatch, dispatches, is_streaming, check_streaming};
use crate::pb::{CommandRequest, CommandResponse, ResponseView};
use crate::storage::Storage;
use crate::topic::{dispatch_stream, streams, Broadcaster, TopicView};

verus! {

/// Calls each observer once, in registration order.
pub trait Notify<Arg> {
    spec fn accepts_all(&self) -> bool;

    fn notify(&self, arg: &Arg)
        requires
            self.accepts_all(),
    ;
}

/// Runs each editing hook once, in registration order, each on what the one before made.
pub trait NotifyMut<Arg> {
    spec fn accepts_all(&self) -> bool;

    spec fn applied(&self, start: Arg, end: Arg) -> bool;

    fn notify(&self, arg: Arg) -> (r: Arg)
        requires
            self.accepts_all(),
        ensures
            self.applied(arg, r),
    ;
}

impl<F: Fn(&CommandRequest)> Notify<CommandRequest> for Vec<F> {
    open spec fn accepts_all(&self) -> bool {
        forall|i: int, a: &CommandRequest| 0 <= i < self@.len() ==> #[trigger] call_requires(self@[i], (a,))
    }

    fn notify(&self, arg: &CommandRequest) {
        let mut i: usize = 0;
        while i < self.len()
            invariant
                self.accepts_all(),
            decreases self@.len() - i,
        {
            (self[i])(arg);
            i = i + 1;
        }
    }
}

impl<F: Fn(&CommandResponse)> Notify<CommandResponse> for Vec<F> {
    open spec fn accepts_all(&self) -> bool {
        forall|i: int, a: &CommandResponse| 0 <= i < self@.len() ==> #[trigger] call_requires(self@[i], (a,))
    }

    fn notify(&self, arg: &CommandResponse) {
        let mut i: usize = 0;
        while i < self.len()
            invariant
                self.accepts_all(),
            decreases self@.len() - i,
        {
            (self[i])(arg);
            i = i + 1;
        }
    }
}

/// `trace` runs through `hooks` in order: each response is what the hook before it made
/// of the one before.
pub open spec fn chained<B: Fn(CommandResponse) -> CommandResponse>(
    hooks: Seq<B>,
    trace: Seq<CommandResponse>,
) -> bool {
    &&& trace.len() == hooks.len() + 1
    &&& forall|i: int| 0 <= i < hooks.len() ==> #[trigger] call_ensures(hooks[i], (trace[i],), trace[i + 1])
}

/// `end` is what applying each of `hooks` once, in order, makes of `start`.
pub open spec fn applied_all<B: Fn(CommandResponse) -> CommandResponse>(
    hooks: Seq<B>,
    start: CommandResponse,
    end: CommandResponse,
) -> bool {
    exists|trace: Seq<CommandResponse>| chained(hooks, trace) && trace[0] == start && trace.last() == end
}

impl<B: Fn(CommandResponse) -> CommandResponse> NotifyMut<CommandResponse> for Vec<B> {
    open spec fn accepts_all(&self) -> bool {
        forall|i: int, a: CommandResponse| 0 <= i < self@.len() ==> #[trigger] call_requires(self@[i], (a,))
    }

    open spec fn applied(&self, start: CommandResponse, end: CommandResponse) -> bool {
        applied_all(self@, start, end)
    }

    fn notify(&self, arg: CommandResponse) -> (r: CommandResponse) {
        let mut cur = arg;
        let mut i: usize = 0;
        let ghost mut trace: Seq<CommandResponse> = seq![arg];
        while i < self.len()
            invariant
                i <= self@.len(),
                self.accepts_all(),
                chained(self@.subrange(0, i as int), trace),
                trace[0] == arg,
                trace.last() == cur,
            decreases self@.len() - i,
        {
            cur = (self[i])(cur);
            proof {
                let old_trace = trace;
                trace = trace.push(cur);
                let hs = self@.subrange(0, i + 1);
                assert forall|j: int| 0 <= j < hs.len() implies #[trigger] call_ensures(
                    hs[j],
                    (trace[j],),
                    trace[j + 1],
                ) by {
                    if j < i {
                        assert(hs[j] == self@.subrange(0, i as int)[j]);
                        assert(call_ensures(
                            self@.subrange(0, i as int)[j],
                            (old_trace[j],),
                            old_trace[j + 1],
                        ));
                    }
                }
            }
            i = i + 1;
        }
        assert(self@.subrange(0, i as int) =~= self@);
        cur
    }
}

/// A hook that sets the status of every response it sees to `status`, and changes
/// nothing else.
pub open spec fn sets_status<B: Fn(CommandResponse) -> CommandResponse>(hook: B, status: u32) -> bool {
    forall|a: CommandResponse, b: CommandResponse| #[trigger] call_ensures(hook, (a,), b) ==> b == (
    CommandResponse { status, ..a })
}

/// With one editing hook that overwrites the status, the response a caller sees is the
/// dispatched response with that status: the hook ran exactly once.
pub proof fn lemma_status_hook_applies_once<B: Fn(CommandResponse) -> CommandResponse>(
    hook: B,
    status: u32,
    start: CommandResponse,
    end: CommandResponse,
)
    requires
        sets_status(hook, status),
        applied_all(seq![hook], start, end),
    ensures
        end == (CommandResponse { status, ..start }),
{
    let trace = choose|trace: Seq<CommandResponse>|
        chained(seq![hook], trace) && trace[0] == start && trace.last() == end;
    assert(call_ensures(seq![hook][0], (trace[0],), trace[1]));
}

/// The dispatch pipeline: one store, one broadcaster, and four ordered hook lists.
pub struct Service<R, E, B, A> {
    store: Storage,
    broadcaster: Broadcaster,
    on_received: Vec<R>,
    on_executed: Vec<E>,
    on_before_send: Vec<B>,
    on_after_send: Vec<A>,
}

impl<
    R: Fn(&CommandRequest),
    E: Fn(&CommandResponse),
    B: Fn(CommandResponse) -> CommandResponse,
    A: Fn(),
> Service<R, E, B, A> {
    pub closed spec fn wf(&self) -> bool {
        &&& self.store.wf()
        &&& self.broadcaster.wf()
        &&& self.on_received.accepts_all()
        &&& self.on_executed.accepts_all()
        &&& self.on_before_send.accepts_all()
        &&& forall|i: int| 0 <= i < self.on_after_send@.len() ==> #[trigger] call_requires(
            self.on_after_send@[i],
            (),
        )
    }

    pub closed spec fn spec_store(&self) -> Storage {
        self.store
    }

    pub closed spec fn spec_topics(&self) -> TopicView {
        self.broadcaster@
    }

    /// The id the next subscription gets.
    pub closed spec fn spec_next_id(&self) -> u32 {
        self.broadcaster.spec_next_id()
    }

    pub closed spec fn spec_before_send(&self) -> Seq<B> {
        self.on_before_send@
    }

    pub fn new(store: Storage) -> (r: Self)
        requires
            store.wf(),
        ensures
            r.wf(),
            r.spec_store() == store,
            r.spec_topics() == Map::<(Seq<char>, u32), Seq<ResponseView>>::empty(),
            r.spec_before_send().len() == 0,
    {
        Service {
            store,
            broadcaster: Broadcaster::new(),
            on_received: Vec::new(),
            on_executed: Vec::new(),
            on_before_send: Vec::new(),
            on_after_send: Vec::new(),
        }
    }

    pub fn fn_received(self, f: R) -> (r: Self)
        requires
            self.wf(),
            forall|a: &CommandRequest| #[trigger] call_requires(f, (a,)),
        ensures
            r.wf(),
            r.spec_store() == self.spec_store(),
            r.spec_topics() == self.spec_topics(),
            r.spec_before_send() == self.spec_before_send(),
    {
        let mut s = self;
        s.on_received.push(f);
        s
    }

    pub fn fn_executed(self, f: E) -> (r: Self)
        requires
            self.wf(),
            forall|a: &CommandResponse| #[trigger] call_requires(f, (a,)),
        ensures
            r.wf(),
            r.spec_store() == self.spec_store(),
            r.spec_topics() == self.spec_topics(),
            r.spec_before_send() == self.spec_before_send(),
    {
        let mut s = self;
        s.on_executed.push(f);
        s
    }

    /// Registers a hook that may edit each storage response before it is sent.
    pub fn fn_before_send(self, f: B) -> (r: Self)
        requires
            self.wf(),
            forall|a: CommandResponse| #[trigger] call_requires(f, (a,)),
        ensures
            r.wf(),
            r.spec_store() == self.spec_store(),
            r.spec_topics() == self.spec_topics(),
            r.spec_before_send() == self.spec_before_send().push(f),
    {
        let mut s = self;
        s.on_before_send.push(f);
        s
    }

    pub fn fn_after_send(self, f: A) -> (r: Self)
        requires
            self.wf(),
            call_requires(f, ()),
        ensures
            r.wf(),
            r.spec_store() == self.spec_store(),
            r.spec_topics() == self.spec_topics(),
            r.spec_before_send() == self.spec_before_send(),
    {
        let mut s = self;
        s.on_after_send.push(f);
        s
    }

    /// Runs the hooks that follow the sending of a response.
    pub fn sent(&self)
        requires
            self.wf(),
    {
        let mut i: usize = 0;
        while i < self.on_after_send.len()
            invariant
                self.wf(),
            decreases self.on_after_send@.len() - i,
        {
            (self.on_after_send[i])();
            i = i + 1;
        }
    }

    /// Serves one request. A storage command yields one response: it is dispatched to
    /// the store, shown to the observers, and then passed once through each editing hook
    /// in order. A publish/subscribe command is served by the broadcaster; a subscribe
    /// yields the new subscription's id as its first delivery.
    pub fn execute(&mut self, cmd: CommandRequest) -> (r: Vec<CommandResponse>)
        requires
            old(self).wf(),
        ensures
            final(self).wf(),
            final(self).spec_before_send() == old(self).spec_before_send(),
            final(self).spec_store().same_backend(&old(self).spec_store()),
            !is_streaming(cmd) ==> r@.len() == 1 && final(self).spec_topics() == old(self).spec_topics(),
            !is_streaming(cmd) ==> exists|d: CommandResponse|
                #[trigger] applied_all(old(self).spec_before_send(), d, r@[0]) && (
                old(self).spec_store().model() matches Some(m) ==> final(self).spec_store().model() matches Some(
                    m2,
                ) && dispatches(cmd, m, d@, m2)),
            !is_streaming(cmd) && old(self).spec_before_send().len() == 0 ==> (
            old(self).spec_store().model() matches Some(m) ==> final(self).spec_store().model() matches Some(
                m2,
            ) && dispatches(cmd, m, r@[0]@, m2)),
            final(self).spec_next_id() >= old(self).spec_next_id(),
            is_streaming(cmd) ==> final(self).spec_store() == old(self).spec_store() && streams(
                cmd,
                old(self).spec_topics(),
                old(self).spec_next_id(),
                r@,
                final(self).spec_topics(),
            ),
    {
        self.on_received.notify(&cmd);
        if check_streaming(&cmd) {
            dispatch_stream(cmd, &mut self.broadcaster)
        } else {
            let res = dispatch(cmd, &mut self.store);
            self.on_executed.notify(&res);
            let ghost d = res;
            let out = self.on_before_send.notify(res);
            proof {
                assert(applied_all(self.on_before_send@, d, out));
                if self.on_before_send@.len() == 0 {
                    let trace = choose|trace: Seq<CommandResponse>|
                        chained(self.on_before_send@, trace) && trace[0] == d && trace.last() == out;
                    assert(trace.len() == 1);
                }
            }
            let ghost o = out;
            let mut v = Vec::new();
            v.push(out);
            assert(v@[0] == o);
            assert(applied_all(old(self).on_before_send@, d, v@[0]));
            v
        }
    }

    /// Hands over what has been published to a subscription since it was last polled.
    pub fn poll_subscription(&mut self, topic: &str, id: u32) -> (r: Vec<CommandResponse>)
        requires
            old(self).wf(),
        ensures
            final(self).wf(),
            final(self).spec_store() == old(self).spec_store(),
            final(self).spec_before_send() == old(self).spec_before_send(),
            old(self).spec_topics().contains_key((topic@, id)) ==> crate::topic::mailbox_view(r@)
                == old(self).spec_topics()[(topic@, id)] && final(self).spec_topics() == old(
                self,
            ).spec_topics().insert((topic@, id), Seq::empty()),
            !old(self).spec_topics().contains_key((topic@, id)) ==> r@.len() == 0
                && final(self).spec_topics() == old(self).spec_topics(),
    {
        self.broadcaster.take(topic, id)
    }
}

} // verus!
