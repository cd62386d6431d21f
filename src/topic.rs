//! Publish/subscribe: topics, subscriber mailboxes, and the commands that use them.
use vstd::prelude::*;

use vstd::string::StringExecFns;

use crate::command::is_streaming;
use crate::error::KvError;
use crate::pb::{
    bool_response, values_response, values_view, CommandRequest, CommandResponse, Publish,
    RequestData, ResponseView, Subscribe, Unsubscribe, Value, ValueView, STATUS_INTERNAL_SERVER_ERROR,
};

verus! {

/// The most deliveries a subscriber's mailbox holds; a publish that finds a mailbox
/// full is not delivered to that subscriber, and never blocks the others.
pub const MAILBOX_CAPACITY: usize = 128;

/// What the subscribers of each (topic, id) have waiting, oldest first.
pub type TopicView = Map<(Seq<char>, u32), Seq<ResponseView>>;

/// The first delivery of a subscription: its id.
pub open spec fn id_response(id: u32) -> ResponseView {
    values_response(seq![ValueView::Integer(id as i64)])
}

/// One publish: every subscriber of `topic` with room gets `msg` at the end of its mailbox.
pub open spec fn publish_spec(v: TopicView, topic: Seq<char>, msg: ResponseView) -> TopicView {
    Map::new(
        |k: (Seq<char>, u32)| v.contains_key(k),
        |k: (Seq<char>, u32)|
            if k.0 == topic && v[k].len() < MAILBOX_CAPACITY {
                v[k].push(msg)
            } else {
                v[k]
            },
    )
}

/// Several publishes to `topic`, in order.
pub open spec fn publish_all(v: TopicView, topic: Seq<char>, msgs: Seq<ResponseView>) -> TopicView
    decreases msgs.len(),
{
    if msgs.len() == 0 {
        v
    } else {
        publish_spec(publish_all(v, topic, msgs.drop_last()), topic, msgs.last())
    }
}

/// Every publish to a topic, issued while a subscriber is registered and has room,
/// reaches that subscriber once, in publish order, after what already waited for it.
pub proof fn lemma_publishes_reach_subscriber(
    v: TopicView,
    topic: Seq<char>,
    id: u32,
    msgs: Seq<ResponseView>,
)
    requires
        v.contains_key((topic, id)),
        v[(topic, id)].len() + msgs.len() <= MAILBOX_CAPACITY,
    ensures
        publish_all(v, topic, msgs).contains_key((topic, id)),
        publish_all(v, topic, msgs)[(topic, id)] == v[(topic, id)] + msgs,
    decreases msgs.len(),
{
    if msgs.len() == 0 {
        assert(v[(topic, id)] + msgs =~= v[(topic, id)]);
    } else {
        let prefix = msgs.drop_last();
        lemma_publishes_reach_subscriber(v, topic, id, prefix);
        assert(v[(topic, id)] + msgs =~= (v[(topic, id)] + prefix).push(msgs.last()));
    }
}

/// A subscription that is not registered (never made, or removed by unsubscribe)
/// receives none of the publishes that follow.
pub proof fn lemma_unsubscribed_receives_nothing(
    v: TopicView,
    topic: Seq<char>,
    id: u32,
    msgs: Seq<ResponseView>,
)
    requires
        !v.contains_key((topic, id)),
    ensures
        !publish_all(v, topic, msgs).contains_key((topic, id)),
    decreases msgs.len(),
{
    if msgs.len() > 0 {
        lemma_unsubscribed_receives_nothing(v, topic, id, msgs.drop_last());
    }
}

/// Publishes to a topic leave the subscribers of every other topic as they were.
pub proof fn lemma_other_topics_untouched(
    v: TopicView,
    topic: Seq<char>,
    other: Seq<char>,
    id: u32,
    msgs: Seq<ResponseView>,
)
    requires
        other != topic,
    ensures
        publish_all(v, topic, msgs).contains_key((other, id)) == v.contains_key((other, id)),
        v.contains_key((other, id)) ==> publish_all(v, topic, msgs)[(other, id)] == v[(other, id)],
    decreases msgs.len(),
{
    if msgs.len() > 0 {
        lemma_other_topics_untouched(v, topic, other, id, msgs.drop_last());
    }
}

/// One subscriber and what waits for it.
pub struct Subscription {
    pub topic: String,
    pub id: u32,
    pub mailbox: Vec<CommandResponse>,
}

pub open spec fn sub_at(s: Seq<Subscription>, i: int, topic: Seq<char>, id: u32) -> bool {
    0 <= i < s.len() && s[i].topic@ == topic && s[i].id == id
}

pub open spec fn mailbox_view(m: Seq<CommandResponse>) -> Seq<ResponseView> {
    m.map_values(|r: CommandResponse| r@)
}

pub open spec fn subs_view(s: Seq<Subscription>) -> TopicView {
    Map::new(
        |k: (Seq<char>, u32)| exists|i: int| sub_at(s, i, k.0, k.1),
        |k: (Seq<char>, u32)| mailbox_view(s[choose|i: int| sub_at(s, i, k.0, k.1)].mailbox@),
    )
}

pub open spec fn subs_unique(s: Seq<Subscription>) -> bool {
    forall|i: int, j: int|
        0 <= i < s.len() && 0 <= j < s.len() && #[trigger] s[i].topic@ == #[trigger] s[j].topic@
            && s[i].id == s[j].id ==> i == j
}

proof fn lemma_sub_in_view(s: Seq<Subscription>, i: int)
    requires
        subs_unique(s),
        0 <= i < s.len(),
    ensures
        subs_view(s).contains_key((s[i].topic@, s[i].id)),
        subs_view(s)[(s[i].topic@, s[i].id)] == mailbox_view(s[i].mailbox@),
{
    let k = (s[i].topic@, s[i].id);
    assert(sub_at(s, i, k.0, k.1));
    let j = choose|j: int| sub_at(s, j, k.0, k.1);
    assert(s[j].topic@ == s[i].topic@);
}

/// Two lists of subscriptions with the same (topic, id) at each place.
pub open spec fn same_keys(a: Seq<Subscription>, b: Seq<Subscription>) -> bool {
    &&& a.len() == b.len()
    &&& forall|i: int| 0 <= i < a.len() ==> #[trigger] a[i].topic@ == b[i].topic@ && a[i].id == b[i].id
}

proof fn lemma_same_keys_view(a: Seq<Subscription>, b: Seq<Subscription>)
    requires
        subs_unique(a),
        same_keys(a, b),
    ensures
        subs_unique(b),
        subs_view(b).dom() == subs_view(a).dom(),
        forall|i: int| 0 <= i < b.len() ==> subs_view(b)[(#[trigger] b[i].topic@, b[i].id)]
            == mailbox_view(b[i].mailbox@),
{
    assert(subs_unique(b)) by {
        assert forall|i: int, j: int|
            0 <= i < b.len() && 0 <= j < b.len() && #[trigger] b[i].topic@ == #[trigger] b[j].topic@
                && b[i].id == b[j].id implies i == j by {
            assert(a[i].topic@ == b[i].topic@);
            assert(a[j].topic@ == b[j].topic@);
        }
    }
    assert forall|k: (Seq<char>, u32)| subs_view(b).dom().contains(k) == subs_view(a).dom().contains(k) by {
        if exists|i: int| sub_at(b, i, k.0, k.1) {
            let i = choose|i: int| sub_at(b, i, k.0, k.1);
            assert(a[i].topic@ == b[i].topic@);
            assert(sub_at(a, i, k.0, k.1));
        }
        if exists|i: int| sub_at(a, i, k.0, k.1) {
            let i = choose|i: int| sub_at(a, i, k.0, k.1);
            assert(a[i].topic@ == b[i].topic@);
            assert(sub_at(b, i, k.0, k.1));
        }
    }
    assert(subs_view(b).dom() =~= subs_view(a).dom());
    assert forall|i: int| 0 <= i < b.len() implies subs_view(b)[(#[trigger] b[i].topic@, b[i].id)]
        == mailbox_view(b[i].mailbox@) by {
        lemma_sub_in_view(b, i);
    }
}

/// The registry of topics and their subscribers. Ids come from one counter, so no id
/// is handed out twice.
pub struct Broadcaster {
    subs: Vec<Subscription>,
    next_id: u32,
}

impl View for Broadcaster {
    type V = TopicView;

    closed spec fn view(&self) -> TopicView {
        subs_view(self.subs@)
    }
}

/// Copies a list of values.
pub fn clone_values(v: &Vec<Value>) -> (r: Vec<Value>)
    ensures
        values_view(r@) == values_view(v@),
{
    let mut r: Vec<Value> = Vec::new();
    let mut i: usize = 0;
    while i < v.len()
        invariant
            i <= v@.len(),
            r@.len() == i,
            values_view(r@) =~= values_view(v@).subrange(0, i as int),
        decreases v@.len() - i,
    {
        let ghost old_r = r@;
        r.push(v[i].clone());
        proof {
            assert(r@ =~= old_r.push(r@[i as int]));
            assert(values_view(r@) =~= values_view(old_r).push(r@[i as int]@));
            assert(values_view(v@).subrange(0, i + 1) =~= values_view(v@).subrange(0, i as int).push(v@[i as int]@));
        }
        i = i + 1;
    }
    assert(values_view(v@).subrange(0, i as int) =~= values_view(v@));
    r
}

impl Broadcaster {
    pub closed spec fn wf(&self) -> bool {
        &&& subs_unique(self.subs@)
        &&& forall|i: int| 0 <= i < self.subs@.len() ==> #[trigger] self.subs@[i].id < self.next_id
        &&& forall|i: int|
            0 <= i < self.subs@.len() ==> (#[trigger] self.subs@[i]).mailbox@.len() <= MAILBOX_CAPACITY
    }

    /// The id the next subscription gets.
    pub closed spec fn spec_next_id(&self) -> u32 {
        self.next_id
    }

    pub fn new() -> (r: Self)
        ensures
            r.wf(),
            r@ == Map::<(Seq<char>, u32), Seq<ResponseView>>::empty(),
            r.spec_next_id() == 0,
    {
        let r = Broadcaster { subs: Vec::new(), next_id: 0 };
        assert(r@ =~= Map::<(Seq<char>, u32), Seq<ResponseView>>::empty());
        r
    }

    fn find(&self, topic: &String, id: u32) -> (r: Option<usize>)
        requires
            self.wf(),
        ensures
            match r {
                Some(i) => sub_at(self.subs@, i as int, topic@, id),
                None => !self@.contains_key((topic@, id)),
            },
    {
        let mut i: usize = 0;
        while i < self.subs.len()
            invariant
                i <= self.subs@.len(),
                forall|j: int| 0 <= j < i ==> !sub_at(self.subs@, j, topic@, id),
            decreases self.subs@.len() - i,
        {
            if self.subs[i].id == id && self.subs[i].topic == *topic {
                return Some(i);
            }
            i = i + 1;
        }
        None
    }

    /// Whether `id` is a live subscription of `topic`.
    pub fn is_subscribed(&self, topic: &str, id: u32) -> (r: bool)
        requires
            self.wf(),
        ensures
            r == self@.contains_key((topic@, id)),
    {
        let t = topic.to_owned();
        match self.find(&t, id) {
            Some(i) => {
                proof {
                    lemma_sub_in_view(self.subs@, i as int);
                }
                true
            },
            None => false,
        }
    }

    /// Registers a new subscriber of `topic`. Its id, never handed out before, is the
    /// first thing in its mailbox. `None` once every id has been handed out.
    pub fn subscribe(&mut self, topic: &str) -> (r: Option<u32>)
        requires
            old(self).wf(),
        ensures
            final(self).wf(),
            final(self).spec_next_id() >= old(self).spec_next_id(),
            old(self).spec_next_id() == u32::MAX ==> r is None && final(self)@ == old(self)@,
            old(self).spec_next_id() < u32::MAX ==> r == Some(old(self).spec_next_id())
                && final(self).spec_next_id() == old(self).spec_next_id() + 1,
            r matches Some(id) ==> !old(self)@.contains_key((topic@, id)) && final(self)@ == old(
                self,
            )@.insert((topic@, id), seq![id_response(id)]),
    {
        if self.next_id == u32::MAX {
            return None;
        }
        let id = self.next_id;
        let ghost old_subs = self.subs@;
        let mut first = Vec::new();
        first.push(Value::Integer(id as i64));
        let resp = CommandResponse::from_values(first);
        assert(resp@ == id_response(id)) by {
            assert(values_view(first@) =~= seq![ValueView::Integer(id as i64)]);
        }
        let mut mailbox = Vec::new();
        mailbox.push(resp);
        proof {
            assert(mailbox_view(mailbox@) =~= seq![id_response(id)]);
            if old(self)@.contains_key((topic@, id)) {
                let j = choose|j: int| sub_at(old_subs, j, topic@, id);
                assert(old_subs[j].id < id);
            }
        }
        self.subs.push(Subscription { topic: topic.to_owned(), id, mailbox });
        self.next_id = id + 1;
        proof {
            let s = self.subs@;
            let n = old_subs.len() as int;
            assert(s =~= old_subs.push(s[n]));
            assert(subs_unique(old_subs));
            assert(subs_unique(s)) by {
                assert forall|a: int, b: int|
                    0 <= a < s.len() && 0 <= b < s.len() && #[trigger] s[a].topic@ == #[trigger] s[b].topic@
                        && s[a].id == s[b].id implies a == b by {
                    assert(s[n].id == id);
                    if a != b && (a == n || b == n) {
                        let o = if a == n { b } else { a };
                        assert(s[o] == old_subs[o]);
                        assert(old_subs[o].id < id);
                    } else if a != n && b != n {
                        assert(s[a] == old_subs[a]);
                        assert(s[b] == old_subs[b]);
                        assert(old_subs[a].topic@ == old_subs[b].topic@ && old_subs[a].id == old_subs[b].id);
                    }
                }
            }
            assert forall|i: int| 0 <= i < s.len() implies #[trigger] s[i].id < self.next_id by {
                if i < n {
                    assert(s[i] == old_subs[i]);
                }
            }
            assert forall|i: int| 0 <= i < s.len() implies (#[trigger] s[i]).mailbox@.len() <= MAILBOX_CAPACITY by {
                if i < n {
                    assert(s[i] == old_subs[i]);
                }
            }
            let target = subs_view(old_subs).insert((topic@, id), seq![id_response(id)]);
            assert forall|k: (Seq<char>, u32)| #[trigger] subs_view(s).contains_key(k) == target.contains_key(k) by {
                if k == (topic@, id) {
                    assert(sub_at(s, n, k.0, k.1));
                } else {
                    if exists|j: int| sub_at(s, j, k.0, k.1) {
                        let j = choose|j: int| sub_at(s, j, k.0, k.1);
                        assert(sub_at(old_subs, j, k.0, k.1));
                    }
                    if exists|j: int| sub_at(old_subs, j, k.0, k.1) {
                        let j = choose|j: int| sub_at(old_subs, j, k.0, k.1);
                        assert(sub_at(s, j, k.0, k.1));
                    }
                }
            }
            assert forall|k: (Seq<char>, u32)| #[trigger] subs_view(s).contains_key(k) implies subs_view(s)[k]
                == target[k] by {
                let j = choose|j: int| sub_at(s, j, k.0, k.1);
                lemma_sub_in_view(s, j);
                if k != (topic@, id) {
                    assert(sub_at(old_subs, j, k.0, k.1));
                    lemma_sub_in_view(old_subs, j);
                }
            }
            assert(subs_view(s) =~= target);
        }
        Some(id)
    }

    /// Removes a subscriber and whatever waited for it; nothing happens to an id that
    /// is not registered.
    pub fn unsubscribe(&mut self, topic: &str, id: u32) -> (r: bool)
        requires
            old(self).wf(),
        ensures
            final(self).wf(),
            r == old(self)@.contains_key((topic@, id)),
            final(self)@ == old(self)@.remove((topic@, id)),
            final(self).spec_next_id() == old(self).spec_next_id(),
    {
        let t = topic.to_owned();
        let ghost old_subs = self.subs@;
        match self.find(&t, id) {
            Some(i) => {
                proof {
                    lemma_sub_in_view(old_subs, i as int);
                }
                self.subs.remove(i);
                proof {
                    let s = self.subs@;
                    assert(s =~= old_subs.remove(i as int));
                    assert(subs_unique(s)) by {
                        assert forall|a: int, b: int|
                            0 <= a < s.len() && 0 <= b < s.len() && #[trigger] s[a].topic@
                                == #[trigger] s[b].topic@ && s[a].id == s[b].id implies a == b by {
                            let oa = if a < i { a } else { a + 1 };
                            let ob = if b < i { b } else { b + 1 };
                            assert(s[a] == old_subs[oa]);
                            assert(s[b] == old_subs[ob]);
                            assert(old_subs[oa].topic@ == old_subs[ob].topic@ && old_subs[oa].id == old_subs[ob].id);
                        }
                    }
                    assert forall|j: int| 0 <= j < s.len() implies #[trigger] s[j].id < self.next_id by {
                        let oj = if j < i { j } else { j + 1 };
                        assert(s[j] == old_subs[oj]);
                    }
                    assert forall|j: int| 0 <= j < s.len() implies (#[trigger] s[j]).mailbox@.len()
                        <= MAILBOX_CAPACITY by {
                        let oj = if j < i { j } else { j + 1 };
                        assert(s[j] == old_subs[oj]);
                    }
                    let target = subs_view(old_subs).remove((topic@, id));
                    assert forall|k: (Seq<char>, u32)| #[trigger] subs_view(s).contains_key(k)
                        == target.contains_key(k) by {
                        if exists|j: int| sub_at(s, j, k.0, k.1) {
                            let j = choose|j: int| sub_at(s, j, k.0, k.1);
                            let oj = if j < i { j } else { j + 1 };
                            assert(s[j] == old_subs[oj]);
                            assert(sub_at(old_subs, oj, k.0, k.1));
                        }
                        if k != (topic@, id) && exists|j: int| sub_at(old_subs, j, k.0, k.1) {
                            let j = choose|j: int| sub_at(old_subs, j, k.0, k.1);
                            let sj = if j < i { j } else { j - 1 };
                            assert(s[sj] == old_subs[j]);
                            assert(sub_at(s, sj, k.0, k.1));
                        }
                    }
                    assert forall|k: (Seq<char>, u32)| #[trigger] subs_view(s).contains_key(k) implies subs_view(
                        s,
                    )[k] == target[k] by {
                        let j = choose|j: int| sub_at(s, j, k.0, k.1);
                        lemma_sub_in_view(s, j);
                        let oj = if j < i { j } else { j + 1 };
                        assert(s[j] == old_subs[oj]);
                        lemma_sub_in_view(old_subs, oj);
                    }
                    assert(subs_view(s) =~= target);
                }
                true
            },
            None => {
                assert(self@ =~= self@.remove((t@, id)));
                false
            },
        }
    }

    /// Delivers `data` to every subscriber of `topic` whose mailbox has room.
    pub fn publish(&mut self, topic: &str, data: &Vec<Value>)
        requires
            old(self).wf(),
        ensures
            final(self).wf(),
            final(self)@ == publish_spec(old(self)@, topic@, values_response(values_view(data@))),
            final(self).spec_next_id() == old(self).spec_next_id(),
    {
        let ghost orig = self.subs@;
        let ghost msg = values_response(values_view(data@));
        let t = topic.to_owned();
        let mut i: usize = 0;
        while i < self.subs.len()
            invariant
                subs_unique(orig),
                same_keys(orig, self.subs@),
                self.next_id == old(self).next_id,
                msg == values_response(values_view(data@)),
                orig == old(self).subs@,
                t@ == topic@,
                i <= self.subs@.len(),
                forall|j: int| 0 <= j < self.subs@.len() ==> #[trigger] self.subs@[j].id < self.next_id,
                forall|j: int|
                    0 <= j < self.subs@.len() ==> (#[trigger] self.subs@[j]).mailbox@.len() <= MAILBOX_CAPACITY,
                forall|j: int| 0 <= j < self.subs@.len() ==> mailbox_view(#[trigger] self.subs@[j].mailbox@) == if j
                    < i && orig[j].topic@ == topic@ && orig[j].mailbox@.len() < MAILBOX_CAPACITY {
                    mailbox_view(orig[j].mailbox@).push(msg)
                } else {
                    mailbox_view(orig[j].mailbox@)
                },
                forall|j: int| 0 <= j < self.subs@.len() ==> self.subs@[j].mailbox@.len() == #[trigger] mailbox_view(self.subs@[j].mailbox@).len(),
            decreases self.subs@.len() - i,
        {
            if self.subs[i].topic == t && self.subs[i].mailbox.len() < MAILBOX_CAPACITY {
                let ghost before = self.subs@;
                let mut sub = self.subs.remove(i);
                let resp = CommandResponse::from_values(clone_values(data));
                let ghost old_mb = sub.mailbox@;
                let ghost rv = resp@;
                sub.mailbox.push(resp);
                assert(mailbox_view(sub.mailbox@) =~= mailbox_view(old_mb).push(rv));
                let ghost new_sub_mb = sub.mailbox@;
                self.subs.insert(i, sub);
                proof {
                    let s = self.subs@;
                    assert(s =~= before.update(i as int, s[i as int]));
                    assert(s[i as int].mailbox@ == new_sub_mb);
                    assert(rv == msg);
                    assert(mailbox_view(s[i as int].mailbox@) =~= mailbox_view(old_mb).push(msg));
                    assert forall|j: int| 0 <= j < orig.len() implies #[trigger] orig[j].topic@ == s[j].topic@
                        && orig[j].id == s[j].id by {
                        assert(before[j].topic@ == orig[j].topic@);
                    }
                    assert forall|j: int| 0 <= j < s.len() implies (#[trigger] s[j]).mailbox@.len()
                        <= MAILBOX_CAPACITY by {
                        if j != i {
                            assert(s[j] == before[j]);
                        }
                    }
                    assert forall|j: int| 0 <= j < s.len() implies #[trigger] s[j].id < self.next_id by {
                        if j != i {
                            assert(s[j] == before[j]);
                        }
                    }
                    assert forall|j: int| 0 <= j < s.len() implies s[j].mailbox@.len() == #[trigger] mailbox_view(s[j].mailbox@).len() by {
                        if j != i {
                            assert(s[j] == before[j]);
                        }
                    }
                    assert forall|j: int| 0 <= j < s.len() implies mailbox_view(#[trigger] s[j].mailbox@) == if j
                        < i + 1 && orig[j].topic@ == topic@ && orig[j].mailbox@.len() < MAILBOX_CAPACITY {
                        mailbox_view(orig[j].mailbox@).push(msg)
                    } else {
                        mailbox_view(orig[j].mailbox@)
                    } by {
                        if j != i {
                            assert(s[j] == before[j]);
                            assert(mailbox_view(before[j].mailbox@) == mailbox_view(s[j].mailbox@));
                        } else {
                            assert(before[j].topic@ == orig[j].topic@);
                            assert(mailbox_view(before[j].mailbox@).len() == before[j].mailbox@.len());
                            assert(mailbox_view(orig[j].mailbox@).len() == orig[j].mailbox@.len());
                        }
                    }
                }
            } else {
                proof {
                    let s = self.subs@;
                    assert(s[i as int].topic@ == orig[i as int].topic@);
                    assert(mailbox_view(orig[i as int].mailbox@).len() == orig[i as int].mailbox@.len());
                }
            }
            i = i + 1;
        }
        proof {
            let s = self.subs@;
            lemma_same_keys_view(orig, s);
            let target = publish_spec(subs_view(orig), topic@, msg);
            assert(subs_view(s).dom() =~= target.dom());
            assert forall|k: (Seq<char>, u32)| #[trigger] subs_view(s).contains_key(k) implies subs_view(s)[k]
                == target[k] by {
                let j = choose|j: int| sub_at(s, j, k.0, k.1);
                assert(orig[j].topic@ == s[j].topic@);
                assert(sub_at(orig, j, k.0, k.1));
                lemma_sub_in_view(orig, j);
                assert(subs_view(s)[(s[j].topic@, s[j].id)] == mailbox_view(s[j].mailbox@));
                assert(mailbox_view(orig[j].mailbox@).len() == orig[j].mailbox@.len());
            }
            assert(subs_view(s) =~= target);
        }
    }

    /// Hands over everything waiting for a subscriber, oldest first, and empties its
    /// mailbox; nothing for an id that is not registered.
    pub fn take(&mut self, topic: &str, id: u32) -> (r: Vec<CommandResponse>)
        requires
            old(self).wf(),
        ensures
            final(self).wf(),
            final(self).spec_next_id() == old(self).spec_next_id(),
            old(self)@.contains_key((topic@, id)) ==> mailbox_view(r@) == old(self)@[(topic@, id)]
                && final(self)@ == old(self)@.insert((topic@, id), Seq::empty()),
            !old(self)@.contains_key((topic@, id)) ==> r@.len() == 0 && final(self)@ == old(self)@,
    {
        let t = topic.to_owned();
        let ghost old_subs = self.subs@;
        match self.find(&t, id) {
            Some(i) => {
                proof {
                    lemma_sub_in_view(old_subs, i as int);
                }
                let sub = self.subs.remove(i);
                let out = sub.mailbox;
                self.subs.insert(i, Subscription { topic: sub.topic, id: sub.id, mailbox: Vec::new() });
                proof {
                    let s = self.subs@;
                    assert(s =~= old_subs.update(i as int, s[i as int]));
                    assert(same_keys(old_subs, s)) by {
                        assert forall|j: int| 0 <= j < old_subs.len() implies #[trigger] old_subs[j].topic@
                            == s[j].topic@ && old_subs[j].id == s[j].id by {
                            if j != i {
                                assert(s[j] == old_subs[j]);
                            }
                        }
                    }
                    lemma_same_keys_view(old_subs, s);
                    assert forall|j: int| 0 <= j < s.len() implies #[trigger] s[j].id < self.next_id by {
                        if j != i {
                            assert(s[j] == old_subs[j]);
                        }
                    }
                    assert forall|j: int| 0 <= j < s.len() implies (#[trigger] s[j]).mailbox@.len()
                        <= MAILBOX_CAPACITY by {
                        if j != i {
                            assert(s[j] == old_subs[j]);
                        }
                    }
                    let target = subs_view(old_subs).insert((topic@, id), Seq::empty());
                    assert(subs_view(s).dom() =~= target.dom());
                    assert forall|k: (Seq<char>, u32)| #[trigger] subs_view(s).contains_key(k) implies subs_view(
                        s,
                    )[k] == target[k] by {
                        let j = choose|j: int| sub_at(s, j, k.0, k.1);
                        assert(subs_view(s)[(s[j].topic@, s[j].id)] == mailbox_view(s[j].mailbox@));
                        if j == i {
                            assert(mailbox_view(s[j].mailbox@) =~= Seq::<ResponseView>::empty());
                        } else {
                            assert(s[j] == old_subs[j]);
                            lemma_sub_in_view(old_subs, j);
                        }
                    }
                    assert(subs_view(s) =~= target);
                }
                out
            },
            None => Vec::new(),
        }
    }
}

/// What a publish/subscribe command answers and does to the subscribers' mailboxes,
/// when `next` is the id the next subscription gets.
pub open spec fn streams(
    cmd: CommandRequest,
    before: TopicView,
    next: u32,
    r: Seq<CommandResponse>,
    after: TopicView,
) -> bool {
    match cmd.request_data {
        Some(RequestData::Publish(p)) => p.serves(before, next, r, after),
        Some(RequestData::Unsubscribe(u)) => u.serves(before, next, r, after),
        Some(RequestData::Subscribe(s)) => s.serves(before, next, r, after),
        _ => false,
    }
}

/// A publish/subscribe command served by the broadcaster.
pub trait TopicService: Sized {
    /// With mailboxes `before` and `next` the id the next subscription gets, the command
    /// answers `r` and leaves `after`.
    spec fn serves(&self, before: TopicView, next: u32, r: Seq<CommandResponse>, after: TopicView) -> bool;

    fn execute(self, topic: &mut Broadcaster) -> (r: Vec<CommandResponse>)
        requires
            old(topic).wf(),
        ensures
            final(topic).wf(),
            final(topic).spec_next_id() >= old(topic).spec_next_id(),
            self.serves(old(topic)@, old(topic).spec_next_id(), r@, final(topic)@),
    ;
}

/// What was waiting for a subscription, or nothing if it is not registered.
pub open spec fn waiting(v: TopicView, topic: Seq<char>, id: u32) -> Seq<ResponseView> {
    if v.contains_key((topic, id)) {
        v[(topic, id)]
    } else {
        Seq::empty()
    }
}

impl TopicService for Subscribe {
    /// The id `next`, never handed out before, is registered and its mailbox handed
    /// over: the id is the first delivery. Only once every id has been handed out is the
    /// answer a 500.
    open spec fn serves(&self, before: TopicView, next: u32, r: Seq<CommandResponse>, after: TopicView) -> bool {
        if next < u32::MAX {
            &&& !before.contains_key((self.topic@, next))
            &&& after == before.insert((self.topic@, next), Seq::empty())
            &&& r.len() == 1
            &&& r[0]@ == id_response(next)
        } else {
            &&& after == before
            &&& r.len() == 1
            &&& r[0].status == STATUS_INTERNAL_SERVER_ERROR
        }
    }

    fn execute(self, topic: &mut Broadcaster) -> (r: Vec<CommandResponse>) {
        match topic.subscribe(self.topic.as_str()) {
            Some(id) => {
                let out = topic.take(self.topic.as_str(), id);
                proof {
                    assert(mailbox_view(out@) == seq![id_response(id)]);
                    assert(out@.len() == 1);
                    assert(out@[0]@ == mailbox_view(out@)[0]);
                    assert(topic@ =~= old(topic)@.insert((self.topic@, id), Seq::empty()));
                }
                out
            },
            None => {
                let mut out = Vec::new();
                out.push(
                    CommandResponse::from_error(KvError::Internal(String::from_str("no subscription id left"))),
                );
                out
            },
        }
    }
}

impl TopicService for Unsubscribe {
    /// The subscription is removed, if it was there. The answer hands over what was
    /// still waiting for it, oldest first, and ends with a 200; a repeat finds nothing
    /// waiting and answers the 200 alone.
    open spec fn serves(&self, before: TopicView, next: u32, r: Seq<CommandResponse>, after: TopicView) -> bool {
        let q = waiting(before, self.topic@, self.id);
        &&& after == before.remove((self.topic@, self.id))
        &&& r.len() == q.len() + 1
        &&& mailbox_view(r.subrange(0, q.len() as int)) == q
        &&& r.last()@ == bool_response(true)
    }

    fn execute(self, topic: &mut Broadcaster) -> (r: Vec<CommandResponse>) {
        let mut out = topic.take(self.topic.as_str(), self.id);
        let ghost q = out@;
        topic.unsubscribe(self.topic.as_str(), self.id);
        out.push(CommandResponse::ok());
        proof {
            assert(out@.subrange(0, q.len() as int) =~= q);
            if !old(topic)@.contains_key((self.topic@, self.id)) {
                assert(mailbox_view(q) =~= Seq::<ResponseView>::empty());
            }
            assert(mailbox_view(q) == waiting(old(topic)@, self.topic@, self.id));
            assert(topic@ =~= old(topic)@.remove((self.topic@, self.id)));
            assert(out@.last()@ == bool_response(true));
        }
        out
    }
}

impl TopicService for Publish {
    /// The values go, as one response, to every subscriber of the topic with room.
    open spec fn serves(&self, before: TopicView, next: u32, r: Seq<CommandResponse>, after: TopicView) -> bool {
        &&& after == publish_spec(before, self.topic@, values_response(values_view(self.data@)))
        &&& r.len() == 1
        &&& r[0]@ == bool_response(true)
    }

    fn execute(self, topic: &mut Broadcaster) -> (r: Vec<CommandResponse>) {
        topic.publish(self.topic.as_str(), &self.data);
        let mut out = Vec::new();
        out.push(CommandResponse::ok());
        out
    }
}

/// Serves a publish/subscribe command.
pub fn dispatch_stream(cmd: CommandRequest, topic: &mut Broadcaster) -> (r: Vec<CommandResponse>)
    requires
        old(topic).wf(),
        is_streaming(cmd),
    ensures
        final(topic).wf(),
        final(topic).spec_next_id() >= old(topic).spec_next_id(),
        streams(cmd, old(topic)@, old(topic).spec_next_id(), r@, final(topic)@),
{
    match cmd.request_data {
        Some(RequestData::Publish(p)) => p.execute(topic),
        Some(RequestData::Subscribe(s)) => s.execute(topic),
        Some(RequestData::Unsubscribe(u)) => u.execute(topic),
        _ => Vec::new(),
    }
}

} // verus!