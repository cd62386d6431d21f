//! The storage commands, their meaning on a store's contents, and their dispatch.
use vstd::prelude::*;
use vstd::string::StringExecFns;

use crate::error::KvError;
use crate::memory::{lists_table, lookup, StoreView};
use crate::pb::{
    bool_response, pairs_view, strings_view, values_response, values_view, CommandRequest,
    CommandResponse, Hdel, Hexist, Hget, Hgetall, Hmdel, Hmexist, Hmget, Hmset, Hset, RequestData,
    ResponseView, Value, ValueView, STATUS_NOT_FOUND, STATUS_UNSET,
};
use crate::storage::{opt_view, Storage};

verus! {

/// The value reported for a key: what is stored, or the empty value.
pub open spec fn or_empty(v: Option<ValueView>) -> ValueView {
    match v {
        Some(x) => x,
        None => ValueView::Empty,
    }
}

/// The response for a key that is not in its table.
pub open spec fn not_found_response(table: Seq<char>, key: Seq<char>) -> ResponseView {
    ResponseView {
        status: STATUS_NOT_FOUND,
        message: "Not found for table: "@ + table + ", key: "@ + key,
        values: Seq::empty(),
        pairs: Seq::empty(),
    }
}

/// The response to reading `key` of `table`, given what the backend answered.
pub open spec fn read_response(
    table: Seq<char>,
    key: Seq<char>,
    r: Result<Option<Value>, KvError>,
) -> ResponseView {
    match r {
        Ok(Some(v)) => values_response(seq![v@]),
        Ok(None) => not_found_response(table, key),
        Err(e) => e.spec_response(),
    }
}

/// The response to a write or a removal, given what the backend answered: the previous
/// value, or the empty value where there was none.
pub open spec fn previous_response(r: Result<Option<Value>, KvError>) -> ResponseView {
    match r {
        Ok(v) => values_response(seq![or_empty(opt_view(v))]),
        Err(e) => e.spec_response(),
    }
}

/// The response to a presence test, given what the backend answered.
pub open spec fn presence_response(r: Result<bool, KvError>) -> ResponseView {
    match r {
        Ok(b) => bool_response(b),
        Err(e) => e.spec_response(),
    }
}

/// Builds the response to a read from the backend's answer.
pub fn read_to_response(table: String, key: String, r: Result<Option<Value>, KvError>) -> (res:
    CommandResponse)
    ensures
        res@ == read_response(table@, key@, r),
{
    match r {
        Ok(Some(v)) => CommandResponse::from_value(v),
        Ok(None) => CommandResponse::from_error(KvError::NotFound(table, key)),
        Err(e) => CommandResponse::from_error(e),
    }
}

/// Builds the response to a write or a removal from the backend's answer.
pub fn previous_to_response(r: Result<Option<Value>, KvError>) -> (res: CommandResponse)
    ensures
        res@ == previous_response(r),
{
    match r {
        Ok(Some(v)) => CommandResponse::from_value(v),
        Ok(None) => CommandResponse::from_value(Value::Empty),
        Err(e) => CommandResponse::from_error(e),
    }
}

/// Builds the response to a presence test from the backend's answer.
pub fn presence_to_response(r: Result<bool, KvError>) -> (res: CommandResponse)
    ensures
        res@ == presence_response(r),
{
    match r {
        Ok(b) => CommandResponse::from_bool(b),
        Err(e) => CommandResponse::from_error(e),
    }
}

/// Sets each pair in turn: the previous values, in input order, and the contents after.
pub open spec fn hmset_spec(m: StoreView, table: Seq<char>, pairs: Seq<(Seq<char>, ValueView)>) -> (
    Seq<ValueView>,
    StoreView,
)
    decreases pairs.len(),
{
    if pairs.len() == 0 {
        (Seq::empty(), m)
    } else {
        let (vs, m1) = hmset_spec(m, table, pairs.drop_last());
        let (k, v) = pairs.last();
        (vs.push(or_empty(lookup(m1, table, k))), m1.insert((table, k), v))
    }
}

/// Removes each key in turn: the previous values, in input order, and the contents after.
pub open spec fn hmdel_spec(m: StoreView, table: Seq<char>, keys: Seq<Seq<char>>) -> (
    Seq<ValueView>,
    StoreView,
)
    decreases keys.len(),
{
    if keys.len() == 0 {
        (Seq::empty(), m)
    } else {
        let (vs, m1) = hmdel_spec(m, table, keys.drop_last());
        let k = keys.last();
        (vs.push(or_empty(lookup(m1, table, k))), m1.remove((table, k)))
    }
}

/// The values stored under `keys`, the empty value for each missing one.
pub open spec fn hmget_spec(m: StoreView, table: Seq<char>, keys: Seq<Seq<char>>) -> Seq<ValueView> {
    keys.map_values(|k: Seq<char>| or_empty(lookup(m, table, k)))
}

/// Whether every one of `keys` is stored.
pub open spec fn all_exist(m: StoreView, table: Seq<char>, keys: Seq<Seq<char>>) -> bool {
    forall|i: int| 0 <= i < keys.len() ==> m.contains_key((table, #[trigger] keys[i]))
}

/// A command run against a store.
/// A storage failure reported as a response: a 500 with the error's text and nothing else.
pub open spec fn failed(r: ResponseView) -> bool {
    &&& r.status == crate::pb::STATUS_INTERNAL_SERVER_ERROR
    &&& r.values.len() == 0
    &&& r.pairs.len() == 0
}

/// A success carrying `n` values and nothing else.
pub open spec fn values_ok(r: ResponseView, n: nat) -> bool {
    &&& r.status == crate::pb::STATUS_OK
    &&& r.message.len() == 0
    &&& r.values.len() == n
    &&& r.pairs.len() == 0
}

/// A response status that the store sends: 200, 400, 404 or 500.
pub open spec fn known_status(s: u32) -> bool {
    s == crate::pb::STATUS_OK || s == crate::pb::STATUS_BAD_REQUEST || s == STATUS_NOT_FOUND || s
        == crate::pb::STATUS_INTERNAL_SERVER_ERROR
}

pub trait CommandService: Sized {
    /// On an in-memory store with contents `before`, the command may answer `r` and
    /// leave `after`.
    spec fn executes(&self, before: StoreView, r: ResponseView, after: StoreView) -> bool;

    /// On any backend, the forms the answer may take.
    spec fn answers(&self, r: ResponseView) -> bool;

    fn execute(self, store: &mut Storage) -> (r: CommandResponse)
        requires
            old(store).wf(),
        ensures
            final(store).wf(),
            final(store).same_backend(old(store)),
            r.status != STATUS_UNSET,
            known_status(r.status),
            self.answers(r@),
            old(store).model() matches Some(m) ==> final(store).model() matches Some(m2) && self.executes(
                m,
                r@,
                m2,
            ),
    ;
}

impl CommandService for Hget {
    open spec fn answers(&self, r: ResponseView) -> bool {
        values_ok(r, 1) || r == not_found_response(self.table@, self.key@) || failed(r)
    }

    open spec fn executes(&self, before: StoreView, r: ResponseView, after: StoreView) -> bool {
        &&& after == before
        &&& r == match lookup(before, self.table@, self.key@) {
            Some(v) => values_response(seq![v]),
            None => not_found_response(self.table@, self.key@),
        }
    }

    fn execute(self, store: &mut Storage) -> (r: CommandResponse) {
        let got = store.get(self.table.as_str(), self.key.as_str());
        read_to_response(self.table, self.key, got)
    }
}

impl CommandService for Hgetall {
    open spec fn answers(&self, r: ResponseView) -> bool {
        (r.status == crate::pb::STATUS_OK && r.message.len() == 0 && r.values.len() == 0) || failed(r)
    }

    open spec fn executes(&self, before: StoreView, r: ResponseView, after: StoreView) -> bool {
        &&& after == before
        &&& r.status == crate::pb::STATUS_OK
        &&& r.message.len() == 0
        &&& r.values.len() == 0
        &&& lists_table(before, self.table@, r.pairs)
    }

    fn execute(self, store: &mut Storage) -> (r: CommandResponse) {
        match store.get_all(self.table.as_str()) {
            Ok(pairs) => CommandResponse::from_pairs(pairs),
            Err(e) => CommandResponse::from_error(e),
        }
    }
}

impl CommandService for Hset {
    open spec fn answers(&self, r: ResponseView) -> bool {
        values_ok(r, 1) || failed(r)
    }

    open spec fn executes(&self, before: StoreView, r: ResponseView, after: StoreView) -> bool {
        match self.pair {
            Some(p) => {
                &&& after == before.insert((self.table@, p.key@), p.value@)
                &&& r == values_response(seq![or_empty(lookup(before, self.table@, p.key@))])
            },
            None => after == before && r == values_response(seq![ValueView::Empty]),
        }
    }

    fn execute(self, store: &mut Storage) -> (r: CommandResponse) {
        match self.pair {
            Some(p) => {
                let prev = store.set(self.table.as_str(), p.key, p.value);
                previous_to_response(prev)
            },
            None => CommandResponse::from_value(Value::Empty),
        }
    }
}

impl CommandService for Hdel {
    open spec fn answers(&self, r: ResponseView) -> bool {
        values_ok(r, 1) || failed(r)
    }

    open spec fn executes(&self, before: StoreView, r: ResponseView, after: StoreView) -> bool {
        &&& after == before.remove((self.table@, self.key@))
        &&& r == values_response(seq![or_empty(lookup(before, self.table@, self.key@))])
    }

    fn execute(self, store: &mut Storage) -> (r: CommandResponse) {
        let prev = store.del(self.table.as_str(), self.key.as_str());
        previous_to_response(prev)
    }
}

impl CommandService for Hexist {
    open spec fn answers(&self, r: ResponseView) -> bool {
        r == bool_response(true) || r == bool_response(false) || failed(r)
    }

    open spec fn executes(&self, before: StoreView, r: ResponseView, after: StoreView) -> bool {
        &&& after == before
        &&& r == bool_response(before.contains_key((self.table@, self.key@)))
    }

    fn execute(self, store: &mut Storage) -> (r: CommandResponse) {
        let found = store.contains(self.table.as_str(), self.key.as_str());
        presence_to_response(found)
    }
}

impl CommandService for Hmget {
    open spec fn answers(&self, r: ResponseView) -> bool {
        values_ok(r, self.keys@.len()) || failed(r)
    }

    open spec fn executes(&self, before: StoreView, r: ResponseView, after: StoreView) -> bool {
        &&& after == before
        &&& r == values_response(hmget_spec(before, self.table@, strings_view(self.keys@)))
    }

    fn execute(self, store: &mut Storage) -> (r: CommandResponse) {
        let mut res: Vec<Value> = Vec::new();
        let mut i: usize = 0;
        let ghost keys = strings_view(self.keys@);
        while i < self.keys.len()
            invariant
                store.wf(),
                i <= self.keys@.len(),
                res@.len() == i,
                keys == strings_view(self.keys@),
                store.model() matches Some(m) ==> values_view(res@) =~= hmget_spec(
                    m,
                    self.table@,
                    keys,
                ).subrange(0, i as int),
            decreases self.keys@.len() - i,
        {
            match store.get(self.table.as_str(), self.keys[i].as_str()) {
                Ok(Some(v)) => res.push(v),
                Ok(None) => res.push(Value::Empty),
                Err(e) => return CommandResponse::from_error(e),
            }
            i = i + 1;
        }
        proof {
            if let Some(m) = store.model() {
                assert(hmget_spec(m, self.table@, keys).subrange(0, i as int) =~= hmget_spec(
                    m,
                    self.table@,
                    keys,
                ));
            }
        }
        CommandResponse::from_values(res)
    }
}

impl CommandService for Hmset {
    open spec fn answers(&self, r: ResponseView) -> bool {
        values_ok(r, self.pairs@.len()) || failed(r)
    }

    open spec fn executes(&self, before: StoreView, r: ResponseView, after: StoreView) -> bool {
        let (vs, m2) = hmset_spec(before, self.table@, pairs_view(self.pairs@));
        &&& after == m2
        &&& r == values_response(vs)
    }

    fn execute(self, store: &mut Storage) -> (r: CommandResponse) {
        let ghost start = store.model();
        let ghost orig: Storage = *store;
        let ghost pairs = pairs_view(self.pairs@);
        let mut res: Vec<Value> = Vec::new();
        let mut i: usize = 0;
        while i < self.pairs.len()
            invariant
                store.wf(),
                pairs == pairs_view(self.pairs@),
                i <= self.pairs@.len(),
                res@.len() == i,
                store.model() is Some == start is Some,
                store.same_backend(&orig),
                start == orig.model(),
                orig == *old(store),
                start matches Some(m0) ==> store.model() == Some(
                    hmset_spec(m0, self.table@, pairs.subrange(0, i as int)).1,
                ) && values_view(res@) =~= hmset_spec(m0, self.table@, pairs.subrange(0, i as int)).0,
            decreases self.pairs@.len() - i,
        {
            let p = self.pairs[i].clone();
            let ghost old_res = res@;
            let prev = store.set(self.table.as_str(), p.key, p.value);
            match prev {
                Ok(Some(v)) => res.push(v),
                Ok(None) => res.push(Value::Empty),
                Err(e) => return CommandResponse::from_error(e),
            }
            proof {
                if let Some(m0) = start {
                    let sub = pairs.subrange(0, i + 1);
                    assert(sub.drop_last() =~= pairs.subrange(0, i as int));
                    assert(sub.last() == pairs[i as int]);
                    assert(values_view(res@) =~= values_view(old_res).push(res@.last()@));
                }
            }
            i = i + 1;
        }
        proof {
            assert(pairs.subrange(0, i as int) =~= pairs);
        }
        CommandResponse::from_values(res)
    }
}

impl CommandService for Hmdel {
    open spec fn answers(&self, r: ResponseView) -> bool {
        values_ok(r, self.keys@.len()) || failed(r)
    }

    open spec fn executes(&self, before: StoreView, r: ResponseView, after: StoreView) -> bool {
        let (vs, m2) = hmdel_spec(before, self.table@, strings_view(self.keys@));
        &&& after == m2
        &&& r == values_response(vs)
    }

    fn execute(self, store: &mut Storage) -> (r: CommandResponse) {
        let ghost start = store.model();
        let ghost orig: Storage = *store;
        let ghost keys = strings_view(self.keys@);
        let mut res: Vec<Value> = Vec::new();
        let mut i: usize = 0;
        while i < self.keys.len()
            invariant
                store.wf(),
                keys == strings_view(self.keys@),
                i <= self.keys@.len(),
                res@.len() == i,
                store.model() is Some == start is Some,
                store.same_backend(&orig),
                start == orig.model(),
                orig == *old(store),
                start matches Some(m0) ==> store.model() == Some(
                    hmdel_spec(m0, self.table@, keys.subrange(0, i as int)).1,
                ) && values_view(res@) =~= hmdel_spec(m0, self.table@, keys.subrange(0, i as int)).0,
            decreases self.keys@.len() - i,
        {
            let ghost old_res = res@;
            let prev = store.del(self.table.as_str(), self.keys[i].as_str());
            match prev {
                Ok(Some(v)) => res.push(v),
                Ok(None) => res.push(Value::Empty),
                Err(e) => return CommandResponse::from_error(e),
            }
            proof {
                if let Some(m0) = start {
                    let sub = keys.subrange(0, i + 1);
                    assert(sub.drop_last() =~= keys.subrange(0, i as int));
                    assert(sub.last() == keys[i as int]);
                    assert(values_view(res@) =~= values_view(old_res).push(res@.last()@));
                }
            }
            i = i + 1;
        }
        proof {
            assert(keys.subrange(0, i as int) =~= keys);
        }
        CommandResponse::from_values(res)
    }
}

impl CommandService for Hmexist {
    open spec fn answers(&self, r: ResponseView) -> bool {
        r == bool_response(true) || r == bool_response(false) || failed(r)
    }

    open spec fn executes(&self, before: StoreView, r: ResponseView, after: StoreView) -> bool {
        &&& after == before
        &&& r == bool_response(all_exist(before, self.table@, strings_view(self.keys@)))
    }

    fn execute(self, store: &mut Storage) -> (r: CommandResponse) {
        let ghost keys = strings_view(self.keys@);
        let mut i: usize = 0;
        while i < self.keys.len()
            invariant
                store.wf(),
                keys == strings_view(self.keys@),
                i <= self.keys@.len(),
                store.model() matches Some(m) ==> forall|j: int|
                    0 <= j < i ==> m.contains_key((self.table@, #[trigger] keys[j])),
            decreases self.keys@.len() - i,
        {
            match store.contains(self.table.as_str(), self.keys[i].as_str()) {
                Ok(true) => {},
                Ok(false) => {
                    proof {
                        if let Some(m) = store.model() {
                            assert(!m.contains_key((self.table@, keys[i as int])));
                            assert(!all_exist(m, self.table@, keys));
                        }
                    }
                    return CommandResponse::from_bool(false);
                },
                Err(e) => return CommandResponse::from_error(e),
            }
            i = i + 1;
        }
        CommandResponse::from_bool(true)
    }
}

/// Setting a key twice: the second set reports the value the first one stored, and
/// leaves the contents as the first one left them.
pub proof fn lemma_hset_twice(
    c: Hset,
    m0: StoreView,
    r1: ResponseView,
    m1: StoreView,
    r2: ResponseView,
    m2: StoreView,
)
    requires
        c.pair is Some,
        c.executes(m0, r1, m1),
        c.executes(m1, r2, m2),
    ensures
        r2 == values_response(seq![c.pair->Some_0.value@]),
        m2 == m1,
{
    assert(m2 =~= m1);
}

/// A delete after a set returns the value that was set, and a read after that finds
/// nothing (404).
pub proof fn lemma_set_then_delete(
    set: Hset,
    del: Hdel,
    get: Hget,
    m0: StoreView,
    r1: ResponseView,
    m1: StoreView,
    r2: ResponseView,
    m2: StoreView,
    r3: ResponseView,
    m3: StoreView,
)
    requires
        set.pair is Some,
        del.table@ == set.table@ && del.key@ == set.pair->Some_0.key@,
        get.table@ == set.table@ && get.key@ == set.pair->Some_0.key@,
        set.executes(m0, r1, m1),
        del.executes(m1, r2, m2),
        get.executes(m2, r3, m3),
    ensures
        r2 == values_response(seq![set.pair->Some_0.value@]),
        r3 == not_found_response(get.table@, get.key@),
{
}

/// A presence test of several keys answers 200 exactly when every key is stored;
/// once one of them is deleted it answers 404.
pub proof fn lemma_hmexist_after_delete(
    ex: Hmexist,
    del: Hdel,
    m0: StoreView,
    r1: ResponseView,
    m1: StoreView,
    r2: ResponseView,
    m2: StoreView,
)
    requires
        del.table@ == ex.table@,
        strings_view(ex.keys@).contains(del.key@),
        del.executes(m0, r1, m1),
        ex.executes(m1, r2, m2),
    ensures
        r2.status == STATUS_NOT_FOUND,
{
    let keys = strings_view(ex.keys@);
    let i = choose|i: int| 0 <= i < keys.len() && keys[i] == del.key@;
    assert(!m1.contains_key((ex.table@, keys[i])));
}

/// Whether a request is served by the broadcaster rather than by the store.
pub open spec fn is_streaming(cmd: CommandRequest) -> bool {
    match cmd.request_data {
        Some(RequestData::Subscribe(_)) | Some(RequestData::Unsubscribe(_)) | Some(
            RequestData::Publish(_),
        ) => true,
        _ => false,
    }
}

pub fn check_streaming(cmd: &CommandRequest) -> (r: bool)
    ensures
        r == is_streaming(*cmd),
{
    match &cmd.request_data {
        Some(RequestData::Subscribe(_)) | Some(RequestData::Unsubscribe(_)) | Some(
            RequestData::Publish(_),
        ) => true,
        _ => false,
    }
}

/// The response to a request that carries no command.
pub open spec fn invalid_response() -> ResponseView {
    ResponseView {
        status: crate::pb::STATUS_BAD_REQUEST,
        message: "Cannot parse command: `"@ + "Request has no data"@ + "`"@,
        values: Seq::empty(),
        pairs: Seq::empty(),
    }
}

/// On an in-memory store with contents `before`, `dispatch` may answer `r` and leave
/// `after`.
pub open spec fn dispatches(cmd: CommandRequest, before: StoreView, r: ResponseView, after: StoreView) -> bool {
    match cmd.request_data {
        Some(RequestData::Hget(c)) => c.executes(before, r, after),
        Some(RequestData::Hgetall(c)) => c.executes(before, r, after),
        Some(RequestData::Hset(c)) => c.executes(before, r, after),
        Some(RequestData::Hdel(c)) => c.executes(before, r, after),
        Some(RequestData::Hexist(c)) => c.executes(before, r, after),
        Some(RequestData::Hmget(c)) => c.executes(before, r, after),
        Some(RequestData::Hmset(c)) => c.executes(before, r, after),
        Some(RequestData::Hmdel(c)) => c.executes(before, r, after),
        Some(RequestData::Hmexist(c)) => c.executes(before, r, after),
        _ => after == before,
    }
}

/// On any backend, the forms `dispatch`'s answer may take.
pub open spec fn dispatch_answers(cmd: CommandRequest, r: ResponseView) -> bool {
    match cmd.request_data {
        Some(RequestData::Hget(c)) => c.answers(r),
        Some(RequestData::Hgetall(c)) => c.answers(r),
        Some(RequestData::Hset(c)) => c.answers(r),
        Some(RequestData::Hdel(c)) => c.answers(r),
        Some(RequestData::Hexist(c)) => c.answers(r),
        Some(RequestData::Hmget(c)) => c.answers(r),
        Some(RequestData::Hmset(c)) => c.answers(r),
        Some(RequestData::Hmdel(c)) => c.answers(r),
        Some(RequestData::Hmexist(c)) => c.answers(r),
        _ => true,
    }
}

/// Runs a storage command. A request without a command is answered with a 400; a
/// publish/subscribe request is not a storage command and gets the unset response.
pub fn dispatch(cmd: CommandRequest, store: &mut Storage) -> (r: CommandResponse)
    requires
        old(store).wf(),
    ensures
        final(store).wf(),
        final(store).same_backend(old(store)),
        cmd.request_data is None ==> r@ == invalid_response() && *final(store) == *old(store),
        is_streaming(cmd) ==> r.is_unset() && *final(store) == *old(store),
        !is_streaming(cmd) ==> r.status != STATUS_UNSET && known_status(r.status),
        dispatch_answers(cmd, r@),
        old(store).model() matches Some(m) ==> final(store).model() matches Some(m2) && dispatches(
            cmd,
            m,
            r@,
            m2,
        ),
{
    match cmd.request_data {
        Some(RequestData::Hget(c)) => c.execute(store),
        Some(RequestData::Hgetall(c)) => c.execute(store),
        Some(RequestData::Hset(c)) => c.execute(store),
        Some(RequestData::Hdel(c)) => c.execute(store),
        Some(RequestData::Hexist(c)) => c.execute(store),
        Some(RequestData::Hmget(c)) => c.execute(store),
        Some(RequestData::Hmset(c)) => c.execute(store),
        Some(RequestData::Hmdel(c)) => c.execute(store),
        Some(RequestData::Hmexist(c)) => c.execute(store),
        None => {
            let r = CommandResponse::from_error(
                KvError::InvalidCommand(String::from_str("Request has no data")),
            );
            r
        },
        _ => CommandResponse::unset(),
    }
}

} // verus!
