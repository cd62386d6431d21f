//! Comparisons of responses against expected values, used by callers that check
//! what the store answered.
use vstd::prelude::*;
use vstd::utf8::encode_utf8;

use crate::pb::{pairs_view, values_view, CommandResponse, Kvpair, Value, ValueView, STATUS_OK};
use crate::storage::SledTable;
use crate::error::KvError;

verus! {

fn bytes_eq(a: &Vec<u8>, b: &Vec<u8>) -> (r: bool)
    ensures
        r == (a@ == b@),
{
    if a.len() != b.len() {
        return false;
    }
    let mut i: usize = 0;
    while i < a.len()
        invariant
            a@.len() == b@.len(),
            i <= a@.len(),
            forall|j: int| 0 <= j < i ==> a@[j] == b@[j],
        decreases a@.len() - i,
    {
        if a[i] != b[i] {
            return false;
        }
        i = i + 1;
    }
    assert(a@ =~= b@);
    true
}

/// Whether two values are the same.
pub fn value_eq(a: &Value, b: &Value) -> (r: bool)
    ensures
        r == (a@ == b@),
{
    match (a, b) {
        (Value::Empty, Value::Empty) => true,
        (Value::String(x), Value::String(y)) => *x == *y,
        (Value::Integer(x), Value::Integer(y)) => *x == *y,
        (Value::Float(x), Value::Float(y)) => *x == *y,
        (Value::Bool(x), Value::Bool(y)) => *x == *y,
        (Value::Binary(x), Value::Binary(y)) => bytes_eq(x, y),
        _ => false,
    }
}

fn pair_eq(a: &Kvpair, b: &Kvpair) -> (r: bool)
    ensures
        r == (a@ == b@),
{
    a.key == b.key && value_eq(&a.value, &b.value)
}

fn values_eq(a: &Vec<Value>, b: &[Value]) -> (r: bool)
    ensures
        r == (values_view(a@) == values_view(b@)),
{
    if a.len() != b.len() {
        return false;
    }
    let mut i: usize = 0;
    while i < a.len()
        invariant
            a@.len() == b@.len(),
            i <= a@.len(),
            forall|j: int| 0 <= j < i ==> a@[j]@ == b@[j]@,
        decreases a@.len() - i,
    {
        if !value_eq(&a[i], &b[i]) {
            assert(values_view(a@)[i as int] != values_view(b@)[i as int]);
            return false;
        }
        i = i + 1;
    }
    assert(values_view(a@) =~= values_view(b@));
    true
}

/// Each element of `a` occurs in `b` as often as in `a`.
pub open spec fn counts_match(a: Seq<(Seq<char>, ValueView)>, b: Seq<(Seq<char>, ValueView)>) -> bool {
    forall|i: int| 0 <= i < a.len() ==> a.to_multiset().count(#[trigger] a[i]) == b.to_multiset().count(a[i])
}

/// The same pairs, each as often, in any order.
pub open spec fn same_pairs(a: Seq<(Seq<char>, ValueView)>, b: Seq<(Seq<char>, ValueView)>) -> bool {
    a.to_multiset() == b.to_multiset()
}

fn count_of(p: &Kvpair, b: &[Kvpair]) -> (r: usize)
    ensures
        r == pairs_view(b@).to_multiset().count(p@),
{
    let ghost pv = pairs_view(b@);
    let mut c: usize = 0;
    let mut j: usize = 0;
    proof {
        let e = pv.subrange(0, 0);
        e.to_multiset_ensures();
        assert(!e.contains(p@));
    }
    while j < b.len()
        invariant
            j <= b@.len(),
            pv == pairs_view(b@),
            c <= j,
            c == pv.subrange(0, j as int).to_multiset().count(p@),
        decreases b@.len() - j,
    {
        proof {
            let s = pv.subrange(0, j as int);
            assert(pv.subrange(0, j + 1) =~= s.push(pv[j as int]));
            s.to_multiset_ensures();
        }
        if pair_eq(p, &b[j]) {
            c = c + 1;
        }
        j = j + 1;
    }
    assert(pv.subrange(0, j as int) =~= pv);
    c
}

fn all_counts_match(a: &[Kvpair], b: &[Kvpair]) -> (r: bool)
    ensures
        r == counts_match(pairs_view(a@), pairs_view(b@)),
{
    let mut i: usize = 0;
    while i < a.len()
        invariant
            i <= a@.len(),
            forall|k: int| 0 <= k < i ==> pairs_view(a@).to_multiset().count(#[trigger] pairs_view(a@)[k])
                == pairs_view(b@).to_multiset().count(pairs_view(a@)[k]),
        decreases a@.len() - i,
    {
        let ca = count_of(&a[i], a);
        let cb = count_of(&a[i], b);
        assert(pairs_view(a@)[i as int] == a@[i as int]@);
        if ca != cb {
            return false;
        }
        i = i + 1;
    }
    true
}

proof fn lemma_counts_give_multiset(a: Seq<(Seq<char>, ValueView)>, b: Seq<(Seq<char>, ValueView)>)
    ensures
        (counts_match(a, b) && counts_match(b, a)) == same_pairs(a, b),
{
    a.to_multiset_ensures();
    b.to_multiset_ensures();
    if counts_match(a, b) && counts_match(b, a) {
        assert forall|x: (Seq<char>, ValueView)| a.to_multiset().count(x) == b.to_multiset().count(x) by {
            if a.contains(x) {
                let i = choose|i: int| 0 <= i < a.len() && a[i] == x;
                assert(a.to_multiset().count(a[i]) == b.to_multiset().count(a[i]));
            } else if b.contains(x) {
                let i = choose|i: int| 0 <= i < b.len() && b[i] == x;
                assert(b.to_multiset().count(b[i]) == a.to_multiset().count(b[i]));
            }
        }
        assert(a.to_multiset() =~= b.to_multiset());
    }
}

/// Whether a response reports success with exactly `values`, and `pairs` in any order.
pub fn assert_res_ok(res: &CommandResponse, values: &[Value], pairs: &[Kvpair]) -> (r: bool)
    ensures
        r == (res@.status == STATUS_OK && res@.message.len() == 0 && res@.values == values_view(values@)
            && same_pairs(res@.pairs, pairs_view(pairs@))),
{
    proof {
        lemma_counts_give_multiset(pairs_view(res.pairs@), pairs_view(pairs@));
    }
    res.status == STATUS_OK && res.message.as_str().is_empty() && values_eq(&res.values, values)
        && all_counts_match(res.pairs.as_slice(), pairs) && all_counts_match(pairs, res.pairs.as_slice())
}

/// Whether `needle`'s bytes occur in `hay`'s bytes.
pub open spec fn occurs(hay: Seq<u8>, needle: Seq<u8>) -> bool {
    exists|i: int| 0 <= i <= hay.len() - needle.len() && #[trigger] hay.subrange(i, i + needle.len()) == needle
}

fn contains_bytes(hay: &[u8], needle: &[u8]) -> (r: bool)
    ensures
        r == occurs(hay@, needle@),
{
    if needle.len() > hay.len() {
        return false;
    }
    if needle.len() == 0 {
        assert(hay@.subrange(0int, 0int + needle@.len()) =~= needle@);
        return true;
    }
    let n = hay.len();
    let positions = n - needle.len() + 1;
    let mut i: usize = 0;
    while i < positions
        invariant
            positions == hay@.len() - needle@.len() + 1,
            n == hay@.len(),
            i <= positions,
            forall|k: int| 0 <= k < i ==> #[trigger] hay@.subrange(k, k + needle@.len()) != needle@,
        decreases positions - i,
    {
        let mut j: usize = 0;
        let mut same = true;
        while j < needle.len()
            invariant
                i < positions,
                positions == hay@.len() - needle@.len() + 1,
                i + needle@.len() <= hay@.len(),
                n == hay@.len(),
                j <= needle@.len(),
                same == (forall|m: int| 0 <= m < j ==> hay@[i + m] == needle@[m]),
            decreases needle@.len() - j,
        {
            if hay[i + j] != needle[j] {
                same = false;
            }
            j = j + 1;
        }
        if same {
            assert(hay@.subrange(i as int, i + needle@.len()) =~= needle@);
            return true;
        }
        assert(hay@.subrange(i as int, i + needle@.len()) != needle@) by {
            let m = choose|m: int| 0 <= m < needle@.len() && hay@[i + m] != needle@[m];
            assert(hay@.subrange(i as int, i + needle@.len())[m] == hay@[i + m]);
        }
        i = i + 1;
    }
    assert(!occurs(hay@, needle@)) by {
        if occurs(hay@, needle@) {
            let k = choose|k: int|
                0 <= k <= hay@.len() - needle@.len() && #[trigger] hay@.subrange(k, k + needle@.len())
                    == needle@;
            assert(k < i);
        }
    }
    false
}

/// Whether a response reports the failure `code` with a message containing `msg`, and
/// carries nothing else.
pub fn assert_res_error(res: CommandResponse, code: u32, msg: &str) -> (r: bool)
    ensures
        r == (res@.status == code && occurs(encode_utf8(res@.message), encode_utf8(msg@))
            && res@.values.len() == 0 && res@.pairs.len() == 0),
{
    res.status == code && contains_bytes(res.message.as_str().as_bytes(), msg.as_bytes())
        && res.values.len() == 0 && res.pairs.len() == 0
}

/// A store on a database that is removed when dropped.
pub fn get_sled_store() -> (r: Result<SledTable, KvError>)
    ensures
        r matches Err(e) ==> e is SledError,
{
    SledTable::temporary()
}

} // verus!
