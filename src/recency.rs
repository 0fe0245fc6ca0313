use vstd::prelude::*;

verus! {

/// The key of one token record: its chain and its address bytes.
pub type RecordKey = (u64, [u8; 20]);

#[verifier::external_type_specification]
#[verifier::external_body]
#[verifier::reject_recursive_types(K)]
#[verifier::reject_recursive_types(V)]
#[verifier::reject_recursive_types(S)]
pub struct ExLruCache<K, V, S>(lru::LruCache<K, V, S>);

/// The keys held by the cache, most recently used first.
pub uninterp spec fn lru_order(c: lru::LruCache<(u64, [u8; 20]), (), std::collections::hash_map::RandomState>) -> Seq<(u64, [u8; 20])>;

/// The capacity the cache was made with.
pub uninterp spec fn lru_capacity(c: lru::LruCache<(u64, [u8; 20]), (), std::collections::hash_map::RandomState>) -> nat;

/// `order` with `k` moved to the front.
pub open spec fn touched(order: Seq<RecordKey>, k: RecordKey) -> Seq<RecordKey> {
    seq![k] + order.remove_value(k)
}

/// `order` after `k` was put in a cache of capacity `cap`: moved to the front
/// when present, else added at the front, dropping the last key when full.
pub open spec fn after_put(order: Seq<RecordKey>, cap: nat, k: RecordKey) -> Seq<RecordKey> {
    if order.contains(k) {
        touched(order, k)
    } else if order.len() == cap {
        seq![k] + order.drop_last()
    } else {
        seq![k] + order
    }
}

/// Relies on lru::LruCache::unbounded_with_hasher: an empty cache whose
/// capacity is `usize::MAX`, with nothing allocated for its keys yet.
#[verifier::external_body]
fn recency_unbounded() -> (r: lru::LruCache<RecordKey, (), std::collections::hash_map::RandomState>)
    ensures
        lru_order(r) == Seq::<RecordKey>::empty(),
        lru_capacity(r) == usize::MAX,
{
    lru::LruCache::unbounded_with_hasher(std::collections::hash_map::RandomState::new())
}

/// Relies on lru::LruCache::resize: on an empty cache it only sets the capacity.
#[verifier::external_body]
fn recency_resize(c: &mut lru::LruCache<RecordKey, (), std::collections::hash_map::RandomState>, cap: usize)
    requires
        cap > 0,
        lru_order(*old(c)).len() == 0,
    ensures
        lru_order(*final(c)) == lru_order(*old(c)),
        lru_capacity(*final(c)) == cap,
{
    c.resize(std::num::NonZeroUsize::new(cap).unwrap())
}

/// An empty recency order for at most `cap` records.
pub(crate) fn recency_new(cap: usize) -> (r: lru::LruCache<RecordKey, (), std::collections::hash_map::RandomState>)
    requires
        cap > 0,
    ensures
        lru_order(r) == Seq::<RecordKey>::empty(),
        lru_capacity(r) == cap,
{
    let mut c = recency_unbounded();
    recency_resize(&mut c, cap);
    c
}

/// Relies on lru::LruCache::push: a present key moves to the front and is
/// handed back; a new key goes to the front, and when the cache is full the
/// least recently used key leaves and is handed back.
#[verifier::external_body]
pub(crate) fn recency_push(c: &mut lru::LruCache<RecordKey, (), std::collections::hash_map::RandomState>, k: RecordKey) -> (r: Option<RecordKey>)
    ensures
        lru_capacity(*final(c)) == lru_capacity(*old(c)),
        lru_order(*final(c)) == after_put(lru_order(*old(c)), lru_capacity(*old(c)), k),
        lru_order(*old(c)).contains(k) ==> r == Some(k),
        !lru_order(*old(c)).contains(k) && lru_order(*old(c)).len() == lru_capacity(*old(c)) ==> r
            == Some(lru_order(*old(c)).last()),
        !lru_order(*old(c)).contains(k) && lru_order(*old(c)).len() != lru_capacity(*old(c)) ==> r
            is None,
{
    c.push(k, ()).map(|(key, _)| key)
}

/// Relies on lru::LruCache::get: a present key moves to the front; otherwise
/// nothing changes.
#[verifier::external_body]
pub(crate) fn recency_touch(c: &mut lru::LruCache<RecordKey, (), std::collections::hash_map::RandomState>, k: &RecordKey)
    ensures
        lru_capacity(*final(c)) == lru_capacity(*old(c)),
        lru_order(*old(c)).contains(*k) ==> lru_order(*final(c)) == touched(lru_order(*old(c)), *k),
        !lru_order(*old(c)).contains(*k) ==> lru_order(*final(c)) == lru_order(*old(c)),
{
    c.get(k);
}

proof fn lemma_remove_value(order: Seq<RecordKey>, k: RecordKey)
    requires
        order.no_duplicates(),
        order.contains(k),
    ensures
        order.remove_value(k).no_duplicates(),
        order.remove_value(k).len() == order.len() - 1,
        forall|x: RecordKey| #[trigger] order.remove_value(k).contains(x) <==> (order.contains(x) && x != k),
{
    order.index_of_first_ensures(k);
    let i = order.index_of_first(k).unwrap();
    let r = order.remove_value(k);
    order.remove_ensures(i);
    assert(r == order.remove(i));
    assert forall|x: RecordKey| #[trigger] r.contains(x) <==> (order.contains(x) && x != k) by {
        if r.contains(x) {
            let j = choose|j: int| 0 <= j < r.len() && r[j] == x;
            if j < i {
                assert(order[j] == x);
                assert(j != i);
            } else {
                assert(order[j + 1] == x);
                assert(j + 1 != i);
            }
        }
        if order.contains(x) && x != k {
            let j = choose|j: int| 0 <= j < order.len() && order[j] == x;
            if j < i {
                assert(r[j] == x);
            } else {
                assert(j != i);
                assert(r[j - 1] == x);
            }
        }
    }
    assert forall|a: int, b: int| 0 <= a < r.len() && 0 <= b < r.len() && a != b implies r[a] != r[b] by {
        let a2 = if a < i { a } else { a + 1 };
        let b2 = if b < i { b } else { b + 1 };
        assert(r[a] == order[a2]);
        assert(r[b] == order[b2]);
    }
}

/// How `after_put` changes which keys are held.
pub proof fn lemma_after_put(order: Seq<RecordKey>, cap: nat, k: RecordKey)
    requires
        order.no_duplicates(),
        order.len() <= cap,
        cap > 0,
    ensures
        after_put(order, cap, k).no_duplicates(),
        after_put(order, cap, k).len() <= cap,
        after_put(order, cap, k).len() <= order.len() + 1,
        after_put(order, cap, k)[0] == k,
        order.contains(k) ==> forall|x: RecordKey|
            #[trigger] after_put(order, cap, k).contains(x) <==> order.contains(x),
        !order.contains(k) && order.len() == cap ==> forall|x: RecordKey|
            #[trigger] after_put(order, cap, k).contains(x) <==> (x == k || (order.contains(x) && x
                != order.last())),
        !order.contains(k) && order.len() < cap ==> forall|x: RecordKey|
            #[trigger] after_put(order, cap, k).contains(x) <==> (x == k || order.contains(x)),
{
    let n = after_put(order, cap, k);
    if order.contains(k) {
        lemma_touched(order, k);
    } else if order.len() == cap {
        let d = order.drop_last();
        assert forall|x: RecordKey| #[trigger] n.contains(x) <==> (x == k || (order.contains(x) && x != order.last())) by {
            if n.contains(x) && x != k {
                let j = choose|j: int| 0 <= j < n.len() && n[j] == x;
                assert(j > 0);
                assert(order[j - 1] == x);
                assert(j - 1 != order.len() - 1);
            }
            if order.contains(x) && x != order.last() {
                let j = choose|j: int| 0 <= j < order.len() && order[j] == x;
                assert(j != order.len() - 1);
                assert(n[j + 1] == x);
            }
            if x == k {
                assert(n[0] == x);
            }
        }
        assert forall|a: int, b: int| 0 <= a < n.len() && 0 <= b < n.len() && a != b implies n[a] != n[b] by {
            if a > 0 && b > 0 {
                assert(n[a] == order[a - 1]);
                assert(n[b] == order[b - 1]);
            } else if a == 0 {
                assert(n[b] == order[b - 1]);
                assert(order.contains(order[b - 1]));
            } else {
                assert(n[a] == order[a - 1]);
                assert(order.contains(order[a - 1]));
            }
        }
    } else {
        assert forall|x: RecordKey| #[trigger] n.contains(x) <==> (x == k || order.contains(x)) by {
            if n.contains(x) && x != k {
                let j = choose|j: int| 0 <= j < n.len() && n[j] == x;
                assert(order[j - 1] == x);
            }
            if order.contains(x) {
                let j = choose|j: int| 0 <= j < order.len() && order[j] == x;
                assert(n[j + 1] == x);
            }
            if x == k {
                assert(n[0] == x);
            }
        }
        assert forall|a: int, b: int| 0 <= a < n.len() && 0 <= b < n.len() && a != b implies n[a] != n[b] by {
            if a > 0 && b > 0 {
                assert(n[a] == order[a - 1]);
                assert(n[b] == order[b - 1]);
            } else if a == 0 {
                assert(n[b] == order[b - 1]);
                assert(order.contains(order[b - 1]));
            } else {
                assert(n[a] == order[a - 1]);
                assert(order.contains(order[a - 1]));
            }
        }
    }
}

/// Moving a held key to the front keeps the same keys, without repetition.
pub proof fn lemma_touched(order: Seq<RecordKey>, k: RecordKey)
    requires
        order.no_duplicates(),
        order.contains(k),
    ensures
        touched(order, k).no_duplicates(),
        touched(order, k).len() == order.len(),
        touched(order, k)[0] == k,
        forall|x: RecordKey| #[trigger] touched(order, k).contains(x) <==> order.contains(x),
{
    lemma_remove_value(order, k);
    let r = order.remove_value(k);
    let n = touched(order, k);
    assert forall|x: RecordKey| #[trigger] n.contains(x) <==> order.contains(x) by {
        if n.contains(x) && x != k {
            let j = choose|j: int| 0 <= j < n.len() && n[j] == x;
            assert(r[j - 1] == x);
            assert(r.contains(x));
        }
        if order.contains(x) && x != k {
            assert(r.contains(x));
            let j = choose|j: int| 0 <= j < r.len() && r[j] == x;
            assert(n[j + 1] == x);
        }
        if x == k {
            assert(n[0] == x);
        }
    }
    assert forall|a: int, b: int| 0 <= a < n.len() && 0 <= b < n.len() && a != b implies n[a] != n[b] by {
        if a > 0 && b > 0 {
            assert(n[a] == r[a - 1]);
            assert(n[b] == r[b - 1]);
        } else if a == 0 {
            assert(n[b] == r[b - 1]);
            assert(r.contains(r[b - 1]));
        } else {
            assert(n[a] == r[a - 1]);
            assert(r.contains(r[a - 1]));
        }
    }
}

} // verus!
