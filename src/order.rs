//! Text order, sort keys, and ordering positions of a list by key.
use vstd::prelude::*;

use core::cmp::Ordering;

verus! {

/// Lexicographic order of texts, character by character; a proper prefix comes first.
pub open spec fn text_cmp(a: Seq<char>, b: Seq<char>) -> Ordering
    decreases a.len(),
{
    if a.len() == 0 {
        if b.len() == 0 {
            Ordering::Equal
        } else {
            Ordering::Less
        }
    } else if b.len() == 0 {
        Ordering::Greater
    } else if a[0] < b[0] {
        Ordering::Less
    } else if a[0] > b[0] {
        Ordering::Greater
    } else {
        text_cmp(a.drop_first(), b.drop_first())
    }
}

/// The reverse of an ordering.
pub open spec fn flip(o: Ordering) -> Ordering {
    match o {
        Ordering::Less => Ordering::Greater,
        Ordering::Equal => Ordering::Equal,
        Ordering::Greater => Ordering::Less,
    }
}

/// Relies on `Ord for str`: strings compare lexicographically; their UTF-8 bytes
/// order as the characters they encode.
#[verifier::external_body]
pub(crate) fn compare_text(a: &str, b: &str) -> (r: Ordering)
    ensures
        r == text_cmp(a@, b@),
{
    a.cmp(b)
}

pub proof fn lemma_text_cmp_flip(a: Seq<char>, b: Seq<char>)
    ensures
        text_cmp(b, a) == flip(text_cmp(a, b)),
    decreases a.len(),
{
    if a.len() > 0 && b.len() > 0 && a[0] == b[0] {
        lemma_text_cmp_flip(a.drop_first(), b.drop_first());
    }
}

pub proof fn lemma_text_cmp_equal(a: Seq<char>, b: Seq<char>)
    ensures
        text_cmp(a, b) == Ordering::Equal <==> a == b,
    decreases a.len(),
{
    if a.len() == 0 && b.len() == 0 {
        assert(a =~= b);
    } else if a.len() > 0 && b.len() > 0 {
        if a[0] == b[0] {
            lemma_text_cmp_equal(a.drop_first(), b.drop_first());
            if a.drop_first() == b.drop_first() {
                assert(a =~= seq![a[0]] + a.drop_first());
                assert(b =~= seq![b[0]] + b.drop_first());
            }
        } else {
            assert(a != b);
        }
    } else {
        assert(a.len() != b.len());
    }
}

pub proof fn lemma_text_lt_trans(a: Seq<char>, b: Seq<char>, c: Seq<char>)
    requires
        text_cmp(a, b) == Ordering::Less,
        text_cmp(b, c) == Ordering::Less,
    ensures
        text_cmp(a, c) == Ordering::Less,
    decreases a.len(),
{
    if a.len() > 0 && a[0] == b[0] && b[0] == c[0] {
        lemma_text_lt_trans(a.drop_first(), b.drop_first(), c.drop_first());
    }
}

/// Whether two texts are equal.
pub fn text_eq(a: &str, b: &str) -> (r: bool)
    ensures
        r == (a@ == b@),
{
    let c = compare_text(a, b);
    proof {
        lemma_text_cmp_equal(a@, b@);
    }
    matches!(c, Ordering::Equal)
}

/// A sort key of up to three texts, compared in turn.
pub struct SortKey {
    pub a: String,
    pub b: String,
    pub c: String,
}

/// The texts of a sort key.
pub type KeyView = (Seq<char>, Seq<char>, Seq<char>);

impl SortKey {
    pub open spec fn key(&self) -> KeyView {
        (self.a@, self.b@, self.c@)
    }
}

/// Lexicographic order of sort keys.
pub open spec fn key_cmp(x: KeyView, y: KeyView) -> Ordering {
    if text_cmp(x.0, y.0) != Ordering::Equal {
        text_cmp(x.0, y.0)
    } else if text_cmp(x.1, y.1) != Ordering::Equal {
        text_cmp(x.1, y.1)
    } else {
        text_cmp(x.2, y.2)
    }
}

pub open spec fn key_lt(x: KeyView, y: KeyView) -> bool {
    key_cmp(x, y) == Ordering::Less
}

pub proof fn lemma_key_cmp_flip(x: KeyView, y: KeyView)
    ensures
        key_cmp(y, x) == flip(key_cmp(x, y)),
{
    lemma_text_cmp_flip(x.0, y.0);
    lemma_text_cmp_flip(x.1, y.1);
    lemma_text_cmp_flip(x.2, y.2);
}

pub proof fn lemma_key_cmp_equal(x: KeyView, y: KeyView)
    ensures
        key_cmp(x, y) == Ordering::Equal <==> x == y,
{
    lemma_text_cmp_equal(x.0, y.0);
    lemma_text_cmp_equal(x.1, y.1);
    lemma_text_cmp_equal(x.2, y.2);
}

pub proof fn lemma_key_lt_trans(x: KeyView, y: KeyView, z: KeyView)
    requires
        key_lt(x, y),
        key_lt(y, z),
    ensures
        key_lt(x, z),
{
    lemma_text_cmp_equal(x.0, y.0);
    lemma_text_cmp_equal(y.0, z.0);
    lemma_text_cmp_equal(x.1, y.1);
    lemma_text_cmp_equal(y.1, z.1);
    lemma_text_cmp_equal(x.0, z.0);
    lemma_text_cmp_equal(x.1, z.1);
    if text_cmp(x.0, y.0) == Ordering::Less && text_cmp(y.0, z.0) == Ordering::Less {
        lemma_text_lt_trans(x.0, y.0, z.0);
    }
    if text_cmp(x.0, y.0) == Ordering::Equal && text_cmp(y.0, z.0) == Ordering::Equal {
        if text_cmp(x.1, y.1) == Ordering::Less && text_cmp(y.1, z.1) == Ordering::Less {
            lemma_text_lt_trans(x.1, y.1, z.1);
        }
        if text_cmp(x.1, y.1) == Ordering::Equal && text_cmp(y.1, z.1) == Ordering::Equal {
            lemma_text_lt_trans(x.2, y.2, z.2);
        }
    }
}

/// Compares two sort keys.
pub fn compare_keys(x: &SortKey, y: &SortKey) -> (r: Ordering)
    ensures
        r == key_cmp(x.key(), y.key()),
{
    let r = compare_text(x.a.as_str(), y.a.as_str());
    if !matches!(r, Ordering::Equal) {
        return r;
    }
    let r = compare_text(x.b.as_str(), y.b.as_str());
    if !matches!(r, Ordering::Equal) {
        return r;
    }
    compare_text(x.c.as_str(), y.c.as_str())
}

/// The keys of a list of sort keys.
pub open spec fn keys_of(keys: Seq<SortKey>) -> Seq<KeyView> {
    keys.map_values(|k: SortKey| k.key())
}

/// Positions into `ks` whose keys never decrease.
pub open spec fn ascending(ks: Seq<KeyView>, order: Seq<usize>) -> bool {
    forall|i: int, j: int|
        0 <= i < j < order.len() ==> !key_lt(#[trigger] ks[order[j] as int], #[trigger] ks[order[i] as int])
}

/// Positions into `ks` whose keys strictly increase.
pub open spec fn strictly_ascending(ks: Seq<KeyView>, order: Seq<usize>) -> bool {
    forall|i: int, j: int|
        0 <= i < j < order.len() ==> key_lt(#[trigger] ks[order[i] as int], #[trigger] ks[order[j] as int])
}

/// Positions with equal keys keep their order in `ks`.
pub open spec fn stable(ks: Seq<KeyView>, order: Seq<usize>) -> bool {
    forall|i: int, j: int|
        0 <= i < j < order.len() && #[trigger] ks[order[i] as int] == #[trigger] ks[order[j] as int]
            ==> order[i] < order[j]
}

/// Every entry of `order` is a position of `ks`.
pub open spec fn in_range(ks: Seq<KeyView>, order: Seq<usize>) -> bool {
    forall|j: int| 0 <= j < order.len() ==> #[trigger] order[j] < ks.len()
}

/// The key `x` stands at some position of `order`.
pub open spec fn key_listed(ks: Seq<KeyView>, order: Seq<usize>, x: KeyView) -> bool {
    exists|j: int| 0 <= j < order.len() && #[trigger] ks[order[j] as int] == x
}

/// Every key of the first `n` positions of `ks` stands at some position of `order`.
pub open spec fn covers_keys(ks: Seq<KeyView>, order: Seq<usize>, n: int) -> bool {
    forall|k: int| 0 <= k < n ==> key_listed(ks, order, #[trigger] ks[k])
}

proof fn lemma_insert_ascending(ks: Seq<KeyView>, old_order: Seq<usize>, p: int, i: usize)
    requires
        0 <= p <= old_order.len(),
        0 <= i < ks.len(),
        in_range(ks, old_order),
        ascending(ks, old_order),
        forall|j: int| 0 <= j < p ==> !key_lt(ks[i as int], #[trigger] ks[old_order[j] as int]),
        p < old_order.len() ==> key_lt(ks[i as int], ks[old_order[p] as int]),
    ensures
        ascending(ks, old_order.insert(p, i)),
{
    let order = old_order.insert(p, i);
    let x = ks[i as int];
    assert forall|a: int, b: int| 0 <= a < b < order.len() implies !key_lt(
        #[trigger] ks[order[b] as int],
        #[trigger] ks[order[a] as int],
    ) by {
        let ka = ks[order[a] as int];
        let kb = ks[order[b] as int];
        if a < p && b < p {
            assert(order[a] == old_order[a] && order[b] == old_order[b]);
        } else if a < p && b == p {
            assert(order[a] == old_order[a]);
        } else if a < p {
            assert(order[a] == old_order[a] && order[b] == old_order[b - 1]);
            let e = ks[old_order[p] as int];
            if key_lt(kb, ka) {
                lemma_key_cmp_flip(ka, x);
                lemma_key_cmp_equal(ka, x);
                if key_lt(ka, x) {
                    lemma_key_lt_trans(ka, x, e);
                }
                lemma_key_lt_trans(kb, ka, e);
                if b - 1 > p {
                    assert(!key_lt(kb, e));
                } else {
                    lemma_key_cmp_flip(kb, e);
                }
            }
        } else if a == p {
            assert(order[b] == old_order[b - 1]);
            let e = ks[old_order[p] as int];
            if key_lt(kb, x) {
                lemma_key_lt_trans(kb, x, e);
                if b - 1 > p {
                    assert(!key_lt(kb, e));
                } else {
                    lemma_key_cmp_flip(kb, e);
                }
            }
        } else {
            assert(order[a] == old_order[a - 1] && order[b] == old_order[b - 1]);
        }
    }
}

proof fn lemma_insert_strict(ks: Seq<KeyView>, old_order: Seq<usize>, p: int, i: usize)
    requires
        0 <= p <= old_order.len(),
        0 <= i < ks.len(),
        in_range(ks, old_order),
        strictly_ascending(ks, old_order),
        forall|j: int| 0 <= j < p ==> !key_lt(ks[i as int], #[trigger] ks[old_order[j] as int]),
        forall|j: int| 0 <= j < p ==> ks[old_order[j] as int] != #[trigger] ks[i as int],
        p < old_order.len() ==> key_lt(ks[i as int], ks[old_order[p] as int]),
    ensures
        strictly_ascending(ks, old_order.insert(p, i)),
{
    let order = old_order.insert(p, i);
    let x = ks[i as int];
    assert forall|a: int, b: int| 0 <= a < b < order.len() implies key_lt(
        #[trigger] ks[order[a] as int],
        #[trigger] ks[order[b] as int],
    ) by {
        let ka = ks[order[a] as int];
        let kb = ks[order[b] as int];
        if a < p && b < p {
            assert(order[a] == old_order[a] && order[b] == old_order[b]);
        } else if a < p && b == p {
            assert(order[a] == old_order[a]);
            lemma_key_cmp_flip(ka, x);
            lemma_key_cmp_equal(ka, x);
        } else if a < p {
            assert(order[a] == old_order[a] && order[b] == old_order[b - 1]);
        } else if a == p {
            assert(order[b] == old_order[b - 1]);
            let e = ks[old_order[p] as int];
            if b - 1 > p {
                lemma_key_lt_trans(x, e, kb);
            }
        } else {
            assert(order[a] == old_order[a - 1] && order[b] == old_order[b - 1]);
        }
    }
}

proof fn lemma_insert_range(old_order: Seq<usize>, p: int, i: usize)
    requires
        0 <= p <= old_order.len(),
        forall|j: int| 0 <= j < old_order.len() ==> #[trigger] old_order[j] < i,
    ensures
        forall|j: int| 0 <= j < old_order.len() + 1 ==> #[trigger] old_order.insert(p, i)[j] < i + 1,
{
    let order = old_order.insert(p, i);
    assert forall|j: int| 0 <= j < order.len() implies #[trigger] order[j] < i + 1 by {
        if j < p {
            assert(order[j] == old_order[j]);
        } else if j > p {
            assert(order[j] == old_order[j - 1]);
        }
    }
}

proof fn lemma_insert_covers(ks: Seq<KeyView>, old_order: Seq<usize>, p: int, i: usize)
    requires
        0 <= p <= old_order.len(),
        0 <= i < ks.len(),
        covers_keys(ks, old_order, i as int),
    ensures
        covers_keys(ks, old_order.insert(p, i), i + 1),
{
    let order = old_order.insert(p, i);
    assert forall|k: int| 0 <= k < i + 1 implies key_listed(ks, order, #[trigger] ks[k]) by {
        if k == i {
            assert(order[p] == i);
            assert(ks[order[p] as int] == ks[k]);
        } else {
            assert(key_listed(ks, old_order, ks[k]));
            let j0 = choose|j: int| 0 <= j < old_order.len() && #[trigger] ks[old_order[j] as int] == ks[k];
            if j0 < p {
                assert(order[j0] == old_order[j0]);
                assert(ks[order[j0] as int] == ks[k]);
            } else {
                assert(order[j0 + 1] == old_order[j0]);
                assert(ks[order[j0 + 1] as int] == ks[k]);
            }
        }
    }
}

proof fn lemma_insert_stable(ks: Seq<KeyView>, old_order: Seq<usize>, p: int, i: usize)
    requires
        0 <= p <= old_order.len(),
        0 <= i < ks.len(),
        in_range(ks, old_order),
        ascending(ks, old_order),
        stable(ks, old_order),
        forall|j: int| 0 <= j < old_order.len() ==> #[trigger] old_order[j] < i,
        p < old_order.len() ==> key_lt(ks[i as int], ks[old_order[p] as int]),
    ensures
        stable(ks, old_order.insert(p, i)),
{
    let order = old_order.insert(p, i);
    let x = ks[i as int];
    assert forall|a: int, b: int|
        0 <= a < b < order.len() && #[trigger] ks[order[a] as int] == #[trigger] ks[order[b] as int]
            implies order[a] < order[b] by {
        if a < p && b < p {
            assert(order[a] == old_order[a] && order[b] == old_order[b]);
        } else if a < p && b == p {
            assert(order[a] == old_order[a]);
        } else if a < p {
            assert(order[a] == old_order[a] && order[b] == old_order[b - 1]);
        } else if a == p {
            assert(order[b] == old_order[b - 1]);
            let e = ks[old_order[p] as int];
            if b - 1 > p {
                assert(!key_lt(ks[old_order[b - 1] as int], e));
            }
            lemma_key_cmp_flip(x, e);
        } else {
            assert(order[a] == old_order[a - 1] && order[b] == old_order[b - 1]);
        }
    }
}

proof fn lemma_insert_all(old_order: Seq<usize>, p: int, i: usize)
    requires
        0 <= p <= old_order.len(),
        forall|j: int| 0 <= j < old_order.len() ==> #[trigger] old_order[j] < i,
        old_order.no_duplicates(),
        forall|k: usize| k < i ==> #[trigger] old_order.contains(k),
    ensures
        old_order.insert(p, i).no_duplicates(),
        forall|k: usize| k < i + 1 ==> #[trigger] old_order.insert(p, i).contains(k),
{
    let order = old_order.insert(p, i);
    assert forall|a: int, b: int| 0 <= a < b < order.len() implies order[a] != order[b] by {
        if a < p && b < p {
            assert(order[a] == old_order[a] && order[b] == old_order[b]);
        } else if a < p && b == p {
            assert(order[a] == old_order[a]);
        } else if a < p {
            assert(order[a] == old_order[a] && order[b] == old_order[b - 1]);
        } else if a == p {
            assert(order[b] == old_order[b - 1]);
        } else {
            assert(order[a] == old_order[a - 1] && order[b] == old_order[b - 1]);
        }
    }
    assert forall|k: usize| k < i + 1 implies #[trigger] order.contains(k) by {
        if k == i {
            assert(order[p] == i);
        } else {
            assert(old_order.contains(k));
            let j0 = choose|j: int| 0 <= j < old_order.len() && old_order[j] == k;
            if j0 < p {
                assert(order[j0] == old_order[j0]);
            } else {
                assert(order[j0 + 1] == old_order[j0]);
            }
        }
    }
}

/// The positions of `keys` ordered by key: all of them, once each, when `distinct` is
/// false; one position for each distinct key when it is true.
pub fn sorted_positions(keys: &Vec<SortKey>, distinct: bool) -> (order: Vec<usize>)
    ensures
        in_range(keys_of(keys@), order@),
        order@.len() <= keys@.len(),
        covers_keys(keys_of(keys@), order@, keys@.len() as int),
        !distinct ==> ascending(keys_of(keys@), order@),
        !distinct ==> stable(keys_of(keys@), order@),
        !distinct ==> order@.len() == keys@.len(),
        !distinct ==> order@.no_duplicates(),
        !distinct ==> forall|k: usize| k < keys@.len() ==> #[trigger] order@.contains(k),
        distinct ==> strictly_ascending(keys_of(keys@), order@),
{
    let ghost ks = keys_of(keys@);
    let mut order: Vec<usize> = Vec::new();
    let mut i: usize = 0;
    while i < keys.len()
        invariant
            i <= keys@.len(),
            ks == keys_of(keys@),
            order@.len() <= i,
            forall|j: int| 0 <= j < order@.len() ==> #[trigger] order@[j] < i,
            covers_keys(ks, order@, i as int),
            !distinct ==> ascending(ks, order@),
            !distinct ==> stable(ks, order@),
            !distinct ==> order@.len() == i,
            !distinct ==> order@.no_duplicates(),
            !distinct ==> forall|k: usize| k < i ==> #[trigger] order@.contains(k),
            distinct ==> strictly_ascending(ks, order@),
        decreases keys@.len() - i,
    {
        let mut p: usize = 0;
        let mut present = false;
        let mut less = false;
        while p < order.len() && !present && !less
            invariant
                i < keys@.len(),
                ks == keys_of(keys@),
                p <= order@.len(),
                forall|j: int| 0 <= j < order@.len() ==> #[trigger] order@[j] < i,
                forall|j: int| 0 <= j < p ==> !key_lt(ks[i as int], #[trigger] ks[order@[j] as int]),
                distinct ==> forall|j: int| 0 <= j < p ==> ks[order@[j] as int] != #[trigger] ks[i as int],
                present ==> distinct && p < order@.len() && ks[order@[p as int] as int] == ks[i as int],
                less ==> !present && p < order@.len() && key_lt(ks[i as int], ks[order@[p as int] as int]),
            decreases order@.len() - p + (if present || less { 0int } else { 1int }),
        {
            let c = compare_keys(&keys[i], &keys[order[p]]);
            proof {
                lemma_key_cmp_equal(ks[i as int], ks[order@[p as int] as int]);
            }
            if matches!(c, Ordering::Less) {
                less = true;
            } else if distinct && matches!(c, Ordering::Equal) {
                present = true;
            } else {
                p = p + 1;
            }
        }
        let ghost old_order = order@;
        if !present {
            order.insert(p, i);
            proof {
                lemma_insert_range(old_order, p as int, i);
                lemma_insert_covers(ks, old_order, p as int, i);
                if distinct {
                    lemma_insert_strict(ks, old_order, p as int, i);
                } else {
                    lemma_insert_all(old_order, p as int, i);
                    lemma_insert_stable(ks, old_order, p as int, i);
                    lemma_insert_ascending(ks, old_order, p as int, i);
                }
            }
        } else {
            proof {
                assert forall|k: int| 0 <= k < i + 1 implies key_listed(ks, order@, #[trigger] ks[k]) by {
                    if k == i {
                        assert(ks[order@[p as int] as int] == ks[k]);
                    }
                }
            }
        }
        i = i + 1;
    }
    order
}

/// Keys that strictly increase along the list.
pub open spec fn strictly_sorted(ks: Seq<KeyView>) -> bool {
    forall|i: int, j: int| 0 <= i < j < ks.len() ==> key_lt(#[trigger] ks[i], #[trigger] ks[j])
}

/// Keys that never decrease along the list.
pub open spec fn sorted(ks: Seq<KeyView>) -> bool {
    forall|i: int, j: int| 0 <= i < j < ks.len() ==> !key_lt(#[trigger] ks[j], #[trigger] ks[i])
}

/// Texts that strictly increase along the list.
pub open spec fn texts_strictly_sorted(ts: Seq<Seq<char>>) -> bool {
    forall|i: int, j: int|
        0 <= i < j < ts.len() ==> text_cmp(#[trigger] ts[i], #[trigger] ts[j]) == Ordering::Less
}

/// The key of a single text.
pub open spec fn text_key(t: Seq<char>) -> KeyView {
    (t, Seq::empty(), Seq::empty())
}

/// Single texts order as their keys do.
pub proof fn lemma_text_key_lt(a: Seq<char>, b: Seq<char>)
    ensures
        key_lt(text_key(a), text_key(b)) <==> text_cmp(a, b) == Ordering::Less,
{
    let e = Seq::<char>::empty();
    assert(text_cmp(e, e) == Ordering::Equal);
}

/// Keys listed at the positions that `sorted_positions` chose with `distinct`: they
/// strictly increase, and they are the keys of the whole list.
pub proof fn lemma_distinct_listing(ks: Seq<KeyView>, order: Seq<usize>, outk: Seq<KeyView>)
    requires
        in_range(ks, order),
        covers_keys(ks, order, ks.len() as int),
        strictly_ascending(ks, order),
        outk.len() == order.len(),
        forall|j: int| 0 <= j < outk.len() ==> #[trigger] outk[j] == ks[order[j] as int],
    ensures
        strictly_sorted(outk),
        outk.to_set() == ks.to_set(),
{
    assert forall|i: int, j: int| 0 <= i < j < outk.len() implies key_lt(
        #[trigger] outk[i],
        #[trigger] outk[j],
    ) by {
        assert(key_lt(ks[order[i] as int], ks[order[j] as int]));
    }
    assert forall|v: KeyView| outk.to_set().contains(v) <==> ks.to_set().contains(v) by {
        if outk.contains(v) {
            let j = choose|j: int| 0 <= j < outk.len() && outk[j] == v;
            assert(ks[order[j] as int] == v);
        }
        if ks.contains(v) {
            let k = choose|k: int| 0 <= k < ks.len() && ks[k] == v;
            assert(key_listed(ks, order, ks[k]));
            let j = choose|j: int| 0 <= j < order.len() && #[trigger] ks[order[j] as int] == ks[k];
            assert(outk[j] == v);
        }
    }
    assert(outk.to_set() =~= ks.to_set());
}

/// Keys listed at the positions that `sorted_positions` chose without `distinct`: they
/// never decrease.
pub proof fn lemma_full_listing(ks: Seq<KeyView>, order: Seq<usize>, outk: Seq<KeyView>)
    requires
        in_range(ks, order),
        ascending(ks, order),
        outk.len() == order.len(),
        forall|j: int| 0 <= j < outk.len() ==> #[trigger] outk[j] == ks[order[j] as int],
    ensures
        sorted(outk),
{
    assert forall|i: int, j: int| 0 <= i < j < outk.len() implies !key_lt(
        #[trigger] outk[j],
        #[trigger] outk[i],
    ) by {
        assert(!key_lt(ks[order[j] as int], ks[order[i] as int]));
    }
}

/// Keys listed at all positions, as `sorted_positions` chose them without `distinct`:
/// they never decrease, and they are the keys of the whole list.
pub proof fn lemma_full_keys(ks: Seq<KeyView>, order: Seq<usize>, outk: Seq<KeyView>)
    requires
        ks.len() <= usize::MAX,
        in_range(ks, order),
        ascending(ks, order),
        forall|k: usize| k < ks.len() ==> #[trigger] order.contains(k),
        outk.len() == order.len(),
        forall|j: int| 0 <= j < outk.len() ==> #[trigger] outk[j] == ks[order[j] as int],
    ensures
        sorted(outk),
        outk.to_set() == ks.to_set(),
{
    lemma_full_listing(ks, order, outk);
    assert forall|v: KeyView| outk.to_set().contains(v) <==> ks.to_set().contains(v) by {
        if outk.contains(v) {
            let j = choose|j: int| 0 <= j < outk.len() && outk[j] == v;
            assert(ks[order[j] as int] == v);
        }
        if ks.contains(v) {
            let k = choose|k: int| 0 <= k < ks.len() && ks[k] == v;
            assert(order.contains(k as usize));
            let j = choose|j: int| 0 <= j < order.len() && order[j] == k as usize;
            assert(order[j] as int == k);
            assert(outk[j] == ks[k]);
        }
    }
    assert(outk.to_set() =~= ks.to_set());
}

/// Strictly increasing keys are distinct, so there are as many as in their set.
pub proof fn lemma_strict_len(ks: Seq<KeyView>)
    requires
        strictly_sorted(ks),
    ensures
        ks.len() == ks.to_set().len(),
{
    assert forall|a: int, b: int| 0 <= a < b < ks.len() implies ks[a] != ks[b] by {
        assert(key_lt(ks[a], ks[b]));
        lemma_key_cmp_equal(ks[a], ks[b]);
    }
    ks.unique_seq_to_set();
}

} // verus!
