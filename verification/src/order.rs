//! Putting items in order by a key, items with equal keys in the order they
//! came in.

use vstd::prelude::*;

use crate::text::{before, text_lt, text_order_is_total, text_order_is_transitive};

verus! {

/// What an item is ordered by: a number first, then a text.
#[derive(Debug)]
pub struct SortKey {
    pub number: u32,
    pub text: String,
}

/// What a [`SortKey`] holds.
pub struct KeyView {
    pub number: nat,
    pub text: Seq<char>,
}

impl View for SortKey {
    type V = KeyView;

    open spec fn view(&self) -> KeyView {
        KeyView { number: self.number as nat, text: self.text@ }
    }
}

/// What `keys` hold.
pub open spec fn key_views(keys: Seq<SortKey>) -> Seq<KeyView> {
    keys.map_values(|k: SortKey| k@)
}

/// `items` arranged as `order` says.
pub open spec fn arrange<T>(items: Seq<T>, order: Seq<usize>) -> Seq<T> {
    Seq::new(order.len(), |i: int| items[order[i] as int])
}

/// `a` comes before `b`.
pub open spec fn key_lt(a: KeyView, b: KeyView) -> bool {
    a.number < b.number || a.number == b.number && text_lt(a.text, b.text)
}

/// Item `i` comes before item `j`: its key does, or the keys are equal and `i`
/// came in first.
pub open spec fn comes_before(keys: Seq<KeyView>, i: int, j: int) -> bool {
    ||| key_lt(keys[i], keys[j])
    ||| !key_lt(keys[j], keys[i]) && i < j
}

/// `order` holds each position of `keys` once, each item before those that it
/// comes before.
pub open spec fn is_order(keys: Seq<KeyView>, order: Seq<usize>) -> bool {
    &&& order.len() == keys.len()
    &&& forall|a: int| 0 <= a < order.len() ==> (#[trigger] order[a]) < keys.len()
    &&& forall|a: int, b: int|
        0 <= a < b < order.len() ==> comes_before(
            keys,
            #[trigger] order[a] as int,
            #[trigger] order[b] as int,
        )
}

/// Whether `a` comes before `b`.
fn key_before(a: &SortKey, b: &SortKey) -> (r: bool)
    ensures
        r == key_lt(a@, b@),
{
    if a.number != b.number {
        a.number < b.number
    } else {
        before(a.text.as_str(), b.text.as_str())
    }
}

proof fn lemma_key_total(a: KeyView, b: KeyView)
    ensures
        key_lt(a, b) ==> !key_lt(b, a),
{
    text_order_is_total(a.text, b.text);
}

proof fn lemma_key_transitive(a: KeyView, b: KeyView, c: KeyView)
    ensures
        key_lt(a, b) && key_lt(b, c) ==> key_lt(a, c),
        key_lt(a, b) && !key_lt(c, b) ==> key_lt(a, c),
        !key_lt(b, a) && key_lt(b, c) ==> key_lt(a, c),
        !key_lt(b, a) && !key_lt(c, b) ==> !key_lt(c, a),
{
    text_order_is_total(a.text, b.text);
    text_order_is_total(b.text, c.text);
    text_order_is_total(a.text, c.text);
    if text_lt(a.text, b.text) && text_lt(b.text, c.text) {
        text_order_is_transitive(a.text, b.text, c.text);
    }
    if text_lt(c.text, a.text) && text_lt(a.text, b.text) {
        text_order_is_transitive(c.text, a.text, b.text);
    }
    if text_lt(b.text, c.text) && text_lt(c.text, a.text) {
        text_order_is_transitive(b.text, c.text, a.text);
    }
}

proof fn lemma_before_transitive(keys: Seq<KeyView>, i: int, j: int, k: int)
    requires
        comes_before(keys, i, j),
        comes_before(keys, j, k),
    ensures
        comes_before(keys, i, k),
{
    lemma_key_transitive(keys[i], keys[j], keys[k]);
    lemma_key_total(keys[i], keys[j]);
    lemma_key_total(keys[j], keys[k]);
    lemma_key_total(keys[i], keys[k]);
}

proof fn lemma_before_total(keys: Seq<KeyView>, i: int, j: int)
    ensures
        i != j ==> comes_before(keys, i, j) || comes_before(keys, j, i),
        comes_before(keys, i, j) ==> !comes_before(keys, j, i),
        !comes_before(keys, i, i),
{
    lemma_key_total(keys[i], keys[j]);
    lemma_key_total(keys[i], keys[i]);
}

/// What comes later in an order never has a lesser key.
pub proof fn order_is_sorted(keys: Seq<KeyView>, order: Seq<usize>, a: int, b: int)
    requires
        is_order(keys, order),
        0 <= a <= b < order.len(),
    ensures
        !key_lt(keys[order[b] as int], keys[order[a] as int]),
        keys[order[a] as int].number <= keys[order[b] as int].number,
        keys[order[a] as int].number == keys[order[b] as int].number ==> !text_lt(
            keys[order[b] as int].text,
            keys[order[a] as int].text,
        ),
        keys[order[a] as int] == keys[order[b] as int] ==> order[a] <= order[b],
{
    text_order_is_total(keys[order[a] as int].text, keys[order[a] as int].text);
    lemma_key_total(keys[order[b] as int], keys[order[a] as int]);
    if a < b {
        assert(comes_before(keys, order[a] as int, order[b] as int));
    }
}

/// An order holds each position, and holds none twice.
pub proof fn order_holds_each(keys: Seq<KeyView>, order: Seq<usize>)
    requires
        is_order(keys, order),
        keys.len() <= usize::MAX,
    ensures
        order.no_duplicates(),
        forall|i: int| 0 <= i < keys.len() ==> order.contains(#[trigger] (i as usize)),
{
    assert forall|a: int, b: int| 0 <= a < order.len() && 0 <= b < order.len() && a
        != b implies order[a] != order[b] by {
        if a < b {
            lemma_before_total(keys, order[a] as int, order[b] as int);
        } else {
            lemma_before_total(keys, order[b] as int, order[a] as int);
        }
    }
    order.unique_seq_to_set();
    let all = Set::new(|x: usize| x < keys.len());
    lemma_below_count(keys.len() as nat, all);
    assert(order.to_set().subset_of(all));
    vstd::set_lib::lemma_subset_equality(order.to_set(), all);
    assert forall|i: int| 0 <= i < keys.len() implies order.contains(#[trigger] (i as usize)) by {
        assert(all.contains(i as usize));
        assert(order.to_set().contains(i as usize));
    }
}

proof fn lemma_below_count(n: nat, all: Set<usize>)
    requires
        n <= usize::MAX,
        all == Set::new(|x: usize| x < n),
    ensures
        all.finite(),
        all.len() == n,
    decreases n,
{
    if n == 0 {
        assert(all =~= Set::empty());
    } else {
        let m = (n - 1) as nat;
        let fewer = Set::new(|x: usize| x < m);
        lemma_below_count(m, fewer);
        assert(all =~= fewer.insert(m as usize));
    }
}

/// There is only one order: two that both are one are the same.
pub proof fn order_is_unique(keys: Seq<KeyView>, a: Seq<usize>, b: Seq<usize>)
    requires
        is_order(keys, a),
        is_order(keys, b),
        keys.len() <= usize::MAX,
    ensures
        a == b,
{
    order_holds_each(keys, a);
    order_holds_each(keys, b);
    assert forall|k: int| 0 <= k < a.len() implies a[k] == b[k] by {
        lemma_same_at(keys, a, b, k);
    }
    assert(a =~= b);
}

proof fn lemma_same_at(keys: Seq<KeyView>, a: Seq<usize>, b: Seq<usize>, k: int)
    requires
        is_order(keys, a),
        is_order(keys, b),
        keys.len() <= usize::MAX,
        0 <= k < a.len(),
    ensures
        a[k] == b[k],
    decreases k,
{
    order_holds_each(keys, a);
    order_holds_each(keys, b);
    assert forall|j: int| 0 <= j < k implies #[trigger] a[j] == b[j] by {
        lemma_same_at(keys, a, b, j);
    }
    if a[k] != b[k] {
        let x = a[k];
        let y = b[k];
        assert(b.contains((x as int) as usize));
        assert(a.contains((y as int) as usize));
        let p = choose|p: int| 0 <= p < b.len() && b[p] == x;
        let q = choose|q: int| 0 <= q < a.len() && a[q] == y;
        if p < k {
            assert(a[p] == b[p]);
        }
        if q < k {
            assert(a[q] == b[q]);
        }
        assert(comes_before(keys, y as int, x as int));
        assert(comes_before(keys, x as int, y as int));
        lemma_before_total(keys, x as int, y as int);
    }
}

/// The positions of `keys` in the order of the keys; equal keys stay in the
/// order they came in.
pub fn stable_order(keys: &Vec<SortKey>) -> (r: Vec<usize>)
    ensures
        is_order(key_views(keys@), r@),
{
    let ghost ks = key_views(keys@);
    let mut order: Vec<usize> = Vec::new();
    for i in 0..keys.len()
        invariant
            ks == key_views(keys@),
            order@.len() == i,
            forall|a: int| 0 <= a < order@.len() ==> (#[trigger] order@[a]) < i,
            forall|a: int, b: int|
                0 <= a < b < order@.len() ==> comes_before(
                    ks,
                    #[trigger] order@[a] as int,
                    #[trigger] order@[b] as int,
                ),
            i <= keys@.len(),
    {
        let mut lo: usize = 0;
        let mut hi: usize = order.len();
        while lo < hi
            invariant
                ks == key_views(keys@),
                lo <= hi <= order@.len(),
                order@.len() == i,
                i < keys@.len(),
                forall|a: int| 0 <= a < order@.len() ==> (#[trigger] order@[a]) < i,
                forall|a: int, b: int|
                    0 <= a < b < order@.len() ==> comes_before(
                        ks,
                        #[trigger] order@[a] as int,
                        #[trigger] order@[b] as int,
                    ),
                forall|a: int|
                    0 <= a < lo ==> comes_before(ks, #[trigger] order@[a] as int, i as int),
                forall|a: int|
                    hi <= a < order@.len() ==> comes_before(
                        ks,
                        i as int,
                        #[trigger] order@[a] as int,
                    ),
            decreases hi - lo,
        {
            let mid: usize = lo + (hi - lo) / 2;
            let at: usize = order[mid];
            if key_before(&keys[i], &keys[at]) {
                proof {
                    assert(comes_before(ks, i as int, at as int));
                    assert forall|a: int| mid <= a < order@.len() implies comes_before(
                        ks,
                        i as int,
                        #[trigger] order@[a] as int,
                    ) by {
                        if a > mid {
                            assert(order@[mid as int] == at);
                            lemma_before_transitive(ks, i as int, at as int, order@[a] as int);
                        }
                    }
                }
                hi = mid;
            } else {
                proof {
                    assert(comes_before(ks, at as int, i as int));
                    assert forall|a: int| 0 <= a < mid + 1 implies comes_before(
                        ks,
                        #[trigger] order@[a] as int,
                        i as int,
                    ) by {
                        if a < mid {
                            assert(order@[mid as int] == at);
                            lemma_before_transitive(ks, order@[a] as int, at as int, i as int);
                        }
                    }
                }
                lo = mid + 1;
            }
        }
        let ghost was = order@;
        order.insert(lo, i);
        proof {
            assert(order@ == was.insert(lo as int, i));
            assert forall|a: int| 0 <= a < order@.len() implies (#[trigger] order@[a]) < i + 1 by {
                if a < lo {
                    assert(order@[a] == was[a]);
                } else if a > lo {
                    assert(order@[a] == was[a - 1]);
                }
            }
            assert forall|a: int, b: int| 0 <= a < b < order@.len() implies comes_before(
                ks,
                #[trigger] order@[a] as int,
                #[trigger] order@[b] as int,
            ) by {
                if a < lo {
                    assert(order@[a] == was[a]);
                } else if a > lo {
                    assert(order@[a] == was[a - 1]);
                }
                if b < lo {
                    assert(order@[b] == was[b]);
                } else if b > lo {
                    assert(order@[b] == was[b - 1]);
                }
            }
        }
    }
    order
}

} // verus!
