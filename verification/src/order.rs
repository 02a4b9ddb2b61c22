//! Stable sorting, and the ascending listing of a set of numbers.
use vstd::prelude::*;

verus! {

/// A key that values are sorted by.
pub trait SortKey: Sized {
    /// This key does not come after `other`.
    spec fn not_after(self, other: Self) -> bool;

    /// Any two keys can be compared.
    proof fn comparable(a: Self, b: Self)
        ensures
            a.not_after(b) || b.not_after(a),
    ;

    /// The comparison chains.
    proof fn chains(a: Self, b: Self, c: Self)
        requires
            a.not_after(b),
            b.not_after(c),
        ensures
            a.not_after(c),
    ;

    /// Whether this key does not come after `other`.
    fn is_not_after(&self, other: &Self) -> (r: bool)
        ensures
            r == self.not_after(*other),
    ;
}

impl SortKey for u64 {
    open spec fn not_after(self, other: u64) -> bool {
        self <= other
    }

    proof fn comparable(a: u64, b: u64) {
    }

    proof fn chains(a: u64, b: u64, c: u64) {
    }

    fn is_not_after(&self, other: &u64) -> (r: bool) {
        *self <= *other
    }
}

/// Texts in dictionary order of their characters' code points.
pub open spec fn text_not_after(a: Seq<char>, b: Seq<char>) -> bool
    decreases a.len(),
{
    if a.len() == 0 {
        true
    } else if b.len() == 0 {
        false
    } else if a[0] != b[0] {
        a[0] < b[0]
    } else {
        text_not_after(a.drop_first(), b.drop_first())
    }
}

/// Any two texts can be compared.
pub proof fn lemma_text_comparable(a: Seq<char>, b: Seq<char>)
    ensures
        text_not_after(a, b) || text_not_after(b, a),
    decreases a.len(),
{
    if a.len() > 0 && b.len() > 0 && a[0] == b[0] {
        lemma_text_comparable(a.drop_first(), b.drop_first());
    }
}

/// The comparison of texts chains.
pub proof fn lemma_text_chains(a: Seq<char>, b: Seq<char>, c: Seq<char>)
    requires
        text_not_after(a, b),
        text_not_after(b, c),
    ensures
        text_not_after(a, c),
    decreases a.len(),
{
    if a.len() > 0 && b.len() > 0 && c.len() > 0 && a[0] == b[0] && b[0] == c[0] {
        lemma_text_chains(a.drop_first(), b.drop_first(), c.drop_first());
    }
}

/// Two texts of which neither comes after the other are the same.
pub proof fn lemma_text_same(a: Seq<char>, b: Seq<char>)
    requires
        text_not_after(a, b),
        text_not_after(b, a),
    ensures
        a == b,
    decreases a.len(),
{
    if a.len() > 0 {
        lemma_text_same(a.drop_first(), b.drop_first());
        assert(a =~= seq![a[0]] + a.drop_first());
        assert(b =~= seq![b[0]] + b.drop_first());
    } else {
        assert(a =~= b);
    }
}

impl SortKey for Vec<char> {
    open spec fn not_after(self, other: Vec<char>) -> bool {
        text_not_after(self@, other@)
    }

    proof fn comparable(a: Vec<char>, b: Vec<char>) {
        lemma_text_comparable(a@, b@);
    }

    proof fn chains(a: Vec<char>, b: Vec<char>, c: Vec<char>) {
        lemma_text_chains(a@, b@, c@);
    }

    fn is_not_after(&self, other: &Vec<char>) -> (r: bool) {
        let mut i: usize = 0;
        assert(self@.skip(0) =~= self@);
        assert(other@.skip(0) =~= other@);
        while i < self.len() && i < other.len()
            invariant
                i <= self.len(),
                i <= other.len(),
                self.not_after(*other) == text_not_after(self@, other@),
                text_not_after(self@, other@) == text_not_after(
                    self@.skip(i as int),
                    other@.skip(i as int),
                ),
            decreases self.len() - i,
        {
            if self[i] != other[i] {
                return self[i] < other[i];
            }
            assert(self@.skip(i as int).drop_first() =~= self@.skip(i + 1));
            assert(other@.skip(i as int).drop_first() =~= other@.skip(i + 1));
            i = i + 1;
        }
        i == self.len()
    }
}

/// In a stable order of `keys`, position `x` precedes position `y`: its key
/// is smaller, or the keys are level and it stood first.
pub open spec fn precedes<K: SortKey>(keys: Seq<K>, x: usize, y: usize) -> bool {
    &&& keys[x as int].not_after(keys[y as int])
    &&& keys[y as int].not_after(keys[x as int]) ==> x < y
}

/// `order` lists the positions `lo..hi` of `keys`, each once, in stable order.
pub open spec fn is_stable_order<K: SortKey>(
    keys: Seq<K>,
    order: Seq<usize>,
    lo: int,
    hi: int,
) -> bool {
    &&& order.len() == hi - lo
    &&& forall|i: int| 0 <= i < order.len() ==> lo <= #[trigger] order[i] < hi
    &&& forall|i: int, j: int|
        0 <= i < j < order.len() ==> precedes(keys, #[trigger] order[i], #[trigger] order[j])
    &&& forall|x: usize| lo <= x < hi ==> order.contains(x)
}

/// Merges two stable orders of neighbouring stretches.
fn merge_orders<K: SortKey>(
    keys: &Vec<K>,
    left: &Vec<usize>,
    right: &Vec<usize>,
    lo: usize,
    mid: usize,
    hi: usize,
) -> (out: Vec<usize>)
    requires
        lo <= mid <= hi <= keys.len(),
        is_stable_order(keys@, left@, lo as int, mid as int),
        is_stable_order(keys@, right@, mid as int, hi as int),
    ensures
        is_stable_order(keys@, out@, lo as int, hi as int),
{
    let mut out: Vec<usize> = Vec::new();
    let mut i: usize = 0;
    let mut j: usize = 0;
    while i < left.len() || j < right.len()
        invariant
            lo <= mid <= hi <= keys.len(),
            is_stable_order(keys@, left@, lo as int, mid as int),
            is_stable_order(keys@, right@, mid as int, hi as int),
            i <= left.len(),
            j <= right.len(),
            out.len() == i + j,
            forall|k: int| 0 <= k < out.len() ==> lo <= #[trigger] out[k] < hi,
            forall|k: int, m: int|
                0 <= k < m < out.len() ==> precedes(keys@, #[trigger] out[k], #[trigger] out[m]),
            forall|k: int, m: int|
                0 <= k < out.len() && i <= m < left.len() ==> precedes(
                    keys@,
                    #[trigger] out[k],
                    #[trigger] left[m],
                ),
            forall|k: int, m: int|
                0 <= k < out.len() && j <= m < right.len() ==> precedes(
                    keys@,
                    #[trigger] out[k],
                    #[trigger] right[m],
                ),
            forall|k: int| 0 <= k < i ==> out@.contains(#[trigger] left[k]),
            forall|k: int| 0 <= k < j ==> out@.contains(#[trigger] right[k]),
        decreases left.len() - i + right.len() - j,
    {
        let take_left: bool = j == right.len() || (i < left.len() && keys[left[i]].is_not_after(
            &keys[right[j]],
        ));
        let ghost before = out@;
        let next: usize = if take_left {
            left[i]
        } else {
            right[j]
        };
        proof {
            if i < left.len() && j < right.len() {
                let l = keys[left[i as int] as int];
                let r = keys[right[j as int] as int];
                K::comparable(l, r);
                if take_left {
                    assert forall|m: int| j <= m < right.len() implies precedes(
                        keys@,
                        next,
                        #[trigger] right[m],
                    ) by {
                        if m > j {
                            assert(precedes(keys@, right[j as int], right[m]));
                        }
                        K::comparable(r, keys[right[m] as int]);
                        K::chains(l, r, keys[right[m] as int]);
                    }
                } else {
                    assert forall|m: int| i <= m < left.len() implies precedes(
                        keys@,
                        next,
                        #[trigger] left[m],
                    ) by {
                        let k = keys[left[m] as int];
                        if m > i {
                            assert(precedes(keys@, left[i as int], left[m]));
                        } else {
                            K::comparable(k, k);
                        }
                        K::chains(r, l, k);
                        if k.not_after(r) {
                            K::chains(l, k, r);
                        }
                    }
                }
            }
        }
        out.push(next);
        proof {
            assert(out@ =~= before.push(next));
            assert forall|k: int| 0 <= k < before.len() implies out@.contains(before[k]) by {
                assert(out[k] == before[k]);
            }
            assert(out[before.len() as int] == next);
        }
        if take_left {
            i = i + 1;
        } else {
            j = j + 1;
        }
    }
    proof {
        assert forall|x: usize| lo <= x < hi implies out@.contains(x) by {
            if x < mid {
                assert(left@.contains(x));
                let k = choose|k: int| 0 <= k < left.len() && left[k] == x;
                assert(out@.contains(left[k]));
            } else {
                assert(right@.contains(x));
                let k = choose|k: int| 0 <= k < right.len() && right[k] == x;
                assert(out@.contains(right[k]));
            }
        }
    }
    out
}

/// The stable order of the positions `lo..hi` of `keys`.
fn order_stretch<K: SortKey>(keys: &Vec<K>, lo: usize, hi: usize) -> (out: Vec<usize>)
    requires
        lo <= hi <= keys.len(),
    ensures
        is_stable_order(keys@, out@, lo as int, hi as int),
    decreases hi - lo,
{
    if hi - lo == 0 {
        return Vec::new();
    }
    if hi - lo == 1 {
        let mut out: Vec<usize> = Vec::new();
        out.push(lo);
        assert(out[0] == lo);
        return out;
    }
    let mid: usize = lo + (hi - lo) / 2;
    let left = order_stretch(keys, lo, mid);
    let right = order_stretch(keys, mid, hi);
    merge_orders(keys, &left, &right, lo, mid, hi)
}

/// The positions of `keys` in ascending order of their keys; positions with
/// level keys stay in the order in which they stand.
pub fn stable_order<K: SortKey>(keys: &Vec<K>) -> (out: Vec<usize>)
    ensures
        is_stable_order(keys@, out@, 0, keys.len() as int),
{
    order_stretch(keys, 0, keys.len())
}

/// Keys in one stable order only: any two are the same.
pub proof fn lemma_stable_order_unique<K: SortKey>(keys: Seq<K>, a: Seq<usize>, b: Seq<usize>, hi: int)
    requires
        is_stable_order(keys, a, 0, hi),
        is_stable_order(keys, b, 0, hi),
        hi <= usize::MAX,
    ensures
        a == b,
{
    lemma_stable_order_prefix(keys, a, b, hi, hi);
    assert(a =~= b);
}

proof fn lemma_stable_order_prefix<K: SortKey>(
    keys: Seq<K>,
    a: Seq<usize>,
    b: Seq<usize>,
    hi: int,
    n: int,
)
    requires
        is_stable_order(keys, a, 0, hi),
        is_stable_order(keys, b, 0, hi),
        0 <= n <= hi <= usize::MAX,
    ensures
        forall|i: int| 0 <= i < n ==> a[i] == b[i],
    decreases n,
{
    if n > 0 {
        let m = n - 1;
        lemma_stable_order_prefix(keys, a, b, hi, m);
        if a[m] != b[m] {
            assert(b.contains(a[m]));
            assert(a.contains(b[m]));
            let p = choose|p: int| 0 <= p < b.len() && b[p] == a[m];
            let q = choose|q: int| 0 <= q < a.len() && a[q] == b[m];
            if p < m {
                assert(a[p] == b[p]);
                assert(precedes(keys, a[p], a[m]));
            } else if q < m {
                assert(a[q] == b[q]);
                assert(precedes(keys, b[q], b[m]));
            } else {
                assert(precedes(keys, b[m], b[p]));
                assert(precedes(keys, a[m], a[q]));
            }
        }
    }
}

// ── Ascending listings ──────────────────────────────────────────────────────

/// `list` holds exactly the numbers of `set`, in ascending order.
pub open spec fn is_ascending(list: Seq<u32>, set: Set<u32>) -> bool {
    &&& forall|i: int, j: int| 0 <= i < j < list.len() ==> #[trigger] list[i] < #[trigger] list[j]
    &&& forall|k: u32| set.contains(k) <==> #[trigger] list.contains(k)
}

/// The numbers of `set` in ascending order.
pub open spec fn ascending(set: Set<u32>) -> Seq<u32> {
    choose|list: Seq<u32>| is_ascending(list, set)
}

/// A set has one ascending listing.
pub proof fn lemma_ascending_unique(a: Seq<u32>, b: Seq<u32>, set: Set<u32>)
    requires
        is_ascending(a, set),
        is_ascending(b, set),
    ensures
        a == b,
{
    let n = if a.len() < b.len() { a.len() as int } else { b.len() as int };
    lemma_ascending_prefix(a, b, set, n);
    if a.len() < b.len() {
        let k = b[n];
        assert(b.contains(k));
        assert(a.contains(k));
        let i = choose|i: int| 0 <= i < a.len() && a[i] == k;
        assert(b[i] < b[n]);
    } else if b.len() < a.len() {
        let k = a[n];
        assert(a.contains(k));
        assert(b.contains(k));
        let i = choose|i: int| 0 <= i < b.len() && b[i] == k;
        assert(a[i] < a[n]);
    }
    assert(a =~= b);
}

proof fn lemma_ascending_prefix(a: Seq<u32>, b: Seq<u32>, set: Set<u32>, n: int)
    requires
        is_ascending(a, set),
        is_ascending(b, set),
        0 <= n <= a.len(),
        n <= b.len(),
    ensures
        forall|i: int| 0 <= i < n ==> a[i] == b[i],
    decreases n,
{
    if n > 0 {
        let m = n - 1;
        lemma_ascending_prefix(a, b, set, m);
        assert(a.contains(a[m]));
        assert(b.contains(b[m]));
        assert(set.contains(a[m]) && set.contains(b[m]));
        let p = choose|p: int| 0 <= p < b.len() && b[p] == a[m];
        let q = choose|q: int| 0 <= q < a.len() && a[q] == b[m];
        assert(b.contains(a[m]) && a.contains(b[m]));
        if a[m] != b[m] {
            if p < m {
                assert(a[p] < a[m]);
            } else if q < m {
                assert(b[q] < b[m]);
            } else {
                assert(b[m] < b[p]);
                assert(a[m] < a[q]);
            }
        }
    }
}

/// A list found to be ascending is `ascending`.
pub proof fn lemma_ascending_is(list: Seq<u32>, set: Set<u32>)
    requires
        is_ascending(list, set),
    ensures
        ascending(set) == list,
{
    lemma_ascending_unique(ascending(set), list, set);
}

/// Every finite set has an ascending listing.
pub proof fn lemma_ascending_exists(set: Set<u32>)
    requires
        set.finite(),
    ensures
        is_ascending(ascending(set), set),
        ascending(set).len() == set.len(),
    decreases set.len(),
{
    if set.len() == 0 {
        assert(set =~= Set::empty());
        assert(is_ascending(Seq::<u32>::empty(), set));
        lemma_ascending_is(Seq::empty(), set);
    } else {
        let top = lemma_has_maximum(set);
        let rest = set.remove(top);
        lemma_ascending_exists(rest);
        let list = ascending(rest).push(top);
        assert forall|i: int, j: int| 0 <= i < j < list.len() implies #[trigger] list[i]
            < #[trigger] list[j] by {
            assert(ascending(rest).contains(ascending(rest)[i]));
            assert(rest.contains(list[i]));
        }
        assert forall|k: u32| set.contains(k) <==> #[trigger] list.contains(k) by {
            if set.contains(k) {
                if k == top {
                    assert(list[list.len() - 1] == k);
                } else {
                    assert(rest.contains(k));
                    assert(ascending(rest).contains(k));
                    let i = choose|i: int|
                        0 <= i < ascending(rest).len() && ascending(rest)[i] == k;
                    assert(list[i] == k);
                }
            }
            if list.contains(k) {
                let i = choose|i: int| 0 <= i < list.len() && list[i] == k;
                if i < list.len() - 1 {
                    assert(ascending(rest)[i] == k);
                    assert(ascending(rest).contains(k));
                }
            }
        }
        lemma_ascending_is(list, set);
    }
}

proof fn lemma_has_maximum(set: Set<u32>) -> (top: u32)
    requires
        set.finite(),
        set.len() > 0,
    ensures
        set.contains(top),
        forall|k: u32| set.contains(k) ==> k <= top,
    decreases set.len(),
{
    let some = set.choose();
    let rest = set.remove(some);
    if rest.len() == 0 {
        assert(forall|k: u32| set.contains(k) ==> k == some || rest.contains(k));
        assert(rest =~= Set::empty());
        some
    } else {
        let top = lemma_has_maximum(rest);
        if some > top {
            assert(forall|k: u32| set.contains(k) ==> k == some || rest.contains(k));
            some
        } else {
            assert(forall|k: u32| set.contains(k) ==> k == some || rest.contains(k));
            top
        }
    }
}

/// The numbers of a list without repeats, in ascending order.
pub fn sorted_numbers(list: &Vec<u32>) -> (out: Vec<u32>)
    requires
        list@.no_duplicates(),
    ensures
        is_ascending(out@, list@.to_set()),
        out@ == ascending(list@.to_set()),
{
    let mut keys: Vec<u64> = Vec::new();
    let mut i: usize = 0;
    while i < list.len()
        invariant
            i <= list.len(),
            keys.len() == i,
            forall|j: int| 0 <= j < i ==> keys[j] == list[j],
        decreases list.len() - i,
    {
        keys.push(list[i] as u64);
        i = i + 1;
    }
    let order = stable_order(&keys);
    let mut out: Vec<u32> = Vec::new();
    let mut j: usize = 0;
    while j < order.len()
        invariant
            j <= order.len(),
            keys.len() == list.len(),
            list@.no_duplicates(),
            forall|j: int| 0 <= j < list.len() ==> keys[j] == list[j],
            is_stable_order(keys@, order@, 0, keys.len() as int),
            out.len() == j,
            forall|k: int| 0 <= k < j ==> out[k] == list[order[k] as int],
        decreases order.len() - j,
    {
        assert(order[j as int] < keys.len());
        out.push(list[order[j]]);
        j = j + 1;
    }
    proof {
        assert forall|a: int, b: int| 0 <= a < b < out.len() implies #[trigger] out[a]
            < #[trigger] out[b] by {
            assert(precedes(keys@, order[a], order[b]));
            assert(keys[order[a] as int] == list[order[a] as int]);
            assert(keys[order[b] as int] == list[order[b] as int]);
            if order[a] == order[b] {
                assert(order[a] < order[b]);
            }
        }
        assert forall|k: u32| list@.to_set().contains(k) <==> #[trigger] out@.contains(k) by {
            if list@.contains(k) {
                let x = choose|x: int| 0 <= x < list.len() && list[x] == k;
                assert(order@.contains(x as usize));
                let y = choose|y: int| 0 <= y < order.len() && order[y] == x as usize;
                assert(out[y] == k);
            }
            if out@.contains(k) {
                let y = choose|y: int| 0 <= y < out.len() && out[y] == k;
                assert(list[order[y] as int] == k);
            }
        }
        lemma_ascending_is(out@, list@.to_set());
    }
    out
}

} // verus!
