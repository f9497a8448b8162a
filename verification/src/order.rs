//! Dictionary order of text, and stable sorting by it.

use crate::text;
use vstd::prelude::*;

verus! {

/// Whether `a`, from position `i` on, comes before `b` or is the same, where
/// their first `i` characters agree.
pub open spec fn le_from(a: Seq<char>, b: Seq<char>, i: int) -> bool
    decreases a.len() - i,
{
    if i >= a.len() {
        true
    } else if i >= b.len() {
        false
    } else if a[i] != b[i] {
        a[i] < b[i]
    } else {
        le_from(a, b, i + 1)
    }
}

/// Dictionary order by code point: the order of the strings' bytes.
pub open spec fn le(a: Seq<char>, b: Seq<char>) -> bool {
    le_from(a, b, 0)
}

proof fn le_total_from(a: Seq<char>, b: Seq<char>, i: int)
    requires
        0 <= i,
    ensures
        le_from(a, b, i) || le_from(b, a, i),
    decreases a.len() - i,
{
    if i < a.len() && i < b.len() && a[i] == b[i] {
        le_total_from(a, b, i + 1);
    }
}

proof fn le_transitive_from(a: Seq<char>, b: Seq<char>, c: Seq<char>, i: int)
    requires
        0 <= i,
        le_from(a, b, i),
        le_from(b, c, i),
    ensures
        le_from(a, c, i),
    decreases a.len() - i,
{
    if i < a.len() && i < b.len() && i < c.len() && a[i] == b[i] && b[i] == c[i] {
        le_transitive_from(a, b, c, i + 1);
    }
}

proof fn le_antisymmetric_from(a: Seq<char>, b: Seq<char>, i: int)
    requires
        0 <= i,
        i <= a.len(),
        i <= b.len(),
        forall|j: int| 0 <= j < i ==> a[j] == b[j],
        le_from(a, b, i),
        le_from(b, a, i),
    ensures
        a == b,
    decreases a.len() - i,
{
    if i < a.len() && i < b.len() {
        le_antisymmetric_from(a, b, i + 1);
    } else {
        assert(a =~= b);
    }
}

/// Any two texts can be compared.
pub proof fn le_total(a: Seq<char>, b: Seq<char>)
    ensures
        le(a, b) || le(b, a),
{
    le_total_from(a, b, 0);
}

/// The order is transitive.
pub proof fn le_transitive(a: Seq<char>, b: Seq<char>, c: Seq<char>)
    requires
        le(a, b),
        le(b, c),
    ensures
        le(a, c),
{
    le_transitive_from(a, b, c, 0);
}

/// Texts that come before each other are the same.
pub proof fn le_antisymmetric(a: Seq<char>, b: Seq<char>)
    requires
        le(a, b),
        le(b, a),
    ensures
        a == b,
{
    le_antisymmetric_from(a, b, 0);
}

/// Whether `a` comes before `b` or is the same.
pub fn text_le(a: &str, b: &str) -> (r: bool)
    ensures
        r == le(a@, b@),
{
    let x = text::chars_of(a);
    let y = text::chars_of(b);
    let mut i: usize = 0;
    while i < x.len()
        invariant
            i <= x@.len(),
            x@ == a@,
            y@ == b@,
            i <= y@.len(),
            le(a@, b@) == le_from(a@, b@, i as int),
        decreases x@.len() - i,
    {
        if i >= y.len() {
            return false;
        }
        if x[i] != y[i] {
            return x[i] < y[i];
        }
        i = i + 1;
    }
    true
}

/// Whether position `i` of a list goes before position `j`: by key, and in the
/// list's own order where the keys are the same.
pub open spec fn goes_before(keys: Seq<Seq<char>>, i: int, j: int) -> bool {
    le(keys[i], keys[j]) && (keys[i] == keys[j] ==> i <= j)
}

/// Whether `order` lists the first `n` positions of a list, each once, sorted
/// by key, equal keys in the list's own order.
pub open spec fn sorts_first(keys: Seq<Seq<char>>, n: nat, order: Seq<usize>) -> bool {
    &&& order.len() == n
    &&& n <= keys.len()
    &&& forall|i: int| 0 <= i < n ==> (#[trigger] order[i]) < n
    &&& forall|i: int, j: int| 0 <= i < j < n ==> order[i] != order[j]
    &&& forall|i: int, j: int|
        0 <= i < j < n ==> goes_before(keys, #[trigger] order[i] as int, #[trigger] order[j] as int)
}

/// Whether `order` is the stable sorted order of a list.
pub open spec fn is_sorted_order(keys: Seq<Seq<char>>, order: Seq<usize>) -> bool {
    sorts_first(keys, keys.len(), order)
}

/// A list in another order.
pub open spec fn reorder<T>(items: Seq<T>, order: Seq<usize>) -> Seq<T> {
    Seq::new(order.len(), |i: int| items[order[i] as int])
}

/// The stable sorted order of a list of keys.
pub fn sorted_order(keys: &Vec<String>) -> (order: Vec<usize>)
    ensures
        is_sorted_order(text::texts(keys@), order@),
{
    let ghost ks = text::texts(keys@);
    let mut order: Vec<usize> = Vec::new();
    let mut n: usize = 0;
    while n < keys.len()
        invariant
            n <= keys@.len(),
            ks == text::texts(keys@),
            sorts_first(ks, n as nat, order@),
        decreases keys@.len() - n,
    {
        let mut at: usize = n;
        while at > 0 && !text_le(keys[order[at - 1]].as_str(), keys[n].as_str())
            invariant
                at <= n < keys@.len(),
                ks == text::texts(keys@),
                sorts_first(ks, n as nat, order@),
                forall|k: int|
                    at <= k < n ==> !le(ks[(#[trigger] order@[k]) as int], ks[n as int]),
            decreases at,
        {
            at = at - 1;
        }
        let ghost before = order@;
        order.insert(at, n);
        proof {
            assert(order@ == before.insert(at as int, n));
            if at > 0 {
                assert(le(ks[before[at - 1] as int], ks[n as int]));
            }
            assert forall|i: int, j: int| 0 <= i < j < n + 1 implies goes_before(
                ks,
                #[trigger] order@[i] as int,
                #[trigger] order@[j] as int,
            ) && order@[i] != order@[j] by {
                let oi = if i < at {
                    i
                } else {
                    i - 1
                };
                let oj = if j < at {
                    j
                } else {
                    j - 1
                };
                if i != at && j != at {
                    assert(order@[i] == before[oi] && order@[j] == before[oj]);
                    assert(goes_before(ks, before[oi] as int, before[oj] as int));
                } else if j == at {
                    assert(order@[i] == before[i]);
                    if i < at - 1 {
                        assert(goes_before(ks, before[i] as int, before[at - 1] as int));
                        le_transitive(
                            ks[before[i] as int],
                            ks[before[at - 1] as int],
                            ks[n as int],
                        );
                    }
                } else {
                    assert(order@[j] == before[oj]);
                    le_total(ks[n as int], ks[before[oj] as int]);
                }
            }
            assert forall|i: int| 0 <= i < n + 1 implies (#[trigger] order@[i]) < n + 1 by {
                if i < at {
                    assert(order@[i] == before[i]);
                } else if i > at {
                    assert(order@[i] == before[i - 1]);
                }
            }
        }
        n = n + 1;
    }
    order
}

/// Puts a list in its sorted order.
pub fn arrange<T>(items: Vec<T>, keys: &Vec<String>) -> (out: Vec<T>)
    requires
        keys@.len() == items@.len(),
    ensures
        exists|o: Seq<usize>| #[trigger]
            is_sorted_order(text::texts(keys@), o) && out@ == reorder(items@, o),
{
    let sorted = sorted_order(keys);
    let ghost all = items@;
    let ghost ks = text::texts(keys@);
    let mut slots: Vec<Option<T>> = Vec::new();
    for e in it: items
        invariant
            it.seq() == all,
            slots@.len() == it.index(),
            forall|j: int| 0 <= j < it.index() ==> slots@[j] == Some(all[j]),
    {
        slots.push(Some(e));
    }
    let mut out: Vec<T> = Vec::new();
    let mut i: usize = 0;
    while i < sorted.len()
        invariant
            i <= sorted@.len(),
            is_sorted_order(ks, sorted@),
            sorted@.len() == all.len(),
            slots@.len() == all.len(),
            out@.len() == i,
            forall|j: int| 0 <= j < i ==> #[trigger] out@[j] == all[sorted@[j] as int],
            forall|k: int|
                0 <= k < all.len() && (forall|j: int| 0 <= j < i ==> sorted@[j] != k)
                    ==> #[trigger] slots@[k] == Some(all[k]),
        decreases sorted@.len() - i,
    {
        let at: usize = sorted[i];
        assert(at < all.len());
        assert(forall|j: int| 0 <= j < i ==> sorted@[j] != at);
        assert(slots@[at as int] == Some(all[at as int]));
        let mut taken: Option<T> = None;
        std::mem::swap(&mut slots[at], &mut taken);
        match taken {
            Some(e) => {
                out.push(e);
            },
            None => {
                assert(false);
            },
        }
        i = i + 1;
    }
    assert(out@ =~= reorder(all, sorted@));
    out
}

/// Every position of the list is somewhere in its sorted order.
pub proof fn order_is_onto(keys: Seq<Seq<char>>, order: Seq<usize>, k: int)
    requires
        is_sorted_order(keys, order),
        0 <= k < keys.len(),
    ensures
        exists|i: int| 0 <= i < order.len() && (#[trigger] order[i]) == k,
{
    let ints = order.map_values(|u: usize| u as int);
    assert(ints.no_duplicates()) by {
        assert forall|i: int, j: int|
            0 <= i < ints.len() && 0 <= j < ints.len() && i != j implies ints[i] != ints[j] by {
            if i < j {
                assert(order[i] != order[j]);
            } else {
                assert(order[j] != order[i]);
            }
        }
    }
    ints.unique_seq_to_set();
    let n = keys.len() as int;
    vstd::set_lib::lemma_int_range(0, n);
    let all = vstd::set_lib::set_int_range(0, n);
    assert(ints.to_set().subset_of(all)) by {
        assert forall|x: int| ints.to_set().contains(x) implies all.contains(x) by {
            let i = choose|i: int| 0 <= i < ints.len() && ints[i] == x;
            assert(order[i] < n);
        }
    }
    vstd::set_lib::lemma_subset_equality(ints.to_set(), all);
    assert(all.contains(k));
    assert(ints.contains(k));
    let i = choose|i: int| 0 <= i < ints.len() && ints[i] == k;
    assert(order[i] == k);
}

/// Sorting keeps the items: a list and its sorted version hold the same ones.
pub proof fn sorting_keeps_items<T>(items: Seq<T>, keys: Seq<Seq<char>>, order: Seq<usize>, x: T)
    requires
        is_sorted_order(keys, order),
        keys.len() == items.len(),
    ensures
        reorder(items, order).contains(x) == items.contains(x),
{
    let sorted = reorder(items, order);
    if items.contains(x) {
        let k = choose|k: int| 0 <= k < items.len() && items[k] == x;
        order_is_onto(keys, order, k);
        let i = choose|i: int| 0 <= i < order.len() && (#[trigger] order[i]) == k;
        assert(sorted[i] == x);
    }
    if sorted.contains(x) {
        let i = choose|i: int| 0 <= i < sorted.len() && sorted[i] == x;
        assert(order[i] < keys.len());
        assert(items[order[i] as int] == x);
    }
}

/// Lists whose keys strictly increase are the same where they hold the same
/// items.
pub proof fn increasing_lists_agree<T>(a: Seq<T>, b: Seq<T>, key: spec_fn(T) -> Seq<char>)
    requires
        forall|x: T| a.contains(x) == b.contains(x),
        forall|i: int, j: int|
            0 <= i < j < a.len() ==> le(key(#[trigger] a[i]), key(#[trigger] a[j])) && key(a[i])
                != key(a[j]),
        forall|i: int, j: int|
            0 <= i < j < b.len() ==> le(key(#[trigger] b[i]), key(#[trigger] b[j])) && key(b[i])
                != key(b[j]),
    ensures
        a == b,
    decreases a.len(),
{
    if a.len() == 0 {
        if b.len() > 0 {
            assert(b.contains(b[0]));
            assert(a.contains(b[0]));
        }
        assert(a =~= b);
    } else {
        let x = a.last();
        assert(a[a.len() - 1] == x);
        assert(a.contains(x));
        assert(b.contains(x));
        let y = b.last();
        assert(b[b.len() - 1] == y);
        assert(b.contains(y));
        assert(a.contains(y));
        let i = choose|i: int| 0 <= i < b.len() && b[i] == x;
        let j = choose|j: int| 0 <= j < a.len() && a[j] == y;
        if i < b.len() - 1 && j < a.len() - 1 {
            assert(le(key(b[i]), key(b[b.len() - 1])));
            assert(le(key(a[j]), key(a[a.len() - 1])));
            le_antisymmetric(key(x), key(y));
            assert(key(b[i]) != key(b[b.len() - 1]));
        }
        assert(x == y);
        let a1 = a.drop_last();
        let b1 = b.drop_last();
        assert forall|z: T| a1.contains(z) == b1.contains(z) by {
            if a1.contains(z) {
                let k = choose|k: int| 0 <= k < a1.len() && a1[k] == z;
                assert(a[k] == z);
                assert(a.contains(z));
                assert(b.contains(z));
                let m = choose|m: int| 0 <= m < b.len() && b[m] == z;
                if m == b.len() - 1 {
                    assert(key(a[k]) != key(a[a.len() - 1]));
                }
                assert(b1[m] == z);
            }
            if b1.contains(z) {
                let k = choose|k: int| 0 <= k < b1.len() && b1[k] == z;
                assert(b[k] == z);
                assert(b.contains(z));
                assert(a.contains(z));
                let m = choose|m: int| 0 <= m < a.len() && a[m] == z;
                if m == a.len() - 1 {
                    assert(key(b[k]) != key(b[b.len() - 1]));
                }
                assert(a1[m] == z);
            }
        }
        assert forall|i: int, j: int| 0 <= i < j < a1.len() implies le(
            key(#[trigger] a1[i]),
            key(#[trigger] a1[j]),
        ) && key(a1[i]) != key(a1[j]) by {
            assert(a1[i] == a[i] && a1[j] == a[j]);
        }
        assert forall|i: int, j: int| 0 <= i < j < b1.len() implies le(
            key(#[trigger] b1[i]),
            key(#[trigger] b1[j]),
        ) && key(b1[i]) != key(b1[j]) by {
            assert(b1[i] == b[i] && b1[j] == b[j]);
        }
        increasing_lists_agree(a1, b1, key);
        assert(a =~= a1.push(x));
        assert(b =~= b1.push(x));
    }
}

/// The first character in which two texts differ decides which comes first; a text
/// comes before those that go on where it ends.
pub proof fn first_difference_decides(a: Seq<char>, b: Seq<char>, k: int)
    requires
        0 <= k <= a.len(),
        k <= b.len(),
        forall|j: int| 0 <= j < k ==> a[j] == b[j],
    ensures
        k < a.len() && k < b.len() && a[k] < b[k] ==> le(a, b) && !le(b, a),
        k == a.len() ==> le(a, b),
        k == a.len() && k < b.len() ==> !le(b, a),
{
    agreeing_start(a, b, 0, k);
    agreeing_start(b, a, 0, k);
}

proof fn agreeing_start(a: Seq<char>, b: Seq<char>, i: int, k: int)
    requires
        0 <= i <= k <= a.len(),
        k <= b.len(),
        forall|j: int| 0 <= j < k ==> a[j] == b[j],
    ensures
        le_from(a, b, i) == le_from(a, b, k),
    decreases k - i,
{
    if i < k {
        agreeing_start(a, b, i + 1, k);
    }
}

/// A sorted order names every position once, and the keys never go down along it;
/// where they are the same, positions go up.
pub proof fn arrangement_is_sorted(keys: Seq<Seq<char>>, o: Seq<usize>)
    requires
        is_sorted_order(keys, o),
    ensures
        o.len() == keys.len(),
        forall|i: int| 0 <= i < o.len() ==> (#[trigger] o[i]) < keys.len(),
        forall|i: int, j: int| 0 <= i < j < o.len() ==> o[i] != o[j],
        forall|i: int, j: int|
            0 <= i < j < o.len() ==> le(
                keys[#[trigger] o[i] as int],
                keys[#[trigger] o[j] as int],
            ),
        forall|i: int, j: int|
            0 <= i < j < o.len() && keys[#[trigger] o[i] as int] == keys[#[trigger] o[j] as int]
                ==> o[i] < o[j],
{
    assert forall|i: int, j: int| 0 <= i < j < o.len() && keys[#[trigger] o[i] as int]
        == keys[#[trigger] o[j] as int] implies o[i] < o[j] by {
        assert(goes_before(keys, o[i] as int, o[j] as int));
        assert(o[i] != o[j]);
    }
}

} // verus!
