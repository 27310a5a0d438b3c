//! The order of lists: sort keys, and a stable sort that yields the places
//! of the keys in ascending order.

use vstd::prelude::*;
use crate::text::{
    lemma_lex_irreflexive,
    lemma_lex_total,
    lemma_lex_transitive,
    lex_lt,
    str_lt,
};

verus! {

/// What a row is ordered by: first its group, names descending; then its
/// rank and its number, ascending; then its text, ascending.
#[derive(Clone, Debug, PartialEq, Eq)]
pub struct SortKey {
    pub group: String,
    pub rank: i64,
    pub number: i64,
    pub text: String,
}

/// A `SortKey` as plain values.
pub struct SortKeyView {
    pub group: Seq<char>,
    pub rank: i64,
    pub number: i64,
    pub text: Seq<char>,
}

impl View for SortKey {
    type V = SortKeyView;

    open spec fn view(&self) -> SortKeyView {
        SortKeyView {
            group: self.group@,
            rank: self.rank,
            number: self.number,
            text: self.text@,
        }
    }
}

/// The views of a sequence of keys, in the same order.
pub open spec fn key_views(s: Seq<SortKey>) -> Seq<SortKeyView> {
    s.map_values(|k: SortKey| k@)
}

/// The places held in a vector of places, as integers.
pub open spec fn as_ints(s: Seq<usize>) -> Seq<int> {
    s.map_values(|i: usize| i as int)
}

/// `a` is listed strictly before `b`.
pub open spec fn key_lt(a: SortKeyView, b: SortKeyView) -> bool {
    if a.group != b.group {
        lex_lt(b.group, a.group)
    } else if a.rank != b.rank {
        a.rank < b.rank
    } else if a.number != b.number {
        a.number < b.number
    } else {
        lex_lt(a.text, b.text)
    }
}

/// Where the key at place `x` goes into `order`: behind the last key that is
/// not listed after it.
pub open spec fn slot(order: Seq<int>, keys: Seq<SortKeyView>, x: int) -> int
    decreases order.len(),
{
    if order.len() == 0 {
        0
    } else if key_lt(keys[x], keys[order.last()]) {
        slot(order.drop_last(), keys, x)
    } else {
        order.len() as int
    }
}

/// The places of the first `n` keys in ascending order of their keys; keys
/// of equal standing keep the order in which they came.
pub open spec fn sorted_prefix(keys: Seq<SortKeyView>, n: int) -> Seq<int>
    decreases n,
{
    if n <= 0 {
        Seq::<int>::empty()
    } else {
        let before = sorted_prefix(keys, n - 1);
        before.insert(slot(before, keys, n - 1), n - 1)
    }
}

/// The places of all keys in ascending order of their keys; keys of equal
/// standing keep the order in which they came.
pub open spec fn sorted_order(keys: Seq<SortKeyView>) -> Seq<int> {
    sorted_prefix(keys, keys.len() as int)
}

/// No key is listed before itself.
pub proof fn lemma_key_irreflexive(a: SortKeyView)
    ensures
        !key_lt(a, a),
{
    lemma_lex_irreflexive(a.text);
}

/// Of two keys at most one is listed before the other.
pub proof fn lemma_key_asymmetric(a: SortKeyView, b: SortKeyView)
    requires
        key_lt(a, b),
    ensures
        !key_lt(b, a),
{
    if key_lt(b, a) {
        if a.group != b.group {
            lemma_lex_transitive(a.group, b.group, a.group);
            lemma_lex_irreflexive(a.group);
        } else if a.rank == b.rank && a.number == b.number {
            lemma_lex_transitive(a.text, b.text, a.text);
            lemma_lex_irreflexive(a.text);
        }
    }
}

/// "Listed before" is transitive.
pub proof fn lemma_key_transitive(a: SortKeyView, b: SortKeyView, c: SortKeyView)
    requires
        key_lt(a, b),
        key_lt(b, c),
    ensures
        key_lt(a, c),
{
    if a.group != b.group {
        if b.group != c.group {
            lemma_lex_transitive(c.group, b.group, a.group);
            lemma_lex_irreflexive(a.group);
        }
    } else if b.group != c.group {
    } else if a.rank != b.rank || b.rank != c.rank {
    } else if a.number != b.number || b.number != c.number {
    } else {
        lemma_lex_transitive(a.text, b.text, c.text);
    }
}

/// Where neither of two keys is listed before the other, they are the same.
pub proof fn lemma_key_total(a: SortKeyView, b: SortKeyView)
    ensures
        key_lt(a, b) || key_lt(b, a) || a == b,
{
    lemma_lex_total(a.group, b.group);
    lemma_lex_total(a.text, b.text);
}

/// Where `a` is not behind `b` and `b` is not behind `c`, `a` is not behind `c`.
pub proof fn lemma_key_not_behind(a: SortKeyView, b: SortKeyView, c: SortKeyView)
    requires
        !key_lt(b, a),
        !key_lt(c, b),
    ensures
        !key_lt(c, a),
{
    lemma_key_total(a, b);
    lemma_key_total(b, c);
    if key_lt(c, a) {
        if a == b {
        } else if b == c {
        } else {
            lemma_key_transitive(a, b, c);
            lemma_key_asymmetric(a, c);
        }
    }
}

/// The slot lies behind every key that is not listed after the new one, and
/// before every key that is.
pub proof fn lemma_slot(order: Seq<int>, keys: Seq<SortKeyView>, x: int)
    ensures
        0 <= slot(order, keys, x) <= order.len(),
        forall|k: int|
            slot(order, keys, x) <= k < order.len() ==> key_lt(keys[x], keys[#[trigger] order[k]]),
        slot(order, keys, x) > 0 ==> !key_lt(keys[x], keys[order[slot(order, keys, x) - 1]]),
    decreases order.len(),
{
    if order.len() > 0 && key_lt(keys[x], keys[order.last()]) {
        lemma_slot(order.drop_last(), keys, x);
        let front = order.drop_last();
        assert forall|k: int| slot(order, keys, x) <= k < order.len() implies key_lt(
            keys[x],
            keys[#[trigger] order[k]],
        ) by {
            if k < front.len() {
                assert(front[k] == order[k]);
            }
        }
        if slot(order, keys, x) > 0 {
            assert(front[slot(order, keys, x) - 1] == order[slot(order, keys, x) - 1]);
        }
    }
}

/// `order` lists each of the places `0..n` once.
pub open spec fn is_arrangement(order: Seq<int>, n: int) -> bool {
    &&& order.len() == n
    &&& forall|i: int| 0 <= i < order.len() ==> 0 <= #[trigger] order[i] < n
    &&& forall|i: int, j: int|
        0 <= i < j < order.len() ==> #[trigger] order[i] != #[trigger] order[j]
    &&& forall|x: int| 0 <= x < n ==> #[trigger] order.contains(x)
}

/// No key in `order` is listed before one that stands earlier in it.
pub open spec fn ascends(order: Seq<int>, keys: Seq<SortKeyView>) -> bool {
    forall|i: int, j: int|
        0 <= i < j < order.len() ==> !key_lt(keys[#[trigger] order[j]], keys[#[trigger] order[i]])
}

/// Keys of equal standing are in the order in which they came.
pub open spec fn keeps_ties(order: Seq<int>, keys: Seq<SortKeyView>) -> bool {
    forall|i: int, j: int|
        0 <= i < j < order.len() && !key_lt(keys[#[trigger] order[i]], keys[#[trigger] order[j]])
            ==> order[i] < order[j]
}

/// The sorted order of the first `n` keys lists each of their places once,
/// ascends, and keeps ties in the order in which they came.
pub proof fn lemma_sorted_prefix(keys: Seq<SortKeyView>, n: int)
    requires
        0 <= n <= keys.len(),
    ensures
        is_arrangement(sorted_prefix(keys, n), n),
        ascends(sorted_prefix(keys, n), keys),
        keeps_ties(sorted_prefix(keys, n), keys),
    decreases n,
{
    let order = sorted_prefix(keys, n);
    if n > 0 {
        let x = n - 1;
        let before = sorted_prefix(keys, x);
        let p = slot(before, keys, x);
        lemma_sorted_prefix(keys, x);
        lemma_slot(before, keys, x);
        assert(order == before.insert(p, x));
        assert forall|i: int| 0 <= i < order.len() implies 0 <= #[trigger] order[i] < n by {
            if i < p {
                assert(order[i] == before[i]);
            } else if i > p {
                assert(order[i] == before[i - 1]);
            }
        }
        assert forall|i: int, j: int| 0 <= i < j < order.len() implies #[trigger] order[i]
            != #[trigger] order[j] by {
            let bi = if i < p { i } else { i - 1 };
            let bj = if j < p { j } else { j - 1 };
            if i != p {
                assert(order[i] == before[bi]);
            }
            if j != p {
                assert(order[j] == before[bj]);
            }
        }
        assert forall|y: int| 0 <= y < n implies #[trigger] order.contains(y) by {
            if y == x {
                assert(order[p] == x);
            } else {
                assert(before.contains(y));
                let k = choose|k: int| 0 <= k < before.len() && before[k] == y;
                if k < p {
                    assert(order[k] == y);
                } else {
                    assert(order[k + 1] == y);
                }
            }
        }
        assert forall|i: int, j: int| 0 <= i < j < order.len() implies !key_lt(
            keys[#[trigger] order[j]],
            keys[#[trigger] order[i]],
        ) by {
            let bi = if i < p { i } else { i - 1 };
            let bj = if j < p { j } else { j - 1 };
            if i != p {
                assert(order[i] == before[bi]);
            }
            if j != p {
                assert(order[j] == before[bj]);
            }
            if i == p {
                assert(key_lt(keys[x], keys[before[bj]]));
                lemma_key_asymmetric(keys[x], keys[before[bj]]);
            } else if j == p {
                assert(!key_lt(keys[x], keys[before[p - 1]]));
                if i < p - 1 {
                    assert(!key_lt(keys[before[p - 1]], keys[before[i]]));
                    lemma_key_not_behind(keys[before[i]], keys[before[p - 1]], keys[x]);
                }
            }
        }
        assert forall|i: int, j: int|
            0 <= i < j < order.len() && !key_lt(
                keys[#[trigger] order[i]],
                keys[#[trigger] order[j]],
            ) implies order[i] < order[j] by {
            let bi = if i < p { i } else { i - 1 };
            let bj = if j < p { j } else { j - 1 };
            if i != p {
                assert(order[i] == before[bi]);
            }
            if j != p {
                assert(order[j] == before[bj]);
            }
            if i == p {
                assert(key_lt(keys[x], keys[before[bj]]));
            }
        }
    }
}

/// The slot is the only place that lies behind every key that is not listed
/// after the new one, and before every key that is.
pub proof fn lemma_slot_is_unique(order: Seq<int>, keys: Seq<SortKeyView>, x: int, p: int)
    requires
        0 <= p <= order.len(),
        forall|k: int| p <= k < order.len() ==> key_lt(keys[x], keys[#[trigger] order[k]]),
        forall|k: int| 0 <= k < p ==> !key_lt(keys[x], keys[#[trigger] order[k]]),
    ensures
        slot(order, keys, x) == p,
{
    lemma_slot(order, keys, x);
    let s = slot(order, keys, x);
    if s < p {
        assert(key_lt(keys[x], keys[order[s]]));
    }
    if s > p {
        assert(key_lt(keys[x], keys[order[s - 1]]));
    }
}

/// Only one order of the first `n` places lists each of them once, ascends
/// and keeps ties in the order in which they came: the sorted one.
pub proof fn lemma_sorted_prefix_is_unique(keys: Seq<SortKeyView>, n: int, order: Seq<int>)
    requires
        0 <= n <= keys.len(),
        is_arrangement(order, n),
        ascends(order, keys),
        keeps_ties(order, keys),
    ensures
        order == sorted_prefix(keys, n),
    decreases n,
{
    if n == 0 {
        assert(order =~= sorted_prefix(keys, n));
    } else {
        let x = n - 1;
        assert(order.contains(x));
        let p = choose|p: int| 0 <= p < order.len() && order[p] == x;
        let rest = order.remove(p);
        assert forall|i: int| 0 <= i < rest.len() implies 0 <= #[trigger] rest[i] < x by {
            if i < p {
                assert(rest[i] == order[i]);
                assert(order[i] != order[p]);
            } else {
                assert(rest[i] == order[i + 1]);
                assert(order[p] != order[i + 1]);
            }
        }
        assert forall|i: int, j: int| 0 <= i < j < rest.len() implies #[trigger] rest[i]
            != #[trigger] rest[j] by {
            let oi = if i < p { i } else { i + 1 };
            let oj = if j < p { j } else { j + 1 };
            assert(rest[i] == order[oi] && rest[j] == order[oj]);
        }
        assert forall|y: int| 0 <= y < x implies #[trigger] rest.contains(y) by {
            assert(order.contains(y));
            let k = choose|k: int| 0 <= k < order.len() && order[k] == y;
            if k < p {
                assert(rest[k] == y);
            } else {
                assert(rest[k - 1] == y);
            }
        }
        assert forall|i: int, j: int| 0 <= i < j < rest.len() implies !key_lt(
            keys[#[trigger] rest[j]],
            keys[#[trigger] rest[i]],
        ) by {
            let oi = if i < p { i } else { i + 1 };
            let oj = if j < p { j } else { j + 1 };
            assert(rest[i] == order[oi] && rest[j] == order[oj]);
        }
        assert forall|i: int, j: int|
            0 <= i < j < rest.len() && !key_lt(
                keys[#[trigger] rest[i]],
                keys[#[trigger] rest[j]],
            ) implies rest[i] < rest[j] by {
            let oi = if i < p { i } else { i + 1 };
            let oj = if j < p { j } else { j + 1 };
            assert(rest[i] == order[oi] && rest[j] == order[oj]);
        }
        lemma_sorted_prefix_is_unique(keys, x, rest);
        assert forall|k: int| p <= k < rest.len() implies key_lt(
            keys[x],
            keys[#[trigger] rest[k]],
        ) by {
            assert(rest[k] == order[k + 1]);
            assert(!key_lt(keys[order[k + 1]], keys[order[p]]));
            if !key_lt(keys[order[p]], keys[order[k + 1]]) {
                assert(order[p] < order[k + 1]);
            }
        }
        assert forall|k: int| 0 <= k < p implies !key_lt(keys[x], keys[#[trigger] rest[k]]) by {
            assert(rest[k] == order[k]);
            assert(!key_lt(keys[order[p]], keys[order[k]]));
        }
        lemma_slot_is_unique(rest, keys, x, p);
        assert(order =~= rest.insert(p, x));
    }
}

/// The sorted order lists each place once, ascends, and keeps keys of equal
/// standing in the order in which they came: the list is a function of the
/// keys alone, and the same keys always yield the same places.
pub proof fn lemma_sorted_order(keys: Seq<SortKeyView>)
    ensures
        is_arrangement(sorted_order(keys), keys.len() as int),
        ascends(sorted_order(keys), keys),
        keeps_ties(sorted_order(keys), keys),
{
    lemma_sorted_prefix(keys, keys.len() as int);
}

/// An order of the places of `keys` is the sorted one exactly if it lists
/// each place once, ascends, and keeps keys of equal standing in the order in
/// which they came.
pub proof fn lemma_sorted_order_is_unique(keys: Seq<SortKeyView>, order: Seq<int>)
    ensures
        order == sorted_order(keys) <==> is_arrangement(order, keys.len() as int) && ascends(
            order,
            keys,
        ) && keeps_ties(order, keys),
{
    lemma_sorted_order(keys);
    if is_arrangement(order, keys.len() as int) && ascends(order, keys) && keeps_ties(order, keys) {
        lemma_sorted_prefix_is_unique(keys, keys.len() as int, order);
    }
}

/// Whether `a` is listed strictly before `b`.
pub fn key_less(a: &SortKey, b: &SortKey) -> (r: bool)
    ensures
        r == key_lt(a@, b@),
{
    if a.group != b.group {
        str_lt(b.group.as_str(), a.group.as_str())
    } else if a.rank != b.rank {
        a.rank < b.rank
    } else if a.number != b.number {
        a.number < b.number
    } else {
        str_lt(a.text.as_str(), b.text.as_str())
    }
}

/// The places of the keys in ascending order of their keys; keys of equal
/// standing keep the order in which they came.
pub fn sort_keys(keys: &Vec<SortKey>) -> (order: Vec<usize>)
    ensures
        as_ints(order@) == sorted_order(key_views(keys@)),
        is_arrangement(as_ints(order@), keys@.len() as int),
        ascends(as_ints(order@), key_views(keys@)),
        keeps_ties(as_ints(order@), key_views(keys@)),
        order@.len() == keys@.len(),
        forall|i: int| 0 <= i < order@.len() ==> (#[trigger] order@[i]) < keys@.len(),
{
    let ghost kv = key_views(keys@);
    let mut order: Vec<usize> = Vec::new();
    let mut x: usize = 0;
    assert(as_ints(order@) =~= sorted_prefix(kv, 0));
    while x < keys.len()
        invariant
            x <= keys.len(),
            kv == key_views(keys@),
            as_ints(order@) == sorted_prefix(kv, x as int),
            order@.len() == x,
            forall|i: int| 0 <= i < order@.len() ==> (#[trigger] order@[i]) < x,
        decreases keys.len() - x,
    {
        let ghost before = as_ints(order@);
        let mut p: usize = order.len();
        assert(before.take(p as int) =~= before);
        while p > 0 && key_less(&keys[x], &keys[order[p - 1]])
            invariant
                p <= order.len(),
                x < keys.len(),
                kv == key_views(keys@),
                before == as_ints(order@),
                forall|i: int| 0 <= i < order@.len() ==> (#[trigger] order@[i]) < x,
                slot(before, kv, x as int) == slot(before.take(p as int), kv, x as int),
            decreases p,
        {
            proof {
                let part = before.take(p as int);
                assert(part.last() == order@[p - 1] as int);
                assert(kv[order@[p - 1] as int] == keys@[order@[p - 1] as int]@);
                assert(kv[x as int] == keys@[x as int]@);
                assert(part.drop_last() =~= before.take(p - 1));
            }
            p = p - 1;
        }
        proof {
            let part = before.take(p as int);
            if p > 0 {
                assert(part.last() == order@[p - 1] as int);
                assert(kv[order@[p - 1] as int] == keys@[order@[p - 1] as int]@);
                assert(kv[x as int] == keys@[x as int]@);
            }
            assert(slot(before, kv, x as int) == p);
        }
        order.insert(p, x);
        proof {
            assert(as_ints(order@) =~= before.insert(p as int, x as int));
        }
        x = x + 1;
    }
    proof {
        lemma_sorted_order(kv);
    }
    order
}

} // verus!
