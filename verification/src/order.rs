//! Ordering by a rank and a text: which item comes before which, and the
//! arrangement that puts a list in order.

use vstd::prelude::*;

verus! {

/// What an item is ordered by: a smaller rank comes first, and among equal
/// ranks the text that is first in code point order.
pub struct SortKey {
    pub rank: u64,
    pub text: Vec<char>,
}

/// What a `SortKey` stands for.
pub struct Key {
    pub rank: int,
    pub text: Seq<char>,
}

impl View for SortKey {
    type V = Key;

    open spec fn view(&self) -> Key {
        Key { rank: self.rank as int, text: self.text@ }
    }
}

/// The keys that a list of sort keys stands for.
pub open spec fn keys_view(keys: Seq<SortKey>) -> Seq<Key> {
    Seq::new(keys.len(), |i: int| keys[i]@)
}

/// The positions that a list of indices stands for.
pub open spec fn order_view(order: Seq<usize>) -> Seq<int> {
    Seq::new(order.len(), |i: int| order[i] as int)
}

/// `a` comes before `b` in code point order: at the first place where they
/// differ `a` has the smaller character, or `a` ends there and `b` goes on.
pub open spec fn lex_less(a: Seq<char>, b: Seq<char>) -> bool
    decreases a.len(),
{
    if b.len() == 0 {
        false
    } else if a.len() == 0 {
        true
    } else if a[0] != b[0] {
        (a[0] as u32) < (b[0] as u32)
    } else {
        lex_less(a.drop_first(), b.drop_first())
    }
}

/// The key `a` comes before the key `b`: by its rank, or, where the ranks are
/// equal, by its text.
pub open spec fn key_before(a: Key, b: Key) -> bool {
    a.rank < b.rank || (a.rank == b.rank && lex_less(a.text, b.text))
}

/// The item at `i` comes before the item at `j`: by its key, or, where the
/// keys are equal, by standing first in the list.
pub open spec fn precedes(keys: Seq<Key>, i: int, j: int) -> bool {
    key_before(keys[i], keys[j]) || (keys[i] == keys[j] && i < j)
}

/// `order` lists every position of `keys` once, each item before the next.
pub open spec fn sorted_order(keys: Seq<Key>, order: Seq<int>) -> bool {
    &&& order.len() == keys.len()
    &&& forall|k: int| 0 <= k < order.len() ==> 0 <= #[trigger] order[k] < keys.len()
    &&& forall|k: int, l: int|
        0 <= k < l < order.len() ==> precedes(keys, #[trigger] order[k], #[trigger] order[l])
}

/// The items in the order that `order` gives.
pub open spec fn arranged<T>(items: Seq<T>, order: Seq<int>) -> Seq<T> {
    Seq::new(order.len(), |k: int| items[order[k]])
}

/// No text comes before itself.
pub proof fn lemma_lex_less_irreflexive(a: Seq<char>)
    ensures
        !lex_less(a, a),
    decreases a.len(),
{
    if a.len() > 0 {
        lemma_lex_less_irreflexive(a.drop_first());
    }
}

/// Of two texts one comes before the other, or they are equal.
pub proof fn lemma_lex_less_total(a: Seq<char>, b: Seq<char>)
    ensures
        lex_less(a, b) || lex_less(b, a) || a == b,
        !(lex_less(a, b) && lex_less(b, a)),
    decreases a.len(),
{
    if a.len() == 0 || b.len() == 0 {
        if a.len() == 0 && b.len() == 0 {
            assert(a =~= b);
        }
    } else if a[0] == b[0] {
        lemma_lex_less_total(a.drop_first(), b.drop_first());
        if a.drop_first() == b.drop_first() {
            assert(a =~= seq![a[0]] + a.drop_first());
            assert(b =~= seq![b[0]] + b.drop_first());
        }
    } else {
        vstd::utf8::char_u32_cast(a[0], a[0] as u32);
        vstd::utf8::char_u32_cast(b[0], b[0] as u32);
    }
}

/// What comes before a text comes before all that the text comes before.
pub proof fn lemma_lex_less_transitive(a: Seq<char>, b: Seq<char>, c: Seq<char>)
    requires
        lex_less(a, b),
        lex_less(b, c),
    ensures
        lex_less(a, c),
    decreases a.len(),
{
    if a.len() > 0 && a[0] == b[0] && b[0] == c[0] {
        lemma_lex_less_transitive(a.drop_first(), b.drop_first(), c.drop_first());
    }
}

/// The order of the keys is transitive.
pub proof fn lemma_key_before_transitive(a: Key, b: Key, c: Key)
    requires
        key_before(a, b),
        key_before(b, c),
    ensures
        key_before(a, c),
{
    if a.rank == b.rank && b.rank == c.rank {
        lemma_lex_less_transitive(a.text, b.text, c.text);
    }
}

/// Of two keys one comes before the other, or they are equal.
pub proof fn lemma_key_before_total(a: Key, b: Key)
    ensures
        key_before(a, b) || key_before(b, a) || a == b,
        !(key_before(a, b) && key_before(b, a)),
{
    lemma_lex_less_total(a.text, b.text);
}

/// The order of the items is transitive.
pub proof fn lemma_precedes_transitive(keys: Seq<Key>, i: int, j: int, k: int)
    requires
        precedes(keys, i, j),
        precedes(keys, j, k),
    ensures
        precedes(keys, i, k),
{
    if key_before(keys[i], keys[j]) && key_before(keys[j], keys[k]) {
        lemma_key_before_transitive(keys[i], keys[j], keys[k]);
    }
}

/// Of two different positions one comes before the other, and never both.
pub proof fn lemma_precedes_total(keys: Seq<Key>, i: int, j: int)
    ensures
        i != j ==> precedes(keys, i, j) || precedes(keys, j, i),
        !(precedes(keys, i, j) && precedes(keys, j, i)),
        !precedes(keys, i, i),
{
    lemma_key_before_total(keys[i], keys[j]);
    lemma_lex_less_irreflexive(keys[i].text);
}

/// Whether `a` comes before `b` in code point order.
pub fn text_less(a: &Vec<char>, b: &Vec<char>) -> (r: bool)
    ensures
        r == lex_less(a@, b@),
{
    let mut i: usize = 0;
    assert(a@.skip(0) =~= a@);
    assert(b@.skip(0) =~= b@);
    while i < a.len() && i < b.len()
        invariant
            i <= a.len(),
            i <= b.len(),
            lex_less(a@, b@) == lex_less(a@.skip(i as int), b@.skip(i as int)),
        decreases a.len() - i,
    {
        assert(a@.skip(i as int)[0] == a@[i as int]);
        assert(b@.skip(i as int)[0] == b@[i as int]);
        assert(a@.skip(i as int).drop_first() =~= a@.skip(i + 1));
        assert(b@.skip(i as int).drop_first() =~= b@.skip(i + 1));
        if a[i] != b[i] {
            return (a[i] as u32) < (b[i] as u32);
        }
        i += 1;
    }
    i < b.len()
}

/// Whether the key `a` comes before the key `b`.
pub fn key_less(a: &SortKey, b: &SortKey) -> (r: bool)
    ensures
        r == key_before(a@, b@),
{
    a.rank < b.rank || (a.rank == b.rank && text_less(&a.text, &b.text))
}

/// The arrangement that puts the items in order: the positions of `keys`,
/// each once, every item before the next. Items with equal keys keep the
/// order in which they stand.
pub fn sort_order(keys: &Vec<SortKey>) -> (order: Vec<usize>)
    ensures
        sorted_order(keys_view(keys@), order_view(order@)),
{
    let ghost ks = keys_view(keys@);
    let mut order: Vec<usize> = Vec::new();
    let mut k: usize = 0;
    while k < keys.len()
        invariant
            k <= keys.len(),
            ks == keys_view(keys@),
            order@.len() == k,
            forall|p: int| 0 <= p < order@.len() ==> (#[trigger] order@[p]) < k,
            forall|p: int, q: int|
                0 <= p < q < order@.len() ==> precedes(
                    ks,
                    (#[trigger] order@[p]) as int,
                    (#[trigger] order@[q]) as int,
                ),
        decreases keys.len() - k,
    {
        let mut p: usize = order.len();
        while p > 0 && key_less(&keys[k], &keys[order[p - 1]])
            invariant
                p <= order@.len(),
                k < keys.len(),
                ks == keys_view(keys@),
                forall|q: int| 0 <= q < order@.len() ==> (#[trigger] order@[q]) < k,
                forall|q: int|
                    p <= q < order@.len() ==> precedes(ks, k as int, (#[trigger] order@[q]) as int),
            decreases p,
        {
            p -= 1;
        }
        let ghost old_order = order@;
        proof {
            if p > 0 {
                let prev = old_order[p - 1] as int;
                lemma_precedes_total(ks, prev, k as int);
                assert(precedes(ks, prev, k as int));
                assert forall|q: int| 0 <= q < p implies precedes(
                    ks,
                    (#[trigger] old_order[q]) as int,
                    k as int,
                ) by {
                    if q < p - 1 {
                        lemma_precedes_transitive(ks, old_order[q] as int, prev, k as int);
                    }
                }
            }
        }
        order.insert(p, k);
        proof {
            assert forall|a: int, b: int| 0 <= a < b < order@.len() implies precedes(
                ks,
                (#[trigger] order@[a]) as int,
                (#[trigger] order@[b]) as int,
            ) by {
                if a < p && b < p {
                    assert(order@[a] == old_order[a] && order@[b] == old_order[b]);
                } else if a < p && b == p {
                    assert(order@[a] == old_order[a]);
                } else if a < p && b > p {
                    assert(order@[a] == old_order[a] && order@[b] == old_order[b - 1]);
                } else if a == p {
                    assert(order@[b] == old_order[b - 1]);
                } else {
                    assert(order@[a] == old_order[a - 1] && order@[b] == old_order[b - 1]);
                }
            }
            assert forall|q: int| 0 <= q < order@.len() implies (#[trigger] order@[q]) < k + 1 by {
                if q < p {
                    assert(order@[q] == old_order[q]);
                } else if q > p {
                    assert(order@[q] == old_order[q - 1]);
                }
            }
        }
        k += 1;
    }
    order
}

/// An arrangement in order names every position.
pub proof fn lemma_sorted_order_covers(keys: Seq<Key>, order: Seq<int>, v: int)
    requires
        sorted_order(keys, order),
        0 <= v < keys.len(),
    ensures
        order.contains(v),
{
    assert forall|i: int, j: int| 0 <= i < order.len() && 0 <= j < order.len() && i
        != j implies order[i] != order[j] by {
        if i < j {
            assert(precedes(keys, order[i], order[j]));
        } else {
            assert(precedes(keys, order[j], order[i]));
        }
        lemma_precedes_total(keys, order[i], order[i]);
    }
    order.unique_seq_to_set();
    let range = vstd::set_lib::set_int_range(0, keys.len() as int);
    vstd::set_lib::lemma_int_range(0, keys.len() as int);
    assert forall|x: int| order.to_set().contains(x) implies range.contains(x) by {
        let k = choose|k: int| 0 <= k < order.len() && order[k] == x;
        assert(0 <= order[k] < keys.len());
    }
    vstd::set_lib::lemma_len_subset(order.to_set(), range);
    vstd::set_lib::lemma_subset_equality(order.to_set(), range);
    assert(range.contains(v));
    assert(order.to_set().contains(v));
}

/// There is one arrangement in order, and no other.
pub proof fn lemma_sorted_order_unique(keys: Seq<Key>, a: Seq<int>, b: Seq<int>)
    requires
        sorted_order(keys, a),
        sorted_order(keys, b),
    ensures
        a == b,
{
    assert forall|k: int| 0 <= k < a.len() implies a[k] == b[k] by {
        lemma_sorted_order_agree(keys, a, b, k);
    }
    assert(a =~= b);
}

/// Two arrangements in order hold the same position at every place.
proof fn lemma_sorted_order_agree(keys: Seq<Key>, a: Seq<int>, b: Seq<int>, k: int)
    requires
        sorted_order(keys, a),
        sorted_order(keys, b),
        0 <= k < a.len(),
    ensures
        a[k] == b[k],
    decreases k,
{
    assert forall|j: int| 0 <= j < k implies a[j] == b[j] by {
        lemma_sorted_order_agree(keys, a, b, j);
    }
    if a[k] != b[k] {
        assert(0 <= a[k] < keys.len() && 0 <= b[k] < keys.len());
        lemma_precedes_total(keys, a[k], b[k]);
        lemma_not_before(keys, a, b, k);
        lemma_not_before(keys, b, a, k);
    }
}

/// Where two arrangements in order agree before `k` and differ at `k`, the
/// item of the first does not come before that of the second.
proof fn lemma_not_before(keys: Seq<Key>, a: Seq<int>, b: Seq<int>, k: int)
    requires
        sorted_order(keys, a),
        sorted_order(keys, b),
        0 <= k < a.len(),
        forall|j: int| 0 <= j < k ==> a[j] == b[j],
        a[k] != b[k],
    ensures
        !precedes(keys, a[k], b[k]),
{
    assert(0 <= a[k] < keys.len());
    lemma_sorted_order_covers(keys, b, a[k]);
    let m = choose|m: int| 0 <= m < b.len() && b[m] == a[k];
    lemma_precedes_total(keys, a[k], b[k]);
    lemma_precedes_total(keys, a[k], a[k]);
    if m < k {
        assert(a[m] == b[m]);
        assert(precedes(keys, a[m], a[k]));
    } else if m > k {
        assert(precedes(keys, b[k], b[m]));
    }
}

} // verus!
