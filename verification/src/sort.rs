//! Stable order by a key.

use vstd::prelude::*;

verus! {

/// A sequence with a value put behind everything whose key is not greater.
pub open spec fn placed<A>(s: Seq<A>, value: A, key: spec_fn(A) -> int) -> Seq<A>
    decreases s.len(),
{
    if s.len() == 0 || key(s.last()) <= key(value) {
        s.push(value)
    } else {
        placed(s.drop_last(), value, key).push(s.last())
    }
}

/// A sequence in the order of its keys. Values with one key keep their order.
pub open spec fn ordered_by<A>(s: Seq<A>, key: spec_fn(A) -> int) -> Seq<A>
    decreases s.len(),
{
    if s.len() == 0 {
        s
    } else {
        placed(ordered_by(s.drop_last(), key), s.last(), key)
    }
}

/// Whether keys do not fall.
pub open spec fn in_order<A>(s: Seq<A>, key: spec_fn(A) -> int) -> bool {
    forall|i: int, j: int| 0 <= i < j < s.len() ==> key(#[trigger] s[i]) <= key(#[trigger] s[j])
}

/// Where [`placed`] puts a value.
pub open spec fn place<A>(s: Seq<A>, value: A, key: spec_fn(A) -> int) -> int
    decreases s.len(),
{
    if s.len() == 0 || key(s.last()) <= key(value) {
        s.len() as int
    } else {
        place(s.drop_last(), value, key)
    }
}

pub proof fn lemma_placed<A>(s: Seq<A>, value: A, key: spec_fn(A) -> int)
    ensures
        0 <= place(s, value, key) <= s.len(),
        placed(s, value, key) == s.insert(place(s, value, key), value),
    decreases s.len(),
{
    if s.len() == 0 || key(s.last()) <= key(value) {
        assert(s.push(value) =~= s.insert(s.len() as int, value));
    } else {
        lemma_placed(s.drop_last(), value, key);
        let at = place(s.drop_last(), value, key);
        assert(s.drop_last().insert(at, value).push(s.last()) =~= s.insert(at, value));
    }
}

/// Putting a value in its place keeps the order.
proof fn lemma_placed_in_order<A>(s: Seq<A>, value: A, key: spec_fn(A) -> int)
    requires
        in_order(s, key),
    ensures
        in_order(placed(s, value, key), key),
        forall|i: int|
            0 <= i < placed(s, value, key).len() ==> key(#[trigger] placed(s, value, key)[i]) <= (
            if s.len() == 0 || key(s.last()) <= key(value) {
                key(value)
            } else {
                key(s.last())
            }),
    decreases s.len(),
{
    if !(s.len() == 0 || key(s.last()) <= key(value)) {
        lemma_placed_in_order(s.drop_last(), value, key);
        let before = placed(s.drop_last(), value, key);
        if s.drop_last().len() > 0 {
            assert(s.drop_last().last() == s[s.len() - 2]);
            assert(s.last() == s[s.len() - 1]);
        }
        assert(placed(s, value, key) == before.push(s.last()));
    }
}

/// The values with a key, in the order in which they stand.
pub open spec fn with_key<A>(s: Seq<A>, key: spec_fn(A) -> int, k: int) -> Seq<A>
    decreases s.len(),
{
    if s.len() == 0 {
        s
    } else if key(s.last()) == k {
        with_key(s.drop_last(), key, k).push(s.last())
    } else {
        with_key(s.drop_last(), key, k)
    }
}

/// A value that is put in its place comes behind those with its key.
proof fn lemma_placed_behind_its_key<A>(s: Seq<A>, value: A, key: spec_fn(A) -> int, k: int)
    ensures
        with_key(placed(s, value, key), key, k) == with_key(s.push(value), key, k),
    decreases s.len(),
{
    reveal_with_fuel(with_key, 3);
    assert(s.push(value).drop_last() =~= s);
    if !(s.len() == 0 || key(s.last()) <= key(value)) {
        let before = s.drop_last();
        lemma_placed_behind_its_key(before, value, key, k);
        assert(placed(before, value, key).push(s.last()).drop_last() =~= placed(before, value, key));
        assert(before.push(value).drop_last() =~= before);
    }
}

/// Values with one key keep their order.
proof fn lemma_ties_keep_their_order<A>(s: Seq<A>, key: spec_fn(A) -> int, k: int)
    ensures
        with_key(ordered_by(s, key), key, k) == with_key(s, key, k),
    decreases s.len(),
{
    if s.len() > 0 {
        let before = ordered_by(s.drop_last(), key);
        lemma_ties_keep_their_order(s.drop_last(), key, k);
        lemma_placed_behind_its_key(before, s.last(), key, k);
        assert(before.push(s.last()).drop_last() =~= before);
    }
}

/// What comes out is in order and is what went in, and values with one key keep their order.
pub proof fn law_ordering_sorts_and_keeps_everything<A>(s: Seq<A>, key: spec_fn(A) -> int)
    ensures
        in_order(ordered_by(s, key), key),
        ordered_by(s, key).len() == s.len(),
        ordered_by(s, key).to_multiset() == s.to_multiset(),
        forall|k: int| #[trigger] with_key(ordered_by(s, key), key, k) == with_key(s, key, k),
    decreases s.len(),
{
    if s.len() > 0 {
        let before = ordered_by(s.drop_last(), key);
        law_ordering_sorts_and_keeps_everything(s.drop_last(), key);
        lemma_placed_in_order(before, s.last(), key);
        lemma_placed(before, s.last(), key);
        let at = place(before, s.last(), key);
        vstd::seq_lib::to_multiset_insert(before, at, s.last());
        vstd::seq_lib::to_multiset_insert(s.drop_last(), s.len() - 1, s.last());
        assert(s.drop_last().insert(s.len() - 1, s.last()) =~= s);
    }
    assert forall|k: int| #[trigger] with_key(ordered_by(s, key), key, k) == with_key(s, key, k) by {
        lemma_ties_keep_their_order(s, key, k);
    }
}

} // verus!
