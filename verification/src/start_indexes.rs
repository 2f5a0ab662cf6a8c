//! Start indexes of tick arrays, kept as an ordered set.

use std::collections::BTreeSet;
use vstd::prelude::*;
use vstd::laws_cmp::{group_laws_cmp, obeys_cmp};
use vstd::std_specs::btree::{group_btree_axioms, increasing_seq, spec_btree_keys_iter};
use vstd::std_specs::cmp::OrdSpec;
use vstd::std_specs::iter::IteratorSpec;

verus! {

broadcast use {group_btree_axioms, group_laws_cmp};

/// Whether a list of start indexes is in strictly rising order.
pub open spec fn strictly_rising(starts: Seq<i32>) -> bool {
    forall|i: int, j: int| 0 <= i < j < starts.len() ==> starts[i] < starts[j]
}

/// The start indexes of a list, as a set.
pub open spec fn start_set(starts: Seq<i32>) -> Set<i32> {
    Set::new(|x: i32| starts.contains(x))
}

/// The set of the first `i + 1` start indexes of a list is the set of the
/// first `i` with the next one put in.
pub proof fn lemma_start_set_take(starts: Seq<i32>, i: int)
    requires
        0 <= i < starts.len(),
    ensures
        start_set(starts.take(i + 1)) == start_set(starts.take(i)).insert(starts[i]),
{
    let grown = starts.take(i + 1);
    let had = starts.take(i);
    assert forall|x: i32| start_set(grown).contains(x) == start_set(had).insert(
        starts[i],
    ).contains(x) by {
        if grown.contains(x) {
            let k = choose|k: int| 0 <= k < grown.len() && grown[k] == x;
            if k < i {
                assert(had[k] == x);
            }
        }
        if had.contains(x) {
            let k = choose|k: int| 0 <= k < had.len() && had[k] == x;
            assert(grown[k] == x);
        }
        if x == starts[i] {
            assert(grown[i] == x);
        }
    }
    assert(start_set(grown) =~= start_set(had).insert(starts[i]));
}

/// In a sequence in increasing order, what comes first is less.
pub proof fn lemma_increasing_pair<K: Ord>(s: Seq<K>, i: int, j: int)
    requires
        obeys_cmp::<K>(),
        increasing_seq(s),
        0 <= i < j < s.len(),
    ensures
        s[i].cmp_spec(&s[j]) == core::cmp::Ordering::Less,
{
}

/// Puts a start index into a set.
pub fn insert_start(starts: &mut BTreeSet<i32>, start: i32)
    ensures
        final(starts)@ == old(starts)@.insert(start),
{
    let _ = starts.insert(start);
}

/// Puts the start indexes of a list into a set.
pub fn insert_starts(starts: &mut BTreeSet<i32>, more: &Vec<i32>)
    ensures
        final(starts)@ == old(starts)@.union(start_set(more@)),
{
    let mut i: usize = 0;
    let ghost mut done: int = 0;
    assert(start_set(more@.take(0)) =~= Set::empty());
    assert(starts@ =~= old(starts)@.union(start_set(more@.take(0))));
    while i < more.len()
        invariant
            i <= more@.len(),
            done == i,
            starts@ == old(starts)@.union(start_set(more@.take(done))),
        decreases more@.len() - i,
    {
        insert_start(starts, more[i]);
        proof {
            lemma_start_set_take(more@, done);
            assert(starts@ =~= old(starts)@.union(start_set(more@.take(done + 1))));
            done = done + 1;
        }
        i += 1;
    }
    assert(more@.take(done) =~= more@);
}

/// The start indexes of a set, in rising order.
pub fn starts_in_order(starts: &BTreeSet<i32>) -> (r: Vec<i32>)
    ensures
        strictly_rising(r@),
        start_set(r@) == starts@,
{
    let mut out: Vec<i32> = Vec::new();
    let ghost keys = spec_btree_keys_iter(starts).remaining();
    for x in it: starts.iter()
        invariant
            it.seq() == keys,
            out@.len() == it.index(),
            forall|k: int| 0 <= k < out@.len() ==> out@[k] == *it.seq()[k],
    {
        out.push(*x);
    }
    proof {
        assert(out@ =~= keys.unref());
        assert(start_set(out@) =~= out@.to_set());
        assert(obeys_cmp::<i32>());
        assert(obeys_cmp::<&i32>());
        assert forall|i: int, j: int| 0 <= i < j < out@.len() implies out@[i] < out@[j] by {
            lemma_increasing_pair::<&i32>(keys, i, j);
        }
    }
    out
}

} // verus!
