//! The identifier-to-group mapping that carries the "which group does
//! this identifier belong to" fact across the run: first keyed by
//! capacity-request identifiers, then rewritten one-for-one to instance
//! identifiers at the active transition. Modelled as a sequence of
//! (key, group-name) pairs with unique keys.

use vstd::prelude::*;

verus! {

/// No two entries share a key.
pub open spec fn keys_unique(m: Seq<(Seq<char>, Seq<char>)>) -> bool {
    forall|i: int, j: int| 0 <= i < j < m.len() ==> (#[trigger] m[i]).0 != (#[trigger] m[j]).0
}

/// No entry has the key `key`.
pub open spec fn key_absent(m: Seq<(Seq<char>, Seq<char>)>, key: Seq<char>) -> bool {
    forall|j: int| 0 <= j < m.len() ==> (#[trigger] m[j]).0 != key
}

/// How many entries belong to the group `name`.
pub open spec fn count_for(m: Seq<(Seq<char>, Seq<char>)>, name: Seq<char>) -> nat
    decreases m.len(),
{
    if m.len() == 0 {
        0
    } else {
        count_for(m.drop_last(), name) + if m.last().1 == name {
            1nat
        } else {
            0nat
        }
    }
}

/// The identifiers are pairwise distinct and none is a key of `m` yet.
pub open spec fn ids_fresh(m: Seq<(Seq<char>, Seq<char>)>, ids: Seq<Seq<char>>) -> bool {
    &&& forall|i: int, j: int| 0 <= i < j < ids.len() ==> ids[i] != ids[j]
    &&& forall|i: int| 0 <= i < ids.len() ==> key_absent(m, #[trigger] ids[i])
}

pub proof fn lemma_count_push(m: Seq<(Seq<char>, Seq<char>)>, p: (Seq<char>, Seq<char>), name: Seq<char>)
    ensures
        count_for(m.push(p), name) == count_for(m, name) + if p.1 == name {
            1nat
        } else {
            0nat
        },
{
    assert(m.push(p).drop_last() =~= m);
    assert(m.push(p).last() == p);
}

pub proof fn lemma_count_zero(m: Seq<(Seq<char>, Seq<char>)>, name: Seq<char>)
    requires
        forall|j: int| 0 <= j < m.len() ==> (#[trigger] m[j]).1 != name,
    ensures
        count_for(m, name) == 0,
    decreases m.len(),
{
    if m.len() > 0 {
        lemma_count_zero(m.drop_last(), name);
    }
}

/// Two maps whose entries carry the same group names, position for
/// position, give every group the same count.
pub proof fn lemma_count_pointwise(
    m1: Seq<(Seq<char>, Seq<char>)>,
    m2: Seq<(Seq<char>, Seq<char>)>,
    name: Seq<char>,
)
    requires
        m1.len() == m2.len(),
        forall|j: int| 0 <= j < m1.len() ==> (#[trigger] m1[j]).1 == (#[trigger] m2[j]).1,
    ensures
        count_for(m1, name) == count_for(m2, name),
    decreases m1.len(),
{
    if m1.len() > 0 {
        lemma_count_pointwise(m1.drop_last(), m2.drop_last(), name);
    }
}

/// Counting a one-entry-longer prefix adds the new entry's contribution.
pub proof fn lemma_count_take_step(m: Seq<(Seq<char>, Seq<char>)>, j: int, name: Seq<char>)
    requires
        0 <= j < m.len(),
    ensures
        count_for(m.take(j + 1), name) == count_for(m.take(j), name) + if m[j].1 == name {
            1nat
        } else {
            0nat
        },
{
    assert(m.take(j + 1).drop_last() =~= m.take(j));
    assert(m.take(j + 1).last() == m[j]);
}

/// Counting over prefixes grows with the prefix.
pub proof fn lemma_count_take_mono(m: Seq<(Seq<char>, Seq<char>)>, a: int, b: int, name: Seq<char>)
    requires
        0 <= a <= b <= m.len(),
    ensures
        count_for(m.take(a), name) <= count_for(m.take(b), name),
    decreases b - a,
{
    if a < b {
        lemma_count_take_step(m, b - 1, name);
        lemma_count_take_mono(m, a, b - 1, name);
    }
}

/// The whole map is its own full prefix.
pub proof fn lemma_count_take_all(m: Seq<(Seq<char>, Seq<char>)>, name: Seq<char>)
    ensures
        count_for(m.take(m.len() as int), name) == count_for(m, name),
{
    assert(m.take(m.len() as int) =~= m);
}

} // verus!
