//! Which items of one list go to which items of another list with the same
//! key.
//!
//! Two lists of structs that were loaded apart are put together by their
//! keys: each item of the second list is handed to every item of the first
//! list that has its key. This module decides who gets what and in which
//! order; the handing over is left to the caller, who has the structs.

use vstd::prelude::*;
use vstd::std_specs::cmp::PartialEqSpec;

verus! {

/// The places among the first `n` of `keys` that hold `key`, in ascending
/// order.
pub open spec fn places<K: PartialEq>(keys: Seq<Option<K>>, key: K, n: int) -> Seq<int>
    decreases n,
{
    if n <= 0 || n > keys.len() {
        Seq::empty()
    } else {
        match keys[n - 1] {
            Some(k) => if k.eq_spec(&key) {
                places(keys, key, n - 1).push(n - 1)
            } else {
                places(keys, key, n - 1)
            },
            None => places(keys, key, n - 1),
        }
    }
}

/// The assignments of the item at `j` to the given places: to the second
/// place and those after it, and then to the first.
pub open spec fn assignments(places: Seq<int>, j: int) -> Seq<(int, int)> {
    Seq::new(
        places.len(),
        |k: int|
            if k + 1 < places.len() {
                (places[k + 1], j)
            } else {
                (places[0], j)
            },
    )
}

/// The assignments for the first `n` items of the other list, item by item:
/// pairs of a place in this list and a place in the other. There is no plan
/// where an item of the other list has a key that no item of this list has;
/// an item without a key is passed over.
pub open spec fn plan<K: PartialEq>(this: Seq<Option<K>>, other: Seq<Option<K>>, n: int) -> Option<
    Seq<(int, int)>,
>
    decreases n,
{
    if n <= 0 || n > other.len() {
        Some(Seq::empty())
    } else {
        match plan(this, other, n - 1) {
            None => None,
            Some(before) => match other[n - 1] {
                None => Some(before),
                Some(key) => {
                    let found = places(this, key, this.len() as int);
                    if found.len() == 0 {
                        None
                    } else {
                        Some(before + assignments(found, n - 1))
                    }
                },
            },
        }
    }
}

/// The places of a key are places of the list, each named once.
pub proof fn lemma_places<K: PartialEq>(keys: Seq<Option<K>>, key: K, n: int)
    requires
        0 <= n <= keys.len(),
    ensures
        places(keys, key, n).len() <= n,
        forall|k: int|
            0 <= k < places(keys, key, n).len() ==> 0 <= #[trigger] places(keys, key, n)[k] < n,
        forall|k: int, l: int|
            0 <= k < l < places(keys, key, n).len() ==> places(keys, key, n)[k] < places(
                keys,
                key,
                n,
            )[l],
    decreases n,
{
    if n > 0 {
        lemma_places(keys, key, n - 1);
    }
}

/// Once an item of the other list has no place to go, there is no plan.
proof fn lemma_no_plan<K: PartialEq>(this: Seq<Option<K>>, other: Seq<Option<K>>, n: int)
    requires
        0 <= n <= other.len(),
        plan(this, other, n) is None,
    ensures
        plan(this, other, other.len() as int) is None,
    decreases other.len() - n,
{
    if n < other.len() {
        lemma_no_plan(this, other, n + 1);
    }
}

/// The pairs as numbers.
pub open spec fn pairs(plan: Seq<(usize, usize)>) -> Seq<(int, int)> {
    Seq::new(plan.len(), |k: int| (plan[k].0 as int, plan[k].1 as int))
}

/// The places in `keys` that hold `key`, in ascending order.
fn find_places<K: PartialEq>(keys: &Vec<Option<K>>, key: &K) -> (found: Vec<usize>)
    requires
        K::obeys_eq_spec(),
    ensures
        found@.len() == places(keys@, *key, keys@.len() as int).len(),
        forall|k: int|
            0 <= k < found@.len() ==> found@[k] as int == places(
                keys@,
                *key,
                keys@.len() as int,
            )[k] && found@[k] < keys@.len(),
{
    let mut found: Vec<usize> = Vec::new();
    let mut i: usize = 0;
    while i < keys.len()
        invariant
            i <= keys.len(),
            K::obeys_eq_spec(),
            found@.len() == places(keys@, *key, i as int).len(),
            forall|k: int|
                0 <= k < found@.len() ==> found@[k] as int == places(keys@, *key, i as int)[k]
                    && found@[k] < keys@.len(),
        decreases keys.len() - i,
    {
        let holds = match &keys[i] {
            Some(k) => *k == *key,
            None => false,
        };
        if holds {
            found.push(i);
        }
        i = i + 1;
    }
    found
}

/// The plan by which the items of the other list are handed to the items of
/// this list, from the keys of both: each pair holds the place of an item
/// of this list and the place of the item of the other list that it gets.
/// The items of the other list come in their order, and each goes to the
/// items of this list that have its key: to the second and those after it,
/// and then to the first. Nothing is returned where an item of the other
/// list has a key that no item of this list has.
pub fn merge_plan<K: PartialEq>(this: &Vec<Option<K>>, other: &Vec<Option<K>>) -> (r: Option<
    Vec<(usize, usize)>,
>)
    requires
        K::obeys_eq_spec(),
    ensures
        match r {
            Some(p) => plan(this@, other@, other@.len() as int) == Some(pairs(p@)) && forall|
                k: int,
            |
                0 <= k < p@.len() ==> (#[trigger] p@[k]).0 < this@.len() && p@[k].1 < other@.len(),
            None => plan(this@, other@, other@.len() as int) is None,
        },
{
    let mut steps: Vec<(usize, usize)> = Vec::new();
    let mut j: usize = 0;
    assert(pairs(steps@) =~= Seq::<(int, int)>::empty());
    while j < other.len()
        invariant
            j <= other.len(),
            K::obeys_eq_spec(),
            plan(this@, other@, j as int) == Some(pairs(steps@)),
            forall|k: int|
                0 <= k < steps@.len() ==> (#[trigger] steps@[k]).0 < this@.len() && steps@[k].1
                    < other@.len(),
        decreases other.len() - j,
    {
        match &other[j] {
            None => {},
            Some(key) => {
                let found = find_places(this, key);
                let ghost ps = places(this@, *key, this@.len() as int);
                let ghost before = pairs(steps@);
                if found.len() == 0 {
                    proof {
                        lemma_no_plan(this@, other@, j + 1);
                    }
                    return None;
                }
                let mut k: usize = 1;
                while k < found.len()
                    invariant
                        1 <= k <= found.len(),
                        j < other.len(),
                        found@.len() == ps.len(),
                        forall|x: int|
                            0 <= x < found@.len() ==> found@[x] as int == ps[x] && found@[x]
                                < this@.len(),
                        forall|k: int|
                            0 <= k < steps@.len() ==> (#[trigger] steps@[k]).0 < this@.len()
                                && steps@[k].1 < other@.len(),
                        pairs(steps@) == before + assignments(ps, j as int).take(k - 1),
                    decreases found.len() - k,
                {
                    let ghost so_far = pairs(steps@);
                    steps.push((found[k], j));
                    assert(pairs(steps@) =~= so_far.push((ps[k as int], j as int)));
                    assert(assignments(ps, j as int)[k - 1] == (ps[k as int], j as int));
                    assert(assignments(ps, j as int).take(k as int) =~= assignments(
                        ps,
                        j as int,
                    ).take(k - 1).push((ps[k as int], j as int)));
                    assert(pairs(steps@) =~= before + assignments(ps, j as int).take(k as int));
                    k = k + 1;
                }
                let ghost so_far = pairs(steps@);
                steps.push((found[0], j));
                assert(pairs(steps@) =~= so_far.push((ps[0], j as int)));
                assert(assignments(ps, j as int)[ps.len() - 1] == (ps[0], j as int));
                assert(assignments(ps, j as int) =~= assignments(ps, j as int).take(
                    ps.len() - 1,
                ).push((ps[0], j as int)));
                assert(pairs(steps@) =~= before + assignments(ps, j as int));
            },
        }
        j = j + 1;
    }
    Some(steps)
}

} // verus!
