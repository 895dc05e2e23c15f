//! The order in which orbits are propagated each frame.
//!
//! An orbiter's absolute position is its parent's absolute position plus its
//! own orbital offset, so parents must be propagated before their children.
//! The order is a depth-first walk of the parent/child forest from every
//! root body, followed by the orbiters that no root reaches (each with the
//! part of the forest below it). Entities are identified by their `u64` ids.
use vstd::prelude::*;
use std::collections::{HashMap, HashSet};

verus! {

broadcast use vstd::std_specs::hash::group_hash_axioms;

/// The ids of the orbiters, each given as `(entity, parent)`.
pub open spec fn orbiter_ids(orbiters: Seq<(u64, u64)>) -> Set<u64> {
    orbiters.map_values(|o: (u64, u64)| o.0).to_set()
}

/// No entity is listed twice among the orbiters.
pub open spec fn distinct_ids(orbiters: Seq<(u64, u64)>) -> bool {
    forall|i: int, j: int|
        0 <= i < orbiters.len() && 0 <= j < orbiters.len() && i != j ==> orbiters[i].0
            != orbiters[j].0
}

/// The parent of `order[i]` is a root or stands earlier in `order`.
pub open spec fn parent_placed_before(
    orbiters: Seq<(u64, u64)>,
    roots: Seq<u64>,
    order: Seq<u64>,
    i: int,
) -> bool {
    forall|j: int|
        0 <= j < orbiters.len() && #[trigger] orbiters[j].0 == order[i] ==> (roots.contains(
            orbiters[j].1,
        ) || order.subrange(0, i).contains(orbiters[j].1))
}

/// Every orbiter whose parent is a root or lies in `placed` lies in `placed` too.
pub open spec fn closed_under_children(
    orbiters: Seq<(u64, u64)>,
    roots: Seq<u64>,
    placed: Seq<u64>,
) -> bool {
    forall|j: int|
        0 <= j < orbiters.len() && (roots.contains(#[trigger] orbiters[j].1) || placed.contains(
            orbiters[j].1,
        )) ==> placed.contains(orbiters[j].0)
}

/// `order` lists every orbiter exactly once; its first `k` entries are the
/// orbiters reached from the roots, each after its parent.
pub open spec fn is_propagation_order(
    orbiters: Seq<(u64, u64)>,
    roots: Seq<u64>,
    order: Seq<u64>,
    k: int,
) -> bool {
    &&& order.no_duplicates()
    &&& forall|x: u64| order.contains(x) <==> orbiter_ids(orbiters).contains(x)
    &&& 0 <= k <= order.len()
    &&& forall|i: int| 0 <= i < k ==> parent_placed_before(orbiters, roots, order, i)
    &&& closed_under_children(orbiters, roots, order.subrange(0, k))
}

/// `c` is listed among the orbiters with parent `p`.
spec fn is_child_of(orbiters: Seq<(u64, u64)>, c: u64, p: u64) -> bool {
    exists|j: int| #![trigger orbiters[j]] 0 <= j < orbiters.len() && orbiters[j] == (c, p)
}

/// The orbiters listed with parent `p`, in listing order.
pub open spec fn children_of(orbiters: Seq<(u64, u64)>, p: u64) -> Seq<u64>
    decreases orbiters.len(),
{
    if orbiters.len() == 0 {
        Seq::empty()
    } else {
        let rest = children_of(orbiters.drop_last(), p);
        if orbiters.last().1 == p {
            rest.push(orbiters.last().0)
        } else {
            rest
        }
    }
}

/// The order after placing, depth first, every not-yet-placed child of `p`,
/// each followed by the part of the forest below it. `fuel` bounds the depth
/// of the walk; each level places a new orbiter, so the number of orbiters is
/// always enough.
pub open spec fn walk(orbiters: Seq<(u64, u64)>, order: Seq<u64>, p: u64, fuel: nat) -> Seq<u64>
    decreases fuel, 1nat, 0nat,
{
    walk_list(orbiters, order, children_of(orbiters, p), fuel)
}

/// The order after walking, in turn, each entry of `list` not placed yet.
pub open spec fn walk_list(
    orbiters: Seq<(u64, u64)>,
    order: Seq<u64>,
    list: Seq<u64>,
    fuel: nat,
) -> Seq<u64>
    decreases fuel, 0nat, list.len(),
{
    if list.len() == 0 {
        order
    } else {
        let before = walk_list(orbiters, order, list.drop_last(), fuel);
        let c = list.last();
        if before.contains(c) {
            before
        } else if fuel == 0 {
            before.push(c)
        } else {
            walk(orbiters, before.push(c), c, (fuel - 1) as nat)
        }
    }
}

/// The order after walking from each root in turn.
pub open spec fn walk_roots(orbiters: Seq<(u64, u64)>, roots: Seq<u64>, fuel: nat) -> Seq<u64>
    decreases roots.len(),
{
    if roots.len() == 0 {
        Seq::empty()
    } else {
        walk(orbiters, walk_roots(orbiters, roots.drop_last(), fuel), roots.last(), fuel)
    }
}

/// The order after placing, in listing order, each orbiter of `list` not placed
/// yet, each followed by its unplaced descendants.
pub open spec fn walk_rest(
    orbiters: Seq<(u64, u64)>,
    order: Seq<u64>,
    list: Seq<(u64, u64)>,
    fuel: nat,
) -> Seq<u64>
    decreases list.len(),
{
    if list.len() == 0 {
        order
    } else {
        let before = walk_rest(orbiters, order, list.drop_last(), fuel);
        let e = list.last().0;
        if before.contains(e) {
            before
        } else {
            walk(orbiters, before.push(e), e, fuel)
        }
    }
}

/// The propagation order: the depth-first walk from every root, in the order
/// the roots are listed, then every orbiter no root reaches, in listing order,
/// each followed by its unreached descendants. Children are visited in the
/// order the orbiters are listed.
pub open spec fn propagation_order(orbiters: Seq<(u64, u64)>, roots: Seq<u64>) -> Seq<u64> {
    let fuel = orbiters.len();
    walk_rest(orbiters, walk_roots(orbiters, roots, fuel), orbiters, fuel)
}

/// The children lists are exactly the orbiters of each parent, in listing order.
spec fn children_exact(children: Map<u64, Vec<u64>>, orbiters: Seq<(u64, u64)>) -> bool {
    forall|p: u64|
        #[trigger] children_of(orbiters, p) == if children.contains_key(p) {
            children[p]@
        } else {
            Seq::<u64>::empty()
        }
}

/// Children lists: every listed child is an orbiter of that parent, and every
/// orbiter is listed under its parent.
spec fn children_wf(children: Map<u64, Vec<u64>>, orbiters: Seq<(u64, u64)>) -> bool {
    &&& forall|p: u64, k: int|
        #![trigger children[p]@[k]]
        children.contains_key(p) && 0 <= k < children[p]@.len() ==> is_child_of(
            orbiters,
            children[p]@[k],
            p,
        )
    &&& forall|j: int|
        0 <= j < orbiters.len() ==> children.contains_key(#[trigger] orbiters[j].1)
            && children[orbiters[j].1]@.contains(orbiters[j].0)
}

/// `seen` holds exactly the entries of `order`.
spec fn mirrors(seen: Set<u64>, order: Seq<u64>) -> bool {
    forall|x: u64| seen.contains(x) <==> order.contains(x)
}

proof fn lemma_strict_subset_len(a: Set<u64>, b: Set<u64>, x: u64)
    requires
        b.finite(),
        a.subset_of(b),
        b.contains(x),
        !a.contains(x),
    ensures
        a.len() < b.len(),
{
    vstd::set_lib::lemma_len_subset(a, b.remove(x));
}


proof fn lemma_push_contains(s: Seq<u64>, v: u64)
    ensures
        forall|x: u64| s.push(v).contains(x) <==> (s.contains(x) || x == v),
{
    assert forall|x: u64| s.push(v).contains(x) <==> (s.contains(x) || x == v) by {
        if s.contains(x) {
            let w = choose|w: int| 0 <= w < s.len() && s[w] == x;
            assert(s.push(v)[w] == x);
        }
        if x == v {
            assert(s.push(v)[s.len() as int] == v);
        }
        if s.push(v).contains(x) && x != v {
            let w = choose|w: int| 0 <= w < s.push(v).len() && s.push(v)[w] == x;
            assert(s[w] == x);
        }
    }
}

proof fn lemma_push_no_dup(s: Seq<u64>, v: u64)
    requires
        s.no_duplicates(),
        !s.contains(v),
    ensures
        s.push(v).no_duplicates(),
{
    let t = s.push(v);
    assert forall|a: int, b: int| 0 <= a < t.len() && 0 <= b < t.len() && a != b implies t[a]
        != t[b] by {
        if a < s.len() && b < s.len() {
            assert(t[a] == s[a] && t[b] == s[b]);
        } else if a < s.len() {
            assert(t[a] == s[a]);
        } else if b < s.len() {
            assert(t[b] == s[b]);
        }
    }
}

/// Facts about a sequence that extends `short`.
proof fn lemma_prefix(long: Seq<u64>, short: Seq<u64>)
    requires
        short.len() <= long.len(),
        long.subrange(0, short.len() as int) == short,
    ensures
        forall|i: int| 0 <= i < short.len() ==> long[i] == #[trigger] short[i],
        forall|x: u64| short.contains(x) ==> long.contains(x),
        forall|i: int|
            0 <= i <= short.len() ==> #[trigger] long.subrange(0, i) == short.subrange(0, i),
{
    assert forall|i: int| 0 <= i < short.len() implies long[i] == #[trigger] short[i] by {
        assert(long.subrange(0, short.len() as int)[i] == long[i]);
    }
    assert forall|x: u64| short.contains(x) implies long.contains(x) by {
        let w = choose|w: int| 0 <= w < short.len() && short[w] == x;
        assert(long[w] == x);
    }
    assert forall|i: int| 0 <= i <= short.len() implies #[trigger] long.subrange(0, i)
        == short.subrange(0, i) by {
        assert(long.subrange(0, i) =~= short.subrange(0, i));
    }
}

/// A prefix relation is transitive.
proof fn lemma_prefix_trans(a: Seq<u64>, b: Seq<u64>, c: Seq<u64>)
    requires
        c.len() <= b.len() <= a.len(),
        a.subrange(0, b.len() as int) == b,
        b.subrange(0, c.len() as int) == c,
    ensures
        a.subrange(0, c.len() as int) == c,
{
    assert(a.subrange(0, c.len() as int) =~= c) by {
        lemma_prefix(a, b);
    }
}

proof fn lemma_ids_finite(orbiters: Seq<(u64, u64)>)
    ensures
        orbiter_ids(orbiters).finite(),
{
    vstd::seq_lib::seq_to_set_is_finite(orbiters.map_values(|o: (u64, u64)| o.0));
}

proof fn lemma_in_ids(orbiters: Seq<(u64, u64)>, j: int)
    requires
        0 <= j < orbiters.len(),
    ensures
        orbiter_ids(orbiters).contains(orbiters[j].0),
{
    let m = orbiters.map_values(|o: (u64, u64)| o.0);
    assert(m[j] == orbiters[j].0);
    assert(m.contains(orbiters[j].0));
}

proof fn lemma_ids_witness(orbiters: Seq<(u64, u64)>, x: u64) -> (j: int)
    requires
        orbiter_ids(orbiters).contains(x),
    ensures
        0 <= j < orbiters.len(),
        orbiters[j].0 == x,
{
    let m = orbiters.map_values(|o: (u64, u64)| o.0);
    assert(m.contains(x));
    let j = choose|j: int| 0 <= j < m.len() && m[j] == x;
    j
}

/// Group the orbiters under their parents, keeping the listing order.
fn build_children(orbiters: &Vec<(u64, u64)>) -> (children: HashMap<u64, Vec<u64>>)
    ensures
        children_wf(children@, orbiters@),
        children_exact(children@, orbiters@),
{
    let mut children: HashMap<u64, Vec<u64>> = HashMap::new();
    let mut idx: usize = 0;
    proof {
        assert forall|p: u64| #[trigger] children_of(orbiters@.take(0), p) == Seq::<u64>::empty() by {
            assert(orbiters@.take(0).len() == 0);
        }
    }
    while idx < orbiters.len()
        invariant
            idx <= orbiters.len(),
            forall|p: u64, k: int|
                #![trigger children@[p]@[k]]
                children@.contains_key(p) && 0 <= k < children@[p]@.len() ==> is_child_of(
                    orbiters@,
                    children@[p]@[k],
                    p,
                ),
            forall|j: int|
                0 <= j < idx ==> children@.contains_key(#[trigger] orbiters@[j].1)
                    && children@[orbiters@[j].1]@.contains(orbiters@[j].0),
            children_exact(children@, orbiters@.take(idx as int)),
        decreases orbiters.len() - idx,
    {
        let (e, parent) = orbiters[idx];
        let ghost old_children = children@;
        let mut list = match children.remove(&parent) {
            Some(l) => l,
            None => Vec::new(),
        };
        let ghost old_list = list@;
        proof {
            if old_children.contains_key(parent) {
                assert(old_list == old_children[parent]@);
            } else {
                assert(old_list.len() == 0);
            }
        }
        list.push(e);
        children.insert(parent, list);
        proof {
            assert(orbiters@[idx as int] == (e, parent));
            assert forall|p: u64, k: int|
                #![trigger children@[p]@[k]]
                children@.contains_key(p) && 0 <= k < children@[p]@.len() implies is_child_of(
                orbiters@,
                children@[p]@[k],
                p,
            ) by {
                if p == parent {
                    if k < old_list.len() {
                        assert(children@[p]@[k] == old_children[p]@[k]);
                    } else {
                        assert(children@[p]@[k] == e);
                        assert(orbiters@[idx as int] == (children@[p]@[k], p));
                    }
                } else {
                    assert(children@[p] == old_children[p]);
                }
            }
            assert forall|j: int| 0 <= j < idx + 1 implies children@.contains_key(
                #[trigger] orbiters@[j].1,
            ) && children@[orbiters@[j].1]@.contains(orbiters@[j].0) by {
                let q = orbiters@[j].1;
                if j < idx {
                    if q == parent {
                        let kk = choose|kk: int|
                            0 <= kk < old_children[q]@.len() && old_children[q]@[kk]
                                == orbiters@[j].0;
                        assert(children@[q]@[kk] == orbiters@[j].0);
                    } else {
                        assert(children@[q] == old_children[q]);
                    }
                } else {
                    assert(children@[parent]@[old_list.len() as int] == e);
                }
            }
            let taken = orbiters@.take(idx + 1);
            assert(taken.drop_last() =~= orbiters@.take(idx as int));
            assert(taken.last() == (e, parent));
            assert forall|p: u64| #[trigger] children_of(taken, p) == if children@.contains_key(p) {
                children@[p]@
            } else {
                Seq::<u64>::empty()
            } by {
                assert(children_of(orbiters@.take(idx as int), p) == if old_children.contains_key(p) {
                    old_children[p]@
                } else {
                    Seq::<u64>::empty()
                });
                if p == parent {
                    assert(children@[p]@ =~= old_list.push(e));
                } else {
                    assert(children@.contains_key(p) == old_children.contains_key(p));
                    if children@.contains_key(p) {
                        assert(children@[p] == old_children[p]);
                    }
                }
            }
        }
        idx = idx + 1;
    }
    proof {
        assert(orbiters@.take(orbiters@.len() as int) =~= orbiters@);
    }
    children
}

/// The invariant shared by the walk: `seen` mirrors `order`, nothing is placed
/// twice, and only orbiters are placed.
spec fn walk_wf(
    seen: Set<u64>,
    order: Seq<u64>,
    orbiters: Seq<(u64, u64)>,
    children: Map<u64, Vec<u64>>,
) -> bool {
    &&& distinct_ids(orbiters)
    &&& children_wf(children, orbiters)
    &&& children_exact(children, orbiters)
    &&& mirrors(seen, order)
    &&& order.no_duplicates()
    &&& seen.subset_of(orbiter_ids(orbiters))
}

/// Every element of `order` from position `from` on has its parent among the
/// roots or earlier in `order`.
spec fn placed_after_parents(
    orbiters: Seq<(u64, u64)>,
    roots: Seq<u64>,
    order: Seq<u64>,
    from: int,
) -> bool {
    forall|i: int| from <= i < order.len() ==> parent_placed_before(orbiters, roots, order, i)
}

/// Every orbiter whose parent is placed at position `from` or later is placed.
spec fn children_placed(orbiters: Seq<(u64, u64)>, order: Seq<u64>, from: int) -> bool {
    forall|j: int, i: int|
        0 <= j < orbiters.len() && from <= i < order.len() && #[trigger] orbiters[j].1
            == #[trigger] order[i] ==> order.contains(orbiters[j].0)
}

proof fn lemma_placed_after_parents_extend(
    orbiters: Seq<(u64, u64)>,
    roots: Seq<u64>,
    long: Seq<u64>,
    short: Seq<u64>,
    from: int,
)
    requires
        0 <= from,
        short.len() <= long.len(),
        long.subrange(0, short.len() as int) == short,
        placed_after_parents(orbiters, roots, short, from),
        placed_after_parents(orbiters, roots, long, short.len() as int),
    ensures
        placed_after_parents(orbiters, roots, long, from),
{
    lemma_prefix(long, short);
    assert forall|i: int| from <= i < long.len() implies parent_placed_before(
        orbiters,
        roots,
        long,
        i,
    ) by {
        if i < short.len() {
            assert(parent_placed_before(orbiters, roots, short, i));
            assert(long.subrange(0, i) == short.subrange(0, i));
            assert(long[i] == short[i]);
        }
    }
}

proof fn lemma_children_placed_extend(
    orbiters: Seq<(u64, u64)>,
    long: Seq<u64>,
    short: Seq<u64>,
    from: int,
)
    requires
        0 <= from,
        short.len() <= long.len(),
        long.subrange(0, short.len() as int) == short,
        children_placed(orbiters, short, from),
        children_placed(orbiters, long, short.len() as int),
    ensures
        children_placed(orbiters, long, from),
{
    lemma_prefix(long, short);
    assert forall|j: int, i: int|
        0 <= j < orbiters.len() && from <= i < long.len() && #[trigger] orbiters[j].1
            == #[trigger] long[i] implies long.contains(orbiters[j].0) by {
        if i < short.len() {
            assert(long[i] == short[i]);
            assert(short.contains(orbiters[j].0));
        }
    }
}

/// Place every not-yet-placed child of `parent`, each followed by the part
/// of the forest below it.
fn push_children(
    parent: u64,
    children: &HashMap<u64, Vec<u64>>,
    order: &mut Vec<u64>,
    seen: &mut HashSet<u64>,
    Ghost(orbiters): Ghost<Seq<(u64, u64)>>,
    Ghost(roots): Ghost<Seq<u64>>,
    Ghost(fuel): Ghost<nat>,
)
    requires
        walk_wf(old(seen)@, old(order)@, orbiters, children@),
        roots.contains(parent) || old(order)@.contains(parent),
        fuel + old(seen)@.len() >= orbiter_ids(orbiters).len(),
    ensures
        walk_wf(final(seen)@, final(order)@, orbiters, children@),
        final(order)@ == walk(orbiters, old(order)@, parent, fuel),
        old(seen)@.subset_of(final(seen)@),
        final(order)@.len() >= old(order)@.len(),
        final(order)@.subrange(0, old(order)@.len() as int) == old(order)@,
        placed_after_parents(orbiters, roots, final(order)@, old(order)@.len() as int),
        forall|j: int|
            0 <= j < orbiters.len() && #[trigger] orbiters[j].1 == parent
                ==> final(order)@.contains(orbiters[j].0),
        children_placed(orbiters, final(order)@, old(order)@.len() as int),
    decreases orbiter_ids(orbiters).len() - old(seen)@.len(),
{
    proof {
        lemma_ids_finite(orbiters);
        vstd::set_lib::lemma_len_subset(seen@, orbiter_ids(orbiters));
    }
    let ghost order0 = order@;
    let ghost seen0 = seen@;
    assert(order@.subrange(0, order0.len() as int) =~= order0);
    proof {
        assert(children_of(orbiters, parent) == if children@.contains_key(parent) {
            children@[parent]@
        } else {
            Seq::<u64>::empty()
        });
    }
    match children.get(&parent) {
        None => {
            proof {
                assert(order@ == walk(orbiters, order0, parent, fuel));
            }
        },
        Some(entries) => {
            let mut idx: usize = 0;
            proof {
                assert(entries@.take(0) =~= Seq::<u64>::empty());
            }
            while idx < entries.len()
                invariant
                    order@ == walk_list(orbiters, order0, entries@.take(idx as int), fuel),
                    fuel + seen@.len() >= orbiter_ids(orbiters).len(),
                    entries@ == children_of(orbiters, parent),
                    walk_wf(seen@, order@, orbiters, children@),
                    children@.contains_key(parent),
                    children@[parent] == *entries,
                    roots.contains(parent) || order0.contains(parent),
                    idx <= entries@.len(),
                    orbiter_ids(orbiters).finite(),
                    seen0.subset_of(seen@),
                    seen0 == old(seen)@,
                    seen0.len() <= orbiter_ids(orbiters).len(),
                    order@.len() >= order0.len(),
                    order@.subrange(0, order0.len() as int) == order0,
                    placed_after_parents(orbiters, roots, order@, order0.len() as int),
                    forall|k: int| 0 <= k < idx ==> order@.contains(#[trigger] entries@[k]),
                    children_placed(orbiters, order@, order0.len() as int),
                decreases entries@.len() - idx,
            {
                let child = entries[idx];
                let ghost before = order@;
                let ghost seen_before = seen@;
                proof {
                    let taken = entries@.take(idx + 1);
                    assert(taken.drop_last() =~= entries@.take(idx as int));
                    assert(taken.last() == child);
                }
                if seen.insert(child) {
                    order.push(child);
                    proof {
                        assert(is_child_of(orbiters, entries@[idx as int], parent));
                        let jc = choose|jc: int|
                            #![trigger orbiters[jc]]
                            0 <= jc < orbiters.len() && orbiters[jc] == (child, parent);
                        lemma_in_ids(orbiters, jc);
                        lemma_push_contains(before, child);
                        lemma_push_no_dup(before, child);
                        assert(order@.subrange(0, before.len() as int) =~= before);
                        lemma_prefix_trans(order@, before, order0);
                        lemma_prefix(order@, order0);
                        // the new entry's parent is a root or already placed
                        assert(parent_placed_before(orbiters, roots, order@, before.len() as int))
                            by {
                            assert forall|j: int|
                                0 <= j < orbiters.len() && #[trigger] orbiters[j].0
                                    == order@[before.len() as int] implies (roots.contains(
                                orbiters[j].1,
                            ) || order@.subrange(0, before.len() as int).contains(
                                orbiters[j].1,
                            )) by {
                                assert(orbiters[j].0 == orbiters[jc].0);
                                assert(j == jc);
                                if !roots.contains(parent) {
                                    let w = choose|w: int|
                                        0 <= w < order0.len() && order0[w] == parent;
                                    assert(before[w] == parent) by {
                                        lemma_prefix(before, order0);
                                    }
                                    assert(order@.subrange(0, before.len() as int)[w] == parent);
                                }
                            }
                        }
                        assert(placed_after_parents(orbiters, roots, order@, before.len() as int));
                        lemma_placed_after_parents_extend(
                            orbiters,
                            roots,
                            order@,
                            before,
                            order0.len() as int,
                        );
                        assert(children_placed(orbiters, before, order0.len() as int));
                        vstd::set_lib::lemma_len_subset(seen@, orbiter_ids(orbiters));
                        lemma_strict_subset_len(seen0, seen@, child);
                        lemma_strict_subset_len(seen_before, orbiter_ids(orbiters), child);
                        assert(!before.contains(child));
                    }
                    let ghost mid = order@;
                    let ghost seen_mid = seen@;
                    assert(seen0.len() < seen@.len());
                    assert(seen@.len() <= orbiter_ids(orbiters).len());
                    push_children(
                        child,
                        children,
                        order,
                        seen,
                        Ghost(orbiters),
                        Ghost(roots),
                        Ghost((fuel - 1) as nat),
                    );
                    proof {
                        vstd::set_lib::lemma_len_subset(seen@, orbiter_ids(orbiters));
                        vstd::set_lib::lemma_len_subset(seen_mid, seen@);
                        assert(order@ == walk_list(orbiters, order0, entries@.take(idx + 1), fuel));
                        lemma_prefix_trans(order@, mid, order0);
                        lemma_placed_after_parents_extend(
                            orbiters,
                            roots,
                            order@,
                            mid,
                            order0.len() as int,
                        );
                        lemma_prefix(order@, mid);
                        lemma_prefix(mid, before);
                        lemma_prefix_trans(order@, mid, before);
                        lemma_prefix(order@, before);
                        assert(children_placed(orbiters, order@, order0.len() as int)) by {
                            assert forall|j: int, i: int|
                                0 <= j < orbiters.len() && order0.len() <= i < order@.len()
                                    && #[trigger] orbiters[j].1 == #[trigger] order@[i]
                                    implies order@.contains(orbiters[j].0) by {
                                if i < before.len() {
                                    assert(order@[i] == before[i]);
                                    assert(before.contains(orbiters[j].0));
                                } else if i == before.len() {
                                    assert(order@[i] == mid[i]);
                                }
                            }
                        }
                        assert forall|k: int| 0 <= k < idx + 1 implies order@.contains(
                            #[trigger] entries@[k],
                        ) by {
                            if k < idx {
                                assert(before.contains(entries@[k]));
                            } else {
                                assert(order@[before.len() as int] == mid[before.len() as int]);
                            }
                        }
                    }
                } else {
                    proof {
                        assert(order@ == before);
                        assert(seen@.contains(child));
                        assert(before.contains(child));
                    }
                }
                idx = idx + 1;
            }
            proof {
                assert(entries@.take(entries@.len() as int) =~= entries@);
            }
            proof {
                assert forall|j: int|
                    0 <= j < orbiters.len() && #[trigger] orbiters[j].1 == parent implies order@.contains(
                    orbiters[j].0,
                ) by {
                    assert(children@[orbiters[j].1]@.contains(orbiters[j].0));
                    let k = choose|k: int|
                        0 <= k < entries@.len() && entries@[k] == orbiters[j].0;
                    assert(order@.contains(entries@[k]));
                }
            }
        },
    }
}

/// The order in which orbits are propagated, rebuilt on demand.
pub struct OrbitPropagationCache {
    dirty: bool,
    order: Vec<u64>,
}

impl OrbitPropagationCache {
    /// An empty cache marked for rebuilding.
    pub fn new() -> (c: Self)
        ensures
            c.is_dirty(),
            c.order_view() == Seq::<u64>::empty(),
    {
        OrbitPropagationCache { dirty: true, order: Vec::new() }
    }

    /// The propagation order.
    pub closed spec fn order_view(self) -> Seq<u64> {
        self.order@
    }

    /// Set when the parent/child structure may have changed.
    pub closed spec fn is_dirty(self) -> bool {
        self.dirty
    }

    /// Note that the parent/child structure may have changed; the order is kept
    /// until it is rebuilt.
    pub fn mark_dirty(&mut self)
        ensures
            final(self).is_dirty(),
            final(self).order_view() == old(self).order_view(),
    {
        self.dirty = true;
    }

    /// The propagation order.
    pub fn order(&self) -> (o: &Vec<u64>)
        ensures
            o@ == self.order_view(),
    {
        &self.order
    }

    /// Whether the order must be rebuilt before use.
    pub fn needs_rebuild(&self) -> (b: bool)
        ensures
            b == (self.is_dirty() || self.order_view().len() == 0),
    {
        self.dirty || self.order.len() == 0
    }

    /// Rebuild the order from the orbiters, listed as `(entity, parent)`, and
    /// the root bodies: a depth-first walk from each root, then every orbiter
    /// not reached yet, each followed by its unreached descendants.
    pub fn rebuild_order(&mut self, orbiters: &Vec<(u64, u64)>, roots: &Vec<u64>)
        requires
            distinct_ids(orbiters@),
        ensures
            !final(self).is_dirty(),
            final(self).order_view() == propagation_order(orbiters@, roots@),
            exists|k: int| is_propagation_order(orbiters@, roots@, final(self).order_view(), k),
    {
        let children = build_children(orbiters);
        let mut order: Vec<u64> = Vec::new();
        let mut seen: HashSet<u64> = HashSet::new();
        let ghost fuel: nat = orbiters@.len();
        proof {
            lemma_ids_finite(orbiters@);
            assert(mirrors(seen@, order@));
            orbiters@.map_values(|o: (u64, u64)| o.0).lemma_cardinality_of_set();
            assert(orbiter_ids(orbiters@).len() <= fuel);
            assert(roots@.take(0) =~= Seq::<u64>::empty());
        }
        let mut r: usize = 0;
        while r < roots.len()
            invariant
                r <= roots.len(),
                walk_wf(seen@, order@, orbiters@, children@),
                placed_after_parents(orbiters@, roots@, order@, 0),
                forall|j: int|
                    0 <= j < orbiters@.len() && roots@.subrange(0, r as int).contains(
                        #[trigger] orbiters@[j].1,
                    ) ==> order@.contains(orbiters@[j].0),
                children_placed(orbiters@, order@, 0),
                order@ == walk_roots(orbiters@, roots@.take(r as int), fuel),
                orbiter_ids(orbiters@).len() <= fuel,
                fuel == orbiters@.len(),
            decreases roots.len() - r,
        {
            let ghost before = order@;
            let root = roots[r];
            assert(roots@[r as int] == root);
            proof {
                let taken = roots@.take(r + 1);
                assert(taken.drop_last() =~= roots@.take(r as int));
                assert(taken.last() == root);
            }
            push_children(
                root,
                &children,
                &mut order,
                &mut seen,
                Ghost(orbiters@),
                Ghost(roots@),
                Ghost(fuel),
            );
            proof {
                lemma_placed_after_parents_extend(orbiters@, roots@, order@, before, 0);
                lemma_children_placed_extend(orbiters@, order@, before, 0);
                lemma_prefix(order@, before);
                assert forall|j: int|
                    0 <= j < orbiters@.len() && roots@.subrange(0, r + 1).contains(
                        #[trigger] orbiters@[j].1,
                    ) implies order@.contains(orbiters@[j].0) by {
                    let p = orbiters@[j].1;
                    let w = choose|w: int|
                        0 <= w < r + 1 && #[trigger] roots@.subrange(0, r + 1)[w] == p;
                    if w < r {
                        assert(roots@.subrange(0, r as int)[w] == p);
                        assert(before.contains(orbiters@[j].0));
                    } else {
                        assert(p == root);
                    }
                }
            }
            r = r + 1;
        }
        let ghost k = order@.len() as int;
        let ghost reached = order@;
        proof {
            assert(roots@.subrange(0, roots@.len() as int) =~= roots@);
            // the reached prefix is closed: every child of a root or of a reached orbiter is reached
            assert forall|j: int|
                0 <= j < orbiters@.len() && (roots@.contains(#[trigger] orbiters@[j].1)
                    || reached.contains(orbiters@[j].1)) implies reached.contains(
                orbiters@[j].0,
            ) by {
                if !roots@.contains(orbiters@[j].1) {
                    let i = choose|i: int| 0 <= i < reached.len() && reached[i] == orbiters@[j].1;
                    assert(orbiters@[j].1 == reached[i]);
                }
            }
            assert(reached.subrange(0, k) =~= reached);
            assert(roots@.take(roots@.len() as int) =~= roots@);
            assert(orbiters@.take(0) =~= Seq::<(u64, u64)>::empty());
        }
        let mut idx: usize = 0;
        while idx < orbiters.len()
            invariant
                idx <= orbiters.len(),
                walk_wf(seen@, order@, orbiters@, children@),
                0 <= k <= order@.len(),
                reached.len() == k,
                order@.subrange(0, k) == reached,
                placed_after_parents(orbiters@, roots@, reached, 0),
                closed_under_children(orbiters@, roots@, reached),
                forall|j: int| 0 <= j < idx ==> order@.contains(#[trigger] orbiters@[j].0),
                order@ == walk_rest(orbiters@, reached, orbiters@.take(idx as int), fuel),
                reached == walk_roots(orbiters@, roots@, fuel),
                orbiter_ids(orbiters@).len() <= fuel,
                fuel == orbiters@.len(),
            decreases orbiters.len() - idx,
        {
            let ghost before = order@;
            let (e, _) = orbiters[idx];
            proof {
                let taken = orbiters@.take(idx + 1);
                assert(taken.drop_last() =~= orbiters@.take(idx as int));
                assert(taken.last() == orbiters@[idx as int]);
            }
            if seen.insert(e) {
                order.push(e);
                proof {
                    lemma_in_ids(orbiters@, idx as int);
                    lemma_push_contains(before, e);
                    lemma_push_no_dup(before, e);
                    assert(order@.subrange(0, before.len() as int) =~= before);
                    lemma_prefix_trans(order@, before, reached);
                    assert(walk_wf(seen@, order@, orbiters@, children@));
                }
                let ghost mid = order@;
                push_children(
                    e,
                    &children,
                    &mut order,
                    &mut seen,
                    Ghost(orbiters@),
                    Ghost(roots@),
                    Ghost(fuel),
                );
                proof {
                    lemma_prefix_trans(order@, mid, reached);
                    lemma_prefix(order@, mid);
                    lemma_prefix(mid, before);
                    assert forall|j: int| 0 <= j < idx + 1 implies order@.contains(
                        #[trigger] orbiters@[j].0,
                    ) by {
                        if j < idx {
                            assert(before.contains(orbiters@[j].0));
                        } else {
                            assert(mid[before.len() as int] == e);
                            assert(order@[before.len() as int] == e);
                        }
                    }
                }
            } else {
                proof {
                    assert(order@ == before);
                    assert(seen@.contains(e));
                    assert(before.contains(e));
                }
            }
            idx = idx + 1;
        }
        proof {
            assert(orbiters@.take(orbiters@.len() as int) =~= orbiters@);
            lemma_prefix(order@, reached);
            assert forall|x: u64| order@.contains(x) <==> orbiter_ids(orbiters@).contains(x) by {
                if orbiter_ids(orbiters@).contains(x) {
                    let j = lemma_ids_witness(orbiters@, x);
                    assert(order@.contains(orbiters@[j].0));
                }
                if order@.contains(x) {
                    assert(seen@.contains(x));
                }
            }
            assert forall|i: int| 0 <= i < k implies parent_placed_before(
                orbiters@,
                roots@,
                order@,
                i,
            ) by {
                assert(parent_placed_before(orbiters@, roots@, reached, i));
                assert(order@.subrange(0, i) == reached.subrange(0, i));
                assert(order@[i] == reached[i]);
            }
            assert(is_propagation_order(orbiters@, roots@, order@, k));
        }
        self.order = order;
        self.dirty = false;
        assert(is_propagation_order(orbiters@, roots@, self.order_view(), k));
    }
}

impl Default for OrbitPropagationCache {
    fn default() -> (c: Self)
        ensures
            c.is_dirty(),
            c.order_view() == Seq::<u64>::empty(),
    {
        OrbitPropagationCache::new()
    }
}

/// Parents first: every orbiter reached from a root is propagated after its
/// parent, so its parent's absolute state is already known when it is needed.
pub proof fn law_parent_before_child(
    orbiters: Seq<(u64, u64)>,
    roots: Seq<u64>,
    order: Seq<u64>,
    k: int,
    i: int,
    j: int,
)
    requires
        is_propagation_order(orbiters, roots, order, k),
        0 <= i < k,
        0 <= j < orbiters.len(),
        orbiters[j].0 == order[i],
        !roots.contains(orbiters[j].1),
    ensures
        exists|h: int| 0 <= h < i && order[h] == orbiters[j].1,
{
    assert(parent_placed_before(orbiters, roots, order, i));
    let p = orbiters[j].1;
    assert(order.subrange(0, i).contains(p));
    let h = choose|h: int| 0 <= h < i && order.subrange(0, i)[h] == p;
    assert(order[h] == p);
}

/// The orbiters after the reached prefix are exactly those no root reaches:
/// their parents are neither roots nor reached orbiters.
pub proof fn law_unreached_tail(
    orbiters: Seq<(u64, u64)>,
    roots: Seq<u64>,
    order: Seq<u64>,
    k: int,
    i: int,
    j: int,
)
    requires
        is_propagation_order(orbiters, roots, order, k),
        k <= i < order.len(),
        0 <= j < orbiters.len(),
        orbiters[j].0 == order[i],
    ensures
        !roots.contains(orbiters[j].1),
        !order.subrange(0, k).contains(orbiters[j].1),
{
    if roots.contains(orbiters[j].1) || order.subrange(0, k).contains(orbiters[j].1) {
        assert(order.subrange(0, k).contains(orbiters[j].0));
        let h = choose|h: int| 0 <= h < k && order.subrange(0, k)[h] == orbiters[j].0;
        assert(order[h] == order[i]);
    }
}

/// The children of `p` are exactly the orbiters listed with parent `p`, in
/// listing order.
pub proof fn law_children_are_listed_orbiters(orbiters: Seq<(u64, u64)>, p: u64)
    ensures
        children_of(orbiters, p) == orbiters.filter_map(
            |o: (u64, u64)|
                if o.1 == p {
                    Some(o.0)
                } else {
                    None
                },
        ),
    decreases orbiters.len(),
{
    if orbiters.len() > 0 {
        law_children_are_listed_orbiters(orbiters.drop_last(), p);
        let f = |o: (u64, u64)|
            if o.1 == p {
                Some(o.0)
            } else {
                None
            };
        assert(children_of(orbiters, p) =~= orbiters.filter_map(f));
    }
}

} // verus!
