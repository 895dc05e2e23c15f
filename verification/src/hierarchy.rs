//! The body tree shown by the editor's hierarchy window and the labels of the
//! debug inspector's entity list.
use vstd::prelude::*;
use crate::broadphase::{group, FrameSpaceCache};

verus! {

/// The bodies listed without a parent, in listing order.
pub open spec fn unparented<T>(bodies: Seq<(Option<u64>, T)>) -> Seq<T>
    decreases bodies.len(),
{
    if bodies.len() == 0 {
        Seq::empty()
    } else {
        let rest = unparented(bodies.drop_last());
        if bodies.last().0 is None {
            rest.push(bodies.last().1)
        } else {
            rest
        }
    }
}

/// The bodies listed with a parent, each paired with it, in listing order.
pub open spec fn parented<T>(bodies: Seq<(Option<u64>, T)>) -> Seq<(u64, T)>
    decreases bodies.len(),
{
    if bodies.len() == 0 {
        Seq::empty()
    } else {
        let rest = parented(bodies.drop_last());
        match bodies.last().0 {
            Some(p) => rest.push((p, bodies.last().1)),
            None => rest,
        }
    }
}

/// Split the bodies, each listed with its parent when it orbits one, into the
/// tree's roots and the children of each parent, keeping the listing order.
pub fn body_tree<T>(bodies: Vec<(Option<u64>, T)>) -> (tree: (Vec<T>, FrameSpaceCache<T>))
    ensures
        tree.0@ == unparented(bodies@),
        forall|f: u64| #[trigger] tree.1.siblings_view(f) == group(parented(bodies@), f),
{
    let ghost all = bodies@;
    let ghost n = all.len();
    let mut roots: Vec<T> = Vec::new();
    let mut children: Vec<(u64, T)> = Vec::new();
    let mut rest = bodies;
    proof {
        assert(all.take(0).len() == 0);
        assert(rest@ =~= all.skip(0));
    }
    while rest.len() > 0
        invariant
            all.len() == n,
            rest@.len() <= n,
            rest@ == all.skip(n - rest@.len()),
            roots@ == unparented(all.take(n - rest@.len())),
            children@ == parented(all.take(n - rest@.len())),
        decreases rest@.len(),
    {
        let ghost done = n - rest@.len();
        let (parent, body) = rest.remove(0);
        proof {
            assert(all[done] == all.skip(done)[0]);
            assert(rest@ =~= all.skip(done + 1));
            let taken = all.take(done + 1);
            assert(taken.drop_last() =~= all.take(done));
            assert(taken.last() == (parent, body));
        }
        match parent {
            Some(p) => {
                children.push((p, body));
            },
            None => {
                roots.push(body);
            },
        }
    }
    proof {
        assert(all.take(n as int) =~= all);
    }
    (roots, FrameSpaceCache::build(children))
}

/// Every body lands in the tree exactly once: as a root or under its parent.
pub proof fn law_tree_partition<T>(bodies: Seq<(Option<u64>, T)>)
    ensures
        unparented(bodies).len() + parented(bodies).len() == bodies.len(),
    decreases bodies.len(),
{
    if bodies.len() > 0 {
        law_tree_partition(bodies.drop_last());
    }
}

/// The tag the inspector shows after an entity's name.
pub fn entity_tag(has_maneuvers: bool, has_orbit: bool) -> (tag: &'static str)
    ensures
        tag@ == if has_maneuvers {
            "ship"@
        } else if has_orbit {
            "body"@
        } else {
            "root"@
        },
{
    if has_maneuvers {
        "ship"
    } else if has_orbit {
        "body"
    } else {
        "root"
    }
}

/// The roots are exactly the bodies listed without a parent, and the parented
/// list exactly the bodies listed with one (each paired with it), both in
/// listing order.
pub proof fn law_tree_follows_the_listing<T>(bodies: Seq<(Option<u64>, T)>)
    ensures
        unparented(bodies) == bodies.filter_map(
            |b: (Option<u64>, T)|
                if b.0 is None {
                    Some(b.1)
                } else {
                    None
                },
        ),
        parented(bodies) == bodies.filter_map(
            |b: (Option<u64>, T)|
                match b.0 {
                    Some(p) => Some((p, b.1)),
                    None => None,
                },
        ),
    decreases bodies.len(),
{
    if bodies.len() > 0 {
        law_tree_follows_the_listing(bodies.drop_last());
        let f = |b: (Option<u64>, T)|
            if b.0 is None {
                Some(b.1)
            } else {
                None
            };
        let g = |b: (Option<u64>, T)|
            match b.0 {
                Some(p) => Some((p, b.1)),
                None => None,
            };
        assert(unparented(bodies) =~= bodies.filter_map(f));
        assert(parented(bodies) =~= bodies.filter_map(g));
    }
}

/// Every body listed with a parent is among that parent's children and never
/// among the roots' count; every body listed without one is a root.
pub proof fn law_children_under_their_parent<T>(bodies: Seq<(Option<u64>, T)>, i: int)
    requires
        0 <= i < bodies.len(),
    ensures
        bodies[i].0 matches Some(p) ==> group(parented(bodies), p).contains(bodies[i].1),
        bodies[i].0 is None ==> unparented(bodies).contains(bodies[i].1),
    decreases bodies.len(),
{
    let init = bodies.drop_last();
    if i < bodies.len() - 1 {
        assert(init[i] == bodies[i]);
        law_children_under_their_parent(init, i);
        if let Some(p) = bodies[i].0 {
            let pr = parented(bodies);
            if let Some(q) = bodies.last().0 {
                assert(pr == parented(init).push((q, bodies.last().1)));
                assert(pr.drop_last() =~= parented(init));
            } else {
                assert(pr == parented(init));
            }
            lemma_group_prefix(parented(init), pr, p);
        } else {
            let r = unparented(init);
            let w = choose|w: int| 0 <= w < r.len() && r[w] == bodies[i].1;
            assert(unparented(bodies)[w] == bodies[i].1);
        }
    } else {
        if let Some(p) = bodies[i].0 {
            let pr = parented(bodies);
            assert(pr == parented(init).push((p, bodies[i].1)));
            assert(pr.last() == (p, bodies[i].1));
            assert(pr.drop_last() =~= parented(init));
            let gr = group(pr, p);
            assert(gr == group(parented(init), p).push(bodies[i].1));
            assert(gr[gr.len() - 1] == bodies[i].1);
        } else {
            let u = unparented(bodies);
            assert(u[u.len() - 1] == bodies[i].1);
        }
    }
}

proof fn lemma_group_prefix<T>(short: Seq<(u64, T)>, long: Seq<(u64, T)>, p: u64)
    requires
        long == short || (long.len() == short.len() + 1 && long.drop_last() == short),
    ensures
        forall|x: T| group(short, p).contains(x) ==> group(long, p).contains(x),
{
    if long != short {
        assert forall|x: T| group(short, p).contains(x) implies group(long, p).contains(x) by {
            let gs = group(short, p);
            let w = choose|w: int| 0 <= w < gs.len() && gs[w] == x;
            assert(group(long, p)[w] == x);
        }
    }
}

} // verus!
