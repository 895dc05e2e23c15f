//! Frame-space broadphase: the bodies of each parent frame, grouped so that
//! sphere-of-influence checks only look at siblings. Frames and bodies are
//! identified by `u64` entity ids; the entries themselves are opaque to the
//! grouping.
use vstd::prelude::*;
use std::collections::HashMap;

verus! {

broadcast use vstd::std_specs::hash::group_hash_axioms;

/// The entries recorded under `frame`, in the order they were listed.
pub open spec fn group<T>(entries: Seq<(u64, T)>, frame: u64) -> Seq<T>
    decreases entries.len(),
{
    if entries.len() == 0 {
        Seq::empty()
    } else {
        let rest = group(entries.drop_last(), frame);
        if entries.last().0 == frame {
            rest.push(entries.last().1)
        } else {
            rest
        }
    }
}

/// Children grouped by the frame (parent body) they move in.
pub struct FrameSpaceCache<T> {
    siblings: HashMap<u64, Vec<T>>,
}

impl<T> FrameSpaceCache<T> {
    /// The entries recorded under `frame` (empty when none are).
    pub closed spec fn siblings_view(self, frame: u64) -> Seq<T> {
        if self.siblings@.contains_key(frame) {
            self.siblings@[frame]@
        } else {
            Seq::empty()
        }
    }

    /// An empty cache.
    pub fn new() -> (c: Self)
        ensures
            forall|f: u64| #[trigger] c.siblings_view(f) == Seq::<T>::empty(),
    {
        FrameSpaceCache { siblings: HashMap::new() }
    }

    /// The children of `frame`; an empty slice for a frame with none.
    pub fn siblings(&self, frame: u64) -> (s: &[T])
        ensures
            s@ == self.siblings_view(frame),
    {
        match self.siblings.get(&frame) {
            Some(entries) => entries.as_slice(),
            None => &[],
        }
    }

    /// Forget every entry.
    pub fn clear(&mut self)
        ensures
            forall|f: u64| #[trigger] final(self).siblings_view(f) == Seq::<T>::empty(),
    {
        self.siblings.clear();
    }

    /// Record `entry` as the next child of `parent`.
    pub fn push(&mut self, parent: u64, entry: T)
        ensures
            forall|f: u64|
                #[trigger] final(self).siblings_view(f) == if f == parent {
                    old(self).siblings_view(f).push(entry)
                } else {
                    old(self).siblings_view(f)
                },
    {
        let mut list = match self.siblings.remove(&parent) {
            Some(l) => l,
            None => Vec::new(),
        };
        list.push(entry);
        self.siblings.insert(parent, list);
    }

    /// Group `entries`, each listed with its parent frame, keeping their order.
    pub fn build(entries: Vec<(u64, T)>) -> (c: Self)
        ensures
            forall|f: u64| #[trigger] c.siblings_view(f) == group(entries@, f),
    {
        let ghost all = entries@;
        let mut cache = FrameSpaceCache::new();
        let mut rest = entries;
        let ghost n = all.len();
        proof {
            assert forall|f: u64| #[trigger] cache.siblings_view(f) == group(all.take(0), f) by {
                assert(all.take(0).len() == 0);
            }
            assert(rest@ =~= all.skip(0));
        }
        while rest.len() > 0
            invariant
                all.len() == n,
                rest@.len() <= n,
                rest@ == all.skip(n - rest@.len()),
                forall|f: u64|
                    #[trigger] cache.siblings_view(f) == group(all.take(n - rest@.len()), f),
            decreases rest@.len(),
        {
            let ghost done = n - rest@.len();
            let (parent, entry) = rest.remove(0);
            proof {
                assert(all[done] == all.skip(done)[0]);
                assert(rest@ =~= all.skip(done + 1));
            }
            cache.push(parent, entry);
            proof {
                let taken = all.take(done + 1);
                assert(taken.drop_last() =~= all.take(done));
                assert(taken.last() == (parent, entry));
            }
        }
        proof {
            assert(all.take(n as int) =~= all);
        }
        cache
    }
}

impl<T> Default for FrameSpaceCache<T> {
    fn default() -> (c: Self)
        ensures
            forall|f: u64| #[trigger] c.siblings_view(f) == Seq::<T>::empty(),
    {
        FrameSpaceCache::new()
    }
}

/// Grouping keeps every entry: the entries under `frame` are exactly those
/// listed with that frame, and they appear in listing order.
pub proof fn law_group_membership<T>(entries: Seq<(u64, T)>, frame: u64)
    ensures
        group(entries, frame).len() <= entries.len(),
        forall|i: int|
            0 <= i < entries.len() && entries[i].0 == frame ==> group(entries, frame).contains(
                entries[i].1,
            ),
    decreases entries.len(),
{
    if entries.len() > 0 {
        let init = entries.drop_last();
        law_group_membership(init, frame);
        assert forall|i: int|
            0 <= i < entries.len() && entries[i].0 == frame implies group(
            entries,
            frame,
        ).contains(entries[i].1) by {
            let g = group(entries, frame);
            let r = group(init, frame);
            if i < entries.len() - 1 {
                assert(init[i] == entries[i]);
                assert(r.contains(entries[i].1));
                let w = choose|w: int| 0 <= w < r.len() && r[w] == entries[i].1;
                if entries.last().0 == frame {
                    assert(g[w] == r[w]);
                }
            } else {
                assert(g[g.len() - 1] == entries.last().1);
            }
        }
    }
}

/// The entries recorded under `frame` are exactly those listed with it, in
/// listing order.
pub proof fn law_group_is_the_frame_listing<T>(entries: Seq<(u64, T)>, frame: u64)
    ensures
        group(entries, frame) == entries.filter_map(
            |e: (u64, T)|
                if e.0 == frame {
                    Some(e.1)
                } else {
                    None
                },
        ),
    decreases entries.len(),
{
    if entries.len() > 0 {
        law_group_is_the_frame_listing(entries.drop_last(), frame);
        let f = |e: (u64, T)|
            if e.0 == frame {
                Some(e.1)
            } else {
                None
            };
        assert(group(entries, frame) =~= entries.filter_map(f));
    }
}

} // verus!
