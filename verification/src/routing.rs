//! Decisions of the ship-order pipeline that do not depend on the orbital
//! numbers: which kind of transfer a player's order calls for, which bodies
//! a root capture must steer clear of, and which sphere-of-influence change
//! a ship undergoes. Entities are identified by `u64` ids.
use vstd::prelude::*;

verus! {

/// What the target of a transfer order is.
#[derive(PartialEq, Eq, Structural, Clone, Copy, Debug)]
pub enum TargetKind {
    /// A body on an orbit around `parent`.
    Orbiting { parent: u64 },
    /// A root body (with mass, on no orbit).
    Root,
    /// Anything else.
    NotABody,
}

/// The plan shape a transfer order calls for, or why it cannot be planned.
#[derive(PartialEq, Eq, Structural, Clone, Copy, Debug)]
pub enum TransferRoute {
    /// Ship and target orbit the same parent: one transfer.
    Direct,
    /// Escape the ship's parent, then transfer around the grandparent.
    EscapeThenTransfer,
    /// The ship already orbits the root target: capture around it.
    RootCapture,
    /// Escape the ship's parent, then capture around the root it orbits.
    EscapeThenRootCapture,
    /// The ship's parent is not itself on an orbit, so it cannot be escaped.
    ParentNotOrbiting,
    /// The target is further away than the grandparent frame.
    MultiLeg,
    /// The root target is further away than the grandparent frame.
    MultiLegRoot,
    /// The target is not a body.
    NotABody,
}

/// The transfer route for a coasting ship orbiting `ship_parent` (whose own
/// parent is `ship_grandparent` when `ship_parent` is an orbiting body) that
/// is ordered to `target`.
pub open spec fn route_spec(
    ship_parent: u64,
    ship_grandparent: Option<u64>,
    target: u64,
    kind: TargetKind,
) -> TransferRoute {
    match kind {
        TargetKind::Orbiting { parent } => {
            if ship_parent == parent {
                TransferRoute::Direct
            } else {
                match ship_grandparent {
                    None => TransferRoute::ParentNotOrbiting,
                    Some(g) => if parent != g {
                        TransferRoute::MultiLeg
                    } else {
                        TransferRoute::EscapeThenTransfer
                    },
                }
            }
        },
        TargetKind::Root => {
            if ship_parent == target {
                TransferRoute::RootCapture
            } else {
                match ship_grandparent {
                    None => TransferRoute::ParentNotOrbiting,
                    Some(g) => if g != target {
                        TransferRoute::MultiLegRoot
                    } else {
                        TransferRoute::EscapeThenRootCapture
                    },
                }
            }
        },
        TargetKind::NotABody => TransferRoute::NotABody,
    }
}

/// Classify a transfer order.
pub fn transfer_route(
    ship_parent: u64,
    ship_grandparent: Option<u64>,
    target: u64,
    kind: TargetKind,
) -> (r: TransferRoute)
    ensures
        r == route_spec(ship_parent, ship_grandparent, target, kind),
{
    match kind {
        TargetKind::Orbiting { parent } => {
            if ship_parent == parent {
                TransferRoute::Direct
            } else {
                match ship_grandparent {
                    None => TransferRoute::ParentNotOrbiting,
                    Some(g) => {
                        if parent != g {
                            TransferRoute::MultiLeg
                        } else {
                            TransferRoute::EscapeThenTransfer
                        }
                    },
                }
            }
        },
        TargetKind::Root => {
            if ship_parent == target {
                TransferRoute::RootCapture
            } else {
                match ship_grandparent {
                    None => TransferRoute::ParentNotOrbiting,
                    Some(g) => {
                        if g != target {
                            TransferRoute::MultiLegRoot
                        } else {
                            TransferRoute::EscapeThenRootCapture
                        }
                    },
                }
            }
        },
        TargetKind::NotABody => TransferRoute::NotABody,
    }
}

/// A body that a capture around `target` must avoid: a child of `target`
/// other than the body the ship is escaping from.
pub open spec fn is_capture_obstacle(body: (u64, u64), target: u64, ship_parent: u64) -> bool {
    body.1 == target && body.0 != ship_parent
}

/// Indices (in listing order) of the bodies, given as `(entity, parent)`,
/// that a root capture around `target` must steer clear of.
pub fn root_capture_siblings(bodies: &Vec<(u64, u64)>, target: u64, ship_parent: u64) -> (idx:
    Vec<usize>)
    ensures
        forall|k: int|
            0 <= k < idx@.len() ==> idx@[k] < bodies@.len() && is_capture_obstacle(
                bodies@[idx@[k] as int],
                target,
                ship_parent,
            ),
        forall|k: int, l: int| 0 <= k < l < idx@.len() ==> idx@[k] < idx@[l],
        forall|i: int|
            0 <= i < bodies@.len() && is_capture_obstacle(bodies@[i], target, ship_parent)
                ==> idx@.contains(i as usize),
{
    let mut idx: Vec<usize> = Vec::new();
    let mut i: usize = 0;
    while i < bodies.len()
        invariant
            i <= bodies@.len(),
            forall|k: int|
                0 <= k < idx@.len() ==> idx@[k] < i && is_capture_obstacle(
                    bodies@[idx@[k] as int],
                    target,
                    ship_parent,
                ),
            forall|k: int, l: int| 0 <= k < l < idx@.len() ==> idx@[k] < idx@[l],
            forall|h: int|
                0 <= h < i && is_capture_obstacle(bodies@[h], target, ship_parent)
                    ==> idx@.contains(h as usize),
        decreases bodies@.len() - i,
    {
        let (entity, parent) = bodies[i];
        if parent == target && entity != ship_parent {
            let ghost before = idx@;
            idx.push(i);
            proof {
                assert forall|h: int|
                    0 <= h < i + 1 && is_capture_obstacle(bodies@[h], target, ship_parent)
                        implies idx@.contains(h as usize) by {
                    if h < i {
                        let w = choose|w: int| 0 <= w < before.len() && before[w] == h as usize;
                        assert(idx@[w] == h as usize);
                    } else {
                        assert(idx@[before.len() as int] == i);
                    }
                }
            }
        }
        i = i + 1;
    }
    idx
}

/// What a right-click issues for the selected ship.
#[derive(PartialEq, Eq, Structural, Clone, Copy, Debug)]
pub enum ClickOrder {
    /// Plan a transfer to the clicked body.
    Transfer(u64),
    /// A body other than the ship's frame was clicked but the ship is under
    /// power: nothing is issued.
    Ignore,
    /// Move along the frame's shell to the clicked point.
    MoveOnShell,
}

/// Clicking a body other than the ship's own frame orders a transfer there
/// (only a coasting ship can take one); clicking anywhere else orders a move
/// on the frame's shell.
pub fn click_order(nearest_hit: Option<u64>, frame: u64, ship_coasting: bool) -> (o: ClickOrder)
    ensures
        o == match nearest_hit {
            Some(hit) => if hit != frame {
                if ship_coasting {
                    ClickOrder::Transfer(hit)
                } else {
                    ClickOrder::Ignore
                }
            } else {
                ClickOrder::MoveOnShell
            },
            None => ClickOrder::MoveOnShell,
        },
{
    match nearest_hit {
        Some(hit) => {
            if hit != frame {
                if ship_coasting {
                    ClickOrder::Transfer(hit)
                } else {
                    ClickOrder::Ignore
                }
            } else {
                ClickOrder::MoveOnShell
            }
        },
        None => ClickOrder::MoveOnShell,
    }
}

/// A ship's sphere-of-influence change in one step.
#[derive(PartialEq, Eq, Structural, Clone, Copy, Debug)]
pub enum SoiTransition {
    /// Left the parent's sphere: move up to the grandparent's frame.
    Ascend,
    /// Entered the sphere of the sibling at this index: move down into its frame.
    Descend(usize),
    /// Stay in the current frame.
    Stay,
}

/// Leaving the parent's sphere takes precedence; otherwise the ship descends
/// into the first sibling whose sphere it is inside, if any.
pub fn soi_transition(outside_parent_soi: bool, inside_sibling: &Vec<bool>) -> (t: SoiTransition)
    ensures
        outside_parent_soi ==> t == SoiTransition::Ascend,
        !outside_parent_soi ==> match t {
            SoiTransition::Descend(i) => i < inside_sibling@.len() && inside_sibling@[i as int]
                && forall|k: int| 0 <= k < i ==> !inside_sibling@[k],
            SoiTransition::Stay => forall|k: int|
                0 <= k < inside_sibling@.len() ==> !inside_sibling@[k],
            SoiTransition::Ascend => false,
        },
{
    if outside_parent_soi {
        return SoiTransition::Ascend;
    }
    let mut i: usize = 0;
    while i < inside_sibling.len()
        invariant
            !outside_parent_soi,
            i <= inside_sibling@.len(),
            forall|k: int| 0 <= k < i ==> !inside_sibling@[k],
        decreases inside_sibling@.len() - i,
    {
        if inside_sibling[i] {
            return SoiTransition::Descend(i);
        }
        i = i + 1;
    }
    SoiTransition::Stay
}

/// A ship ordered towards a body in its own frame never needs an escape burn,
/// and every escape route leaves the ship's parent for the frame the target is in.
pub proof fn law_escape_only_across_frames(
    ship_parent: u64,
    ship_grandparent: Option<u64>,
    target: u64,
    kind: TargetKind,
)
    ensures
        (kind matches TargetKind::Orbiting { parent } && parent == ship_parent) ==> route_spec(
            ship_parent,
            ship_grandparent,
            target,
            kind,
        ) == TransferRoute::Direct,
        route_spec(ship_parent, ship_grandparent, target, kind)
            == TransferRoute::EscapeThenTransfer ==> (kind matches TargetKind::Orbiting { parent }
            && ship_grandparent == Some(parent) && parent != ship_parent),
        route_spec(ship_parent, ship_grandparent, target, kind)
            == TransferRoute::EscapeThenRootCapture ==> (kind == TargetKind::Root
            && ship_grandparent == Some(target) && target != ship_parent),
{
}

/// What each route means, in terms of the order alone: a target in the ship's
/// own frame is reached directly (an orbiting target sharing the ship's parent,
/// or the root the ship already orbits), whatever lies above that frame; an
/// escape is planned only when the target's frame is the grandparent frame;
/// a ship whose parent orbits nothing cannot escape; anything further away is
/// a multi-leg trip.
pub proof fn law_route_by_frames(
    ship_parent: u64,
    ship_grandparent: Option<u64>,
    target: u64,
    kind: TargetKind,
)
    ensures
        ({
            let r = route_spec(ship_parent, ship_grandparent, target, kind);
            let orbiting = kind is Orbiting;
            let same_frame = (orbiting && kind->parent == ship_parent) || (kind == TargetKind::Root
                && ship_parent == target);
            let target_frame = if orbiting {
                kind->parent
            } else {
                target
            };
            &&& (kind == TargetKind::NotABody <==> r == TransferRoute::NotABody)
            &&& (kind == TargetKind::Root && ship_parent == target ==> r == TransferRoute::RootCapture)
            &&& (r == TransferRoute::RootCapture <==> (kind == TargetKind::Root && ship_parent
                == target))
            &&& (r == TransferRoute::Direct <==> (orbiting && kind->parent == ship_parent))
            &&& (r == TransferRoute::EscapeThenTransfer <==> (orbiting && !same_frame
                && ship_grandparent == Some(target_frame)))
            &&& (r == TransferRoute::EscapeThenRootCapture <==> (kind == TargetKind::Root
                && !same_frame && ship_grandparent == Some(target)))
            &&& (r == TransferRoute::ParentNotOrbiting <==> (kind != TargetKind::NotABody
                && !same_frame && ship_grandparent is None))
            &&& (r == TransferRoute::MultiLeg <==> (orbiting && !same_frame
                && ship_grandparent is Some && ship_grandparent->0 != target_frame))
            &&& (r == TransferRoute::MultiLegRoot <==> (kind == TargetKind::Root && !same_frame
                && ship_grandparent is Some && ship_grandparent->0 != target))
        }),
{
}

} // verus!
