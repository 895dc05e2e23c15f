//! Scene descriptions as saved in world and level files: how much of the
//! simulation an entity takes part in, and how a body's motion is described.
//! The orbital payloads (positions, elements, state vectors) are carried as
//! type parameters; only their presence drives the decisions here.
use vstd::prelude::*;

verus! {

/// How much of the simulation an entity takes part in.
#[derive(PartialEq, Eq, Structural, Clone, Copy, Debug)]
pub enum SimulationTier {
    /// Simulated, but never drawn.
    Background,
    /// Simulated near the player.
    Local,
    /// Simulated and drawn.
    Rendered,
}

impl Default for SimulationTier {
    fn default() -> (t: Self)
        ensures
            t == SimulationTier::Rendered,
    {
        SimulationTier::Rendered
    }
}

impl SimulationTier {
    /// Whether an entity of this tier is given a mesh when spawned.
    pub fn renders_mesh(self) -> (b: bool)
        ensures
            b == (self != SimulationTier::Background),
    {
        self != SimulationTier::Background
    }
}

/// How a body moves: pinned at a world position, on an orbit around a named
/// parent, or integrated under thrust in a named frame.
pub enum MotionDescription<W, E, P> {
    Root { world_pos: W },
    Orbit { parent: String, orbital_elements: E },
    Powered { frame: String, state: P },
}

/// The motion a saved body stands for: its explicit motion when it has one;
/// otherwise an orbit when both a parent and orbital elements are given;
/// otherwise pinned at its world position, or at `origin` without one.
pub open spec fn resolved_motion_spec<W, E, P>(
    motion: Option<MotionDescription<W, E, P>>,
    parent: Option<String>,
    orbital_elements: Option<E>,
    world_pos: Option<W>,
    origin: W,
) -> MotionDescription<W, E, P> {
    match motion {
        Some(m) => m,
        None => match (parent, orbital_elements) {
            (Some(p), Some(e)) => MotionDescription::Orbit { parent: p, orbital_elements: e },
            _ => MotionDescription::Root {
                world_pos: match world_pos {
                    Some(w) => w,
                    None => origin,
                },
            },
        },
    }
}

/// Resolve the motion of a saved body, accepting both the explicit `motion`
/// field and the older `parent` / `orbital_elements` / `world_pos` fields.
pub fn resolved_motion<W, E, P>(
    motion: Option<MotionDescription<W, E, P>>,
    parent: Option<String>,
    orbital_elements: Option<E>,
    world_pos: Option<W>,
    origin: W,
) -> (m: MotionDescription<W, E, P>)
    ensures
        m == resolved_motion_spec(motion, parent, orbital_elements, world_pos, origin),
{
    if let Some(m) = motion {
        return m;
    }
    match (parent, orbital_elements) {
        (Some(p), Some(e)) => MotionDescription::Orbit { parent: p, orbital_elements: e },
        _ => MotionDescription::Root {
            world_pos: match world_pos {
                Some(w) => w,
                None => origin,
            },
        },
    }
}

/// Where a body is placed before its motion is attached: at its world
/// position when it is pinned, otherwise at `origin` until propagation moves it.
pub fn initial_position<W: Copy, E, P>(motion: &MotionDescription<W, E, P>, origin: W) -> (w: W)
    ensures
        w == match motion {
            MotionDescription::Root { world_pos } => *world_pos,
            _ => origin,
        },
{
    match motion {
        MotionDescription::Root { world_pos } => *world_pos,
        _ => origin,
    }
}

/// An explicit motion always wins over the older fields, and a body with no
/// motion information at all is pinned at the origin.
pub proof fn law_explicit_motion_wins<W, E, P>(
    m: MotionDescription<W, E, P>,
    parent: Option<String>,
    orbital_elements: Option<E>,
    world_pos: Option<W>,
    origin: W,
)
    ensures
        resolved_motion_spec(Some(m), parent, orbital_elements, world_pos, origin) == m,
        resolved_motion_spec(
            None::<MotionDescription<W, E, P>>,
            None::<String>,
            None::<E>,
            None::<W>,
            origin,
        ) == (MotionDescription::<W, E, P>::Root { world_pos: origin }),
{
}

/// The motion written for a live body when a world is saved: its orbit when it
/// is on one, else its powered state when it is under thrust, else its world
/// position. An orbit or powered state whose parent frame has no name (given
/// as `None` here) is written as no motion at all.
pub open spec fn saved_motion_spec<W, E, P>(
    orbit: Option<(Option<String>, E)>,
    powered: Option<(Option<String>, P)>,
    world_pos: W,
) -> Option<MotionDescription<W, E, P>> {
    match orbit {
        Some((parent, orbital_elements)) => match parent {
            Some(p) => Some(MotionDescription::Orbit { parent: p, orbital_elements }),
            None => None,
        },
        None => match powered {
            Some((frame, state)) => match frame {
                Some(f) => Some(MotionDescription::Powered { frame: f, state }),
                None => None,
            },
            None => Some(MotionDescription::Root { world_pos }),
        },
    }
}

/// Describe a live body's motion for saving. `orbit` carries the name of the
/// parent (when it has one) and the elements; `powered` the name of the frame
/// (when it has one) and the integrated state.
pub fn saved_motion<W, E, P>(
    orbit: Option<(Option<String>, E)>,
    powered: Option<(Option<String>, P)>,
    world_pos: W,
) -> (m: Option<MotionDescription<W, E, P>>)
    ensures
        m == saved_motion_spec(orbit, powered, world_pos),
{
    match orbit {
        Some((parent, orbital_elements)) => match parent {
            Some(p) => Some(MotionDescription::Orbit { parent: p, orbital_elements }),
            None => None,
        },
        None => match powered {
            Some((frame, state)) => match frame {
                Some(f) => Some(MotionDescription::Powered { frame: f, state }),
                None => None,
            },
            None => Some(MotionDescription::Root { world_pos }),
        },
    }
}

/// Saving and loading again gives back the motion the body had: its orbit
/// around the same parent, its powered state in the same frame, or its pin at
/// the same position. A body whose parent or frame had no name comes back
/// pinned at the origin.
pub proof fn law_save_then_load<W, E, P>(
    orbit: Option<(Option<String>, E)>,
    powered: Option<(Option<String>, P)>,
    world_pos: W,
    origin: W,
)
    ensures
        ({
            let loaded = resolved_motion_spec(
                saved_motion_spec(orbit, powered, world_pos),
                None::<String>,
                None::<E>,
                None::<W>,
                origin,
            );
            &&& (orbit matches Some((Some(p), e)) ==> loaded == (MotionDescription::<W, E, P>::Orbit {
                parent: p,
                orbital_elements: e,
            }))
            &&& (orbit is None ==> (powered matches Some((Some(f), st)) ==> loaded == (MotionDescription::<W, E, P>::Powered {
                frame: f,
                state: st,
            })))
            &&& (orbit is None && powered is None ==> loaded == (MotionDescription::<W, E, P>::Root {
                world_pos,
            }))
            &&& (saved_motion_spec(orbit, powered, world_pos) is None ==> loaded == (MotionDescription::<W, E, P>::Root {
                world_pos: origin,
            }))
        }),
{
}

/// Without an explicit motion, a body is on an orbit exactly when both a parent
/// and orbital elements were saved; otherwise it is pinned at its saved world
/// position, and at the origin only when no position was saved.
pub proof fn law_legacy_fields_resolve<W, E, P>(
    parent: Option<String>,
    orbital_elements: Option<E>,
    world_pos: Option<W>,
    origin: W,
)
    ensures
        ({
            let m = resolved_motion_spec(
                None::<MotionDescription<W, E, P>>,
                parent,
                orbital_elements,
                world_pos,
                origin,
            );
            &&& (parent is Some && orbital_elements is Some ==> m == (MotionDescription::<
                W,
                E,
                P,
            >::Orbit { parent: parent->0, orbital_elements: orbital_elements->0 }))
            &&& (!(parent is Some && orbital_elements is Some) && world_pos is Some ==> m == (
            MotionDescription::<W, E, P>::Root { world_pos: world_pos->0 }))
            &&& (!(parent is Some && orbital_elements is Some) && world_pos is None ==> m == (
            MotionDescription::<W, E, P>::Root { world_pos: origin }))
        }),
{
}

} // verus!
