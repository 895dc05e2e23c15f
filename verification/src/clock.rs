//! The simulation clock's time-warp ladder.
//!
//! Every rung of the ladder is a whole number of simulated seconds per real
//! second, so the ladder is held as `u64` values. The player picks a rung;
//! while powered craft are being integrated a ceiling caps the effective
//! rung without forgetting the one the player asked for.
use vstd::prelude::*;

verus! {

/// Seconds in a day.
pub const DAY: u64 = 86400;

/// Number of rungs on the warp ladder.
pub const WARP_LEVEL_COUNT: usize = 12;

/// Index of the fastest rung.
pub const TOP_LEVEL: usize = 11;

/// Highest warp (sim-seconds per second) allowed while a powered craft is integrated.
pub const POWERED_WARP_CEILING: u64 = 86400;

/// The rung a fresh clock starts on (an eighth of a day per second).
pub const DEFAULT_LEVEL: usize = 5;

/// Warp of rung `level`, in simulated seconds per real second.
pub open spec fn warp_rate(level: int) -> int {
    if level <= 0 {
        0
    } else if level == 1 {
        1
    } else if level == 2 {
        10
    } else if level == 3 {
        60
    } else if level == 4 {
        600
    } else if level == 5 {
        (DAY / 8) as int
    } else if level == 6 {
        (DAY / 4) as int
    } else if level == 7 {
        (DAY / 2) as int
    } else if level == 8 {
        DAY as int
    } else if level == 9 {
        2 * DAY
    } else if level == 10 {
        10 * DAY
    } else {
        30 * DAY
    }
}

/// Executable lookup of a rung's warp.
pub fn warp_level(level: usize) -> (w: u64)
    requires
        level < WARP_LEVEL_COUNT,
    ensures
        w == warp_rate(level as int),
{
    match level {
        0 => 0,
        1 => 1,
        2 => 10,
        3 => 60,
        4 => 600,
        5 => DAY / 8,
        6 => DAY / 4,
        7 => DAY / 2,
        8 => DAY,
        9 => 2 * DAY,
        10 => 10 * DAY,
        _ => 30 * DAY,
    }
}

pub open spec fn min_int(a: int, b: int) -> int {
    if a <= b {
        a
    } else {
        b
    }
}

/// The warp controls of the simulation clock: the rung the player asked
/// for, and the ceiling currently enforced on it.
pub struct SimClock {
    level: usize,
    max_level: usize,
}

impl SimClock {
    #[verifier::type_invariant]
    spec fn inv(self) -> bool {
        &&& self.level < WARP_LEVEL_COUNT
        &&& self.max_level < WARP_LEVEL_COUNT
    }

    /// The rung the player asked for.
    pub closed spec fn requested(self) -> int {
        self.level as int
    }

    /// The ceiling on the effective rung.
    pub closed spec fn ceiling(self) -> int {
        self.max_level as int
    }

    /// The rung actually in effect.
    pub open spec fn effective(self) -> int {
        min_int(self.requested(), self.ceiling())
    }

    /// Both rungs lie on the ladder.
    pub open spec fn on_ladder(self) -> bool {
        &&& 0 <= self.requested() < WARP_LEVEL_COUNT
        &&& 0 <= self.ceiling() < WARP_LEVEL_COUNT
    }

    /// A clock that starts on the default rung with no ceiling.
    pub fn new() -> (c: Self)
        ensures
            c.requested() == DEFAULT_LEVEL,
            c.ceiling() == TOP_LEVEL,
            c.on_ladder(),
    {
        SimClock { level: DEFAULT_LEVEL, max_level: TOP_LEVEL }
    }

    /// Effective warp: the requested rung, capped by the ceiling.
    pub fn warp(&self) -> (w: u64)
        ensures
            w == warp_rate(self.effective()),
    {
        proof {
            use_type_invariant(self);
        }
        let l = if self.level <= self.max_level {
            self.level
        } else {
            self.max_level
        };
        warp_level(l)
    }

    /// Force the requested rung to the paused one.
    pub fn pause(&mut self)
        ensures
            final(self).requested() == 0,
            final(self).ceiling() == old(self).ceiling(),
            final(self).effective() == 0,
            final(self).on_ladder(),
    {
        proof {
            use_type_invariant(&*self);
        }
        self.level = 0;
    }

    /// One rung faster, stopping at the top.
    pub fn faster(&mut self)
        ensures
            final(self).requested() == min_int(old(self).requested() + 1, TOP_LEVEL as int),
            final(self).ceiling() == old(self).ceiling(),
            final(self).on_ladder(),
    {
        proof {
            use_type_invariant(&*self);
        }
        if self.level < TOP_LEVEL {
            self.level = self.level + 1;
        }
    }

    /// One rung slower, stopping at paused.
    pub fn slower(&mut self)
        ensures
            final(self).requested() == if old(self).requested() > 0 {
                old(self).requested() - 1
            } else {
                0
            },
            final(self).ceiling() == old(self).ceiling(),
            final(self).on_ladder(),
    {
        proof {
            use_type_invariant(&*self);
        }
        if self.level > 0 {
            self.level = self.level - 1;
        }
    }

    /// Cap (or release) the effective rung.
    pub fn set_max_level(&mut self, max: usize)
        ensures
            final(self).ceiling() == min_int(max as int, TOP_LEVEL as int),
            final(self).requested() == old(self).requested(),
            final(self).on_ladder(),
    {
        proof {
            use_type_invariant(&*self);
        }
        self.max_level = if max < TOP_LEVEL {
            max
        } else {
            TOP_LEVEL
        };
    }

    /// Apply the warp keys of one frame: `]` speeds up, then `[` slows down.
    pub fn apply_warp_keys(&mut self, faster: bool, slower: bool)
        ensures
            final(self).ceiling() == old(self).ceiling(),
            final(self).on_ladder(),
            final(self).requested() == {
                let up = if faster {
                    min_int(old(self).requested() + 1, TOP_LEVEL as int)
                } else {
                    old(self).requested()
                };
                if slower {
                    if up > 0 {
                        up - 1
                    } else {
                        0
                    }
                } else {
                    up
                }
            },
    {
        proof {
            use_type_invariant(&*self);
        }
        if faster {
            self.faster();
        }
        if slower {
            self.slower();
        }
    }
}

impl Default for SimClock {
    fn default() -> (c: Self)
        ensures
            c.requested() == DEFAULT_LEVEL,
            c.ceiling() == TOP_LEVEL,
            c.on_ladder(),
    {
        SimClock::new()
    }
}

/// Highest rung whose warp is at most `POWERED_WARP_CEILING`.
pub open spec fn is_powered_cap(level: int) -> bool {
    &&& 0 <= level < WARP_LEVEL_COUNT
    &&& warp_rate(level) <= POWERED_WARP_CEILING
    &&& forall|j: int| level < j < WARP_LEVEL_COUNT ==> warp_rate(j) > POWERED_WARP_CEILING
}

/// The ceiling to enforce this frame: the whole ladder when no powered craft
/// is integrating, otherwise the highest rung within the powered ceiling.
pub fn warp_cap_level(powered_craft_present: bool) -> (cap: usize)
    ensures
        !powered_craft_present ==> cap == TOP_LEVEL,
        powered_craft_present ==> is_powered_cap(cap as int),
{
    if !powered_craft_present {
        return TOP_LEVEL;
    }
    let mut i: usize = WARP_LEVEL_COUNT;
    while i > 0
        invariant
            powered_craft_present,
            i <= WARP_LEVEL_COUNT,
            forall|j: int| i <= j < WARP_LEVEL_COUNT ==> warp_rate(j) > POWERED_WARP_CEILING,
        decreases i,
    {
        let w = warp_level(i - 1);
        if w <= POWERED_WARP_CEILING {
            return i - 1;
        }
        i = i - 1;
    }
    // rung 0 is the paused rung, always within the ceiling
    assert(warp_rate(0) <= POWERED_WARP_CEILING);
    0
}

/// Climbing one rung and stepping back down returns to the same rung,
/// unless the climb was stopped at the top.
pub proof fn law_faster_then_slower(r: int)
    requires
        0 <= r < TOP_LEVEL,
    ensures
        ({
            let up = min_int(r + 1, TOP_LEVEL as int);
            (if up > 0 { up - 1 } else { 0 }) == r
        }),
{
}

/// Stepping down one rung and climbing back returns to the same rung,
/// unless the step was stopped at paused.
pub proof fn law_slower_then_faster(r: int)
    requires
        0 < r <= TOP_LEVEL,
    ensures
        min_int((if r > 0 { r - 1 } else { 0 }) + 1, TOP_LEVEL as int) == r,
{
}

/// Faster rungs never warp slower: the ladder is monotone.
pub proof fn law_warp_monotone(i: int, j: int)
    requires
        0 <= i <= j < WARP_LEVEL_COUNT,
    ensures
        warp_rate(i) <= warp_rate(j),
{
}

/// Under the powered cap the effective warp never exceeds the powered
/// ceiling, whatever rung the player requested.
pub proof fn law_powered_cap_bounds_warp(c: SimClock)
    requires
        c.on_ladder(),
        is_powered_cap(c.ceiling()),
    ensures
        warp_rate(c.effective()) <= POWERED_WARP_CEILING,
{
    law_warp_monotone(c.effective(), c.ceiling());
}

/// Capping keeps the requested rung: once the cap is released the effective
/// warp is again the warp of the rung the player asked for.
pub proof fn law_release_restores_request(c: SimClock)
    requires
        c.on_ladder(),
        c.ceiling() == TOP_LEVEL,
    ensures
        c.effective() == c.requested(),
        warp_rate(c.effective()) == warp_rate(c.requested()),
{
}

} // verus!
