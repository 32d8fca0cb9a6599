//! Projectiles in flight: a small prototype of ranged attacks whose
//! positions advance each tick.

use vstd::prelude::*;

verus! {

use vstd::pervasive::VecAdditionalExecFns;
use crate::state::utils::Location;

/// Anything that advances one step per tick.
pub trait ProjectileTrait {
    fn step(&mut self);
}

/// A ranged attack travelling toward a target entity.
#[derive(Debug, Clone, Copy, PartialEq, Eq, Structural)]
pub struct RangedAttack {
    pub position: Location,
    pub target_id: u16,
}

impl ProjectileTrait for RangedAttack {
    fn step(&mut self)
        ensures
            *final(self) == (RangedAttack {
                position: Location {
                    x: if old(self).position.x + 1 > 65535 {
                        65535u16
                    } else {
                        (old(self).position.x + 1) as u16
                    },
                    y: old(self).position.y,
                },
                ..*old(self)
            }),
    {
        self.position.x = self.position.x.saturating_add(1);
    }
}

/// An explosion expanding from its origin.
#[derive(Debug, Clone, Copy, PartialEq, Eq, Structural)]
pub struct Explosion {
    pub position: Location,
    pub target_id: u16,
}

impl ProjectileTrait for Explosion {
    fn step(&mut self)
        ensures
            *final(self) == (Explosion {
                position: Location {
                    x: if old(self).position.x + 21 > 65535 {
                        65535u16
                    } else {
                        (old(self).position.x + 21) as u16
                    },
                    y: old(self).position.y,
                },
                ..*old(self)
            }),
    {
        self.position.x = self.position.x.saturating_add(21);
    }
}

/// A projectile aimed at a fixed board location.
#[derive(Debug, Clone, Copy, PartialEq, Eq, Structural)]
pub struct StaticTarget {
    pub position: Location,
    pub target: Location,
}

/// One projectile in flight, or an inert slot.
#[derive(Debug, Clone, Copy, PartialEq, Eq, Structural)]
pub enum Projectile {
    Inert,
    RangedAttack(RangedAttack),
    Explosion(Explosion),
}

impl Default for Projectile {
    fn default() -> (r: Projectile)
        ensures
            r == Projectile::Inert,
    {
        Projectile::Inert
    }
}

/// What one tick does to one projectile slot: a ranged attack advances one
/// unit, an explosion 21, both saturating at the coordinate limit; an inert
/// slot stays inert.
pub open spec fn spec_projectile_step(p: Projectile) -> Projectile {
    match p {
        Projectile::Inert => Projectile::Inert,
        Projectile::RangedAttack(r) => Projectile::RangedAttack(
            RangedAttack {
                position: Location {
                    x: if r.position.x + 1 > 65535 {
                        65535u16
                    } else {
                        (r.position.x + 1) as u16
                    },
                    y: r.position.y,
                },
                ..r
            },
        ),
        Projectile::Explosion(e) => Projectile::Explosion(
            Explosion {
                position: Location {
                    x: if e.position.x + 21 > 65535 {
                        65535u16
                    } else {
                        (e.position.x + 21) as u16
                    },
                    y: e.position.y,
                },
                ..e
            },
        ),
    }
}

/// All projectiles of a match.
#[derive(Debug, Clone, PartialEq)]
pub struct Projectiles {
    pub all: Vec<Projectile>,
}

impl Projectiles {
    /// Advance every projectile one step.
    pub fn get(&mut self)
        ensures
            final(self).all@.len() == old(self).all@.len(),
            forall|i: int| 0 <= i < old(self).all@.len() ==> final(self).all@[i]
                == spec_projectile_step(#[trigger] old(self).all@[i]),
    {
        let mut i: usize = 0;
        while i < self.all.len()
            invariant
                i <= self.all@.len(),
                self.all@.len() == old(self).all@.len(),
                forall|k: int| i <= k < old(self).all@.len() ==> self.all@[k] == old(
                    self,
                ).all@[k],
                forall|k: int| 0 <= k < i ==> self.all@[k] == spec_projectile_step(
                    #[trigger] old(self).all@[k],
                ),
            decreases self.all@.len() - i,
        {
            let projectile = self.all[i];
            match projectile {
                Projectile::RangedAttack(mut p) => {
                    p.step();
                    self.all.set(i, Projectile::RangedAttack(p));
                },
                Projectile::Explosion(mut p) => {
                    p.step();
                    self.all.set(i, Projectile::Explosion(p));
                },
                Projectile::Inert => {},
            }
            i = i + 1;
        }
    }
}

} // verus!
