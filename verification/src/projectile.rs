//! Projectiles: what the server keeps for each basic attack in flight.

use vstd::prelude::*;
use crate::network::ServerEntity;
use crate::player::PlayerRecord;
use crate::transform::Transform;

verus! {

/// Time that a projectile lives after it was cast, in nanoseconds: one and
/// a half seconds.
pub const PROJECTILE_LIFETIME: u64 = 1_500_000_000;

/// Width and height of the box around a player or a projectile within which
/// the two collide, in world units.
pub const HITBOX_SIZE: u32 = 64;

/// What the server keeps for one projectile.
#[derive(Clone, Copy, Debug, PartialEq, Eq, Structural)]
pub struct ProjectileRecord {
    pub entity: ServerEntity,
    /// The player that cast the projectile. It cannot be hit by it.
    pub owner: ServerEntity,
    pub transform: Transform,
    /// Time left to live, in nanoseconds.
    pub lifetime: u64,
}

impl ProjectileRecord {
    /// The projectile that `caster` casts, under the identity `entity`: it
    /// starts where the caster stands, turned as the caster is, with the full
    /// lifetime.
    pub open spec fn spec_cast(entity: ServerEntity, caster: PlayerRecord) -> ProjectileRecord {
        ProjectileRecord {
            entity,
            owner: caster.entity,
            transform: Transform::cast_from(caster.transform),
            lifetime: PROJECTILE_LIFETIME,
        }
    }

    /// Whether the projectile is still alive after `elapsed` more
    /// nanoseconds.
    pub open spec fn spec_outlives(&self, elapsed: u64) -> bool {
        self.lifetime > elapsed
    }

    /// The projectile `elapsed` nanoseconds later: its lifetime is down by
    /// that much, and at zero if it does not outlive them.
    pub open spec fn spec_aged(self, elapsed: u64) -> ProjectileRecord {
        ProjectileRecord {
            lifetime: if self.lifetime > elapsed {
                (self.lifetime - elapsed) as u64
            } else {
                0
            },
            ..self
        }
    }

    /// This record after the projectile was placed at `transform`.
    pub open spec fn spec_with_transform(self, transform: Transform) -> ProjectileRecord {
        ProjectileRecord { transform, ..self }
    }

    #[verifier::when_used_as_spec(spec_cast)]
    pub fn cast(entity: ServerEntity, caster: PlayerRecord) -> (record: ProjectileRecord)
        ensures
            record == ProjectileRecord::spec_cast(entity, caster),
    {
        ProjectileRecord {
            entity,
            owner: caster.entity,
            transform: Transform::cast_from(caster.transform),
            lifetime: PROJECTILE_LIFETIME,
        }
    }

    #[verifier::when_used_as_spec(spec_outlives)]
    pub fn outlives(&self, elapsed: u64) -> (alive: bool)
        ensures
            alive == self.spec_outlives(elapsed),
    {
        self.lifetime > elapsed
    }

    #[verifier::when_used_as_spec(spec_aged)]
    pub fn aged(self, elapsed: u64) -> (record: ProjectileRecord)
        ensures
            record == self.spec_aged(elapsed),
    {
        let lifetime: u64 = if self.lifetime > elapsed {
            self.lifetime - elapsed
        } else {
            0
        };
        ProjectileRecord { lifetime, ..self }
    }

    #[verifier::when_used_as_spec(spec_with_transform)]
    pub fn with_transform(self, transform: Transform) -> (record: ProjectileRecord)
        ensures
            record == self.spec_with_transform(transform),
    {
        ProjectileRecord { transform, ..self }
    }
}

} // verus!
