//! Placement of an entity in the world.
//!
//! Coordinates are IEEE-754 single-precision numbers. This library never
//! computes with them: it stores them, copies them and puts them on the wire,
//! so each one is held by its bit pattern.

use vstd::prelude::*;

verus! {

/// Bit pattern of the single-precision number zero.
pub const ZERO_BITS: u32 = 0x0000_0000;

/// Bit pattern of the single-precision number one half.
pub const HALF_BITS: u32 = 0x3F00_0000;

/// Bit pattern of the single-precision number one.
pub const ONE_BITS: u32 = 0x3F80_0000;

/// A single-precision number, held by its bit pattern.
#[derive(Clone, Copy, Debug, PartialEq, Eq, Structural)]
pub struct Scalar {
    pub bits: u32,
}

impl Scalar {
    pub open spec fn spec_zero() -> Scalar {
        Scalar { bits: ZERO_BITS }
    }

    pub open spec fn spec_half() -> Scalar {
        Scalar { bits: HALF_BITS }
    }

    pub open spec fn spec_one() -> Scalar {
        Scalar { bits: ONE_BITS }
    }

    /// The number with the given bit pattern.
    pub fn from_bits(bits: u32) -> (s: Scalar)
        ensures
            s.bits == bits,
    {
        Scalar { bits }
    }

    /// The bit pattern of this number.
    pub fn to_bits(self) -> (bits: u32)
        ensures
            bits == self.bits,
    {
        self.bits
    }

    #[verifier::when_used_as_spec(spec_zero)]
    pub fn zero() -> (s: Scalar)
        ensures
            s == Scalar::spec_zero(),
    {
        Scalar { bits: ZERO_BITS }
    }

    #[verifier::when_used_as_spec(spec_half)]
    pub fn half() -> (s: Scalar)
        ensures
            s == Scalar::spec_half(),
    {
        Scalar { bits: HALF_BITS }
    }

    #[verifier::when_used_as_spec(spec_one)]
    pub fn one() -> (s: Scalar)
        ensures
            s == Scalar::spec_one(),
    {
        Scalar { bits: ONE_BITS }
    }
}

/// A point or direction in the plane.
#[derive(Clone, Copy, Debug, PartialEq, Eq, Structural)]
pub struct Vec2 {
    pub x: Scalar,
    pub y: Scalar,
}

impl Vec2 {
    pub open spec fn spec_zero() -> Vec2 {
        Vec2 { x: Scalar::zero(), y: Scalar::zero() }
    }

    /// The origin of the plane.
    #[verifier::when_used_as_spec(spec_zero)]
    pub fn zero() -> (v: Vec2)
        ensures
            v == Vec2::spec_zero(),
    {
        Vec2 { x: Scalar::zero(), y: Scalar::zero() }
    }
}

/// A point or direction in space.
#[derive(Clone, Copy, Debug, PartialEq, Eq, Structural)]
pub struct Vec3 {
    pub x: Scalar,
    pub y: Scalar,
    pub z: Scalar,
}

impl Vec3 {
    pub open spec fn spec_zero() -> Vec3 {
        Vec3 { x: Scalar::zero(), y: Scalar::zero(), z: Scalar::zero() }
    }

    pub open spec fn spec_truncate(self) -> Vec2 {
        Vec2 { x: self.x, y: self.y }
    }

    pub open spec fn spec_sprite_scale() -> Vec3 {
        Vec3 { x: Scalar::half(), y: Scalar::half(), z: Scalar::one() }
    }

    pub open spec fn spec_unit_scale() -> Vec3 {
        Vec3 { x: Scalar::one(), y: Scalar::one(), z: Scalar::one() }
    }

    /// The origin of space.
    #[verifier::when_used_as_spec(spec_zero)]
    pub fn zero() -> (v: Vec3)
        ensures
            v == Vec3::spec_zero(),
    {
        Vec3 { x: Scalar::zero(), y: Scalar::zero(), z: Scalar::zero() }
    }

    /// This point without its third coordinate.
    #[verifier::when_used_as_spec(spec_truncate)]
    pub fn truncate(self) -> (v: Vec2)
        ensures
            v == self.spec_truncate(),
    {
        Vec2 { x: self.x, y: self.y }
    }

    /// The scale at which the server keeps players and projectiles: one half
    /// in the plane, one in depth.
    #[verifier::when_used_as_spec(spec_sprite_scale)]
    pub fn sprite_scale() -> (v: Vec3)
        ensures
            v == Vec3::spec_sprite_scale(),
    {
        Vec3 { x: Scalar::half(), y: Scalar::half(), z: Scalar::one() }
    }

    /// The scale that leaves sizes as they are.
    #[verifier::when_used_as_spec(spec_unit_scale)]
    pub fn unit_scale() -> (v: Vec3)
        ensures
            v == Vec3::spec_unit_scale(),
    {
        Vec3 { x: Scalar::one(), y: Scalar::one(), z: Scalar::one() }
    }
}

/// A rotation, as a quaternion.
#[derive(Clone, Copy, Debug, PartialEq, Eq, Structural)]
pub struct Quat {
    pub x: Scalar,
    pub y: Scalar,
    pub z: Scalar,
    pub w: Scalar,
}

impl Quat {
    pub open spec fn spec_identity() -> Quat {
        Quat { x: Scalar::zero(), y: Scalar::zero(), z: Scalar::zero(), w: Scalar::one() }
    }

    /// The rotation that turns nothing.
    #[verifier::when_used_as_spec(spec_identity)]
    pub fn identity() -> (q: Quat)
        ensures
            q == Quat::spec_identity(),
    {
        Quat { x: Scalar::zero(), y: Scalar::zero(), z: Scalar::zero(), w: Scalar::one() }
    }
}

/// Where an entity is, how it is turned and how large it is drawn.
#[derive(Clone, Copy, Debug, PartialEq, Eq, Structural)]
pub struct Transform {
    pub translation: Vec3,
    pub rotation: Quat,
    pub scale: Vec3,
}

impl Transform {
    /// The placement of a player that has just joined: at the origin, not
    /// turned, at sprite scale.
    pub open spec fn spec_player_spawn() -> Transform {
        Transform {
            translation: Vec3::zero(),
            rotation: Quat::identity(),
            scale: Vec3::sprite_scale(),
        }
    }

    /// The placement of a projectile cast by an entity placed at `caster`:
    /// the caster's position and rotation, at sprite scale.
    pub open spec fn spec_cast_from(caster: Transform) -> Transform {
        Transform {
            translation: caster.translation,
            rotation: caster.rotation,
            scale: Vec3::sprite_scale(),
        }
    }

    /// The placement at which a client shows a projectile announced at
    /// `position` with `rotation`: in the plane of depth zero, at unit scale.
    pub open spec fn spec_projectile_mirror(position: Vec2, rotation: Quat) -> Transform {
        Transform {
            translation: Vec3 { x: position.x, y: position.y, z: Scalar::zero() },
            rotation,
            scale: Vec3::unit_scale(),
        }
    }

    #[verifier::when_used_as_spec(spec_player_spawn)]
    pub fn player_spawn() -> (t: Transform)
        ensures
            t == Transform::spec_player_spawn(),
    {
        Transform {
            translation: Vec3::zero(),
            rotation: Quat::identity(),
            scale: Vec3::sprite_scale(),
        }
    }

    #[verifier::when_used_as_spec(spec_cast_from)]
    pub fn cast_from(caster: Transform) -> (t: Transform)
        ensures
            t == Transform::spec_cast_from(caster),
    {
        Transform {
            translation: caster.translation,
            rotation: caster.rotation,
            scale: Vec3::sprite_scale(),
        }
    }

    #[verifier::when_used_as_spec(spec_projectile_mirror)]
    pub fn projectile_mirror(position: Vec2, rotation: Quat) -> (t: Transform)
        ensures
            t == Transform::spec_projectile_mirror(position, rotation),
    {
        Transform {
            translation: Vec3 { x: position.x, y: position.y, z: Scalar::zero() },
            rotation,
            scale: Vec3::unit_scale(),
        }
    }
}

} // verus!
