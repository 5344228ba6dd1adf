//! Players: what a client sends about its keys and aim, and what the server
//! keeps for each connected client.

use vstd::prelude::*;
use crate::network::{ClientChannel, ServerEntity};
use crate::transform::{Transform, Vec2};

verus! {

/// Distance that a moving player covers in one second, in world units.
pub const PLAYER_MOVE_SPEED: u32 = 200;

/// The parts into which a displacement divides one world unit: time is
/// counted in nanoseconds, so a speed of one unit per second covers one
/// such part in one nanosecond.
pub const PARTS_PER_UNIT: u64 = 1_000_000_000;

/// How far something goes in `elapsed` nanoseconds at the speed of a player,
/// in parts of a world unit.
pub open spec fn spec_distance_covered(elapsed: u64) -> u128 {
    (PLAYER_MOVE_SPEED * elapsed) as u128
}

/// How far something goes in `elapsed` nanoseconds at the speed of a player,
/// in parts of a world unit: speed times time.
#[verifier::when_used_as_spec(spec_distance_covered)]
pub fn distance_covered(elapsed: u64) -> (parts: u128)
    ensures
        parts == spec_distance_covered(elapsed),
        parts == PLAYER_MOVE_SPEED * elapsed,
{
    let speed: u128 = PLAYER_MOVE_SPEED as u128;
    let time: u128 = elapsed as u128;
    speed * time
}

/// An axis delta turns a distance forwards, backwards or to nothing.
proof fn lemma_axis_times_distance(axis: int, speed: int, elapsed: int)
    requires
        -1 <= axis <= 1,
    ensures
        axis * speed * elapsed == if axis == 1 {
            speed * elapsed
        } else if axis == -1 {
            -(speed * elapsed)
        } else {
            0
        },
{
    let distance = speed * elapsed;
    assert(axis * speed * elapsed == axis * distance) by (nonlinear_arith)
        requires
            distance == speed * elapsed,
    ;
    if axis == 1 {
        assert(axis * distance == distance) by (nonlinear_arith)
            requires
                axis == 1,
        ;
    } else if axis == -1 {
        assert(axis * distance == -distance) by (nonlinear_arith)
            requires
                axis == -1,
        ;
    } else {
        assert(axis * distance == 0) by (nonlinear_arith)
            requires
                axis == 0,
        ;
    }
}

/// A movement in the plane, in parts of a world unit along each axis.
#[derive(Clone, Copy, Debug, PartialEq, Eq, Structural)]
pub struct Displacement {
    pub x: i128,
    pub y: i128,
}

/// State of a client's controls, taken once per client tick and sent
/// unchanged. Only the server reads a meaning into it.
#[derive(Clone, Copy, Debug, PartialEq, Eq, Structural)]
pub struct PlayerInput {
    pub up: bool,
    pub down: bool,
    pub left: bool,
    pub right: bool,
    /// The point at which the player aims.
    pub mouse: Vec2,
    pub space: bool,
}

impl PlayerInput {
    /// No key held, aiming at the origin.
    pub open spec fn spec_idle() -> PlayerInput {
        PlayerInput {
            up: false,
            down: false,
            left: false,
            right: false,
            mouse: Vec2::zero(),
            space: false,
        }
    }

    /// Inputs travel on the input channel.
    pub open spec fn spec_channel(&self) -> ClientChannel {
        ClientChannel::Input
    }

    /// Movement along the first axis: `right` minus `left`.
    pub open spec fn spec_horizontal(&self) -> i8 {
        if self.right == self.left {
            0i8
        } else if self.right {
            1i8
        } else {
            -1i8
        }
    }

    /// Movement along the second axis: `down` minus `up`.
    pub open spec fn spec_vertical(&self) -> i8 {
        if self.down == self.up {
            0i8
        } else if self.down {
            1i8
        } else {
            -1i8
        }
    }

    /// How far the keys held move the player in `elapsed` nanoseconds:
    /// along each axis, the axis delta times the speed times the time.
    pub open spec fn spec_displacement(&self, elapsed: u64) -> Displacement {
        Displacement {
            x: (self.spec_horizontal() * PLAYER_MOVE_SPEED * elapsed) as i128,
            y: (self.spec_vertical() * PLAYER_MOVE_SPEED * elapsed) as i128,
        }
    }

    #[verifier::when_used_as_spec(spec_displacement)]
    pub fn displacement(&self, elapsed: u64) -> (moved: Displacement)
        ensures
            moved == self.spec_displacement(elapsed),
            moved.x == self.spec_horizontal() * PLAYER_MOVE_SPEED * elapsed,
            moved.y == self.spec_vertical() * PLAYER_MOVE_SPEED * elapsed,
    {
        let covered: i128 = distance_covered(elapsed) as i128;
        let horizontal: i8 = self.horizontal();
        let vertical: i8 = self.vertical();
        proof {
            lemma_axis_times_distance(horizontal as int, PLAYER_MOVE_SPEED as int, elapsed as int);
            lemma_axis_times_distance(vertical as int, PLAYER_MOVE_SPEED as int, elapsed as int);
        }
        let x: i128 = if horizontal == 1 {
            covered
        } else if horizontal == -1 {
            -covered
        } else {
            0
        };
        let y: i128 = if vertical == 1 {
            covered
        } else if vertical == -1 {
            -covered
        } else {
            0
        };
        Displacement { x, y }
    }

    #[verifier::when_used_as_spec(spec_channel)]
    pub fn channel(&self) -> (channel: ClientChannel)
        ensures
            channel == self.spec_channel(),
    {
        ClientChannel::Input
    }

    #[verifier::when_used_as_spec(spec_horizontal)]
    pub fn horizontal(&self) -> (delta: i8)
        ensures
            delta == self.spec_horizontal(),
            delta == (if self.right { 1int } else { 0int }) - (if self.left { 1int } else { 0int }),
    {
        if self.right == self.left {
            0
        } else if self.right {
            1
        } else {
            -1
        }
    }

    #[verifier::when_used_as_spec(spec_vertical)]
    pub fn vertical(&self) -> (delta: i8)
        ensures
            delta == self.spec_vertical(),
            delta == (if self.down { 1int } else { 0int }) - (if self.up { 1int } else { 0int }),
    {
        if self.down == self.up {
            0
        } else if self.down {
            1
        } else {
            -1
        }
    }
}

impl Default for PlayerInput {
    fn default() -> (input: PlayerInput)
        ensures
            input == PlayerInput::spec_idle(),
    {
        PlayerInput {
            up: false,
            down: false,
            left: false,
            right: false,
            mouse: Vec2::zero(),
            space: false,
        }
    }
}

/// What the server keeps for one connected client.
#[derive(Clone, Copy, Debug, PartialEq, Eq, Structural)]
pub struct PlayerRecord {
    /// The client that steers this player.
    pub id: u64,
    pub entity: ServerEntity,
    pub transform: Transform,
    /// The input that arrived last from the client.
    pub input: PlayerInput,
}

impl PlayerRecord {
    /// The record of a client that has just connected and was given `entity`.
    pub open spec fn spec_joined(id: u64, entity: ServerEntity) -> PlayerRecord {
        PlayerRecord {
            id,
            entity,
            transform: Transform::player_spawn(),
            input: PlayerInput::spec_idle(),
        }
    }

    /// This record after `input` arrived.
    pub open spec fn spec_with_input(self, input: PlayerInput) -> PlayerRecord {
        PlayerRecord { input, ..self }
    }

    /// This record after the player was placed at `transform`.
    pub open spec fn spec_with_transform(self, transform: Transform) -> PlayerRecord {
        PlayerRecord { transform, ..self }
    }

    #[verifier::when_used_as_spec(spec_joined)]
    pub fn joined(id: u64, entity: ServerEntity) -> (record: PlayerRecord)
        ensures
            record == PlayerRecord::spec_joined(id, entity),
    {
        PlayerRecord {
            id,
            entity,
            transform: Transform::player_spawn(),
            input: PlayerInput::default(),
        }
    }

    #[verifier::when_used_as_spec(spec_with_input)]
    pub fn with_input(self, input: PlayerInput) -> (record: PlayerRecord)
        ensures
            record == self.spec_with_input(input),
    {
        PlayerRecord { input, ..self }
    }

    #[verifier::when_used_as_spec(spec_with_transform)]
    pub fn with_transform(self, transform: Transform) -> (record: PlayerRecord)
        ensures
            record == self.spec_with_transform(transform),
    {
        PlayerRecord { transform, ..self }
    }
}

} // verus!
