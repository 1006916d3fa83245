//! What a player asks for in one frame.

use vstd::prelude::*;
use crate::math::Angle;
use crate::player::Player;

verus! {

pub const PRIMARY_ATTACK: u32 = 0b1;

pub const SECONDARY_ATTACK: u32 = 0b10;

pub const MOVING: u32 = 0b100;

pub const OPENING_DOOR: u32 = 0b1000;

pub const CLOSING_DOOR: u32 = 0b10000;

/// The input of one player for one frame: where to move, where to aim, and
/// a set of flags.
#[derive(Clone, Copy, Debug, PartialEq, Eq, Structural)]
pub struct PlayerInput {
    pub movement_angle: Angle,
    pub rotation: Angle,
    pub flags: u32,
}

/// Whether all bits of `flag` are set in `flags`.
pub open spec fn has_flag(flags: u32, flag: u32) -> bool {
    flags & flag == flag
}

/// Setting one of the five flags sets it and leaves the other four as they
/// were.
pub proof fn lemma_flags_independent(flags: u32)
    ensures
        has_flag(flags | PRIMARY_ATTACK, PRIMARY_ATTACK),
        has_flag(flags | SECONDARY_ATTACK, SECONDARY_ATTACK),
        has_flag(flags | MOVING, MOVING),
        has_flag(flags | OPENING_DOOR, OPENING_DOOR),
        has_flag(flags | CLOSING_DOOR, CLOSING_DOOR),
        has_flag(flags | PRIMARY_ATTACK, SECONDARY_ATTACK) == has_flag(flags, SECONDARY_ATTACK),
        has_flag(flags | PRIMARY_ATTACK, MOVING) == has_flag(flags, MOVING),
        has_flag(flags | PRIMARY_ATTACK, OPENING_DOOR) == has_flag(flags, OPENING_DOOR),
        has_flag(flags | PRIMARY_ATTACK, CLOSING_DOOR) == has_flag(flags, CLOSING_DOOR),
        has_flag(flags | SECONDARY_ATTACK, PRIMARY_ATTACK) == has_flag(flags, PRIMARY_ATTACK),
        has_flag(flags | SECONDARY_ATTACK, MOVING) == has_flag(flags, MOVING),
        has_flag(flags | SECONDARY_ATTACK, OPENING_DOOR) == has_flag(flags, OPENING_DOOR),
        has_flag(flags | SECONDARY_ATTACK, CLOSING_DOOR) == has_flag(flags, CLOSING_DOOR),
        has_flag(flags | MOVING, PRIMARY_ATTACK) == has_flag(flags, PRIMARY_ATTACK),
        has_flag(flags | MOVING, SECONDARY_ATTACK) == has_flag(flags, SECONDARY_ATTACK),
        has_flag(flags | MOVING, OPENING_DOOR) == has_flag(flags, OPENING_DOOR),
        has_flag(flags | MOVING, CLOSING_DOOR) == has_flag(flags, CLOSING_DOOR),
        has_flag(flags | OPENING_DOOR, PRIMARY_ATTACK) == has_flag(flags, PRIMARY_ATTACK),
        has_flag(flags | OPENING_DOOR, SECONDARY_ATTACK) == has_flag(flags, SECONDARY_ATTACK),
        has_flag(flags | OPENING_DOOR, MOVING) == has_flag(flags, MOVING),
        has_flag(flags | OPENING_DOOR, CLOSING_DOOR) == has_flag(flags, CLOSING_DOOR),
        has_flag(flags | CLOSING_DOOR, PRIMARY_ATTACK) == has_flag(flags, PRIMARY_ATTACK),
        has_flag(flags | CLOSING_DOOR, SECONDARY_ATTACK) == has_flag(flags, SECONDARY_ATTACK),
        has_flag(flags | CLOSING_DOOR, MOVING) == has_flag(flags, MOVING),
        has_flag(flags | CLOSING_DOOR, OPENING_DOOR) == has_flag(flags, OPENING_DOOR),
        !has_flag(0, PRIMARY_ATTACK) && !has_flag(0, SECONDARY_ATTACK) && !has_flag(0, MOVING)
            && !has_flag(0, OPENING_DOOR) && !has_flag(0, CLOSING_DOOR),
{
    assert(forall|f: u32, a: u32| #![auto] (f | a) & a == a) by (bit_vector);
    assert(forall|f: u32|
        #![auto]
        ((f | 1) & 2 == 2) == (f & 2 == 2) && ((f | 1) & 4 == 4) == (f & 4 == 4) && ((f | 1) & 8
            == 8) == (f & 8 == 8) && ((f | 1) & 16 == 16) == (f & 16 == 16)) by (bit_vector);
    assert(forall|f: u32|
        #![auto]
        ((f | 2) & 1 == 1) == (f & 1 == 1) && ((f | 2) & 4 == 4) == (f & 4 == 4) && ((f | 2) & 8
            == 8) == (f & 8 == 8) && ((f | 2) & 16 == 16) == (f & 16 == 16)) by (bit_vector);
    assert(forall|f: u32|
        #![auto]
        ((f | 4) & 1 == 1) == (f & 1 == 1) && ((f | 4) & 2 == 2) == (f & 2 == 2) && ((f | 4) & 8
            == 8) == (f & 8 == 8) && ((f | 4) & 16 == 16) == (f & 16 == 16)) by (bit_vector);
    assert(forall|f: u32|
        #![auto]
        ((f | 8) & 1 == 1) == (f & 1 == 1) && ((f | 8) & 2 == 2) == (f & 2 == 2) && ((f | 8) & 4
            == 4) == (f & 4 == 4) && ((f | 8) & 16 == 16) == (f & 16 == 16)) by (bit_vector);
    assert(forall|f: u32|
        #![auto]
        ((f | 16) & 1 == 1) == (f & 1 == 1) && ((f | 16) & 2 == 2) == (f & 2 == 2) && ((f | 16) & 4
            == 4) == (f & 4 == 4) && ((f | 16) & 8 == 8) == (f & 8 == 8)) by (bit_vector);
    assert(0u32 & 1 != 1 && 0u32 & 2 != 2 && 0u32 & 4 != 4 && 0u32 & 8 != 8 && 0u32 & 16 != 16)
        by (bit_vector);
}

impl PlayerInput {
    /// The input of a player who asks for nothing.
    pub fn new() -> (input: PlayerInput)
        ensures
            input == (PlayerInput {
                movement_angle: Angle::zero_spec(),
                rotation: Angle::zero_spec(),
                flags: 0,
            }),
    {
        PlayerInput { movement_angle: Angle::zero(), rotation: Angle::zero(), flags: 0 }
    }

    pub fn movement_angle(&self) -> (a: Angle)
        ensures
            a == self.movement_angle,
    {
        self.movement_angle
    }

    pub fn rotation(&self) -> (a: Angle)
        ensures
            a == self.rotation,
    {
        self.rotation
    }

    pub fn set_primary_attacking(&mut self)
        ensures
            *final(self) == (PlayerInput { flags: old(self).flags | PRIMARY_ATTACK, ..*old(self) }),
    {
        self.flags = self.flags | PRIMARY_ATTACK;
    }

    pub fn set_secondary_attacking(&mut self)
        ensures
            *final(self) == (PlayerInput { flags: old(self).flags | SECONDARY_ATTACK, ..*old(self) }),
    {
        self.flags = self.flags | SECONDARY_ATTACK;
    }

    pub fn set_moving(&mut self)
        ensures
            *final(self) == (PlayerInput { flags: old(self).flags | MOVING, ..*old(self) }),
    {
        self.flags = self.flags | MOVING;
    }

    pub fn set_opening_door(&mut self)
        ensures
            *final(self) == (PlayerInput { flags: old(self).flags | OPENING_DOOR, ..*old(self) }),
    {
        self.flags = self.flags | OPENING_DOOR;
    }

    pub fn set_closing_door(&mut self)
        ensures
            *final(self) == (PlayerInput { flags: old(self).flags | CLOSING_DOOR, ..*old(self) }),
    {
        self.flags = self.flags | CLOSING_DOOR;
    }

    pub fn using_primary(&self) -> (r: bool)
        ensures
            r == has_flag(self.flags, PRIMARY_ATTACK),
    {
        self.flags & PRIMARY_ATTACK == PRIMARY_ATTACK
    }

    pub fn using_secondary(&self) -> (r: bool)
        ensures
            r == has_flag(self.flags, SECONDARY_ATTACK),
    {
        self.flags & SECONDARY_ATTACK == SECONDARY_ATTACK
    }

    pub fn is_moving(&self) -> (r: bool)
        ensures
            r == has_flag(self.flags, MOVING),
    {
        self.flags & MOVING == MOVING
    }

    pub fn opening_door(&self) -> (r: bool)
        ensures
            r == has_flag(self.flags, OPENING_DOOR),
    {
        self.flags & OPENING_DOOR == OPENING_DOOR
    }

    pub fn closing_door(&self) -> (r: bool)
        ensures
            r == has_flag(self.flags, CLOSING_DOOR),
    {
        self.flags & CLOSING_DOOR == CLOSING_DOOR
    }
}

impl Default for PlayerInput {
    fn default() -> (input: PlayerInput)
        ensures
            input == (PlayerInput {
                movement_angle: Angle::zero_spec(),
                rotation: Angle::zero_spec(),
                flags: 0,
            }),
    {
        PlayerInput::new()
    }
}

/// Which keys and buttons a player holds or has just pressed, and where
/// the player aims.
#[derive(Clone, Copy, Debug, PartialEq, Eq, Structural)]
pub struct Controls {
    pub up: bool,
    pub down: bool,
    pub left: bool,
    pub right: bool,
    pub primary: bool,
    pub secondary: bool,
    pub open_door: bool,
    pub close_door: bool,
    pub aim: Angle,
}

/// The flags that go with the controls.
pub open spec fn flags_of(controls: Controls) -> u32 {
    let f1 = if controls.primary {
        0u32 | PRIMARY_ATTACK
    } else {
        0u32
    };
    let f2 = if controls.secondary {
        f1 | SECONDARY_ATTACK
    } else {
        f1
    };
    let f3 = if controls.open_door {
        f2 | OPENING_DOOR
    } else {
        f2
    };
    let f4 = if controls.close_door {
        f3 | CLOSING_DOOR
    } else {
        f3
    };
    if axis(controls.left, controls.right) != 0 || axis(controls.up, controls.down) != 0 {
        f4 | MOVING
    } else {
        f4
    }
}

/// The pull along one axis: -1 toward the low end, 1 toward the high end,
/// and 0 when neither or both are asked for.
pub open spec fn axis(low: bool, high: bool) -> int {
    (if high {
        1int
    } else {
        0int
    }) - (if low {
        1int
    } else {
        0int
    })
}

/// The input that a player gives with the controls. A player without hit
/// points gives none. Otherwise the player aims where the controls aim, asks
/// for the attacks and the work on doors that the controls ask for, and
/// moves along the direction that the four direction keys add up to, if
/// they add up to one.
pub fn movement_input(player: &Player, _index: Option<usize>, controls: &Controls) -> (input:
    PlayerInput)
    ensures
        player.hp.points == 0 ==> input == (PlayerInput {
            movement_angle: Angle::zero_spec(),
            rotation: Angle::zero_spec(),
            flags: 0,
        }),
        player.hp.points != 0 ==> input == (PlayerInput {
            movement_angle: if axis(controls.left, controls.right) != 0 || axis(
                controls.up,
                controls.down,
            ) != 0 {
                Angle::direction_of(
                    axis(controls.left, controls.right),
                    axis(controls.up, controls.down),
                )
            } else {
                Angle::zero_spec()
            },
            rotation: controls.aim,
            flags: flags_of(*controls),
        }),
{
    let mut input = PlayerInput::new();
    if player.hp() == 0 {
        return input;
    }
    let mut x_movement: i32 = 0;
    let mut y_movement: i32 = 0;
    if controls.up {
        y_movement = y_movement - 1;
    }
    if controls.down {
        y_movement = y_movement + 1;
    }
    if controls.left {
        x_movement = x_movement - 1;
    }
    if controls.right {
        x_movement = x_movement + 1;
    }
    input.rotation = controls.aim;
    if controls.primary {
        input.set_primary_attacking();
    }
    if controls.secondary {
        input.set_secondary_attacking();
    }
    if controls.open_door {
        input.set_opening_door();
    }
    if controls.close_door {
        input.set_closing_door();
    }
    if x_movement != 0 || y_movement != 0 {
        input.movement_angle = Angle::from_vector(x_movement, y_movement);
        input.set_moving();
    }
    input
}

} // verus!
