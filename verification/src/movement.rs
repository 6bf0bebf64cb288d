//! Where an entity is and how it moves.
//!
//! The coordinates, angles and speeds of the game are single-precision numbers.
//! The simulation carries them as bit patterns and leaves arithmetic on them to
//! its caller. What it decides by, it takes as integers: the cell and the grid
//! of a position, and distances, for the bit patterns of numbers that are not
//! negative order as the numbers do.
use vstd::prelude::*;

verus! {

/// A point of a map, with the cell and the grid it lies in.
#[derive(Debug, Clone, Copy)]
pub struct Place {
    pub x: u32,
    pub y: u32,
    pub z: u32,
    pub cell: (i32, i32),
    pub grid: (i32, i32),
}

/// The movement state that is exchanged with clients.
#[derive(Debug, Clone, Copy)]
pub struct MovementInfo {
    pub flags: u32,
    pub timestamp: u32,
    pub position: Place,
    pub orientation: u32,
    pub fall_time: u32,
}

pub const FORWARD: u32 = 0x1;

pub const BACKWARD: u32 = 0x2;

pub const STRAFE_LEFT: u32 = 0x4;

pub const STRAFE_RIGHT: u32 = 0x8;

pub const WALK_MODE: u32 = 0x100;

/// Whether `flags` holds the flag `flag`.
pub open spec fn has_flag(flags: u32, flag: u32) -> bool {
    flags & flag != 0
}

/// Whether the flags say that the feet move: forward, backward or to a side.
/// Turning on the spot is no movement.
pub open spec fn moving(flags: u32) -> bool {
    has_flag(flags, FORWARD) || has_flag(flags, BACKWARD) || has_flag(flags, STRAFE_LEFT) || has_flag(
        flags,
        STRAFE_RIGHT,
    )
}

pub fn is_moving(info: &MovementInfo) -> (r: bool)
    ensures
        r == moving(info.flags),
{
    info.flags & FORWARD != 0 || info.flags & BACKWARD != 0 || info.flags & STRAFE_LEFT != 0 || info.flags
        & STRAFE_RIGHT != 0
}

/// Whether the number with the bit pattern `bits` is zero or below.
pub open spec fn is_spent(bits: u32) -> bool {
    bits == 0 || 0x8000_0000 <= bits <= 0xff80_0000
}

pub fn timer_is_spent(bits: u32) -> (r: bool)
    ensures
        r == is_spent(bits),
{
    bits == 0 || (0x8000_0000 <= bits && bits <= 0xff80_0000)
}

/// Feet move if and only if one of the four lowest flags is set: forward, backward, to the
/// left and to the right.
pub proof fn four_flags_move(info: &MovementInfo, r: bool)
    requires
        call_ensures(is_moving, (info,), r),
    ensures
        r <==> info.flags % 16 != 0,
{
    let f = info.flags;
    assert((f & 1 != 0 || f & 2 != 0 || f & 4 != 0 || f & 8 != 0) <==> f % 16 != 0) by (bit_vector);
}

/// A timer has run out when it is at zero or below.
pub proof fn timers_run_out_at_zero(bits: u32, r: bool)
    requires
        call_ensures(timer_is_spent, (bits,), r),
    ensures
        0 < bits <= 0x7f80_0000 ==> !r,
        bits == 0 ==> r,
        0x8000_0000 <= bits <= 0xff80_0000 ==> r,
{
}

} // verus!
