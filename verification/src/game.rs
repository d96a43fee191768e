//! The walls of the playfield, and which of them a position runs into.

use vstd::prelude::*;
use crate::vector::Vec3;

verus! {

/// An upright box: its center, and half its extent along each axis.
#[derive(Clone, Copy, Debug, PartialEq, Eq, Structural)]
pub struct Wall {
    pub scale: Vec3,
    pub position: Vec3,
}

/// Whether `value` lies between `center - half` and `center + half`,
/// whichever of the two is smaller.
pub open spec fn spans(center: int, half: int, value: int) -> bool {
    if half >= 0 {
        center - half <= value <= center + half
    } else {
        center + half <= value <= center - half
    }
}

/// Whether a position lies within the footprint of a wall: within its extent
/// along `x` and along `z`. Height plays no part.
pub open spec fn blocks(wall: Wall, position: Vec3) -> bool {
    &&& spans(wall.position.x as int, wall.scale.x as int, position.x as int)
    &&& spans(wall.position.z as int, wall.scale.z as int, position.z as int)
}

/// The stage of the game after a number of ticks. There is one stage.
pub fn get_stage_number(ticks: usize) -> (stage: usize)
    ensures
        stage == 0,
{
    0
}

/// Tests whether `value` lies within `half` of `center`.
fn spans_exec(center: i64, half: i64, value: i64) -> (r: bool)
    ensures
        r == spans(center as int, half as int, value as int),
{
    let c: i128 = center as i128;
    let h: i128 = half as i128;
    let v: i128 = value as i128;
    if h >= 0 {
        c - h <= v && v <= c + h
    } else {
        c + h <= v && v <= c - h
    }
}

/// The first wall whose footprint holds a position, if there is one.
pub fn get_collision_wall(walls: &[Wall], position: Vec3) -> (r: Option<Wall>)
    ensures
        match r {
            Some(wall) => exists|i: int|
                0 <= i < walls@.len() && walls@[i] == wall && blocks(wall, position) && forall|
                    j: int,
                | 0 <= j < i ==> !blocks(#[trigger] walls@[j], position),
            None => forall|j: int| 0 <= j < walls@.len() ==> !blocks(#[trigger] walls@[j], position),
        },
{
    let n: usize = walls.len();
    let mut i: usize = 0;
    while i < n
        invariant
            i <= n,
            n == walls@.len(),
            forall|j: int| 0 <= j < i ==> !blocks(#[trigger] walls@[j], position),
        decreases n - i,
    {
        let wall: Wall = walls[i];
        if spans_exec(wall.position.x, wall.scale.x, position.x) && spans_exec(
            wall.position.z,
            wall.scale.z,
            position.z,
        ) {
            assert(walls@[i as int] == wall);
            return Some(wall);
        }
        i += 1;
    }
    None
}

} // verus!
