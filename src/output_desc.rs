use crate::input_desc::{Direction, WallOrientation};
use vstd::prelude::*;

verus! {

/// Every room of a built home, with absolute wall geometry.
#[derive(Debug)]
pub struct Home {
    pub orientation: WallOrientation,
    pub rooms: Vec<Room>,
}

#[derive(Debug)]
pub struct Room {
    pub name: String,
    pub walls: Vec<Wall>,
}

/// A wall with absolute, mitred end points.
#[derive(Clone, Copy, Debug, PartialEq, Eq, Structural)]
pub struct Wall {
    pub start: Point,
    pub end: Point,
    pub thickness: u32,
    pub direction: Direction,
    pub length: u32,
}

#[derive(Clone, Copy, Debug, PartialEq, Eq, Structural)]
pub struct Point {
    pub x: i64,
    pub y: i64,
}

impl View for Point {
    type V = (int, int);

    /// The point as a pair of mathematical integers.
    open spec fn view(&self) -> (int, int) {
        (self.x as int, self.y as int)
    }
}

} // verus!
