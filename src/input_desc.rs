use vstd::prelude::*;

verus! {

/// Largest number of rooms in a home that `build` accepts.
pub const MAX_ROOMS: usize = 4096;

/// Largest number of walls in one room that `build` accepts.
pub const MAX_WALLS: usize = 4096;

/// A building: its rooms, the winding convention of their wall lists, and the
/// declared wall-to-wall adjacencies between rooms.
#[derive(Debug)]
pub struct Home {
    pub orientation: WallOrientation,
    pub rooms: Vec<Room>,
    pub connections: Vec<RoomConnection>,
}

/// A room: a unique name and a cyclic list of walls that must close up.
#[derive(Debug)]
pub struct Room {
    pub name: String,
    pub walls: Vec<Wall>,
}

/// Specify in what order room's walls are described relatively to the room's center.
#[derive(Clone, Copy, Debug, PartialEq, Eq, Structural)]
pub enum WallOrientation {
    CW,
    CCW,
}

impl Default for WallOrientation {
    fn default() -> (r: Self)
        ensures
            r == WallOrientation::CW,
    {
        WallOrientation::CW
    }
}

/// One straight wall, walked in `direction` for `length` units.
#[derive(Clone, Copy, Debug, PartialEq, Eq, Structural)]
pub struct Wall {
    pub direction: Direction,
    pub length: u32,
    pub thickness: u32,
}

#[derive(Clone, Copy, Debug, PartialEq, Eq, Structural)]
pub enum Direction {
    Left,
    Right,
    Up,
    Down,
}

impl Default for Direction {
    fn default() -> (r: Self)
        ensures
            r == Direction::Left,
    {
        Direction::Left
    }
}

/// Two exactly opposite directions (left and right, up and down).
pub open spec fn opposite(a: Direction, b: Direction) -> bool {
    match (a, b) {
        (Direction::Left, Direction::Right) => true,
        (Direction::Right, Direction::Left) => true,
        (Direction::Up, Direction::Down) => true,
        (Direction::Down, Direction::Up) => true,
        _ => false,
    }
}

/// Declares that wall `room1.wall_index` of room `room1.name` lies against wall
/// `room2.wall_index` of room `room2.name`.
#[derive(Debug)]
pub struct RoomConnection {
    pub room1: ConnectionInfo,
    pub room2: ConnectionInfo,
    pub conn_type: ConnectionType,
}

#[derive(Debug)]
pub struct ConnectionInfo {
    pub name: String,
    /// Index of the coinciding wall (starts from 1)
    pub wall_index: usize,
}

#[derive(Clone, Copy, Debug, PartialEq, Eq, Structural)]
pub enum ConnectionType {
    /// Walls coincide
    Coincide,
    /// Start of the first wall coincide with the end of the second one
    StartToEnd,
    /// End of the first wall coincide with the start of the second one
    EndToStart,
}

} // verus!
