
use crate::connection::{connect_rooms, placement_result};
use crate::input_desc::{self, opposite, Direction, WallOrientation, MAX_ROOMS, MAX_WALLS};
use crate::output_desc::{self, Point};
use vstd::prelude::*;

verus! {

/// Every way in which a home description can fail to build.
#[derive(Clone, Debug, PartialEq)]
pub enum BuildError {
    NoRoomConnections,
    RoomWithoutWalls(String, usize),
    OppositeDirectionWalls(Direction, Direction),
    RoomNotClosed(String),
    NoRoom(String),
    WrongWallIndex(String, usize, usize),
    WallsCannotConnect(String, usize, String, usize),
    DifferentThickness(String, usize, String, usize),
    RoomsNotConnected(Vec<String>),
    WallsStartEndNotCoincide(String, usize, Point, String, usize, Point),
}

/// Bound on the coordinates of a room's cursor while its walls are walked.
pub const CURSOR_BOUND: i64 = 17592186044416;

/// Bound on every coordinate of a room in its own frame.
pub const LOCAL_BOUND: i64 = 35184372088832;

/// Displacement of walking one wall.
pub open spec fn step(w: input_desc::Wall) -> (int, int) {
    match w.direction {
        Direction::Left => (-(w.length as int), 0),
        Direction::Right => (w.length as int, 0),
        Direction::Up => (0, -(w.length as int)),
        Direction::Down => (0, w.length as int),
    }
}

/// Where the cursor stands after walking the first `i` walls from the origin.
pub open spec fn cursor(walls: Seq<input_desc::Wall>, i: nat) -> (int, int)
    decreases i,
{
    if i == 0 {
        (0, 0)
    } else {
        let c = cursor(walls, (i - 1) as nat);
        let s = step(walls[i - 1]);
        (c.0 + s.0, c.1 + s.1)
    }
}

/// Mitre of the corner where wall `a` turns into wall `b`, for clockwise rooms.
/// A straight run (and an opposite pair, which has no corner) gets none.
pub open spec fn miter(a: input_desc::Wall, b: input_desc::Wall) -> (int, int) {
    let h1 = a.thickness as int / 2;
    let h2 = b.thickness as int / 2;
    match (a.direction, b.direction) {
        (Direction::Left, Direction::Up) => (-h2, h1),
        (Direction::Left, Direction::Down) => (h2, h1),
        (Direction::Right, Direction::Up) => (-h2, -h1),
        (Direction::Right, Direction::Down) => (h2, -h1),
        (Direction::Up, Direction::Left) => (h1, -h2),
        (Direction::Up, Direction::Right) => (-h1, -h2),
        (Direction::Down, Direction::Left) => (h1, h2),
        (Direction::Down, Direction::Right) => (h1, -h2),
        _ => (0, 0),
    }
}

/// The corner offset under the given winding: counter-clockwise flips its sign.
pub open spec fn corner_offset(
    a: input_desc::Wall,
    b: input_desc::Wall,
    o: WallOrientation,
) -> (int, int) {
    let m = miter(a, b);
    if o == WallOrientation::CCW {
        (-m.0, -m.1)
    } else {
        m
    }
}

/// The mitred corner at point `p` between walls `a` and `b`.
pub open spec fn corner(
    p: (int, int),
    a: input_desc::Wall,
    b: input_desc::Wall,
    o: WallOrientation,
) -> (int, int) {
    let d = corner_offset(a, b, o);
    (p.0 + d.0, p.1 + d.1)
}

/// The corner after wall `i` (between it and the next wall, cyclically) is
/// between opposite walls.
pub open spec fn opposite_turn(walls: Seq<input_desc::Wall>, i: int) -> bool {
    opposite(walls[i].direction, walls[(i + 1) % (walls.len() as int)].direction)
}

pub open spec fn has_opposite_turn(walls: Seq<input_desc::Wall>) -> bool {
    exists|i: int| 0 <= i < walls.len() && #[trigger] opposite_turn(walls, i)
}

/// The first opposite corner that a walk from the first wall meets: the one
/// that closes the room (before the first wall) comes first, then the others
/// in order.
pub open spec fn first_opposite_turn(walls: Seq<input_desc::Wall>) -> int {
    let n = walls.len() as int;
    if opposite_turn(walls, n - 1) {
        n - 1
    } else {
        choose|i: int|
            0 <= i < n - 1 && opposite_turn(walls, i) && forall|j: int|
                0 <= j < i ==> !#[trigger] opposite_turn(walls, j)
    }
}

/// Why a room cannot be resolved, if it cannot.
pub open spec fn room_error(room: input_desc::Room) -> Option<BuildError> {
    let walls = room.walls@;
    let n = walls.len();
    if n < 3 {
        Some(BuildError::RoomWithoutWalls(room.name, n as usize))
    } else if has_opposite_turn(walls) {
        let i = first_opposite_turn(walls);
        Some(
            BuildError::OppositeDirectionWalls(
                walls[i].direction,
                walls[(i + 1) % (n as int)].direction,
            ),
        )
    } else if cursor(walls, n) != (0int, 0int) {
        Some(BuildError::RoomNotClosed(room.name))
    } else {
        None
    }
}

/// `w` is wall `i` of `walls` resolved: mitred at both ends, in the room's frame.
pub open spec fn resolved_wall(
    w: output_desc::Wall,
    walls: Seq<input_desc::Wall>,
    i: int,
    o: WallOrientation,
) -> bool {
    let n = walls.len() as int;
    &&& w.start@ == corner(cursor(walls, i as nat), walls[(i + n - 1) % n], walls[i], o)
    &&& w.end@ == corner(cursor(walls, (i + 1) as nat), walls[i], walls[(i + 1) % n], o)
    &&& w.thickness == walls[i].thickness
    &&& w.direction == walls[i].direction
    &&& w.length == walls[i].length
}

/// `out` is `room` resolved in its own frame.
pub open spec fn resolved_room(
    out: output_desc::Room,
    room: input_desc::Room,
    o: WallOrientation,
) -> bool {
    &&& out.name == room.name
    &&& out.walls@.len() == room.walls@.len()
    &&& forall|i: int|
        0 <= i < room.walls@.len() ==> resolved_wall(#[trigger] out.walls@[i], room.walls@, i, o)
}

/// Every coordinate of `room` lies within `b` of the origin.
pub open spec fn room_within(room: output_desc::Room, b: int) -> bool {
    forall|j: int|
        0 <= j < room.walls@.len() ==> {
            let w = #[trigger] room.walls@[j];
            &&& -b <= w.start.x <= b
            &&& -b <= w.start.y <= b
            &&& -b <= w.end.x <= b
            &&& -b <= w.end.y <= b
        }
}

proof fn lemma_wrap(i: int, n: int)
    requires
        0 <= i < n,
    ensures
        (i + n - 1) % n == if i == 0 { n - 1 } else { i - 1 },
        (i + 1) % n == if i + 1 == n { 0 } else { i + 1 },
{
    vstd::arithmetic::div_mod::lemma_small_mod((n - 1) as nat, n as nat);
    vstd::arithmetic::div_mod::lemma_small_mod(i as nat, n as nat);
    if i > 0 {
        vstd::arithmetic::div_mod::lemma_small_mod((i - 1) as nat, n as nat);
        vstd::arithmetic::div_mod::lemma_mod_add_multiples_vanish(i - 1, n);
    }
    if i + 1 < n {
        vstd::arithmetic::div_mod::lemma_small_mod((i + 1) as nat, n as nat);
    } else {
        vstd::arithmetic::div_mod::lemma_mod_self_0(n);
    }
}

proof fn lemma_cursor_bound(walls: Seq<input_desc::Wall>, i: nat)
    requires
        i <= walls.len(),
    ensures
        -(i * 4294967295) <= cursor(walls, i).0 <= i * 4294967295,
        -(i * 4294967295) <= cursor(walls, i).1 <= i * 4294967295,
    decreases i,
{
    if i > 0 {
        lemma_cursor_bound(walls, (i - 1) as nat);
    }
}

/// The mitred corner at `point` between `wall1` and the following `wall2`.
fn calc_wall_point(
    point: &Point,
    wall1: &input_desc::Wall,
    wall2: &input_desc::Wall,
    orientation: WallOrientation,
) -> (r: Result<Point, BuildError>)
    requires
        -CURSOR_BOUND <= point.x <= CURSOR_BOUND,
        -CURSOR_BOUND <= point.y <= CURSOR_BOUND,
    ensures
        opposite(wall1.direction, wall2.direction) ==> r == Err::<Point, BuildError>(
            BuildError::OppositeDirectionWalls(wall1.direction, wall2.direction),
        ),
        !opposite(wall1.direction, wall2.direction) ==> r is Ok && r->Ok_0@ == corner(
            point@,
            *wall1,
            *wall2,
            orientation,
        ),
{
    if wall1.direction == wall2.direction {
        return Ok(Point { x: point.x, y: point.y });
    }
    let half_thick1 = (wall1.thickness / 2) as i64;
    let half_thick2 = (wall2.thickness / 2) as i64;
    let (off_x, off_y): (i64, i64) = match wall1.direction {
        Direction::Left => {
            if wall2.direction == Direction::Right {
                return Err(BuildError::OppositeDirectionWalls(wall1.direction, wall2.direction));
            } else if wall2.direction == Direction::Up {
                (-half_thick2, half_thick1)
            } else {
                (half_thick2, half_thick1)
            }
        },
        Direction::Right => {
            if wall2.direction == Direction::Left {
                return Err(BuildError::OppositeDirectionWalls(wall1.direction, wall2.direction));
            } else if wall2.direction == Direction::Up {
                (-half_thick2, -half_thick1)
            } else {
                (half_thick2, -half_thick1)
            }
        },
        Direction::Up => {
            if wall2.direction == Direction::Down {
                return Err(BuildError::OppositeDirectionWalls(wall1.direction, wall2.direction));
            } else if wall2.direction == Direction::Left {
                (half_thick1, -half_thick2)
            } else {
                (-half_thick1, -half_thick2)
            }
        },
        Direction::Down => {
            if wall2.direction == Direction::Up {
                return Err(BuildError::OppositeDirectionWalls(wall1.direction, wall2.direction));
            } else if wall2.direction == Direction::Left {
                (half_thick1, half_thick2)
            } else {
                (half_thick1, -half_thick2)
            }
        },
    };
    if orientation == WallOrientation::CCW {
        Ok(Point { x: point.x - off_x, y: point.y - off_y })
    } else {
        Ok(Point { x: point.x + off_x, y: point.y + off_y })
    }
}

/// Resolves one room in its own frame: the walk starts at the origin and each
/// wall is mitred at both ends.
#[verifier::rlimit(40)]
pub fn build_output_room(
    input_room: &input_desc::Room,
    orientation: WallOrientation,
) -> (r: Result<output_desc::Room, BuildError>)
    requires
        input_room.walls@.len() <= MAX_WALLS,
    ensures
        room_error(*input_room) is Some ==> r == Err::<output_desc::Room, BuildError>(
            room_error(*input_room)->Some_0,
        ),
        room_error(*input_room) is None ==> r is Ok && resolved_room(
            r->Ok_0,
            *input_room,
            orientation,
        ) && room_within(r->Ok_0, LOCAL_BOUND as int),
{
    let ghost walls = input_room.walls@;
    let walls_count = input_room.walls.len();
    if walls_count < 3 {
        return Err(BuildError::RoomWithoutWalls(input_room.name.clone(), walls_count));
    }
    let mut out_walls: Vec<output_desc::Wall> = Vec::new();
    let origin = Point { x: 0, y: 0 };
    let mut cur_point = Point { x: 0, y: 0 };
    let mut i: usize = 0;
    while i < walls_count
        invariant
            walls == input_room.walls@,
            walls_count == walls.len(),
            3 <= walls_count <= MAX_WALLS,
            i <= walls_count,
            cur_point@ == cursor(walls, i as nat),
            out_walls@.len() == i,
            forall|j: int| 0 <= j < i ==> resolved_wall(#[trigger] out_walls@[j], walls, j, orientation),
            forall|j: int| 0 <= j < i ==> room_within_wall(#[trigger] out_walls@[j]),
            forall|j: int| 0 <= j < i ==> !#[trigger] opposite_turn(walls, j),
            i > 0 ==> !opposite_turn(walls, walls_count - 1),
        decreases walls_count - i,
    {
        proof {
            lemma_cursor_bound(walls, i as nat);
            lemma_cursor_bound(walls, (i + 1) as nat);
            lemma_wrap(i as int, walls_count as int);
            lemma_wrap(walls_count - 1, walls_count as int);
            if i > 0 {
                lemma_wrap(i - 1, walls_count as int);
                assert(!opposite_turn(walls, i - 1));
            }
        }
        let prev = if i == 0 { walls_count - 1 } else { i - 1 };
        let cur_wall = &input_room.walls[i];
        let next_wall = &input_room.walls[(i + 1) % walls_count];
        assert((i + walls_count - 1) % (walls_count as int) == prev);
        let start_point = match calc_wall_point(&cur_point, &input_room.walls[prev], cur_wall, orientation) {
            Ok(p) => p,
            Err(e) => {
                proof {
                    assert(opposite_turn(walls, walls_count - 1));
                }
                return Err(e);
            },
        };
        match cur_wall.direction {
            Direction::Left => cur_point.x = cur_point.x - cur_wall.length as i64,
            Direction::Right => cur_point.x = cur_point.x + cur_wall.length as i64,
            Direction::Up => cur_point.y = cur_point.y - cur_wall.length as i64,
            Direction::Down => cur_point.y = cur_point.y + cur_wall.length as i64,
        }
        let end_point = match calc_wall_point(&cur_point, cur_wall, next_wall, orientation) {
            Ok(p) => p,
            Err(e) => {
                proof {
                    assert(opposite_turn(walls, i as int));
                    assert(has_opposite_turn(walls));
                    assert(i < walls_count - 1);
                    let k = first_opposite_turn(walls);
                    assert(0 <= k < walls_count - 1 && opposite_turn(walls, k));
                    assert(k == i);
                }
                return Err(e);
            },
        };
        out_walls.push(
            output_desc::Wall {
                start: start_point,
                end: end_point,
                thickness: cur_wall.thickness,
                direction: cur_wall.direction,
                length: cur_wall.length,
            },
        );
        i = i + 1;
    }
    proof {
        assert(!opposite_turn(walls, walls_count - 1));
        assert(!has_opposite_turn(walls));
    }
    if cur_point != origin {
        return Err(BuildError::RoomNotClosed(input_room.name.clone()));
    }
    let out = output_desc::Room { name: input_room.name.clone(), walls: out_walls };
    assert(room_within(out, LOCAL_BOUND as int));
    Ok(out)
}

/// Every coordinate of `w` lies within the bound of a room's own frame.
pub open spec fn room_within_wall(w: output_desc::Wall) -> bool {
    &&& -LOCAL_BOUND <= w.start.x <= LOCAL_BOUND
    &&& -LOCAL_BOUND <= w.start.y <= LOCAL_BOUND
    &&& -LOCAL_BOUND <= w.end.x <= LOCAL_BOUND
    &&& -LOCAL_BOUND <= w.end.y <= LOCAL_BOUND
}

/// The first room, in order, that cannot be resolved, if any.
pub open spec fn first_room_error(rooms: Seq<input_desc::Room>, k: int) -> bool {
    &&& 0 <= k < rooms.len()
    &&& room_error(rooms[k]) is Some
    &&& forall|j: int| 0 <= j < k ==> room_error(#[trigger] rooms[j]) is None
}

/// Resolves every room of the home in its own frame, in order, stopping at the
/// first room that cannot be resolved.
pub fn build_output_rooms(input_home: &input_desc::Home) -> (r: Result<output_desc::Home, BuildError>)
    requires
        forall|k: int|
            0 <= k < input_home.rooms@.len() ==> (#[trigger] input_home.rooms@[k]).walls@.len()
                <= MAX_WALLS,
    ensures
        forall|k: int|
            first_room_error(input_home.rooms@, k) ==> r == Err::<output_desc::Home, BuildError>(
                room_error(input_home.rooms@[k])->Some_0,
            ),
        r is Ok <==> forall|k: int|
            0 <= k < input_home.rooms@.len() ==> room_error(#[trigger] input_home.rooms@[k]) is None,
        r is Ok ==> resolved_home(r->Ok_0, *input_home),
{
    let mut output_home = output_desc::Home { orientation: input_home.orientation, rooms: Vec::new() };
    let mut k: usize = 0;
    while k < input_home.rooms.len()
        invariant
            k <= input_home.rooms@.len(),
            output_home.orientation == input_home.orientation,
            output_home.rooms@.len() == k,
            forall|j: int|
                0 <= j < input_home.rooms@.len() ==> (#[trigger] input_home.rooms@[j]).walls@.len()
                    <= MAX_WALLS,
            forall|j: int| 0 <= j < k ==> room_error(#[trigger] input_home.rooms@[j]) is None,
            forall|j: int|
                0 <= j < k ==> resolved_room(
                    #[trigger] output_home.rooms@[j],
                    input_home.rooms@[j],
                    input_home.orientation,
                ) && room_within(output_home.rooms@[j], LOCAL_BOUND as int),
        decreases input_home.rooms@.len() - k,
    {
        match build_output_room(&input_home.rooms[k], input_home.orientation) {
            Ok(room) => output_home.rooms.push(room),
            Err(e) => {
                proof {
                    assert(first_room_error(input_home.rooms@, k as int));
                    assert forall|m: int| first_room_error(input_home.rooms@, m) implies m == k by {
                        if m < k {
                            assert(room_error(input_home.rooms@[m]) is None);
                        }
                        if m > k {
                            assert(room_error(input_home.rooms@[k as int]) is None);
                        }
                    }
                }
                return Err(e);
            },
        }
        k = k + 1;
    }
    Ok(output_home)
}

/// `out` holds every room of `home` resolved in its own frame, in order.
pub open spec fn resolved_home(out: output_desc::Home, home: input_desc::Home) -> bool {
    &&& out.orientation == home.orientation
    &&& out.rooms@.len() == home.rooms@.len()
    &&& forall|j: int|
        0 <= j < home.rooms@.len() ==> resolved_room(
            #[trigger] out.rooms@[j],
            home.rooms@[j],
            home.orientation,
        ) && room_within(out.rooms@[j], LOCAL_BOUND as int)
}

/// Every room of the home can be resolved in its own frame.
pub open spec fn rooms_resolve(home: input_desc::Home) -> bool {
    forall|k: int| 0 <= k < home.rooms@.len() ==> room_error(#[trigger] home.rooms@[k]) is None
}

/// Several rooms, but no connection to place them by.
pub open spec fn lacks_connections(home: input_desc::Home) -> bool {
    home.rooms@.len() > 1 && home.connections@.len() == 0
}

/// Builds the whole home: resolves each room in its own frame, then, when
/// there are several rooms, places them in one frame along the connections.
pub fn build(input_home: input_desc::Home) -> (r: Result<output_desc::Home, BuildError>)
    requires
        input_home.rooms@.len() <= MAX_ROOMS,
        forall|k: int|
            0 <= k < input_home.rooms@.len() ==> (#[trigger] input_home.rooms@[k]).walls@.len()
                <= MAX_WALLS,
    ensures
        lacks_connections(input_home) ==> r == Err::<output_desc::Home, BuildError>(
            BuildError::NoRoomConnections,
        ),
        forall|k: int|
            !lacks_connections(input_home) && first_room_error(input_home.rooms@, k) ==> r == Err::<
                output_desc::Home,
                BuildError,
            >(room_error(input_home.rooms@[k])->Some_0),
        rooms_resolve(input_home) && input_home.rooms@.len() <= 1 ==> r is Ok && resolved_home(
            r->Ok_0,
            input_home,
        ),
        rooms_resolve(input_home) && input_home.rooms@.len() > 1 && input_home.connections@.len() > 0
            ==> exists|local: output_desc::Home|
            #[trigger] resolved_home(local, input_home) && placement_result(
                local.rooms@,
                input_home.connections@,
                match r {
                    Ok(h) => Ok(h.rooms@),
                    Err(e) => Err(e),
                },
            ),
        r is Ok ==> r->Ok_0.orientation == input_home.orientation,
{
    if input_home.rooms.len() > 1 && input_home.connections.len() == 0 {
        return Err(BuildError::NoRoomConnections);
    }
    let mut output_home = build_output_rooms(&input_home)?;
    let ghost local = output_home;
    if input_home.rooms.len() > 1 {
        connect_rooms(&mut output_home, &input_home.connections)?;
    }
    Ok(output_home)
}

} // verus!
