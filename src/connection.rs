use crate::builder::{BuildError, LOCAL_BOUND};
use crate::input_desc::{opposite, ConnectionInfo, ConnectionType, Direction, RoomConnection, MAX_ROOMS};
use crate::output_desc::{self, Point, Room, Wall};
use vstd::prelude::*;

verus! {

/// Room `i` is the first room called `name`: the one a connection refers to.
pub open spec fn names_room(rooms: Seq<Room>, name: Seq<char>, i: int) -> bool {
    &&& 0 <= i < rooms.len()
    &&& rooms[i].name@ == name
    &&& forall|j: int| 0 <= j < i ==> (#[trigger] rooms[j]).name@ != name
}

pub open spec fn has_room(rooms: Seq<Room>, name: Seq<char>) -> bool {
    exists|i: int| names_room(rooms, name, i)
}

/// The index of the room called `name` (meaningful where `has_room` holds).
pub open spec fn room_of(rooms: Seq<Room>, name: Seq<char>) -> int {
    choose|i: int| names_room(rooms, name, i)
}

/// A 1-based wall index that names a wall of `room`.
pub open spec fn index_ok(room: Room, index: usize) -> bool {
    1 <= index <= room.walls@.len()
}

pub open spec fn wall_of(room: Room, index: usize) -> Wall {
    room.walls@[index - 1]
}

/// What gluing the room of `b` onto the room of `a` objects to, the room of
/// `a` being placed already; `None` when the two walls can be glued.
pub open spec fn link_error(rooms: Seq<Room>, a: ConnectionInfo, b: ConnectionInfo) -> Option<BuildError> {
    let ra = rooms[room_of(rooms, a.name@)];
    let rb = rooms[room_of(rooms, b.name@)];
    if !index_ok(ra, a.wall_index) {
        Some(BuildError::WrongWallIndex(ra.name, ra.walls@.len() as usize, a.wall_index))
    } else if !index_ok(rb, b.wall_index) {
        Some(BuildError::WrongWallIndex(rb.name, rb.walls@.len() as usize, b.wall_index))
    } else if !opposite(wall_of(ra, a.wall_index).direction, wall_of(rb, b.wall_index).direction) {
        Some(BuildError::WallsCannotConnect(ra.name, a.wall_index, rb.name, b.wall_index))
    } else if wall_of(ra, a.wall_index).thickness != wall_of(rb, b.wall_index).thickness {
        Some(BuildError::DifferentThickness(ra.name, a.wall_index, rb.name, b.wall_index))
    } else {
        None
    }
}

/// Both rooms of `c` exist and its two walls can be glued.
pub open spec fn link_ok(rooms: Seq<Room>, c: RoomConnection) -> bool {
    &&& has_room(rooms, c.room1.name@)
    &&& has_room(rooms, c.room2.name@)
    &&& link_error(rooms, c.room1, c.room2) is None
}

pub open spec fn all_links_ok(rooms: Seq<Room>, conns: Seq<RoomConnection>) -> bool {
    forall|k: int| 0 <= k < conns.len() ==> link_ok(rooms, #[trigger] conns[k])
}

/// The connection type asks that the first wall's start meets the second
/// wall's end.
pub open spec fn start_to_end(t: ConnectionType) -> bool {
    t == ConnectionType::Coincide || t == ConnectionType::StartToEnd
}

/// The connection type asks that the second wall's start meets the first
/// wall's end.
pub open spec fn end_to_start(t: ConnectionType) -> bool {
    t == ConnectionType::Coincide || t == ConnectionType::EndToStart
}

/// What the final check of connection `c` against placed rooms reports, or
/// `None` when `c` holds.
pub open spec fn check_connection(rooms: Seq<Room>, c: RoomConnection) -> Option<BuildError> {
    let r1 = rooms[room_of(rooms, c.room1.name@)];
    let r2 = rooms[room_of(rooms, c.room2.name@)];
    let i1 = c.room1.wall_index;
    let i2 = c.room2.wall_index;
    if !has_room(rooms, c.room1.name@) {
        Some(BuildError::NoRoom(c.room1.name))
    } else if !index_ok(r1, i1) {
        Some(BuildError::WrongWallIndex(r1.name, r1.walls@.len() as usize, i1))
    } else if !has_room(rooms, c.room2.name@) {
        Some(BuildError::NoRoom(c.room2.name))
    } else if !index_ok(r2, i2) {
        Some(BuildError::WrongWallIndex(r2.name, r2.walls@.len() as usize, i2))
    } else {
        let w1 = wall_of(r1, i1);
        let w2 = wall_of(r2, i2);
        if start_to_end(c.conn_type) && w1.start != w2.end {
            Some(BuildError::WallsStartEndNotCoincide(r1.name, i1, w1.start, r2.name, i2, w2.end))
        } else if end_to_start(c.conn_type) && w2.start != w1.end {
            Some(BuildError::WallsStartEndNotCoincide(r2.name, i2, w2.start, r1.name, i1, w1.end))
        } else if !opposite(w1.direction, w2.direction) {
            Some(BuildError::WallsCannotConnect(r1.name, i1, r2.name, i2))
        } else if w1.thickness != w2.thickness {
            Some(BuildError::DifferentThickness(r1.name, i1, r2.name, i2))
        } else {
            None
        }
    }
}

/// `r` is the outcome of checking every connection in order: the first
/// objection, or `None` when all hold.
pub open spec fn checks_outcome(rooms: Seq<Room>, conns: Seq<RoomConnection>, r: Option<BuildError>) -> bool {
    &&& r is None <==> forall|k: int| 0 <= k < conns.len() ==> check_connection(rooms, #[trigger] conns[k]) is None
    &&& r is Some ==> exists|k: int|
        0 <= k < conns.len() && check_connection(rooms, #[trigger] conns[k]) == r && forall|j: int|
            0 <= j < k ==> check_connection(rooms, #[trigger] conns[j]) is None
}

/// The first room called `name`, if any.
fn find_room(rooms: &Vec<Room>, name: &String) -> (r: Option<usize>)
    ensures
        r is Some ==> names_room(rooms@, name@, r->Some_0 as int),
        r is None <==> !has_room(rooms@, name@),
        r is Some ==> room_of(rooms@, name@) == r->Some_0 as int,
{
    let mut i: usize = 0;
    while i < rooms.len()
        invariant
            i <= rooms@.len(),
            forall|j: int| 0 <= j < i ==> (#[trigger] rooms@[j]).name@ != name@,
        decreases rooms@.len() - i,
    {
        if rooms[i].name == *name {
            proof {
                assert(names_room(rooms@, name@, i as int));
                lemma_room_of_unique(rooms@, name@, i as int);
            }
            return Some(i);
        }
        i = i + 1;
    }
    None
}

/// A room name names one room only.
pub proof fn lemma_room_of_unique(rooms: Seq<Room>, name: Seq<char>, i: int)
    requires
        names_room(rooms, name, i),
    ensures
        room_of(rooms, name) == i,
        has_room(rooms, name),
{
    let k = room_of(rooms, name);
    assert(names_room(rooms, name, k));
    if k < i {
        assert(rooms[k].name@ != name);
    }
    if i < k {
        assert(rooms[i].name@ != name);
    }
}

/// Whether the two walls run in opposite directions, as walls on either side
/// of one partition do.
fn check_walls_can_connect(wall1: &Wall, wall2: &Wall) -> (r: bool)
    ensures
        r == opposite(wall1.direction, wall2.direction),
{
    (wall1.direction == Direction::Left && wall2.direction == Direction::Right)
        || (wall1.direction == Direction::Right && wall2.direction == Direction::Left)
        || (wall1.direction == Direction::Up && wall2.direction == Direction::Down)
        || (wall1.direction == Direction::Down && wall2.direction == Direction::Up)
}

/// Wall `index` (1-based) of `room`.
fn get_wall_by_index(room: &Room, index: usize) -> (r: Result<&Wall, BuildError>)
    ensures
        index_ok(*room, index) <==> r is Ok,
        r is Ok ==> *r->Ok_0 == wall_of(*room, index),
        !index_ok(*room, index) ==> r == Err::<&Wall, BuildError>(
            BuildError::WrongWallIndex(room.name, room.walls@.len() as usize, index),
        ),
{
    if index == 0 || index > room.walls.len() {
        return Err(BuildError::WrongWallIndex(room.name.clone(), room.walls.len(), index));
    }
    Ok(&room.walls[index - 1])
}

/// Checks every declared connection against the placed rooms, in order.
fn verify_room_connections(
    output_home: &output_desc::Home,
    connections: &Vec<RoomConnection>,
) -> (r: Result<(), BuildError>)
    ensures
        checks_outcome(
            output_home.rooms@,
            connections@,
            match r {
                Ok(_) => None,
                Err(e) => Some(e),
            },
        ),
{
    let rooms = &output_home.rooms;
    let mut k: usize = 0;
    while k < connections.len()
        invariant
            k <= connections@.len(),
            rooms@ == output_home.rooms@,
            forall|j: int| 0 <= j < k ==> check_connection(rooms@, #[trigger] connections@[j]) is None,
        decreases connections@.len() - k,
    {
        match check_one_connection(rooms, &connections[k]) {
            Ok(()) => {},
            Err(e) => {
                assert(check_connection(rooms@, connections@[k as int]) == Some(e));
                return Err(e);
            },
        }
        k = k + 1;
    }
    Ok(())
}

/// Checks one connection against the placed rooms.
fn check_one_connection(rooms: &Vec<Room>, conn: &RoomConnection) -> (r: Result<(), BuildError>)
    ensures
        check_connection(rooms@, *conn) == match r {
            Ok(_) => None,
            Err(e) => Some(e),
        },
{
    let i1 = match find_room(rooms, &conn.room1.name) {
        Some(i) => i,
        None => return Err(BuildError::NoRoom(conn.room1.name.clone())),
    };
    let room1 = &rooms[i1];
    let wall1 = get_wall_by_index(room1, conn.room1.wall_index)?;
    let i2 = match find_room(rooms, &conn.room2.name) {
        Some(i) => i,
        None => return Err(BuildError::NoRoom(conn.room2.name.clone())),
    };
    let room2 = &rooms[i2];
    let wall2 = get_wall_by_index(room2, conn.room2.wall_index)?;
    if conn.conn_type == ConnectionType::Coincide || conn.conn_type == ConnectionType::StartToEnd {
        if wall1.start != wall2.end {
            return Err(
                BuildError::WallsStartEndNotCoincide(
                    room1.name.clone(),
                    conn.room1.wall_index,
                    wall1.start,
                    room2.name.clone(),
                    conn.room2.wall_index,
                    wall2.end,
                ),
            );
        }
    }
    if conn.conn_type == ConnectionType::Coincide || conn.conn_type == ConnectionType::EndToStart {
        if wall2.start != wall1.end {
            return Err(
                BuildError::WallsStartEndNotCoincide(
                    room2.name.clone(),
                    conn.room2.wall_index,
                    wall2.start,
                    room1.name.clone(),
                    conn.room1.wall_index,
                    wall1.end,
                ),
            );
        }
    }
    if !check_walls_can_connect(wall1, wall2) {
        return Err(
            BuildError::WallsCannotConnect(
                room1.name.clone(),
                conn.room1.wall_index,
                room2.name.clone(),
                conn.room2.wall_index,
            ),
        );
    }
    if wall1.thickness != wall2.thickness {
        return Err(
            BuildError::DifferentThickness(
                room1.name.clone(),
                conn.room1.wall_index,
                room2.name.clone(),
                conn.room2.wall_index,
            ),
        );
    }
    Ok(())
}

/// Connection `c` joins room `i` and room `j`, one at each end.
pub open spec fn links(rooms: Seq<Room>, c: RoomConnection, i: int, j: int) -> bool {
    ||| names_room(rooms, c.room1.name@, i) && names_room(rooms, c.room2.name@, j)
    ||| names_room(rooms, c.room2.name@, i) && names_room(rooms, c.room1.name@, j)
}

/// No connection leads out of the set of rooms `s`.
pub open spec fn closed(rooms: Seq<Room>, conns: Seq<RoomConnection>, s: Set<int>) -> bool {
    forall|k: int, i: int, j: int|
        0 <= k < conns.len() && #[trigger] links(rooms, conns[k], i, j) && s.contains(i)
            ==> s.contains(j)
}

/// The rooms that connections lead to from the first room: those in every
/// set that holds the first room and that no connection leads out of.
pub open spec fn reach(rooms: Seq<Room>, conns: Seq<RoomConnection>) -> Set<int> {
    Set::new(
        |i: int|
            0 <= i < rooms.len() && forall|s: Set<int>|
                #[trigger] closed(rooms, conns, s) && s.contains(0) ==> s.contains(i),
    )
}

/// Connections lead from the first room to every room.
pub open spec fn connected(rooms: Seq<Room>, conns: Seq<RoomConnection>) -> bool {
    forall|i: int| 0 <= i < rooms.len() ==> #[trigger] reach(rooms, conns).contains(i)
}

/// The names of the first `k` rooms that are not in `s`, in order.
pub open spec fn names_outside(rooms: Seq<Room>, s: Set<int>, k: nat) -> Seq<String>
    decreases k,
{
    if k == 0 {
        Seq::empty()
    } else {
        let prev = names_outside(rooms, s, (k - 1) as nat);
        if s.contains(k - 1) {
            prev
        } else {
            prev.push(rooms[k - 1].name)
        }
    }
}

/// How far the room of `b` moves so that its wall meets the wall of `a`, the
/// room of `a` standing still: its wall's end goes to the start of the wall of
/// `a` (`Coincide`, `StartToEnd`), or its start to that wall's end
/// (`EndToStart`).
pub open spec fn link_delta(
    rooms: Seq<Room>,
    a: ConnectionInfo,
    b: ConnectionInfo,
    t: ConnectionType,
) -> (int, int) {
    let wa = wall_of(rooms[room_of(rooms, a.name@)], a.wall_index);
    let wb = wall_of(rooms[room_of(rooms, b.name@)], b.wall_index);
    if start_to_end(t) {
        (wa.start@.0 - wb.end@.0, wa.start@.1 - wb.end@.1)
    } else {
        (wa.end@.0 - wb.start@.0, wa.end@.1 - wb.start@.1)
    }
}

/// Translating each room `i` by `offs[i]` makes both ends of every connected
/// pair of walls meet, the first room standing still.
pub open spec fn fully_coincide(
    rooms: Seq<Room>,
    conns: Seq<RoomConnection>,
    offs: Seq<(int, int)>,
) -> bool {
    &&& offs.len() == rooms.len()
    &&& offs[0] == (0int, 0int)
    &&& forall|k: int|
        0 <= k < conns.len() ==> {
            let c = #[trigger] conns[k];
            let i = room_of(rooms, c.room1.name@);
            let j = room_of(rooms, c.room2.name@);
            let w1 = wall_of(rooms[i], c.room1.wall_index);
            let w2 = wall_of(rooms[j], c.room2.wall_index);
            &&& w1.start@.0 + offs[i].0 == w2.end@.0 + offs[j].0
            &&& w1.start@.1 + offs[i].1 == w2.end@.1 + offs[j].1
            &&& w2.start@.0 + offs[j].0 == w1.end@.0 + offs[i].0
            &&& w2.start@.1 + offs[j].1 == w1.end@.1 + offs[i].1
        }
}

/// An objection that gluing along connection number `k`, from either side,
/// raises.
pub open spec fn link_fault(rooms: Seq<Room>, conns: Seq<RoomConnection>, e: BuildError) -> bool {
    exists|k: int|
        0 <= k < conns.len() && has_room(rooms, (#[trigger] conns[k]).room1.name@) && has_room(
            rooms,
            conns[k].room2.name@,
        ) && (link_error(rooms, conns[k].room1, conns[k].room2) == Some(e) || link_error(
            rooms,
            conns[k].room2,
            conns[k].room1,
        ) == Some(e))
}

/// The offsets as pairs of integers.
pub open spec fn offsets_view(offs: Seq<(i64, i64)>) -> Seq<(int, int)> {
    offs.map_values(|p: (i64, i64)| (p.0 as int, p.1 as int))
}

/// Every room lies within `LOCAL_BOUND` of its own origin.
pub open spec fn rooms_local(rooms: Seq<Room>) -> bool {
    forall|i: int| 0 <= i < rooms.len() ==> crate::builder::room_within(#[trigger] rooms[i], LOCAL_BOUND as int)
}

proof fn lemma_link_error_symmetric(rooms: Seq<Room>, a: ConnectionInfo, b: ConnectionInfo)
    ensures
        link_error(rooms, a, b) is None <==> link_error(rooms, b, a) is None,
{
}

/// How far the room of `b` moves to meet the placed room of `a`.
fn link_offset(
    rooms: &Vec<Room>,
    ia: usize,
    a: &ConnectionInfo,
    ib: usize,
    b: &ConnectionInfo,
    conn_type: ConnectionType,
) -> (r: Result<(i64, i64), BuildError>)
    requires
        names_room(rooms@, a.name@, ia as int),
        names_room(rooms@, b.name@, ib as int),
        rooms_local(rooms@),
    ensures
        r is Err <==> link_error(rooms@, *a, *b) is Some,
        r is Err ==> link_error(rooms@, *a, *b) == Some(r->Err_0),
        r is Ok ==> (r->Ok_0.0 as int, r->Ok_0.1 as int) == link_delta(rooms@, *a, *b, conn_type),
        r is Ok ==> -2 * LOCAL_BOUND <= r->Ok_0.0 <= 2 * LOCAL_BOUND,
        r is Ok ==> -2 * LOCAL_BOUND <= r->Ok_0.1 <= 2 * LOCAL_BOUND,
{
    proof {
        lemma_room_of_unique(rooms@, a.name@, ia as int);
        lemma_room_of_unique(rooms@, b.name@, ib as int);
    }
    let room_a = &rooms[ia];
    let room_b = &rooms[ib];
    let wall1 = get_wall_by_index(room_a, a.wall_index)?;
    let wall2 = get_wall_by_index(room_b, b.wall_index)?;
    if !check_walls_can_connect(wall1, wall2) {
        return Err(
            BuildError::WallsCannotConnect(room_a.name.clone(), a.wall_index, room_b.name.clone(), b.wall_index),
        );
    }
    if wall1.thickness != wall2.thickness {
        return Err(
            BuildError::DifferentThickness(room_a.name.clone(), a.wall_index, room_b.name.clone(), b.wall_index),
        );
    }
    proof {
        assert(crate::builder::room_within(rooms@[ia as int], LOCAL_BOUND as int));
        assert(crate::builder::room_within(rooms@[ib as int], LOCAL_BOUND as int));
        assert(rooms@[ia as int].walls@[a.wall_index - 1] == *wall1);
        assert(rooms@[ib as int].walls@[b.wall_index - 1] == *wall2);
    }
    match conn_type {
        ConnectionType::Coincide | ConnectionType::StartToEnd => {
            Ok((wall1.start.x - wall2.end.x, wall1.start.y - wall2.end.y))
        },
        ConnectionType::EndToStart => Ok((wall1.end.x - wall2.start.x, wall1.end.y - wall2.start.y)),
    }
}

/// An offset reached after placing `count` rooms: each step moves at most
/// twice a room's local bound.
pub open spec fn offset_within(off: (i64, i64), count: int) -> bool {
    &&& -(count - 1) * 70368744177664 <= off.0 <= (count - 1) * 70368744177664
    &&& -(count - 1) * 70368744177664 <= off.1 <= (count - 1) * 70368744177664
}

/// Where every connected pair of walls meets at both ends under `g`, the room
/// reached along connection `m` from the placed room `p` sits at `p`'s offset
/// plus the connection's delta, from whichever end it is reached.
proof fn lemma_goal_step(
    rooms: Seq<Room>,
    conns: Seq<RoomConnection>,
    g: Seq<(int, int)>,
    m: int,
    p: int,
    t: int,
    forward: bool,
)
    requires
        fully_coincide(rooms, conns, g),
        0 <= m < conns.len(),
        forward ==> names_room(rooms, conns[m].room1.name@, p) && names_room(rooms, conns[m].room2.name@, t),
        !forward ==> names_room(rooms, conns[m].room2.name@, p) && names_room(rooms, conns[m].room1.name@, t),
    ensures
        forward ==> g[t] == (
            g[p].0 + link_delta(rooms, conns[m].room1, conns[m].room2, conns[m].conn_type).0,
            g[p].1 + link_delta(rooms, conns[m].room1, conns[m].room2, conns[m].conn_type).1,
        ),
        !forward ==> g[t] == (
            g[p].0 + link_delta(rooms, conns[m].room2, conns[m].room1, conns[m].conn_type).0,
            g[p].1 + link_delta(rooms, conns[m].room2, conns[m].room1, conns[m].conn_type).1,
        ),
{
    let c = conns[m];
    if forward {
        lemma_room_of_unique(rooms, c.room1.name@, p);
        lemma_room_of_unique(rooms, c.room2.name@, t);
    } else {
        lemma_room_of_unique(rooms, c.room2.name@, p);
        lemma_room_of_unique(rooms, c.room1.name@, t);
    }
}

/// Places every room by walking the connections outward from the first room,
/// which stays at the origin; each room moves by the offset of the room it was
/// reached from plus the delta of the connection that reached it. Fails when a
/// connection used on the way cannot be glued, or when some rooms cannot be
/// reached.
fn place_rooms(rooms: &Vec<Room>, connections: &Vec<RoomConnection>) -> (r: Result<
    Vec<(i64, i64)>,
    BuildError,
>)
    requires
        1 <= rooms@.len() <= MAX_ROOMS,
        rooms_local(rooms@),
    ensures
        r is Ok ==> r->Ok_0@.len() == rooms@.len() && r->Ok_0@[0] == (0i64, 0i64),
        r is Ok ==> connected(rooms@, connections@),
        r is Ok ==> forall|j: int|
            0 <= j < rooms@.len() ==> -MAX_ROOMS * 2 * LOCAL_BOUND <= (#[trigger] r->Ok_0@[j]).0
                <= MAX_ROOMS * 2 * LOCAL_BOUND && -MAX_ROOMS * 2 * LOCAL_BOUND <= r->Ok_0@[j].1
                <= MAX_ROOMS * 2 * LOCAL_BOUND,
        r is Ok ==> forall|g: Seq<(int, int)>|
            #[trigger] fully_coincide(rooms@, connections@, g) ==> offsets_view(r->Ok_0@) == g,
        r matches Err(BuildError::RoomsNotConnected(ns)) ==> !connected(rooms@, connections@)
            && ns@ == names_outside(rooms@, reach(rooms@, connections@), rooms@.len()),
        r is Err && !(r->Err_0 is RoomsNotConnected) ==> link_fault(rooms@, connections@, r->Err_0),
        all_links_ok(rooms@, connections@) && r is Err ==> r->Err_0 is RoomsNotConnected,
{
    let ghost local = rooms@;
    let ghost conns = connections@;
    let n = rooms.len();
    let mut placed: Vec<bool> = Vec::new();
    let mut offs: Vec<(i64, i64)> = Vec::new();
    let mut i: usize = 0;
    while i < n
        invariant
            n == rooms@.len(),
            i <= n,
            placed@.len() == i,
            offs@.len() == i,
            forall|j: int| 0 <= j < i ==> #[trigger] placed@[j] == (j == 0),
            forall|j: int| 0 <= j < i ==> #[trigger] offs@[j] == (0i64, 0i64),
        decreases n - i,
    {
        placed.push(i == 0);
        offs.push((0, 0));
        i = i + 1;
    }
    let mut order: Vec<usize> = Vec::new();
    order.push(0);
    let ghost mut pset: Set<int> = set![0];
    let mut cursor: usize = 0;
    assert(order@[0] == 0);
    while cursor < order.len()
        invariant
            local == rooms@,
            conns == connections@,
            n == rooms@.len(),
            1 <= n <= MAX_ROOMS,
            rooms_local(rooms@),
            placed@.len() == n,
            offs@.len() == n,
            cursor <= order@.len(),
            pset.finite(),
            pset.len() == order@.len(),
            1 <= order@.len() <= n,
            forall|j: int| 0 <= j < n ==> (#[trigger] placed@[j] <==> pset.contains(j)),
            forall|j: int| #[trigger] pset.contains(j) ==> 0 <= j < n,
            forall|k: int| 0 <= k < order@.len() ==> (#[trigger] order@[k] as int) < n && placed@[order@[k] as int],
            forall|j: int| 0 <= j < n && #[trigger] placed@[j] ==> order@.contains(j as usize),
            placed@[0],
            offs@[0] == (0i64, 0i64),
            forall|j: int|
                0 <= j < n && #[trigger] placed@[j] ==> offset_within(offs@[j], order@.len() as int),
            forall|j: int, s: Set<int>|
                0 <= j < n && #[trigger] placed@[j] && #[trigger] closed(local, conns, s) && s.contains(0)
                    ==> s.contains(j),
            forall|k: int, m: int, t: int|
                0 <= k < cursor && 0 <= m < conns.len() && #[trigger] links(local, conns[m], order@[k] as int, t)
                    ==> placed@[t],
            forall|g: Seq<(int, int)>, j: int|
                #[trigger] fully_coincide(local, conns, g) && 0 <= j < n && #[trigger] placed@[j]
                    ==> offs@[j].0 == g[j].0 && offs@[j].1 == g[j].1,
        decreases n - cursor,
    {
        let p = order[cursor];
        let mut m: usize = 0;
        while m < connections.len()
            invariant
                local == rooms@,
                conns == connections@,
                n == rooms@.len(),
                1 <= n <= MAX_ROOMS,
                rooms_local(rooms@),
                placed@.len() == n,
                offs@.len() == n,
                cursor < order@.len(),
                p == order@[cursor as int],
                m <= conns.len(),
                pset.finite(),
                pset.len() == order@.len(),
                1 <= order@.len() <= n,
                forall|j: int| 0 <= j < n ==> (#[trigger] placed@[j] <==> pset.contains(j)),
                forall|j: int| #[trigger] pset.contains(j) ==> 0 <= j < n,
                forall|k: int| 0 <= k < order@.len() ==> (#[trigger] order@[k] as int) < n && placed@[order@[k] as int],
                forall|j: int| 0 <= j < n && #[trigger] placed@[j] ==> order@.contains(j as usize),
                placed@[0],
                offs@[0] == (0i64, 0i64),
                forall|j: int|
                    0 <= j < n && #[trigger] placed@[j] ==> offset_within(offs@[j], order@.len() as int),
                forall|j: int, s: Set<int>|
                    0 <= j < n && #[trigger] placed@[j] && #[trigger] closed(local, conns, s) && s.contains(0)
                        ==> s.contains(j),
                forall|k: int, mm: int, t: int|
                    0 <= k < cursor && 0 <= mm < conns.len() && #[trigger] links(local, conns[mm], order@[k] as int, t)
                        ==> placed@[t],
                forall|mm: int, t: int|
                    0 <= mm < m && #[trigger] links(local, conns[mm], p as int, t) ==> placed@[t],
                forall|g: Seq<(int, int)>, j: int|
                    #[trigger] fully_coincide(local, conns, g) && 0 <= j < n && #[trigger] placed@[j]
                        ==> offs@[j].0 == g[j].0 && offs@[j].1 == g[j].1,
            decreases conns.len() - m,
        {
            let conn = &connections[m];
            let i1 = find_room(rooms, &conn.room1.name);
            let i2 = find_room(rooms, &conn.room2.name);
            let mut target: Option<(usize, bool)> = None;
            if let (Some(a), Some(b)) = (i1, i2) {
                if a == p && !placed[b] {
                    target = Some((b, true));
                } else if b == p && !placed[a] {
                    target = Some((a, false));
                }
            }
            if let Some((t, forward)) = target {
                let d = if forward {
                    link_offset(rooms, p, &conn.room1, t, &conn.room2, conn.conn_type)
                } else {
                    link_offset(rooms, p, &conn.room2, t, &conn.room1, conn.conn_type)
                };
                let d = match d {
                    Ok(d) => d,
                    Err(e) => {
                        proof {
                            assert(has_room(local, conns[m as int].room1.name@));
                            assert(has_room(local, conns[m as int].room2.name@));
                            assert(link_fault(local, conns, e));
                            if all_links_ok(local, conns) {
                                assert(link_ok(local, conns[m as int]));
                                lemma_link_error_symmetric(local, conn.room1, conn.room2);
                            }
                        }
                        return Err(e);
                    },
                };
                let ghost old_len = order@.len();
                let ghost old_order = order@;
                let ghost old_placed = placed@;
                proof {
                    assert(!pset.contains(t as int));
                    assert(pset.subset_of(vstd::set_lib::set_int_range(0, n as int)));
                    vstd::set_lib::lemma_int_range(0, n as int);
                    vstd::set_lib::lemma_len_subset(pset.insert(t as int), vstd::set_lib::set_int_range(0, n as int));
                    assert(placed@[p as int]);
                    assert(old_len + 1 <= n);
                    assert(LOCAL_BOUND == 35184372088832 && MAX_ROOMS == 4096);
                    assert((old_len - 1) * 70368744177664 <= 4094 * 70368744177664) by (nonlinear_arith)
                        requires
                            1 <= old_len <= 4095,
                    ;
                    assert(offset_within(offs@[p as int], old_len as int));
                }
                let off = (offs[p].0 + d.0, offs[p].1 + d.1);
                placed.set(t, true);
                offs.set(t, off);
                order.push(t);
                proof {
                    pset = pset.insert(t as int);
                    assert(links(local, conns[m as int], p as int, t as int));
                    assert forall|j: int, s: Set<int>|
                        0 <= j < n && #[trigger] placed@[j] && #[trigger] closed(local, conns, s) && s.contains(0)
                            implies s.contains(j) by {
                        if j == t {
                            assert(s.contains(p as int));
                            assert(links(local, conns[m as int], p as int, t as int));
                        }
                    }
                    assert forall|g: Seq<(int, int)>, j: int|
                        #[trigger] fully_coincide(local, conns, g) && 0 <= j < n && #[trigger] placed@[j]
                            implies offs@[j].0 == g[j].0 && offs@[j].1 == g[j].1 by {
                        if j == t {
                            lemma_goal_step(local, conns, g, m as int, p as int, t as int, forward);
                        }
                    }
                    assert forall|j: int| 0 <= j < n && #[trigger] placed@[j] implies order@.contains(j as usize) by {
                        if j == t {
                            assert(order@[old_len as int] == t);
                        } else {
                            assert(old_placed[j]);
                            assert(old_order.contains(j as usize));
                            let k = choose|k: int| 0 <= k < old_len && old_order[k] == j as usize;
                            assert(order@[k] == j as usize);
                        }
                    }
                }
            }
            proof {
                assert forall|mm: int, tt: int|
                    0 <= mm <= m && #[trigger] links(local, conns[mm], p as int, tt) implies placed@[tt] by {
                    if mm == m {
                        if names_room(local, conn.room1.name@, p as int) && names_room(local, conn.room2.name@, tt) {
                            lemma_room_of_unique(local, conn.room1.name@, p as int);
                            lemma_room_of_unique(local, conn.room2.name@, tt);
                        } else {
                            lemma_room_of_unique(local, conn.room2.name@, p as int);
                            lemma_room_of_unique(local, conn.room1.name@, tt);
                        }
                    }
                }
            }
            m = m + 1;
        }
        cursor = cursor + 1;
    }
    proof {
        assert(closed(local, conns, pset)) by {
            assert forall|k: int, a: int, b: int|
                0 <= k < conns.len() && #[trigger] links(local, conns[k], a, b) && pset.contains(a)
                    implies pset.contains(b) by {
                assert(placed@[a]);
                assert(order@.contains(a as usize));
                let q = choose|q: int| 0 <= q < order@.len() && order@[q] == a as usize;
                assert(links(local, conns[k], order@[q] as int, b));
            }
        }
        assert(pset =~= reach(local, conns)) by {
            assert forall|j: int| pset.contains(j) implies #[trigger] reach(local, conns).contains(j) by {
                assert(placed@[j]);
            }
            assert forall|j: int| #[trigger] reach(local, conns).contains(j) implies pset.contains(j) by {
                assert(closed(local, conns, pset) && pset.contains(0));
            }
        }
    }
    let mut unconnected_rooms: Vec<String> = Vec::new();
    let mut j: usize = 0;
    while j < n
        invariant
            n == rooms@.len(),
            j <= n,
            placed@.len() == n,
            forall|q: int| 0 <= q < n ==> (#[trigger] placed@[q] <==> pset.contains(q)),
            unconnected_rooms@ == names_outside(local, pset, j as nat),
            local == rooms@,
            (unconnected_rooms@.len() == 0) <==> forall|q: int| 0 <= q < j ==> #[trigger] placed@[q],
        decreases n - j,
    {
        if !placed[j] {
            unconnected_rooms.push(rooms[j].name.clone());
        }
        j = j + 1;
    }
    if unconnected_rooms.len() > 0 {
        proof {
            let q = choose|q: int| 0 <= q < n && !#[trigger] placed@[q];
            assert(!reach(local, conns).contains(q));
        }
        return Err(BuildError::RoomsNotConnected(unconnected_rooms));
    }
    proof {
        assert forall|q: int| 0 <= q < n implies #[trigger] reach(local, conns).contains(q) by {
            assert(placed@[q]);
        }
        assert forall|g: Seq<(int, int)>| #[trigger] fully_coincide(local, conns, g) implies offsets_view(offs@) == g by {
            assert forall|q: int| 0 <= q < n implies offsets_view(offs@)[q] == g[q] by {
                assert(placed@[q]);
            }
            assert(offsets_view(offs@) =~= g);
        }
        assert forall|q: int| 0 <= q < n implies -MAX_ROOMS * 2 * LOCAL_BOUND <= (#[trigger] offs@[q]).0
                <= MAX_ROOMS * 2 * LOCAL_BOUND && -MAX_ROOMS * 2 * LOCAL_BOUND <= offs@[q].1
                <= MAX_ROOMS * 2 * LOCAL_BOUND by {
            assert(placed@[q]);
        }
    }
    Ok(offs)
}

/// `nw` is `ow` moved by `d`.
pub open spec fn shifted(nw: Wall, ow: Wall, d: (int, int)) -> bool {
    &&& nw.start@ == (ow.start@.0 + d.0, ow.start@.1 + d.1)
    &&& nw.end@ == (ow.end@.0 + d.0, ow.end@.1 + d.1)
    &&& nw.thickness == ow.thickness
    &&& nw.direction == ow.direction
    &&& nw.length == ow.length
}

/// `placed` is `local` with each room `i` moved by `offs[i]`, the first room
/// standing still.
pub open spec fn placement(local: Seq<Room>, placed: Seq<Room>, offs: Seq<(int, int)>) -> bool {
    &&& placed.len() == local.len()
    &&& offs.len() == local.len()
    &&& offs[0] == (0int, 0int)
    &&& forall|i: int|
        0 <= i < local.len() ==> {
            &&& (#[trigger] placed[i]).name == local[i].name
            &&& placed[i].walls@.len() == local[i].walls@.len()
            &&& forall|j: int|
                0 <= j < local[i].walls@.len() ==> shifted(
                    #[trigger] placed[i].walls@[j],
                    local[i].walls@[j],
                    offs[i],
                )
        }
}

/// What gluing the rooms `local` (each in its own frame) along `conns` gives:
/// on success the rooms placed so that every connection holds; success
/// whenever every connection can be glued, every room is reached, and some
/// placement makes both ends of every connected pair of walls meet; and for
/// each failure, its cause.
pub open spec fn placement_result(
    local: Seq<Room>,
    conns: Seq<RoomConnection>,
    r: Result<Seq<Room>, BuildError>,
) -> bool {
    &&& r is Ok ==> {
        &&& connected(local, conns)
        &&& all_links_ok(local, conns)
        &&& exists|offs: Seq<(int, int)>| placement(local, r->Ok_0, offs)
        &&& checks_outcome(r->Ok_0, conns, None)
    }
    &&& all_links_ok(local, conns) && connected(local, conns) && (exists|g: Seq<(int, int)>|
        fully_coincide(local, conns, g)) ==> r is Ok
    &&& all_links_ok(local, conns) && !connected(local, conns) ==> r is Err
        && r->Err_0 is RoomsNotConnected
    &&& r matches Err(BuildError::RoomsNotConnected(ns)) ==> !connected(local, conns) && ns@
        == names_outside(local, reach(local, conns), local.len())
    &&& r is Err && !(r->Err_0 is RoomsNotConnected) ==> link_fault(local, conns, r->Err_0) || (
    connected(local, conns) && exists|placed: Seq<Room>, offs: Seq<(int, int)>|
        placement(local, placed, offs) && checks_outcome(placed, conns, Some(r->Err_0)))
}

/// Moves each room `i` by `offs[i]`.
fn shift_rooms(rooms: &Vec<Room>, offs: &Vec<(i64, i64)>) -> (r: Vec<Room>)
    requires
        offs@.len() == rooms@.len(),
        rooms@.len() >= 1,
        offs@[0] == (0i64, 0i64),
        rooms_local(rooms@),
        forall|j: int|
            0 <= j < rooms@.len() ==> -MAX_ROOMS * 2 * LOCAL_BOUND <= (#[trigger] offs@[j]).0
                <= MAX_ROOMS * 2 * LOCAL_BOUND && -MAX_ROOMS * 2 * LOCAL_BOUND <= offs@[j].1
                <= MAX_ROOMS * 2 * LOCAL_BOUND,
    ensures
        placement(rooms@, r@, offsets_view(offs@)),
{
    let mut out: Vec<Room> = Vec::new();
    let mut i: usize = 0;
    while i < rooms.len()
        invariant
            i <= rooms@.len(),
            offs@.len() == rooms@.len(),
            out@.len() == i,
            rooms_local(rooms@),
            forall|j: int|
                0 <= j < rooms@.len() ==> -MAX_ROOMS * 2 * LOCAL_BOUND <= (#[trigger] offs@[j]).0
                    <= MAX_ROOMS * 2 * LOCAL_BOUND && -MAX_ROOMS * 2 * LOCAL_BOUND <= offs@[j].1
                    <= MAX_ROOMS * 2 * LOCAL_BOUND,
            forall|q: int|
                0 <= q < i ==> {
                    &&& (#[trigger] out@[q]).name == rooms@[q].name
                    &&& out@[q].walls@.len() == rooms@[q].walls@.len()
                    &&& forall|j: int|
                        0 <= j < rooms@[q].walls@.len() ==> shifted(
                            #[trigger] out@[q].walls@[j],
                            rooms@[q].walls@[j],
                            offsets_view(offs@)[q],
                        )
                },
        decreases rooms@.len() - i,
    {
        let room = &rooms[i];
        let (dx, dy) = offs[i];
        let mut walls: Vec<Wall> = Vec::new();
        let mut j: usize = 0;
        assert(crate::builder::room_within(rooms@[i as int], LOCAL_BOUND as int));
        while j < room.walls.len()
            invariant
                j <= room.walls@.len(),
                walls@.len() == j,
                *room == rooms@[i as int],
                crate::builder::room_within(*room, LOCAL_BOUND as int),
                -MAX_ROOMS * 2 * LOCAL_BOUND <= dx <= MAX_ROOMS * 2 * LOCAL_BOUND,
                -MAX_ROOMS * 2 * LOCAL_BOUND <= dy <= MAX_ROOMS * 2 * LOCAL_BOUND,
                forall|q: int|
                    0 <= q < j ==> shifted(
                        #[trigger] walls@[q],
                        room.walls@[q],
                        (dx as int, dy as int),
                    ),
            decreases room.walls@.len() - j,
        {
            let w = &room.walls[j];
            assert(crate::builder::room_within(*room, LOCAL_BOUND as int));
            assert(room.walls@[j as int] == *w);
            walls.push(
                Wall {
                    start: Point { x: w.start.x + dx, y: w.start.y + dy },
                    end: Point { x: w.end.x + dx, y: w.end.y + dy },
                    thickness: w.thickness,
                    direction: w.direction,
                    length: w.length,
                },
            );
            j = j + 1;
        }
        out.push(Room { name: room.name.clone(), walls });
        i = i + 1;
    }
    out
}

/// Connection checks on placed rooms agree with gluing checks on the rooms in
/// their own frames, as far as names, indices, directions and thicknesses go.
proof fn lemma_placement_names(local: Seq<Room>, placed: Seq<Room>, offs: Seq<(int, int)>, name: Seq<char>)
    requires
        placement(local, placed, offs),
    ensures
        has_room(placed, name) <==> has_room(local, name),
        has_room(local, name) ==> room_of(placed, name) == room_of(local, name),
{
    if has_room(local, name) {
        let i = room_of(local, name);
        assert(names_room(local, name, i));
        assert(placed[i].name == local[i].name);
        assert forall|j: int| 0 <= j < i implies (#[trigger] placed[j]).name@ != name by {
            assert(placed[j].name == local[j].name);
        }
        assert(names_room(placed, name, i));
        lemma_room_of_unique(placed, name, i);
    }
    if has_room(placed, name) {
        let i = room_of(placed, name);
        assert(names_room(placed, name, i));
        assert(placed[i].name == local[i].name);
        assert forall|j: int| 0 <= j < i implies (#[trigger] local[j]).name@ != name by {
            assert(placed[j].name == local[j].name);
        }
        assert(names_room(local, name, i));
    }
}

proof fn lemma_placed_check_links(local: Seq<Room>, placed: Seq<Room>, offs: Seq<(int, int)>, c: RoomConnection)
    requires
        placement(local, placed, offs),
        check_connection(placed, c) is None,
    ensures
        link_ok(local, c),
{
    lemma_placement_names(local, placed, offs, c.room1.name@);
    lemma_placement_names(local, placed, offs, c.room2.name@);
    let i = room_of(local, c.room1.name@);
    let j = room_of(local, c.room2.name@);
    assert(shifted(placed[i].walls@[c.room1.wall_index - 1], local[i].walls@[c.room1.wall_index - 1], offs[i]));
    assert(shifted(placed[j].walls@[c.room2.wall_index - 1], local[j].walls@[c.room2.wall_index - 1], offs[j]));
}

proof fn lemma_goal_checks(local: Seq<Room>, placed: Seq<Room>, conns: Seq<RoomConnection>, g: Seq<(int, int)>, k: int)
    requires
        placement(local, placed, g),
        fully_coincide(local, conns, g),
        all_links_ok(local, conns),
        0 <= k < conns.len(),
    ensures
        check_connection(placed, conns[k]) is None,
{
    let c = conns[k];
    assert(link_ok(local, c));
    lemma_placement_names(local, placed, g, c.room1.name@);
    lemma_placement_names(local, placed, g, c.room2.name@);
    let i = room_of(local, c.room1.name@);
    let j = room_of(local, c.room2.name@);
    assert(names_room(local, c.room1.name@, i));
    assert(names_room(local, c.room2.name@, j));
    assert(shifted(placed[i].walls@[c.room1.wall_index - 1], local[i].walls@[c.room1.wall_index - 1], g[i]));
    assert(shifted(placed[j].walls@[c.room2.wall_index - 1], local[j].walls@[c.room2.wall_index - 1], g[j]));
}

/// Places every room of the home so that all connections hold: walks the
/// connections outward from the first room, moves each room into place, then
/// checks every connection, including those the walk did not use.
pub fn connect_rooms(
    output_home: &mut output_desc::Home,
    connections: &Vec<RoomConnection>,
) -> (r: Result<(), BuildError>)
    requires
        1 <= old(output_home).rooms@.len() <= MAX_ROOMS,
        rooms_local(old(output_home).rooms@),
    ensures
        final(output_home).orientation == old(output_home).orientation,
        placement_result(
            old(output_home).rooms@,
            connections@,
            match r {
                Ok(_) => Ok(final(output_home).rooms@),
                Err(e) => Err(e),
            },
        ),
{
    let ghost local = output_home.rooms@;
    let ghost conns = connections@;
    let offs = place_rooms(&output_home.rooms, connections)?;
    let shifted_rooms = shift_rooms(&output_home.rooms, &offs);
    output_home.rooms = shifted_rooms;
    let ghost placed = output_home.rooms@;
    let ghost ov = offsets_view(offs@);
    let r = verify_room_connections(output_home, connections);
    proof {
        if r is Ok {
            assert forall|k: int| 0 <= k < conns.len() implies link_ok(local, #[trigger] conns[k]) by {
                lemma_placed_check_links(local, placed, ov, conns[k]);
            }
        }
        if exists|g: Seq<(int, int)>| fully_coincide(local, conns, g) {
            if all_links_ok(local, conns) {
                let g = choose|g: Seq<(int, int)>| fully_coincide(local, conns, g);
                assert(ov == g);
                assert forall|k: int| 0 <= k < conns.len() implies check_connection(placed, #[trigger] conns[k]) is None by {
                    lemma_goal_checks(local, placed, conns, g, k);
                }
            }
        }
    }
    r
}

} // verus!
