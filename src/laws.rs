//! Laws that the builder obeys, proved from the specifications that its
//! functions' contracts use.
use crate::builder::{
    corner, corner_offset, cursor, has_opposite_turn, opposite_turn, resolved_room, room_error,
    BuildError,
};
use crate::connection::{
    check_connection, checks_outcome, closed, connected, link_delta, link_error, link_ok, links,
    names_outside, names_room, placement, placement_result, reach, has_room, index_ok, wall_of,
    room_of, lemma_room_of_unique,
};
use crate::input_desc::{opposite, Room, RoomConnection, Wall, WallOrientation};
use crate::output_desc;
use vstd::prelude::*;

verus! {

/// A room of three or more walls with no opposite corner resolves exactly
/// when walking its walls brings the cursor back to the origin; otherwise it
/// is not closed.
pub proof fn lemma_closure(room: Room)
    requires
        room.walls@.len() >= 3,
        !has_opposite_turn(room.walls@),
    ensures
        room_error(room) is None <==> cursor(room.walls@, room.walls@.len()) == (0int, 0int),
        cursor(room.walls@, room.walls@.len()) != (0int, 0int) ==> room_error(room) == Some(
            BuildError::RoomNotClosed(room.name),
        ),
{
}

/// A room of one or two walls has too few walls.
pub proof fn lemma_too_few_walls(room: Room)
    requires
        1 <= room.walls@.len() <= 2,
    ensures
        room_error(room) == Some(BuildError::RoomWithoutWalls(room.name, room.walls@.len() as usize)),
{
}

/// Two walls running on in the same direction meet without a mitre.
pub proof fn lemma_straight_run(a: Wall, b: Wall, o: WallOrientation, p: (int, int))
    requires
        a.direction == b.direction,
    ensures
        corner_offset(a, b, o) == (0int, 0int),
        corner(p, a, b, o) == p,
{
}

/// A room of three or more walls in which two consecutive walls run in
/// opposite directions is rejected for it.
pub proof fn lemma_opposite_walls_rejected(room: Room, i: int)
    requires
        room.walls@.len() >= 3,
        0 <= i < room.walls@.len(),
        opposite_turn(room.walls@, i),
    ensures
        room_error(room) matches Some(BuildError::OppositeDirectionWalls(_, _)),
{
    assert(has_opposite_turn(room.walls@));
}

/// Two connected walls that do not run in opposite directions cannot be
/// glued, and fail the final check of their connection.
pub proof fn lemma_unconnectable_walls(rooms: Seq<output_desc::Room>, c: RoomConnection)
    requires
        has_room(rooms, c.room1.name@),
        has_room(rooms, c.room2.name@),
        index_ok(rooms[room_of(rooms, c.room1.name@)], c.room1.wall_index),
        index_ok(rooms[room_of(rooms, c.room2.name@)], c.room2.wall_index),
        !opposite(
            wall_of(rooms[room_of(rooms, c.room1.name@)], c.room1.wall_index).direction,
            wall_of(rooms[room_of(rooms, c.room2.name@)], c.room2.wall_index).direction,
        ),
    ensures
        link_error(rooms, c.room1, c.room2) == Some(
            BuildError::WallsCannotConnect(
                rooms[room_of(rooms, c.room1.name@)].name,
                c.room1.wall_index,
                rooms[room_of(rooms, c.room2.name@)].name,
                c.room2.wall_index,
            ),
        ),
        check_connection(rooms, c) is Some,
{
}

/// Switching the winding from clockwise to counter-clockwise negates every
/// corner offset.
pub proof fn lemma_orientation_flip(a: Wall, b: Wall)
    ensures
        corner_offset(a, b, WallOrientation::CCW) == (
            -corner_offset(a, b, WallOrientation::CW).0,
            -corner_offset(a, b, WallOrientation::CW).1,
        ),
{
}

/// A room resolved clockwise and counter-clockwise: each wall's ends lie on
/// opposite sides of the same centre-line points, and the walls keep their
/// lengths and thicknesses.
pub proof fn lemma_room_orientation_flip(room: Room, cw: output_desc::Room, ccw: output_desc::Room)
    requires
        resolved_room(cw, room, WallOrientation::CW),
        resolved_room(ccw, room, WallOrientation::CCW),
    ensures
        ccw.walls@.len() == cw.walls@.len(),
        forall|i: int|
            0 <= i < cw.walls@.len() ==> {
                let p = cursor(room.walls@, i as nat);
                let q = cursor(room.walls@, (i + 1) as nat);
                &&& (#[trigger] ccw.walls@[i]).start@.0 - p.0 == -(cw.walls@[i].start@.0 - p.0)
                &&& ccw.walls@[i].start@.1 - p.1 == -(cw.walls@[i].start@.1 - p.1)
                &&& ccw.walls@[i].end@.0 - q.0 == -(cw.walls@[i].end@.0 - q.0)
                &&& ccw.walls@[i].end@.1 - q.1 == -(cw.walls@[i].end@.1 - q.1)
                &&& ccw.walls@[i].length == cw.walls@[i].length
                &&& ccw.walls@[i].thickness == cw.walls@[i].thickness
            },
{
    assert forall|i: int| 0 <= i < cw.walls@.len() implies {
        let p = cursor(room.walls@, i as nat);
        let q = cursor(room.walls@, (i + 1) as nat);
        &&& (#[trigger] ccw.walls@[i]).start@.0 - p.0 == -(cw.walls@[i].start@.0 - p.0)
        &&& ccw.walls@[i].start@.1 - p.1 == -(cw.walls@[i].start@.1 - p.1)
        &&& ccw.walls@[i].end@.0 - q.0 == -(cw.walls@[i].end@.0 - q.0)
        &&& ccw.walls@[i].end@.1 - q.1 == -(cw.walls@[i].end@.1 - q.1)
        &&& ccw.walls@[i].length == cw.walls@[i].length
        &&& ccw.walls@[i].thickness == cw.walls@[i].thickness
    } by {
        assert(crate::builder::resolved_wall(cw.walls@[i], room.walls@, i, WallOrientation::CW));
        assert(crate::builder::resolved_wall(ccw.walls@[i], room.walls@, i, WallOrientation::CCW));
    }
}

/// In placed rooms where connection `c` holds, the room of its second end is
/// moved from the room of its first end by the connection's delta.
pub proof fn lemma_connection_offset(
    local: Seq<output_desc::Room>,
    placed: Seq<output_desc::Room>,
    offs: Seq<(int, int)>,
    c: RoomConnection,
    i: int,
    j: int,
)
    requires
        placement(local, placed, offs),
        check_connection(placed, c) is None,
        names_room(local, c.room1.name@, i),
        names_room(local, c.room2.name@, j),
    ensures
        offs[j] == (
            offs[i].0 + link_delta(local, c.room1, c.room2, c.conn_type).0,
            offs[i].1 + link_delta(local, c.room1, c.room2, c.conn_type).1,
        ),
{
    lemma_room_of_unique(local, c.room1.name@, i);
    lemma_room_of_unique(local, c.room2.name@, j);
    assert(names_room(placed, c.room1.name@, i) && names_room(placed, c.room2.name@, j)) by {
        assert forall|q: int| 0 <= q < i implies (#[trigger] placed[q]).name@ != c.room1.name@ by {
            assert(placed[q].name == local[q].name);
        }
        assert forall|q: int| 0 <= q < j implies (#[trigger] placed[q]).name@ != c.room2.name@ by {
            assert(placed[q].name == local[q].name);
            assert(local[q].name@ != c.room2.name@);
        }
        assert(placed[i].name == local[i].name);
        assert(placed[j].name == local[j].name);
    }
    lemma_room_of_unique(placed, c.room1.name@, i);
    lemma_room_of_unique(placed, c.room2.name@, j);
    let k1 = (c.room1.wall_index - 1) as int;
    let k2 = (c.room2.wall_index - 1) as int;
    assert(crate::connection::shifted(placed[i].walls@[k1], local[i].walls@[k1], offs[i]));
    assert(crate::connection::shifted(placed[j].walls@[k2], local[j].walls@[k2], offs[j]));
}

/// In a chain of rooms A, B, C, with one connection from A to B and one from
/// B to C holding in the placed rooms, C is moved from A by the sum of the two
/// connections' deltas.
pub proof fn lemma_offsets_compose(
    local: Seq<output_desc::Room>,
    placed: Seq<output_desc::Room>,
    offs: Seq<(int, int)>,
    ab: RoomConnection,
    bc: RoomConnection,
    a: int,
    b: int,
    c: int,
)
    requires
        placement(local, placed, offs),
        check_connection(placed, ab) is None,
        check_connection(placed, bc) is None,
        names_room(local, ab.room1.name@, a),
        names_room(local, ab.room2.name@, b),
        names_room(local, bc.room1.name@, b),
        names_room(local, bc.room2.name@, c),
    ensures
        offs[c] == (
            offs[a].0 + link_delta(local, ab.room1, ab.room2, ab.conn_type).0 + link_delta(
                local,
                bc.room1,
                bc.room2,
                bc.conn_type,
            ).0,
            offs[a].1 + link_delta(local, ab.room1, ab.room2, ab.conn_type).1 + link_delta(
                local,
                bc.room1,
                bc.room2,
                bc.conn_type,
            ).1,
        ),
{
    lemma_connection_offset(local, placed, offs, ab, a, b);
    lemma_connection_offset(local, placed, offs, bc, b, c);
}

/// Three rooms with distinct names and one good connection, between the
/// first two: the third is reported, alone, as not connected.
pub proof fn lemma_isolated_room(
    rooms: Seq<output_desc::Room>,
    conns: Seq<RoomConnection>,
    r: Result<Seq<output_desc::Room>, BuildError>,
)
    requires
        rooms.len() == 3,
        rooms[0].name@ != rooms[1].name@,
        rooms[0].name@ != rooms[2].name@,
        rooms[1].name@ != rooms[2].name@,
        conns.len() == 1,
        links(rooms, conns[0], 0, 1),
        link_ok(rooms, conns[0]),
        placement_result(rooms, conns, r),
    ensures
        r matches Err(BuildError::RoomsNotConnected(ns)) && ns@ == seq![rooms[2].name],
{
    let two = set![0int, 1int];
    assert(closed(rooms, conns, two)) by {
        assert forall|k: int, i: int, j: int|
            0 <= k < conns.len() && #[trigger] links(rooms, conns[k], i, j) && two.contains(i)
                implies two.contains(j) by {
            assert(k == 0);
            if j == 2 {
                assert(names_room(rooms, conns[0].room1.name@, j) || names_room(rooms, conns[0].room2.name@, j));
            }
        }
    }
    let rs = reach(rooms, conns);
    assert(rs =~= two) by {
        assert forall|i: int| rs.contains(i) implies two.contains(i) by {
            assert(closed(rooms, conns, two) && two.contains(0));
        }
        assert forall|i: int| two.contains(i) implies rs.contains(i) by {
            assert forall|s: Set<int>| #[trigger] closed(rooms, conns, s) && s.contains(0) implies s.contains(i) by {
                assert(links(rooms, conns[0], 0, 1));
            }
        }
    }
    assert(!connected(rooms, conns)) by {
        assert(!rs.contains(2));
    }
    assert(crate::connection::all_links_ok(rooms, conns));
    assert(names_outside(rooms, two, 3) =~= seq![rooms[2].name]) by {
        reveal_with_fuel(names_outside, 4);
    }
}

/// A set of connections that no placement of the rooms satisfies (say a
/// cycle whose walls do not meet all round) fails the build, however the
/// connections used to place the rooms turned out.
pub proof fn lemma_inconsistent_connections_fail(
    local: Seq<output_desc::Room>,
    conns: Seq<RoomConnection>,
    r: Result<Seq<output_desc::Room>, BuildError>,
)
    requires
        placement_result(local, conns, r),
        !exists|placed: Seq<output_desc::Room>, offs: Seq<(int, int)>|
            placement(local, placed, offs) && checks_outcome(placed, conns, None),
    ensures
        r is Err,
{
    if r is Ok {
        let offs = choose|offs: Seq<(int, int)>| placement(local, r->Ok_0, offs);
        assert(placement(local, r->Ok_0, offs) && checks_outcome(r->Ok_0, conns, None));
    }
}

} // verus!
