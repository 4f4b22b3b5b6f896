use home_builder::input_desc::{
    ConnectionInfo, ConnectionType, Direction, Home, Room, RoomConnection, Wall, WallOrientation,
};
use home_builder::output_desc::{self, Point};
use home_builder::{build, BuildError};

fn wall(direction: Direction, length: u32, thickness: u32) -> Wall {
    Wall { direction, length, thickness }
}

/// A 40 by 30 rectangle walked clockwise from its top-left corner, walls 2 units thick.
fn rect(name: &str) -> Room {
    Room {
        name: name.to_string(),
        walls: vec![
            wall(Direction::Right, 40, 2),
            wall(Direction::Down, 30, 2),
            wall(Direction::Left, 40, 2),
            wall(Direction::Up, 30, 2),
        ],
    }
}

fn conn(n1: &str, i1: usize, n2: &str, i2: usize, conn_type: ConnectionType) -> RoomConnection {
    RoomConnection {
        room1: ConnectionInfo { name: n1.to_string(), wall_index: i1 },
        room2: ConnectionInfo { name: n2.to_string(), wall_index: i2 },
        conn_type,
    }
}

fn home(rooms: Vec<Room>, connections: Vec<RoomConnection>) -> Home {
    Home { orientation: WallOrientation::CW, rooms, connections }
}

fn pt(x: i64, y: i64) -> Point {
    Point { x, y }
}

fn ends(room: &output_desc::Room) -> Vec<(Point, Point)> {
    room.walls.iter().map(|w| (w.start, w.end)).collect()
}

fn shifted(room: &output_desc::Room, dx: i64, dy: i64) -> Vec<(Point, Point)> {
    room.walls
        .iter()
        .map(|w| (pt(w.start.x + dx, w.start.y + dy), pt(w.end.x + dx, w.end.y + dy)))
        .collect()
}

fn rect_cw() -> Vec<(Point, Point)> {
    vec![
        (pt(-1, -1), pt(41, -1)),
        (pt(41, -1), pt(41, 31)),
        (pt(41, 31), pt(-1, 31)),
        (pt(-1, 31), pt(-1, -1)),
    ]
}

#[test]
fn example_rectangle_room() {
    let out = build(home(vec![rect("A")], vec![])).unwrap();
    assert_eq!(out.rooms.len(), 1);
    assert_eq!(out.rooms[0].name, "A");
    assert_eq!(ends(&out.rooms[0]), rect_cw());
    for w in &out.rooms[0].walls {
        assert_eq!(w.thickness, 2);
    }
    assert_eq!(out.rooms[0].walls[0].length, 40);
    assert_eq!(out.rooms[0].walls[1].direction, Direction::Down);
}

#[test]
fn counter_clockwise_flips_the_mitre() {
    let mut h = home(vec![rect("A")], vec![]);
    h.orientation = WallOrientation::CCW;
    let out = build(h).unwrap();
    assert_eq!(out.orientation, WallOrientation::CCW);
    assert_eq!(
        ends(&out.rooms[0]),
        vec![
            (pt(1, 1), pt(39, 1)),
            (pt(39, 1), pt(39, 29)),
            (pt(39, 29), pt(1, 29)),
            (pt(1, 29), pt(1, 1)),
        ]
    );
}

#[test]
fn odd_thickness_mitre_rounds_down() {
    let room = Room {
        name: "A".to_string(),
        walls: vec![wall(Direction::Right, 10, 3), wall(Direction::Down, 10, 5), wall(Direction::Left, 10, 3), wall(Direction::Up, 10, 5)],
    };
    let out = build(home(vec![room], vec![])).unwrap();
    // Up into Right: (-h1, -h2) with h1 = 5 / 2 and h2 = 3 / 2.
    assert_eq!(out.rooms[0].walls[0].start, pt(-2, -1));
}

#[test]
fn straight_run_has_no_mitre() {
    let room = Room {
        name: "A".to_string(),
        walls: vec![
            wall(Direction::Right, 20, 2),
            wall(Direction::Right, 20, 4),
            wall(Direction::Down, 30, 2),
            wall(Direction::Left, 40, 2),
            wall(Direction::Up, 30, 2),
        ],
    };
    let out = build(home(vec![room], vec![])).unwrap();
    assert_eq!(out.rooms[0].walls[0].end, pt(20, 0));
    assert_eq!(out.rooms[0].walls[1].start, pt(20, 0));
    assert_eq!(out.rooms[0].walls[1].end, pt(41, -2));
}

#[test]
fn too_few_walls() {
    let one = Room { name: "A".to_string(), walls: vec![wall(Direction::Right, 4, 2)] };
    assert_eq!(build(home(vec![one], vec![])).unwrap_err(), BuildError::RoomWithoutWalls("A".to_string(), 1));
    let two = Room { name: "B".to_string(), walls: vec![wall(Direction::Right, 4, 2), wall(Direction::Left, 4, 2)] };
    assert_eq!(build(home(vec![two], vec![])).unwrap_err(), BuildError::RoomWithoutWalls("B".to_string(), 2));
}

#[test]
fn room_not_closed() {
    let room = Room {
        name: "A".to_string(),
        walls: vec![wall(Direction::Right, 40, 2), wall(Direction::Down, 30, 2), wall(Direction::Left, 39, 2), wall(Direction::Up, 30, 2)],
    };
    assert_eq!(build(home(vec![room], vec![])).unwrap_err(), BuildError::RoomNotClosed("A".to_string()));
}

#[test]
fn opposite_consecutive_walls() {
    let room = Room {
        name: "A".to_string(),
        walls: vec![wall(Direction::Right, 4, 2), wall(Direction::Left, 4, 2), wall(Direction::Down, 3, 2), wall(Direction::Up, 3, 2)],
    };
    assert_eq!(
        build(home(vec![room], vec![])).unwrap_err(),
        BuildError::OppositeDirectionWalls(Direction::Right, Direction::Left)
    );
}

#[test]
fn opposite_closing_walls() {
    let room = Room {
        name: "A".to_string(),
        walls: vec![wall(Direction::Left, 4, 2), wall(Direction::Down, 3, 2), wall(Direction::Right, 4, 2)],
    };
    assert_eq!(
        build(home(vec![room], vec![])).unwrap_err(),
        BuildError::OppositeDirectionWalls(Direction::Right, Direction::Left)
    );
}

#[test]
fn first_bad_room_is_reported() {
    let open = Room {
        name: "B".to_string(),
        walls: vec![wall(Direction::Right, 4, 2), wall(Direction::Down, 4, 2), wall(Direction::Left, 3, 2), wall(Direction::Up, 4, 2)],
    };
    let short = Room { name: "C".to_string(), walls: vec![] };
    let h = home(vec![rect("A"), open, short], vec![conn("A", 2, "B", 4, ConnectionType::Coincide)]);
    assert_eq!(build(h).unwrap_err(), BuildError::RoomNotClosed("B".to_string()));
}

#[test]
fn several_rooms_need_connections() {
    assert_eq!(build(home(vec![rect("A"), rect("B")], vec![])).unwrap_err(), BuildError::NoRoomConnections);
}

#[test]
fn single_room_ignores_connections() {
    let h = home(vec![rect("A")], vec![conn("A", 9, "Z", 1, ConnectionType::StartToEnd)]);
    let out = build(h).unwrap();
    assert_eq!(ends(&out.rooms[0]), rect_cw());
}

#[test]
fn two_rooms_coincide() {
    let h = home(vec![rect("A"), rect("B")], vec![conn("A", 2, "B", 4, ConnectionType::Coincide)]);
    let out = build(h).unwrap();
    assert_eq!(ends(&out.rooms[0]), rect_cw());
    let local = build(home(vec![rect("B")], vec![])).unwrap();
    assert_eq!(ends(&out.rooms[1]), shifted(&local.rooms[0], 42, 0));
    assert_eq!(out.rooms[1].name, "B");
}

#[test]
fn two_rooms_end_to_start() {
    let h = home(vec![rect("A"), rect("B")], vec![conn("A", 2, "B", 4, ConnectionType::EndToStart)]);
    let out = build(h).unwrap();
    let local = build(home(vec![rect("B")], vec![])).unwrap();
    assert_eq!(ends(&out.rooms[1]), shifted(&local.rooms[0], 42, 0));
}

#[test]
fn two_rooms_start_to_end_reached_from_second_end() {
    // The placed room is the second end: B's wall end meets A's wall start.
    let h = home(vec![rect("A"), rect("B")], vec![conn("B", 4, "A", 2, ConnectionType::StartToEnd)]);
    let out = build(h).unwrap();
    let local = build(home(vec![rect("B")], vec![])).unwrap();
    assert_eq!(ends(&out.rooms[1]), shifted(&local.rooms[0], 42, 0));
}

#[test]
fn three_room_chain_composes_offsets() {
    let h = home(
        vec![rect("A"), rect("B"), rect("C")],
        vec![conn("A", 2, "B", 4, ConnectionType::Coincide), conn("B", 2, "C", 4, ConnectionType::Coincide)],
    );
    let out = build(h).unwrap();
    let local = build(home(vec![rect("C")], vec![])).unwrap();
    assert_eq!(ends(&out.rooms[2]), shifted(&local.rooms[0], 84, 0));
}

#[test]
fn third_room_not_connected() {
    let h = home(vec![rect("A"), rect("B"), rect("C")], vec![conn("A", 2, "B", 4, ConnectionType::Coincide)]);
    assert_eq!(build(h).unwrap_err(), BuildError::RoomsNotConnected(vec!["C".to_string()]));
}

#[test]
fn anchor_alone_reports_both_others() {
    let h = home(vec![rect("A"), rect("B"), rect("C")], vec![conn("B", 2, "C", 4, ConnectionType::Coincide)]);
    assert_eq!(build(h).unwrap_err(), BuildError::RoomsNotConnected(vec!["B".to_string(), "C".to_string()]));
}

#[test]
fn inconsistent_cycle_fails_final_check() {
    let h = home(
        vec![rect("A"), rect("B"), rect("C")],
        vec![
            conn("A", 2, "B", 4, ConnectionType::Coincide),
            conn("A", 3, "C", 1, ConnectionType::Coincide),
            conn("B", 3, "C", 1, ConnectionType::Coincide),
        ],
    );
    assert_eq!(
        build(h).unwrap_err(),
        BuildError::WallsStartEndNotCoincide("B".to_string(), 3, pt(83, 31), "C".to_string(), 1, pt(41, 31))
    );
}

#[test]
fn consistent_cycle_builds() {
    let h = home(
        vec![rect("A"), rect("B"), rect("C")],
        vec![
            conn("A", 2, "B", 4, ConnectionType::Coincide),
            conn("A", 3, "C", 1, ConnectionType::Coincide),
            conn("C", 2, "B", 4, ConnectionType::StartToEnd),
        ],
    );
    let err = build(h).unwrap_err();
    assert!(matches!(err, BuildError::WallsStartEndNotCoincide(..)));
    let h = home(
        vec![rect("A"), rect("B"), rect("C")],
        vec![
            conn("A", 2, "B", 4, ConnectionType::Coincide),
            conn("A", 3, "C", 1, ConnectionType::Coincide),
            conn("A", 2, "B", 4, ConnectionType::StartToEnd),
        ],
    );
    let out = build(h).unwrap();
    let local = build(home(vec![rect("C")], vec![])).unwrap();
    assert_eq!(ends(&out.rooms[2]), shifted(&local.rooms[0], 0, 32));
}

#[test]
fn wrong_wall_index() {
    let h = home(vec![rect("A"), rect("B")], vec![conn("A", 0, "B", 4, ConnectionType::Coincide)]);
    assert_eq!(build(h).unwrap_err(), BuildError::WrongWallIndex("A".to_string(), 4, 0));
    let h = home(vec![rect("A"), rect("B")], vec![conn("A", 2, "B", 5, ConnectionType::Coincide)]);
    assert_eq!(build(h).unwrap_err(), BuildError::WrongWallIndex("B".to_string(), 4, 5));
}

#[test]
fn unknown_room() {
    let h = home(
        vec![rect("A"), rect("B")],
        vec![conn("A", 2, "B", 4, ConnectionType::Coincide), conn("A", 1, "Z", 1, ConnectionType::Coincide)],
    );
    assert_eq!(build(h).unwrap_err(), BuildError::NoRoom("Z".to_string()));
}

#[test]
fn walls_cannot_connect() {
    let h = home(vec![rect("A"), rect("B")], vec![conn("A", 2, "B", 2, ConnectionType::Coincide)]);
    assert_eq!(build(h).unwrap_err(), BuildError::WallsCannotConnect("A".to_string(), 2, "B".to_string(), 2));
}

#[test]
fn different_thickness() {
    let mut b = rect("B");
    for w in b.walls.iter_mut() {
        w.thickness = 4;
    }
    let h = home(vec![rect("A"), b], vec![conn("A", 2, "B", 4, ConnectionType::Coincide)]);
    assert_eq!(build(h).unwrap_err(), BuildError::DifferentThickness("A".to_string(), 2, "B".to_string(), 4));
}

#[test]
fn defaults() {
    assert_eq!(WallOrientation::default(), WallOrientation::CW);
    assert_eq!(Direction::default(), Direction::Left);
}
