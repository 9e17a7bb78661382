use befreak::direction::Direction;

const ALL: [Direction; 4] = [
    Direction::North,
    Direction::East,
    Direction::South,
    Direction::West,
];

#[test]
fn opposite_is_involution() {
    for d in ALL {
        assert_eq!(d.opposite().opposite(), d);
    }
}

#[test]
fn left_then_right_is_identity() {
    for d in ALL {
        assert_eq!(d.left().right(), d);
        assert_eq!(d.right().left(), d);
    }
}

#[test]
fn mirror_is_involution() {
    for d in ALL {
        assert_eq!(d.mirror().mirror(), d);
    }
}

#[test]
fn right_is_left_opposite() {
    for d in ALL {
        assert_eq!(d.right(), d.left().opposite());
    }
}

#[test]
fn direction_tables() {
    assert_eq!(Direction::North.opposite(), Direction::South);
    assert_eq!(Direction::East.opposite(), Direction::West);
    assert_eq!(Direction::North.mirror(), Direction::West);
    assert_eq!(Direction::East.mirror(), Direction::South);
    assert_eq!(Direction::South.mirror(), Direction::East);
    assert_eq!(Direction::West.mirror(), Direction::North);
    assert_eq!(Direction::East.left(), Direction::North);
    assert_eq!(Direction::East.right(), Direction::South);
}
