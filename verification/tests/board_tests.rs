use battleship_core::Direction;
use battleship_core::GameState;
use battleship_core::HitType;
use battleship_core::Position;
use battleship_core::Ship;
use battleship_core::ShipClass;

fn ship(class: ShipClass, xy: (u32, u32), dir: Direction) -> Ship {
    Ship::new(class, Position::from(xy), dir)
}

#[test]
fn basic() {
    // Board
    //  | 0 1 2 3 4 5 6 7 8 9 |
    // 0|                     |
    // 1|       BBBB          |
    // 2|                     |
    // 3|     A               |
    // 4|     A               |
    // 5|     A         DDD   |
    // 6|     A               |
    // 7|     A   C     EE    |
    // 8|         C           |
    // 9|         C           |
    let state = GameState {
        ships: vec![
            ship(ShipClass::Carrier, (2, 3), Direction::Vertical),
            ship(ShipClass::Battleship, (3, 1), Direction::Horizontal),
            ship(ShipClass::Cruiser, (4, 7), Direction::Vertical),
            ship(ShipClass::Submarine, (7, 5), Direction::Horizontal),
            ship(ShipClass::Destroyer, (7, 7), Direction::Horizontal),
        ],
        pepper: rand::random(),
    };

    assert!(state.check());
}

#[test]
fn overlap() {
    // Board
    //  | 0 1 2 3 4 5 6 7 8 9 |
    // 0|                     |
    // 1|       BBBB          |
    // 2|     C               |
    // 3|     *               |
    // 4|     *               |
    // 5|     A         DDD   |
    // 6|     A               |
    // 7|     A         EE    |
    // 8|                     |
    // 9|                     |
    let state = GameState {
        ships: vec![
            ship(ShipClass::Carrier, (2, 3), Direction::Vertical),
            ship(ShipClass::Battleship, (3, 1), Direction::Horizontal),
            ship(ShipClass::Cruiser, (2, 3), Direction::Vertical),
            ship(ShipClass::Submarine, (7, 5), Direction::Horizontal),
            ship(ShipClass::Destroyer, (7, 7), Direction::Horizontal),
        ],
        pepper: rand::random(),
    };

    assert!(!state.check());
}

#[test]
fn rounds() {
    // Board
    //  | 0 1 2 3 4 5 6 7 8 9 |
    // 0|                     |
    // 1|       B B B B       |
    // 2|                     |
    // 3|     A               |
    // 4|     A               |
    // 5|     A         D D D |
    // 6|     A               |
    // 7|     A   C     E E   |
    // 8|         C           |
    // 9|         C           |

    let pepper: [u8; 16] = rand::random();
    let mut state = GameState {
        ships: vec![
            ship(ShipClass::Carrier, (2, 3), Direction::Vertical),
            ship(ShipClass::Battleship, (3, 1), Direction::Horizontal),
            ship(ShipClass::Cruiser, (4, 7), Direction::Vertical),
            ship(ShipClass::Submarine, (7, 5), Direction::Horizontal),
            ship(ShipClass::Destroyer, (7, 7), Direction::Horizontal),
        ],
        pepper,
    };

    // Round 1
    let expected_state = state.clone();
    assert_eq!(state.apply_shot(Position::from((1, 1))), HitType::Miss);
    assert_eq!(state, expected_state, "round 1 should not change state");

    // Round 2
    let expected_state = GameState {
        ships: vec![
            ship(ShipClass::Carrier, (2, 3), Direction::Vertical),
            ship(ShipClass::Battleship, (3, 1), Direction::Horizontal).with_hit_mask(0x02),
            ship(ShipClass::Cruiser, (4, 7), Direction::Vertical),
            ship(ShipClass::Submarine, (7, 5), Direction::Horizontal),
            ship(ShipClass::Destroyer, (7, 7), Direction::Horizontal),
        ],
        pepper,
    };
    assert_eq!(state.apply_shot(Position::from((4, 1))), HitType::Hit);
    assert_eq!(state, expected_state, "round 2 does not match expected");

    // Round 3
    // Duplicate hit results in no state change
    let expected_state = state.clone();
    assert_eq!(state.apply_shot(Position::from((4, 1))), HitType::Hit);
    assert_eq!(state, expected_state, "round 3 does not match expected");

    // Round 4
    let expected_state = GameState {
        ships: vec![
            ship(ShipClass::Carrier, (2, 3), Direction::Vertical),
            ship(ShipClass::Battleship, (3, 1), Direction::Horizontal).with_hit_mask(0x03),
            ship(ShipClass::Cruiser, (4, 7), Direction::Vertical),
            ship(ShipClass::Submarine, (7, 5), Direction::Horizontal),
            ship(ShipClass::Destroyer, (7, 7), Direction::Horizontal),
        ],
        pepper,
    };
    assert_eq!(state.apply_shot(Position::from((3, 1))), HitType::Hit);
    assert_eq!(state, expected_state, "round 4 does not match expected");

    // Round 5
    let expected_state = GameState {
        ships: vec![
            ship(ShipClass::Carrier, (2, 3), Direction::Vertical),
            ship(ShipClass::Battleship, (3, 1), Direction::Horizontal).with_hit_mask(0x0b),
            ship(ShipClass::Cruiser, (4, 7), Direction::Vertical),
            ship(ShipClass::Submarine, (7, 5), Direction::Horizontal),
            ship(ShipClass::Destroyer, (7, 7), Direction::Horizontal),
        ],
        pepper,
    };
    assert_eq!(state.apply_shot(Position::from((6, 1))), HitType::Hit);
    assert_eq!(state, expected_state, "round 5 does not match expected");

    // Round 6
    let expected_state = GameState {
        ships: vec![
            ship(ShipClass::Carrier, (2, 3), Direction::Vertical),
            ship(ShipClass::Battleship, (3, 1), Direction::Horizontal).with_hit_mask(0x0f),
            ship(ShipClass::Cruiser, (4, 7), Direction::Vertical),
            ship(ShipClass::Submarine, (7, 5), Direction::Horizontal),
            ship(ShipClass::Destroyer, (7, 7), Direction::Horizontal),
        ],
        pepper,
    };
    assert_eq!(
        state.apply_shot(Position::from((5, 1))),
        HitType::Sunk(ShipClass::Battleship)
    );
    assert_eq!(state, expected_state, "round 6 does not match expected");
}

#[test]
fn spans_and_sunk_masks() {
    let cases = [
        (ShipClass::Carrier, 5u32),
        (ShipClass::Battleship, 4),
        (ShipClass::Cruiser, 3),
        (ShipClass::Submarine, 3),
        (ShipClass::Destroyer, 2),
    ];
    for (class, span) in cases {
        assert_eq!(class.span(), span);
        assert!((2..=5).contains(&span));
        assert_eq!(class.sunk_mask(), (1u8 << span) - 1);
    }
}

#[test]
fn class_list_is_all_five() {
    let classes = ShipClass::list();
    assert_eq!(
        classes,
        vec![
            ShipClass::Carrier,
            ShipClass::Battleship,
            ShipClass::Cruiser,
            ShipClass::Submarine,
            ShipClass::Destroyer,
        ]
    );
}

#[test]
fn step_and_flip() {
    let p = Position::from((3, 4));
    assert_eq!(p.step(Direction::Horizontal, 2), Position { x: 5, y: 4 });
    assert_eq!(p.step(Direction::Vertical, 3), Position { x: 3, y: 7 });
    assert_eq!(Direction::Horizontal.flip(), Direction::Vertical);
    assert_eq!(Direction::Vertical.flip(), Direction::Horizontal);
    assert!(Position { x: 9, y: 9 }.in_bounds());
    assert!(!Position { x: 10, y: 0 }.in_bounds());
    assert!(!Position { x: 0, y: 10 }.in_bounds());
}

#[test]
fn ship_points_and_intersection() {
    let cruiser = ship(ShipClass::Cruiser, (4, 7), Direction::Vertical);
    assert_eq!(
        cruiser.points(),
        vec![
            Position { x: 4, y: 7 },
            Position { x: 4, y: 8 },
            Position { x: 4, y: 9 },
        ]
    );
    let crossing = ship(ShipClass::Destroyer, (3, 8), Direction::Horizontal);
    let clear = ship(ShipClass::Destroyer, (5, 7), Direction::Horizontal);
    assert!(cruiser.intersects(&crossing));
    assert!(crossing.intersects(&cruiser));
    assert!(!cruiser.intersects(&clear));
}

#[test]
fn out_of_bounds_rejected() {
    // The destroyer's stern would sit at x = 10, past the board's edge.
    let state = GameState {
        ships: vec![
            ship(ShipClass::Carrier, (2, 3), Direction::Vertical),
            ship(ShipClass::Battleship, (3, 1), Direction::Horizontal),
            ship(ShipClass::Cruiser, (4, 7), Direction::Vertical),
            ship(ShipClass::Submarine, (7, 5), Direction::Horizontal),
            ship(ShipClass::Destroyer, (9, 7), Direction::Horizontal),
        ],
        pepper: rand::random(),
    };
    assert!(!state.check());
    assert!(!ship(ShipClass::Destroyer, (9, 7), Direction::Horizontal).in_bounds());
    assert!(ship(ShipClass::Destroyer, (8, 7), Direction::Horizontal).in_bounds());
}

#[test]
fn incomplete_or_duplicated_fleet_rejected() {
    // Four ships only.
    let state = GameState {
        ships: vec![
            ship(ShipClass::Carrier, (2, 3), Direction::Vertical),
            ship(ShipClass::Battleship, (3, 1), Direction::Horizontal),
            ship(ShipClass::Cruiser, (4, 7), Direction::Vertical),
            ship(ShipClass::Submarine, (7, 5), Direction::Horizontal),
        ],
        pepper: rand::random(),
    };
    assert!(!state.check());

    // Five ships, but two submarines and no destroyer.
    let state = GameState {
        ships: vec![
            ship(ShipClass::Carrier, (2, 3), Direction::Vertical),
            ship(ShipClass::Battleship, (3, 1), Direction::Horizontal),
            ship(ShipClass::Cruiser, (4, 7), Direction::Vertical),
            ship(ShipClass::Submarine, (7, 5), Direction::Horizontal),
            ship(ShipClass::Submarine, (7, 7), Direction::Horizontal),
        ],
        pepper: rand::random(),
    };
    assert!(!state.check());
}

#[test]
fn add_enforces_placement_rules() {
    let mut state = GameState::new(rand::random());
    assert!(state.add(ship(ShipClass::Carrier, (2, 3), Direction::Vertical)));
    // Out of bounds.
    assert!(!state.add(ship(ShipClass::Battleship, (7, 8), Direction::Vertical)));
    // Class already present.
    assert!(!state.add(ship(ShipClass::Carrier, (0, 0), Direction::Horizontal)));
    // Intersects the carrier at (2, 5).
    assert!(!state.add(ship(ShipClass::Battleship, (0, 5), Direction::Horizontal)));
    assert_eq!(state.ships.len(), 1);
    assert!(state.add(ship(ShipClass::Battleship, (3, 1), Direction::Horizontal)));
    assert!(state.add(ship(ShipClass::Cruiser, (4, 7), Direction::Vertical)));
    assert!(state.add(ship(ShipClass::Submarine, (7, 5), Direction::Horizontal)));
    assert!(state.add(ship(ShipClass::Destroyer, (7, 7), Direction::Horizontal)));
    assert!(state.check());
}

#[test]
fn shot_off_every_ship_is_a_miss() {
    let mut state = GameState {
        ships: vec![
            ship(ShipClass::Carrier, (2, 3), Direction::Vertical),
            ship(ShipClass::Battleship, (3, 1), Direction::Horizontal),
            ship(ShipClass::Cruiser, (4, 7), Direction::Vertical),
            ship(ShipClass::Submarine, (7, 5), Direction::Horizontal),
            ship(ShipClass::Destroyer, (7, 7), Direction::Horizontal),
        ],
        pepper: rand::random(),
    };
    let expected = state.clone();
    // Off the board entirely: never a hit.
    assert_eq!(state.apply_shot(Position { x: 40, y: 2 }), HitType::Miss);
    assert_eq!(state, expected);
    assert_eq!(state.apply_shot(Position { x: 0, y: 0 }), HitType::Miss);
    assert_eq!(state, expected);
}

#[test]
fn random_board_is_always_valid() {
    for _ in 0..20 {
        let state = GameState::random();
        assert!(state.check());
        assert_eq!(state.ships.len(), 5);
        for ship in &state.ships {
            assert_eq!(ship.hit_mask, 0);
        }
    }
}
