use battleship_core::Direction;
use battleship_core::GameState;
use battleship_core::HitType;
use battleship_core::Position;
use battleship_core::RoundCommit;
use battleship_core::RoundInput;
use battleship_core::Ship;
use battleship_core::ShipClass;
use battleship_core::init_program;
use battleship_core::round_program;
use battleship_core::verify_round;

fn ship(class: ShipClass, xy: (u32, u32), dir: Direction) -> Ship {
    Ship::new(class, Position::from(xy), dir)
}

fn example_state(pepper: [u8; 16]) -> GameState {
    GameState {
        ships: vec![
            ship(ShipClass::Carrier, (2, 3), Direction::Vertical),
            ship(ShipClass::Battleship, (3, 1), Direction::Horizontal),
            ship(ShipClass::Cruiser, (4, 7), Direction::Vertical),
            ship(ShipClass::Submarine, (7, 5), Direction::Horizontal),
            ship(ShipClass::Destroyer, (7, 7), Direction::Horizontal),
        ],
        pepper,
    }
}

// Run the round program once and confirm the state evolves as expected.
fn run_round(state: &mut GameState, shot: Position, hit_expected: HitType) {
    let input = RoundInput {
        state: state.clone(),
        shot,
    };
    let input_state_commit = state.commit();
    let (round_commit, output) = round_program(input).unwrap();
    assert_eq!(state.apply_shot(shot), hit_expected);
    assert_eq!(output.state, *state);
    let expected = RoundCommit {
        shot,
        hit: hit_expected,
        old_state: input_state_commit,
        new_state: state.commit(),
    };
    assert_eq!(expected, round_commit);
}

#[test]
fn exmaple_game() {
    // Board
    //  | 0 1 2 3 4 5 6 7 8 9 |
    // 0|                     |
    // 1|       B B B B       |
    // 2|                     |
    // 3|     A               |
    // 4|     A               |
    // 5|     A         S S S |
    // 6|     A               |
    // 7|     A   C     D D   |
    // 8|         C           |
    // 9|         C           |
    let mut state = example_state(rand::random());

    // Run the init program to create a commitment to a state with verified
    // validity.
    assert_eq!(state.commit(), init_program(&state).unwrap());

    // Example player takes their first shot and misses.
    run_round(&mut state, Position { x: 1, y: 1 }, HitType::Miss);

    // Example player hits the carrier and then finds the rest of the ship.
    run_round(&mut state, Position { x: 2, y: 5 }, HitType::Hit);
    run_round(&mut state, Position { x: 3, y: 5 }, HitType::Miss);
    run_round(&mut state, Position { x: 2, y: 6 }, HitType::Hit);
    run_round(&mut state, Position { x: 2, y: 7 }, HitType::Hit);
    run_round(&mut state, Position { x: 2, y: 8 }, HitType::Miss);
    run_round(&mut state, Position { x: 2, y: 4 }, HitType::Hit);
    run_round(
        &mut state,
        Position { x: 2, y: 3 },
        HitType::Sunk(ShipClass::Carrier),
    );

    // Example player finds and sinks the cruiser.
    run_round(&mut state, Position { x: 4, y: 9 }, HitType::Hit);
    run_round(&mut state, Position { x: 4, y: 8 }, HitType::Hit);
    run_round(
        &mut state,
        Position { x: 4, y: 7 },
        HitType::Sunk(ShipClass::Cruiser),
    );

    // Example player finds and sinks the destroyer.
    run_round(&mut state, Position { x: 7, y: 2 }, HitType::Miss);
    run_round(&mut state, Position { x: 7, y: 7 }, HitType::Hit);
    run_round(&mut state, Position { x: 6, y: 7 }, HitType::Miss);
    run_round(
        &mut state,
        Position { x: 8, y: 7 },
        HitType::Sunk(ShipClass::Destroyer),
    );

    // Example player finds and sinks the submarine.
    run_round(&mut state, Position { x: 8, y: 5 }, HitType::Hit);
    run_round(&mut state, Position { x: 7, y: 5 }, HitType::Hit);
    run_round(
        &mut state,
        Position { x: 9, y: 5 },
        HitType::Sunk(ShipClass::Submarine),
    );

    // Example player finds and sinks the battleship.
    run_round(&mut state, Position { x: 3, y: 1 }, HitType::Hit);
    run_round(&mut state, Position { x: 4, y: 1 }, HitType::Hit);
    run_round(&mut state, Position { x: 5, y: 1 }, HitType::Hit);
    run_round(
        &mut state,
        Position { x: 6, y: 1 },
        HitType::Sunk(ShipClass::Battleship),
    );
}

#[test]
fn init_program_refuses_illegal_boards() {
    let pepper: [u8; 16] = rand::random();
    assert!(init_program(&example_state(pepper)).is_some());

    let mut overlapping = example_state(pepper);
    overlapping.ships[2] = ship(ShipClass::Cruiser, (2, 3), Direction::Vertical);
    assert!(init_program(&overlapping).is_none());

    let empty = GameState::new(pepper);
    assert!(init_program(&empty).is_none());
}

#[test]
fn commitment_is_deterministic_and_separates_states() {
    let pepper: [u8; 16] = rand::random();
    let state = example_state(pepper);

    // Repeated commitments to an unmutated state agree.
    assert_eq!(state.commit(), state.commit());

    // A different hit mask on otherwise identical ships changes the digest.
    let mut hit = example_state(pepper);
    hit.ships[1] = hit.ships[1].with_hit_mask(0x02);
    assert_ne!(state.commit(), hit.commit());

    // Identical ships under a different pepper change the digest, even
    // though the encoded bytes agree on everything before the pepper.
    let mut other_pepper = pepper;
    other_pepper[15] = other_pepper[15].wrapping_add(1);
    assert_ne!(state.commit(), example_state(other_pepper).commit());

    // The digest follows the canonical encoding: equal encodings, equal
    // digests; here the encodings differ.
    assert_ne!(state.encode(), hit.encode());
    assert_eq!(state.encode(), example_state(pepper).encode());
}

#[test]
fn shots_are_idempotent() {
    let mut once = example_state(rand::random());
    let shot = Position { x: 4, y: 1 };
    let first = once.apply_shot(shot);
    let after_first = once.clone();
    let second = once.apply_shot(shot);
    assert_eq!(first, second);
    assert_eq!(once, after_first);
    assert_eq!(first, HitType::Hit);
}

#[test]
fn verifier_chains_round_commits() {
    let mut state = example_state(rand::random());
    let mut trusted = init_program(&state).unwrap();

    let shots = [
        Position { x: 1, y: 1 },
        Position { x: 3, y: 1 },
        Position { x: 4, y: 1 },
        Position { x: 5, y: 1 },
        Position { x: 6, y: 1 },
    ];
    let mut previous: Option<RoundCommit> = None;
    for shot in shots {
        let input = RoundInput {
            state: state.clone(),
            shot,
        };
        let (round_commit, output) = round_program(input).unwrap();
        if let Some(prev) = previous {
            // The trusted digest after round i is the old digest of round
            // i + 1.
            assert_eq!(prev.new_state, round_commit.old_state);
        }
        trusted = verify_round(&trusted, shot, &round_commit)
            .expect("an honest round must be accepted");
        assert_eq!(trusted, round_commit.new_state);
        state = output.state;
        previous = Some(round_commit);
    }
    assert_eq!(
        previous.unwrap().hit,
        HitType::Sunk(ShipClass::Battleship)
    );
}

#[test]
fn round_program_refuses_degenerate_coordinates() {
    // A bow so far off the board that stepping along the span would leave
    // u32: the one input the round program refuses.
    let mut state = example_state(rand::random());
    state.ships[0] = Ship::new(
        ShipClass::Carrier,
        Position { x: u32::MAX, y: 0 },
        Direction::Horizontal,
    );
    let shot = Position { x: 0, y: 0 };
    assert!(round_program(RoundInput { state, shot }).is_none());
}

#[test]
fn encoding_has_the_canonical_layout() {
    let pepper = [7u8; 16];

    // An empty board: a zero ship count, then the pepper.
    let empty = GameState::new(pepper);
    let mut expected = vec![0u8; 8];
    expected.extend_from_slice(&[7u8; 16]);
    assert_eq!(empty.encode(), expected);

    // One ship: count 1, then class tag, bow x and y little-endian,
    // direction tag and hit mask, then the pepper.
    let one = GameState {
        ships: vec![ship(ShipClass::Cruiser, (2, 3), Direction::Vertical).with_hit_mask(0x05)],
        pepper,
    };
    let mut expected = vec![1u8, 0, 0, 0, 0, 0, 0, 0];
    expected.extend_from_slice(&[2, 2, 0, 0, 0, 3, 0, 0, 0, 1, 0x05]);
    expected.extend_from_slice(&[7u8; 16]);
    assert_eq!(one.encode(), expected);
}

#[test]
fn verifier_refuses_mismatched_rounds() {
    let state = example_state(rand::random());
    let trusted = init_program(&state).unwrap();
    let shot = Position { x: 1, y: 1 };
    let (round_commit, _) = round_program(RoundInput {
        state: state.clone(),
        shot,
    })
    .unwrap();

    // An honest record is accepted.
    assert!(verify_round(&trusted, shot, &round_commit).is_some());

    // A record echoing the wrong shot is refused.
    assert!(verify_round(&trusted, Position { x: 2, y: 2 }, &round_commit).is_none());

    // A record chaining from the wrong digest is refused.
    let unrelated = GameState::random().commit();
    if unrelated != trusted {
        assert!(verify_round(&unrelated, shot, &round_commit).is_none());
    }
}
