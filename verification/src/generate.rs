//! Random board generation: a demo convenience, not part of the protocol.
//! The one obligation is that the returned board always passes `check`.

use rand::seq::SliceRandom;
use vstd::prelude::*;

use crate::board::GameState;
use crate::board::ships_valid;
use crate::geometry::BOARD_SIZE;
use crate::geometry::Direction;
use crate::geometry::Position;
use crate::geometry::ShipClass;
use crate::ship::Ship;

verus! {

/// Relies on `rand::random`: sixteen bytes from the thread-local generator.
/// Nothing is promised of the value.
#[verifier::external_body]
fn random_pepper() -> [u8; 16] {
    rand::random()
}

/// Relies on `rand::random`: one draw from the thread-local generator.
/// Nothing is promised of the value.
#[verifier::external_body]
fn random_bool() -> bool {
    rand::random()
}

/// Relies on `rand::seq::SliceRandom::shuffle`: permutes the slice in place,
/// keeping exactly the same elements in some order.
#[verifier::external_body]
fn shuffle_positions(positions: &mut Vec<Position>)
    ensures
        final (positions)@.len() == old(positions)@.len(),
        final (positions)@.to_multiset() == old(positions)@.to_multiset(),
{
    let mut rng = rand::rng();
    positions.shuffle(&mut rng);
}

/// A fixed legal placement, used when greedy random placement fails to seat
/// all five ships (possible, though rare, for an unlucky shuffle).
spec fn fallback_ships() -> Seq<Ship> {
    seq![
        Ship {
            class: ShipClass::Carrier,
            pos: Position { x: 2, y: 3 },
            dir: Direction::Vertical,
            hit_mask: 0,
        },
        Ship {
            class: ShipClass::Battleship,
            pos: Position { x: 3, y: 1 },
            dir: Direction::Horizontal,
            hit_mask: 0,
        },
        Ship {
            class: ShipClass::Cruiser,
            pos: Position { x: 4, y: 7 },
            dir: Direction::Vertical,
            hit_mask: 0,
        },
        Ship {
            class: ShipClass::Submarine,
            pos: Position { x: 7, y: 5 },
            dir: Direction::Horizontal,
            hit_mask: 0,
        },
        Ship {
            class: ShipClass::Destroyer,
            pos: Position { x: 7, y: 7 },
            dir: Direction::Horizontal,
            hit_mask: 0,
        },
    ]
}

proof fn lemma_fallback_valid()
    ensures
        ships_valid(fallback_ships()),
        forall|k: int| 0 <= k < fallback_ships().len() ==> fallback_ships()[k].hit_mask == 0,
{
    let ships = fallback_ships();
    assert(ships.len() == 5);
    assert forall|k: int| 0 <= k < 5 implies (#[trigger] ships[k]).spec_in_bounds() by {
        if k == 0 {
            assert(ships[0].cell(4) == Position { x: 2, y: 7 });
        } else if k == 1 {
            assert(ships[1].cell(3) == Position { x: 6, y: 1 });
        } else if k == 2 {
            assert(ships[2].cell(2) == Position { x: 4, y: 9 });
        } else if k == 3 {
            assert(ships[3].cell(2) == Position { x: 9, y: 5 });
        } else {
            assert(ships[4].cell(1) == Position { x: 8, y: 7 });
        }
    }
    assert forall|k: int, l: int| 0 <= k < l < 5 implies !ships[k].spec_intersects(ships[l]) by {
        assert forall|i: int, j: int|
            0 <= i < ships[k].class.spec_span() && 0 <= j
                < ships[l].class.spec_span() implies ships[k].cell(i) != ships[l].cell(j) by {
            assert(ships[k].cell(i).x == if ships[k].dir == Direction::Horizontal {
                ships[k].pos.x + i
            } else {
                ships[k].pos.x as int
            });
            assert(ships[l].cell(j).x == if ships[l].dir == Direction::Horizontal {
                ships[l].pos.x + j
            } else {
                ships[l].pos.x as int
            });
        }
    }
}

fn fallback_state(pepper: [u8; 16]) -> (r: GameState)
    ensures
        r.ships@ == fallback_ships(),
        r.pepper == pepper,
{
    let mut ships: Vec<Ship> = Vec::new();
    ships.push(Ship::new(ShipClass::Carrier, Position { x: 2, y: 3 }, Direction::Vertical));
    ships.push(Ship::new(ShipClass::Battleship, Position { x: 3, y: 1 }, Direction::Horizontal));
    ships.push(Ship::new(ShipClass::Cruiser, Position { x: 4, y: 7 }, Direction::Vertical));
    ships.push(Ship::new(ShipClass::Submarine, Position { x: 7, y: 5 }, Direction::Horizontal));
    ships.push(Ship::new(ShipClass::Destroyer, Position { x: 7, y: 7 }, Direction::Horizontal));
    proof {
        assert(ships@ =~= fallback_ships());
    }
    GameState { ships, pepper }
}

impl GameState {
    /// A random board that always passes `check`, with no hits recorded:
    /// greedy placement of each class, largest first, over a shuffled list
    /// of every cell, trying both orientations at each cell; a fixed legal
    /// placement stands in when the shuffle defeats greedy placement.
    pub fn random() -> (r: GameState)
        ensures
            r.spec_check(),
            forall|k: int| 0 <= k < r.ships@.len() ==> (#[trigger] r.ships@[k]).hit_mask == 0,
    {
        let mut positions: Vec<Position> = Vec::new();
        let mut x: u32 = 0;
        while x < BOARD_SIZE as u32
            decreases BOARD_SIZE as u32 - x,
        {
            let mut y: u32 = 0;
            while y < BOARD_SIZE as u32
                decreases BOARD_SIZE as u32 - y,
            {
                positions.push(Position { x, y });
                y = y + 1;
            }
            x = x + 1;
        }
        shuffle_positions(&mut positions);

        let mut state = GameState::new(random_pepper());
        let classes = ShipClass::list();
        let mut ci: usize = 0;
        while ci < classes.len()
            invariant
                state.wf(),
                forall|k: int|
                    0 <= k < state.ships@.len() ==> (#[trigger] state.ships@[k]).hit_mask == 0,
            decreases classes@.len() - ci,
        {
            let class = classes[ci];
            let mut pi: usize = 0;
            let mut placed = false;
            while !placed && pi < positions.len()
                invariant
                    state.wf(),
                    forall|k: int|
                        0 <= k < state.ships@.len() ==> (#[trigger] state.ships@[k]).hit_mask
                            == 0,
                    pi <= positions@.len(),
                decreases positions@.len() - pi,
            {
                let pos = positions[pi];
                let dir = if random_bool() {
                    Direction::Horizontal
                } else {
                    Direction::Vertical
                };
                if state.add(Ship::new(class, pos, dir)) {
                    placed = true;
                } else if state.add(Ship::new(class, pos, dir.flip())) {
                    placed = true;
                }
                pi = pi + 1;
            }
            ci = ci + 1;
        }

        if state.check() {
            state
        } else {
            proof {
                lemma_fallback_valid();
            }
            fallback_state(random_pepper())
        }
    }
}

} // verus!
