//! Rules engine and commitment protocol for a two-party hidden-information
//! board game played on a 10x10 grid.
//!
//! The crate has three layers:
//! - geometry: positions, directions, ship classes and ship footprints;
//! - board: the secret game state, placement validity and shot resolution;
//! - commitment: a canonical byte encoding of the state, its digest, and the
//!   round protocol records that a counterparty verifies and chains.

mod board;
mod commitment;
mod encoding;
mod generate;
mod geometry;
mod protocol;
mod ship;

pub use board::GameState;
pub use commitment::Digest;
pub use protocol::RoundCommit;
pub use protocol::RoundInput;
pub use protocol::RoundOutput;
pub use protocol::init_program;
pub use protocol::round_program;
pub use protocol::verify_round;
pub use geometry::BOARD_SIZE;
pub use geometry::Direction;
pub use geometry::NUM_SHIPS;
pub use geometry::Position;
pub use geometry::ShipClass;
pub use ship::HitType;
pub use ship::Ship;
