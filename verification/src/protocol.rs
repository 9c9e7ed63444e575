//! The round protocol: the two programs an outside proof subsystem runs over
//! a party's private board, and the verifier step that chains their public
//! records digest by digest.

use vstd::prelude::*;

use crate::board::GameState;
use crate::board::all_fit;
use crate::board::ships_after_shot;
use crate::commitment::Digest;
use crate::commitment::digest_of;
use crate::encoding::state_bytes;
use crate::geometry::Position;
use crate::ship::HitType;

verus! {

/// The private input to one round: the owner's board and the opponent's shot.
#[derive(Clone, Debug)]
pub struct RoundInput {
    pub state: GameState,
    pub shot: Position,
}

/// The owner-side result of one round: the board after the shot, and the
/// outcome to report.
#[derive(Clone, Debug, PartialEq)]
pub struct RoundOutput {
    pub state: GameState,
    pub hit: HitType,
}

/// The public record of one round, and the only information a round ever
/// discloses: the digests before and after, the shot, and the outcome.
#[derive(Copy, Clone, Debug, PartialEq)]
pub struct RoundCommit {
    pub old_state: Digest,
    pub new_state: Digest,
    pub shot: Position,
    pub hit: HitType,
}

/// What the verifier step accepts: the record must chain from the digest the
/// verifier currently trusts and must echo the shot that was requested.
pub open spec fn round_accepted(trusted: Seq<u8>, requested_shot: Position, rc: RoundCommit) -> bool {
    rc.old_state.bytes@ == trusted && rc.shot == requested_shot
}

/// The Init program: commit to a legal board, refuse an illegal one. This is
/// the sole gate that keeps an illegal board out of the protocol.
pub fn init_program(state: &GameState) -> (r: Option<Digest>)
    ensures
        match r {
            Some(d) => state.spec_check() && d.bytes@ == digest_of(
                state_bytes(state.ships@, state.pepper@),
            ),
            None => !state.spec_check(),
        },
{
    if state.check() {
        Some(state.commit())
    } else {
        None
    }
}

/// The Round program: commit to the board, apply the shot, commit to the
/// board again, and publish the record that links the two digests. Refused
/// only for a degenerate board whose coordinate arithmetic would leave
/// `u32`; every shot against a sound board is well-defined.
pub fn round_program(input: RoundInput) -> (r: Option<(RoundCommit, RoundOutput)>)
    ensures
        match r {
            Some((rc, out)) => {
                &&& all_fit(input.state.ships@)
                &&& out.state.ships@ == ships_after_shot(input.state.ships@, input.shot).0
                &&& out.state.pepper == input.state.pepper
                &&& out.hit == ships_after_shot(input.state.ships@, input.shot).1
                &&& rc.old_state.bytes@ == digest_of(
                    state_bytes(input.state.ships@, input.state.pepper@),
                )
                &&& rc.new_state.bytes@ == digest_of(
                    state_bytes(out.state.ships@, out.state.pepper@),
                )
                &&& rc.shot == input.shot
                &&& rc.hit == out.hit
            },
            None => !all_fit(input.state.ships@),
        },
{
    let RoundInput { mut state, shot } = input;
    if !state.check_fits() {
        return None;
    }
    let old_commit = state.commit();
    let hit = state.apply_shot(shot);
    let new_commit = state.commit();
    let rc = RoundCommit { old_state: old_commit, new_state: new_commit, shot, hit };
    Some((rc, RoundOutput { state, hit }))
}

/// One verifier step: accept the round record iff it chains from the digest
/// trusted so far and echoes the requested shot, and then trust the record's
/// new digest. A refusal is a protocol violation by the opponent, not a
/// recoverable error.
pub fn verify_round(trusted: &Digest, requested_shot: Position, rc: &RoundCommit) -> (r: Option<
    Digest,
>)
    ensures
        match r {
            Some(t) => round_accepted(trusted.bytes@, requested_shot, *rc) && t.bytes@
                == rc.new_state.bytes@,
            None => !round_accepted(trusted.bytes@, requested_shot, *rc),
        },
{
    if !(rc.old_state == *trusted) {
        return None;
    }
    if !(rc.shot == requested_shot) {
        return None;
    }
    Some(rc.new_state)
}

/// Accepted rounds chain: when one accepted record's new digest is what the
/// verifier trusts for the next accepted record, that record's old digest
/// equals the previous record's new digest.
pub proof fn lemma_round_chain(
    trusted: Seq<u8>,
    shot1: Position,
    rc1: RoundCommit,
    shot2: Position,
    rc2: RoundCommit,
)
    requires
        round_accepted(trusted, shot1, rc1),
        round_accepted(rc1.new_state.bytes@, shot2, rc2),
    ensures
        rc2.old_state.bytes@ == rc1.new_state.bytes@,
{
}

} // verus!
