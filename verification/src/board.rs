//! The secret board: a collection of ships plus blinding entropy, with
//! placement-validity checking and shot resolution.

use vstd::prelude::*;

use crate::geometry::NUM_SHIPS;
use crate::geometry::Position;
use crate::ship::HitType;
use crate::ship::Ship;
use crate::ship::lemma_in_bounds_footprint;

verus! {

/// A party's secret board. `pepper` is opaque entropy that makes the board's
/// commitment digest hiding; it never changes once the board is created.
#[derive(Clone, Debug)]
pub struct GameState {
    pub ships: Vec<Ship>,
    pub pepper: [u8; 16],
}

/// Every ship's footprint arithmetic stays within `u32`; implied by every
/// ship being in bounds.
pub open spec fn all_fit(ships: Seq<Ship>) -> bool {
    forall|k: int| 0 <= k < ships.len() ==> (#[trigger] ships[k]).fits()
}

/// A legal configuration: exactly one ship of each class, every ship in
/// bounds, and no two ships sharing a cell.
pub open spec fn ships_valid(ships: Seq<Ship>) -> bool {
    &&& ships.len() == NUM_SHIPS
    &&& forall|k: int| 0 <= k < ships.len() ==> (#[trigger] ships[k]).spec_in_bounds()
    &&& forall|k: int, l: int|
        0 <= k < l < ships.len() ==> ships[k].class != ships[l].class
    &&& forall|k: int, l: int|
        0 <= k < l < ships.len() ==> !ships[k].spec_intersects(ships[l])
}

/// A ship may be added iff it is in bounds, no ship of its class is present,
/// and it does not intersect any present ship.
pub open spec fn can_add(ships: Seq<Ship>, new_ship: Ship) -> bool {
    &&& new_ship.spec_in_bounds()
    &&& forall|k: int| 0 <= k < ships.len() ==> (#[trigger] ships[k]).class != new_ship.class
    &&& forall|k: int|
        0 <= k < ships.len() ==> !(#[trigger] ships[k]).spec_intersects(new_ship)
}

/// The index of the first ship whose footprint covers `p`, or the length of
/// the sequence when no ship does.
pub open spec fn first_hit(ships: Seq<Ship>, p: Position) -> int
    decreases ships.len(),
{
    if ships.len() == 0 {
        0
    } else if ships[0].covers(p) {
        0
    } else {
        1 + first_hit(ships.drop_first(), p)
    }
}

/// The ships after a shot at `p`, and the reported outcome: the first ship
/// covering `p` records the hit; with no such ship the shot is a miss and
/// nothing changes.
pub open spec fn ships_after_shot(ships: Seq<Ship>, p: Position) -> (Seq<Ship>, HitType) {
    let k = first_hit(ships, p);
    if k < ships.len() {
        (ships.update(k, ships[k].after_shot(p)), ships[k].shot_result(p))
    } else {
        (ships, HitType::Miss)
    }
}

pub proof fn lemma_first_hit(ships: Seq<Ship>, p: Position)
    ensures
        0 <= first_hit(ships, p) <= ships.len(),
        first_hit(ships, p) < ships.len() ==> ships[first_hit(ships, p)].covers(p),
        forall|k: int| 0 <= k < first_hit(ships, p) ==> !(#[trigger] ships[k]).covers(p),
    decreases ships.len(),
{
    if ships.len() != 0 && !ships[0].covers(p) {
        lemma_first_hit(ships.drop_first(), p);
        assert forall|k: int| 0 <= k < first_hit(ships, p) implies !(#[trigger] ships[k]).covers(
            p,
        ) by {
            if k > 0 {
                assert(ships.drop_first()[k - 1] == ships[k]);
                assert(!ships.drop_first()[k - 1].covers(p));
            }
        }
    }
}

pub proof fn lemma_first_hit_is(ships: Seq<Ship>, p: Position, k: int)
    requires
        0 <= k < ships.len(),
        ships[k].covers(p),
        forall|j: int| 0 <= j < k ==> !(#[trigger] ships[j]).covers(p),
    ensures
        first_hit(ships, p) == k,
    decreases ships.len(),
{
    if k > 0 {
        assert(!ships[0].covers(p));
        assert(ships.drop_first()[k - 1] == ships[k]);
        assert(forall|j: int|
            0 <= j < k - 1 ==> ships.drop_first()[j] == ships[j + 1]);
        lemma_first_hit_is(ships.drop_first(), p, k - 1);
    }
}

/// No ship records a hit beyond its span.
pub open spec fn all_masks_wf(ships: Seq<Ship>) -> bool {
    forall|k: int| 0 <= k < ships.len() ==> (#[trigger] ships[k]).mask_wf()
}

/// Applying the same shot twice reports the same outcome both times, and the
/// second application leaves the board exactly as the first left it.
pub proof fn lemma_apply_shot_idempotent(ships: Seq<Ship>, p: Position)
    requires
        all_fit(ships),
    ensures
        ships_after_shot(ships_after_shot(ships, p).0, p).0 == ships_after_shot(ships, p).0,
        ships_after_shot(ships_after_shot(ships, p).0, p).1 == ships_after_shot(ships, p).1,
{
    lemma_first_hit(ships, p);
    let k = first_hit(ships, p);
    if k < ships.len() {
        let s = ships[k];
        let s2 = s.after_shot(p);
        let ships1 = ships_after_shot(ships, p).0;
        crate::ship::lemma_after_shot_same_footprint(s, p, p);
        assert(ships1[k] == s2);
        assert(forall|j: int| 0 <= j < k ==> ships1[j] == ships[j]);
        lemma_first_hit_is(ships1, p, k);
        crate::ship::lemma_ship_shot_idempotent(s, p);
        assert(ships1.update(k, s2.after_shot(p)) =~= ships1);
    }
}

/// Shot resolution never sets a hit bit beyond a ship's span: the mask
/// invariant cannot be violated by applying shots.
pub proof fn lemma_apply_shot_preserves_mask_wf(ships: Seq<Ship>, p: Position)
    requires
        all_fit(ships),
        all_masks_wf(ships),
    ensures
        all_masks_wf(ships_after_shot(ships, p).0),
{
    lemma_first_hit(ships, p);
    let k = first_hit(ships, p);
    if k < ships.len() {
        crate::ship::lemma_after_shot_mask_wf(ships[k], p);
    }
}

/// A legal board stays legal under shots: a shot changes only hit records,
/// never positions, classes or footprints.
pub proof fn lemma_apply_shot_preserves_valid(ships: Seq<Ship>, p: Position)
    requires
        ships_valid(ships),
    ensures
        ships_valid(ships_after_shot(ships, p).0),
{
    lemma_first_hit(ships, p);
    let k = first_hit(ships, p);
    if k < ships.len() {
        let s = ships[k];
        let s2 = s.after_shot(p);
        let ships1 = ships_after_shot(ships, p).0;
        assert(forall|i: int| s2.cell(i) == s.cell(i));
        assert(s2.spec_in_bounds() == s.spec_in_bounds());
        assert forall|i: int, j: int| 0 <= i < j < ships1.len() implies !ships1[i].spec_intersects(
            ships1[j],
        ) by {
            if ships1[i].spec_intersects(ships1[j]) {
                let (a, b) = choose|a: int, b: int|
                    0 <= a < ships1[i].class.spec_span() && 0 <= b
                        < ships1[j].class.spec_span() && ships1[i].cell(a) == ships1[j].cell(b);
                assert(ships[i].cell(a) == ships[j].cell(b));
                assert(ships[i].spec_intersects(ships[j]));
            }
        }
    }
}

/// A shot off the board is always a miss and changes nothing, because no
/// in-bounds ship occupies an off-board cell.
pub proof fn lemma_off_board_shot_misses(ships: Seq<Ship>, p: Position)
    requires
        forall|k: int| 0 <= k < ships.len() ==> (#[trigger] ships[k]).spec_in_bounds(),
        !p.spec_in_bounds(),
    ensures
        ships_after_shot(ships, p).0 == ships,
        ships_after_shot(ships, p).1 == HitType::Miss,
{
    assert forall|k: int| 0 <= k < ships.len() implies !(#[trigger] ships[k]).covers(p) by {
        lemma_in_bounds_footprint(ships[k]);
        if ships[k].covers(p) {
            let i = choose|i: int|
                0 <= i < ships[k].class.spec_span() && ships[k].cell(i) == p;
            assert(ships[k].cell(i).spec_in_bounds());
        }
    }
    lemma_first_hit(ships, p);
}

/// On a legal board at most one ship covers any given position, so the order
/// in which ships are tested never changes which ship a shot hits.
pub proof fn lemma_valid_unique_cover(ships: Seq<Ship>, p: Position, k: int, l: int)
    requires
        ships_valid(ships),
        0 <= k < ships.len(),
        0 <= l < ships.len(),
        k != l,
        ships[k].covers(p),
    ensures
        !ships[l].covers(p),
{
    if ships[l].covers(p) {
        let a = choose|a: int| 0 <= a < ships[k].class.spec_span() && ships[k].cell(a) == p;
        let b = choose|b: int| 0 <= b < ships[l].class.spec_span() && ships[l].cell(b) == p;
        assert(ships[k].cell(a) == ships[l].cell(b));
        if k < l {
            assert(ships[k].spec_intersects(ships[l]));
        } else {
            assert(ships[l].spec_intersects(ships[k]));
        }
    }
}

impl GameState {
    /// The footprint arithmetic of every ship stays within `u32`.
    pub open spec fn wf(&self) -> bool {
        all_fit(self.ships@)
    }

    /// The board is a legal configuration.
    pub open spec fn spec_check(&self) -> bool {
        ships_valid(self.ships@)
    }

    /// An empty board with the given blinding entropy.
    pub fn new(pepper: [u8; 16]) -> (r: GameState)
        ensures
            r.ships@ == Seq::<Ship>::empty(),
            r.pepper == pepper,
    {
        let ships: Vec<Ship> = Vec::new();
        proof {
            assert(ships@ =~= Seq::<Ship>::empty());
        }
        GameState { ships, pepper }
    }

    /// Whether the board is a legal configuration: exactly one ship per
    /// class, all in bounds, no two sharing a cell. A commitment is binding
    /// only for a board this accepts.
    pub fn check(&self) -> (r: bool)
        ensures
            r == self.spec_check(),
    {
        let n = self.ships.len();

        // Every ship must be in bounds.
        let mut k: usize = 0;
        while k < n
            invariant
                n == self.ships@.len(),
                k <= n,
                forall|j: int| 0 <= j < k ==> (#[trigger] self.ships@[j]).spec_in_bounds(),
            decreases n - k,
        {
            if !self.ships[k].in_bounds() {
                return false;
            }
            k = k + 1;
        }

        // Exactly one ship of each of the five classes: with five ships and
        // pairwise-distinct classes no class is missing or repeated.
        if n != NUM_SHIPS {
            return false;
        }

        proof {
            assert forall|j: int| 0 <= j < n implies (#[trigger] self.ships@[j]).fits() by {
                lemma_in_bounds_footprint(self.ships@[j]);
            }
        }

        let mut k: usize = 0;
        while k < n
            invariant
                n == self.ships@.len(),
                k <= n,
                forall|j: int| 0 <= j < n ==> (#[trigger] self.ships@[j]).spec_in_bounds(),
                all_fit(self.ships@),
                forall|i: int, j: int| 0 <= i < j < n && i < k ==> self.ships@[i].class != self.ships@[j].class,
            decreases n - k,
        {
            let mut l: usize = k + 1;
            while l < n
                invariant
                    n == self.ships@.len(),
                    k < n,
                    k < l,
                    l <= n,
                    forall|j: int| k < j < l ==> self.ships@[k as int].class != (#[trigger] self.ships@[j]).class,
                decreases n - l,
            {
                if self.ships[k].class == self.ships[l].class {
                    return false;
                }
                l = l + 1;
            }
            k = k + 1;
        }

        // No two ships may intersect.
        let mut k: usize = 0;
        while k < n
            invariant
                n == self.ships@.len(),
                k <= n,
                forall|j: int| 0 <= j < n ==> (#[trigger] self.ships@[j]).spec_in_bounds(),
                all_fit(self.ships@),
                forall|i: int, j: int| 0 <= i < j < n ==> self.ships@[i].class != self.ships@[j].class,
                n == NUM_SHIPS,
                forall|i: int, j: int| 0 <= i < j < n && i < k ==> !self.ships@[i].spec_intersects(self.ships@[j]),
            decreases n - k,
        {
            let mut l: usize = k + 1;
            while l < n
                invariant
                    n == self.ships@.len(),
                    k < n,
                    k < l,
                    l <= n,
                    all_fit(self.ships@),
                    forall|j: int| k < j < l ==> !self.ships@[k as int].spec_intersects(#[trigger] self.ships@[j]),
                decreases n - l,
            {
                let ship_k = self.ships[k];
                let ship_l = self.ships[l];
                if ship_k.intersects(&ship_l) {
                    return false;
                }
                l = l + 1;
            }
            k = k + 1;
        }

        true
    }

    /// Add one ship during construction: refused, leaving the board
    /// unchanged, when the ship is out of bounds, its class is already
    /// present, or it would intersect a present ship.
    pub fn add(&mut self, new_ship: Ship) -> (r: bool)
        requires
            old(self).wf(),
        ensures
            r == can_add(old(self).ships@, new_ship),
            r ==> final (self).ships@ == old(self).ships@.push(new_ship),
            !r ==> final (self).ships@ == old(self).ships@,
            final (self).pepper == old(self).pepper,
            final (self).wf(),
    {
        if !new_ship.in_bounds() {
            return false;
        }
        proof {
            lemma_in_bounds_footprint(new_ship);
        }

        let n = self.ships.len();
        let mut k: usize = 0;
        while k < n
            invariant
                n == self.ships@.len(),
                k <= n,
                all_fit(self.ships@),
                new_ship.fits(),
                forall|j: int| 0 <= j < k ==> (#[trigger] self.ships@[j]).class != new_ship.class,
                forall|j: int| 0 <= j < k ==> !(#[trigger] self.ships@[j]).spec_intersects(new_ship),
            decreases n - k,
        {
            let ship_k = self.ships[k];
            if ship_k.class == new_ship.class {
                return false;
            }
            if ship_k.intersects(&new_ship) {
                return false;
            }
            k = k + 1;
        }

        self.ships.push(new_ship);
        true
    }

    /// Whether every ship's footprint arithmetic stays within `u32`. Always
    /// true of a board whose ships are in bounds; shot resolution asks for
    /// no more than this.
    pub fn check_fits(&self) -> (r: bool)
        ensures
            r == self.wf(),
    {
        let n = self.ships.len();
        let mut k: usize = 0;
        while k < n
            invariant
                n == self.ships@.len(),
                k <= n,
                forall|j: int| 0 <= j < k ==> (#[trigger] self.ships@[j]).fits(),
            decreases n - k,
        {
            let ship = self.ships[k];
            let reach = ship.class.span() - 1;
            if ship.pos.x > u32::MAX - reach || ship.pos.y > u32::MAX - reach {
                proof {
                    assert(!self.ships@[k as int].fits());
                }
                return false;
            }
            k = k + 1;
        }
        true
    }

    /// Resolve one shot: the first ship covering the shot records the hit
    /// and reports `Hit` or `Sunk`; with no such ship the result is `Miss`
    /// and the board does not change. Any position, on or off the board, is
    /// accepted.
    pub fn apply_shot(&mut self, shot: Position) -> (r: HitType)
        requires
            old(self).wf(),
        ensures
            final (self).ships@ == ships_after_shot(old(self).ships@, shot).0,
            r == ships_after_shot(old(self).ships@, shot).1,
            final (self).pepper == old(self).pepper,
            final (self).wf(),
    {
        let ghost ships0 = self.ships@;
        let n = self.ships.len();
        let mut k: usize = 0;
        while k < n
            invariant
                self.ships@ == ships0,
                ships0 == old(self).ships@,
                self.pepper == old(self).pepper,
                n == ships0.len(),
                k <= n,
                all_fit(ships0),
                forall|j: int| 0 <= j < k ==> !(#[trigger] ships0[j]).covers(shot),
            decreases n - k,
        {
            let mut ship = self.ships[k];
            let hit = ship.apply_shot(shot);
            match hit {
                HitType::Miss => {
                    // A miss against this ship leaves it unchanged.
                },
                _ => {
                    proof {
                        lemma_first_hit_is(ships0, shot, k as int);
                    }
                    self.ships.set(k, ship);
                    return hit;
                },
            }
            k = k + 1;
        }
        proof {
            lemma_first_hit(ships0, shot);
        }
        HitType::Miss
    }
}

impl PartialEq for GameState {
    fn eq(&self, other: &GameState) -> (r: bool) {
        let n = self.ships.len();
        if n != other.ships.len() {
            return false;
        }
        let mut k: usize = 0;
        while k < n
            invariant
                n == self.ships@.len(),
                n == other.ships@.len(),
                k <= n,
                forall|j: int| 0 <= j < k ==> self.ships@[j] == other.ships@[j],
            decreases n - k,
        {
            if !(self.ships[k] == other.ships[k]) {
                return false;
            }
            k = k + 1;
        }
        let mut k: usize = 0;
        while k < 16
            invariant
                k <= 16,
                forall|j: int| 0 <= j < k ==> self.pepper@[j] == other.pepper@[j],
            decreases 16 - k,
        {
            if self.pepper[k] != other.pepper[k] {
                return false;
            }
            k = k + 1;
        }
        proof {
            assert(self.ships@ =~= other.ships@);
            assert(self.pepper@ =~= other.pepper@);
        }
        true
    }
}

impl vstd::std_specs::cmp::PartialEqSpecImpl for GameState {
    open spec fn obeys_eq_spec() -> bool {
        true
    }

    open spec fn eq_spec(&self, other: &GameState) -> bool {
        self.ships@ == other.ships@ && self.pepper@ == other.pepper@
    }
}

} // verus!
