//! Ships: a class, a bow position, an orientation and a record of hits.

use vstd::prelude::*;

use crate::geometry::Direction;
use crate::geometry::Position;
use crate::geometry::ShipClass;

verus! {

/// A ship on the board. Its footprint is the `span` cells reached by stepping
/// from the bow `pos` in direction `dir`; bit `i` of `hit_mask` records a hit
/// on the cell `i` steps from the bow.
#[derive(Copy, Clone, Debug, PartialEq, Eq, Structural)]
pub struct Ship {
    pub class: ShipClass,
    pub pos: Position,
    pub dir: Direction,
    pub hit_mask: u8,
}

/// Outcome of one shot: a miss, a hit, or the hit that sank a ship of the
/// carried class.
#[derive(Copy, Clone, Debug, PartialEq, Eq, Structural, Hash)]
pub enum HitType {
    Miss,
    Hit,
    Sunk(ShipClass),
}

impl Ship {
    /// The cell `i` steps from the bow.
    pub open spec fn cell(self, i: int) -> Position {
        match self.dir {
            Direction::Horizontal => Position { x: (self.pos.x + i) as u32, y: self.pos.y },
            Direction::Vertical => Position { x: self.pos.x, y: (self.pos.y + i) as u32 },
        }
    }

    /// The stepping arithmetic behind the footprint stays within `u32`.
    /// Implied by being in bounds; shot resolution requires no more than this.
    pub open spec fn fits(self) -> bool {
        &&& self.pos.x + self.class.spec_span() - 1 <= u32::MAX
        &&& self.pos.y + self.class.spec_span() - 1 <= u32::MAX
    }

    /// The footprint as a sequence of cells, bow first.
    pub open spec fn footprint(self) -> Seq<Position> {
        Seq::new(self.class.spec_span() as nat, |i: int| self.cell(i))
    }

    /// Whether the whole footprint lies on the board. Checking the bow and the
    /// stern suffices because the footprint is a contiguous line.
    pub open spec fn spec_in_bounds(self) -> bool {
        &&& self.pos.spec_in_bounds()
        &&& self.cell(self.class.spec_span() - 1).spec_in_bounds()
    }

    /// Whether the two footprints share a cell.
    pub open spec fn spec_intersects(self, other: Ship) -> bool {
        exists|i: int, j: int|
            0 <= i < self.class.spec_span() && 0 <= j < other.class.spec_span() && self.cell(i)
                == other.cell(j)
    }

    /// Whether `p` is one of this ship's cells.
    pub open spec fn covers(self, p: Position) -> bool {
        exists|i: int| 0 <= i < self.class.spec_span() && self.cell(i) == p
    }

    /// The offset of `p` within the footprint; meaningful only when `covers`
    /// holds, and then unique for a ship that `fits`.
    pub open spec fn hit_offset(self, p: Position) -> int {
        choose|i: int| 0 <= i < self.class.spec_span() && self.cell(i) == p
    }

    /// No hit is recorded beyond the span.
    pub open spec fn mask_wf(self) -> bool {
        self.hit_mask & self.class.spec_sunk_mask() == self.hit_mask
    }

    /// Every cell of the ship has been hit.
    pub open spec fn spec_sunk(self) -> bool {
        self.hit_mask == self.class.spec_sunk_mask()
    }

    /// The ship after a shot at `p`: the bit for the hit cell is set (a
    /// no-op when already set); a miss leaves the ship unchanged.
    pub open spec fn after_shot(self, p: Position) -> Ship {
        if self.covers(p) {
            Ship { hit_mask: self.hit_mask | (1u8 << self.hit_offset(p) as u32), ..self }
        } else {
            self
        }
    }

    /// The outcome a shot at `p` reports for this ship alone.
    pub open spec fn shot_result(self, p: Position) -> HitType {
        if !self.covers(p) {
            HitType::Miss
        } else if self.after_shot(p).spec_sunk() {
            HitType::Sunk(self.class)
        } else {
            HitType::Hit
        }
    }
}

/// Distinct offsets give distinct cells, so a shot matches at most one offset.
pub proof fn lemma_cells_distinct(s: Ship)
    requires
        s.fits(),
    ensures
        forall|i: int, j: int|
            0 <= i < s.class.spec_span() && 0 <= j < s.class.spec_span() && i != j ==> s.cell(i)
                != s.cell(j),
{
    assert forall|i: int, j: int|
        0 <= i < s.class.spec_span() && 0 <= j < s.class.spec_span() && i != j implies s.cell(i)
        != s.cell(j) by {
        match s.dir {
            Direction::Horizontal => {
                assert(s.pos.x + i <= u32::MAX);
                assert(s.pos.x + j <= u32::MAX);
            },
            Direction::Vertical => {
                assert(s.pos.y + i <= u32::MAX);
                assert(s.pos.y + j <= u32::MAX);
            },
        }
    }
}

/// For a ship that fits, the offset of a covered cell is unique, so
/// `hit_offset` is the one offset whose cell is `p`.
pub proof fn lemma_hit_offset_unique(s: Ship, p: Position)
    requires
        s.fits(),
        s.covers(p),
    ensures
        0 <= s.hit_offset(p) < s.class.spec_span(),
        s.cell(s.hit_offset(p)) == p,
        forall|i: int|
            0 <= i < s.class.spec_span() && s.cell(i) == p ==> i == s.hit_offset(p),
{
    let k = s.hit_offset(p);
    assert(0 <= k < s.class.spec_span() && s.cell(k) == p);
    lemma_cells_distinct(s);
}

/// Recording one more hit keeps every recorded bit within the span.
proof fn lemma_or_bit_in_mask(m: u8, i: u32, span: u32, sunk: u8)
    by (bit_vector)
    requires
        i < span,
        span <= 5,
        sunk == (1u8 << span) - 1,
        m & sunk == m,
    ensures
        (m | (1u8 << i)) & sunk == (m | (1u8 << i)),
{
}

/// A shot changes only the hit record: the footprint, and so which positions
/// the ship covers, stays the same.
pub proof fn lemma_after_shot_same_footprint(s: Ship, p: Position, q: Position)
    ensures
        s.after_shot(p).covers(q) == s.covers(q),
        s.after_shot(p).fits() == s.fits(),
        forall|i: int| s.after_shot(p).cell(i) == s.cell(i),
{
    let s2 = s.after_shot(p);
    assert(forall|i: int| s2.cell(i) == s.cell(i));
    if s.covers(q) {
        let i = choose|i: int| 0 <= i < s.class.spec_span() && s.cell(i) == q;
        assert(s2.cell(i) == q);
    }
    if s2.covers(q) {
        let i = choose|i: int| 0 <= i < s2.class.spec_span() && s2.cell(i) == q;
        assert(s.cell(i) == q);
    }
}

/// Shot resolution never records a hit beyond the span: the mask invariant
/// is preserved.
pub proof fn lemma_after_shot_mask_wf(s: Ship, p: Position)
    requires
        s.fits(),
        s.mask_wf(),
    ensures
        s.after_shot(p).mask_wf(),
{
    if s.covers(p) {
        lemma_hit_offset_unique(s, p);
        crate::geometry::lemma_span_sunk_mask(s.class);
        lemma_or_bit_in_mask(
            s.hit_mask,
            s.hit_offset(p) as u32,
            s.class.spec_span(),
            s.class.spec_sunk_mask(),
        );
    }
}

/// Re-shooting a cell reports the same outcome and changes nothing: one
/// ship's shot resolution is idempotent.
pub proof fn lemma_ship_shot_idempotent(s: Ship, p: Position)
    requires
        s.fits(),
    ensures
        s.after_shot(p).after_shot(p) == s.after_shot(p),
        s.after_shot(p).shot_result(p) == s.shot_result(p),
{
    if s.covers(p) {
        let s2 = s.after_shot(p);
        lemma_hit_offset_unique(s, p);
        lemma_after_shot_same_footprint(s, p, p);
        lemma_hit_offset_unique(s2, p);
        let i = s.hit_offset(p);
        assert(s2.cell(i) == s.cell(i));
        assert(s2.hit_offset(p) == i);
        let m = s.hit_mask;
        let b = 1u8 << i as u32;
        assert((m | b) | b == m | b) by (bit_vector);
        assert(s2.after_shot(p) == s2);
    }
}

/// A ship in bounds fits, and every cell of its footprint is on the board.
pub proof fn lemma_in_bounds_footprint(s: Ship)
    requires
        s.spec_in_bounds(),
    ensures
        s.fits(),
        forall|i: int| 0 <= i < s.class.spec_span() ==> (#[trigger] s.cell(i)).spec_in_bounds(),
{
    assert forall|i: int| 0 <= i < s.class.spec_span() implies (
    #[trigger] s.cell(i)).spec_in_bounds() by {
        let last = s.class.spec_span() - 1;
        match s.dir {
            Direction::Horizontal => {
                assert(s.cell(last).x == s.pos.x + last);
            },
            Direction::Vertical => {
                assert(s.cell(last).y == s.pos.y + last);
            },
        }
    }
}

impl Ship {
    /// A fresh, unhit ship.
    pub fn new(class: ShipClass, pos: Position, dir: Direction) -> (r: Ship)
        ensures
            r == (Ship { class, pos, dir, hit_mask: 0 }),
    {
        Ship { class, pos, dir, hit_mask: 0 }
    }

    /// The same ship with its hit record replaced.
    pub fn with_hit_mask(self, hit_mask: u8) -> (r: Ship)
        ensures
            r == (Ship { hit_mask, ..self }),
    {
        Ship { hit_mask, ..self }
    }

    /// The footprint as a vector of cells, bow first.
    pub fn points(&self) -> (r: Vec<Position>)
        requires
            self.fits(),
        ensures
            r@ == self.footprint(),
    {
        let span = self.class.span();
        let mut r: Vec<Position> = Vec::new();
        let mut i: u32 = 0;
        while i < span
            invariant
                i <= span,
                span == self.class.spec_span(),
                self.fits(),
                r@ == self.footprint().take(i as int),
            decreases span - i,
        {
            let p = self.pos.step(self.dir, i);
            r.push(p);
            proof {
                assert(p == self.cell(i as int));
                assert(r@ =~= self.footprint().take(i + 1));
            }
            i = i + 1;
        }
        proof {
            assert(r@ =~= self.footprint());
        }
        r
    }

    /// Whether the whole footprint lies on the board.
    pub fn in_bounds(&self) -> (r: bool)
        ensures
            r == self.spec_in_bounds(),
    {
        if !self.pos.in_bounds() {
            return false;
        }
        let stern = self.pos.step(self.dir, self.class.span() - 1);
        stern.in_bounds()
    }

    /// Whether the two footprints share a cell.
    pub fn intersects(&self, other: &Ship) -> (r: bool)
        requires
            self.fits(),
            other.fits(),
        ensures
            r == self.spec_intersects(*other),
    {
        let my_points = self.points();
        let their_points = other.points();
        let mut i: usize = 0;
        while i < my_points.len()
            invariant
                my_points@ == self.footprint(),
                their_points@ == other.footprint(),
                forall|a: int, b: int|
                    0 <= a < i && 0 <= b < other.class.spec_span() ==> self.cell(a) != other.cell(
                        b,
                    ),
            decreases my_points@.len() - i,
        {
            let mut j: usize = 0;
            while j < their_points.len()
                invariant
                    my_points@ == self.footprint(),
                    their_points@ == other.footprint(),
                    i < my_points@.len(),
                    forall|b: int| 0 <= b < j ==> self.cell(i as int) != other.cell(b),
                decreases their_points@.len() - j,
            {
                if my_points[i] == their_points[j] {
                    return true;
                }
                j = j + 1;
            }
            i = i + 1;
        }
        false
    }

    /// Resolve a shot against this ship alone: record the hit, if any, and
    /// report the outcome. Re-shooting a hit cell reports the same outcome
    /// and changes nothing.
    pub fn apply_shot(&mut self, shot: Position) -> (r: HitType)
        requires
            old(self).fits(),
        ensures
            *final (self) == old(self).after_shot(shot),
            r == old(self).shot_result(shot),
    {
        let ghost s = *self;
        let span = self.class.span();
        let mut i: u32 = 0;
        while i < span
            invariant
                *self == s,
                s == *old(self),
                span == s.class.spec_span(),
                s.fits(),
                i <= span,
                forall|a: int| 0 <= a < i ==> s.cell(a) != shot,
            decreases span - i,
        {
            let p = self.pos.step(self.dir, i);
            if p == shot {
                proof {
                    assert(s.cell(i as int) == shot);
                    assert(s.covers(shot));
                    lemma_hit_offset_unique(s, shot);
                    assert(s.hit_offset(shot) == i as int);
                    assert(i < 8) by {
                        assert(s.class.spec_span() <= 5);
                    }
                }
                self.hit_mask = self.hit_mask | (1u8 << i);
                let sunk = self.hit_mask == self.class.sunk_mask();
                if sunk {
                    return HitType::Sunk(self.class);
                } else {
                    return HitType::Hit;
                }
            }
            i = i + 1;
        }
        proof {
            assert(!s.covers(shot));
        }
        HitType::Miss
    }
}

} // verus!
