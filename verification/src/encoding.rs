//! The canonical byte encoding of a board.
//!
//! The encoding is load-bearing for the protocol: it is the exact byte
//! sequence that is hashed for a board's commitment, so it must be
//! deterministic and must distinguish any two distinct boards. Layout:
//! the ship count as eight little-endian bytes, then eleven bytes per ship
//! (class tag, bow x and y as four little-endian bytes each, direction tag,
//! hit mask), then the sixteen pepper bytes.

use vstd::prelude::*;

use crate::board::GameState;
use crate::geometry::Direction;
use crate::geometry::ShipClass;
use crate::ship::Ship;

verus! {

/// The four bytes of `x`, least significant first.
pub open spec fn u32_le(x: u32) -> Seq<u8> {
    seq![
        (x % 256) as u8,
        ((x / 256) % 256) as u8,
        ((x / 65536) % 256) as u8,
        ((x / 16777216) % 256) as u8,
    ]
}

/// The eight bytes of `x`, least significant first.
pub open spec fn u64_le(x: u64) -> Seq<u8> {
    u32_le((x % 0x1_0000_0000) as u32) + u32_le((x / 0x1_0000_0000) as u32)
}

/// One byte naming a ship class, following the canonical class order.
pub open spec fn class_tag(c: ShipClass) -> u8 {
    match c {
        ShipClass::Carrier => 0,
        ShipClass::Battleship => 1,
        ShipClass::Cruiser => 2,
        ShipClass::Submarine => 3,
        ShipClass::Destroyer => 4,
    }
}

/// One byte naming an orientation.
pub open spec fn dir_tag(d: Direction) -> u8 {
    match d {
        Direction::Horizontal => 0,
        Direction::Vertical => 1,
    }
}

/// The eleven bytes of one ship.
pub open spec fn ship_bytes(s: Ship) -> Seq<u8> {
    seq![class_tag(s.class)] + u32_le(s.pos.x) + u32_le(s.pos.y) + seq![dir_tag(s.dir), s.hit_mask]
}

/// The ships' bytes, in board order.
pub open spec fn ships_bytes(ships: Seq<Ship>) -> Seq<u8>
    decreases ships.len(),
{
    if ships.len() == 0 {
        Seq::empty()
    } else {
        ship_bytes(ships[0]) + ships_bytes(ships.drop_first())
    }
}

/// The canonical encoding of a whole board.
pub open spec fn state_bytes(ships: Seq<Ship>, pepper: Seq<u8>) -> Seq<u8> {
    u64_le(ships.len() as u64) + ships_bytes(ships) + pepper
}

pub proof fn lemma_ships_bytes_len(ships: Seq<Ship>)
    ensures
        ships_bytes(ships).len() == 11 * ships.len(),
    decreases ships.len(),
{
    if ships.len() != 0 {
        lemma_ships_bytes_len(ships.drop_first());
    }
}

/// Appending one ship appends its eleven bytes.
pub proof fn lemma_ships_bytes_push(ships: Seq<Ship>, s: Ship)
    ensures
        ships_bytes(ships.push(s)) == ships_bytes(ships) + ship_bytes(s),
    decreases ships.len(),
{
    let pushed = ships.push(s);
    if ships.len() == 0 {
        assert(pushed[0] == s);
        assert(pushed.drop_first() =~= Seq::<Ship>::empty());
        assert(ships_bytes(Seq::<Ship>::empty()) == Seq::<u8>::empty());
        assert(ships_bytes(pushed) == ship_bytes(s) + Seq::<u8>::empty());
        assert(ships_bytes(pushed) =~= ships_bytes(ships) + ship_bytes(s));
    } else {
        assert(pushed[0] == ships[0]);
        assert(pushed.drop_first() =~= ships.drop_first().push(s));
        lemma_ships_bytes_push(ships.drop_first(), s);
        assert(ships_bytes(pushed) == ship_bytes(ships[0]) + (ships_bytes(ships.drop_first())
            + ship_bytes(s)));
        assert(ships_bytes(ships) == ship_bytes(ships[0]) + ships_bytes(ships.drop_first()));
        assert(ships_bytes(pushed) =~= ships_bytes(ships) + ship_bytes(s));
    }
}

proof fn lemma_u32_le_inj(a: u32, b: u32)
    requires
        u32_le(a) == u32_le(b),
    ensures
        a == b,
{
    assert(u32_le(a)[0] == u32_le(b)[0]);
    assert(u32_le(a)[1] == u32_le(b)[1]);
    assert(u32_le(a)[2] == u32_le(b)[2]);
    assert(u32_le(a)[3] == u32_le(b)[3]);
    assert(a % 256 == b % 256 && (a / 256) % 256 == (b / 256) % 256 && (a / 65536) % 256 == (b
        / 65536) % 256 && (a / 16777216) % 256 == (b / 16777216) % 256 ==> a == b) by (bit_vector);
}

proof fn lemma_u64_le_inj(a: u64, b: u64)
    requires
        u64_le(a) == u64_le(b),
    ensures
        a == b,
{
    let alo = (a % 0x1_0000_0000) as u32;
    let ahi = (a / 0x1_0000_0000) as u32;
    let blo = (b % 0x1_0000_0000) as u32;
    let bhi = (b / 0x1_0000_0000) as u32;
    assert forall|i: int| 0 <= i < 4 implies u32_le(alo)[i] == u32_le(blo)[i] && u32_le(ahi)[i]
        == u32_le(bhi)[i] by {
        assert(u64_le(a)[i] == u32_le(alo)[i]);
        assert(u64_le(a)[i + 4] == u32_le(ahi)[i]);
        assert(u64_le(b)[i] == u32_le(blo)[i]);
        assert(u64_le(b)[i + 4] == u32_le(bhi)[i]);
    }
    assert(u32_le(alo) =~= u32_le(blo));
    assert(u32_le(ahi) =~= u32_le(bhi));
    lemma_u32_le_inj(alo, blo);
    lemma_u32_le_inj(ahi, bhi);
    assert(a % 0x1_0000_0000 == b % 0x1_0000_0000 && a / 0x1_0000_0000 == b / 0x1_0000_0000 ==> a
        == b) by (bit_vector);
}

proof fn lemma_class_tag_inj(a: ShipClass, b: ShipClass)
    requires
        class_tag(a) == class_tag(b),
    ensures
        a == b,
{
}

proof fn lemma_ship_bytes_inj(a: Ship, b: Ship)
    requires
        ship_bytes(a) == ship_bytes(b),
    ensures
        a == b,
{
    assert(ship_bytes(a)[0] == class_tag(a.class));
    assert(ship_bytes(b)[0] == class_tag(b.class));
    assert(ship_bytes(a)[0] == ship_bytes(b)[0]);
    lemma_class_tag_inj(a.class, b.class);
    assert forall|i: int| 0 <= i < 4 implies u32_le(a.pos.x)[i] == u32_le(b.pos.x)[i] && u32_le(
        a.pos.y,
    )[i] == u32_le(b.pos.y)[i] by {
        assert(ship_bytes(a)[i + 1] == u32_le(a.pos.x)[i]);
        assert(ship_bytes(a)[i + 5] == u32_le(a.pos.y)[i]);
        assert(ship_bytes(b)[i + 1] == u32_le(b.pos.x)[i]);
        assert(ship_bytes(b)[i + 5] == u32_le(b.pos.y)[i]);
    }
    assert(u32_le(a.pos.x) =~= u32_le(b.pos.x));
    assert(u32_le(a.pos.y) =~= u32_le(b.pos.y));
    lemma_u32_le_inj(a.pos.x, b.pos.x);
    lemma_u32_le_inj(a.pos.y, b.pos.y);
    assert(ship_bytes(a)[9] == dir_tag(a.dir));
    assert(ship_bytes(b)[9] == dir_tag(b.dir));
    assert(ship_bytes(a)[10] == a.hit_mask);
    assert(ship_bytes(b)[10] == b.hit_mask);
    assert(a.dir == b.dir);
    assert(a.pos == b.pos);
}

proof fn lemma_ships_bytes_inj(a: Seq<Ship>, b: Seq<Ship>)
    requires
        a.len() == b.len(),
        ships_bytes(a) == ships_bytes(b),
    ensures
        a == b,
    decreases a.len(),
{
    if a.len() != 0 {
        lemma_ships_bytes_len(a.drop_first());
        lemma_ships_bytes_len(b.drop_first());
        assert forall|i: int| 0 <= i < 11 implies ship_bytes(a[0])[i] == ship_bytes(b[0])[i] by {
            assert(ships_bytes(a)[i] == ship_bytes(a[0])[i]);
            assert(ships_bytes(b)[i] == ship_bytes(b[0])[i]);
        }
        assert(ship_bytes(a[0]) =~= ship_bytes(b[0]));
        lemma_ship_bytes_inj(a[0], b[0]);
        assert forall|i: int| 0 <= i < ships_bytes(a.drop_first()).len() implies ships_bytes(
            a.drop_first(),
        )[i] == ships_bytes(b.drop_first())[i] by {
            assert(ships_bytes(a)[11 + i] == ships_bytes(a.drop_first())[i]);
            assert(ships_bytes(b)[11 + i] == ships_bytes(b.drop_first())[i]);
        }
        assert(ships_bytes(a.drop_first()) =~= ships_bytes(b.drop_first()));
        lemma_ships_bytes_inj(a.drop_first(), b.drop_first());
        assert forall|i: int| 0 <= i < a.len() implies a[i] == b[i] by {
            if i > 0 {
                assert(a.drop_first()[i - 1] == a[i]);
                assert(b.drop_first()[i - 1] == b[i]);
            }
        }
        assert(a =~= b);
    } else {
        assert(a =~= b);
    }
}

/// The canonical encoding is injective: two boards with the same bytes are
/// the same board. With the digest collision resistant, this is what makes
/// the commitment binding, and it is why a digest changes whenever any hit
/// mask, ship or pepper byte changes.
pub proof fn lemma_state_bytes_inj(
    ships1: Seq<Ship>,
    pepper1: Seq<u8>,
    ships2: Seq<Ship>,
    pepper2: Seq<u8>,
)
    requires
        ships1.len() < 0x1_0000_0000_0000_0000,
        ships2.len() < 0x1_0000_0000_0000_0000,
        pepper1.len() == pepper2.len(),
        state_bytes(ships1, pepper1) == state_bytes(ships2, pepper2),
    ensures
        ships1 == ships2,
        pepper1 == pepper2,
{
    lemma_ships_bytes_len(ships1);
    lemma_ships_bytes_len(ships2);
    let e1 = state_bytes(ships1, pepper1);
    let e2 = state_bytes(ships2, pepper2);
    assert(e1.len() == 8 + 11 * ships1.len() + pepper1.len());
    assert(e2.len() == 8 + 11 * ships2.len() + pepper2.len());
    assert(ships1.len() == ships2.len());
    assert forall|i: int| 0 <= i < 8 implies #[trigger] u64_le(ships1.len() as u64)[i] == u64_le(
        ships2.len() as u64,
    )[i] by {
        assert(e1[i] == u64_le(ships1.len() as u64)[i]);
        assert(e2[i] == u64_le(ships2.len() as u64)[i]);
    }
    assert(u64_le(ships1.len() as u64) =~= u64_le(ships2.len() as u64));
    assert forall|i: int| 0 <= i < 11 * ships1.len() implies ships_bytes(ships1)[i] == ships_bytes(
        ships2,
    )[i] by {
        assert(e1[8 + i] == ships_bytes(ships1)[i]);
        assert(e2[8 + i] == ships_bytes(ships2)[i]);
    }
    assert(ships_bytes(ships1) =~= ships_bytes(ships2));
    lemma_ships_bytes_inj(ships1, ships2);
    assert forall|i: int| 0 <= i < pepper1.len() implies pepper1[i] == pepper2[i] by {
        assert(e1[8 + 11 * ships1.len() + i] == pepper1[i]);
        assert(e2[8 + 11 * ships2.len() + i] == pepper2[i]);
    }
    assert(pepper1 =~= pepper2);
}

fn push_u32_le(out: &mut Vec<u8>, x: u32)
    ensures
        final (out)@ == old(out)@ + u32_le(x),
{
    out.push((x % 256) as u8);
    out.push(((x / 256) % 256) as u8);
    out.push(((x / 65536) % 256) as u8);
    out.push(((x / 16777216) % 256) as u8);
    proof {
        assert(final (out)@ =~= old(out)@ + u32_le(x));
    }
}

fn class_tag_of(c: ShipClass) -> (r: u8)
    ensures
        r == class_tag(c),
{
    match c {
        ShipClass::Carrier => 0,
        ShipClass::Battleship => 1,
        ShipClass::Cruiser => 2,
        ShipClass::Submarine => 3,
        ShipClass::Destroyer => 4,
    }
}

impl GameState {
    /// The canonical encoding of this board: the byte sequence that is
    /// hashed for its commitment.
    pub fn encode(&self) -> (r: Vec<u8>)
        ensures
            r@ == state_bytes(self.ships@, self.pepper@),
    {
        let mut out: Vec<u8> = Vec::new();
        let n = self.ships.len();
        let n64 = n as u64;
        out.push((n64 % 256) as u8);
        out.push(((n64 / 256) % 256) as u8);
        out.push(((n64 / 65536) % 256) as u8);
        out.push(((n64 / 16777216) % 256) as u8);
        out.push(((n64 / 0x1_0000_0000) % 256) as u8);
        out.push(((n64 / 0x100_0000_0000) % 256) as u8);
        out.push(((n64 / 0x1_0000_0000_0000) % 256) as u8);
        out.push(((n64 / 0x100_0000_0000_0000) % 256) as u8);
        proof {
            assert(((n64 % 0x1_0000_0000) as u32) % 256 == n64 % 256 && (((n64 % 0x1_0000_0000)
                as u32) / 256) % 256 == (n64 / 256) % 256 && (((n64 % 0x1_0000_0000) as u32)
                / 65536) % 256 == (n64 / 65536) % 256 && (((n64 % 0x1_0000_0000) as u32)
                / 16777216) % 256 == (n64 / 16777216) % 256) by (bit_vector);
            assert(((n64 / 0x1_0000_0000) as u32) % 256 == (n64 / 0x1_0000_0000) % 256 && (((n64
                / 0x1_0000_0000) as u32) / 256) % 256 == (n64 / 0x100_0000_0000) % 256 && (((n64
                / 0x1_0000_0000) as u32) / 65536) % 256 == (n64 / 0x1_0000_0000_0000) % 256
                && (((n64 / 0x1_0000_0000) as u32) / 16777216) % 256 == (n64
                / 0x100_0000_0000_0000) % 256) by (bit_vector);
            assert(out@ =~= u64_le(n64));
        }

        let mut k: usize = 0;
        while k < n
            invariant
                n == self.ships@.len(),
                k <= n,
                out@ == u64_le(n as u64) + ships_bytes(self.ships@.take(k as int)),
            decreases n - k,
        {
            let s = self.ships[k];
            out.push(class_tag_of(s.class));
            push_u32_le(&mut out, s.pos.x);
            push_u32_le(&mut out, s.pos.y);
            out.push(
                match s.dir {
                    Direction::Horizontal => 0,
                    Direction::Vertical => 1,
                },
            );
            out.push(s.hit_mask);
            proof {
                lemma_ships_bytes_push(self.ships@.take(k as int), s);
                assert(self.ships@.take(k as int).push(s) =~= self.ships@.take(k + 1));
                assert(out@ =~= u64_le(n as u64) + ships_bytes(self.ships@.take(k + 1)));
            }
            k = k + 1;
        }
        proof {
            assert(self.ships@.take(n as int) =~= self.ships@);
        }

        let mut k: usize = 0;
        while k < 16
            invariant
                k <= 16,
                out@ == u64_le(self.ships@.len() as u64) + ships_bytes(self.ships@)
                    + self.pepper@.take(k as int),
            decreases 16 - k,
        {
            out.push(self.pepper[k]);
            proof {
                assert(self.pepper@.take(k as int).push(self.pepper@[k as int]) =~= self.pepper@
                    .take(k + 1));
                assert(out@ =~= u64_le(self.ships@.len() as u64) + ships_bytes(self.ships@)
                    + self.pepper@.take(k + 1));
            }
            k = k + 1;
        }
        proof {
            assert(self.pepper@.take(16) =~= self.pepper@);
            assert(out@ =~= state_bytes(self.ships@, self.pepper@));
        }
        out
    }
}

} // verus!
