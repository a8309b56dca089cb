//! The canonical byte codec: fixed widths, little-endian integers, tags
//! encoded as their declaration index, no self-describing framing. The
//! encoding is bit-exact across platforms; it is both the wire form of a
//! state and the preimage of its commitment digest.

use crate::board::BOARD_SIZE;
use crate::board::CellState;
use crate::board::Direction;
use crate::board::GameState;
use crate::board::Position;
use crate::board::Ship;
use crate::board::ShipType;
use crate::board::cell_at;
use crate::board::ship_type_index;
use vstd::arithmetic::div_mod::*;
use vstd::prelude::*;

verus! {

/// The four little-endian bytes of `v`.
pub open spec fn u32_le(v: u32) -> Seq<u8> {
    seq![
        (v as int % 256) as u8,
        ((v as int / 256) % 256) as u8,
        ((v as int / 65536) % 256) as u8,
        ((v as int / 16777216) % 256) as u8,
    ]
}

/// The value of four little-endian bytes.
pub open spec fn u32_of4(b0: u8, b1: u8, b2: u8, b3: u8) -> int {
    b0 + 256 * b1 + 65536 * b2 + 16777216 * b3
}

/// Reading back the four bytes of `v` yields `v`.
pub proof fn lemma_u32_le_value(v: u32)
    ensures
        u32_of4(u32_le(v)[0], u32_le(v)[1], u32_le(v)[2], u32_le(v)[3]) == v,
{
    let x = v as int;
    lemma_fundamental_div_mod(x, 256);
    lemma_fundamental_div_mod(x / 256, 256);
    lemma_fundamental_div_mod(x / 65536, 256);
    lemma_div_denominator(x, 256, 256);
    lemma_div_denominator(x, 65536, 256);
    assert(x / 65536 / 256 == x / 16777216);
    lemma_remainder_upper(x, 16777216);
    lemma_div_pos_is_pos(x, 16777216);
    assert(x / 16777216 < 256);
    lemma_small_mod((x / 16777216) as nat, 256);
}

/// Encoding the value of four bytes yields the same four bytes.
pub proof fn lemma_u32_of4_le(b0: u8, b1: u8, b2: u8, b3: u8)
    ensures
        u32_of4(b0, b1, b2, b3) < 0x1_0000_0000,
        u32_le(u32_of4(b0, b1, b2, b3) as u32) =~= seq![b0, b1, b2, b3],
{
    let v = u32_of4(b0, b1, b2, b3);
    let q1 = b1 + 256 * b2 + 65536 * b3;
    lemma_fundamental_div_mod_converse(v, 256, q1, b0 as int);
    let q2 = b2 + 256 * b3;
    lemma_fundamental_div_mod_converse(q1, 256, q2, b1 as int);
    lemma_fundamental_div_mod_converse(q2, 256, b3 as int, b2 as int);
    lemma_div_denominator(v, 256, 256);
    lemma_div_denominator(v, 65536, 256);
    assert(v / 65536 == q2);
    assert(v / 16777216 == b3);
    lemma_small_mod(b3 as nat, 256);
}

/// Append the four little-endian bytes of `v`.
pub fn push_u32_le(out: &mut Vec<u8>, v: u32)
    ensures
        final(out)@ == old(out)@ + u32_le(v),
{
    out.push((v % 256) as u8);
    out.push(((v / 256) % 256) as u8);
    out.push(((v / 65536) % 256) as u8);
    out.push(((v / 16777216) % 256) as u8);
    proof {
        assert(out@ =~= old(out)@ + u32_le(v));
    }
}

/// Read the little-endian `u32` at offset `off`.
pub fn read_u32_le(b: &Vec<u8>, off: usize) -> (r: u32)
    requires
        off + 4 <= b@.len(),
    ensures
        r as int == u32_of4(b@[off as int], b@[off + 1], b@[off + 2], b@[off + 3]),
{
    let n = b.len();
    proof {
        lemma_u32_of4_le(b@[off as int], b@[off + 1], b@[off + 2], b@[off + 3]);
    }
    b[off] as u32 + 256 * (b[off + 1] as u32) + 65536 * (b[off + 2] as u32) + 16777216 * (b[off
        + 3] as u32)
}

/// The eight little-endian bytes of `v`.
pub open spec fn u64_le(v: u64) -> Seq<u8> {
    u32_le((v as int % 0x1_0000_0000) as u32) + u32_le((v as int / 0x1_0000_0000) as u32)
}

/// The value of eight little-endian bytes, given as two 32-bit halves.
pub open spec fn u64_of_halves(lo: int, hi: int) -> int {
    lo + 0x1_0000_0000 * hi
}

/// Append the eight little-endian bytes of `v`.
pub fn push_u64_le(out: &mut Vec<u8>, v: u64)
    ensures
        final(out)@ == old(out)@ + u64_le(v),
{
    let lo = (v % 0x1_0000_0000) as u32;
    let hi = (v / 0x1_0000_0000) as u32;
    push_u32_le(out, lo);
    push_u32_le(out, hi);
    proof {
        assert(out@ =~= old(out)@ + u64_le(v));
    }
}

/// Read the little-endian `u64` at offset `off`.
pub fn read_u64_le(b: &Vec<u8>, off: usize) -> (r: u64)
    requires
        off + 8 <= b@.len(),
    ensures
        r as int == u64_of_halves(
            u32_of4(b@[off as int], b@[off + 1], b@[off + 2], b@[off + 3]),
            u32_of4(b@[off + 4], b@[off + 5], b@[off + 6], b@[off + 7]),
        ),
        u64_le(r) =~= b@.subrange(off as int, off + 8),
{
    let n = b.len();
    let lo = read_u32_le(b, off);
    let hi = read_u32_le(b, off + 4);
    proof {
        lemma_u32_of4_le(b@[off as int], b@[off + 1], b@[off + 2], b@[off + 3]);
        lemma_u32_of4_le(b@[off + 4], b@[off + 5], b@[off + 6], b@[off + 7]);
    }
    let r = lo as u64 + 0x1_0000_0000u64 * (hi as u64);
    proof {
        lemma_fundamental_div_mod_converse(r as int, 0x1_0000_0000, hi as int, lo as int);
        assert(u64_le(r) =~= b@.subrange(off as int, off + 8));
    }
    r
}

/// Tag byte of a direction, its declaration index.
pub open spec fn dir_tag(d: Direction) -> u8 {
    match d {
        Direction::Horizontal => 0,
        Direction::Vertical => 1,
    }
}

/// Tag byte of a ship kind, its declaration index.
pub open spec fn type_tag(t: ShipType) -> u8 {
    ship_type_index(t) as u8
}

/// Tag byte of a cell state, its declaration index.
pub open spec fn cell_tag(c: CellState) -> u8 {
    match c {
        CellState::Empty => 0,
        CellState::Miss => 1,
        CellState::Hit => 2,
    }
}

/// The eleven bytes of one ship: kind tag, x and y as little-endian
/// `u32`s, direction tag, hit mask.
pub open spec fn ship_bytes(s: Ship) -> Seq<u8> {
    seq![
        type_tag(s.ship_type),
        u32_le(s.position.x)[0],
        u32_le(s.position.x)[1],
        u32_le(s.position.x)[2],
        u32_le(s.position.x)[3],
        u32_le(s.position.y)[0],
        u32_le(s.position.y)[1],
        u32_le(s.position.y)[2],
        u32_le(s.position.y)[3],
        dir_tag(s.direction),
        s.hits,
    ]
}

/// The ships of a fleet, encoded in placement order.
pub open spec fn ships_bytes(ships: Seq<Ship>) -> Seq<u8>
    decreases ships.len(),
{
    if ships.len() == 0 {
        Seq::empty()
    } else {
        ships_bytes(ships.drop_last()) + ship_bytes(ships.last())
    }
}

/// The hundred grid cells in row-major order, one tag byte each.
pub open spec fn grid_bytes(s: GameState) -> Seq<u8> {
    Seq::new(100, |k: int| cell_tag(cell_at(s, k % 10, k / 10)))
}

/// The canonical serialization of a state: ship count as a little-endian
/// `u32`, the ships in placement order, the pepper, the grid row-major.
pub open spec fn state_bytes(s: GameState) -> Seq<u8> {
    u32_le(s.ships@.len() as u32) + ships_bytes(s.ships@) + s.pepper@ + grid_bytes(s)
}

/// A fleet's encoding is eleven bytes per ship.
pub proof fn lemma_ships_bytes_len(ships: Seq<Ship>)
    ensures
        ships_bytes(ships).len() == 11 * ships.len(),
    decreases ships.len(),
{
    if ships.len() > 0 {
        lemma_ships_bytes_len(ships.drop_last());
    }
}

/// Byte `j` of ship `i` sits at offset `11 * i + j` of the fleet's encoding.
pub proof fn lemma_ships_bytes_index(ships: Seq<Ship>, i: int, j: int)
    requires
        0 <= i < ships.len(),
        0 <= j < 11,
    ensures
        ships_bytes(ships)[11 * i + j] == ship_bytes(ships[i])[j],
    decreases ships.len(),
{
    lemma_ships_bytes_len(ships.drop_last());
    if i < ships.len() - 1 {
        lemma_ships_bytes_index(ships.drop_last(), i, j);
    }
}

/// Appending one ship appends its eleven bytes.
pub proof fn lemma_ships_bytes_push(ships: Seq<Ship>, sh: Ship)
    ensures
        ships_bytes(ships.push(sh)) == ships_bytes(ships) + ship_bytes(sh),
{
    assert(ships.push(sh).drop_last() =~= ships);
    assert(ships.push(sh).last() == sh);
}

/// Equal eleven-byte encodings come from equal ships.
pub proof fn lemma_ship_bytes_injective(a: Ship, b: Ship)
    requires
        ship_bytes(a) == ship_bytes(b),
    ensures
        a == b,
{
    assert(type_tag(a.ship_type) == type_tag(b.ship_type));
    assert(a.ship_type == b.ship_type);
    lemma_u32_le_value(a.position.x);
    lemma_u32_le_value(b.position.x);
    assert(a.position.x == b.position.x);
    lemma_u32_le_value(a.position.y);
    lemma_u32_le_value(b.position.y);
    assert(a.position.y == b.position.y);
    assert(dir_tag(a.direction) == dir_tag(b.direction));
    assert(a.direction == b.direction);
    assert(a.hits == b.hits);
}

/// Law: the canonical serialization is injective. Two states with the
/// same bytes agree on every field — the ships in order, the pepper, and
/// every grid cell — so the commitment preimage determines the state.
pub proof fn lemma_state_bytes_injective(s1: GameState, s2: GameState)
    requires
        state_bytes(s1) == state_bytes(s2),
    ensures
        s1.ships@ == s2.ships@,
        s1.pepper@ == s2.pepper@,
        forall|x: int, y: int|
            0 <= x < 10 && 0 <= y < 10 ==> #[trigger] cell_at(s1, x, y) == cell_at(s2, x, y),
{
    let b1 = state_bytes(s1);
    let b2 = state_bytes(s2);
    let n1 = s1.ships@.len() as int;
    let n2 = s2.ships@.len() as int;
    lemma_ships_bytes_len(s1.ships@);
    lemma_ships_bytes_len(s2.ships@);
    assert(b1.len() == 4 + 11 * n1 + 16 + 100);
    assert(b2.len() == 4 + 11 * n2 + 16 + 100);
    assert(n1 == n2);

    assert forall|i: int| 0 <= i < n1 implies s1.ships@[i] == s2.ships@[i] by {
        assert forall|j: int| 0 <= j < 11 implies ship_bytes(s1.ships@[i])[j] == ship_bytes(
            s2.ships@[i],
        )[j] by {
            lemma_ships_bytes_index(s1.ships@, i, j);
            lemma_ships_bytes_index(s2.ships@, i, j);
            assert(b1[4 + (11 * i + j)] == ships_bytes(s1.ships@)[11 * i + j]);
            assert(b2[4 + (11 * i + j)] == ships_bytes(s2.ships@)[11 * i + j]);
        }
        assert(ship_bytes(s1.ships@[i]) =~= ship_bytes(s2.ships@[i]));
        lemma_ship_bytes_injective(s1.ships@[i], s2.ships@[i]);
    }
    assert(s1.ships@ =~= s2.ships@);

    assert forall|k: int| 0 <= k < 16 implies s1.pepper@[k] == s2.pepper@[k] by {
        assert(b1[4 + 11 * n1 + k] == s1.pepper@[k]);
        assert(b2[4 + 11 * n1 + k] == s2.pepper@[k]);
    }
    assert(s1.pepper@ =~= s2.pepper@);

    assert forall|x: int, y: int| 0 <= x < 10 && 0 <= y < 10 implies #[trigger] cell_at(s1, x, y)
        == cell_at(s2, x, y) by {
        let k = 10 * y + x;
        assert(b1[4 + 11 * n1 + 16 + k] == grid_bytes(s1)[k]);
        assert(b2[4 + 11 * n1 + 16 + k] == grid_bytes(s2)[k]);
        assert(k % 10 == x && k / 10 == y);
        assert(cell_tag(cell_at(s1, x, y)) == cell_tag(cell_at(s2, x, y)));
    }
}

/// Tag byte of a cell, executable form.
pub fn cell_tag_exec(c: CellState) -> (r: u8)
    ensures
        r == cell_tag(c),
{
    match c {
        CellState::Empty => 0,
        CellState::Miss => 1,
        CellState::Hit => 2,
    }
}

/// Append the eleven bytes of one ship.
fn push_ship(out: &mut Vec<u8>, s: &Ship)
    ensures
        final(out)@ == old(out)@ + ship_bytes(*s),
{
    out.push(s.ship_type.index() as u8);
    push_u32_le(out, s.position.x);
    push_u32_le(out, s.position.y);
    let d: u8 = match s.direction {
        Direction::Horizontal => 0,
        Direction::Vertical => 1,
    };
    out.push(d);
    out.push(s.hits);
    proof {
        assert(out@ =~= old(out)@ + ship_bytes(*s));
    }
}

/// The canonical serialization of `s`: bit-exact across platforms.
pub fn encode_game_state(s: &GameState) -> (out: Vec<u8>)
    requires
        s.ships@.len() <= 0xffff_ffff,
    ensures
        out@ == state_bytes(*s),
{
    let mut out: Vec<u8> = Vec::new();
    let n = s.ships.len();
    push_u32_le(&mut out, n as u32);
    for i in 0..n
        invariant
            n == s.ships@.len() <= 0xffff_ffff,
            out@ == u32_le(n as u32) + ships_bytes(s.ships@.subrange(0, i as int)),
    {
        let ghost prefix = s.ships@.subrange(0, i as int);
        push_ship(&mut out, &s.ships[i]);
        proof {
            lemma_ships_bytes_push(prefix, s.ships@[i as int]);
            assert(prefix.push(s.ships@[i as int]) =~= s.ships@.subrange(0, i + 1));
        }
    }
    proof {
        assert(s.ships@.subrange(0, n as int) =~= s.ships@);
    }
    for k in 0..16usize
        invariant
            out@ == u32_le(s.ships@.len() as u32) + ships_bytes(s.ships@) + s.pepper@.subrange(
                0,
                k as int,
            ),
    {
        out.push(s.pepper[k]);
        proof {
            assert(s.pepper@.subrange(0, k as int).push(s.pepper@[k as int]) =~= s.pepper@.subrange(
                0,
                k + 1,
            ));
        }
    }
    proof {
        assert(s.pepper@.subrange(0, 16) =~= s.pepper@);
    }
    for k in 0..100usize
        invariant
            out@ == u32_le(s.ships@.len() as u32) + ships_bytes(s.ships@) + s.pepper@ + Seq::new(
                k as nat,
                |j: int| cell_tag(cell_at(*s, j % 10, j / 10)),
            ),
    {
        let y = k / 10;
        let x = k % 10;
        let t = cell_tag_exec(s.grid[y][x]);
        out.push(t);
        proof {
            let f = |j: int| cell_tag(cell_at(*s, j % 10, j / 10));
            assert(t == f(k as int));
            assert(Seq::new(k as nat, f).push(f(k as int)) =~= Seq::new((k + 1) as nat, f));
        }
    }
    proof {
        assert(Seq::new(100, |j: int| cell_tag(cell_at(*s, j % 10, j / 10))) == grid_bytes(*s));
        assert(out@ == state_bytes(*s));
    }
    out
}

/// Two states that agree on their ships, pepper and grid cells have the
/// same canonical serialization.
pub proof fn lemma_state_bytes_determined(s1: GameState, s2: GameState)
    requires
        s1.ships@ == s2.ships@,
        s1.pepper@ == s2.pepper@,
        forall|x: int, y: int|
            0 <= x < 10 && 0 <= y < 10 ==> #[trigger] cell_at(s1, x, y) == cell_at(s2, x, y),
    ensures
        state_bytes(s1) == state_bytes(s2),
{
    assert forall|k: int| 0 <= k < 100 implies grid_bytes(s1)[k] == grid_bytes(s2)[k] by {
        assert(cell_at(s1, k % 10, k / 10) == cell_at(s2, k % 10, k / 10));
    }
    assert(grid_bytes(s1) =~= grid_bytes(s2));
}

/// A byte string is a well-formed state encoding when its length matches
/// the ship count it announces and every tag byte is in range.
pub open spec fn wf_state_bytes(b: Seq<u8>) -> bool {
    &&& b.len() >= 4
    &&& ({
        let n = u32_of4(b[0], b[1], b[2], b[3]);
        &&& b.len() == 120 + 11 * n
        &&& forall|i: int| 0 <= i < n ==> (#[trigger] b[4 + 11 * i]) < 5 && b[4 + 11 * i + 9] < 2
        &&& forall|k: int| 0 <= k < 100 ==> (#[trigger] b[20 + 11 * n + k]) < 3
    })
}

/// The ship kind a tag byte stands for, `None` when out of range.
pub fn type_of_tag(t: u8) -> (r: Option<ShipType>)
    ensures
        (r is Some) <==> t < 5,
        r matches Some(k) ==> type_tag(k) == t,
{
    match t {
        0 => Some(ShipType::Carrier),
        1 => Some(ShipType::Battleship),
        2 => Some(ShipType::Cruiser),
        3 => Some(ShipType::Submarine),
        4 => Some(ShipType::Destroyer),
        _ => None,
    }
}

/// The direction a tag byte stands for, `None` when out of range.
pub fn dir_of_tag(t: u8) -> (r: Option<Direction>)
    ensures
        (r is Some) <==> t < 2,
        r matches Some(d) ==> dir_tag(d) == t,
{
    match t {
        0 => Some(Direction::Horizontal),
        1 => Some(Direction::Vertical),
        _ => None,
    }
}

/// The cell state a tag byte stands for, `None` when out of range.
pub fn cell_of_tag(t: u8) -> (r: Option<CellState>)
    ensures
        (r is Some) <==> t < 3,
        r matches Some(c) ==> cell_tag(c) == t,
{
    match t {
        0 => Some(CellState::Empty),
        1 => Some(CellState::Miss),
        2 => Some(CellState::Hit),
        _ => None,
    }
}

/// Assembling a decoded state: when every component of `bs` matches the
/// corresponding field of `gs`, the bytes are exactly `gs`'s canonical
/// serialization and form a well-formed encoding.
#[verifier::rlimit(100)]
proof fn lemma_decode_assemble(gs: GameState, bs: Seq<u8>, n: int)
    requires
        0 <= n <= 0xffff_ffff,
        gs.ships@.len() == n,
        bs.len() == 120 + 11 * n,
        n == u32_of4(bs[0], bs[1], bs[2], bs[3]),
        forall|ii: int|
            0 <= ii < n ==> ship_bytes(#[trigger] gs.ships@[ii]) == bs.subrange(
                4 + 11 * ii,
                15 + 11 * ii,
            ),
        forall|kk: int| 0 <= kk < 16 ==> gs.pepper@[kk] == bs[4 + 11 * n + kk],
        forall|kk: int|
            0 <= kk < 100 ==> cell_tag(#[trigger] gs.grid@[kk / 10]@[kk % 10]) == bs[20 + 11 * n
                + kk],
        gs.grid@.len() == 10,
        forall|yy: int| 0 <= yy < 10 ==> (#[trigger] gs.grid@[yy])@.len() == 10,
    ensures
        state_bytes(gs) == bs,
        wf_state_bytes(bs),
{
    let ni = n;
    lemma_ships_bytes_len(gs.ships@);
    lemma_u32_of4_le(bs[0], bs[1], bs[2], bs[3]);
    assert(u32_le(gs.ships@.len() as u32) =~= bs.subrange(0, 4));
    assert forall|j: int| 0 <= j < 11 * ni implies ships_bytes(gs.ships@)[j] == bs[4 + j] by {
        let i = j / 11;
        let jj = j % 11;
        lemma_fundamental_div_mod(j, 11);
        lemma_div_pos_is_pos(j, 11);
        lemma_mod_bound(j, 11);
        assert(0 <= i < ni) by {
            lemma_div_is_ordered(j, 11 * ni - 1, 11);
            assert((11 * ni - 1) / 11 == ni - 1) by {
                lemma_fundamental_div_mod_converse(11 * ni - 1, 11, ni - 1, 10);
            }
        }
        lemma_ships_bytes_index(gs.ships@, i, jj);
        assert(ship_bytes(gs.ships@[i]) == bs.subrange(4 + 11 * i, 15 + 11 * i));
        assert(ship_bytes(gs.ships@[i])[jj] == bs[4 + 11 * i + jj]);
    }
    assert(ships_bytes(gs.ships@) =~= bs.subrange(4, 4 + 11 * ni));
    assert(gs.pepper@ =~= bs.subrange(4 + 11 * ni, 20 + 11 * ni));
    assert forall|k: int| 0 <= k < 100 implies grid_bytes(gs)[k] == bs[20 + 11 * ni + k] by {
        assert(cell_at(gs, k % 10, k / 10) == gs.grid@[k / 10]@[k % 10]);
    }
    assert(grid_bytes(gs) =~= bs.subrange(20 + 11 * ni, 120 + 11 * ni));
    assert(state_bytes(gs) =~= bs);

    assert(wf_state_bytes(bs)) by {
        assert forall|i: int| 0 <= i < ni implies (#[trigger] bs[4 + 11 * i]) < 5 && bs[4 + 11 * i
            + 9] < 2 by {
            assert(ship_bytes(gs.ships@[i]) == bs.subrange(4 + 11 * i, 15 + 11 * i));
            assert(bs[4 + 11 * i] == type_tag(gs.ships@[i].ship_type));
            assert(bs[4 + 11 * i + 9] == dir_tag(gs.ships@[i].direction));
        }
        assert forall|k: int| 0 <= k < 100 implies (#[trigger] bs[20 + 11 * ni + k]) < 3 by {
            assert(bs[20 + 11 * ni + k] == cell_tag(gs.grid@[k / 10]@[k % 10]));
        }
    }
}

/// Decode a canonical state serialization. Succeeds exactly on
/// well-formed encodings, and then returns the state those bytes encode.
#[verifier::rlimit(100)]
pub fn decode_game_state(b: &Vec<u8>) -> (r: Option<GameState>)
    ensures
        (r is Some) <==> wf_state_bytes(b@),
        r matches Some(gs) ==> state_bytes(gs) == b@ && gs.ships@.len() <= 0xffff_ffff,
{
    let len = b.len();
    if len < 4 {
        return None;
    }
    let n32 = read_u32_le(b, 0);
    let cap = (usize::MAX - 120) / 11;
    if n32 as u64 > cap as u64 {
        proof {
            if wf_state_bytes(b@) {
                assert(11 * (n32 as int) <= usize::MAX - 120);
                lemma_div_is_ordered(11 * (n32 as int), usize::MAX - 120, 11);
                lemma_div_multiples_vanish(n32 as int, 11);
                assert(n32 as int <= cap as int);
                assert(false);
            }
        }
        return None;
    }
    let n = n32 as usize;
    proof {
        lemma_fundamental_div_mod(usize::MAX - 120, 11);
        assert(11 * (n as int) <= usize::MAX - 120);
    }
    let expected = 120 + 11 * n;
    if len != expected {
        return None;
    }

    let mut ships: Vec<Ship> = Vec::new();
    for i in 0..n
        invariant
            len == b@.len(),
            len == 120 + 11 * (n as int),
            n == n32,
            n32 as int == u32_of4(b@[0], b@[1], b@[2], b@[3]),
            11 * (n as int) <= usize::MAX - 120,
            ships@.len() == i,
            forall|ii: int|
                0 <= ii < i ==> ship_bytes(#[trigger] ships@[ii]) == b@.subrange(
                    4 + 11 * ii,
                    15 + 11 * ii,
                ),
    {
        let off = 4 + 11 * i;
        let t = match type_of_tag(b[off]) {
            Some(t) => t,
            None => {
                proof {
                    assert(!wf_state_bytes(b@)) by {
                        assert(b@[4 + 11 * (i as int)] >= 5);
                    }
                }
                return None;
            },
        };
        let x = read_u32_le(b, off + 1);
        let y = read_u32_le(b, off + 5);
        let d = match dir_of_tag(b[off + 9]) {
            Some(d) => d,
            None => {
                proof {
                    assert(!wf_state_bytes(b@)) by {
                        assert(b@[4 + 11 * (i as int) + 9] >= 2);
                    }
                }
                return None;
            },
        };
        let hits = b[off + 10];
        let sh = Ship { ship_type: t, position: Position { x, y }, direction: d, hits };
        ships.push(sh);
        proof {
            let offi = off as int;
            lemma_u32_of4_le(b@[offi + 1], b@[offi + 2], b@[offi + 3], b@[offi + 4]);
            lemma_u32_of4_le(b@[offi + 5], b@[offi + 6], b@[offi + 7], b@[offi + 8]);
            assert(ship_bytes(sh) =~= b@.subrange(offi, offi + 11));
        }
    }

    let mut pepper = [0u8;16];
    let poff = 4 + 11 * n;
    for k in 0..16usize
        invariant
            len == b@.len(),
            len == 120 + 11 * (n as int),
            poff == 4 + 11 * (n as int),
            forall|kk: int| 0 <= kk < k ==> pepper@[kk] == b@[poff + kk],
    {
        pepper[k] = b[poff + k];
    }

    let mut grid = [[CellState::Empty;BOARD_SIZE];BOARD_SIZE];
    let goff = poff + 16;
    for k in 0..100usize
        invariant
            len == b@.len(),
            len == 120 + 11 * (n as int),
            goff == 20 + 11 * (n as int),
            grid@.len() == 10,
            forall|yy: int| 0 <= yy < 10 ==> (#[trigger] grid@[yy])@.len() == 10,
            forall|kk: int|
                0 <= kk < k ==> cell_tag(#[trigger] grid@[kk / 10]@[kk % 10]) == b@[goff + kk],
    {
        let c = match cell_of_tag(b[goff + k]) {
            Some(c) => c,
            None => {
                proof {
                    assert(!wf_state_bytes(b@)) by {
                        assert(b@[20 + 11 * (n as int) + k] >= 3);
                    }
                }
                return None;
            },
        };
        let y = k / 10;
        let x = k % 10;
        let mut row = grid[y];
        row[x] = c;
        grid[y] = row;
        proof {
            assert forall|kk: int|
                0 <= kk < k + 1 implies cell_tag(#[trigger] grid@[kk / 10]@[kk % 10]) == b@[goff
                + kk] by {
                if kk < k {
                    if kk / 10 == y {
                        assert(kk % 10 != x);
                    }
                }
            }
        }
    }

    let gs = GameState { ships, pepper, grid };
    proof {
        lemma_decode_assemble(gs, b@, n as int);
    }
    Some(gs)
}

/// Law: every canonical serialization of a representable state is a
/// well-formed encoding, so decoding what was encoded succeeds; with
/// injectivity this is the serialize-then-deserialize round trip.
pub proof fn lemma_state_bytes_wf(s: GameState)
    requires
        s.ships@.len() <= 0xffff_ffff,
    ensures
        wf_state_bytes(state_bytes(s)),
{
    let bs = state_bytes(s);
    let n = s.ships@.len() as int;
    lemma_ships_bytes_len(s.ships@);
    lemma_u32_le_value(s.ships@.len() as u32);
    assert(bs.len() == 120 + 11 * n);
    assert(u32_of4(bs[0], bs[1], bs[2], bs[3]) == n);
    assert forall|i: int| 0 <= i < n implies (#[trigger] bs[4 + 11 * i]) < 5 && bs[4 + 11 * i + 9]
        < 2 by {
        lemma_ships_bytes_index(s.ships@, i, 0);
        lemma_ships_bytes_index(s.ships@, i, 9);
        assert(bs[4 + (11 * i + 0)] == ships_bytes(s.ships@)[11 * i + 0]);
        assert(bs[4 + (11 * i + 9)] == ships_bytes(s.ships@)[11 * i + 9]);
        assert(ship_bytes(s.ships@[i])[0] == type_tag(s.ships@[i].ship_type));
        assert(ship_bytes(s.ships@[i])[9] == dir_tag(s.ships@[i].direction));
    }
    assert forall|k: int| 0 <= k < 100 implies (#[trigger] bs[20 + 11 * n + k]) < 3 by {
        assert(bs[20 + 11 * n + k] == grid_bytes(s)[k]);
    }
}

/// Reading back the eight bytes of `v` yields `v`.
pub proof fn lemma_u64_le_value(v: u64)
    ensures
        u64_of_halves(
            u32_of4(u64_le(v)[0], u64_le(v)[1], u64_le(v)[2], u64_le(v)[3]),
            u32_of4(u64_le(v)[4], u64_le(v)[5], u64_le(v)[6], u64_le(v)[7]),
        ) == v,
{
    let x = v as int;
    let lo = (x % 0x1_0000_0000) as u32;
    let hi = (x / 0x1_0000_0000) as u32;
    lemma_remainder_upper(x, 0x1_0000_0000);
    lemma_div_pos_is_pos(x, 0x1_0000_0000);
    lemma_mod_bound(x, 0x1_0000_0000);
    lemma_u32_le_value(lo);
    lemma_u32_le_value(hi);
    lemma_fundamental_div_mod(x, 0x1_0000_0000);
}

} // verus!
