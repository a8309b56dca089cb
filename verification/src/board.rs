//! The board model: positions, directions, ship kinds, ships with their
//! hit masks, and the fixed-size ten-by-ten grid with its placement and
//! shot rules.

use rand::seq::SliceRandom;
use vstd::prelude::*;

verus! {

#[verifier::external_type_specification]
#[verifier::external_body]
pub struct ExThreadRng(rand::rngs::ThreadRng);

/// Width and height of the square board.
pub const BOARD_SIZE: usize = 10;

/// Orientation of a ship: `Horizontal` extends along increasing x,
/// `Vertical` along increasing y.
#[derive(Debug, Clone, Copy, PartialEq, Eq, Structural, Hash)]
pub enum Direction {
    Horizontal,
    Vertical,
}

/// A board coordinate. The 32-bit width is deliberate: the canonical
/// serialization stores each axis as a little-endian `u32`, so the in-memory
/// form matches the wire form exactly.
#[derive(Debug, Clone, Copy, PartialEq, Eq, Structural, Hash)]
pub struct Position {
    pub x: u32,
    pub y: u32,
}

impl Position {
    pub fn new(x: u32, y: u32) -> (p: Self)
        ensures
            p.x == x,
            p.y == y,
    {
        Self { x, y }
    }

    /// The cell `dist` steps from `self` along `dir`.
    pub fn step(self, dir: Direction, dist: u32) -> (p: Self)
        requires
            self.x + dist <= u32::MAX,
            self.y + dist <= u32::MAX,
        ensures
            p == spec_step(self, dir, dist as int),
    {
        match dir {
            Direction::Vertical => Self { x: self.x, y: self.y + dist },
            Direction::Horizontal => Self { x: self.x + dist, y: self.y },
        }
    }

    pub fn in_bounds(&self) -> (r: bool)
        ensures
            r == spec_in_bounds(*self),
    {
        self.x < BOARD_SIZE as u32 && self.y < BOARD_SIZE as u32
    }
}

/// Where a step along `dir` by `dist` lands, as unbounded integers.
pub open spec fn spec_step(p: Position, dir: Direction, dist: int) -> Position {
    match dir {
        Direction::Vertical => Position { x: p.x, y: (p.y + dist) as u32 },
        Direction::Horizontal => Position { x: (p.x + dist) as u32, y: p.y },
    }
}

pub open spec fn spec_in_bounds(p: Position) -> bool {
    p.x < 10 && p.y < 10
}

/// The five ship kinds of the canonical fleet, in declaration order.
#[derive(Debug, Clone, Copy, PartialEq, Eq, Structural, Hash)]
pub enum ShipType {
    Carrier,
    Battleship,
    Cruiser,
    Submarine,
    Destroyer,
}

/// Number of cells a ship of kind `t` occupies.
pub open spec fn ship_size(t: ShipType) -> int {
    match t {
        ShipType::Carrier => 5,
        ShipType::Battleship => 4,
        ShipType::Cruiser => 3,
        ShipType::Submarine => 3,
        ShipType::Destroyer => 2,
    }
}

/// Stable index of a ship kind, its declaration order.
pub open spec fn ship_type_index(t: ShipType) -> int {
    match t {
        ShipType::Carrier => 0,
        ShipType::Battleship => 1,
        ShipType::Cruiser => 2,
        ShipType::Submarine => 3,
        ShipType::Destroyer => 4,
    }
}

/// Bitmask with the low `ship_size(t)` bits set: the hit mask of a fully
/// sunk ship of kind `t`.
pub open spec fn full_mask(t: ShipType) -> u8 {
    match t {
        ShipType::Carrier => 0x1f,
        ShipType::Battleship => 0x0f,
        ShipType::Cruiser => 0x07,
        ShipType::Submarine => 0x07,
        ShipType::Destroyer => 0x03,
    }
}

impl ShipType {
    pub fn size(&self) -> (r: u8)
        ensures
            r == ship_size(*self),
    {
        match self {
            ShipType::Carrier => 5,
            ShipType::Battleship => 4,
            ShipType::Cruiser => 3,
            ShipType::Submarine => 3,
            ShipType::Destroyer => 2,
        }
    }

    /// Return a stable index for this ship type.
    pub fn index(&self) -> (r: usize)
        ensures
            r == ship_type_index(*self),
    {
        match self {
            ShipType::Carrier => 0,
            ShipType::Battleship => 1,
            ShipType::Cruiser => 2,
            ShipType::Submarine => 3,
            ShipType::Destroyer => 4,
        }
    }
}

/// A placed ship. `hits` is a bitmask: bit `i` is set iff the ship's `i`-th
/// segment, counted from `position` along `direction`, has been hit. Only
/// the low `ship_size` bits are meaningful.
#[derive(Debug, Clone, Copy, PartialEq, Eq, Structural, Hash)]
pub struct Ship {
    pub ship_type: ShipType,
    pub position: Position,
    pub direction: Direction,
    pub hits: u8,
}

/// Does ship `s` occupy the cell `(x, y)`?
pub open spec fn ship_covers(s: Ship, x: int, y: int) -> bool {
    match s.direction {
        Direction::Horizontal => y == s.position.y && s.position.x <= x
            < s.position.x + ship_size(s.ship_type),
        Direction::Vertical => x == s.position.x && s.position.y <= y < s.position.y + ship_size(
            s.ship_type,
        ),
    }
}

/// Segment number of cell `(x, y)` within ship `s`, meaningful when
/// `ship_covers(s, x, y)`.
pub open spec fn ship_offset(s: Ship, x: int, y: int) -> int {
    match s.direction {
        Direction::Horizontal => x - s.position.x,
        Direction::Vertical => y - s.position.y,
    }
}

/// Is bit `i` of the hit mask `hits` set?
pub open spec fn hit_bit(hits: u8, i: int) -> bool {
    hits & (1u8 << (i as u8)) != 0
}

/// The whole ship, start and end, lies on the board.
pub open spec fn ship_in_bounds(s: Ship) -> bool {
    spec_in_bounds(s.position) && match s.direction {
        Direction::Horizontal => s.position.x + ship_size(s.ship_type) <= 10,
        Direction::Vertical => s.position.y + ship_size(s.ship_type) <= 10,
    }
}

/// Two ships overlap when some cell is covered by both.
pub open spec fn ships_overlap(a: Ship, b: Ship) -> bool {
    exists|x: int, y: int| #[trigger] ship_covers(a, x, y) && #[trigger] ship_covers(b, x, y)
}

impl Ship {
    pub fn new(ship_type: ShipType, position: Position, direction: Direction) -> (s: Self)
        ensures
            s == (Ship { ship_type, position, direction, hits: 0u8 }),
    {
        Self { ship_type, position, direction, hits: 0 }
    }

    pub fn is_sunk(&self) -> (r: bool)
        ensures
            r == (self.hits & full_mask(self.ship_type) == full_mask(self.ship_type)),
    {
        let size = self.ship_type.size();
        proof {
            assert(1u8 << size >= 1) by (bit_vector)
                requires
                    size < 8u8,
            ;
        }
        let mask = if size >= 8 {
            0xffu8
        } else {
            (1u8 << size) - 1
        };
        proof {
            assert(ship_size(self.ship_type) == 2 || ship_size(self.ship_type) == 3 || ship_size(
                self.ship_type,
            ) == 4 || ship_size(self.ship_type) == 5);
            assert((1u8 << 2u8) - 1 == 0x03 && (1u8 << 3u8) - 1 == 0x07 && (1u8 << 4u8) - 1 == 0x0f
                && (1u8 << 5u8) - 1 == 0x1f) by (bit_vector);
            assert(mask == full_mask(self.ship_type));
        }
        (self.hits & mask) == mask
    }

    /// Record the absolute board coordinate `shot` against this ship.
    ///
    /// When the shot lands on one of the ship's segments, the matching bit
    /// of `hits` is set and the call returns true; otherwise the ship is
    /// unchanged and the call returns false. The board grid is not
    /// consulted: bounds are the caller's concern.
    pub fn check_hit(&mut self, shot: Position) -> (r: bool)
        ensures
            r == ship_covers(*old(self), shot.x as int, shot.y as int),
            r ==> *final(self) == (Ship {
                hits: old(self).hits | (1u8 << (ship_offset(
                    *old(self),
                    shot.x as int,
                    shot.y as int,
                ) as u8)),
                ..*old(self)
            }),
            !r ==> *final(self) == *old(self),
    {
        let ship_x = self.position.x;
        let ship_y = self.position.y;

        match self.direction {
            Direction::Horizontal => {
                if shot.y != ship_y || shot.x < ship_x {
                    return false;
                }
                let offset = shot.x - ship_x;
                if offset < self.ship_type.size() as u32 {
                    self.hits = self.hits | (1u8 << (offset as u8));
                    return true;
                }
            },
            Direction::Vertical => {
                if shot.x != ship_x || shot.y < ship_y {
                    return false;
                }
                let offset = shot.y - ship_y;
                if offset < self.ship_type.size() as u32 {
                    self.hits = self.hits | (1u8 << (offset as u8));
                    return true;
                }
            },
        }
        false
    }

    /// Does this ship occupy the cell `p`?
    pub fn covers_cell(&self, p: Position) -> (r: bool)
        ensures
            r == ship_covers(*self, p.x as int, p.y as int),
    {
        match self.direction {
            Direction::Horizontal => {
                p.y == self.position.y && p.x >= self.position.x && p.x - self.position.x < (
                self.ship_type.size() as u32)
            },
            Direction::Vertical => {
                p.x == self.position.x && p.y >= self.position.y && p.y - self.position.y < (
                self.ship_type.size() as u32)
            },
        }
    }

    /// All coordinates this ship occupies, from its origin outwards.
    pub fn get_coordinates(&self) -> (r: Vec<Position>)
        requires
            ship_in_bounds(*self),
        ensures
            r@.len() == ship_size(self.ship_type),
            forall|i: int|
                0 <= i < r@.len() ==> r@[i] == spec_step(self.position, self.direction, i),
    {
        let size = self.ship_type.size();
        let mut coords: Vec<Position> = Vec::new();
        for offset in 0..size
            invariant
                coords@.len() == offset,
                size == ship_size(self.ship_type),
                ship_in_bounds(*self),
                forall|i: int|
                    0 <= i < coords@.len() ==> coords@[i] == spec_step(
                        self.position,
                        self.direction,
                        i,
                    ),
        {
            coords.push(self.position.step(self.direction, offset as u32));
        }
        coords
    }
}

/// State of one grid cell. `Empty` means no shot has targeted the cell.
#[derive(Debug, Clone, Copy, PartialEq, Eq, Structural, Hash)]
pub enum CellState {
    Empty,
    Miss,
    Hit,
}

/// Outcome of a shot.
#[derive(Debug, Clone, Copy, PartialEq, Eq, Structural, Hash)]
pub enum HitType {
    Miss,
    Hit,
    Sunk(ShipType),
}

/// The authoritative board: placed ships in placement order, the 16-byte
/// commitment pepper, and the shot grid in row-major order (`grid[y][x]`).
#[derive(Debug, Clone, PartialEq, Eq, Hash)]
pub struct GameState {
    pub ships: Vec<Ship>,
    pub pepper: [u8; 16],
    pub grid: [[CellState; BOARD_SIZE]; BOARD_SIZE],
}

/// The cell `(x, y)` of `s`'s grid.
pub open spec fn cell_at(s: GameState, x: int, y: int) -> CellState {
    s.grid@[y]@[x]
}

/// The placement predicate over a fleet: the candidate ship must start
/// and end on the board, its kind must not already be placed, and its
/// cells must be disjoint from every placed ship's cells.
pub open spec fn can_place_on(ships: Seq<Ship>, t: ShipType, pos: Position, dir: Direction) -> bool {
    &&& spec_in_bounds(pos)
    &&& spec_in_bounds(spec_step(pos, dir, ship_size(t) - 1))
    &&& forall|i: int| 0 <= i < ships.len() ==> (#[trigger] ships[i]).ship_type != t
    &&& forall|i: int|
        0 <= i < ships.len() ==> !ships_overlap(
            #[trigger] ships[i],
            Ship { ship_type: t, position: pos, direction: dir, hits: 0u8 },
        )
}

/// The placement predicate on a board.
pub open spec fn spec_can_place(s: GameState, t: ShipType, pos: Position, dir: Direction) -> bool {
    can_place_on(s.ships@, t, pos, dir)
}

/// Does the fleet hold a ship of kind `t`?
pub open spec fn has_type_in(ships: Seq<Ship>, t: ShipType) -> bool {
    exists|i: int| 0 <= i < ships.len() && (#[trigger] ships[i]).ship_type == t
}

/// Is some ship of kind `t` placed on `s`?
pub open spec fn has_ship_type(s: GameState, t: ShipType) -> bool {
    has_type_in(s.ships@, t)
}

/// Pairwise consistency of a fleet: every ship on the board, no two
/// overlapping, no two of the same kind.
pub open spec fn fleet_ok(ships: Seq<Ship>) -> bool {
    &&& forall|i: int| 0 <= i < ships.len() ==> ship_in_bounds(#[trigger] ships[i])
    &&& forall|i: int, j: int|
        0 <= i < j < ships.len() ==> (#[trigger] ships[i]).ship_type != (
        #[trigger] ships[j]).ship_type
    &&& forall|i: int, j: int|
        0 <= i < j < ships.len() ==> !ships_overlap(#[trigger] ships[i], #[trigger] ships[j])
}

/// The full consistency predicate: a pairwise-consistent fleet with each
/// of the five kinds present.
pub open spec fn spec_well_formed(s: GameState) -> bool {
    &&& fleet_ok(s.ships@)
    &&& has_ship_type(s, ShipType::Carrier)
    &&& has_ship_type(s, ShipType::Battleship)
    &&& has_ship_type(s, ShipType::Cruiser)
    &&& has_ship_type(s, ShipType::Submarine)
    &&& has_ship_type(s, ShipType::Destroyer)
}

/// The fleet after the first `i` entries of a placement list have been
/// tried in order: a successful entry appends its fresh ship, a failed
/// one leaves the fleet as it was.
pub open spec fn place_all_ships(
    ships: Seq<Ship>,
    list: Seq<(ShipType, Position, Direction)>,
    i: int,
) -> Seq<Ship>
    decreases i,
{
    if i <= 0 {
        ships
    } else {
        let prev = place_all_ships(ships, list, i - 1);
        let (t, p, d) = list[i - 1];
        if can_place_on(prev, t, p, d) {
            prev.push(Ship { ship_type: t, position: p, direction: d, hits: 0u8 })
        } else {
            prev
        }
    }
}

/// Did every one of the first `i` entries of the placement list succeed?
pub open spec fn place_all_ok(
    ships: Seq<Ship>,
    list: Seq<(ShipType, Position, Direction)>,
    i: int,
) -> bool
    decreases i,
{
    if i <= 0 {
        true
    } else {
        let (t, p, d) = list[i - 1];
        place_all_ok(ships, list, i - 1) && can_place_on(place_all_ships(ships, list, i - 1), t, p, d)
    }
}

impl GameState {
    /// A fresh board: no ships, all cells `Empty`, the given pepper.
    pub fn new(pepper: [u8; 16]) -> (s: Self)
        ensures
            s.ships@.len() == 0,
            s.pepper == pepper,
            forall|x: int, y: int| 0 <= x < 10 && 0 <= y < 10 ==> cell_at(s, x, y) == CellState::Empty,
            hits_marked(s),
    {
        Self { ships: Vec::new(), pepper, grid: [[CellState::Empty; BOARD_SIZE]; BOARD_SIZE] }
    }

    /// An element-for-element copy of this state.
    pub fn duplicate(&self) -> (r: Self)
        ensures
            r.ships@ == self.ships@,
            r.pepper == self.pepper,
            r.grid == self.grid,
    {
        let mut ships: Vec<Ship> = Vec::new();
        for i in 0..self.ships.len()
            invariant
                ships@ =~= self.ships@.subrange(0, i as int),
        {
            ships.push(self.ships[i]);
        }
        proof {
            assert(ships@ =~= self.ships@);
        }
        Self { ships, pepper: self.pepper, grid: self.grid }
    }

    /// Check whether a ship of kind `ship_type` can be placed at `pos`
    /// facing `direction`: start and end on the board, the kind not yet
    /// placed, and no overlap with any placed ship.
    pub fn can_place_ship(&self, ship_type: ShipType, pos: Position, direction: Direction) -> (r:
        bool)
        ensures
            r == spec_can_place(*self, ship_type, pos, direction),
    {
        if !pos.in_bounds() {
            return false;
        }
        let size = ship_type.size();
        let end = pos.step(direction, (size - 1) as u32);
        if !end.in_bounds() {
            return false;
        }
        let ghost cand = Ship { ship_type, position: pos, direction, hits: 0u8 };
        assert(ship_in_bounds(cand));

        let n = self.ships.len();
        for i in 0..n
            invariant
                n == self.ships@.len(),
                forall|j: int| 0 <= j < i ==> (#[trigger] self.ships@[j]).ship_type != ship_type,
        {
            if self.ships[i].ship_type == ship_type {
                proof {
                    assert(self.ships@[i as int].ship_type == ship_type);
                }
                return false;
            }
        }

        let cand_ship = Ship::new(ship_type, pos, direction);
        for i in 0..n
            invariant
                n == self.ships@.len(),
                cand_ship == cand,
                cand == (Ship { ship_type, position: pos, direction, hits: 0u8 }),
                ship_in_bounds(cand),
                forall|j: int| 0 <= j < i ==> !ships_overlap(#[trigger] self.ships@[j], cand),
        {
            if ships_overlap_exec(&cand_ship, &self.ships[i]) {
                proof {
                    lemma_overlap_symmetric(cand, self.ships@[i as int]);
                }
                return false;
            }
            proof {
                lemma_overlap_symmetric(self.ships@[i as int], cand);
            }
        }
        true
    }

    /// Run the full consistency check: every ship within bounds, no two
    /// ships overlapping, no two ships of the same kind, and all five
    /// kinds present.
    pub fn check(&self) -> (r: bool)
        ensures
            r == spec_well_formed(*self),
    {
        let n = self.ships.len();
        for i in 0..n
            invariant
                n == self.ships@.len(),
                forall|ii: int| 0 <= ii < i ==> ship_in_bounds(#[trigger] self.ships@[ii]),
                forall|ii: int, jj: int|
                    0 <= ii < i && ii < jj < n ==> (#[trigger] self.ships@[ii]).ship_type != (
                    #[trigger] self.ships@[jj]).ship_type,
                forall|ii: int, jj: int|
                    0 <= ii < i && ii < jj < n ==> !ships_overlap(
                        #[trigger] self.ships@[ii],
                        #[trigger] self.ships@[jj],
                    ),
        {
            let si = self.ships[i];
            if !ship_in_bounds_exec(&si) {
                return false;
            }
            let mut j = i + 1;
            while j < n
                invariant
                    i < j <= n,
                    n == self.ships@.len(),
                    si == self.ships@[i as int],
                    ship_in_bounds(si),
                    forall|jj: int|
                        i < jj < j ==> si.ship_type != (#[trigger] self.ships@[jj]).ship_type,
                    forall|jj: int|
                        i < jj < j ==> !ships_overlap(si, #[trigger] self.ships@[jj]),
                decreases n - j,
            {
                if si.ship_type == self.ships[j].ship_type {
                    return false;
                }
                if ships_overlap_exec(&si, &self.ships[j]) {
                    return false;
                }
                j += 1;
            }
        }

        let mut found = [false;5];
        for i in 0..n
            invariant
                n == self.ships@.len(),
                found@.len() == 5,
                forall|k: int|
                    0 <= k < 5 ==> (found@[k] <==> exists|ii: int|
                        0 <= ii < i && ship_type_index((#[trigger] self.ships@[ii]).ship_type)
                            == k),
        {
            let idx = self.ships[i].ship_type.index();
            found[idx] = true;
            proof {
                assert(ship_type_index(self.ships@[i as int].ship_type) == idx);
            }
        }
        let all = found[0] && found[1] && found[2] && found[3] && found[4];
        proof {
            if all {
                let i0 = choose|ii: int|
                    0 <= ii < n && ship_type_index((#[trigger] self.ships@[ii]).ship_type) == 0;
                assert(self.ships@[i0].ship_type == ShipType::Carrier);
                let i1 = choose|ii: int|
                    0 <= ii < n && ship_type_index((#[trigger] self.ships@[ii]).ship_type) == 1;
                assert(self.ships@[i1].ship_type == ShipType::Battleship);
                let i2 = choose|ii: int|
                    0 <= ii < n && ship_type_index((#[trigger] self.ships@[ii]).ship_type) == 2;
                assert(self.ships@[i2].ship_type == ShipType::Cruiser);
                let i3 = choose|ii: int|
                    0 <= ii < n && ship_type_index((#[trigger] self.ships@[ii]).ship_type) == 3;
                assert(self.ships@[i3].ship_type == ShipType::Submarine);
                let i4 = choose|ii: int|
                    0 <= ii < n && ship_type_index((#[trigger] self.ships@[ii]).ship_type) == 4;
                assert(self.ships@[i4].ship_type == ShipType::Destroyer);
                assert(spec_well_formed(*self));
            } else {
                if !found@[0] {
                    assert(!has_ship_type(*self, ShipType::Carrier)) by {
                        if has_ship_type(*self, ShipType::Carrier) {
                            let ii = choose|ii: int|
                                0 <= ii < self.ships@.len() && (#[trigger] self.ships@[ii]).ship_type
                                    == ShipType::Carrier;
                            assert(ship_type_index(self.ships@[ii].ship_type) == 0);
                        }
                    }
                } else if !found@[1] {
                    assert(!has_ship_type(*self, ShipType::Battleship)) by {
                        if has_ship_type(*self, ShipType::Battleship) {
                            let ii = choose|ii: int|
                                0 <= ii < self.ships@.len() && (#[trigger] self.ships@[ii]).ship_type
                                    == ShipType::Battleship;
                            assert(ship_type_index(self.ships@[ii].ship_type) == 1);
                        }
                    }
                } else if !found@[2] {
                    assert(!has_ship_type(*self, ShipType::Cruiser)) by {
                        if has_ship_type(*self, ShipType::Cruiser) {
                            let ii = choose|ii: int|
                                0 <= ii < self.ships@.len() && (#[trigger] self.ships@[ii]).ship_type
                                    == ShipType::Cruiser;
                            assert(ship_type_index(self.ships@[ii].ship_type) == 2);
                        }
                    }
                } else if !found@[3] {
                    assert(!has_ship_type(*self, ShipType::Submarine)) by {
                        if has_ship_type(*self, ShipType::Submarine) {
                            let ii = choose|ii: int|
                                0 <= ii < self.ships@.len() && (#[trigger] self.ships@[ii]).ship_type
                                    == ShipType::Submarine;
                            assert(ship_type_index(self.ships@[ii].ship_type) == 3);
                        }
                    }
                } else {
                    assert(!has_ship_type(*self, ShipType::Destroyer)) by {
                        if has_ship_type(*self, ShipType::Destroyer) {
                            let ii = choose|ii: int|
                                0 <= ii < self.ships@.len() && (#[trigger] self.ships@[ii]).ship_type
                                    == ShipType::Destroyer;
                            assert(ship_type_index(self.ships@[ii].ship_type) == 4);
                        }
                    }
                }
                assert(!spec_well_formed(*self));
            }
        }
        all
    }

    /// Apply a shot at `shot`.
    ///
    /// Returns `None` when the shot is off the board or the cell was
    /// already shot; the state is then unchanged. Otherwise the first ship
    /// in placement order covering the cell, if any, takes the hit: its
    /// mask bit is set and the cell becomes `Hit`, and the result is
    /// `Sunk` when the mask is now full, else `Hit`. With no covering
    /// ship the cell becomes `Miss` and the result is `Miss`.
    pub fn apply_shot(&mut self, shot: Position) -> (r: Option<HitType>)
        ensures
            (r is None) <==> spec_shot_rejected(*old(self), shot),
            r is None ==> *final(self) == *old(self),
            r is Some ==> r == Some(spec_shot_outcome(*old(self), shot)),
            r is Some ==> shot_transition(*old(self), *final(self), shot),
    {
        if !shot.in_bounds() {
            return None;
        }
        let x = shot.x as usize;
        let y = shot.y as usize;
        if self.grid[y][x] != CellState::Empty {
            return None;
        }

        let ghost gx = shot.x as int;
        let ghost gy = shot.y as int;
        let n = self.ships.len();
        for i in 0..n
            invariant
                n == self.ships@.len(),
                *self == *old(self),
                x == shot.x && y == shot.y,
                gx == shot.x as int && gy == shot.y as int,
                spec_in_bounds(shot),
                cell_at(*old(self), gx, gy) == CellState::Empty,
                first_cover(self.ships@, gx, gy) == first_cover_from(self.ships@, gx, gy, i as int),
        {
            let mut sh = self.ships[i];
            if sh.check_hit(shot) {
                proof {
                    assert(first_cover(old(self).ships@, gx, gy) == i);
                }
                self.ships.set(i, sh);
                let mut row = self.grid[y];
                row[x] = CellState::Hit;
                self.grid[y] = row;
                if sh.is_sunk() {
                    return Some(HitType::Sunk(sh.ship_type));
                }
                return Some(HitType::Hit);
            }
        }
        proof {
            assert(first_cover(old(self).ships@, gx, gy) == old(self).ships@.len());
        }
        let mut row = self.grid[y];
        row[x] = CellState::Miss;
        self.grid[y] = row;
        Some(HitType::Miss)
    }

    /// Attempt to place a ship; on success the fresh ship is appended to
    /// `ships` with a zero hit mask, otherwise nothing changes.
    pub fn place_ship(&mut self, ship_type: ShipType, pos: Position, direction: Direction) -> (r:
        bool)
        ensures
            r == spec_can_place(*old(self), ship_type, pos, direction),
            r ==> final(self).ships@ == old(self).ships@.push(
                Ship { ship_type, position: pos, direction, hits: 0u8 },
            ),
            !r ==> final(self).ships@ == old(self).ships@,
            final(self).pepper == old(self).pepper,
            final(self).grid == old(self).grid,
    {
        if self.can_place_ship(ship_type, pos, direction) {
            self.ships.push(Ship::new(ship_type, pos, direction));
            true
        } else {
            false
        }
    }

    /// Place several ships in order. Deliberately non-atomic: earlier
    /// successful placements remain even when a later one fails. Returns
    /// true only when every placement succeeded.
    pub fn place_ships(&mut self, ships: Vec<(ShipType, Position, Direction)>) -> (r: bool)
        ensures
            final(self).ships@ == place_all_ships(old(self).ships@, ships@, ships@.len() as int),
            r == place_all_ok(old(self).ships@, ships@, ships@.len() as int),
            final(self).pepper == old(self).pepper,
            final(self).grid == old(self).grid,
    {
        let mut all_ok = true;
        let n = ships.len();
        for i in 0..n
            invariant
                n == ships@.len(),
                self.ships@ == place_all_ships(old(self).ships@, ships@, i as int),
                all_ok == place_all_ok(old(self).ships@, ships@, i as int),
                self.pepper == old(self).pepper,
                self.grid == old(self).grid,
        {
            let (ship_type, pos, direction) = ships[i];
            let ok = self.place_ship(ship_type, pos, direction);
            if !ok {
                all_ok = false;
            }
        }
        all_ok
    }

    /// Try to place the whole fleet at random: the board's cells are
    /// shuffled once, and each ship kind in canonical order takes the
    /// first spot, horizontal before vertical, where it fits. On failure
    /// the fleet is cleared and the call reports false.
    pub fn place_ships_randomly(&mut self) -> (r: bool)
        ensures
            final(self).pepper == old(self).pepper,
            final(self).grid == old(self).grid,
            !r ==> final(self).ships@.len() == 0,
            r ==> spec_well_formed(*final(self)),
            r ==> final(self).ships@.len() == 5,
            r ==> forall|i: int|
                0 <= i < 5 ==> ship_type_index((#[trigger] final(self).ships@[i]).ship_type) == i
                    && final(self).ships@[i].hits == 0u8,
            hits_marked(*final(self)),
    {
        let mut positions: Vec<Position> = Vec::new();
        for x in 0..10u32
            invariant
                positions@.len() == 10 * x,
        {
            for y in 0..10u32
                invariant
                    positions@.len() == 10 * x + y,
            {
                positions.push(Position::new(x, y));
            }
        }
        let mut rng = fresh_rng();
        shuffle_positions(&mut positions, &mut rng);

        self.ships.clear();
        let mut ok = self.try_place_one(ShipType::Carrier, &positions);
        if ok {
            ok = self.try_place_one(ShipType::Battleship, &positions);
        }
        if ok {
            ok = self.try_place_one(ShipType::Cruiser, &positions);
        }
        if ok {
            ok = self.try_place_one(ShipType::Submarine, &positions);
        }
        if ok {
            ok = self.try_place_one(ShipType::Destroyer, &positions);
        }
        if !ok {
            self.ships.clear();
            proof {
                lemma_no_hits_marked(*self);
            }
            return false;
        }
        proof {
            assert(self.ships@[0].ship_type == ShipType::Carrier);
            assert(self.ships@[1].ship_type == ShipType::Battleship);
            assert(self.ships@[2].ship_type == ShipType::Cruiser);
            assert(self.ships@[3].ship_type == ShipType::Submarine);
            assert(self.ships@[4].ship_type == ShipType::Destroyer);
            lemma_no_hits_marked(*self);
        }
        true
    }

    /// Place one ship of kind `t` at the first candidate position, tried
    /// horizontally then vertically, where the placement predicate holds.
    fn try_place_one(&mut self, t: ShipType, positions: &Vec<Position>) -> (r: bool)
        ensures
            final(self).pepper == old(self).pepper,
            final(self).grid == old(self).grid,
            !r ==> final(self).ships@ == old(self).ships@,
            r ==> final(self).ships@.len() == old(self).ships@.len() + 1,
            r ==> final(self).ships@.subrange(0, old(self).ships@.len() as int) == old(
                self,
            ).ships@,
            r ==> final(self).ships@.last().ship_type == t && final(self).ships@.last().hits
                == 0u8,
            r && fleet_ok(old(self).ships@) ==> fleet_ok(final(self).ships@),
    {
        let n = positions.len();
        for i in 0..n
            invariant
                n == positions@.len(),
                self.ships@ == old(self).ships@,
                self.pepper == old(self).pepper,
                self.grid == old(self).grid,
        {
            let p = positions[i];
            let ghost before = self.ships@;
            if self.place_ship(t, p, Direction::Horizontal) {
                proof {
                    lemma_place_success(before, t, p, Direction::Horizontal);
                }
                return true;
            }
            if self.place_ship(t, p, Direction::Vertical) {
                proof {
                    lemma_place_success(before, t, p, Direction::Vertical);
                }
                return true;
            }
        }
        false
    }

    /// Has every placed ship been fully hit?
    pub fn all_sunk(&self) -> (r: bool)
        ensures
            r == (forall|i: int| 0 <= i < self.ships@.len() ==> ship_full(#[trigger] self.ships@[i])),
    {
        let n = self.ships.len();
        for i in 0..n
            invariant
                n == self.ships@.len(),
                forall|j: int| 0 <= j < i ==> ship_full(#[trigger] self.ships@[j]),
        {
            let sh = self.ships[i];
            if !sh.is_sunk() {
                return false;
            }
        }
        true
    }
}

/// Relies on rand's `thread_rng`: a handle to the thread-local generator.
#[verifier::external_body]
fn fresh_rng() -> rand::rngs::ThreadRng {
    rand::thread_rng()
}

/// Relies on rand's `SliceRandom::shuffle`: an in-place Fisher-Yates pass
/// that only swaps elements, so the same cells come back in some order.
#[verifier::external_body]
fn shuffle_positions(v: &mut Vec<Position>, rng: &mut rand::rngs::ThreadRng)
    ensures
        final(v)@.to_multiset() == old(v)@.to_multiset(),
{
    v.as_mut_slice().shuffle(rng);
}

/// A fleet whose masks are all zero trivially satisfies the grid-mask
/// invariant.
pub proof fn lemma_no_hits_marked(s: GameState)
    requires
        forall|i: int| 0 <= i < s.ships@.len() ==> (#[trigger] s.ships@[i]).hits == 0u8,
    ensures
        hits_marked(s),
{
    assert forall|i: int, o: int|
        0 <= i < s.ships@.len() && 0 <= o < ship_size(s.ships@[i].ship_type) && #[trigger] hit_bit(
            s.ships@[i].hits,
            o,
        ) implies cell_at(s, seg_x(s.ships@[i], o), seg_y(s.ships@[i], o)) == CellState::Hit by {
        let ob = o as u8;
        assert(0u8 & (1u8 << ob) == 0) by (bit_vector);
    }
}

/// What one successful placement leaves behind: the old fleet as a
/// prefix, the fresh ship at the end, and pairwise consistency kept.
proof fn lemma_place_success(before: Seq<Ship>, t: ShipType, p: Position, d: Direction)
    requires
        can_place_on(before, t, p, d),
    ensures
        ({
            let after = before.push(Ship { ship_type: t, position: p, direction: d, hits: 0u8 });
            &&& after.len() == before.len() + 1
            &&& after.subrange(0, before.len() as int) == before
            &&& after.last().ship_type == t && after.last().hits == 0u8
            &&& (fleet_ok(before) ==> fleet_ok(after))
        }),
{
    let after = before.push(Ship { ship_type: t, position: p, direction: d, hits: 0u8 });
    assert(after.subrange(0, before.len() as int) =~= before);
    if fleet_ok(before) {
        lemma_place_preserves_fleet_ok(before, t, p, d);
    }
}

/// Every successful placement keeps the fleet pairwise consistent.
pub proof fn lemma_place_preserves_fleet_ok(
    ships: Seq<Ship>,
    t: ShipType,
    pos: Position,
    dir: Direction,
)
    requires
        fleet_ok(ships),
        can_place_on(ships, t, pos, dir),
    ensures
        fleet_ok(ships.push(Ship { ship_type: t, position: pos, direction: dir, hits: 0u8 })),
{
    let cand = Ship { ship_type: t, position: pos, direction: dir, hits: 0u8 };
    let after = ships.push(cand);
    assert(ship_in_bounds(cand));
    assert forall|i: int| 0 <= i < after.len() implies ship_in_bounds(#[trigger] after[i]) by {
        if i < ships.len() {
            assert(after[i] == ships[i]);
        }
    }
    assert forall|i: int, j: int| 0 <= i < j < after.len() implies (#[trigger] after[i]).ship_type
        != (#[trigger] after[j]).ship_type by {
        if j < ships.len() {
            assert(after[i] == ships[i] && after[j] == ships[j]);
        } else {
            assert(after[j] == cand && after[i] == ships[i]);
        }
    }
    assert forall|i: int, j: int| 0 <= i < j < after.len() implies !ships_overlap(
        #[trigger] after[i],
        #[trigger] after[j],
    ) by {
        if j < ships.len() {
            assert(after[i] == ships[i] && after[j] == ships[j]);
        } else {
            assert(after[j] == cand && after[i] == ships[i]);
        }
    }
}

/// Law: a placement list whose first `i` entries all succeed appends one
/// fresh ship per entry, in input order, and keeps the fleet pairwise
/// consistent.
pub proof fn lemma_place_all_appends(
    ships: Seq<Ship>,
    list: Seq<(ShipType, Position, Direction)>,
    i: int,
)
    requires
        0 <= i <= list.len(),
        fleet_ok(ships),
        place_all_ok(ships, list, i),
    ensures
        place_all_ships(ships, list, i) =~= ships + Seq::new(
            i as nat,
            |j: int|
                Ship {
                    ship_type: list[j].0,
                    position: list[j].1,
                    direction: list[j].2,
                    hits: 0u8,
                },
        ),
        fleet_ok(place_all_ships(ships, list, i)),
    decreases i,
{
    if i > 0 {
        lemma_place_all_appends(ships, list, i - 1);
        let prev = place_all_ships(ships, list, i - 1);
        let (t, p, d) = list[i - 1];
        lemma_place_preserves_fleet_ok(prev, t, p, d);
    }
}

/// Law: when a placement list succeeds in full on a board whose fleet was
/// consistent, and the list names every ship kind, the resulting fleet is
/// well formed: the ships stand in input order after the old ones, each
/// with a fresh hit mask, and all five kinds are present.
pub proof fn lemma_place_all_well_formed(s: GameState, list: Seq<(ShipType, Position, Direction)>)
    requires
        fleet_ok(s.ships@),
        place_all_ok(s.ships@, list, list.len() as int),
        exists|j: int| 0 <= j < list.len() && (#[trigger] list[j]).0 == ShipType::Carrier,
        exists|j: int| 0 <= j < list.len() && (#[trigger] list[j]).0 == ShipType::Battleship,
        exists|j: int| 0 <= j < list.len() && (#[trigger] list[j]).0 == ShipType::Cruiser,
        exists|j: int| 0 <= j < list.len() && (#[trigger] list[j]).0 == ShipType::Submarine,
        exists|j: int| 0 <= j < list.len() && (#[trigger] list[j]).0 == ShipType::Destroyer,
    ensures
        ({
            let after = place_all_ships(s.ships@, list, list.len() as int);
            &&& after =~= s.ships@ + Seq::new(
                list.len(),
                |j: int|
                    Ship {
                        ship_type: list[j].0,
                        position: list[j].1,
                        direction: list[j].2,
                        hits: 0u8,
                    },
            )
            &&& fleet_ok(after)
            &&& has_type_in(after, ShipType::Carrier)
            &&& has_type_in(after, ShipType::Battleship)
            &&& has_type_in(after, ShipType::Cruiser)
            &&& has_type_in(after, ShipType::Submarine)
            &&& has_type_in(after, ShipType::Destroyer)
        }),
{
    let n = list.len() as int;
    lemma_place_all_appends(s.ships@, list, n);
    let after = place_all_ships(s.ships@, list, n);
    assert forall|t: ShipType| (exists|j: int|
        0 <= j < list.len() && (#[trigger] list[j]).0 == t) implies has_type_in(after, t) by {
        let j = choose|j: int| 0 <= j < list.len() && (#[trigger] list[j]).0 == t;
        assert(after[s.ships@.len() + j].ship_type == t);
    }
}

/// Does some cell lie on both `a` and `b`? `a` must be on the board so
/// that its cells can be enumerated.
pub fn ships_overlap_exec(a: &Ship, b: &Ship) -> (r: bool)
    requires
        ship_in_bounds(*a),
    ensures
        r == ships_overlap(*a, *b),
{
    let size = a.ship_type.size();
    for o in 0..size
        invariant
            size == ship_size(a.ship_type),
            ship_in_bounds(*a),
            forall|oo: int|
                0 <= oo < o ==> !ship_covers(
                    *b,
                    spec_step(a.position, a.direction, oo).x as int,
                    spec_step(a.position, a.direction, oo).y as int,
                ),
    {
        let c = a.position.step(a.direction, o as u32);
        if b.covers_cell(c) {
            proof {
                assert(ship_covers(*a, c.x as int, c.y as int));
            }
            return true;
        }
    }
    proof {
        assert forall|x: int, y: int| !(ship_covers(*a, x, y) && ship_covers(*b, x, y)) by {
            if ship_covers(*a, x, y) {
                let o = ship_offset(*a, x, y);
                assert(0 <= o < ship_size(a.ship_type));
                assert(spec_step(a.position, a.direction, o).x == x && spec_step(
                    a.position,
                    a.direction,
                    o,
                ).y == y);
            }
        }
    }
    false
}

/// Is ship `s` entirely on the board? Executable form of `ship_in_bounds`.
pub fn ship_in_bounds_exec(s: &Ship) -> (r: bool)
    ensures
        r == ship_in_bounds(*s),
{
    if !s.position.in_bounds() {
        return false;
    }
    let size = s.ship_type.size() as u32;
    match s.direction {
        Direction::Horizontal => s.position.x + size <= 10,
        Direction::Vertical => s.position.y + size <= 10,
    }
}

/// Index of the first ship at or after position `i` that covers `(x, y)`,
/// or the fleet size when none does.
pub open spec fn first_cover_from(ships: Seq<Ship>, x: int, y: int, i: int) -> int
    decreases ships.len() - i,
{
    if i < 0 || i >= ships.len() {
        ships.len() as int
    } else if ship_covers(ships[i], x, y) {
        i
    } else {
        first_cover_from(ships, x, y, i + 1)
    }
}

/// Index of the first ship in placement order covering `(x, y)`, or the
/// fleet size when none does.
pub open spec fn first_cover(ships: Seq<Ship>, x: int, y: int) -> int {
    first_cover_from(ships, x, y, 0)
}

/// Ship `s` after its segment at `(x, y)` has been struck.
pub open spec fn hit_ship(s: Ship, x: int, y: int) -> Ship {
    Ship { hits: s.hits | (1u8 << (ship_offset(s, x, y) as u8)), ..s }
}

/// All of the ship's segments have been hit.
pub open spec fn ship_full(s: Ship) -> bool {
    s.hits & full_mask(s.ship_type) == full_mask(s.ship_type)
}

/// A shot is rejected when it is off the board or its cell was already shot.
pub open spec fn spec_shot_rejected(s: GameState, shot: Position) -> bool {
    !spec_in_bounds(shot) || cell_at(s, shot.x as int, shot.y as int) != CellState::Empty
}

/// How an accepted shot at `shot` carries the state `s0` to `s1`: the
/// first covering ship, if any, takes the hit on its mask, the struck
/// cell becomes `Hit` or `Miss`, and nothing else changes.
pub open spec fn shot_transition(s0: GameState, s1: GameState, shot: Position) -> bool {
    let x = shot.x as int;
    let y = shot.y as int;
    let k = first_cover(s0.ships@, x, y);
    &&& s1.pepper == s0.pepper
    &&& (k == s0.ships@.len() ==> s1.ships@ == s0.ships@)
    &&& (k < s0.ships@.len() ==> s1.ships@ == s0.ships@.update(k, hit_ship(s0.ships@[k], x, y)))
    &&& forall|xi: int, yi: int|
        0 <= xi < 10 && 0 <= yi < 10 ==> cell_at(s1, xi, yi) == (if xi == x && yi == y {
            if k < s0.ships@.len() {
                CellState::Hit
            } else {
                CellState::Miss
            }
        } else {
            cell_at(s0, xi, yi)
        })
}

/// The x coordinate of segment `o` of ship `s`.
pub open spec fn seg_x(s: Ship, o: int) -> int {
    match s.direction {
        Direction::Horizontal => s.position.x + o,
        Direction::Vertical => s.position.x as int,
    }
}

/// The y coordinate of segment `o` of ship `s`.
pub open spec fn seg_y(s: Ship, o: int) -> int {
    match s.direction {
        Direction::Horizontal => s.position.y as int,
        Direction::Vertical => s.position.y + o,
    }
}

/// The grid mirrors the hit masks: every recorded hit bit points at a
/// cell marked `Hit`. Together with the placement rules this is the
/// state invariant that every accepted mutation preserves.
pub open spec fn hits_marked(s: GameState) -> bool {
    forall|i: int, o: int|
        0 <= i < s.ships@.len() && 0 <= o < ship_size(s.ships@[i].ship_type) && #[trigger] hit_bit(
            s.ships@[i].hits,
            o,
        ) ==> cell_at(s, seg_x(s.ships@[i], o), seg_y(s.ships@[i], o)) == CellState::Hit
}

/// The outcome of an accepted shot: `Miss` when no ship covers the cell,
/// otherwise `Hit` or, when it fills the struck ship's mask, `Sunk`.
pub open spec fn spec_shot_outcome(s: GameState, shot: Position) -> HitType {
    let k = first_cover(s.ships@, shot.x as int, shot.y as int);
    if k == s.ships@.len() {
        HitType::Miss
    } else {
        let ns = hit_ship(s.ships@[k], shot.x as int, shot.y as int);
        if ship_full(ns) {
            HitType::Sunk(ns.ship_type)
        } else {
            HitType::Hit
        }
    }
}

/// Two ships with the same kind, origin and direction cover the same
/// cells, whatever their hit masks.
pub proof fn lemma_overlap_ignores_hits(a: Ship, b: Ship, a2: Ship, b2: Ship)
    requires
        a2.ship_type == a.ship_type && a2.position == a.position && a2.direction == a.direction,
        b2.ship_type == b.ship_type && b2.position == b.position && b2.direction == b.direction,
    ensures
        ships_overlap(a, b) == ships_overlap(a2, b2),
{
    if ships_overlap(a, b) {
        let (x, y) = choose|x: int, y: int|
            #[trigger] ship_covers(a, x, y) && #[trigger] ship_covers(b, x, y);
        assert(ship_covers(a2, x, y) && ship_covers(b2, x, y));
    }
    if ships_overlap(a2, b2) {
        let (x, y) = choose|x: int, y: int|
            #[trigger] ship_covers(a2, x, y) && #[trigger] ship_covers(b2, x, y);
        assert(ship_covers(a, x, y) && ship_covers(b, x, y));
    }
}

/// Placing a fresh ship cannot break the grid-mask invariant: the new
/// mask is all zeroes and the grid is untouched.
pub proof fn lemma_place_preserves_hits_marked(
    s0: GameState,
    s1: GameState,
    t: ShipType,
    pos: Position,
    dir: Direction,
)
    requires
        hits_marked(s0),
        s1.ships@ == s0.ships@.push(Ship { ship_type: t, position: pos, direction: dir, hits: 0u8 }),
        s1.grid == s0.grid,
    ensures
        hits_marked(s1),
{
    assert forall|i: int, o: int|
        0 <= i < s1.ships@.len() && 0 <= o < ship_size(s1.ships@[i].ship_type) && #[trigger] hit_bit(
            s1.ships@[i].hits,
            o,
        ) implies cell_at(s1, seg_x(s1.ships@[i], o), seg_y(s1.ships@[i], o)) == CellState::Hit by {
        if i < s0.ships@.len() {
            assert(s1.ships@[i] == s0.ships@[i]);
        } else {
            assert(s1.ships@[i].hits == 0u8);
            let ob = o as u8;
            assert(0u8 & (1u8 << ob) == 0) by (bit_vector);
        }
    }
}

/// An accepted shot keeps the grid-mask invariant and the fleet's
/// geometry: bounds, kinds and disjointness are untouched, and the one
/// freshly set bit points at the cell just marked `Hit`.
pub proof fn lemma_shot_preserves_invariant(s0: GameState, s1: GameState, shot: Position)
    requires
        !spec_shot_rejected(s0, shot),
        shot_transition(s0, s1, shot),
        hits_marked(s0),
        forall|i: int| 0 <= i < s0.ships@.len() ==> ship_in_bounds(#[trigger] s0.ships@[i]),
    ensures
        hits_marked(s1),
        forall|i: int| 0 <= i < s1.ships@.len() ==> ship_in_bounds(#[trigger] s1.ships@[i]),
        fleet_ok(s0.ships@) ==> fleet_ok(s1.ships@),
        spec_well_formed(s0) ==> spec_well_formed(s1),
        s1.ships@.len() == s0.ships@.len(),
        forall|i: int|
            0 <= i < s1.ships@.len() ==> ((#[trigger] s1.ships@[i]).ship_type
                == s0.ships@[i].ship_type && s1.ships@[i].position == s0.ships@[i].position
                && s1.ships@[i].direction == s0.ships@[i].direction),
{
    let x = shot.x as int;
    let y = shot.y as int;
    let k = first_cover(s0.ships@, x, y);
    lemma_first_cover_bounds(s0.ships@, x, y);

    assert forall|i: int|
        0 <= i < s1.ships@.len() implies ship_in_bounds(#[trigger] s1.ships@[i]) by {
        assert(s1.ships@[i].ship_type == s0.ships@[i].ship_type && s1.ships@[i].position
            == s0.ships@[i].position && s1.ships@[i].direction == s0.ships@[i].direction);
    }

    if k < s0.ships@.len() {
        assert(ship_covers(s0.ships@[k], x, y)) by {
            lemma_first_cover_covers(s0.ships@, x, y);
        }
    }

    assert forall|i: int, o: int|
        0 <= i < s1.ships@.len() && 0 <= o < ship_size(s1.ships@[i].ship_type) && #[trigger] hit_bit(
            s1.ships@[i].hits,
            o,
        ) implies cell_at(s1, seg_x(s1.ships@[i], o), seg_y(s1.ships@[i], o)) == CellState::Hit by {
        let sh0 = s0.ships@[i];
        let sx = seg_x(sh0, o);
        let sy = seg_y(sh0, o);
        assert(seg_x(s1.ships@[i], o) == sx && seg_y(s1.ships@[i], o) == sy);
        assert(0 <= sx < 10 && 0 <= sy < 10);
        if k < s0.ships@.len() && i == k {
            let ok = ship_offset(sh0, x, y);
            let h = sh0.hits;
            let ob = o as u8;
            let okb = ok as u8;
            assert(0 <= ok < ship_size(sh0.ship_type));
            assert(s1.ships@[i].hits == h | (1u8 << okb));
            assert(((h | (1u8 << okb)) & (1u8 << ob) != 0) ==> ((h & (1u8 << ob) != 0) || ob
                == okb)) by (bit_vector)
                requires
                    ob < 8u8 && okb < 8u8,
            ;
            if h & (1u8 << ob) != 0 {
                assert(hit_bit(sh0.hits, o));
                assert(cell_at(s0, sx, sy) == CellState::Hit);
                assert(!(sx == x && sy == y));
                assert(cell_at(s1, sx, sy) == CellState::Hit);
            } else {
                assert(ob == okb);
                assert(o == ok);
                assert(sx == x && sy == y);
                assert(cell_at(s1, x, y) == CellState::Hit);
            }
        } else {
            assert(s1.ships@[i] == sh0);
            assert(hit_bit(sh0.hits, o));
            assert(cell_at(s0, sx, sy) == CellState::Hit);
            assert(!(sx == x && sy == y));
            assert(cell_at(s1, sx, sy) == CellState::Hit);
        }
    }

    if fleet_ok(s0.ships@) {
        assert forall|i: int, j: int| 0 <= i < j < s1.ships@.len() implies !ships_overlap(
            #[trigger] s1.ships@[i],
            #[trigger] s1.ships@[j],
        ) by {
            lemma_overlap_ignores_hits(s0.ships@[i], s0.ships@[j], s1.ships@[i], s1.ships@[j]);
        }
    }

    if spec_well_formed(s0) {
        assert(fleet_ok(s1.ships@));
        assert forall|t: ShipType| has_type_in(s0.ships@, t) implies has_type_in(
            s1.ships@,
            t,
        ) by {
            let i = choose|i: int|
                0 <= i < s0.ships@.len() && (#[trigger] s0.ships@[i]).ship_type == t;
            assert(s1.ships@[i].ship_type == t);
        }
        assert(has_type_in(s1.ships@, ShipType::Carrier));
        assert(has_type_in(s1.ships@, ShipType::Battleship));
        assert(has_type_in(s1.ships@, ShipType::Cruiser));
        assert(has_type_in(s1.ships@, ShipType::Submarine));
        assert(has_type_in(s1.ships@, ShipType::Destroyer));
    }
}

/// `first_cover` stays within `0 ..= len`.
pub proof fn lemma_first_cover_bounds(ships: Seq<Ship>, x: int, y: int)
    ensures
        0 <= first_cover(ships, x, y) <= ships.len(),
{
    lemma_first_cover_from_bounds(ships, x, y, 0);
}

proof fn lemma_first_cover_from_bounds(ships: Seq<Ship>, x: int, y: int, i: int)
    requires
        0 <= i,
    ensures
        0 <= first_cover_from(ships, x, y, i) <= ships.len(),
    decreases ships.len() - i,
{
    if i < ships.len() && !ship_covers(ships[i], x, y) {
        lemma_first_cover_from_bounds(ships, x, y, i + 1);
    }
}

/// When `first_cover` names a ship, that ship covers the cell.
pub proof fn lemma_first_cover_covers(ships: Seq<Ship>, x: int, y: int)
    ensures
        first_cover(ships, x, y) < ships.len() ==> ship_covers(
            ships[first_cover(ships, x, y)],
            x,
            y,
        ),
{
    lemma_first_cover_from_covers(ships, x, y, 0);
}

proof fn lemma_first_cover_from_covers(ships: Seq<Ship>, x: int, y: int, i: int)
    requires
        0 <= i,
    ensures
        first_cover_from(ships, x, y, i) < ships.len() ==> ship_covers(
            ships[first_cover_from(ships, x, y, i)],
            x,
            y,
        ),
    decreases ships.len() - i,
{
    if i < ships.len() && !ship_covers(ships[i], x, y) {
        lemma_first_cover_from_covers(ships, x, y, i + 1);
    }
}

/// Law: an accepted shot reports `Sunk(t)` exactly when some ship covers
/// the cell, that ship is of kind `t`, the struck mask bit was still
/// clear, and setting it fills the ship's full mask. In a state whose
/// grid mirrors its masks, `Sunk` can only come from setting the last
/// remaining hit bit.
pub proof fn lemma_sunk_characterisation(s: GameState, shot: Position, t: ShipType)
    requires
        !spec_shot_rejected(s, shot),
        hits_marked(s),
        forall|i: int| 0 <= i < s.ships@.len() ==> ship_in_bounds(#[trigger] s.ships@[i]),
    ensures
        spec_shot_outcome(s, shot) == HitType::Sunk(t) <==> ({
            let x = shot.x as int;
            let y = shot.y as int;
            let k = first_cover(s.ships@, x, y);
            &&& k < s.ships@.len()
            &&& s.ships@[k].ship_type == t
            &&& !hit_bit(s.ships@[k].hits, ship_offset(s.ships@[k], x, y))
            &&& ship_full(hit_ship(s.ships@[k], x, y))
        }),
{
    let x = shot.x as int;
    let y = shot.y as int;
    let k = first_cover(s.ships@, x, y);
    lemma_first_cover_bounds(s.ships@, x, y);
    lemma_first_cover_covers(s.ships@, x, y);
    if k < s.ships@.len() {
        let sh = s.ships@[k];
        let ok = ship_offset(sh, x, y);
        assert(ship_covers(sh, x, y));
        assert(0 <= ok < ship_size(sh.ship_type));
        assert(seg_x(sh, ok) == x && seg_y(sh, ok) == y);
        if hit_bit(sh.hits, ok) {
            assert(cell_at(s, x, y) == CellState::Hit);
            assert(false);
        }
    }
}

/// Overlap does not depend on the order of the two ships.
pub proof fn lemma_overlap_symmetric(a: Ship, b: Ship)
    ensures
        ships_overlap(a, b) == ships_overlap(b, a),
{
    if ships_overlap(a, b) {
        let (x, y) = choose|x: int, y: int| ship_covers(a, x, y) && #[trigger] ship_covers(b, x, y);
        assert(ship_covers(b, x, y) && ship_covers(a, x, y));
    }
    if ships_overlap(b, a) {
        let (x, y) = choose|x: int, y: int| ship_covers(b, x, y) && #[trigger] ship_covers(a, x, y);
        assert(ship_covers(a, x, y) && ship_covers(b, x, y));
    }
}

} // verus!
