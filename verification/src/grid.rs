//! Grid mapper: world positions to grid cells, grid cells to room identifiers.

use vstd::prelude::*;

verus! {

/// Identifier of a room. One room exists per grid cell.
pub type RoomId = u64;

/// Identifier of a connected client session.
pub type ClientId = u64;

/// Identifier of a simulated entity.
pub type EntityId = u64;

/// Largest absolute cell coordinate whose room identifier fits in 64 bits.
pub const CELL_LIMIT: i64 = 1_073_741_823;

/// A point of the world, in whole world units.
#[derive(Clone, Copy, Debug, PartialEq, Eq, Structural, Hash)]
pub struct Position {
    pub x: i64,
    pub y: i64,
}

/// The position an entity had when the tracker last processed it;
/// `None` until the tracker has seen the entity once.
#[derive(Clone, Copy, Debug, PartialEq, Eq, Structural, Hash)]
pub struct LastPosition(pub Option<Position>);

/// A cell of the grid: the square `[x * size, (x + 1) * size)` by
/// `[y * size, (y + 1) * size)` of the world.
#[derive(Clone, Copy, Debug, PartialEq, Eq, Structural, Hash)]
pub struct GridCell {
    pub x: i64,
    pub y: i64,
}

/// The signed integers laid out on the naturals: 0, -1, 1, -2, 2, ...
pub open spec fn zigzag(n: int) -> nat {
    if n >= 0 {
        (2 * n) as nat
    } else {
        (-2 * n - 1) as nat
    }
}

/// The `n`-th triangular number.
pub open spec fn triangle(n: nat) -> nat {
    (n * (n + 1)) / 2
}

/// Cantor's pairing of two naturals.
pub open spec fn cantor_pair(a: nat, b: nat) -> nat {
    triangle(a + b) + b
}

/// The number of the room that belongs to a cell.
pub open spec fn room_number(cell: GridCell) -> nat {
    cantor_pair(zigzag(cell.x as int), zigzag(cell.y as int))
}

/// The cell that holds a position, for cells of side `cell_size`.
pub open spec fn cell_of(position: Position, cell_size: int) -> GridCell {
    GridCell { x: (position.x as int / cell_size) as i64, y: (position.y as int / cell_size) as i64 }
}

impl GridCell {
    /// Both coordinates lie within `limit` of the origin.
    pub open spec fn within(self, limit: int) -> bool {
        -limit <= self.x <= limit && -limit <= self.y <= limit
    }

    /// The cell's room identifier can be computed in 64 bits.
    pub open spec fn in_bounds(self) -> bool {
        self.within(CELL_LIMIT as int)
    }

    /// `other` lies in the square window of the given radius around `self`.
    pub open spec fn sees(self, other: GridCell, radius: int) -> bool {
        self.x - radius <= other.x <= self.x + radius && self.y - radius <= other.y <= self.y
            + radius
    }

    /// Tests `in_bounds`.
    pub fn is_in_bounds(&self) -> (ok: bool)
        ensures
            ok == self.in_bounds(),
    {
        -CELL_LIMIT <= self.x && self.x <= CELL_LIMIT && -CELL_LIMIT <= self.y && self.y
            <= CELL_LIMIT
    }
}

/// Each triangular number is the one before it plus its own index.
pub proof fn lemma_triangle_step(n: nat)
    ensures
        triangle(n + 1) == triangle(n) + n + 1,
{
    assert((n + 1) * (n + 2) == n * (n + 1) + 2 * (n + 1)) by (nonlinear_arith);
}

/// The triangular numbers do not decrease.
pub proof fn lemma_triangle_monotonic(m: nat, n: nat)
    requires
        m <= n,
    ensures
        triangle(m) <= triangle(n),
{
    assert(m * (m + 1) <= n * (n + 1)) by (nonlinear_arith)
        requires
            m <= n,
    ;
}

/// Cantor's pairing sends different pairs to different numbers.
pub proof fn lemma_cantor_pair_injective(a1: nat, b1: nat, a2: nat, b2: nat)
    requires
        cantor_pair(a1, b1) == cantor_pair(a2, b2),
    ensures
        a1 == a2,
        b1 == b2,
{
    let s1 = a1 + b1;
    let s2 = a2 + b2;
    if s1 < s2 {
        lemma_triangle_step(s1);
        lemma_triangle_monotonic(s1 + 1, s2);
    } else if s2 < s1 {
        lemma_triangle_step(s2);
        lemma_triangle_monotonic(s2 + 1, s1);
    }
}

/// Different cells have different room numbers.
pub proof fn lemma_room_number_injective(c1: GridCell, c2: GridCell)
    requires
        room_number(c1) == room_number(c2),
    ensures
        c1 == c2,
{
    lemma_cantor_pair_injective(
        zigzag(c1.x as int),
        zigzag(c1.y as int),
        zigzag(c2.x as int),
        zigzag(c2.y as int),
    );
}

/// Different cells of the supported extent have different room identifiers.
pub proof fn lemma_room_ids_differ(c1: GridCell, c2: GridCell)
    requires
        c1.in_bounds(),
        c2.in_bounds(),
        c1 != c2,
    ensures
        room_number(c1) as RoomId != room_number(c2) as RoomId,
{
    lemma_room_number_bound(c1);
    lemma_room_number_bound(c2);
    if room_number(c1) == room_number(c2) {
        lemma_room_number_injective(c1, c2);
    }
}

/// Within the supported extent a room number fits a `RoomId`.
pub proof fn lemma_room_number_bound(cell: GridCell)
    requires
        cell.in_bounds(),
    ensures
        room_number(cell) <= u64::MAX,
{
    let a = zigzag(cell.x as int);
    let b = zigzag(cell.y as int);
    let s = a + b;
    assert(s * (s + 1) <= 4294967292 * 4294967293) by (nonlinear_arith)
        requires
            0 <= s <= 4294967292,
    ;
}

/// The cell of a position is its floor: the position lies in the cell's square.
pub proof fn lemma_cell_of_is_floor(position: Position, cell_size: int)
    requires
        cell_size > 0,
    ensures
        ({
            let qx = position.x as int / cell_size;
            let qy = position.y as int / cell_size;
            &&& qx * cell_size <= position.x < (qx + 1) * cell_size
            &&& qy * cell_size <= position.y < (qy + 1) * cell_size
            &&& i64::MIN <= qx <= i64::MAX
            &&& i64::MIN <= qy <= i64::MAX
            &&& cell_of(position, cell_size).x == qx
            &&& cell_of(position, cell_size).y == qy
        }),
{
    lemma_floor_div(position.x as int, cell_size);
    lemma_floor_div(position.y as int, cell_size);
}

/// Division by a positive divisor rounds down and stays within 64 bits.
proof fn lemma_floor_div(a: int, d: int)
    requires
        d > 0,
        i64::MIN <= a <= i64::MAX,
    ensures
        (a / d) * d <= a < (a / d + 1) * d,
        i64::MIN <= a / d <= i64::MAX,
{
    vstd::arithmetic::div_mod::lemma_fundamental_div_mod(a, d);
    let q = a / d;
    assert(q * d == d * q) by (nonlinear_arith);
    assert((q + 1) * d == q * d + d) by (nonlinear_arith);
    assert(i64::MIN <= q <= i64::MAX) by (nonlinear_arith)
        requires
            d >= 1,
            q * d <= a < q * d + d,
            i64::MIN <= a <= i64::MAX,
    ;
}

/// Maps a world position to the grid cell that holds it:
/// each coordinate divided by the cell size, rounded down.
pub fn get_grid_position(position: Position, cell_size: i64) -> (cell: GridCell)
    requires
        cell_size > 0,
    ensures
        cell == cell_of(position, cell_size as int),
        cell.x * cell_size <= position.x < (cell.x + 1) * cell_size,
        cell.y * cell_size <= position.y < (cell.y + 1) * cell_size,
{
    proof {
        lemma_cell_of_is_floor(position, cell_size as int);
    }
    let x = position.x.checked_div_euclid(cell_size).unwrap();
    let y = position.y.checked_div_euclid(cell_size).unwrap();
    GridCell { x, y }
}

/// Executable `zigzag`, for coordinates within the supported extent.
fn zigzag_of(n: i64) -> (z: u64)
    requires
        -CELL_LIMIT <= n <= CELL_LIMIT,
    ensures
        z == zigzag(n as int),
        z <= 2 * CELL_LIMIT,
{
    if n >= 0 {
        (2 * n) as u64
    } else {
        let m: i64 = -(n + 1);
        (2 * m + 1) as u64
    }
}

/// Derives the room identifier of a cell: both coordinates are laid out on
/// the naturals and the two naturals are paired.
pub fn get_room_id_from_grid_position(cell: GridCell) -> (room: RoomId)
    requires
        cell.in_bounds(),
    ensures
        room == room_number(cell),
{
    let a = zigzag_of(cell.x);
    let b = zigzag_of(cell.y);
    let s = a + b;
    proof {
        assert(s * (s + 1) <= 4294967292 * 4294967293) by (nonlinear_arith)
            requires
                0 <= s <= 4294967292,
        ;
    }
    s * (s + 1) / 2 + b
}

} // verus!
