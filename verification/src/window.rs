//! View windows: the square blocks of cells that an observer is subscribed to.

use crate::grid::{get_room_id_from_grid_position, room_number, GridCell, RoomId, CELL_LIMIT};
use crate::grid::lemma_room_number_injective;
use vstd::prelude::*;

verus! {

broadcast use vstd::seq_lib::lemma_seq_contains_after_push;

/// The window of the given radius around `center` lies within the
/// supported extent of the grid.
pub open spec fn window_supported(center: GridCell, radius: int) -> bool {
    0 <= radius && center.within(CELL_LIMIT - radius)
}

/// The rooms of the cells in the window of the given radius around `center`.
pub open spec fn window_rooms(center: GridCell, radius: int) -> Set<RoomId> {
    Set::new(
        |room: RoomId|
            exists|cell: GridCell| #[trigger] center.sees(cell, radius) && room_number(cell) == room,
    )
}

/// The rooms that an observer is subscribed to after the tracker has seen
/// it at `center`; none before the tracker has seen it.
pub open spec fn subscribed_rooms(center: Option<GridCell>, radius: int) -> Set<RoomId> {
    match center {
        Some(center) => window_rooms(center, radius),
        None => Set::empty(),
    }
}

/// `cell` lies in the window around `center`; in none where there is no centre.
pub open spec fn sees_from(center: Option<GridCell>, cell: GridCell, radius: int) -> bool {
    match center {
        Some(center) => center.sees(cell, radius),
        None => false,
    }
}

/// The room identifiers of a list of cells, in the same order.
pub open spec fn rooms_of_cells(cells: Seq<GridCell>) -> Seq<RoomId> {
    Seq::new(cells.len(), |i: int| room_number(cells[i]) as RoomId)
}

/// Tests whether `other` lies in the window of the given radius around `center`.
pub fn sees_cell(center: GridCell, other: GridCell, radius: u32) -> (seen: bool)
    ensures
        seen == center.sees(other, radius as int),
{
    let dx: i128 = other.x as i128 - center.x as i128;
    let dy: i128 = other.y as i128 - center.y as i128;
    let r: i128 = radius as i128;
    -r <= dx && dx <= r && -r <= dy && dy <= r
}

/// Lists the cells of the window of the given radius around `center`,
/// column by column, each cell once.
pub fn view_window(center: GridCell, radius: u32) -> (cells: Vec<GridCell>)
    requires
        window_supported(center, radius as int),
    ensures
        forall|cell: GridCell| cells@.contains(cell) <==> center.sees(cell, radius as int),
        cells@.no_duplicates(),
        cells@.len() == (2 * radius + 1) * (2 * radius + 1),
{
    let r: i64 = radius as i64;
    let mut cells: Vec<GridCell> = Vec::new();
    let mut x: i64 = center.x - r;
    while x <= center.x + r
        invariant
            window_supported(center, radius as int),
            r == radius,
            center.x - r <= x <= center.x + r + 1,
            forall|cell: GridCell|
                cells@.contains(cell) <==> (center.x - r <= cell.x < x && center.y - r <= cell.y
                    <= center.y + r),
            cells@.no_duplicates(),
            cells@.len() == (x - (center.x - r)) * (2 * r + 1),
        decreases center.x + r + 1 - x,
    {
        let ghost column_start = cells@.len();
        let mut y: i64 = center.y - r;
        while y <= center.y + r
            invariant
                window_supported(center, radius as int),
                r == radius,
                center.x - r <= x <= center.x + r,
                center.y - r <= y <= center.y + r + 1,
                forall|cell: GridCell|
                    cells@.contains(cell) <==> ((center.x - r <= cell.x < x && center.y - r
                        <= cell.y <= center.y + r) || (cell.x == x && center.y - r <= cell.y < y)),
                cells@.no_duplicates(),
                cells@.len() == column_start + (y - (center.y - r)),
            decreases center.y + r + 1 - y,
        {
            let cell = GridCell { x, y };
            proof {
                assert(!cells@.contains(cell));
            }
            cells.push(cell);
            y = y + 1;
        }
        proof {
            let done = x - (center.x - r);
            let width = 2 * r + 1;
            assert((done + 1) * width == done * width + width) by (nonlinear_arith);
        }
        x = x + 1;
    }
    cells
}

/// Lists the cells of `cells` that lie outside the window of the given
/// radius around `center`, in the same order.
pub fn cells_outside(cells: &Vec<GridCell>, center: GridCell, radius: u32) -> (outside: Vec<
    GridCell,
>)
    ensures
        forall|cell: GridCell|
            outside@.contains(cell) <==> (cells@.contains(cell) && !center.sees(
                cell,
                radius as int,
            )),
        cells@.no_duplicates() ==> outside@.no_duplicates(),
{
    let mut outside: Vec<GridCell> = Vec::new();
    let mut i: usize = 0;
    while i < cells.len()
        invariant
            0 <= i <= cells@.len(),
            forall|cell: GridCell|
                outside@.contains(cell) <==> (cells@.subrange(0, i as int).contains(cell)
                    && !center.sees(cell, radius as int)),
            cells@.no_duplicates() ==> outside@.no_duplicates(),
        decreases cells@.len() - i,
    {
        let cell = cells[i];
        proof {
            let before = cells@.subrange(0, i as int);
            let after = cells@.subrange(0, i as int + 1);
            assert(after =~= before.push(cell));
        }
        if !sees_cell(center, cell, radius) {
            outside.push(cell);
        }
        i = i + 1;
    }
    proof {
        assert(cells@.subrange(0, i as int) =~= cells@);
    }
    outside
}

/// The cells that leave and the cells that enter the window when its
/// centre moves from `from` to `to`: exactly the difference of the two
/// windows in each direction, so a cell of both windows is in neither list.
pub fn window_delta(from: GridCell, to: GridCell, radius: u32) -> (delta: (
    Vec<GridCell>,
    Vec<GridCell>,
))
    requires
        window_supported(from, radius as int),
        window_supported(to, radius as int),
    ensures
        forall|cell: GridCell|
            delta.0@.contains(cell) <==> (from.sees(cell, radius as int) && !to.sees(
                cell,
                radius as int,
            )),
        forall|cell: GridCell|
            delta.1@.contains(cell) <==> (to.sees(cell, radius as int) && !from.sees(
                cell,
                radius as int,
            )),
        delta.0@.no_duplicates(),
        delta.1@.no_duplicates(),
{
    let before = view_window(from, radius);
    let after = view_window(to, radius);
    let left = cells_outside(&before, to, radius);
    let joined = cells_outside(&after, from, radius);
    (left, joined)
}

/// A room of the window around `center` is the room of a cell of it, and
/// of no other cell.
pub proof fn lemma_window_rooms_contains(center: GridCell, radius: int, cell: GridCell)
    requires
        room_number(cell) <= u64::MAX,
    ensures
        window_rooms(center, radius).contains(room_number(cell) as RoomId) <==> center.sees(
            cell,
            radius,
        ),
{
    let room = room_number(cell) as RoomId;
    if window_rooms(center, radius).contains(room) {
        let other = choose|other: GridCell| #[trigger]
            center.sees(other, radius) && room_number(other) == room;
        lemma_room_number_injective(cell, other);
    }
}

/// Derives the room identifiers of a list of cells, in the same order.
pub fn room_ids_of(cells: &Vec<GridCell>) -> (rooms: Vec<RoomId>)
    requires
        forall|i: int| 0 <= i < cells@.len() ==> (#[trigger] cells@[i]).in_bounds(),
    ensures
        rooms@ == rooms_of_cells(cells@),
{
    let mut rooms: Vec<RoomId> = Vec::new();
    let mut i: usize = 0;
    while i < cells.len()
        invariant
            0 <= i <= cells@.len(),
            forall|i: int| 0 <= i < cells@.len() ==> (#[trigger] cells@[i]).in_bounds(),
            rooms@ == rooms_of_cells(cells@.subrange(0, i as int)),
        decreases cells@.len() - i,
    {
        let room = get_room_id_from_grid_position(cells[i]);
        rooms.push(room);
        i = i + 1;
    }
    rooms
}

/// The cells of a window lie within the supported extent of the grid.
pub proof fn lemma_window_in_bounds(center: GridCell, radius: int, cell: GridCell)
    requires
        window_supported(center, radius),
        center.sees(cell, radius),
    ensures
        cell.in_bounds(),
        room_number(cell) <= u64::MAX,
{
    crate::grid::lemma_room_number_bound(cell);
}

/// The rooms of the cells that lie in one window and outside another are
/// the rooms of the first window that are not rooms of the second, each
/// listed once.
pub proof fn lemma_rooms_of_difference(
    cells: Seq<GridCell>,
    inside: Option<GridCell>,
    outside: Option<GridCell>,
    radius: int,
)
    requires
        forall|cell: GridCell|
            cells.contains(cell) <==> (sees_from(inside, cell, radius) && !sees_from(
                outside,
                cell,
                radius,
            )),
        cells.no_duplicates(),
        forall|i: int| 0 <= i < cells.len() ==> (#[trigger] cells[i]).in_bounds(),
    ensures
        forall|room: RoomId|
            rooms_of_cells(cells).contains(room) <==> (subscribed_rooms(inside, radius).contains(
                room,
            ) && !subscribed_rooms(outside, radius).contains(room)),
        rooms_of_cells(cells).to_set() == subscribed_rooms(inside, radius).difference(
            subscribed_rooms(outside, radius),
        ),
        rooms_of_cells(cells).no_duplicates(),
{
    let rooms = rooms_of_cells(cells);
    assert forall|room: RoomId|
        rooms.contains(room) <==> (subscribed_rooms(inside, radius).contains(room)
            && !subscribed_rooms(outside, radius).contains(room)) by {
        if rooms.contains(room) {
            let k = choose|k: int| 0 <= k < rooms.len() && rooms[k] == room;
            let cell = cells[k];
            assert(cells.contains(cell));
            crate::grid::lemma_room_number_bound(cell);
            if subscribed_rooms(outside, radius).contains(room) {
                lemma_window_rooms_contains(outside->0, radius, cell);
            }
        }
        if subscribed_rooms(inside, radius).contains(room) && !subscribed_rooms(
            outside,
            radius,
        ).contains(room) {
            let cell = choose|cell: GridCell| #[trigger]
                inside->0.sees(cell, radius) && room_number(cell) == room;
            assert(cells.contains(cell));
            let k = choose|k: int| 0 <= k < cells.len() && cells[k] == cell;
            assert(rooms[k] == room);
        }
    }
    assert forall|i: int, j: int| 0 <= i < rooms.len() && 0 <= j < rooms.len() && i != j implies rooms[i]
        != rooms[j] by {
        crate::grid::lemma_room_number_bound(cells[i]);
        crate::grid::lemma_room_number_bound(cells[j]);
        if rooms[i] == rooms[j] {
            lemma_room_number_injective(cells[i], cells[j]);
        }
    }
}

} // verus!
