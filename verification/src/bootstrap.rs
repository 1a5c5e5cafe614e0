//! Bootstrap loader: the fixed block of region entities around the origin,
//! each placed in the room of its cell before any client connects.

use crate::grid::{cell_of, EntityId, GridCell, Position, CELL_LIMIT};
use crate::tracker::{InterestTracker, InterestView};
use crate::window::view_window;
use vstd::prelude::*;

verus! {

/// The tracker view after the first `count` of `entities` were passively
/// placed, one after the other, each in the cell of the same index.
pub open spec fn with_regions(
    view: InterestView,
    entities: Seq<EntityId>,
    cells: Seq<GridCell>,
    count: nat,
) -> InterestView
    decreases count,
{
    if count == 0 {
        view
    } else {
        let prior = with_regions(view, entities, cells, (count - 1) as nat);
        let entity = entities[count - 1];
        let cell = cells[count - 1];
        if prior.accepts_region(entity, cell) {
            prior.with_region(entity, cell)
        } else {
            prior
        }
    }
}

/// Lists the cells of the block of `2 * half_extent + 1` cells a side
/// that is centred at the origin, each cell once.
pub fn region_cells(half_extent: u32) -> (cells: Vec<GridCell>)
    requires
        half_extent <= CELL_LIMIT,
    ensures
        forall|cell: GridCell| cells@.contains(cell) <==> cell.within(half_extent as int),
        cells@.no_duplicates(),
        cells@.len() == (2 * half_extent + 1) * (2 * half_extent + 1),
{
    view_window(GridCell { x: 0, y: 0 }, half_extent)
}

/// The world position of the corner of `cell` that is nearest to minus
/// infinity, for cells of side `cell_size`; `None` if it does not fit the
/// coordinate type.
pub fn cell_origin(cell: GridCell, cell_size: i64) -> (origin: Option<Position>)
    requires
        cell_size > 0,
    ensures
        origin is Some <==> (i64::MIN <= cell.x * cell_size <= i64::MAX && i64::MIN <= cell.y
            * cell_size <= i64::MAX),
        origin matches Some(position) ==> {
            &&& position.x == cell.x * cell_size
            &&& position.y == cell.y * cell_size
            &&& cell_of(position, cell_size as int) == cell
        },
{
    match (cell.x.checked_mul(cell_size), cell.y.checked_mul(cell_size)) {
        (Some(x), Some(y)) => {
            proof {
                vstd::arithmetic::div_mod::lemma_div_multiples_vanish(
                    cell.x as int,
                    cell_size as int,
                );
                vstd::arithmetic::div_mod::lemma_div_multiples_vanish(
                    cell.y as int,
                    cell_size as int,
                );
                assert(cell.x * cell_size == cell_size * cell.x) by (nonlinear_arith);
                assert(cell.y * cell_size == cell_size * cell.y) by (nonlinear_arith);
            }
            Some(Position { x, y })
        },
        _ => None,
    }
}

/// Places `entities` passively, one after the other, each in the room of
/// the cell of the same index; what one list has more than the other is
/// left aside. No client is subscribed to anything by this. Returns the
/// number of pairs that were taken.
pub fn load_regions(tracker: &mut InterestTracker, cells: &Vec<GridCell>, entities: &Vec<
    EntityId,
>) -> (count: usize)
    requires
        old(tracker).wf(),
    ensures
        final(tracker).wf(),
        count == if cells@.len() <= entities@.len() {
            cells@.len()
        } else {
            entities@.len()
        },
        final(tracker)@ == with_regions(old(tracker)@, entities@, cells@, count as nat),
{
    let count = if cells.len() <= entities.len() {
        cells.len()
    } else {
        entities.len()
    };
    let mut k: usize = 0;
    while k < count
        invariant
            0 <= k <= count,
            count <= cells@.len(),
            count <= entities@.len(),
            tracker.wf(),
            tracker@ == with_regions(old(tracker)@, entities@, cells@, k as nat),
        decreases count - k,
    {
        tracker.place_entity(entities[k], cells[k]);
        k = k + 1;
    }
    count
}

/// Entities that are no observers, each named once, end up where the
/// loader was told to put them: each in the cell of its index, and so in
/// that cell's room and no other.
pub proof fn lemma_regions_loaded(
    view: InterestView,
    entities: Seq<EntityId>,
    cells: Seq<GridCell>,
    count: nat,
    k: int,
)
    requires
        count <= entities.len(),
        count <= cells.len(),
        0 <= k < count,
        entities.no_duplicates(),
        forall|i: int| 0 <= i < count ==> view.accepts_region(entities[i], #[trigger] cells[i]),
    ensures
        with_regions(view, entities, cells, count).observers == view.observers,
        with_regions(view, entities, cells, count).players == view.players,
        with_regions(view, entities, cells, count).pending == view.pending,
        with_regions(view, entities, cells, count).config == view.config,
        with_regions(view, entities, cells, count).regions.contains_key(entities[k]),
        with_regions(view, entities, cells, count).regions[entities[k]] == cells[k],
        with_regions(view, entities, cells, count).entity_room(entities[k]) == Some(
            crate::tracker::room_of(cells[k]),
        ),
    decreases count,
{
    let prior = with_regions(view, entities, cells, (count - 1) as nat);
    if count > 1 {
        lemma_regions_loaded(view, entities, cells, (count - 1) as nat, 0);
        if k < count - 1 {
            lemma_regions_loaded(view, entities, cells, (count - 1) as nat, k);
        }
    }
    assert(prior.accepts_region(entities[count - 1], cells[count - 1]));
}

} // verus!
