//! Interest tracker: follows the observers as they move over the grid and
//! keeps the room directory and the membership index in step with them.

use crate::grid::{
    cell_of, get_grid_position, get_room_id_from_grid_position, room_number, ClientId, EntityId,
    GridCell, LastPosition, Position, RoomId, CELL_LIMIT,
};
use crate::membership::{MembershipIndex, MembershipView};
use crate::window::{
    lemma_rooms_of_difference, lemma_window_in_bounds, room_ids_of, rooms_of_cells, sees_from,
    subscribed_rooms, view_window, window_delta, window_rooms, window_supported,
};
use std::collections::HashMap;
use vstd::prelude::*;

verus! {

broadcast use {
    vstd::std_specs::hash::group_hash_axioms,
    vstd::seq_lib::lemma_seq_contains_after_push,
};

/// The two settings of the tracker.
#[derive(Clone, Copy, Debug, PartialEq, Eq, Structural)]
pub struct InterestConfig {
    /// World units per grid cell.
    pub cell_size: i64,
    /// Radius of the view window, in cells.
    pub view_distance: u32,
}

impl InterestConfig {
    /// The cell size is positive, and the view distance is small enough
    /// for a window to fit the supported extent of the grid.
    pub open spec fn valid(self) -> bool {
        self.cell_size > 0 && self.view_distance <= CELL_LIMIT
    }

    /// Tests `valid`.
    pub fn is_valid(&self) -> (ok: bool)
        ensures
            ok == self.valid(),
    {
        self.cell_size > 0 && self.view_distance as i64 <= CELL_LIMIT
    }
}

/// An entity that drives the subscriptions of the client that owns it.
#[derive(Clone, Copy, Debug, PartialEq, Eq, Structural)]
pub struct Observer {
    /// The client that owns the observer.
    pub client: ClientId,
    /// Where the observer is.
    pub position: Position,
    /// Where the observer was when the tracker last processed it.
    pub last_position: LastPosition,
    /// Set by every write of the position, cleared by the tracker.
    pub changed: bool,
}

impl Observer {
    /// The position that the rooms reflect: the last processed one while a
    /// change is waiting for the tracker, the current one otherwise.
    pub open spec fn settled(self) -> Option<Position> {
        if self.changed {
            self.last_position.0
        } else {
            Some(self.position)
        }
    }
}

/// The tracker as plain mathematical values.
pub struct InterestView {
    pub config: InterestConfig,
    /// The observers, by entity.
    pub observers: Map<EntityId, Observer>,
    /// The observer entity of each connected client.
    pub players: Map<ClientId, EntityId>,
    /// The passively placed entities, each with the cell it stands in.
    pub regions: Map<EntityId, GridCell>,
    /// The observers whose position has changed, in the order in which the
    /// tracker will process them.
    pub pending: Seq<EntityId>,
}

/// The waiting observers without `entity`, in the same order.
pub open spec fn drop_waiting(pending: Seq<EntityId>, entity: EntityId) -> Seq<EntityId> {
    if pending.contains(entity) {
        pending.remove(pending.index_of(entity))
    } else {
        pending
    }
}

/// The room identifier of a cell.
pub open spec fn room_of(cell: GridCell) -> RoomId {
    room_number(cell) as RoomId
}

impl InterestView {
    /// The view distance, in cells.
    pub open spec fn radius(self) -> int {
        self.config.view_distance as int
    }

    /// The cell that holds `position`.
    pub open spec fn cell(self, position: Position) -> GridCell {
        cell_of(position, self.config.cell_size as int)
    }

    /// The view window around `position` lies within the supported extent
    /// of the grid.
    pub open spec fn supports(self, position: Position) -> bool {
        window_supported(self.cell(position), self.radius())
    }

    /// The cell that the rooms reflect for the observer `entity`; `None`
    /// before the tracker has processed it, and for any other entity.
    pub open spec fn anchor(self, entity: EntityId) -> Option<GridCell> {
        if self.observers.contains_key(entity) {
            match self.observers[entity].settled() {
                Some(position) => Some(self.cell(position)),
                None => None,
            }
        } else {
            None
        }
    }

    /// The one room that holds `entity`, if any does.
    pub open spec fn entity_room(self, entity: EntityId) -> Option<RoomId> {
        if self.observers.contains_key(entity) {
            match self.anchor(entity) {
                Some(cell) => Some(room_of(cell)),
                None => None,
            }
        } else if self.regions.contains_key(entity) {
            Some(room_of(self.regions[entity]))
        } else {
            None
        }
    }

    /// `client` is subscribed to `room`: the room belongs to a cell of the
    /// view window around the anchor of the client's observer.
    pub open spec fn subscribed(self, client: ClientId, room: RoomId) -> bool {
        self.players.contains_key(client) && subscribed_rooms(
            self.anchor(self.players[client]),
            self.radius(),
        ).contains(room)
    }

    /// The subscriptions and placements that the tracker maintains.
    pub open spec fn membership(self) -> MembershipView {
        MembershipView {
            subscriptions: Set::new(|pair: (ClientId, RoomId)| self.subscribed(pair.0, pair.1)),
            placements: Set::new(
                |pair: (EntityId, RoomId)| self.entity_room(pair.0) == Some(pair.1),
            ),
        }
    }

    /// Observers, players and placed entities fit together: every
    /// observer is the observer of its client and of no other, stands at
    /// supported positions and is not passively placed as well; every
    /// placed entity stands in a supported cell; and the waiting entities
    /// are observers, each listed once.
    pub open spec fn coherent(self) -> bool {
        &&& self.config.valid()
        &&& forall|entity: EntityId| #[trigger]
            self.observers.contains_key(entity) ==> {
                let observer = self.observers[entity];
                &&& !self.regions.contains_key(entity)
                &&& self.players.contains_key(observer.client)
                &&& self.players[observer.client] == entity
                &&& self.supports(observer.position)
                &&& observer.last_position.0 matches Some(last) ==> self.supports(last)
            }
        &&& forall|client: ClientId| #[trigger]
            self.players.contains_key(client) ==> {
                &&& self.observers.contains_key(self.players[client])
                &&& self.observers[self.players[client]].client == client
            }
        &&& forall|entity: EntityId| #[trigger]
            self.regions.contains_key(entity) ==> self.regions[entity].in_bounds()
        &&& self.pending.no_duplicates()
        &&& forall|k: int|
            0 <= k < self.pending.len() ==> self.observers.contains_key(#[trigger] self.pending[k])
    }

    /// The tracker is between two operations: besides `coherent`, exactly
    /// the observers with a change are waiting, and every other observer
    /// has its current position on record as its last.
    pub open spec fn quiescent(self) -> bool {
        &&& self.coherent()
        &&& forall|entity: EntityId| #[trigger]
            self.observers.contains_key(entity) ==> {
                let observer = self.observers[entity];
                &&& observer.changed <==> self.pending.contains(entity)
                &&& !observer.changed ==> observer.last_position.0 == Some(observer.position)
            }
    }

    /// A connection of `client` with the observer `entity` at `position`
    /// is accepted: the client has no observer yet, the entity is not in
    /// use, and the position is supported.
    pub open spec fn admits(self, client: ClientId, entity: EntityId, position: Position) -> bool {
        &&& !self.players.contains_key(client)
        &&& !self.observers.contains_key(entity)
        &&& !self.regions.contains_key(entity)
        &&& self.supports(position)
    }

    /// The tracker after `client` connected with the observer `entity`
    /// at `position`: the observer waits for its first processing.
    pub open spec fn connected(
        self,
        client: ClientId,
        entity: EntityId,
        position: Position,
    ) -> InterestView {
        InterestView {
            observers: self.observers.insert(
                entity,
                Observer { client, position, last_position: LastPosition(None), changed: true },
            ),
            players: self.players.insert(client, entity),
            pending: self.pending.push(entity),
            ..self
        }
    }

    /// The tracker after the observer `entity` was written to `position`.
    pub open spec fn moved(self, entity: EntityId, position: Position) -> InterestView {
        let observer = self.observers[entity];
        InterestView {
            observers: self.observers.insert(
                entity,
                Observer { position, changed: true, ..observer },
            ),
            pending: if observer.changed {
                self.pending
            } else {
                self.pending.push(entity)
            },
            ..self
        }
    }

    /// The tracker after a tick: every observer has been processed at its
    /// current position, and none is waiting.
    pub open spec fn ticked(self) -> InterestView {
        InterestView {
            observers: Map::new(
                |entity: EntityId| self.observers.contains_key(entity),
                |entity: EntityId|
                    Observer {
                        last_position: LastPosition(Some(self.observers[entity].position)),
                        changed: false,
                        ..self.observers[entity]
                    },
            ),
            pending: Seq::empty(),
            ..self
        }
    }

    /// The tracker after `client` disconnected: its observer is gone.
    pub open spec fn disconnected(self, client: ClientId) -> InterestView {
        if self.players.contains_key(client) {
            let entity = self.players[client];
            InterestView {
                observers: self.observers.remove(entity),
                players: self.players.remove(client),
                pending: drop_waiting(self.pending, entity),
                ..self
            }
        } else {
            self
        }
    }

    /// `entity` can be passively placed in `cell`: it is no observer, and
    /// the cell lies within the supported extent of the grid.
    pub open spec fn accepts_region(self, entity: EntityId, cell: GridCell) -> bool {
        !self.observers.contains_key(entity) && cell.in_bounds()
    }

    /// The tracker after `entity` was passively placed in `cell`.
    pub open spec fn with_region(self, entity: EntityId, cell: GridCell) -> InterestView {
        InterestView { regions: self.regions.insert(entity, cell), ..self }
    }

    /// The tracker after the passively placed `entity` was taken away.
    pub open spec fn without_region(self, entity: EntityId) -> InterestView {
        InterestView { regions: self.regions.remove(entity), ..self }
    }
}

/// What one tick did for one observer.
pub struct InterestUpdate {
    /// The client that owns the observer.
    pub client: ClientId,
    /// The observer.
    pub entity: EntityId,
    /// The cell that the observer was last processed in, if it ever was:
    /// the entity has left that cell's room, unless it is `to`.
    pub from: Option<GridCell>,
    /// The cell that the observer is in: its room now holds the entity.
    pub to: GridCell,
    /// The rooms that the client was taken out of.
    pub left: Vec<RoomId>,
    /// The rooms that the client was subscribed to.
    pub joined: Vec<RoomId>,
}

impl InterestUpdate {
    /// The update is the one that a tick owes to `observer`: the client
    /// leaves exactly the rooms of the old window that are not in the new
    /// one and joins exactly the rooms of the new window that are not in
    /// the old one, so that no room of both windows is touched.
    pub open spec fn describes(
        self,
        config: InterestConfig,
        entity: EntityId,
        observer: Observer,
    ) -> bool {
        let radius = config.view_distance as int;
        let from = match observer.last_position.0 {
            Some(last) => Some(cell_of(last, config.cell_size as int)),
            None => None,
        };
        let to = cell_of(observer.position, config.cell_size as int);
        &&& self.client == observer.client
        &&& self.entity == entity
        &&& self.from == from
        &&& self.to == to
        &&& self.left@.to_set() == subscribed_rooms(from, radius).difference(
            window_rooms(to, radius),
        )
        &&& self.joined@.to_set() == window_rooms(to, radius).difference(
            subscribed_rooms(from, radius),
        )
        &&& self.left@.no_duplicates()
        &&& self.joined@.no_duplicates()
    }
}

/// Subscribes `client` to the room of each of `cells`.
fn join_rooms(index: &mut MembershipIndex, client: ClientId, cells: &Vec<GridCell>) -> (rooms: Vec<
    RoomId,
>)
    requires
        old(index).wf(),
        forall|i: int| 0 <= i < cells@.len() ==> (#[trigger] cells@[i]).in_bounds(),
    ensures
        final(index).wf(),
        rooms@ == rooms_of_cells(cells@),
        final(index)@.placements == old(index)@.placements,
        forall|pair: (ClientId, RoomId)| #[trigger]
            final(index)@.subscriptions.contains(pair) <==> (old(index)@.subscriptions.contains(
                pair,
            ) || (pair.0 == client && rooms@.contains(pair.1))),
{
    let rooms = room_ids_of(cells);
    let mut i: usize = 0;
    while i < rooms.len()
        invariant
            0 <= i <= rooms@.len(),
            index.wf(),
            index@.placements == old(index)@.placements,
            forall|pair: (ClientId, RoomId)| #[trigger]
                index@.subscriptions.contains(pair) <==> (old(index)@.subscriptions.contains(pair)
                    || (pair.0 == client && rooms@.subrange(0, i as int).contains(pair.1))),
        decreases rooms@.len() - i,
    {
        proof {
            assert(rooms@.subrange(0, i as int + 1) =~= rooms@.subrange(0, i as int).push(
                rooms@[i as int],
            ));
        }
        index.add_client_to_room(client, rooms[i]);
        i = i + 1;
    }
    proof {
        assert(rooms@.subrange(0, i as int) =~= rooms@);
    }
    rooms
}

/// Takes `client` out of the room of each of `cells`.
fn leave_rooms(index: &mut MembershipIndex, client: ClientId, cells: &Vec<GridCell>) -> (rooms: Vec<
    RoomId,
>)
    requires
        old(index).wf(),
        forall|i: int| 0 <= i < cells@.len() ==> (#[trigger] cells@[i]).in_bounds(),
    ensures
        final(index).wf(),
        rooms@ == rooms_of_cells(cells@),
        final(index)@.placements == old(index)@.placements,
        forall|pair: (ClientId, RoomId)| #[trigger]
            final(index)@.subscriptions.contains(pair) <==> (old(index)@.subscriptions.contains(
                pair,
            ) && !(pair.0 == client && rooms@.contains(pair.1))),
{
    let rooms = room_ids_of(cells);
    let mut i: usize = 0;
    while i < rooms.len()
        invariant
            0 <= i <= rooms@.len(),
            index.wf(),
            index@.placements == old(index)@.placements,
            forall|pair: (ClientId, RoomId)| #[trigger]
                index@.subscriptions.contains(pair) <==> (old(index)@.subscriptions.contains(pair)
                    && !(pair.0 == client && rooms@.subrange(0, i as int).contains(pair.1))),
        decreases rooms@.len() - i,
    {
        proof {
            assert(rooms@.subrange(0, i as int + 1) =~= rooms@.subrange(0, i as int).push(
                rooms@[i as int],
            ));
        }
        index.remove_client_from_room(client, rooms[i]);
        i = i + 1;
    }
    proof {
        assert(rooms@.subrange(0, i as int) =~= rooms@);
    }
    rooms
}

/// The interest management context: settings, observers, placed entities,
/// and the membership index that it keeps in step with them.
pub struct InterestTracker {
    config: InterestConfig,
    index: MembershipIndex,
    observers: HashMap<EntityId, Observer>,
    players: HashMap<ClientId, EntityId>,
    regions: HashMap<EntityId, GridCell>,
    pending: Vec<EntityId>,
}

impl View for InterestTracker {
    type V = InterestView;

    closed spec fn view(&self) -> InterestView {
        InterestView {
            config: self.config,
            observers: self.observers@,
            players: self.players@,
            regions: self.regions@,
            pending: self.pending@,
        }
    }
}

impl InterestTracker {
    /// The membership index that the tracker maintains.
    pub closed spec fn membership(&self) -> MembershipIndex {
        self.index
    }

    /// The view is coherent and the index holds the membership it calls for.
    spec fn coherent(&self) -> bool {
        &&& self@.coherent()
        &&& self.index.wf()
        &&& self.index@ == self@.membership()
    }

    /// The first `done` waiting observers have been processed: exactly the
    /// observers behind them have a change waiting.
    spec fn flagged(&self, done: int) -> bool {
        forall|entity: EntityId| #[trigger]
            self.observers@.contains_key(entity) ==> (self.observers@[entity].changed
                <==> self.pending@.subrange(done, self.pending@.len() as int).contains(entity))
    }

    /// Every observer without a change waiting that is not among the
    /// waiting ones from `committed` on has its current position on record.
    spec fn recorded(&self, committed: int) -> bool {
        forall|entity: EntityId| #[trigger]
            self.observers@.contains_key(entity) ==> (!self.observers@[entity].changed
                && !self.pending@.subrange(committed, self.pending@.len() as int).contains(entity)
                ==> self.observers@[entity].last_position.0 == Some(
                self.observers@[entity].position,
            ))
    }

    /// The tracker is between two operations, and the index holds exactly
    /// the subscriptions and placements that its observers and placed
    /// entities call for.
    pub open spec fn wf(&self) -> bool {
        &&& self@.quiescent()
        &&& self.membership().wf()
        &&& self.membership()@ == self@.membership()
    }

    /// Between two operations no waiting observer has been processed and
    /// no last position is owed: that is what `wf` says of the view.
    proof fn lemma_at_rest(&self)
        ensures
            self.wf() <==> (self.coherent() && self.flagged(0) && self.recorded(0)),
    {
        assert(self.pending@.subrange(0, self.pending@.len() as int) =~= self.pending@);
    }

    /// A tracker without observers or placed entities.
    pub fn new(config: InterestConfig) -> (tracker: InterestTracker)
        requires
            config.valid(),
        ensures
            tracker.wf(),
            tracker@.config == config,
            tracker@.observers == Map::<EntityId, Observer>::empty(),
            tracker@.players == Map::<ClientId, EntityId>::empty(),
            tracker@.regions == Map::<EntityId, GridCell>::empty(),
            tracker@.pending == Seq::<EntityId>::empty(),
    {
        let tracker = InterestTracker {
            config,
            index: MembershipIndex::new(),
            observers: HashMap::new(),
            players: HashMap::new(),
            regions: HashMap::new(),
            pending: Vec::new(),
        };
        proof {
            assert(tracker@.membership().subscriptions =~= Set::empty());
            assert(tracker@.membership().placements =~= Set::empty());
        }
        tracker
    }

    /// The settings that the tracker was made with.
    pub fn config(&self) -> (config: InterestConfig)
        ensures
            config == self@.config,
    {
        self.config
    }

    /// The membership index, for reading: it holds exactly the
    /// subscriptions and placements that the observers and the placed
    /// entities call for.
    pub fn index(&self) -> (index: &MembershipIndex)
        requires
            self.wf(),
        ensures
            *index == self.membership(),
            index.wf(),
            index@ == self@.membership(),
    {
        &self.index
    }

    /// The observer `entity`, if there is one.
    pub fn observer(&self, entity: EntityId) -> (observer: Option<Observer>)
        ensures
            observer == if self@.observers.contains_key(entity) {
                Some(self@.observers[entity])
            } else {
                None
            },
    {
        match self.observers.get(&entity) {
            Some(observer) => Some(*observer),
            None => None,
        }
    }

    /// The observer entity of `client`, if the client is connected.
    pub fn player(&self, client: ClientId) -> (entity: Option<EntityId>)
        ensures
            entity == if self@.players.contains_key(client) {
                Some(self@.players[client])
            } else {
                None
            },
    {
        match self.players.get(&client) {
            Some(entity) => Some(*entity),
            None => None,
        }
    }

    /// The cell of the passively placed `entity`, if it is placed.
    pub fn region(&self, entity: EntityId) -> (cell: Option<GridCell>)
        ensures
            cell == if self@.regions.contains_key(entity) {
                Some(self@.regions[entity])
            } else {
                None
            },
    {
        match self.regions.get(&entity) {
            Some(cell) => Some(*cell),
            None => None,
        }
    }

    /// The number of observers that wait for the next tick.
    pub fn pending_count(&self) -> (count: usize)
        ensures
            count == self@.pending.len(),
    {
        self.pending.len()
    }

    /// Tests whether the view window around `position` lies within the
    /// supported extent of the grid.
    pub fn supports(&self, position: Position) -> (ok: bool)
        requires
            self.wf(),
        ensures
            ok == self@.supports(position),
    {
        let cell = get_grid_position(position, self.config.cell_size);
        let reach: i64 = CELL_LIMIT - self.config.view_distance as i64;
        -reach <= cell.x && cell.x <= reach && -reach <= cell.y && cell.y <= reach
    }

    /// Takes up a connected client: `entity` becomes its observer at
    /// `position` and waits for the tracker's first look at it. A client
    /// that has an observer already, an entity that is in use, or a
    /// position outside the supported extent is refused, and nothing
    /// changes.
    pub fn handle_connection(&mut self, client: ClientId, entity: EntityId, position: Position) -> (accepted:
        bool)
        requires
            old(self).wf(),
        ensures
            final(self).wf(),
            accepted == old(self)@.admits(client, entity, position),
            final(self)@ == if accepted {
                old(self)@.connected(client, entity, position)
            } else {
                old(self)@
            },
    {
        if self.players.contains_key(&client) || self.observers.contains_key(&entity)
            || self.regions.contains_key(&entity) || !self.supports(position) {
            return false;
        }
        let observer = Observer {
            client,
            position,
            last_position: LastPosition(None),
            changed: true,
        };
        self.observers.insert(entity, observer);
        self.players.insert(client, entity);
        self.pending.push(entity);
        proof {
            let before = old(self)@;
            let after = self@;
            assert(after.membership().subscriptions =~= before.membership().subscriptions);
            assert(after.membership().placements =~= before.membership().placements);
        }
        true
    }

    /// Writes the position of the observer `entity` and marks it as
    /// changed, so that the next tick processes it. Nothing changes if
    /// `entity` is no observer or the position lies outside the supported
    /// extent.
    pub fn update_position(&mut self, entity: EntityId, position: Position) -> (moved: bool)
        requires
            old(self).wf(),
        ensures
            final(self).wf(),
            moved == (old(self)@.observers.contains_key(entity) && old(self)@.supports(position)),
            final(self)@ == if moved {
                old(self)@.moved(entity, position)
            } else {
                old(self)@
            },
    {
        let found = match self.observers.get(&entity) {
            Some(observer) => Some(*observer),
            None => None,
        };
        match found {
            Some(observer) => {
                if !self.supports(position) {
                    return false;
                }
                let waiting = observer.changed;
                let written = Observer {
                    client: observer.client,
                    position,
                    last_position: observer.last_position,
                    changed: true,
                };
                self.observers.insert(entity, written);
                if !waiting {
                    self.pending.push(entity);
                }
                proof {
                    let before = old(self)@;
                    let after = self@;
                    assert(after.membership().subscriptions =~= before.membership().subscriptions);
                    assert(after.membership().placements =~= before.membership().placements);
                }
                true
            },
            None => false,
        }
    }

    /// Applies the room transitions that the waiting observer number
    /// `done` calls for, and clears its change flag. Its last position
    /// stays as it is: the tick records it once every observer has been
    /// looked at.
    fn process_pending(&mut self, done: usize) -> (update: InterestUpdate)
        requires
            old(self).coherent(),
            old(self).flagged(done as int),
            old(self).recorded(0),
            done < old(self)@.pending.len(),
        ensures
            final(self).coherent(),
            final(self).flagged(done + 1),
            final(self).recorded(0),
            final(self)@.config == old(self)@.config,
            final(self)@.players == old(self)@.players,
            final(self)@.regions == old(self)@.regions,
            final(self)@.pending == old(self)@.pending,
            final(self)@.observers == old(self)@.observers.insert(
                old(self)@.pending[done as int],
                Observer { changed: false, ..old(self)@.observers[old(self)@.pending[done as int]] },
            ),
            update.describes(
                old(self)@.config,
                old(self)@.pending[done as int],
                old(self)@.observers[old(self)@.pending[done as int]],
            ),
    {
        let entity = self.pending[done];
        let observer = *self.observers.get(&entity).unwrap();
        let client = observer.client;
        let radius = self.config.view_distance;
        let to = get_grid_position(observer.position, self.config.cell_size);
        let from = match observer.last_position.0 {
            Some(last) => Some(get_grid_position(last, self.config.cell_size)),
            None => None,
        };
        let ghost before = self@;
        let ghost reach = before.radius();
        let room_to = get_room_id_from_grid_position(to);
        match from {
            None => {
                self.index.add_entity(room_to, entity);
            },
            Some(cell) => {
                if cell != to {
                    let room_from = get_room_id_from_grid_position(cell);
                    self.index.remove_entity(room_from, entity);
                    self.index.add_entity(room_to, entity);
                }
            },
        }
        let (left_cells, joined_cells) = match from {
            None => (Vec::new(), view_window(to, radius)),
            Some(cell) => {
                if cell == to {
                    (Vec::new(), Vec::new())
                } else {
                    window_delta(cell, to, radius)
                }
            },
        };
        proof {
            assert forall|i: int| 0 <= i < left_cells@.len() implies (
            #[trigger] left_cells@[i]).in_bounds() by {
                lemma_window_in_bounds(from->0, reach, left_cells@[i]);
            }
            assert forall|i: int| 0 <= i < joined_cells@.len() implies (
            #[trigger] joined_cells@[i]).in_bounds() by {
                lemma_window_in_bounds(to, reach, joined_cells@[i]);
            }
            lemma_rooms_of_difference(left_cells@, from, Some(to), reach);
            lemma_rooms_of_difference(joined_cells@, Some(to), from, reach);
        }
        let left = leave_rooms(&mut self.index, client, &left_cells);
        let joined = join_rooms(&mut self.index, client, &joined_cells);
        self.observers.insert(
            entity,
            Observer {
                client: observer.client,
                position: observer.position,
                last_position: observer.last_position,
                changed: false,
            },
        );
        proof {
            let after = self@;
            assert(self.index@.placements =~= after.membership().placements);
            assert(self.index@.subscriptions =~= after.membership().subscriptions);
            assert forall|other: EntityId| #[trigger]
                self.observers@.contains_key(other) implies (self.observers@[other].changed
                <==> self.pending@.subrange(done + 1, self.pending@.len() as int).contains(
                other,
            )) by {
                let waiting = self.pending@.subrange(done as int, self.pending@.len() as int);
                let rest = self.pending@.subrange(done + 1, self.pending@.len() as int);
                if other != entity {
                    assert(waiting.contains(other) <==> rest.contains(other)) by {
                        if waiting.contains(other) {
                            let k = choose|k: int| 0 <= k < waiting.len() && waiting[k] == other;
                            assert(rest[k - 1] == other);
                        }
                        if rest.contains(other) {
                            let k = choose|k: int| 0 <= k < rest.len() && rest[k] == other;
                            assert(waiting[k + 1] == other);
                        }
                    }
                }
            }
            assert forall|other: EntityId| #[trigger]
                self.observers@.contains_key(other) && !self.observers@[other].changed
                    && !self.pending@.subrange(0, self.pending@.len() as int).contains(
                    other,
                ) implies self.observers@[other].last_position.0 == Some(
                self.observers@[other].position,
            ) by {
                assert(self.pending@.subrange(0, self.pending@.len() as int) =~= self.pending@);
            }
        }
        InterestUpdate { client, entity, from, to, left, joined }
    }

    /// Runs one tick. Every observer whose position has changed is looked
    /// at, in the order in which the changes came: on its first look its
    /// client is subscribed to the rooms of the view window around its
    /// cell and the entity is placed in the room of that cell; when it has
    /// crossed into another cell the entity moves to that cell's room and
    /// the client leaves and joins exactly the rooms by which the two
    /// windows differ; when it has stayed in its cell nothing is touched.
    /// Only after all of them have been looked at is the current position
    /// of each recorded as its last position. Returns what was done for
    /// each observer, in the same order.
    pub fn interest_management(&mut self) -> (updates: Vec<InterestUpdate>)
        requires
            old(self).wf(),
        ensures
            final(self).wf(),
            final(self)@ == old(self)@.ticked(),
            updates@.len() == old(self)@.pending.len(),
            forall|i: int|
                0 <= i < updates@.len() ==> (#[trigger] updates@[i]).describes(
                    old(self)@.config,
                    old(self)@.pending[i],
                    old(self)@.observers[old(self)@.pending[i]],
                ),
    {
        proof {
            self.lemma_at_rest();
        }
        let mut updates: Vec<InterestUpdate> = Vec::new();
        let count = self.pending.len();
        let mut done: usize = 0;
        while done < count
            invariant
                0 <= done <= count,
                count == self@.pending.len(),
                self.coherent(),
                self.flagged(done as int),
                self.recorded(0),
                self@.config == old(self)@.config,
                self@.players == old(self)@.players,
                self@.regions == old(self)@.regions,
                self@.pending == old(self)@.pending,
                self@.observers.dom() == old(self)@.observers.dom(),
                forall|entity: EntityId| #[trigger]
                    self@.observers.contains_key(entity) ==> self@.observers[entity] == (Observer {
                        changed: old(self)@.observers[entity].changed && !self@.pending.subrange(
                            0,
                            done as int,
                        ).contains(entity),
                        ..old(self)@.observers[entity]
                    }),
                updates@.len() == done,
                forall|i: int|
                    0 <= i < done ==> (#[trigger] updates@[i]).describes(
                        old(self)@.config,
                        old(self)@.pending[i],
                        old(self)@.observers[old(self)@.pending[i]],
                    ),
            decreases count - done,
        {
            let ghost entity = self@.pending[done as int];
            proof {
                assert(self@.pending.subrange(0, done as int + 1) =~= self@.pending.subrange(
                    0,
                    done as int,
                ).push(entity));
            }
            let update = self.process_pending(done);
            updates.push(update);
            done = done + 1;
        }
        let mut committed: usize = 0;
        while committed < count
            invariant
                0 <= committed <= count,
                count == self@.pending.len(),
                self.coherent(),
                self.flagged(count as int),
                self.recorded(committed as int),
                self@.config == old(self)@.config,
                self@.players == old(self)@.players,
                self@.regions == old(self)@.regions,
                self@.pending == old(self)@.pending,
                self@.observers.dom() == old(self)@.observers.dom(),
                forall|entity: EntityId| #[trigger]
                    self@.observers.contains_key(entity) ==> {
                        &&& self@.observers[entity].client == old(self)@.observers[entity].client
                        &&& self@.observers[entity].position == old(
                            self,
                        )@.observers[entity].position
                        &&& !self@.observers[entity].changed
                    },
            decreases count - committed,
        {
            let entity = self.pending[committed];
            let observer = *self.observers.get(&entity).unwrap();
            let ghost before = self@;
            self.observers.insert(
                entity,
                Observer {
                    client: observer.client,
                    position: observer.position,
                    last_position: LastPosition(Some(observer.position)),
                    changed: false,
                },
            );
            proof {
                let after = self@;
                assert(after.membership().subscriptions =~= before.membership().subscriptions);
                assert(after.membership().placements =~= before.membership().placements);
                assert forall|other: EntityId| #[trigger]
                    self.observers@.contains_key(other) && !self.observers@[other].changed
                        && !self.pending@.subrange(committed + 1, count as int).contains(
                        other,
                    ) implies self.observers@[other].last_position.0 == Some(
                    self.observers@[other].position,
                ) by {
                    let waiting = self.pending@.subrange(committed as int, count as int);
                    let rest = self.pending@.subrange(committed + 1, count as int);
                    if other != entity && waiting.contains(other) {
                        let k = choose|k: int| 0 <= k < waiting.len() && waiting[k] == other;
                        assert(rest[k - 1] == other);
                    }
                }
            }
            committed = committed + 1;
        }
        let ghost settled = self@;
        self.pending.clear();
        proof {
            let after = self@;
            let goal = old(self)@.ticked();
            assert(after.membership().subscriptions =~= settled.membership().subscriptions);
            assert(after.membership().placements =~= settled.membership().placements);
            assert(after.observers =~= goal.observers);
        }
        updates
    }

    /// Lets go of a disconnected client: the client leaves every room it
    /// was subscribed to, its observer leaves the room that held it, and
    /// the tracker forgets both. Returns the observer entity, or `None`,
    /// with nothing changed, if the client was not connected.
    pub fn handle_disconnection(&mut self, client: ClientId) -> (removed: Option<EntityId>)
        requires
            old(self).wf(),
        ensures
            final(self).wf(),
            removed == if old(self)@.players.contains_key(client) {
                Some(old(self)@.players[client])
            } else {
                None
            },
            final(self)@ == old(self)@.disconnected(client),
    {
        let entity = match self.players.get(&client) {
            Some(entity) => *entity,
            None => {
                return None;
            },
        };
        let observer = *self.observers.get(&entity).unwrap();
        let ghost before = self@;
        self.index.remove_client(client);
        let settled = if observer.changed {
            observer.last_position.0
        } else {
            Some(observer.position)
        };
        match settled {
            Some(position) => {
                let cell = get_grid_position(position, self.config.cell_size);
                let room = get_room_id_from_grid_position(cell);
                self.index.remove_entity(room, entity);
            },
            None => {},
        }
        self.observers.remove(&entity);
        self.players.remove(&client);
        if observer.changed {
            let mut k: usize = 0;
            while k < self.pending.len() && self.pending[k] != entity
                invariant
                    0 <= k <= self.pending@.len(),
                    self.pending@.contains(entity),
                    forall|j: int| 0 <= j < k ==> self.pending@[j] != entity,
                decreases self.pending@.len() - k,
            {
                k = k + 1;
            }
            self.pending.remove(k);
        }
        proof {
            let after = self@;
            assert(self.index@.placements =~= after.membership().placements);
            assert(self.index@.subscriptions =~= after.membership().subscriptions);
            assert(after.pending.no_duplicates() && forall|other: EntityId|
                other != entity ==> (after.pending.contains(other) <==> before.pending.contains(
                    other,
                ))) by {
                if observer.changed {
                    let k = before.pending.index_of(entity);
                    assert forall|other: EntityId| other != entity implies (after.pending.contains(
                        other,
                    ) <==> before.pending.contains(other)) by {
                        if before.pending.contains(other) {
                            let j = choose|j: int|
                                0 <= j < before.pending.len() && before.pending[j] == other;
                            if j < k {
                                assert(after.pending[j] == other);
                            } else {
                                assert(after.pending[j - 1] == other);
                            }
                        }
                    }
                }
            }
        }
        Some(entity)
    }

    /// Places `entity` passively in the room of `cell`: it subscribes to
    /// nothing, and it is in that room and no other. An entity that was
    /// placed elsewhere moves. An observer, or a cell outside the
    /// supported extent, is refused, and nothing changes.
    pub fn place_entity(&mut self, entity: EntityId, cell: GridCell) -> (accepted: bool)
        requires
            old(self).wf(),
        ensures
            final(self).wf(),
            accepted == old(self)@.accepts_region(entity, cell),
            final(self)@ == if accepted {
                old(self)@.with_region(entity, cell)
            } else {
                old(self)@
            },
    {
        if self.observers.contains_key(&entity) || !cell.is_in_bounds() {
            return false;
        }
        let ghost before = self@;
        let placed = match self.regions.get(&entity) {
            Some(cell) => Some(*cell),
            None => None,
        };
        match placed {
            Some(old_cell) => {
                let old_room = get_room_id_from_grid_position(old_cell);
                self.index.remove_entity(old_room, entity);
            },
            None => {},
        }
        let room = get_room_id_from_grid_position(cell);
        self.index.add_entity(room, entity);
        self.regions.insert(entity, cell);
        proof {
            let after = self@;
            assert(after.membership().subscriptions =~= before.membership().subscriptions);
            assert(self.index@.placements =~= after.membership().placements);
        }
        true
    }

    /// Takes the passively placed `entity` away: it leaves its room.
    /// Nothing changes if `entity` is not passively placed.
    pub fn remove_entity(&mut self, entity: EntityId) -> (removed: bool)
        requires
            old(self).wf(),
        ensures
            final(self).wf(),
            removed == old(self)@.regions.contains_key(entity),
            final(self)@ == old(self)@.without_region(entity),
    {
        let ghost before = self@;
        let placed = match self.regions.get(&entity) {
            Some(cell) => Some(*cell),
            None => None,
        };
        match placed {
            Some(cell) => {
                proof {
                    assert(!before.observers.contains_key(entity));
                }
                let room = get_room_id_from_grid_position(cell);
                self.index.remove_entity(room, entity);
                self.regions.remove(&entity);
                proof {
                    let after = self@;
                    assert(after.membership().subscriptions =~= before.membership().subscriptions);
                    assert(self.index@.placements =~= after.membership().placements);
                }
                true
            },
            None => {
                proof {
                    assert(before.regions.remove(entity) =~= before.regions);
                }
                false
            },
        }
    }

    /// The entities that `client` may observe after the last tick: those
    /// in the rooms that the client is subscribed to.
    pub fn entities_visible_to(&self, client: ClientId) -> (visible: std::collections::HashSet<
        EntityId,
    >)
        requires
            self.wf(),
        ensures
            visible@ == self@.membership().visible_entities(client),
    {
        self.index.entities_visible_to(client)
    }
}

/// An entity is in at most one room at any time: in the room that the
/// tracker has on record for it, or in none.
pub proof fn lemma_at_most_one_room(view: InterestView, entity: EntityId)
    ensures
        view.membership().rooms_holding(entity) == match view.entity_room(entity) {
            Some(room) => set![room],
            None => Set::<RoomId>::empty(),
        },
{
}

/// Between two ticks an observer whose position has not changed is in
/// exactly one room, the room of the cell it stands in, and so is a
/// passively placed entity.
pub proof fn lemma_single_membership(view: InterestView, entity: EntityId)
    requires
        view.quiescent(),
        view.observers.contains_key(entity) || view.regions.contains_key(entity),
        view.observers.contains_key(entity) ==> !view.observers[entity].changed,
    ensures
        view.membership().rooms_holding(entity) == set![
            room_of(
                if view.observers.contains_key(entity) {
                    view.cell(view.observers[entity].position)
                } else {
                    view.regions[entity]
                },
            ),
        ],
{
}

/// A tick leaves every observer in exactly one room, the room of the
/// cell it stands in, and its client subscribed to exactly the rooms of
/// the view window around that cell.
pub proof fn lemma_tick_settles(view: InterestView, entity: EntityId)
    requires
        view.quiescent(),
        view.observers.contains_key(entity),
    ensures
        view.ticked().quiescent(),
        view.ticked().membership().rooms_holding(entity) == set![
            room_of(view.cell(view.observers[entity].position)),
        ],
        view.ticked().membership().rooms_of(view.observers[entity].client) == window_rooms(
            view.cell(view.observers[entity].position),
            view.radius(),
        ),
{
}

/// A room of both the old and the new window of an observer is neither
/// left nor joined by the update that a tick owes to it.
pub proof fn lemma_shared_rooms_untouched(
    update: InterestUpdate,
    config: InterestConfig,
    entity: EntityId,
    observer: Observer,
    room: RoomId,
)
    requires
        update.describes(config, entity, observer),
        subscribed_rooms(update.from, config.view_distance as int).contains(room),
        window_rooms(update.to, config.view_distance as int).contains(room),
    ensures
        !update.left@.contains(room),
        !update.joined@.contains(room),
{
    assert(update.left@.contains(room) <==> update.left@.to_set().contains(room));
    assert(update.joined@.contains(room) <==> update.joined@.to_set().contains(room));
}

} // verus!
