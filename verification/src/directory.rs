//! Room directory: the rooms that exist, each with its clients and entities.
//!
//! A room comes into being with its first member and is dropped with its
//! last: the directory never holds a room without members.

use crate::grid::{ClientId, EntityId, RoomId};
use std::collections::{HashMap, HashSet};
use vstd::prelude::*;
use vstd::std_specs::iter::IteratorSpec;

verus! {

broadcast use vstd::std_specs::hash::group_hash_axioms;

/// What a room holds, as two mathematical sets.
pub struct RoomView {
    pub clients: Set<ClientId>,
    pub entities: Set<EntityId>,
}

impl RoomView {
    /// The room without any member.
    pub open spec fn vacant() -> RoomView {
        RoomView { clients: Set::empty(), entities: Set::empty() }
    }

    /// The room has neither a client nor an entity.
    pub open spec fn is_vacant(self) -> bool {
        self.clients =~= Set::<ClientId>::empty() && self.entities =~= Set::<EntityId>::empty()
    }
}

/// The members of `room`; a room that the directory does not hold has none.
pub open spec fn room_at(rooms: Map<RoomId, RoomView>, room: RoomId) -> RoomView {
    if rooms.contains_key(room) {
        rooms[room]
    } else {
        RoomView::vacant()
    }
}

/// The directory in which `room` has the given members: a room left
/// without members is dropped.
pub open spec fn put_room(rooms: Map<RoomId, RoomView>, room: RoomId, members: RoomView) -> Map<
    RoomId,
    RoomView,
> {
    if members.is_vacant() {
        rooms.remove(room)
    } else {
        rooms.insert(room, members)
    }
}

/// The directory after `entity` was added to `room`.
pub open spec fn with_entity(rooms: Map<RoomId, RoomView>, room: RoomId, entity: EntityId) -> Map<
    RoomId,
    RoomView,
> {
    let members = room_at(rooms, room);
    rooms.insert(
        room,
        RoomView { clients: members.clients, entities: members.entities.insert(entity) },
    )
}

/// The directory after `entity` was removed from `room`.
pub open spec fn without_entity(
    rooms: Map<RoomId, RoomView>,
    room: RoomId,
    entity: EntityId,
) -> Map<RoomId, RoomView> {
    let members = room_at(rooms, room);
    put_room(
        rooms,
        room,
        RoomView { clients: members.clients, entities: members.entities.remove(entity) },
    )
}

/// The directory after `client` was added to `room`.
pub open spec fn with_client(rooms: Map<RoomId, RoomView>, room: RoomId, client: ClientId) -> Map<
    RoomId,
    RoomView,
> {
    let members = room_at(rooms, room);
    rooms.insert(
        room,
        RoomView { clients: members.clients.insert(client), entities: members.entities },
    )
}

/// The directory after `client` was removed from `room`.
pub open spec fn without_client(
    rooms: Map<RoomId, RoomView>,
    room: RoomId,
    client: ClientId,
) -> Map<RoomId, RoomView> {
    let members = room_at(rooms, room);
    put_room(
        rooms,
        room,
        RoomView { clients: members.clients.remove(client), entities: members.entities },
    )
}

/// Every room that the directory holds has a member.
pub open spec fn pruned(rooms: Map<RoomId, RoomView>) -> bool {
    forall|room: RoomId| #[trigger] rooms.contains_key(room) ==> !rooms[room].is_vacant()
}

/// A room: the clients subscribed to it and the entities placed in it.
pub struct Room {
    clients: HashSet<ClientId>,
    entities: HashSet<EntityId>,
}

impl View for Room {
    type V = RoomView;

    closed spec fn view(&self) -> RoomView {
        RoomView { clients: self.clients@, entities: self.entities@ }
    }
}

impl Room {
    /// A room without members.
    fn new() -> (room: Room)
        ensures
            room@ == RoomView::vacant(),
    {
        Room { clients: HashSet::new(), entities: HashSet::new() }
    }

    /// Whether the room has neither a client nor an entity.
    fn is_vacant(&self) -> (vacant: bool)
        ensures
            vacant == self@.is_vacant(),
    {
        self.clients.is_empty() && self.entities.is_empty()
    }
}

/// Lists a set of identifiers, each once, in no particular order.
pub(crate) fn list_members(set: &HashSet<u64>) -> (members: Vec<u64>)
    ensures
        members@.to_set() == set@,
        members@.no_duplicates(),
{
    let mut members: Vec<u64> = Vec::new();
    for id in it: set.iter()
        invariant
            members@.len() == it.index(),
            it.seq() == set.iter().remaining(),
            forall|j: int| 0 <= j < members@.len() ==> members@[j] == *it.seq()[j],
    {
        members.push(*id);
    }
    proof {
        assert(members@ =~= set.iter().remaining().unref());
    }
    members
}

/// The set of rooms, keyed by room identifier.
pub struct RoomDirectory {
    rooms: HashMap<RoomId, Room>,
}

impl View for RoomDirectory {
    type V = Map<RoomId, RoomView>;

    closed spec fn view(&self) -> Map<RoomId, RoomView> {
        Map::new(|room: RoomId| self.rooms@.contains_key(room), |room: RoomId| self.rooms@[room]@)
    }
}

impl RoomDirectory {
    /// The directory holds no room without members.
    pub open spec fn wf(&self) -> bool {
        pruned(self@)
    }

    /// The members of `room`.
    pub open spec fn room(&self, room: RoomId) -> RoomView {
        room_at(self@, room)
    }

    /// A directory without rooms.
    pub fn new() -> (directory: RoomDirectory)
        ensures
            directory.wf(),
            directory@ == Map::<RoomId, RoomView>::empty(),
    {
        let directory = RoomDirectory { rooms: HashMap::new() };
        directory
    }

    /// Adds `entity` to `room`, creating the room if the directory does not
    /// hold it. Nothing changes if the entity is already there.
    pub fn add_entity(&mut self, room: RoomId, entity: EntityId)
        requires
            old(self).wf(),
        ensures
            final(self).wf(),
            final(self)@ == with_entity(old(self)@, room, entity),
    {
        let mut members = match self.rooms.remove(&room) {
            Some(members) => members,
            None => Room::new(),
        };
        members.entities.insert(entity);
        self.rooms.insert(room, members);
        proof {
            assert(self@ =~~= with_entity(old(self)@, room, entity));
        }
    }

    /// Removes `entity` from `room` and drops the room if it is left without
    /// members. Nothing changes if the entity is not there.
    pub fn remove_entity(&mut self, room: RoomId, entity: EntityId)
        requires
            old(self).wf(),
        ensures
            final(self).wf(),
            final(self)@ == without_entity(old(self)@, room, entity),
    {
        match self.rooms.remove(&room) {
            Some(members) => {
                let mut members = members;
                members.entities.remove(&entity);
                if !members.is_vacant() {
                    self.rooms.insert(room, members);
                }
            },
            None => {},
        }
        proof {
            assert(self@ =~~= without_entity(old(self)@, room, entity));
        }
    }

    /// Adds `client` to `room`, creating the room if the directory does not
    /// hold it. Nothing changes if the client is already there.
    pub(crate) fn add_client(&mut self, room: RoomId, client: ClientId)
        requires
            old(self).wf(),
        ensures
            final(self).wf(),
            final(self)@ == with_client(old(self)@, room, client),
    {
        let mut members = match self.rooms.remove(&room) {
            Some(members) => members,
            None => Room::new(),
        };
        members.clients.insert(client);
        self.rooms.insert(room, members);
        proof {
            assert(self@ =~~= with_client(old(self)@, room, client));
        }
    }

    /// Removes `client` from `room` and drops the room if it is left without
    /// members. Nothing changes if the client is not there.
    pub(crate) fn remove_client(&mut self, room: RoomId, client: ClientId)
        requires
            old(self).wf(),
        ensures
            final(self).wf(),
            final(self)@ == without_client(old(self)@, room, client),
    {
        match self.rooms.remove(&room) {
            Some(members) => {
                let mut members = members;
                members.clients.remove(&client);
                if !members.is_vacant() {
                    self.rooms.insert(room, members);
                }
            },
            None => {},
        }
        proof {
            assert(self@ =~~= without_client(old(self)@, room, client));
        }
    }

    /// Whether the directory holds `room`.
    pub fn contains_room(&self, room: RoomId) -> (present: bool)
        ensures
            present == self@.contains_key(room),
    {
        self.rooms.contains_key(&room)
    }

    /// The number of rooms that the directory holds.
    pub fn room_count(&self) -> (count: usize)
        ensures
            count == self@.len(),
    {
        proof {
            assert(self@.dom() =~= self.rooms@.dom());
        }
        self.rooms.len()
    }

    /// Whether `entity` is placed in `room`.
    pub fn has_entity(&self, room: RoomId, entity: EntityId) -> (present: bool)
        ensures
            present == self.room(room).entities.contains(entity),
    {
        match self.rooms.get(&room) {
            Some(members) => members.entities.contains(&entity),
            None => false,
        }
    }

    /// Whether `client` is subscribed to `room`.
    pub fn has_client(&self, room: RoomId, client: ClientId) -> (present: bool)
        ensures
            present == self.room(room).clients.contains(client),
    {
        match self.rooms.get(&room) {
            Some(members) => members.clients.contains(&client),
            None => false,
        }
    }

    /// The entities placed in `room`, each once, in no particular order.
    pub fn entities_in(&self, room: RoomId) -> (entities: Vec<EntityId>)
        ensures
            entities@.to_set() == self.room(room).entities,
            entities@.no_duplicates(),
    {
        match self.rooms.get(&room) {
            Some(members) => list_members(&members.entities),
            None => {
                let entities: Vec<EntityId> = Vec::new();
                entities
            },
        }
    }

    /// The clients subscribed to `room`, each once, in no particular order.
    pub fn clients_in(&self, room: RoomId) -> (clients: Vec<ClientId>)
        ensures
            clients@.to_set() == self.room(room).clients,
            clients@.no_duplicates(),
    {
        match self.rooms.get(&room) {
            Some(members) => list_members(&members.clients),
            None => {
                let clients: Vec<ClientId> = Vec::new();
                clients
            },
        }
    }
}

/// Adding an entity to a room twice leaves the directory as adding it
/// once does.
pub proof fn lemma_add_entity_idempotent(
    rooms: Map<RoomId, RoomView>,
    room: RoomId,
    entity: EntityId,
)
    ensures
        with_entity(with_entity(rooms, room, entity), room, entity) == with_entity(
            rooms,
            room,
            entity,
        ),
{
    let once = with_entity(rooms, room, entity);
    assert(room_at(once, room).entities.insert(entity) =~= room_at(once, room).entities);
}

/// Adding a client to a room twice leaves the directory as adding it
/// once does.
pub proof fn lemma_add_client_idempotent(
    rooms: Map<RoomId, RoomView>,
    room: RoomId,
    client: ClientId,
)
    ensures
        with_client(with_client(rooms, room, client), room, client) == with_client(
            rooms,
            room,
            client,
        ),
{
    let once = with_client(rooms, room, client);
    assert(room_at(once, room).clients.insert(client) =~= room_at(once, room).clients);
}

/// Adding and removing keep the directory free of rooms without members.
pub proof fn lemma_stays_pruned(rooms: Map<RoomId, RoomView>, room: RoomId, member: u64)
    requires
        pruned(rooms),
    ensures
        pruned(with_entity(rooms, room, member)),
        pruned(without_entity(rooms, room, member)),
        pruned(with_client(rooms, room, member)),
        pruned(without_client(rooms, room, member)),
{
    assert(room_at(rooms, room).clients.insert(member).contains(member));
}

/// Once its last client and its last entity have been removed, in either
/// order, a room is gone from the directory.
pub proof fn lemma_last_member_prunes(
    rooms: Map<RoomId, RoomView>,
    room: RoomId,
    client: ClientId,
    entity: EntityId,
)
    requires
        room_at(rooms, room).clients.subset_of(set![client]),
        room_at(rooms, room).entities.subset_of(set![entity]),
    ensures
        !without_entity(without_client(rooms, room, client), room, entity).contains_key(room),
        !without_client(without_entity(rooms, room, entity), room, client).contains_key(room),
{
}

} // verus!
