//! Membership index: who is subscribed to which room, looked up from
//! either side, kept in step with the room directory.

use crate::directory::{list_members, RoomDirectory};
use crate::grid::{ClientId, EntityId, RoomId};
use std::collections::{HashMap, HashSet};
use vstd::prelude::*;

verus! {

broadcast use {
    vstd::std_specs::hash::group_hash_axioms,
    vstd::seq_lib::lemma_seq_contains_after_push,
};

/// The index as two relations: which client is subscribed to which room,
/// and which entity is placed in which room.
pub struct MembershipView {
    pub subscriptions: Set<(ClientId, RoomId)>,
    pub placements: Set<(EntityId, RoomId)>,
}

impl MembershipView {
    /// No subscription and no placement.
    pub open spec fn empty() -> MembershipView {
        MembershipView { subscriptions: Set::empty(), placements: Set::empty() }
    }

    /// The rooms that `client` is subscribed to.
    pub open spec fn rooms_of(self, client: ClientId) -> Set<RoomId> {
        Set::new(|room: RoomId| self.subscriptions.contains((client, room)))
    }

    /// The clients subscribed to `room`.
    pub open spec fn clients_of(self, room: RoomId) -> Set<ClientId> {
        Set::new(|client: ClientId| self.subscriptions.contains((client, room)))
    }

    /// The entities placed in `room`.
    pub open spec fn entities_of(self, room: RoomId) -> Set<EntityId> {
        Set::new(|entity: EntityId| self.placements.contains((entity, room)))
    }

    /// The rooms that hold `entity`.
    pub open spec fn rooms_holding(self, entity: EntityId) -> Set<RoomId> {
        Set::new(|room: RoomId| self.placements.contains((entity, room)))
    }

    /// `client` is subscribed to some room.
    pub open spec fn has_client(self, client: ClientId) -> bool {
        exists|room: RoomId| #[trigger] self.subscriptions.contains((client, room))
    }

    /// `room` has a member.
    pub open spec fn has_room(self, room: RoomId) -> bool {
        (exists|client: ClientId| #[trigger] self.subscriptions.contains((client, room))) || (
        exists|entity: EntityId| #[trigger] self.placements.contains((entity, room)))
    }

    /// The entities that `client` may observe: those placed in a room
    /// that the client is subscribed to.
    pub open spec fn visible_entities(self, client: ClientId) -> Set<EntityId> {
        Set::new(
            |entity: EntityId|
                exists|room: RoomId|
                    self.subscriptions.contains((client, room)) && #[trigger] self.placements.contains(
                        (entity, room),
                    ),
        )
    }

    /// The other clients that share a room with `client`.
    pub open spec fn room_mates(self, client: ClientId) -> Set<ClientId> {
        Set::new(
            |other: ClientId|
                other != client && exists|room: RoomId|
                    self.subscriptions.contains((client, room))
                        && #[trigger] self.subscriptions.contains((other, room)),
        )
    }

    /// The index after `client` subscribed to `room`.
    pub open spec fn with_subscription(self, client: ClientId, room: RoomId) -> MembershipView {
        MembershipView {
            subscriptions: self.subscriptions.insert((client, room)),
            placements: self.placements,
        }
    }

    /// The index after `client` left `room`.
    pub open spec fn without_subscription(self, client: ClientId, room: RoomId) -> MembershipView {
        MembershipView {
            subscriptions: self.subscriptions.remove((client, room)),
            placements: self.placements,
        }
    }

    /// The index after `entity` was placed in `room`.
    pub open spec fn with_placement(self, entity: EntityId, room: RoomId) -> MembershipView {
        MembershipView {
            subscriptions: self.subscriptions,
            placements: self.placements.insert((entity, room)),
        }
    }

    /// The index after `entity` was taken out of `room`.
    pub open spec fn without_placement(self, entity: EntityId, room: RoomId) -> MembershipView {
        MembershipView {
            subscriptions: self.subscriptions,
            placements: self.placements.remove((entity, room)),
        }
    }

    /// The index after `client` left every room.
    pub open spec fn without_client(self, client: ClientId) -> MembershipView {
        MembershipView {
            subscriptions: Set::new(
                |pair: (ClientId, RoomId)| self.subscriptions.contains(pair) && pair.0 != client,
            ),
            placements: self.placements,
        }
    }
}

/// The reverse lookup of subscriptions, mirrored against the room directory.
pub struct MembershipIndex {
    directory: RoomDirectory,
    client_to_rooms: HashMap<ClientId, HashSet<RoomId>>,
    room_to_clients: HashMap<RoomId, HashSet<ClientId>>,
}

impl View for MembershipIndex {
    type V = MembershipView;

    closed spec fn view(&self) -> MembershipView {
        MembershipView {
            subscriptions: Set::new(|pair: (ClientId, RoomId)| self.by_client(pair.0, pair.1)),
            placements: Set::new(
                |pair: (EntityId, RoomId)| self.directory.room(pair.1).entities.contains(pair.0),
            ),
        }
    }
}

impl MembershipIndex {
    /// The lookup by client lists `room` under `client`.
    pub closed spec fn by_client(&self, client: ClientId, room: RoomId) -> bool {
        self.client_to_rooms@.contains_key(client) && self.client_to_rooms@[client]@.contains(room)
    }

    /// The lookup by room lists `client` under `room`.
    pub closed spec fn by_room(&self, room: RoomId, client: ClientId) -> bool {
        self.room_to_clients@.contains_key(room) && self.room_to_clients@[room]@.contains(client)
    }

    /// The lookup by client has an entry for `client`.
    pub closed spec fn lists_client(&self, client: ClientId) -> bool {
        self.client_to_rooms@.contains_key(client)
    }

    /// The lookup by room has an entry for `room`.
    pub closed spec fn lists_room(&self, room: RoomId) -> bool {
        self.room_to_clients@.contains_key(room)
    }

    /// The room directory that the index mirrors.
    pub closed spec fn rooms(&self) -> RoomDirectory {
        self.directory
    }

    /// The two lookups agree with each other and with the directory, and
    /// neither holds an entry without members.
    pub closed spec fn wf(&self) -> bool {
        &&& self.directory.wf()
        &&& forall|client: ClientId, room: RoomId|
            #![trigger self.by_client(client, room)]
            #![trigger self.by_room(room, client)]
            self.by_client(client, room) <==> self.by_room(room, client)
        &&& forall|client: ClientId, room: RoomId|
            #![trigger self.by_room(room, client)]
            #![trigger self.directory.room(room).clients.contains(client)]
            self.by_room(room, client) <==> self.directory.room(room).clients.contains(client)
        &&& forall|client: ClientId| #[trigger]
            self.client_to_rooms@.contains_key(client)
                ==> !self.client_to_rooms@[client]@.is_empty()
        &&& forall|room: RoomId| #[trigger]
            self.room_to_clients@.contains_key(room) ==> !self.room_to_clients@[room]@.is_empty()
    }

    /// An index without subscriptions over a directory without rooms.
    pub fn new() -> (index: MembershipIndex)
        ensures
            index.wf(),
            index@ == MembershipView::empty(),
    {
        let index = MembershipIndex {
            directory: RoomDirectory::new(),
            client_to_rooms: HashMap::new(),
            room_to_clients: HashMap::new(),
        };
        proof {
            assert(index@.subscriptions =~= Set::empty());
            assert(index@.placements =~= Set::empty());
        }
        index
    }

    /// Subscribes `client` to `room`: the directory and both lookups record
    /// it. Nothing changes if the client is already subscribed to the room.
    pub fn add_client_to_room(&mut self, client: ClientId, room: RoomId)
        requires
            old(self).wf(),
        ensures
            final(self).wf(),
            final(self)@ == old(self)@.with_subscription(client, room),
    {
        self.directory.add_client(room, client);
        let mut rooms = match self.client_to_rooms.remove(&client) {
            Some(rooms) => rooms,
            None => HashSet::new(),
        };
        rooms.insert(room);
        self.client_to_rooms.insert(client, rooms);
        let mut clients = match self.room_to_clients.remove(&room) {
            Some(clients) => clients,
            None => HashSet::new(),
        };
        clients.insert(client);
        self.room_to_clients.insert(room, clients);
        proof {
            assert forall|c: ClientId, r: RoomId|
                self.by_room(r, c) == (old(self).by_room(r, c) || (c == client && r == room)) by {}
            assert(self@.subscriptions =~= old(self)@.subscriptions.insert((client, room)));
            assert(self@.placements =~= old(self)@.placements);
        }
    }

    /// Ends the subscription of `client` to `room`: the directory and both
    /// lookups forget it, and whatever is left without members is dropped.
    /// Nothing changes if the client is not subscribed to the room.
    pub fn remove_client_from_room(&mut self, client: ClientId, room: RoomId)
        requires
            old(self).wf(),
        ensures
            final(self).wf(),
            final(self)@ == old(self)@.without_subscription(client, room),
    {
        self.directory.remove_client(room, client);
        match self.room_to_clients.remove(&room) {
            Some(clients) => {
                let mut clients = clients;
                clients.remove(&client);
                if !clients.is_empty() {
                    self.room_to_clients.insert(room, clients);
                }
            },
            None => {},
        }
        match self.client_to_rooms.remove(&client) {
            Some(rooms) => {
                let mut rooms = rooms;
                rooms.remove(&room);
                if !rooms.is_empty() {
                    self.client_to_rooms.insert(client, rooms);
                }
            },
            None => {},
        }
        proof {
            assert forall|c: ClientId, r: RoomId|
                self.by_room(r, c) == (old(self).by_room(r, c) && !(c == client && r == room)) by {}
            assert(self@.subscriptions =~= old(self)@.subscriptions.remove((client, room)));
            assert(self@.placements =~= old(self)@.placements);
        }
    }

    /// Places `entity` in `room`. Nothing changes if it is already there.
    pub fn add_entity(&mut self, room: RoomId, entity: EntityId)
        requires
            old(self).wf(),
        ensures
            final(self).wf(),
            final(self)@ == old(self)@.with_placement(entity, room),
    {
        self.directory.add_entity(room, entity);
        proof {
            assert forall|c: ClientId, r: RoomId|
                self.by_room(r, c) == old(self).by_room(r, c) by {}
            assert(self@.subscriptions =~= old(self)@.subscriptions);
            assert(self@.placements =~= old(self)@.placements.insert((entity, room)));
        }
    }

    /// Takes `entity` out of `room`, and drops the room if it is left
    /// without members. Nothing changes if the entity is not there.
    pub fn remove_entity(&mut self, room: RoomId, entity: EntityId)
        requires
            old(self).wf(),
        ensures
            final(self).wf(),
            final(self)@ == old(self)@.without_placement(entity, room),
    {
        self.directory.remove_entity(room, entity);
        proof {
            assert forall|c: ClientId, r: RoomId|
                self.by_room(r, c) == old(self).by_room(r, c) by {}
            assert(self@.subscriptions =~= old(self)@.subscriptions);
            assert(self@.placements =~= old(self)@.placements.remove((entity, room)));
        }
    }

    /// Ends every subscription of `client`, as on a disconnect: each room
    /// that the client was subscribed to loses it, rooms left without
    /// members are dropped, and the lookup by client forgets the client.
    pub fn remove_client(&mut self, client: ClientId)
        requires
            old(self).wf(),
        ensures
            final(self).wf(),
            final(self)@ == old(self)@.without_client(client),
            !final(self).lists_client(client),
    {
        let rooms = self.rooms_of(client);
        let mut i: usize = 0;
        while i < rooms.len()
            invariant
                0 <= i <= rooms@.len(),
                self.wf(),
                rooms@.to_set() == old(self)@.rooms_of(client),
                self@.placements == old(self)@.placements,
                forall|pair: (ClientId, RoomId)| #[trigger]
                    self@.subscriptions.contains(pair) <==> (old(self)@.subscriptions.contains(pair)
                        && !(pair.0 == client && rooms@.subrange(0, i as int).contains(pair.1))),
            decreases rooms@.len() - i,
        {
            let room = rooms[i];
            proof {
                assert(rooms@.subrange(0, i as int + 1) =~= rooms@.subrange(0, i as int).push(
                    room,
                ));
            }
            self.remove_client_from_room(client, room);
            i = i + 1;
        }
        proof {
            assert(rooms@.subrange(0, i as int) =~= rooms@);
            assert(self@.subscriptions =~= old(self)@.without_client(client).subscriptions);
            if self.lists_client(client) {
                let left = self.client_to_rooms@[client]@;
                let room = choose|room: RoomId| left.contains(room);
                assert(self@.subscriptions.contains((client, room)));
            }
        }
    }

    /// The rooms that `client` is subscribed to, read from the lookup by
    /// client: each once, in no particular order.
    pub fn rooms_of(&self, client: ClientId) -> (rooms: Vec<RoomId>)
        ensures
            rooms@.to_set() == self@.rooms_of(client),
            rooms@.no_duplicates(),
            forall|room: RoomId| rooms@.contains(room) <==> self.by_client(client, room),
    {
        match self.client_to_rooms.get(&client) {
            Some(rooms) => {
                let rooms = list_members(rooms);
                rooms
            },
            None => {
                let rooms: Vec<RoomId> = Vec::new();
                rooms
            },
        }
    }

    /// The clients subscribed to `room`, read from the lookup by room:
    /// each once, in no particular order.
    pub fn clients_of(&self, room: RoomId) -> (clients: Vec<ClientId>)
        requires
            self.wf(),
        ensures
            clients@.to_set() == self@.clients_of(room),
            clients@.no_duplicates(),
            forall|client: ClientId| clients@.contains(client) <==> self.by_room(room, client),
    {
        match self.room_to_clients.get(&room) {
            Some(clients) => {
                let clients = list_members(clients);
                clients
            },
            None => {
                let clients: Vec<ClientId> = Vec::new();
                clients
            },
        }
    }

    /// The entities placed in `room`, read from the directory: each once,
    /// in no particular order.
    pub fn entities_of(&self, room: RoomId) -> (entities: Vec<EntityId>)
        ensures
            entities@.to_set() == self@.entities_of(room),
            entities@.no_duplicates(),
    {
        let entities = self.directory.entities_in(room);
        entities
    }

    /// Whether `client` is subscribed to `room`.
    pub fn is_subscribed(&self, client: ClientId, room: RoomId) -> (subscribed: bool)
        ensures
            subscribed == self@.subscriptions.contains((client, room)),
    {
        match self.client_to_rooms.get(&client) {
            Some(rooms) => rooms.contains(&room),
            None => false,
        }
    }

    /// Whether `entity` is placed in `room`.
    pub fn is_placed(&self, entity: EntityId, room: RoomId) -> (placed: bool)
        ensures
            placed == self@.placements.contains((entity, room)),
    {
        self.directory.has_entity(room, entity)
    }

    /// Whether the lookup by client has an entry for `client`: it has one
    /// exactly while the client is subscribed to some room.
    pub fn has_client(&self, client: ClientId) -> (listed: bool)
        requires
            self.wf(),
        ensures
            listed == self@.has_client(client),
            listed == self.lists_client(client),
    {
        proof {
            self.lemma_entries_have_members(client, 0);
        }
        self.client_to_rooms.contains_key(&client)
    }

    /// Whether the directory holds `room`: it does exactly while the room
    /// has a member.
    pub fn has_room(&self, room: RoomId) -> (present: bool)
        requires
            self.wf(),
        ensures
            present == self@.has_room(room),
            present == self.rooms()@.contains_key(room),
    {
        proof {
            self.lemma_mirrors_directory(room);
        }
        self.directory.contains_room(room)
    }

    /// The room directory, for reading.
    pub fn directory(&self) -> (directory: &RoomDirectory)
        ensures
            *directory == self.rooms(),
    {
        &self.directory
    }

    /// The entities that `client` may observe: the union of the entities
    /// of every room that the client is subscribed to.
    pub fn entities_visible_to(&self, client: ClientId) -> (seen: HashSet<EntityId>)
        ensures
            seen@ == self@.visible_entities(client),
    {
        let rooms = self.rooms_of(client);
        let mut visible: HashSet<EntityId> = HashSet::new();
        let mut i: usize = 0;
        while i < rooms.len()
            invariant
                0 <= i <= rooms@.len(),
                rooms@.to_set() == self@.rooms_of(client),
                forall|entity: EntityId|
                    visible@.contains(entity) <==> exists|k: int|
                        0 <= k < i && #[trigger] self@.placements.contains((entity, rooms@[k])),
            decreases rooms@.len() - i,
        {
            let room = rooms[i];
            let entities = self.entities_of(room);
            let ghost before = visible@;
            let mut j: usize = 0;
            while j < entities.len()
                invariant
                    0 <= j <= entities@.len(),
                    entities@.to_set() == self@.entities_of(room),
                    forall|entity: EntityId| #[trigger]
                        visible@.contains(entity) <==> (before.contains(entity)
                            || entities@.subrange(0, j as int).contains(entity)),
                decreases entities@.len() - j,
            {
                proof {
                    assert(entities@.subrange(0, j as int + 1) =~= entities@.subrange(
                        0,
                        j as int,
                    ).push(entities@[j as int]));
                }
                visible.insert(entities[j]);
                j = j + 1;
            }
            proof {
                assert(entities@.subrange(0, j as int) =~= entities@);
                assert forall|entity: EntityId|
                    visible@.contains(entity) <==> exists|k: int|
                        0 <= k < i + 1 && #[trigger] self@.placements.contains(
                            (entity, rooms@[k]),
                        ) by {
                    assert(self@.entities_of(room).contains(entity)
                        <==> self@.placements.contains((entity, rooms@[i as int])));
                }
            }
            i = i + 1;
        }
        visible
    }

    /// The other clients that share a room with `client`, each once, in no
    /// particular order: the clients that a message of `client` to its
    /// rooms goes out to.
    pub fn room_mates(&self, client: ClientId) -> (mates: Vec<ClientId>)
        requires
            self.wf(),
        ensures
            mates@.to_set() == self@.room_mates(client),
            mates@.no_duplicates(),
    {
        let rooms = self.rooms_of(client);
        let mut found: HashSet<ClientId> = HashSet::new();
        let mut i: usize = 0;
        while i < rooms.len()
            invariant
                0 <= i <= rooms@.len(),
                self.wf(),
                rooms@.to_set() == self@.rooms_of(client),
                forall|other: ClientId|
                    found@.contains(other) <==> (other != client && exists|k: int|
                        0 <= k < i && #[trigger] self@.subscriptions.contains((other, rooms@[k]))),
            decreases rooms@.len() - i,
        {
            let room = rooms[i];
            let clients = self.clients_of(room);
            let ghost before = found@;
            let mut j: usize = 0;
            while j < clients.len()
                invariant
                    0 <= j <= clients@.len(),
                    clients@.to_set() == self@.clients_of(room),
                    forall|other: ClientId| #[trigger]
                        found@.contains(other) <==> (before.contains(other) || (other != client
                            && clients@.subrange(0, j as int).contains(other))),
                decreases clients@.len() - j,
            {
                proof {
                    assert(clients@.subrange(0, j as int + 1) =~= clients@.subrange(
                        0,
                        j as int,
                    ).push(clients@[j as int]));
                }
                if clients[j] != client {
                    found.insert(clients[j]);
                }
                j = j + 1;
            }
            proof {
                assert(clients@.subrange(0, j as int) =~= clients@);
                assert forall|other: ClientId|
                    found@.contains(other) <==> (other != client && exists|k: int|
                        0 <= k < i + 1 && #[trigger] self@.subscriptions.contains(
                            (other, rooms@[k]),
                        )) by {
                    assert(self@.clients_of(room).contains(other)
                        <==> self@.subscriptions.contains((other, rooms@[i as int])));
                }
            }
            i = i + 1;
        }
        let mates = list_members(&found);
        mates
    }

    /// The two lookups hold the same subscriptions, and they are the
    /// clients of the directory's rooms: a client is listed under a room
    /// exactly if the room is listed under the client.
    pub proof fn lemma_lookups_agree(&self, client: ClientId, room: RoomId)
        requires
            self.wf(),
        ensures
            self.by_room(room, client) <==> self.by_client(client, room),
            self.by_client(client, room) <==> self@.subscriptions.contains((client, room)),
            self.rooms().room(room).clients.contains(client) <==> self.by_room(room, client),
            self@.clients_of(room).contains(client) <==> self@.rooms_of(client).contains(room),
    {
    }

    /// Neither lookup keeps an entry without members: a client is listed
    /// exactly while it is subscribed to some room, a room exactly while
    /// some client is subscribed to it.
    pub proof fn lemma_entries_have_members(&self, client: ClientId, room: RoomId)
        requires
            self.wf(),
        ensures
            self.lists_client(client) <==> self@.has_client(client),
            self.lists_room(room) <==> !self@.clients_of(room).is_empty(),
    {
        if self.lists_client(client) {
            let rooms = self.client_to_rooms@[client]@;
            let r = choose|r: RoomId| rooms.contains(r);
            assert(self@.subscriptions.contains((client, r)));
        }
    }

    /// The directory holds exactly the rooms that have a member, each with
    /// the clients and entities that the index records for it.
    pub proof fn lemma_mirrors_directory(&self, room: RoomId)
        requires
            self.wf(),
        ensures
            self.rooms().wf(),
            self.rooms().room(room).clients == self@.clients_of(room),
            self.rooms().room(room).entities == self@.entities_of(room),
            self.rooms()@.contains_key(room) <==> self@.has_room(room),
    {
    }
}

/// Subscribing a client to a room twice leaves the index as subscribing
/// it once does.
pub proof fn lemma_subscription_idempotent(index: MembershipView, client: ClientId, room: RoomId)
    ensures
        index.with_subscription(client, room).with_subscription(client, room)
            == index.with_subscription(client, room),
{
    assert(index.subscriptions.insert((client, room)).insert((client, room))
        =~= index.subscriptions.insert((client, room)));
}

/// Placing an entity in a room twice leaves the index as placing it once
/// does.
pub proof fn lemma_placement_idempotent(index: MembershipView, entity: EntityId, room: RoomId)
    ensures
        index.with_placement(entity, room).with_placement(entity, room) == index.with_placement(
            entity,
            room,
        ),
{
    assert(index.placements.insert((entity, room)).insert((entity, room))
        =~= index.placements.insert((entity, room)));
}

/// After a client has left every room, no room lists it, it is subscribed
/// to none, and every other subscription and every placement stands.
pub proof fn lemma_client_removed(index: MembershipView, client: ClientId)
    ensures
        !index.without_client(client).has_client(client),
        index.without_client(client).rooms_of(client) == Set::<RoomId>::empty(),
        forall|room: RoomId| !index.without_client(client).clients_of(room).contains(client),
        forall|other: ClientId, room: RoomId|
            other != client ==> (#[trigger] index.without_client(client).subscriptions.contains(
                (other, room),
            ) <==> index.subscriptions.contains((other, room))),
        index.without_client(client).placements == index.placements,
{
}

/// Once its last client has left and its last entity has been taken out,
/// a room has no member, and with that it is gone.
pub proof fn lemma_room_vanishes(
    index: MembershipView,
    room: RoomId,
    client: ClientId,
    entity: EntityId,
)
    requires
        index.clients_of(room).subset_of(set![client]),
        index.entities_of(room).subset_of(set![entity]),
    ensures
        !index.without_subscription(client, room).without_placement(entity, room).has_room(room),
{
    let after = index.without_subscription(client, room).without_placement(entity, room);
    assert forall|other: ClientId| !after.subscriptions.contains((other, room)) by {
        if index.subscriptions.contains((other, room)) {
            assert(index.clients_of(room).contains(other));
        }
    }
    assert forall|other: EntityId| !after.placements.contains((other, room)) by {
        if index.placements.contains((other, room)) {
            assert(index.entities_of(room).contains(other));
        }
    }
}

} // verus!
