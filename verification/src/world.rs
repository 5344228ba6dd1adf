//! The mathematical model of the authoritative world, and what each phase
//! of a server tick makes of it.

use vstd::prelude::*;
use crate::network::{PlayerCommand, ServerEntity, ServerMessage};
use crate::player::{PlayerInput, PlayerRecord};
use crate::projectile::ProjectileRecord;
use crate::seq_facts::{
    lemma_filter_drops_one, lemma_filter_keeps_all, lemma_filter_member, lemma_filter_order,
};
use crate::transform::Transform;

verus! {

/// What the transport reports about connections.
#[derive(Clone, Copy, Debug, PartialEq, Eq, Structural)]
pub enum ServerEvent {
    ClientConnected(u64),
    ClientDisconnected(u64),
}

/// What arrives from a client.
#[derive(Clone, Copy, Debug, PartialEq, Eq, Structural)]
pub enum ClientMessage {
    Input(PlayerInput),
    Command(PlayerCommand),
    /// Bytes that did not decode. They are fatal to the session that sent
    /// them, and to no other.
    Garbled,
}

/// A message as it arrived, with the client that sent it.
#[derive(Clone, Copy, Debug, PartialEq, Eq, Structural)]
pub struct Inbound {
    pub client_id: u64,
    pub message: ClientMessage,
}

/// To whom a message goes.
#[derive(Clone, Copy, Debug, PartialEq, Eq, Structural)]
pub enum Recipient {
    Client(u64),
    Everyone,
}

/// A structural message to send on the reliable channel.
#[derive(Clone, Copy, Debug, PartialEq, Eq, Structural)]
pub struct Outbound {
    pub recipient: Recipient,
    pub message: ServerMessage,
}

impl Outbound {
    /// `message`, sent to every connected client.
    pub open spec fn spec_broadcast(message: ServerMessage) -> Outbound {
        Outbound { recipient: Recipient::Everyone, message }
    }

    /// The announcement of an existing `player` to the client `id` that has
    /// just connected.
    pub open spec fn spec_replay(id: u64, player: PlayerRecord) -> Outbound {
        Outbound {
            recipient: Recipient::Client(id),
            message: ServerMessage::PlayerCreate { id: player.id, entity: player.entity },
        }
    }

    #[verifier::when_used_as_spec(spec_broadcast)]
    pub fn broadcast(message: ServerMessage) -> (out: Outbound)
        ensures
            out == Outbound::spec_broadcast(message),
    {
        Outbound { recipient: Recipient::Everyone, message }
    }

    #[verifier::when_used_as_spec(spec_replay)]
    pub fn replay(id: u64, player: PlayerRecord) -> (out: Outbound)
        ensures
            out == Outbound::spec_replay(id, player),
    {
        Outbound {
            recipient: Recipient::Client(id),
            message: ServerMessage::PlayerCreate { id: player.id, entity: player.entity },
        }
    }
}

/// A projectile and a player whose boxes overlap, as the geometry found
/// them.
#[derive(Clone, Copy, Debug, PartialEq, Eq, Structural)]
pub struct Overlap {
    pub projectile: ServerEntity,
    pub player: ServerEntity,
}

/// The mathematical model of the authoritative world.
pub struct WorldView {
    /// The players, in the order in which their clients connected.
    pub players: Seq<PlayerRecord>,
    /// The projectiles in flight, in the order in which they were cast.
    pub projectiles: Seq<ProjectileRecord>,
    /// The identity that the next new entity gets. Identities are handed out
    /// in ascending order, so none is ever used twice.
    pub next_entity: nat,
}

impl WorldView {
    /// The world before anything happened.
    pub open spec fn empty() -> WorldView {
        WorldView { players: Seq::empty(), projectiles: Seq::empty(), next_entity: 0 }
    }

    /// No client has two players, no identity is used twice, and every
    /// identity in use was handed out before.
    pub open spec fn wf(self) -> bool {
        &&& self.next_entity <= u64::MAX
        &&& forall|i: int, j: int|
            #![trigger self.players[i], self.players[j]]
            0 <= i < j < self.players.len() ==> self.players[i].id != self.players[j].id
        &&& forall|i: int, j: int|
            #![trigger self.players[i], self.players[j]]
            0 <= i < j < self.players.len() ==> self.players[i].entity != self.players[j].entity
        &&& forall|i: int, j: int|
            #![trigger self.projectiles[i], self.projectiles[j]]
            0 <= i < j < self.projectiles.len() ==> self.projectiles[i].entity
                != self.projectiles[j].entity
        &&& forall|i: int, j: int|
            #![trigger self.players[i], self.projectiles[j]]
            0 <= i < self.players.len() && 0 <= j < self.projectiles.len()
                ==> self.players[i].entity != self.projectiles[j].entity
        &&& forall|i: int|
            0 <= i < self.players.len() ==> (#[trigger] self.players[i]).entity.bits
                < self.next_entity
        &&& forall|j: int|
            0 <= j < self.projectiles.len() ==> (#[trigger] self.projectiles[j]).entity.bits
                < self.next_entity
    }

    /// Whether the client `id` has a player.
    pub open spec fn has_client(self, id: u64) -> bool {
        exists|i: int| 0 <= i < self.players.len() && (#[trigger] self.players[i]).id == id
    }

    /// Where the player of client `id` stands in the list of players.
    pub open spec fn client_index(self, id: u64) -> int {
        choose|i: int| 0 <= i < self.players.len() && (#[trigger] self.players[i]).id == id
    }

    /// The lobby: each connected client with the entity of its player.
    pub open spec fn lobby(self) -> Map<u64, ServerEntity> {
        Map::new(
            |id: u64| self.has_client(id),
            |id: u64| self.players[self.client_index(id)].entity,
        )
    }

    /// Whether `entity` is a player.
    pub open spec fn has_player(self, entity: ServerEntity) -> bool {
        exists|i: int| 0 <= i < self.players.len() && (#[trigger] self.players[i]).entity == entity
    }

    /// Whether `entity` is a projectile in flight.
    pub open spec fn has_projectile(self, entity: ServerEntity) -> bool {
        exists|i: int|
            0 <= i < self.projectiles.len() && (#[trigger] self.projectiles[i]).entity == entity
    }

    /// Where the projectile `entity` stands in the list of projectiles.
    pub open spec fn projectile_index(self, entity: ServerEntity) -> int {
        choose|i: int|
            0 <= i < self.projectiles.len() && (#[trigger] self.projectiles[i]).entity == entity
    }

    /// Whether the projectile `first` stands before the projectile `second`
    /// in the list of projectiles.
    pub open spec fn flies_before(self, first: ServerEntity, second: ServerEntity) -> bool {
        exists|i1: int, i2: int|
            0 <= i1 < i2 < self.projectiles.len() && (#[trigger] self.projectiles[i1]).entity
                == first && (#[trigger] self.projectiles[i2]).entity == second
    }

    /// The identity that the next new entity gets.
    pub open spec fn fresh_entity(self) -> ServerEntity {
        ServerEntity { bits: self.next_entity as u64 }
    }

    /// The world after the client `id` connected. A client that is connected
    /// already changes nothing; any other gets a player under a fresh
    /// identity, at the end of the list.
    pub open spec fn after_connect(self, id: u64) -> WorldView {
        if self.has_client(id) {
            self
        } else {
            WorldView {
                players: self.players.push(PlayerRecord::joined(id, self.fresh_entity())),
                next_entity: self.next_entity + 1,
                ..self
            }
        }
    }

    /// What is sent when the client `id` connects: to that client the
    /// players that exist, in order; then to everyone, the new client
    /// included, the new player.
    pub open spec fn connect_messages(self, id: u64) -> Seq<Outbound> {
        if self.has_client(id) {
            Seq::empty()
        } else {
            self.players.map_values(|p: PlayerRecord| Outbound::replay(id, p)).push(
                Outbound::broadcast(
                    ServerMessage::PlayerCreate { id, entity: self.fresh_entity() },
                ),
            )
        }
    }

    /// The world after the client `id` disconnected: without its player.
    pub open spec fn after_disconnect(self, id: u64) -> WorldView {
        WorldView { players: self.players.filter(|p: PlayerRecord| p.id != id), ..self }
    }

    /// What is sent when the client `id` disconnects.
    pub open spec fn disconnect_messages(self, id: u64) -> Seq<Outbound> {
        seq![Outbound::broadcast(ServerMessage::PlayerDisconnected { id })]
    }

    /// The world after one connection event.
    pub open spec fn after_event(self, event: ServerEvent) -> WorldView {
        match event {
            ServerEvent::ClientConnected(id) => self.after_connect(id),
            ServerEvent::ClientDisconnected(id) => self.after_disconnect(id),
        }
    }

    /// What is sent for one connection event.
    pub open spec fn event_messages(self, event: ServerEvent) -> Seq<Outbound> {
        match event {
            ServerEvent::ClientConnected(id) => self.connect_messages(id),
            ServerEvent::ClientDisconnected(id) => self.disconnect_messages(id),
        }
    }

    /// The world after `input` arrived from the client `id`: it replaces the
    /// input that the client's player had. Input from a client without a
    /// player changes nothing.
    pub open spec fn after_input(self, id: u64, input: PlayerInput) -> WorldView {
        WorldView {
            players: self.players.map_values(
                |p: PlayerRecord|
                    if p.id == id {
                        p.with_input(input)
                    } else {
                        p
                    },
            ),
            ..self
        }
    }

    /// The world after the client `id` cast the basic attack: one more
    /// projectile, owned by the client's player and placed where that player
    /// stands. The aim point plays no part: the player is already turned
    /// towards it. A client without a player casts nothing.
    pub open spec fn after_basic_attack(self, id: u64) -> WorldView {
        if self.has_client(id) {
            WorldView {
                projectiles: self.projectiles.push(
                    ProjectileRecord::cast(
                        self.fresh_entity(),
                        self.players[self.client_index(id)],
                    ),
                ),
                next_entity: self.next_entity + 1,
                ..self
            }
        } else {
            self
        }
    }

    /// What is sent when the client `id` casts the basic attack: the new
    /// projectile, to everyone.
    pub open spec fn basic_attack_messages(self, id: u64) -> Seq<Outbound> {
        if self.has_client(id) {
            let caster = self.players[self.client_index(id)];
            seq![
                Outbound::broadcast(
                    ServerMessage::SpawnProjectile {
                        entity: self.fresh_entity(),
                        transform: caster.transform.translation.truncate(),
                        rotation: caster.transform.rotation,
                    },
                ),
            ]
        } else {
            Seq::empty()
        }
    }

    /// The world after one message of a client. Bytes that did not decode
    /// take the sender's player out of the world, as a disconnect does: what
    /// the same client sends after them finds no player and changes nothing.
    pub open spec fn after_inbound(self, inbound: Inbound) -> WorldView {
        match inbound.message {
            ClientMessage::Input(input) => self.after_input(inbound.client_id, input),
            ClientMessage::Command(PlayerCommand::BasicAttack { .. }) => self.after_basic_attack(
                inbound.client_id,
            ),
            ClientMessage::Garbled => self.after_disconnect(inbound.client_id),
        }
    }

    /// What is sent for one message of a client.
    pub open spec fn inbound_messages(self, inbound: Inbound) -> Seq<Outbound> {
        match inbound.message {
            ClientMessage::Input(_) => Seq::empty(),
            ClientMessage::Command(PlayerCommand::BasicAttack { .. }) => self.basic_attack_messages(
                inbound.client_id,
            ),
            ClientMessage::Garbled => self.disconnect_messages(inbound.client_id),
        }
    }

    /// The world after a run of connection events, taken in order.
    pub open spec fn after_events(self, events: Seq<ServerEvent>) -> WorldView
        decreases events.len(),
    {
        if events.len() == 0 {
            self
        } else {
            self.after_events(events.drop_last()).after_event(events.last())
        }
    }

    /// What is sent for a run of connection events.
    pub open spec fn events_messages(self, events: Seq<ServerEvent>) -> Seq<Outbound>
        decreases events.len(),
    {
        if events.len() == 0 {
            Seq::empty()
        } else {
            self.events_messages(events.drop_last()) + self.after_events(
                events.drop_last(),
            ).event_messages(events.last())
        }
    }

    /// The world after a run of client messages, taken in order.
    pub open spec fn after_inbox(self, inbox: Seq<Inbound>) -> WorldView
        decreases inbox.len(),
    {
        if inbox.len() == 0 {
            self
        } else {
            self.after_inbox(inbox.drop_last()).after_inbound(inbox.last())
        }
    }

    /// What is sent for a run of client messages.
    pub open spec fn inbox_messages(self, inbox: Seq<Inbound>) -> Seq<Outbound>
        decreases inbox.len(),
    {
        if inbox.len() == 0 {
            Seq::empty()
        } else {
            self.inbox_messages(inbox.drop_last()) + self.after_inbox(
                inbox.drop_last(),
            ).inbound_messages(inbox.last())
        }
    }

    /// The world after `entity` was placed at `transform`. An entity that is
    /// not of the world changes nothing.
    pub open spec fn after_placement(self, entity: ServerEntity, transform: Transform) -> WorldView {
        WorldView {
            players: self.players.map_values(
                |p: PlayerRecord|
                    if p.entity == entity {
                        p.with_transform(transform)
                    } else {
                        p
                    },
            ),
            projectiles: self.projectiles.map_values(
                |p: ProjectileRecord|
                    if p.entity == entity {
                        p.with_transform(transform)
                    } else {
                        p
                    },
            ),
            ..self
        }
    }

    /// The world `elapsed` nanoseconds later: the projectiles that outlive
    /// them, each that much older, in their order.
    pub open spec fn after_elapsed(self, elapsed: u64) -> WorldView {
        WorldView {
            projectiles: self.projectiles.filter(
                |p: ProjectileRecord| p.outlives(elapsed),
            ).map_values(|p: ProjectileRecord| p.aged(elapsed)),
            ..self
        }
    }

    /// What is sent when `elapsed` nanoseconds pass: for each projectile
    /// that does not outlive them, in order, that it is gone.
    pub open spec fn expiry_messages(self, elapsed: u64) -> Seq<Outbound> {
        self.projectiles.filter(|p: ProjectileRecord| !p.outlives(elapsed)).map_values(
            |p: ProjectileRecord|
                Outbound::broadcast(ServerMessage::DespawnProjectile { entity: p.entity }),
        )
    }

    /// Whether an overlap counts as a hit: the projectile is in flight, the
    /// player exists, and the player did not cast the projectile.
    pub open spec fn is_hit(self, overlap: Overlap) -> bool {
        &&& self.has_projectile(overlap.projectile)
        &&& self.has_player(overlap.player)
        &&& self.projectiles[self.projectile_index(overlap.projectile)].owner != overlap.player
    }

    /// The world after one overlap was reported: a hit destroys the
    /// projectile.
    pub open spec fn after_overlap(self, overlap: Overlap) -> WorldView {
        if self.is_hit(overlap) {
            WorldView {
                projectiles: self.projectiles.filter(
                    |p: ProjectileRecord| p.entity != overlap.projectile,
                ),
                ..self
            }
        } else {
            self
        }
    }

    /// What is sent for one overlap: for a hit, that the projectile is gone
    /// and that the player was struck; else nothing.
    pub open spec fn overlap_messages(self, overlap: Overlap) -> Seq<Outbound> {
        if self.is_hit(overlap) {
            seq![
                Outbound::broadcast(ServerMessage::DespawnProjectile { entity: overlap.projectile }),
                Outbound::broadcast(ServerMessage::DespawnPlayer { entity: overlap.player }),
            ]
        } else {
            Seq::empty()
        }
    }

    /// The world after a run of overlaps, taken in order. A projectile that
    /// overlaps several players hits the first of them only: after that it
    /// is gone.
    pub open spec fn after_overlaps(self, overlaps: Seq<Overlap>) -> WorldView
        decreases overlaps.len(),
    {
        if overlaps.len() == 0 {
            self
        } else {
            self.after_overlaps(overlaps.drop_last()).after_overlap(overlaps.last())
        }
    }

    /// What is sent for a run of overlaps.
    pub open spec fn overlaps_messages(self, overlaps: Seq<Overlap>) -> Seq<Outbound>
        decreases overlaps.len(),
    {
        if overlaps.len() == 0 {
            Seq::empty()
        } else {
            self.overlaps_messages(overlaps.drop_last()) + self.after_overlaps(
                overlaps.drop_last(),
            ).overlap_messages(overlaps.last())
        }
    }

    /// The entities of a snapshot: the players, then the projectiles.
    pub open spec fn snapshot_entities(self) -> Seq<ServerEntity> {
        self.players.map_values(|p: PlayerRecord| p.entity) + self.projectiles.map_values(
            |p: ProjectileRecord| p.entity,
        )
    }

    /// The placements of a snapshot, in the order of its entities.
    pub open spec fn snapshot_transforms(self) -> Seq<Transform> {
        self.players.map_values(|p: PlayerRecord| p.transform) + self.projectiles.map_values(
            |p: ProjectileRecord| p.transform,
        )
    }
}

/// The sessions that the transport has to end after a run of client
/// messages: those of the clients whose bytes did not decode, in the order
/// of the messages.
pub open spec fn sessions_to_end(inbox: Seq<Inbound>) -> Seq<u64> {
    inbox.filter(|m: Inbound| m.message == ClientMessage::Garbled).map_values(
        |m: Inbound| m.client_id,
    )
}

/// With distinct clients, the player at place `i` is the one that the lobby
/// finds for its client.
pub proof fn lemma_client_index(w: WorldView, i: int)
    requires
        w.wf(),
        0 <= i < w.players.len(),
    ensures
        w.has_client(w.players[i].id),
        w.client_index(w.players[i].id) == i,
        w.lobby().contains_key(w.players[i].id),
        w.lobby()[w.players[i].id] == w.players[i].entity,
{
    let id = w.players[i].id;
    let k = w.client_index(id);
    assert(0 <= k < w.players.len() && w.players[k].id == id);
    if k < i {
        assert(w.players[k].id != w.players[i].id);
    } else if i < k {
        assert(w.players[i].id != w.players[k].id);
    }
}

/// Connecting keeps the world well formed and enters the client in the
/// lobby.
pub proof fn lemma_connect(w: WorldView, id: u64)
    requires
        w.wf(),
        w.next_entity < u64::MAX,
    ensures
        w.after_connect(id).wf(),
        w.after_connect(id).lobby() == if w.has_client(id) {
            w.lobby()
        } else {
            w.lobby().insert(id, w.fresh_entity())
        },
{
    if !w.has_client(id) {
        let after = w.after_connect(id);
        let n = w.players.len() as int;
        let record = PlayerRecord::joined(id, w.fresh_entity());
        assert(after.players[n] == record);
        assert(forall|i: int| 0 <= i < n ==> after.players[i] == w.players[i]);
        assert(after.wf()) by {
            assert forall|i: int, j: int| 0 <= i < j < after.players.len() implies
                #[trigger] after.players[i].id != #[trigger] after.players[j].id by {
                if j == n {
                    assert(w.players[i].id != id);
                } else {
                    assert(w.players[i].id != w.players[j].id);
                }
            }
            assert forall|i: int, j: int| 0 <= i < j < after.players.len() implies
                #[trigger] after.players[i].entity != #[trigger] after.players[j].entity by {
                if j == n {
                    assert(w.players[i].entity.bits < w.next_entity);
                } else {
                    assert(w.players[i].entity != w.players[j].entity);
                }
            }
            assert forall|i: int, j: int|
                0 <= i < after.players.len() && 0 <= j < after.projectiles.len() implies
                #[trigger] after.players[i].entity != #[trigger] after.projectiles[j].entity by {
                if i == n {
                    assert(w.projectiles[j].entity.bits < w.next_entity);
                } else {
                    assert(w.players[i].entity != w.projectiles[j].entity);
                }
            }
            assert forall|i: int| 0 <= i < after.players.len() implies (
            #[trigger] after.players[i]).entity.bits < after.next_entity by {
                if i < n {
                    assert(w.players[i].entity.bits < w.next_entity);
                }
            }
        }
        assert forall|c: u64| after.has_client(c) <==> (c == id || w.has_client(c)) by {
            if after.has_client(c) {
                let k = after.client_index(c);
                if k < n {
                    assert(w.players[k].id == c);
                }
            }
            if c == id {
                assert(after.players[n].id == c);
            }
            if w.has_client(c) {
                let k = w.client_index(c);
                assert(after.players[k].id == c);
            }
        }
        assert forall|c: u64| after.has_client(c) implies after.lobby()[c] == w.lobby().insert(
            id,
            w.fresh_entity(),
        )[c] by {
            let k = after.client_index(c);
            lemma_client_index(after, k);
            if k < n {
                lemma_client_index(w, k);
            }
        }
        assert(after.lobby() =~= w.lobby().insert(id, w.fresh_entity()));
    }
}

/// Disconnecting keeps the world well formed and strikes the client from
/// the lobby. At most one player leaves, and the others keep their order.
pub proof fn lemma_disconnect(w: WorldView, id: u64)
    requires
        w.wf(),
    ensures
        w.after_disconnect(id).wf(),
        w.after_disconnect(id).lobby() == w.lobby().remove(id),
        w.has_client(id) ==> w.after_disconnect(id).players == w.players.remove(
            w.client_index(id),
        ),
        !w.has_client(id) ==> w.after_disconnect(id) == w,
{
    let pred = |p: PlayerRecord| p.id != id;
    let after = w.after_disconnect(id);
    if w.has_client(id) {
        let k = w.client_index(id);
        lemma_client_index(w, k);
        assert forall|i: int| 0 <= i < w.players.len() && i != k implies pred(
            #[trigger] w.players[i],
        ) by {
            if i < k {
                assert(w.players[i].id != w.players[k].id);
            } else {
                assert(w.players[k].id != w.players[i].id);
            }
        }
        lemma_filter_drops_one(w.players, pred, k);
        assert(after.players == w.players.remove(k));
        assert forall|i: int| 0 <= i < after.players.len() implies #[trigger] after.players[i] == (
        if i < k {
            w.players[i]
        } else {
            w.players[i + 1]
        }) by {}
        assert(after.wf()) by {
            assert forall|i: int, j: int| 0 <= i < j < after.players.len() implies
                #[trigger] after.players[i].id != #[trigger] after.players[j].id by {
                let a = if i < k { i } else { i + 1 };
                let b = if j < k { j } else { j + 1 };
                assert(w.players[a].id != w.players[b].id);
            }
            assert forall|i: int, j: int| 0 <= i < j < after.players.len() implies
                #[trigger] after.players[i].entity != #[trigger] after.players[j].entity by {
                let a = if i < k { i } else { i + 1 };
                let b = if j < k { j } else { j + 1 };
                assert(w.players[a].entity != w.players[b].entity);
            }
            assert forall|i: int, j: int|
                0 <= i < after.players.len() && 0 <= j < after.projectiles.len() implies
                #[trigger] after.players[i].entity != #[trigger] after.projectiles[j].entity by {
                let a = if i < k { i } else { i + 1 };
                assert(w.players[a].entity != w.projectiles[j].entity);
            }
            assert forall|i: int| 0 <= i < after.players.len() implies (
            #[trigger] after.players[i]).entity.bits < after.next_entity by {
                let a = if i < k { i } else { i + 1 };
                assert(w.players[a].entity.bits < w.next_entity);
            }
        }
        assert forall|c: u64| after.has_client(c) <==> (c != id && w.has_client(c)) by {
            if after.has_client(c) {
                let i = after.client_index(c);
                let a = if i < k { i } else { i + 1 };
                assert(w.players[a].id == c);
                assert(a != k);
            }
            if c != id && w.has_client(c) {
                let a = w.client_index(c);
                let i = if a < k { a } else { a - 1 };
                assert(after.players[i].id == c);
            }
        }
        assert forall|c: u64| after.has_client(c) implies after.lobby()[c] == w.lobby()[c] by {
            let i = after.client_index(c);
            let a = if i < k { i } else { i + 1 };
            lemma_client_index(after, i);
            lemma_client_index(w, a);
        }
        assert(after.lobby() =~= w.lobby().remove(id));
    } else {
        assert forall|i: int| 0 <= i < w.players.len() implies pred(#[trigger] w.players[i]) by {}
        lemma_filter_keeps_all(w.players, pred);
        assert(after == w);
        assert(w.lobby().remove(id) =~= w.lobby());
    }
}

/// Two worlds whose players agree on client and entity, place by place, know
/// the same clients and players and have the same lobby.
pub proof fn lemma_same_identities(a: WorldView, b: WorldView)
    requires
        a.wf(),
        a.players.len() == b.players.len(),
        forall|i: int|
            0 <= i < a.players.len() ==> (#[trigger] a.players[i]).id == b.players[i].id
                && a.players[i].entity == b.players[i].entity,
    ensures
        b.lobby() == a.lobby(),
        forall|c: u64| a.has_client(c) == b.has_client(c),
        forall|c: u64| a.has_client(c) ==> b.client_index(c) == a.client_index(c),
        forall|e: ServerEntity| a.has_player(e) == b.has_player(e),
{
    assert forall|c: u64| a.has_client(c) == b.has_client(c) by {
        if a.has_client(c) {
            let k = a.client_index(c);
            assert(b.players[k].id == c);
        }
        if b.has_client(c) {
            let k = b.client_index(c);
            assert(a.players[k].id == c);
        }
    }
    assert forall|c: u64| a.has_client(c) implies b.client_index(c) == a.client_index(c) by {
        let k = b.client_index(c);
        assert(a.players[k].id == c);
        lemma_client_index(a, k);
    }
    assert forall|e: ServerEntity| a.has_player(e) == b.has_player(e) by {
        if a.has_player(e) {
            let k = choose|i: int| 0 <= i < a.players.len() && (#[trigger] a.players[i]).entity == e;
            assert(b.players[k].entity == e);
        }
        if b.has_player(e) {
            let k = choose|i: int| 0 <= i < b.players.len() && (#[trigger] b.players[i]).entity == e;
            assert(a.players[k].entity == e);
        }
    }
    assert(b.lobby() =~= a.lobby());
}

/// With distinct identities, the projectile at place `i` is the one found
/// for its entity.
pub proof fn lemma_projectile_index(w: WorldView, i: int)
    requires
        w.wf(),
        0 <= i < w.projectiles.len(),
    ensures
        w.has_projectile(w.projectiles[i].entity),
        w.projectile_index(w.projectiles[i].entity) == i,
{
    let entity = w.projectiles[i].entity;
    let k = w.projectile_index(entity);
    assert(0 <= k < w.projectiles.len() && w.projectiles[k].entity == entity);
    if k < i {
        assert(w.projectiles[k].entity != w.projectiles[i].entity);
    } else if i < k {
        assert(w.projectiles[i].entity != w.projectiles[k].entity);
    }
}

/// Input keeps the world well formed and the lobby as it is. Only the
/// sender's player changes, and only in its input.
pub proof fn lemma_input(w: WorldView, id: u64, input: PlayerInput)
    requires
        w.wf(),
    ensures
        w.after_input(id, input).wf(),
        w.after_input(id, input).lobby() == w.lobby(),
        !w.has_client(id) ==> w.after_input(id, input) == w,
        w.has_client(id) ==> w.after_input(id, input).players == w.players.update(
            w.client_index(id),
            w.players[w.client_index(id)].with_input(input),
        ),
{
    let after = w.after_input(id, input);
    lemma_same_identities(w, after);
    if w.has_client(id) {
        let k = w.client_index(id);
        assert forall|i: int| 0 <= i < w.players.len() implies #[trigger] after.players[i]
            == w.players.update(k, w.players[k].with_input(input))[i] by {
            lemma_client_index(w, i);
        }
        assert(after.players =~= w.players.update(k, w.players[k].with_input(input)));
    } else {
        assert(after.players =~= w.players);
    }
}

/// A basic attack keeps the world well formed and the lobby as it is.
pub proof fn lemma_basic_attack(w: WorldView, id: u64)
    requires
        w.wf(),
        w.next_entity < u64::MAX,
    ensures
        w.after_basic_attack(id).wf(),
        w.after_basic_attack(id).lobby() == w.lobby(),
{
    let after = w.after_basic_attack(id);
    lemma_same_identities(w, after);
    if w.has_client(id) {
        let n = w.projectiles.len() as int;
        assert(after.projectiles[n].entity == w.fresh_entity());
        assert(forall|j: int| 0 <= j < n ==> after.projectiles[j] == w.projectiles[j]);
        assert forall|i: int, j: int| 0 <= i < j < after.projectiles.len() implies
            #[trigger] after.projectiles[i].entity != #[trigger] after.projectiles[j].entity by {
            if j == n {
                assert(w.projectiles[i].entity.bits < w.next_entity);
            } else {
                assert(w.projectiles[i].entity != w.projectiles[j].entity);
            }
        }
        assert forall|i: int, j: int|
            0 <= i < after.players.len() && 0 <= j < after.projectiles.len() implies
            #[trigger] after.players[i].entity != #[trigger] after.projectiles[j].entity by {
            if j == n {
                assert(w.players[i].entity.bits < w.next_entity);
            } else {
                assert(w.players[i].entity != w.projectiles[j].entity);
            }
        }
        assert forall|j: int| 0 <= j < after.projectiles.len() implies (
        #[trigger] after.projectiles[j]).entity.bits < after.next_entity by {
            if j < n {
                assert(w.projectiles[j].entity.bits < w.next_entity);
            }
        }
    }
}

/// A placement keeps the world well formed and the lobby as it is.
pub proof fn lemma_placement(w: WorldView, entity: ServerEntity, transform: Transform)
    requires
        w.wf(),
    ensures
        w.after_placement(entity, transform).wf(),
        w.after_placement(entity, transform).lobby() == w.lobby(),
{
    let after = w.after_placement(entity, transform);
    lemma_same_identities(w, after);
    assert forall|i: int, j: int| 0 <= i < j < after.projectiles.len() implies
        #[trigger] after.projectiles[i].entity != #[trigger] after.projectiles[j].entity by {
        assert(w.projectiles[i].entity != w.projectiles[j].entity);
    }
    assert forall|i: int, j: int|
        0 <= i < after.players.len() && 0 <= j < after.projectiles.len() implies
        #[trigger] after.players[i].entity != #[trigger] after.projectiles[j].entity by {
        assert(w.players[i].entity != w.projectiles[j].entity);
    }
    assert forall|i: int, j: int| 0 <= i < j < after.players.len() implies
        #[trigger] after.players[i].entity != #[trigger] after.players[j].entity by {
        assert(w.players[i].entity != w.players[j].entity);
    }
    assert forall|i: int, j: int| 0 <= i < j < after.players.len() implies
        #[trigger] after.players[i].id != #[trigger] after.players[j].id by {
        assert(w.players[i].id != w.players[j].id);
    }
    assert forall|j: int| 0 <= j < after.projectiles.len() implies (
    #[trigger] after.projectiles[j]).entity.bits < after.next_entity by {
        assert(w.projectiles[j].entity.bits < w.next_entity);
    }
    assert forall|i: int| 0 <= i < after.players.len() implies (
    #[trigger] after.players[i]).entity.bits < after.next_entity by {
        assert(w.players[i].entity.bits < w.next_entity);
    }
}

/// A world that keeps its players and some of its projectiles, in their
/// order and under their identities, stays well formed and keeps its lobby.
pub proof fn lemma_fewer_projectiles(w: WorldView, after: WorldView)
    requires
        w.wf(),
        after.players == w.players,
        after.next_entity == w.next_entity,
        forall|j: int|
            0 <= j < after.projectiles.len() ==> w.has_projectile(
                (#[trigger] after.projectiles[j]).entity,
            ),
        forall|j1: int, j2: int|
            0 <= j1 < j2 < after.projectiles.len() ==> w.flies_before(
                (#[trigger] after.projectiles[j1]).entity,
                (#[trigger] after.projectiles[j2]).entity,
            ),
    ensures
        after.wf(),
        after.lobby() == w.lobby(),
{
    lemma_same_identities(w, after);
    assert forall|i: int, j: int| 0 <= i < j < after.projectiles.len() implies
        #[trigger] after.projectiles[i].entity != #[trigger] after.projectiles[j].entity by {
        assert(w.flies_before(after.projectiles[i].entity, after.projectiles[j].entity));
        let (i1, i2) = choose|i1: int, i2: int|
            0 <= i1 < i2 < w.projectiles.len() && (#[trigger] w.projectiles[i1]).entity
                == after.projectiles[i].entity && (#[trigger] w.projectiles[i2]).entity
                == after.projectiles[j].entity;
        assert(w.projectiles[i1].entity != w.projectiles[i2].entity);
    }
    assert forall|i: int, j: int|
        0 <= i < after.players.len() && 0 <= j < after.projectiles.len() implies
        #[trigger] after.players[i].entity != #[trigger] after.projectiles[j].entity by {
        assert(w.has_projectile(after.projectiles[j].entity));
        let k = w.projectile_index(after.projectiles[j].entity);
        assert(w.players[i].entity != w.projectiles[k].entity);
    }
    assert forall|j: int| 0 <= j < after.projectiles.len() implies (
    #[trigger] after.projectiles[j]).entity.bits < after.next_entity by {
        assert(w.has_projectile(after.projectiles[j].entity));
        let k = w.projectile_index(after.projectiles[j].entity);
        assert(w.projectiles[k].entity.bits < w.next_entity);
    }
}

/// The passing of time keeps the world well formed and the lobby as it is.
pub proof fn lemma_elapsed(w: WorldView, elapsed: u64)
    requires
        w.wf(),
    ensures
        w.after_elapsed(elapsed).wf(),
        w.after_elapsed(elapsed).lobby() == w.lobby(),
{
    let after = w.after_elapsed(elapsed);
    let alive = |p: ProjectileRecord| p.outlives(elapsed);
    let kept = w.projectiles.filter(alive);
    assert forall|j: int| 0 <= j < after.projectiles.len() implies w.has_projectile(
        (#[trigger] after.projectiles[j]).entity,
    ) by {
        let i = lemma_filter_member(w.projectiles, alive, j);
        assert(w.projectiles[i].entity == after.projectiles[j].entity);
    }
    assert forall|j1: int, j2: int| 0 <= j1 < j2 < after.projectiles.len() implies w.flies_before(
        (#[trigger] after.projectiles[j1]).entity,
        (#[trigger] after.projectiles[j2]).entity,
    ) by {
        let (i1, i2) = lemma_filter_order(w.projectiles, alive, j1, j2);
        assert(w.projectiles[i1].entity == after.projectiles[j1].entity);
        assert(w.projectiles[i2].entity == after.projectiles[j2].entity);
    }
    lemma_fewer_projectiles(w, after);
}

/// A reported overlap keeps the world well formed and the lobby as it is.
/// A hit removes exactly the projectile that struck.
pub proof fn lemma_overlap(w: WorldView, overlap: Overlap)
    requires
        w.wf(),
    ensures
        w.after_overlap(overlap).wf(),
        w.after_overlap(overlap).lobby() == w.lobby(),
        w.is_hit(overlap) ==> w.after_overlap(overlap).projectiles == w.projectiles.remove(
            w.projectile_index(overlap.projectile),
        ),
{
    if w.is_hit(overlap) {
        let after = w.after_overlap(overlap);
        let others = |p: ProjectileRecord| p.entity != overlap.projectile;
        let k = w.projectile_index(overlap.projectile);
        assert forall|i: int| 0 <= i < w.projectiles.len() && i != k implies others(
            #[trigger] w.projectiles[i],
        ) by {
            lemma_projectile_index(w, i);
        }
        lemma_filter_drops_one(w.projectiles, others, k);
        assert forall|j: int| 0 <= j < after.projectiles.len() implies w.has_projectile(
        (#[trigger] after.projectiles[j]).entity,
    ) by {
            let i = lemma_filter_member(w.projectiles, others, j);
            assert(w.projectiles[i].entity == after.projectiles[j].entity);
        }
        assert forall|j1: int, j2: int| 0 <= j1 < j2 < after.projectiles.len() implies w.flies_before(
        (#[trigger] after.projectiles[j1]).entity,
        (#[trigger] after.projectiles[j2]).entity,
    ) by {
            let (i1, i2) = lemma_filter_order(w.projectiles, others, j1, j2);
            assert(w.projectiles[i1].entity == after.projectiles[j1].entity);
            assert(w.projectiles[i2].entity == after.projectiles[j2].entity);
        }
        lemma_fewer_projectiles(w, after);
    }
}


/// A message of a client keeps the world well formed. It leaves the lobby as
/// it is, unless its bytes did not decode: then the sender leaves the lobby.
pub proof fn lemma_inbound(w: WorldView, inbound: Inbound)
    requires
        w.wf(),
        w.next_entity < u64::MAX,
    ensures
        w.after_inbound(inbound).wf(),
        w.after_inbound(inbound).lobby() == if inbound.message == ClientMessage::Garbled {
            w.lobby().remove(inbound.client_id)
        } else {
            w.lobby()
        },
        w.after_inbound(inbound).next_entity <= w.next_entity + 1,
{
    match inbound.message {
        ClientMessage::Input(input) => lemma_input(w, inbound.client_id, input),
        ClientMessage::Command(PlayerCommand::BasicAttack { .. }) => lemma_basic_attack(
            w,
            inbound.client_id,
        ),
        ClientMessage::Garbled => lemma_disconnect(w, inbound.client_id),
    }
}

} // verus!
