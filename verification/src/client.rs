//! A client's side of the synchronisation: the table that leads from server
//! entities to local ones, and what each server message makes of the
//! client's mirror of the world.

use std::collections::HashMap;
use vstd::prelude::*;
use vstd::std_specs::hash::*;
use crate::network::{LocalEntity, NetworkedEntities, Placement, ServerEntity, ServerMessage};
use crate::transform::Transform;

verus! {

/// The table that leads from the server's entities to this client's. It is the
/// only place where the two kinds of identity meet, and it is used for
/// lookup alone.
pub struct NetworkMapping {
    entities: HashMap<u64, LocalEntity>,
}

impl View for NetworkMapping {
    type V = Map<ServerEntity, LocalEntity>;

    closed spec fn view(&self) -> Map<ServerEntity, LocalEntity> {
        Map::new(
            |server: ServerEntity| self.entities@.contains_key(server.bits),
            |server: ServerEntity| self.entities@[server.bits],
        )
    }
}

impl NetworkMapping {
    /// The table that knows no entity.
    pub fn new() -> (mapping: NetworkMapping)
        ensures
            mapping@ == Map::<ServerEntity, LocalEntity>::empty(),
    {
        let mapping = NetworkMapping { entities: HashMap::new() };
        assert(mapping@ =~= Map::<ServerEntity, LocalEntity>::empty());
        mapping
    }

    /// Lets `server` stand for `local` from now on. Returns the local entity
    /// that `server` stood for before, if any: two creations of one server
    /// entity without a removal between them are a fault of the protocol,
    /// healed here by letting the later one win.
    pub fn insert(&mut self, server: ServerEntity, local: LocalEntity) -> (replaced: Option<
        LocalEntity,
    >)
        ensures
            final(self)@ == old(self)@.insert(server, local),
            replaced == (if old(self)@.contains_key(server) {
                Some(old(self)@[server])
            } else {
                None
            }),
    {
        broadcast use group_hash_axioms;

        let replaced = self.entities.insert(server.bits, local);
        assert(self@ =~= old(self)@.insert(server, local)) by {
            assert forall|e: ServerEntity| self@.contains_key(e) <==> old(self)@.insert(
                server,
                local,
            ).contains_key(e) by {
                assert(e == server <==> e.bits == server.bits);
            }
        }
        replaced
    }

    /// The local entity that `server` stands for, if any.
    pub fn lookup(&self, server: ServerEntity) -> (local: Option<LocalEntity>)
        ensures
            local == (if self@.contains_key(server) {
                Some(self@[server])
            } else {
                None
            }),
    {
        broadcast use group_hash_axioms;

        match self.entities.get(&server.bits) {
            Some(local) => Some(*local),
            None => None,
        }
    }

    /// Forgets `server`, and returns the local entity that it stood for. An
    /// entity that is not known is no fault: nothing changes.
    pub fn remove(&mut self, server: ServerEntity) -> (local: Option<LocalEntity>)
        ensures
            final(self)@ == old(self)@.remove(server),
            local == (if old(self)@.contains_key(server) {
                Some(old(self)@[server])
            } else {
                None
            }),
    {
        broadcast use group_hash_axioms;

        let local = self.entities.remove(&server.bits);
        assert(self@ =~= old(self)@.remove(server)) by {
            assert forall|e: ServerEntity| self@.contains_key(e) <==> old(self)@.remove(
                server,
            ).contains_key(e) by {
                assert(e == server <==> e.bits == server.bits);
            }
        }
        local
    }
}

impl Default for NetworkMapping {
    fn default() -> (mapping: NetworkMapping)
        ensures
            mapping@ == Map::<ServerEntity, LocalEntity>::empty(),
    {
        NetworkMapping::new()
    }
}

/// The two identities of a player as a client knows it.
#[derive(Clone, Copy, Debug, PartialEq, Eq, Structural)]
pub struct PlayerInfo {
    pub client_entity: LocalEntity,
    pub server_entity: ServerEntity,
}

/// The players that a client knows, by the client that steers each.
#[derive(Debug)]
pub struct ClientLobby {
    pub players: HashMap<u64, PlayerInfo>,
}

impl View for ClientLobby {
    type V = Map<u64, PlayerInfo>;

    open spec fn view(&self) -> Map<u64, PlayerInfo> {
        self.players@
    }
}

impl Default for ClientLobby {
    fn default() -> (lobby: ClientLobby)
        ensures
            lobby@ == Map::<u64, PlayerInfo>::empty(),
    {
        ClientLobby { players: HashMap::new() }
    }
}

/// What the renderer has to do to the client's mirror of the world.
#[derive(Clone, Copy, Debug, PartialEq, Eq, Structural)]
pub enum MirrorChange {
    Nothing,
    /// Show a player as `entity`. `replaced` is the local entity that stood
    /// for the same server entity before, if the server entity was known.
    SpawnPlayer { entity: LocalEntity, transform: Transform, replaced: Option<LocalEntity> },
    /// Show a projectile as `entity`.
    SpawnProjectile { entity: LocalEntity, transform: Transform, replaced: Option<LocalEntity> },
    /// Stop showing `entity`.
    Despawn { entity: LocalEntity },
}

/// A new placement for a local entity.
#[derive(Clone, Copy, Debug, PartialEq, Eq, Structural)]
pub struct TransformUpdate {
    pub entity: LocalEntity,
    pub transform: Transform,
}

/// A structural message as it arrived, with a local entity that is not in
/// use, for what the message may create.
#[derive(Clone, Copy, Debug, PartialEq, Eq, Structural)]
pub struct Delivery {
    pub message: ServerMessage,
    pub fresh: LocalEntity,
}

/// What one round of synchronisation asks of the renderer.
#[derive(Debug)]
pub struct SyncOutcome {
    /// For each structural message, in order, what to do.
    pub changes: Vec<MirrorChange>,
    /// The new placements, in the order of the snapshots and their entries.
    pub updates: Vec<TransformUpdate>,
}

/// The mathematical model of what a client knows.
pub struct MirrorView {
    pub lobby: Map<u64, PlayerInfo>,
    pub mapping: Map<ServerEntity, LocalEntity>,
}

impl MirrorView {
    /// What a client knows before any message arrived: nothing.
    pub open spec fn empty() -> MirrorView {
        MirrorView { lobby: Map::empty(), mapping: Map::empty() }
    }

    /// The local entity that `server` stood for, if it was known.
    pub open spec fn known(self, server: ServerEntity) -> Option<LocalEntity> {
        if self.mapping.contains_key(server) {
            Some(self.mapping[server])
        } else {
            None
        }
    }

    /// What the client knows after `message` arrived. `fresh` is the local
    /// entity that stands for what the message creates, if it creates
    /// anything. A player that was struck leaves the table and stays in the
    /// lobby until its client disconnects; a respawn is announced by no one
    /// and changes nothing.
    pub open spec fn after_message(self, message: ServerMessage, fresh: LocalEntity) -> MirrorView {
        match message {
            ServerMessage::PlayerCreate { id, entity } => MirrorView {
                lobby: self.lobby.insert(
                    id,
                    PlayerInfo { client_entity: fresh, server_entity: entity },
                ),
                mapping: self.mapping.insert(entity, fresh),
            },
            ServerMessage::PlayerDisconnected { id } => if self.lobby.contains_key(id) {
                MirrorView {
                    lobby: self.lobby.remove(id),
                    mapping: self.mapping.remove(self.lobby[id].server_entity),
                }
            } else {
                self
            },
            ServerMessage::SpawnProjectile { entity, .. } => MirrorView {
                mapping: self.mapping.insert(entity, fresh),
                ..self
            },
            ServerMessage::DespawnProjectile { entity } => MirrorView {
                mapping: self.mapping.remove(entity),
                ..self
            },
            ServerMessage::DespawnPlayer { entity } => MirrorView {
                mapping: self.mapping.remove(entity),
                ..self
            },
            ServerMessage::RespawnPlayer { .. } => self,
        }
    }

    /// What the renderer has to do when the table forgets `server`: stop
    /// showing the local entity that `server` stood for. A server entity that
    /// is not known asks for nothing.
    pub open spec fn despawn_of(self, server: ServerEntity) -> MirrorChange {
        match self.known(server) {
            Some(local) => MirrorChange::Despawn { entity: local },
            None => MirrorChange::Nothing,
        }
    }

    /// What the renderer has to do when `message` arrives. It is asked to
    /// stop showing a local entity exactly when the table forgets the server
    /// entity that stood for it, so never twice for one entry.
    pub open spec fn change_for(self, message: ServerMessage, fresh: LocalEntity) -> MirrorChange {
        match message {
            ServerMessage::PlayerCreate { id, entity } => MirrorChange::SpawnPlayer {
                entity: fresh,
                transform: Transform::player_spawn(),
                replaced: self.known(entity),
            },
            ServerMessage::PlayerDisconnected { id } => if self.lobby.contains_key(id) {
                self.despawn_of(self.lobby[id].server_entity)
            } else {
                MirrorChange::Nothing
            },
            ServerMessage::SpawnProjectile { entity, transform, rotation } => {
                MirrorChange::SpawnProjectile {
                    entity: fresh,
                    transform: Transform::projectile_mirror(transform, rotation),
                    replaced: self.known(entity),
                }
            },
            ServerMessage::DespawnProjectile { entity } => self.despawn_of(entity),
            ServerMessage::DespawnPlayer { entity } => self.despawn_of(entity),
            ServerMessage::RespawnPlayer { .. } => MirrorChange::Nothing,
        }
    }

    /// What one entry of a snapshot does: an entity that is known gets the
    /// placement, under its local identity; one that is not known is passed
    /// over.
    pub open spec fn update_for(self, placement: Placement) -> Option<TransformUpdate> {
        if self.mapping.contains_key(placement.entity) {
            Some(
                TransformUpdate {
                    entity: self.mapping[placement.entity],
                    transform: placement.transform,
                },
            )
        } else {
            None
        }
    }

    /// What a snapshot does: the updates of its entries, in order.
    pub open spec fn snapshot_updates(self, placements: Seq<Placement>) -> Seq<TransformUpdate> {
        placements.filter_map(|p: Placement| self.update_for(p))
    }

    /// What the client knows after a run of structural messages, taken in
    /// order.
    pub open spec fn after_messages(self, deliveries: Seq<Delivery>) -> MirrorView
        decreases deliveries.len(),
    {
        if deliveries.len() == 0 {
            self
        } else {
            self.after_messages(deliveries.drop_last()).after_message(
                deliveries.last().message,
                deliveries.last().fresh,
            )
        }
    }

    /// What the renderer has to do for a run of structural messages: one
    /// change for each.
    pub open spec fn changes_for(self, deliveries: Seq<Delivery>) -> Seq<MirrorChange>
        decreases deliveries.len(),
    {
        if deliveries.len() == 0 {
            Seq::empty()
        } else {
            self.changes_for(deliveries.drop_last()).push(
                self.after_messages(deliveries.drop_last()).change_for(
                    deliveries.last().message,
                    deliveries.last().fresh,
                ),
            )
        }
    }

    /// What a run of snapshots does: the updates of each, in order.
    pub open spec fn snapshots_updates(self, snapshots: Seq<NetworkedEntities>) -> Seq<
        TransformUpdate,
    >
        decreases snapshots.len(),
    {
        if snapshots.len() == 0 {
            Seq::empty()
        } else {
            self.snapshots_updates(snapshots.drop_last()) + self.snapshot_updates(
                snapshots.last().placements(),
            )
        }
    }
}

/// The placements that the renderer shows after it took `updates` in order:
/// each update overwrites what its entity had.
pub open spec fn mirror_after(
    mirror: Map<LocalEntity, Transform>,
    updates: Seq<TransformUpdate>,
) -> Map<LocalEntity, Transform>
    decreases updates.len(),
{
    if updates.len() == 0 {
        mirror
    } else {
        mirror_after(mirror, updates.drop_last()).insert(
            updates.last().entity,
            updates.last().transform,
        )
    }
}

/// What a client knows: its players and its table of entities.
pub struct ClientWorld {
    pub lobby: ClientLobby,
    pub mapping: NetworkMapping,
}

impl View for ClientWorld {
    type V = MirrorView;

    open spec fn view(&self) -> MirrorView {
        MirrorView { lobby: self.lobby@, mapping: self.mapping@ }
    }
}

impl ClientWorld {
    /// What a client knows before any message arrived.
    pub fn new() -> (world: ClientWorld)
        ensures
            world@ == MirrorView::empty(),
    {
        ClientWorld { lobby: ClientLobby::default(), mapping: NetworkMapping::new() }
    }

    /// Takes one structural message of the server, at once and whole, and
    /// returns what the renderer has to do. `fresh` is a local entity that is
    /// not in use; it is taken up only if the message creates an entity.
    pub fn apply_message(&mut self, message: ServerMessage, fresh: LocalEntity) -> (change:
        MirrorChange)
        ensures
            final(self)@ == old(self)@.after_message(message, fresh),
            change == old(self)@.change_for(message, fresh),
    {
        broadcast use group_hash_axioms;

        match message {
            ServerMessage::PlayerCreate { id, entity } => {
                self.lobby.players.insert(
                    id,
                    PlayerInfo { client_entity: fresh, server_entity: entity },
                );
                let replaced = self.mapping.insert(entity, fresh);
                MirrorChange::SpawnPlayer {
                    entity: fresh,
                    transform: Transform::player_spawn(),
                    replaced,
                }
            },
            ServerMessage::PlayerDisconnected { id } => {
                match self.lobby.players.remove(&id) {
                    Some(info) => self.forget(info.server_entity),
                    None => {
                        assert(self.lobby@ =~= old(self).lobby@);
                        MirrorChange::Nothing
                    },
                }
            },
            ServerMessage::SpawnProjectile { entity, transform, rotation } => {
                let replaced = self.mapping.insert(entity, fresh);
                MirrorChange::SpawnProjectile {
                    entity: fresh,
                    transform: Transform::projectile_mirror(transform, rotation),
                    replaced,
                }
            },
            ServerMessage::DespawnProjectile { entity } => self.forget(entity),
            ServerMessage::DespawnPlayer { entity } => self.forget(entity),
            ServerMessage::RespawnPlayer { .. } => MirrorChange::Nothing,
        }
    }

    /// Strikes `server` from the table, and asks the renderer to stop showing
    /// what it stood for.
    fn forget(&mut self, server: ServerEntity) -> (change: MirrorChange)
        ensures
            final(self).lobby@ == old(self).lobby@,
            final(self).mapping@ == old(self).mapping@.remove(server),
            change == old(self)@.despawn_of(server),
    {
        match self.mapping.remove(server) {
            Some(local) => MirrorChange::Despawn { entity: local },
            None => MirrorChange::Nothing,
        }
    }

    /// Takes one snapshot: every entry whose entity is known yields its
    /// placement for the local entity; every other entry is passed over.
    /// What the client knows does not change.
    pub fn apply_snapshot(&self, snapshot: &NetworkedEntities) -> (updates: Vec<TransformUpdate>)
        ensures
            updates@ == self@.snapshot_updates(snapshot.placements()),
    {
        let ghost placements = snapshot.placements();
        let ghost update = |p: Placement| self@.update_for(p);
        let mut updates: Vec<TransformUpdate> = Vec::new();
        let n: usize = snapshot.len();
        let mut i: usize = 0;
        assert(placements.take(0) =~= Seq::<Placement>::empty());
        while i < n
            invariant
                i <= n,
                n == placements.len(),
                n <= snapshot.entities@.len(),
                n <= snapshot.transforms@.len(),
                placements == snapshot.placements(),
                update == |p: Placement| self@.update_for(p),
                updates@ == placements.take(i as int).filter_map(update),
            decreases n - i,
        {
            proof {
                placements.lemma_filter_map_take_succ(update, i as int);
            }
            let entity = snapshot.entities[i];
            let transform = snapshot.transforms[i];
            assert(placements[i as int] == Placement { entity, transform });
            if let Some(local) = self.mapping.lookup(entity) {
                updates.push(TransformUpdate { entity: local, transform });
            }
            i += 1;
        }
        assert(placements.take(n as int) =~= placements);
        updates
    }

    /// One round of synchronisation: takes the structural messages that
    /// arrived, in order, and then the snapshots, in order.
    pub fn client_sync_players(
        &mut self,
        deliveries: &Vec<Delivery>,
        snapshots: &Vec<NetworkedEntities>,
    ) -> (outcome: SyncOutcome)
        ensures
            final(self)@ == old(self)@.after_messages(deliveries@),
            outcome.changes@ == old(self)@.changes_for(deliveries@),
            outcome.updates@ == final(self)@.snapshots_updates(snapshots@),
    {
        let ghost before = self@;
        let mut changes: Vec<MirrorChange> = Vec::new();
        let n: usize = deliveries.len();
        let mut i: usize = 0;
        assert(deliveries@.take(0) =~= Seq::<Delivery>::empty());
        while i < n
            invariant
                i <= n,
                n == deliveries@.len(),
                self@ == before.after_messages(deliveries@.take(i as int)),
                changes@ == before.changes_for(deliveries@.take(i as int)),
            decreases n - i,
        {
            assert(deliveries@.take(i + 1).drop_last() =~= deliveries@.take(i as int));
            let delivery = deliveries[i];
            changes.push(self.apply_message(delivery.message, delivery.fresh));
            i += 1;
        }
        assert(deliveries@.take(n as int) =~= deliveries@);
        let mut updates: Vec<TransformUpdate> = Vec::new();
        let m: usize = snapshots.len();
        let mut j: usize = 0;
        assert(snapshots@.take(0) =~= Seq::<NetworkedEntities>::empty());
        while j < m
            invariant
                j <= m,
                m == snapshots@.len(),
                updates@ == self@.snapshots_updates(snapshots@.take(j as int)),
            decreases m - j,
        {
            assert(snapshots@.take(j + 1).drop_last() =~= snapshots@.take(j as int));
            let mut placed = self.apply_snapshot(&snapshots[j]);
            updates.append(&mut placed);
            j += 1;
        }
        assert(snapshots@.take(m as int) =~= snapshots@);
        SyncOutcome { changes, updates }
    }
}

} // verus!
