//! The authoritative world and the phases of one server tick.
//!
//! The server alone owns placements and lifetimes. Each phase takes what the
//! transport or the geometry delivered as plain values, changes the world,
//! and returns the messages to send. What a phase does is stated over
//! [`WorldView`], the mathematical model of the world.

use std::collections::HashMap;
use vstd::prelude::*;
use vstd::std_specs::hash::*;
use crate::guarantees::{
    open_connections, theorem_garbled_bytes_end_one_session,
    theorem_garbled_bytes_spare_the_others, theorem_lobby_drops_sessions_to_end,
    theorem_lobby_holds_open_connections, without_sessions,
};
use crate::network::{NetworkedEntities, PlayerCommand, ServerEntity, ServerMessage};
use crate::player::{PlayerInput, PlayerRecord};
use crate::projectile::ProjectileRecord;
use crate::seq_facts::lemma_filter_push;
use crate::transform::Transform;
use crate::world::{
    lemma_basic_attack, lemma_client_index, lemma_connect, lemma_disconnect, lemma_elapsed,
    lemma_input, lemma_overlap, lemma_placement, lemma_projectile_index, sessions_to_end, ClientMessage, Inbound, Outbound, Overlap, ServerEvent, WorldView,
};

verus! {

/// The connected clients, each with the entity of its player.
#[derive(Debug)]
pub struct ServerLobby {
    pub players: HashMap<u64, ServerEntity>,
}

impl View for ServerLobby {
    type V = Map<u64, ServerEntity>;

    open spec fn view(&self) -> Map<u64, ServerEntity> {
        self.players@
    }
}

impl Default for ServerLobby {
    fn default() -> (lobby: ServerLobby)
        ensures
            lobby@ == Map::<u64, ServerEntity>::empty(),
    {
        ServerLobby { players: HashMap::new() }
    }
}

/// The authoritative world: players, projectiles in flight and the lobby.
pub struct ServerWorld {
    players: Vec<PlayerRecord>,
    projectiles: Vec<ProjectileRecord>,
    lobby: ServerLobby,
    next_entity: u64,
}

impl View for ServerWorld {
    type V = WorldView;

    closed spec fn view(&self) -> WorldView {
        WorldView {
            players: self.players@,
            projectiles: self.projectiles@,
            next_entity: self.next_entity as nat,
        }
    }
}

impl ServerWorld {
    /// The model is well formed and the lobby holds what the model says.
    pub closed spec fn wf(&self) -> bool {
        &&& self@.wf()
        &&& self.lobby@ == self@.lobby()
    }

    /// A well-formed world has a well-formed model.
    pub proof fn lemma_wf(&self)
        requires
            self.wf(),
        ensures
            self@.wf(),
    {
    }

    /// The world before anything happened.
    pub fn new() -> (world: ServerWorld)
        ensures
            world.wf(),
            world@ == WorldView::empty(),
    {
        let world = ServerWorld {
            players: Vec::new(),
            projectiles: Vec::new(),
            lobby: ServerLobby::default(),
            next_entity: 0,
        };
        assert(world@.lobby() =~= Map::<u64, ServerEntity>::empty());
        world
    }

    /// The players, in the order in which their clients connected.
    pub fn players(&self) -> (players: &Vec<PlayerRecord>)
        ensures
            players@ == self@.players,
    {
        &self.players
    }

    /// The projectiles in flight, in the order in which they were cast.
    pub fn projectiles(&self) -> (projectiles: &Vec<ProjectileRecord>)
        ensures
            projectiles@ == self@.projectiles,
    {
        &self.projectiles
    }

    /// The connected clients, each with the entity of its player.
    pub fn lobby(&self) -> (lobby: &ServerLobby)
        requires
            self.wf(),
        ensures
            lobby@ == self@.lobby(),
    {
        &self.lobby
    }

    /// How many more entities this world can create.
    pub fn entities_left(&self) -> (left: u64)
        ensures
            left == u64::MAX - self@.next_entity,
    {
        u64::MAX - self.next_entity
    }

    /// Takes in a client that has connected. It gets a player at the spawn
    /// point; the players that exist are announced to it, and its own player
    /// is announced to everyone. A client that is connected already is left
    /// as it is, and nothing is sent.
    pub fn connect(&mut self, id: u64) -> (out: Vec<Outbound>)
        requires
            old(self).wf(),
            old(self)@.next_entity < u64::MAX,
        ensures
            final(self).wf(),
            final(self)@ == old(self)@.after_connect(id),
            out@ == old(self)@.connect_messages(id),
    {
        broadcast use group_hash_axioms;

        let mut out: Vec<Outbound> = Vec::new();
        if self.lobby.players.contains_key(&id) {
            return out;
        }
        let n: usize = self.players.len();
        let mut i: usize = 0;
        while i < n
            invariant
                i <= n,
                n == self.players@.len(),
                out@.len() == i,
                forall|k: int| 0 <= k < i ==> out@[k] == Outbound::replay(id, self.players@[k]),
            decreases n - i,
        {
            out.push(Outbound::replay(id, self.players[i]));
            i += 1;
        }
        let entity = ServerEntity { bits: self.next_entity };
        proof {
            lemma_connect(self@, id);
        }
        self.next_entity = self.next_entity + 1;
        self.players.push(PlayerRecord::joined(id, entity));
        self.lobby.players.insert(id, entity);
        out.push(Outbound::broadcast(ServerMessage::PlayerCreate { id, entity }));
        assert(self@ =~= old(self)@.after_connect(id));
        assert(out@ =~= old(self)@.connect_messages(id));
        out
    }

    /// Lets go of a client that has disconnected: its player leaves the
    /// world, and everyone is told that the client is gone.
    pub fn disconnect(&mut self, id: u64) -> (out: Vec<Outbound>)
        requires
            old(self).wf(),
        ensures
            final(self).wf(),
            final(self)@ == old(self)@.after_disconnect(id),
            out@ == old(self)@.disconnect_messages(id),
    {
        broadcast use group_hash_axioms;

        proof {
            lemma_disconnect(self@, id);
        }
        if self.lobby.players.remove(&id).is_some() {
            let n: usize = self.players.len();
            let mut i: usize = 0;
            while i < n && self.players[i].id != id
                invariant
                    i <= n,
                    n == self.players@.len(),
                    forall|k: int| 0 <= k < i ==> (#[trigger] self.players@[k]).id != id,
                decreases n - i,
            {
                i += 1;
            }
            if i < n {
                proof {
                    lemma_client_index(old(self)@, i as int);
                }
                self.players.remove(i);
            }
        }
        let mut out: Vec<Outbound> = Vec::new();
        out.push(Outbound::broadcast(ServerMessage::PlayerDisconnected { id }));
        assert(self@ =~= old(self)@.after_disconnect(id));
        assert(out@ =~= old(self)@.disconnect_messages(id));
        out
    }

    /// Where the player of the client `id` stands, if the client has one.
    fn find_client(&self, id: u64) -> (found: Option<usize>)
        requires
            self.wf(),
        ensures
            match found {
                Some(i) => self@.has_client(id) && self@.client_index(id) == i && i
                    < self@.players.len() && self@.players[i as int].id == id,
                None => !self@.has_client(id),
            },
    {
        let n: usize = self.players.len();
        let mut i: usize = 0;
        while i < n
            invariant
                i <= n,
                self.wf(),
                n == self.players@.len(),
                forall|k: int| 0 <= k < i ==> (#[trigger] self.players@[k]).id != id,
            decreases n - i,
        {
            if self.players[i].id == id {
                proof {
                    lemma_client_index(self@, i as int);
                }
                return Some(i);
            }
            i += 1;
        }
        None
    }

    /// Where the player `entity` stands, if there is such a player.
    fn find_player(&self, entity: ServerEntity) -> (found: Option<usize>)
        ensures
            match found {
                Some(i) => self@.has_player(entity) && i < self@.players.len()
                    && self@.players[i as int].entity == entity,
                None => !self@.has_player(entity),
            },
    {
        let n: usize = self.players.len();
        let mut i: usize = 0;
        while i < n
            invariant
                i <= n,
                n == self.players@.len(),
                forall|k: int| 0 <= k < i ==> (#[trigger] self.players@[k]).entity != entity,
            decreases n - i,
        {
            if self.players[i].entity == entity {
                assert(self@.players[i as int].entity == entity);
                return Some(i);
            }
            i += 1;
        }
        None
    }

    /// Where the projectile `entity` stands, if it is in flight.
    fn find_projectile(&self, entity: ServerEntity) -> (found: Option<usize>)
        requires
            self.wf(),
        ensures
            match found {
                Some(i) => self@.has_projectile(entity) && self@.projectile_index(entity) == i && i
                    < self@.projectiles.len() && self@.projectiles[i as int].entity == entity,
                None => !self@.has_projectile(entity),
            },
    {
        let n: usize = self.projectiles.len();
        let mut i: usize = 0;
        while i < n
            invariant
                i <= n,
                self.wf(),
                n == self.projectiles@.len(),
                forall|k: int| 0 <= k < i ==> (#[trigger] self.projectiles@[k]).entity != entity,
            decreases n - i,
        {
            if self.projectiles[i].entity == entity {
                proof {
                    lemma_projectile_index(self@, i as int);
                }
                return Some(i);
            }
            i += 1;
        }
        None
    }

    /// Stores the input that arrived from the client `id`. The last input
    /// wins; input from a client without a player is dropped.
    pub fn receive_input(&mut self, id: u64, input: PlayerInput)
        requires
            old(self).wf(),
        ensures
            final(self).wf(),
            final(self)@ == old(self)@.after_input(id, input),
    {
        proof {
            lemma_input(self@, id, input);
        }
        if let Some(i) = self.find_client(id) {
            let player = self.players[i];
            self.players[i] = player.with_input(input);
        }
        assert(self@ =~= old(self)@.after_input(id, input));
    }

    /// Casts the basic attack of the client `id`: a projectile starts where
    /// the client's player stands, turned as the player is, and is announced
    /// to everyone. A client without a player casts nothing.
    pub fn basic_attack(&mut self, id: u64) -> (out: Vec<Outbound>)
        requires
            old(self).wf(),
            old(self)@.next_entity < u64::MAX,
        ensures
            final(self).wf(),
            final(self)@ == old(self)@.after_basic_attack(id),
            out@ == old(self)@.basic_attack_messages(id),
    {
        proof {
            lemma_basic_attack(self@, id);
        }
        let mut out: Vec<Outbound> = Vec::new();
        if let Some(i) = self.find_client(id) {
            let caster = self.players[i];
            let entity = ServerEntity { bits: self.next_entity };
            self.next_entity = self.next_entity + 1;
            self.projectiles.push(ProjectileRecord::cast(entity, caster));
            out.push(
                Outbound::broadcast(
                    ServerMessage::SpawnProjectile {
                        entity,
                        transform: caster.transform.translation.truncate(),
                        rotation: caster.transform.rotation,
                    },
                ),
            );
        }
        assert(self@ =~= old(self)@.after_basic_attack(id));
        assert(out@ =~= old(self)@.basic_attack_messages(id));
        out
    }

    /// Takes one connection event.
    pub fn handle_event(&mut self, event: ServerEvent) -> (out: Vec<Outbound>)
        requires
            old(self).wf(),
            old(self)@.next_entity < u64::MAX,
        ensures
            final(self).wf(),
            final(self)@ == old(self)@.after_event(event),
            out@ == old(self)@.event_messages(event),
    {
        match event {
            ServerEvent::ClientConnected(id) => self.connect(id),
            ServerEvent::ClientDisconnected(id) => self.disconnect(id),
        }
    }

    /// Takes the news that bytes of the client `id` did not decode. That is
    /// fatal to the session of this client and to no other: its player
    /// leaves the world as on a disconnect, everyone is told so, and every
    /// other record stays as it is. The transport has to end the session.
    pub fn decode_failed(&mut self, id: u64) -> (out: Vec<Outbound>)
        requires
            old(self).wf(),
        ensures
            final(self).wf(),
            final(self)@ == old(self)@.after_inbound(
                Inbound { client_id: id, message: ClientMessage::Garbled },
            ),
            out@ == old(self)@.disconnect_messages(id),
            !final(self)@.has_client(id),
            final(self)@.projectiles == old(self)@.projectiles,
            forall|record: PlayerRecord|
                record.id != id ==> (#[trigger] final(self)@.players.contains(record)
                    <==> old(self)@.players.contains(record)),
    {
        proof {
            theorem_garbled_bytes_end_one_session(self@, id);
            assert forall|record: PlayerRecord| record.id != id implies (#[trigger] self@.after_disconnect(
                id,
            ).players.contains(record) <==> self@.players.contains(record)) by {
                theorem_garbled_bytes_spare_the_others(self@, id, record);
            }
        }
        self.disconnect(id)
    }

    /// The sessions that the transport has to end after a run of client
    /// messages: those of the clients whose bytes did not decode.
    pub fn sessions_to_end(inbox: &Vec<Inbound>) -> (ended: Vec<u64>)
        ensures
            ended@ == sessions_to_end(inbox@),
    {
        let ghost garbled = |m: Inbound| m.message == ClientMessage::Garbled;
        let mut ended: Vec<u64> = Vec::new();
        let n: usize = inbox.len();
        let mut i: usize = 0;
        proof {
            reveal(Seq::filter);
            assert(inbox@.take(0) =~= Seq::<Inbound>::empty());
            assert(sessions_to_end(inbox@.take(0)) =~= Seq::<u64>::empty());
        }
        while i < n
            invariant
                i <= n,
                n == inbox@.len(),
                garbled == |m: Inbound| m.message == ClientMessage::Garbled,
                ended@ == sessions_to_end(inbox@.take(i as int)),
            decreases n - i,
        {
            let inbound = inbox[i];
            proof {
                assert(inbox@.take(i + 1) =~= inbox@.take(i as int).push(inbound));
                lemma_filter_push(inbox@.take(i as int), garbled, inbound);
                if garbled(inbound) {
                    assert(sessions_to_end(inbox@.take(i + 1)) =~= sessions_to_end(
                        inbox@.take(i as int),
                    ).push(inbound.client_id));
                }
            }
            match inbound.message {
                ClientMessage::Garbled => ended.push(inbound.client_id),
                _ => {},
            }
            i += 1;
        }
        assert(inbox@.take(n as int) =~= inbox@);
        ended
    }

    /// Takes one message of a client.
    pub fn handle_message(&mut self, inbound: Inbound) -> (out: Vec<Outbound>)
        requires
            old(self).wf(),
            old(self)@.next_entity < u64::MAX,
        ensures
            final(self).wf(),
            final(self)@ == old(self)@.after_inbound(inbound),
            out@ == old(self)@.inbound_messages(inbound),
    {
        match inbound.message {
            ClientMessage::Input(input) => {
                self.receive_input(inbound.client_id, input);
                Vec::new()
            },
            ClientMessage::Command(PlayerCommand::BasicAttack { .. }) => self.basic_attack(
                inbound.client_id,
            ),
            ClientMessage::Garbled => self.decode_failed(inbound.client_id),
        }
    }

    /// Places an entity of the world at `transform`, and says whether the entity
    /// is one. This is how the results of movement come back into the
    /// world.
    pub fn place(&mut self, entity: ServerEntity, transform: Transform) -> (known: bool)
        requires
            old(self).wf(),
        ensures
            final(self).wf(),
            final(self)@ == old(self)@.after_placement(entity, transform),
            known == (old(self)@.has_player(entity) || old(self)@.has_projectile(entity)),
    {
        proof {
            lemma_placement(self@, entity, transform);
            self.lemma_wf();
        }
        let ghost before = self@;
        let player = self.find_player(entity);
        let projectile = self.find_projectile(entity);
        if let Some(i) = player {
            let record = self.players[i];
            self.players[i] = record.with_transform(transform);
        }
        if let Some(j) = projectile {
            let record = self.projectiles[j];
            self.projectiles[j] = record.with_transform(transform);
        }
        proof {
            let after = before.after_placement(entity, transform);
            assert forall|k: int| 0 <= k < before.players.len() implies self@.players[k]
                == #[trigger] after.players[k] by {
                if before.players[k].entity == entity {
                    assert(before.has_player(entity));
                    let i = player->Some_0 as int;
                    if k < i {
                        assert(before.players[k].entity != before.players[i].entity);
                    } else if i < k {
                        assert(before.players[i].entity != before.players[k].entity);
                    }
                }
            }
            assert forall|k: int| 0 <= k < before.projectiles.len() implies self@.projectiles[k]
                == #[trigger] after.projectiles[k] by {
                if before.projectiles[k].entity == entity {
                    lemma_projectile_index(before, k);
                }
            }
            assert(self@.players =~= after.players);
            assert(self@.projectiles =~= after.projectiles);
        }
        player.is_some() || projectile.is_some()
    }

    /// Lets `elapsed` nanoseconds pass for every projectile. One that does
    /// not outlive them is destroyed, and everyone is told so.
    pub fn update_projectiles(&mut self, elapsed: u64) -> (out: Vec<Outbound>)
        requires
            old(self).wf(),
        ensures
            final(self).wf(),
            final(self)@ == old(self)@.after_elapsed(elapsed),
            out@ == old(self)@.expiry_messages(elapsed),
    {
        proof {
            lemma_elapsed(self@, elapsed);
        }
        let ghost alive = |p: ProjectileRecord| p.outlives(elapsed);
        let ghost dead = |p: ProjectileRecord| !p.outlives(elapsed);
        let ghost aged = |p: ProjectileRecord| p.aged(elapsed);
        let ghost farewell = |p: ProjectileRecord|
            Outbound::broadcast(ServerMessage::DespawnProjectile { entity: p.entity });
        let mut kept: Vec<ProjectileRecord> = Vec::new();
        let mut out: Vec<Outbound> = Vec::new();
        let n: usize = self.projectiles.len();
        let mut i: usize = 0;
        assert(self.projectiles@.take(0) =~= Seq::<ProjectileRecord>::empty());
        while i < n
            invariant
                i <= n,
                n == self.projectiles@.len(),
                alive == |p: ProjectileRecord| p.outlives(elapsed),
                dead == |p: ProjectileRecord| !p.outlives(elapsed),
                aged == |p: ProjectileRecord| p.aged(elapsed),
                farewell == |p: ProjectileRecord|
                    Outbound::broadcast(ServerMessage::DespawnProjectile { entity: p.entity }),
                kept@ == self.projectiles@.take(i as int).filter(alive).map_values(aged),
                out@ == self.projectiles@.take(i as int).filter(dead).map_values(farewell),
            decreases n - i,
        {
            let projectile = self.projectiles[i];
            proof {
                let seen = self.projectiles@.take(i as int);
                assert(self.projectiles@.take(i + 1) =~= seen.push(projectile));
                lemma_filter_push(seen, alive, projectile);
                lemma_filter_push(seen, dead, projectile);
                assert(seen.filter(alive).push(projectile).map_values(aged) =~= seen.filter(
                    alive,
                ).map_values(aged).push(aged(projectile)));
                assert(seen.filter(dead).push(projectile).map_values(farewell) =~= seen.filter(
                    dead,
                ).map_values(farewell).push(farewell(projectile)));
            }
            if projectile.outlives(elapsed) {
                kept.push(projectile.aged(elapsed));
            } else {
                out.push(
                    Outbound::broadcast(
                        ServerMessage::DespawnProjectile { entity: projectile.entity },
                    ),
                );
            }
            i += 1;
        }
        assert(self.projectiles@.take(n as int) =~= self.projectiles@);
        self.projectiles = kept;
        out
    }

    /// Takes one overlap that the geometry reported. If it is a hit, the
    /// projectile is destroyed, and everyone is told that it is gone and
    /// which player it struck. The player stays in the world.
    pub fn register_overlap(&mut self, overlap: Overlap) -> (out: Vec<Outbound>)
        requires
            old(self).wf(),
        ensures
            final(self).wf(),
            final(self)@ == old(self)@.after_overlap(overlap),
            out@ == old(self)@.overlap_messages(overlap),
    {
        proof {
            lemma_overlap(self@, overlap);
        }
        let mut out: Vec<Outbound> = Vec::new();
        if let Some(i) = self.find_projectile(overlap.projectile) {
            if self.projectiles[i].owner != overlap.player && self.find_player(
                overlap.player,
            ).is_some() {
                self.projectiles.remove(i);
                out.push(
                    Outbound::broadcast(
                        ServerMessage::DespawnProjectile { entity: overlap.projectile },
                    ),
                );
                out.push(
                    Outbound::broadcast(ServerMessage::DespawnPlayer { entity: overlap.player }),
                );
            }
        }
        assert(self@ =~= old(self)@.after_overlap(overlap));
        assert(out@ =~= old(self)@.overlap_messages(overlap));
        out
    }

    /// The snapshot of this tick: every player, then every projectile, each
    /// with its placement.
    pub fn server_sync_entities(&self) -> (snapshot: NetworkedEntities)
        ensures
            snapshot.entities@ == self@.snapshot_entities(),
            snapshot.transforms@ == self@.snapshot_transforms(),
    {
        let mut snapshot = NetworkedEntities::new();
        let n: usize = self.players.len();
        let mut i: usize = 0;
        while i < n
            invariant
                i <= n,
                n == self.players@.len(),
                snapshot.entities@ == self.players@.take(i as int).map_values(
                    |p: PlayerRecord| p.entity,
                ),
                snapshot.transforms@ == self.players@.take(i as int).map_values(
                    |p: PlayerRecord| p.transform,
                ),
            decreases n - i,
        {
            let player = self.players[i];
            snapshot.entities.push(player.entity);
            snapshot.transforms.push(player.transform);
            i += 1;
            assert(snapshot.entities@ =~= self.players@.take(i as int).map_values(
                |p: PlayerRecord| p.entity,
            ));
            assert(snapshot.transforms@ =~= self.players@.take(i as int).map_values(
                |p: PlayerRecord| p.transform,
            ));
        }
        assert(self.players@.take(n as int) =~= self.players@);
        let m: usize = self.projectiles.len();
        let mut j: usize = 0;
        while j < m
            invariant
                j <= m,
                m == self.projectiles@.len(),
                snapshot.entities@ == self.players@.map_values(|p: PlayerRecord| p.entity)
                    + self.projectiles@.take(j as int).map_values(|p: ProjectileRecord| p.entity),
                snapshot.transforms@ == self.players@.map_values(|p: PlayerRecord| p.transform)
                    + self.projectiles@.take(j as int).map_values(
                    |p: ProjectileRecord| p.transform,
                ),
            decreases m - j,
        {
            let projectile = self.projectiles[j];
            snapshot.entities.push(projectile.entity);
            snapshot.transforms.push(projectile.transform);
            j += 1;
            assert(snapshot.entities@ =~= self.players@.map_values(|p: PlayerRecord| p.entity)
                + self.projectiles@.take(j as int).map_values(|p: ProjectileRecord| p.entity));
            assert(snapshot.transforms@ =~= self.players@.map_values(
                |p: PlayerRecord| p.transform,
            ) + self.projectiles@.take(j as int).map_values(|p: ProjectileRecord| p.transform));
        }
        assert(self.projectiles@.take(m as int) =~= self.projectiles@);
        snapshot
    }

    /// The first two phases of a tick: takes the connection events that the
    /// transport reported, then the messages that the clients sent, each run
    /// in order, and returns what to send, in order. Afterwards the lobby
    /// holds exactly the connections that the events left open, but for the
    /// sessions to end.
    pub fn server_update(&mut self, events: &Vec<ServerEvent>, inbox: &Vec<Inbound>) -> (out: Vec<
        Outbound,
    >)
        requires
            old(self).wf(),
            old(self)@.next_entity + events@.len() + inbox@.len() <= u64::MAX,
        ensures
            final(self).wf(),
            final(self)@ == old(self)@.after_events(events@).after_inbox(inbox@),
            out@ == old(self)@.events_messages(events@) + old(self)@.after_events(
                events@,
            ).inbox_messages(inbox@),
            final(self)@.lobby().dom() == without_sessions(
                open_connections(old(self)@.lobby().dom(), events@),
                sessions_to_end(inbox@),
            ),
    {
        let ghost before = self@;
        proof {
            theorem_lobby_holds_open_connections(before, events@);
        }
        let mut out: Vec<Outbound> = Vec::new();
        let n: usize = events.len();
        let mut i: usize = 0;
        assert(events@.take(0) =~= Seq::<ServerEvent>::empty());
        while i < n
            invariant
                i <= n,
                n == events@.len(),
                self.wf(),
                self@ == before.after_events(events@.take(i as int)),
                out@ == before.events_messages(events@.take(i as int)),
                self@.next_entity <= before.next_entity + i,
                before.next_entity + events@.len() + inbox@.len() <= u64::MAX,
            decreases n - i,
        {
            assert(events@.take(i + 1).drop_last() =~= events@.take(i as int));
            let mut sent = self.handle_event(events[i]);
            out.append(&mut sent);
            i += 1;
        }
        assert(events@.take(n as int) =~= events@);
        let ghost joined = self@;
        let ghost announced = out@;
        let m: usize = inbox.len();
        let mut j: usize = 0;
        assert(inbox@.take(0) =~= Seq::<Inbound>::empty());
        while j < m
            invariant
                j <= m,
                m == inbox@.len(),
                self.wf(),
                self@ == joined.after_inbox(inbox@.take(j as int)),
                out@ == announced + joined.inbox_messages(inbox@.take(j as int)),
                self@.next_entity <= joined.next_entity + j,
                joined.next_entity + inbox@.len() <= u64::MAX,
            decreases m - j,
        {
            assert(inbox@.take(j + 1).drop_last() =~= inbox@.take(j as int));
            let mut sent = self.handle_message(inbox[j]);
            out.append(&mut sent);
            j += 1;
        }
        assert(inbox@.take(m as int) =~= inbox@);
        proof {
            theorem_lobby_drops_sessions_to_end(joined, inbox@);
        }
        out
    }

    /// The collision phase of a tick: takes the overlaps between
    /// projectiles and players that the geometry found, in the order given,
    /// and returns what to send. A projectile never hits the player that cast
    /// it, and hits at most one player.
    pub fn projectile_hit_player(&mut self, overlaps: &Vec<Overlap>) -> (out: Vec<Outbound>)
        requires
            old(self).wf(),
        ensures
            final(self).wf(),
            final(self)@ == old(self)@.after_overlaps(overlaps@),
            out@ == old(self)@.overlaps_messages(overlaps@),
    {
        let ghost before = self@;
        let mut out: Vec<Outbound> = Vec::new();
        let n: usize = overlaps.len();
        let mut i: usize = 0;
        assert(overlaps@.take(0) =~= Seq::<Overlap>::empty());
        while i < n
            invariant
                i <= n,
                n == overlaps@.len(),
                self.wf(),
                self@ == before.after_overlaps(overlaps@.take(i as int)),
                out@ == before.overlaps_messages(overlaps@.take(i as int)),
            decreases n - i,
        {
            assert(overlaps@.take(i + 1).drop_last() =~= overlaps@.take(i as int));
            let mut sent = self.register_overlap(overlaps[i]);
            out.append(&mut sent);
            i += 1;
        }
        assert(overlaps@.take(n as int) =~= overlaps@);
        out
    }
}

} // verus!
