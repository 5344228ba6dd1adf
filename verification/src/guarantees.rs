//! What holds whatever happens: of the authoritative world and the messages
//! it sends, and of what a client shows after a snapshot.

use vstd::prelude::*;
use crate::client::{mirror_after, MirrorView, TransformUpdate};
use crate::network::{LocalEntity, Placement, ServerEntity, ServerMessage};
use crate::player::PlayerRecord;
use crate::projectile::{ProjectileRecord, PROJECTILE_LIFETIME};
use crate::seq_facts::{lemma_filter_keeps, lemma_filter_member, lemma_filter_push};
use crate::transform::Transform;
use crate::world::{
    lemma_elapsed, lemma_inbound, lemma_overlap, lemma_projectile_index, sessions_to_end,
    ClientMessage, Inbound, Outbound, Overlap, ServerEvent, WorldView,
};

verus! {

/// The connections that are open after a run of connection events, given
/// those that were open before: a connect opens one, a disconnect closes one.
pub open spec fn open_connections(open: Set<u64>, events: Seq<ServerEvent>) -> Set<u64>
    decreases events.len(),
{
    if events.len() == 0 {
        open
    } else {
        let before = open_connections(open, events.drop_last());
        match events.last() {
            ServerEvent::ClientConnected(id) => before.insert(id),
            ServerEvent::ClientDisconnected(id) => before.remove(id),
        }
    }
}

/// The connections that are left open when the sessions `ended` are ended.
pub open spec fn without_sessions(open: Set<u64>, ended: Seq<u64>) -> Set<u64>
    decreases ended.len(),
{
    if ended.len() == 0 {
        open
    } else {
        without_sessions(open, ended.drop_last()).remove(ended.last())
    }
}

/// How often `a` occurs in `s`.
pub open spec fn occurrences<A>(s: Seq<A>, a: A) -> nat
    decreases s.len(),
{
    if s.len() == 0 {
        0
    } else {
        occurrences(s.drop_last(), a) + if s.last() == a {
            1nat
        } else {
            0nat
        }
    }
}

/// The message that tells everyone that the projectile `entity` is gone.
pub open spec fn farewell(entity: ServerEntity) -> Outbound {
    Outbound::broadcast(ServerMessage::DespawnProjectile { entity })
}

proof fn lemma_occurrences_push<A>(s: Seq<A>, b: A, a: A)
    ensures
        occurrences(s.push(b), a) == occurrences(s, a) + if b == a {
            1nat
        } else {
            0nat
        },
{
    assert(s.push(b).drop_last() =~= s);
}

proof fn lemma_occurrences_add<A>(s: Seq<A>, t: Seq<A>, a: A)
    ensures
        occurrences(s + t, a) == occurrences(s, a) + occurrences(t, a),
    decreases t.len(),
{
    if t.len() == 0 {
        assert(s + t =~= s);
    } else {
        lemma_occurrences_add(s, t.drop_last(), a);
        assert((s + t).drop_last() =~= s + t.drop_last());
    }
}

/// A connection event changes the clients in the lobby as it changes the
/// open connections.
proof fn lemma_event_clients(w: WorldView, event: ServerEvent)
    ensures
        w.after_event(event).lobby().dom() == open_connections(w.lobby().dom(), seq![event]),
{
    let after = w.after_event(event);
    assert(seq![event].drop_last() =~= Seq::<ServerEvent>::empty());
    assert(open_connections(w.lobby().dom(), seq![event].drop_last()) == w.lobby().dom());
    match event {
        ServerEvent::ClientConnected(id) => {
            assert forall|c: u64| after.has_client(c) <==> (c == id || w.has_client(c)) by {
                if w.has_client(id) {
                } else {
                    let n = w.players.len() as int;
                    if after.has_client(c) {
                        let k = after.client_index(c);
                        if k < n {
                            assert(w.players[k].id == c);
                        }
                    }
                    if c == id {
                        assert(after.players[n].id == c);
                    }
                    if w.has_client(c) {
                        let k = w.client_index(c);
                        assert(after.players[k].id == c);
                    }
                }
            }
            assert(after.lobby().dom() =~= w.lobby().dom().insert(id));
        },
        ServerEvent::ClientDisconnected(id) => {
            let others = |p: PlayerRecord| p.id != id;
            assert forall|c: u64| after.has_client(c) <==> (c != id && w.has_client(c)) by {
                if after.has_client(c) {
                    let j = after.client_index(c);
                    let i = lemma_filter_member(w.players, others, j);
                    assert(w.players[i].id == c);
                }
                if c != id && w.has_client(c) {
                    let i = w.client_index(c);
                    let j = lemma_filter_keeps(w.players, others, i);
                    assert(after.players[j].id == c);
                }
            }
            assert(after.lobby().dom() =~= w.lobby().dom().remove(id));
        },
    }
}

/// After any run of connection events, the clients in the lobby are exactly
/// the open connections.
pub proof fn theorem_lobby_holds_open_connections(w: WorldView, events: Seq<ServerEvent>)
    ensures
        w.after_events(events).lobby().dom() == open_connections(w.lobby().dom(), events),
    decreases events.len(),
{
    if events.len() > 0 {
        let earlier = events.drop_last();
        theorem_lobby_holds_open_connections(w, earlier);
        let then = w.after_events(earlier);
        lemma_event_clients(then, events.last());
        assert(seq![events.last()].drop_last() =~= Seq::<ServerEvent>::empty());
        assert(seq![events.last()].last() == events.last());
        assert(open_connections(then.lobby().dom(), seq![events.last()].drop_last())
            == then.lobby().dom());
    }
}

/// After any run of client messages, the clients in the lobby are those
/// that were there, but for the sessions to end: a client whose bytes did
/// not decode is gone from the lobby.
pub proof fn theorem_lobby_drops_sessions_to_end(w: WorldView, inbox: Seq<Inbound>)
    requires
        w.wf(),
        w.next_entity + inbox.len() <= u64::MAX,
    ensures
        w.after_inbox(inbox).wf(),
        w.after_inbox(inbox).next_entity <= w.next_entity + inbox.len(),
        w.after_inbox(inbox).lobby().dom() == without_sessions(
            w.lobby().dom(),
            sessions_to_end(inbox),
        ),
    decreases inbox.len(),
{
    let garbled = |m: Inbound| m.message == ClientMessage::Garbled;
    if inbox.len() == 0 {
        reveal(Seq::filter);
        assert(sessions_to_end(inbox) =~= Seq::<u64>::empty());
    } else {
        let earlier = inbox.drop_last();
        let last = inbox.last();
        theorem_lobby_drops_sessions_to_end(w, earlier);
        lemma_inbound(w.after_inbox(earlier), last);
        assert(earlier.push(last) =~= inbox);
        lemma_filter_push(earlier, garbled, last);
        if garbled(last) {
            assert(sessions_to_end(inbox) =~= sessions_to_end(earlier).push(last.client_id));
            assert(sessions_to_end(inbox).drop_last() =~= sessions_to_end(earlier));
        }
    }
}

/// Bytes that do not decode end the sender's session: its player leaves the
/// world, the other players stay in their order, and no projectile and no
/// identity changes.
pub proof fn theorem_garbled_bytes_end_one_session(w: WorldView, id: u64)
    ensures
        ({
            let after = w.after_inbound(Inbound { client_id: id, message: ClientMessage::Garbled });
            &&& after.players == w.players.filter(|p: PlayerRecord| p.id != id)
            &&& !after.has_client(id)
            &&& after.projectiles == w.projectiles
            &&& after.next_entity == w.next_entity
        }),
{
    let after = w.after_inbound(Inbound { client_id: id, message: ClientMessage::Garbled });
    let others = |p: PlayerRecord| p.id != id;
    if after.has_client(id) {
        let j = after.client_index(id);
        let i = lemma_filter_member(w.players, others, j);
    }
}

/// Bytes that do not decode touch no other client: the record of every
/// other client is in the world afterwards exactly if it was there before,
/// and as it was.
pub proof fn theorem_garbled_bytes_spare_the_others(w: WorldView, id: u64, record: PlayerRecord)
    requires
        record.id != id,
    ensures
        w.after_inbound(
            Inbound { client_id: id, message: ClientMessage::Garbled },
        ).players.contains(record) <==> w.players.contains(record),
{
    let after = w.after_inbound(Inbound { client_id: id, message: ClientMessage::Garbled });
    let others = |p: PlayerRecord| p.id != id;
    if after.players.contains(record) {
        let j = choose|j: int| 0 <= j < after.players.len() && after.players[j] == record;
        let i = lemma_filter_member(w.players, others, j);
        assert(w.players[i] == record);
    }
    if w.players.contains(record) {
        let i = choose|i: int| 0 <= i < w.players.len() && w.players[i] == record;
        let j = lemma_filter_keeps(w.players, others, i);
        assert(after.players[j] == record);
    }
}

/// An identity that the world hands out is new: no player and no projectile
/// has it.
pub proof fn theorem_fresh_entity_is_unused(w: WorldView)
    requires
        w.wf(),
        w.next_entity < u64::MAX,
    ensures
        !w.has_player(w.fresh_entity()),
        !w.has_projectile(w.fresh_entity()),
{
    if w.has_player(w.fresh_entity()) {
        let i = choose|i: int|
            0 <= i < w.players.len() && (#[trigger] w.players[i]).entity == w.fresh_entity();
        assert(w.players[i].entity.bits < w.next_entity);
    }
    if w.has_projectile(w.fresh_entity()) {
        let j = w.projectile_index(w.fresh_entity());
        assert(w.projectiles[j].entity.bits < w.next_entity);
    }
}

/// A basic attack of a client with a player adds exactly one projectile:
/// where the caster stands, turned as the caster is, owned by the caster,
/// with the full lifetime, under an identity that nothing else has. One
/// message tells everyone so, and nothing else changes.
pub proof fn theorem_basic_attack_casts_one_projectile(w: WorldView, id: u64)
    requires
        w.wf(),
        w.next_entity < u64::MAX,
        w.has_client(id),
    ensures
        ({
            let after = w.after_basic_attack(id);
            let caster = w.players[w.client_index(id)];
            let shot = after.projectiles.last();
            &&& after.projectiles == w.projectiles.push(shot)
            &&& after.players == w.players
            &&& !w.has_player(shot.entity)
            &&& !w.has_projectile(shot.entity)
            &&& caster.id == id
            &&& shot.owner == caster.entity
            &&& shot.owner == w.lobby()[id]
            &&& shot.transform.translation == caster.transform.translation
            &&& shot.transform.rotation == caster.transform.rotation
            &&& shot.lifetime == PROJECTILE_LIFETIME
            &&& w.basic_attack_messages(id) == seq![
                Outbound::broadcast(
                    ServerMessage::SpawnProjectile {
                        entity: shot.entity,
                        transform: caster.transform.translation.truncate(),
                        rotation: caster.transform.rotation,
                    },
                ),
            ]
        }),
{
    theorem_fresh_entity_is_unused(w);
}

/// Nothing that happens to the world takes an identity back: the identity
/// that the next new entity gets never goes down, so an identity that was
/// handed out once is never handed out again.
pub proof fn theorem_identities_are_never_reused(
    w: WorldView,
    event: ServerEvent,
    inbound: Inbound,
    elapsed: u64,
    overlap: Overlap,
)
    ensures
        w.after_event(event).next_entity >= w.next_entity,
        w.after_inbound(inbound).next_entity >= w.next_entity,
        w.after_elapsed(elapsed).next_entity == w.next_entity,
        w.after_overlap(overlap).next_entity == w.next_entity,
{
}

/// What the passing of time sends about the projectiles `projectiles`.
spec fn expiry_of(projectiles: Seq<ProjectileRecord>, elapsed: u64) -> Seq<Outbound> {
    projectiles.filter(|p: ProjectileRecord| !p.outlives(elapsed)).map_values(
        |p: ProjectileRecord|
            Outbound::broadcast(ServerMessage::DespawnProjectile { entity: p.entity }),
    )
}

proof fn lemma_expiry_count(
    projectiles: Seq<ProjectileRecord>,
    elapsed: u64,
    entity: ServerEntity,
)
    requires
        forall|i: int, j: int|
            #![trigger projectiles[i], projectiles[j]]
            0 <= i < j < projectiles.len() ==> projectiles[i].entity != projectiles[j].entity,
    ensures
        occurrences(expiry_of(projectiles, elapsed), farewell(entity)) == if exists|i: int|
            0 <= i < projectiles.len() && (#[trigger] projectiles[i]).entity == entity
                && !projectiles[i].outlives(elapsed) {
            1nat
        } else {
            0nat
        },
    decreases projectiles.len(),
{
    let dead = |p: ProjectileRecord| !p.outlives(elapsed);
    let notice = |p: ProjectileRecord|
        Outbound::broadcast(ServerMessage::DespawnProjectile { entity: p.entity });
    if projectiles.len() == 0 {
        reveal(Seq::filter);
        assert(expiry_of(projectiles, elapsed) =~= Seq::<Outbound>::empty());
    } else {
        let rest = projectiles.drop_last();
        let last = projectiles.last();
        let n = rest.len() as int;
        assert(rest.push(last) =~= projectiles);
        assert forall|i: int, j: int| 0 <= i < j < rest.len() implies #[trigger] rest[i].entity
            != #[trigger] rest[j].entity by {
            assert(projectiles[i].entity != projectiles[j].entity);
        }
        lemma_expiry_count(rest, elapsed, entity);
        lemma_filter_push(rest, dead, last);
        let found_in_rest = exists|i: int|
            0 <= i < rest.len() && (#[trigger] rest[i]).entity == entity && !rest[i].outlives(
                elapsed,
            );
        let found = exists|i: int|
            0 <= i < projectiles.len() && (#[trigger] projectiles[i]).entity == entity
                && !projectiles[i].outlives(elapsed);
        if found_in_rest {
            let i = choose|i: int|
                0 <= i < rest.len() && (#[trigger] rest[i]).entity == entity && !rest[i].outlives(
                    elapsed,
                );
            assert(projectiles[i].entity == entity);
            assert(projectiles[i].entity != projectiles[n].entity);
        }
        if found {
            let i = choose|i: int|
                0 <= i < projectiles.len() && (#[trigger] projectiles[i]).entity == entity
                    && !projectiles[i].outlives(elapsed);
            if i < n {
                assert(rest[i].entity == entity);
            }
        }
        if dead(last) {
            assert(expiry_of(projectiles, elapsed) =~= expiry_of(rest, elapsed).push(
                notice(last),
            ));
            lemma_occurrences_push(expiry_of(rest, elapsed), notice(last), farewell(entity));
            if last.entity == entity {
                assert(projectiles[n].entity == entity);
            }
        } else {
            assert(expiry_of(projectiles, elapsed) =~= expiry_of(rest, elapsed));
        }
    }
}

/// The passing of time and a projectile: one that outlives the time stays,
/// that much older, and nothing is sent about it; one that does not is gone,
/// and exactly one message says so.
pub proof fn theorem_expiry_is_announced_once(w: WorldView, elapsed: u64, i: int)
    requires
        w.wf(),
        0 <= i < w.projectiles.len(),
    ensures
        ({
            let projectile = w.projectiles[i];
            let later = w.after_elapsed(elapsed);
            let sent = occurrences(w.expiry_messages(elapsed), farewell(projectile.entity));
            if projectile.outlives(elapsed) {
                &&& later.has_projectile(projectile.entity)
                &&& later.projectiles[later.projectile_index(projectile.entity)]
                    == projectile.aged(elapsed)
                &&& sent == 0
            } else {
                &&& !later.has_projectile(projectile.entity)
                &&& sent == 1
            }
        }),
{
    let projectile = w.projectiles[i];
    let later = w.after_elapsed(elapsed);
    let alive = |p: ProjectileRecord| p.outlives(elapsed);
    lemma_elapsed(w, elapsed);
    lemma_expiry_count(w.projectiles, elapsed, projectile.entity);
    assert(w.expiry_messages(elapsed) == expiry_of(w.projectiles, elapsed));
    let found = exists|k: int|
        0 <= k < w.projectiles.len() && (#[trigger] w.projectiles[k]).entity == projectile.entity
            && !w.projectiles[k].outlives(elapsed);
    if found {
        let k = choose|k: int|
            0 <= k < w.projectiles.len() && (#[trigger] w.projectiles[k]).entity
                == projectile.entity && !w.projectiles[k].outlives(elapsed);
        lemma_projectile_index(w, k);
        lemma_projectile_index(w, i);
    }
    if projectile.outlives(elapsed) {
        let j = lemma_filter_keeps(w.projectiles, alive, i);
        assert(later.projectiles[j] == projectile.aged(elapsed));
        lemma_projectile_index(later, j);
    } else {
        assert(w.projectiles[i].entity == projectile.entity);
        if later.has_projectile(projectile.entity) {
            let j = later.projectile_index(projectile.entity);
            let k = lemma_filter_member(w.projectiles, alive, j);
            assert(w.projectiles[k].entity == projectile.entity);
            lemma_projectile_index(w, k);
            lemma_projectile_index(w, i);
        }
    }
}

/// While time passes, the lifetime of every projectile that stays goes down
/// by the time that passed: strictly so whenever any time passed.
pub proof fn theorem_lifetime_goes_down(w: WorldView, elapsed: u64, j: int)
    requires
        w.wf(),
        0 <= j < w.after_elapsed(elapsed).projectiles.len(),
    ensures
        ({
            let now = w.after_elapsed(elapsed).projectiles[j];
            &&& w.has_projectile(now.entity)
            &&& w.projectiles[w.projectile_index(now.entity)].lifetime == now.lifetime + elapsed
            &&& now.lifetime > 0
            &&& elapsed > 0 ==> now.lifetime < w.projectiles[w.projectile_index(
                now.entity,
            )].lifetime
        }),
{
    let alive = |p: ProjectileRecord| p.outlives(elapsed);
    let i = lemma_filter_member(w.projectiles, alive, j);
    lemma_projectile_index(w, i);
}

/// A projectile never hits the player that cast it, wherever the two
/// stand: such an overlap changes nothing and sends nothing.
pub proof fn theorem_owner_is_never_hit(w: WorldView, overlap: Overlap, i: int)
    requires
        w.wf(),
        0 <= i < w.projectiles.len(),
        w.projectiles[i].entity == overlap.projectile,
        w.projectiles[i].owner == overlap.player,
    ensures
        !w.is_hit(overlap),
        w.after_overlap(overlap) == w,
        w.overlap_messages(overlap) == Seq::<Outbound>::empty(),
{
    lemma_projectile_index(w, i);
}

/// A hit destroys the projectile at once, and sends exactly that the
/// projectile is gone and that the player was struck.
pub proof fn theorem_hit_destroys_projectile(w: WorldView, overlap: Overlap)
    requires
        w.wf(),
        w.is_hit(overlap),
    ensures
        !w.after_overlap(overlap).has_projectile(overlap.projectile),
        !w.after_overlap(overlap).snapshot_entities().contains(overlap.projectile),
        w.after_overlap(overlap).players == w.players,
        w.overlap_messages(overlap) == seq![
            farewell(overlap.projectile),
            Outbound::broadcast(ServerMessage::DespawnPlayer { entity: overlap.player }),
        ],
{
    let after = w.after_overlap(overlap);
    let others = |p: ProjectileRecord| p.entity != overlap.projectile;
    lemma_overlap(w, overlap);
    if after.has_projectile(overlap.projectile) {
        let j = after.projectile_index(overlap.projectile);
        let k = lemma_filter_member(w.projectiles, others, j);
    }
    let listed = after.snapshot_entities();
    if listed.contains(overlap.projectile) {
        let k = choose|k: int| 0 <= k < listed.len() && listed[k] == overlap.projectile;
        if k < after.players.len() {
            assert(after.players[k].entity == overlap.projectile);
            let i = w.projectile_index(overlap.projectile);
            assert(w.players[k].entity != w.projectiles[i].entity);
        } else {
            let j = k - after.players.len();
            assert(after.projectiles[j].entity == overlap.projectile);
        }
    }
}

/// Over any run of overlaps, every projectile of the world either stays, and
/// nothing is sent about it, or is destroyed, and exactly one message says
/// that it is gone.
pub proof fn theorem_hit_is_announced_once(w: WorldView, overlaps: Seq<Overlap>, i: int)
    requires
        w.wf(),
        0 <= i < w.projectiles.len(),
    ensures
        w.after_overlaps(overlaps).wf(),
        occurrences(w.overlaps_messages(overlaps), farewell(w.projectiles[i].entity)) == if w.after_overlaps(
            overlaps,
        ).has_projectile(w.projectiles[i].entity) {
            0nat
        } else {
            1nat
        },
    decreases overlaps.len(),
{
    let entity = w.projectiles[i].entity;
    if overlaps.len() == 0 {
        lemma_projectile_index(w, i);
    } else {
        let earlier = overlaps.drop_last();
        let overlap = overlaps.last();
        theorem_hit_is_announced_once(w, earlier, i);
        let then = w.after_overlaps(earlier);
        let after = then.after_overlap(overlap);
        let others = |p: ProjectileRecord| p.entity != overlap.projectile;
        lemma_overlap(then, overlap);
        lemma_occurrences_add(
            w.overlaps_messages(earlier),
            then.overlap_messages(overlap),
            farewell(entity),
        );
        if then.is_hit(overlap) {
            let sent = then.overlap_messages(overlap);
            let gone = farewell(overlap.projectile);
            let struck = Outbound::broadcast(
                ServerMessage::DespawnPlayer { entity: overlap.player },
            );
            assert(sent =~= Seq::<Outbound>::empty().push(gone).push(struck));
            lemma_occurrences_push(Seq::<Outbound>::empty(), gone, farewell(entity));
            lemma_occurrences_push(Seq::<Outbound>::empty().push(gone), struck, farewell(entity));
            assert(occurrences(sent, farewell(entity)) == if overlap.projectile == entity {
                1nat
            } else {
                0nat
            });
            if after.has_projectile(entity) {
                let j = after.projectile_index(entity);
                let k = lemma_filter_member(then.projectiles, others, j);
                assert(then.projectiles[k].entity == entity);
            }
            if overlap.projectile != entity && then.has_projectile(entity) {
                let k = then.projectile_index(entity);
                let j = lemma_filter_keeps(then.projectiles, others, k);
                assert(after.projectiles[j].entity == entity);
            }
        } else {
            assert(occurrences(then.overlap_messages(overlap), farewell(entity)) == 0);
        }
    }
}


/// The placement that the last of `updates` for `entity` carries, if any of
/// them is for `entity`.
pub open spec fn last_update(updates: Seq<TransformUpdate>, entity: LocalEntity) -> Option<
    Transform,
>
    decreases updates.len(),
{
    if updates.len() == 0 {
        None
    } else if updates.last().entity == entity {
        Some(updates.last().transform)
    } else {
        last_update(updates.drop_last(), entity)
    }
}

/// After a run of updates, an entity shows the placement of the last update
/// that was for it, and one for which there was none shows what it showed
/// before.
pub proof fn theorem_last_update_wins(
    mirror: Map<LocalEntity, Transform>,
    updates: Seq<TransformUpdate>,
    entity: LocalEntity,
)
    ensures
        mirror_after(mirror, updates).contains_key(entity) <==> (mirror.contains_key(entity)
            || last_update(updates, entity) is Some),
        mirror_after(mirror, updates)[entity] == (match last_update(updates, entity) {
            Some(transform) => transform,
            None => mirror[entity],
        }),
    decreases updates.len(),
{
    if updates.len() > 0 {
        theorem_last_update_wins(mirror, updates.drop_last(), entity);
    }
}

/// Taking the same snapshot twice shows what taking it once shows.
pub proof fn theorem_snapshot_is_idempotent(
    client: MirrorView,
    placements: Seq<Placement>,
    mirror: Map<LocalEntity, Transform>,
)
    ensures
        ({
            let updates = client.snapshot_updates(placements);
            mirror_after(mirror_after(mirror, updates), updates) == mirror_after(mirror, updates)
        }),
{
    let updates = client.snapshot_updates(placements);
    let once = mirror_after(mirror, updates);
    let twice = mirror_after(once, updates);
    assert forall|e: LocalEntity| #[trigger] twice.contains_key(e) == once.contains_key(e) by {
        theorem_last_update_wins(mirror, updates, e);
        theorem_last_update_wins(once, updates, e);
    }
    assert forall|e: LocalEntity| twice.contains_key(e) implies #[trigger] twice[e] == once[e] by {
        theorem_last_update_wins(mirror, updates, e);
        theorem_last_update_wins(once, updates, e);
    }
    assert(twice =~= once);
}

/// Every update that a snapshot yields is for the local entity of an entry
/// whose server entity the client knows, and carries that entry's placement.
pub proof fn theorem_updates_are_for_known_entities(
    client: MirrorView,
    placements: Seq<Placement>,
    j: int,
)
    requires
        0 <= j < client.snapshot_updates(placements).len(),
    ensures
        exists|i: int|
            0 <= i < placements.len() && client.mapping.contains_key(
                (#[trigger] placements[i]).entity,
            ) && client.snapshot_updates(placements)[j] == (TransformUpdate {
                entity: client.mapping[placements[i].entity],
                transform: placements[i].transform,
            }),
{
    let update = |p: Placement| client.update_for(p);
    let updates = client.snapshot_updates(placements);
    assert(updates.contains(updates[j]));
    placements.lemma_filter_map_contains(update, updates[j]);
    let entry = choose|entry: Placement| #[trigger]
        placements.contains(entry) && update(entry) == Some(updates[j]);
    let i = choose|i: int| 0 <= i < placements.len() && placements[i] == entry;
    assert(client.mapping.contains_key(placements[i].entity));
}

/// A snapshot of entities that the client does not know is no fault and
/// does nothing: it yields no update, and the renderer shows what it showed.
pub proof fn theorem_unknown_entities_are_passed_over(
    client: MirrorView,
    placements: Seq<Placement>,
    mirror: Map<LocalEntity, Transform>,
)
    requires
        forall|i: int|
            0 <= i < placements.len() ==> !client.mapping.contains_key(
                (#[trigger] placements[i]).entity,
            ),
    ensures
        client.snapshot_updates(placements) == Seq::<TransformUpdate>::empty(),
        mirror_after(mirror, client.snapshot_updates(placements)) == mirror,
{
    let updates = client.snapshot_updates(placements);
    if updates.len() > 0 {
        theorem_updates_are_for_known_entities(client, placements, 0);
    }
    assert(updates =~= Seq::<TransformUpdate>::empty());
}

} // verus!
