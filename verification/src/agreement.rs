//! The server's world and a client's mirror of it stay in step: whatever
//! the server does, a client that takes what the server sends to it, in
//! order, knows nothing that the server no longer has, and shows every
//! player of the server but those of which it was told that they were hit.

use vstd::prelude::*;
use crate::client::{Delivery, MirrorView};
use crate::network::{LocalEntity, ServerEntity, ServerMessage};
use crate::player::PlayerRecord;
use crate::projectile::ProjectileRecord;
use crate::seq_facts::{lemma_filter_keeps, lemma_filter_member, lemma_filter_push};
use crate::world::{
    lemma_basic_attack, lemma_client_index, lemma_connect, lemma_disconnect, lemma_elapsed,
    lemma_input, lemma_overlap, lemma_same_identities, ClientMessage, Inbound, Outbound, Overlap,
    Recipient, WorldView,
};

verus! {

/// Whether a message that the server sends is meant for the client `me`.
pub open spec fn reaches(me: u64, outbound: Outbound) -> bool {
    match outbound.recipient {
        Recipient::Everyone => true,
        Recipient::Client(id) => id == me,
    }
}

/// The messages among `sent` that are meant for the client `me`, in order.
pub open spec fn received(me: u64, sent: Seq<Outbound>) -> Seq<ServerMessage> {
    sent.filter(|o: Outbound| reaches(me, o)).map_values(|o: Outbound| o.message)
}

/// Whether `deliveries` bring exactly `messages`, in order.
pub open spec fn carries(deliveries: Seq<Delivery>, messages: Seq<ServerMessage>) -> bool {
    deliveries.map_values(|d: Delivery| d.message) == messages
}

/// The client knows nothing wrong: each player in its lobby is a player of
/// the server, under the same server entity; where the table still knows
/// that entity, it leads to the player's local entity; and each server entity
/// that the table knows is a player or a projectile of the server.
pub open spec fn faithful(w: WorldView, c: MirrorView) -> bool {
    &&& forall|id: u64| #[trigger]
        c.lobby.contains_key(id) ==> {
            &&& w.has_client(id)
            &&& c.lobby[id].server_entity == w.lobby()[id]
            &&& c.mapping.contains_key(w.lobby()[id]) ==> c.mapping[w.lobby()[id]]
                == c.lobby[id].client_entity
        }
    &&& forall|e: ServerEntity| #[trigger]
        c.mapping.contains_key(e) ==> w.has_player(e) || w.has_projectile(e)
}

/// The client's lobby holds every player of the server.
pub open spec fn whole(w: WorldView, c: MirrorView) -> bool {
    forall|id: u64| w.has_client(id) ==> #[trigger] c.lobby.contains_key(id)
}

/// The client's table knows every player of the server but those in
/// `struck`: the players of which the client was told that they were hit.
/// The server keeps the record of such a player; the client shows it no
/// more.
pub open spec fn shows_players(w: WorldView, c: MirrorView, struck: Set<ServerEntity>) -> bool {
    forall|id: u64| #[trigger]
        w.has_client(id) && !struck.contains(w.lobby()[id]) ==> c.mapping.contains_key(
            w.lobby()[id],
        )
}

/// The client is in step with the server, `struck` being the players of
/// which it was told that they were hit.
pub open spec fn in_step(w: WorldView, c: MirrorView, struck: Set<ServerEntity>) -> bool {
    faithful(w, c) && whole(w, c) && shows_players(w, c, struck)
}

/// A client that knows nothing knows nothing wrong, whatever the server
/// holds.
pub proof fn theorem_empty_mirror_is_faithful(w: WorldView)
    ensures
        faithful(w, MirrorView::empty()),
{
}

proof fn lemma_received_nothing(me: u64)
    ensures
        received(me, Seq::empty()) == Seq::<ServerMessage>::empty(),
{
    reveal(Seq::filter);
    assert(received(me, Seq::empty()) =~= Seq::<ServerMessage>::empty());
}

proof fn lemma_received_push(me: u64, sent: Seq<Outbound>, last: Outbound)
    ensures
        received(me, sent.push(last)) == if reaches(me, last) {
            received(me, sent).push(last.message)
        } else {
            received(me, sent)
        },
{
    let meant = |o: Outbound| reaches(me, o);
    lemma_filter_push(sent, meant, last);
    if reaches(me, last) {
        assert(received(me, sent.push(last)) =~= received(me, sent).push(last.message));
    }
}

proof fn lemma_carries_nothing(deliveries: Seq<Delivery>)
    requires
        carries(deliveries, Seq::empty()),
    ensures
        deliveries == Seq::<Delivery>::empty(),
{
    assert(deliveries.map_values(|d: Delivery| d.message).len() == 0);
    assert(deliveries =~= Seq::<Delivery>::empty());
}

proof fn lemma_carries_push(
    deliveries: Seq<Delivery>,
    messages: Seq<ServerMessage>,
    last: ServerMessage,
)
    requires
        carries(deliveries, messages.push(last)),
    ensures
        deliveries.len() == messages.len() + 1,
        carries(deliveries.drop_last(), messages),
        deliveries.last().message == last,
{
    let brought = deliveries.map_values(|d: Delivery| d.message);
    assert(brought.len() == messages.len() + 1);
    assert(brought[deliveries.len() - 1] == last);
    assert forall|i: int| 0 <= i < messages.len() implies deliveries.drop_last().map_values(
        |d: Delivery| d.message,
    )[i] == messages[i] by {
        assert(brought[i] == messages.push(last)[i]);
    }
    assert(deliveries.drop_last().map_values(|d: Delivery| d.message) =~= messages);
}

/// The entity that the lobby holds for a client is a player and no
/// projectile.
proof fn lemma_lobby_entity(w: WorldView, id: u64)
    requires
        w.wf(),
        w.has_client(id),
    ensures
        w.has_player(w.lobby()[id]),
        !w.has_projectile(w.lobby()[id]),
{
    let k = w.client_index(id);
    assert(w.players[k].entity == w.lobby()[id]);
    if w.has_projectile(w.lobby()[id]) {
        let j = w.projectile_index(w.lobby()[id]);
        assert(w.players[k].entity != w.projectiles[j].entity);
    }
}

/// Two worlds with the same projectiles have the same entities in flight.
proof fn lemma_same_projectiles(a: WorldView, b: WorldView)
    requires
        a.projectiles == b.projectiles,
    ensures
        forall|e: ServerEntity| a.has_projectile(e) == b.has_projectile(e),
{
    assert forall|e: ServerEntity| a.has_projectile(e) == b.has_projectile(e) by {
        if a.has_projectile(e) {
            let j = a.projectile_index(e);
            assert(b.projectiles[j].entity == e);
        }
        if b.has_projectile(e) {
            let j = b.projectile_index(e);
            assert(a.projectiles[j].entity == e);
        }
    }
}

/// The lobby holds different entities for different clients.
proof fn lemma_lobby_injective(w: WorldView, a: u64, b: u64)
    requires
        w.wf(),
        w.has_client(a),
        w.has_client(b),
        a != b,
    ensures
        w.lobby()[a] != w.lobby()[b],
{
    let i = w.client_index(a);
    let j = w.client_index(b);
    if i < j {
        assert(w.players[i].entity != w.players[j].entity);
    } else {
        assert(w.players[j].entity != w.players[i].entity);
    }
}

/// A client that knows nothing wrong still does so after it is told of a
/// player that the server has.
proof fn lemma_told_of_player(
    w: WorldView,
    c: MirrorView,
    id: u64,
    entity: ServerEntity,
    fresh: LocalEntity,
)
    requires
        w.wf(),
        faithful(w, c),
        w.has_client(id),
        w.lobby()[id] == entity,
    ensures
        faithful(w, c.after_message(ServerMessage::PlayerCreate { id, entity }, fresh)),
        c.after_message(ServerMessage::PlayerCreate { id, entity }, fresh).lobby.dom()
            == c.lobby.dom().insert(id),
        c.after_message(ServerMessage::PlayerCreate { id, entity }, fresh).mapping.dom()
            == c.mapping.dom().insert(entity),
{
    let after = c.after_message(ServerMessage::PlayerCreate { id, entity }, fresh);
    lemma_lobby_entity(w, id);
    assert forall|other: u64| #[trigger] after.lobby.contains_key(other) implies {
        &&& w.has_client(other)
        &&& after.lobby[other].server_entity == w.lobby()[other]
        &&& after.mapping.contains_key(w.lobby()[other]) ==> after.mapping[w.lobby()[other]]
                == after.lobby[other].client_entity
    } by {
        if other != id {
            assert(c.lobby.contains_key(other));
            lemma_lobby_injective(w, other, id);
        }
    }
    assert forall|e: ServerEntity| #[trigger] after.mapping.contains_key(e) implies w.has_player(e)
        || w.has_projectile(e) by {
        if e != entity {
            assert(c.mapping.contains_key(e));
        }
    }
    assert(after.lobby.dom() =~= c.lobby.dom().insert(id));
    assert(after.mapping.dom() =~= c.mapping.dom().insert(entity));
}

/// The announcements of the first `n` players of the world, as a client
/// that has just connected receives them.
spec fn replayed(w: WorldView, n: int) -> Seq<ServerMessage> {
    w.players.take(n).map_values(
        |p: PlayerRecord| ServerMessage::PlayerCreate { id: p.id, entity: p.entity },
    )
}

proof fn lemma_replay_taken(w: WorldView, c: MirrorView, deliveries: Seq<Delivery>, n: int)
    requires
        w.wf(),
        faithful(w, c),
        0 <= n <= w.players.len(),
        carries(deliveries, replayed(w, n)),
    ensures
        faithful(w, c.after_messages(deliveries)),
        forall|i: int|
            0 <= i < n ==> c.after_messages(deliveries).lobby.contains_key(
                (#[trigger] w.players[i]).id,
            ),
        forall|id: u64|
            c.lobby.contains_key(id) ==> #[trigger] c.after_messages(deliveries).lobby.contains_key(
                id,
            ),
        forall|i: int|
            0 <= i < n ==> c.after_messages(deliveries).mapping.contains_key(
                (#[trigger] w.players[i]).entity,
            ),
        forall|e: ServerEntity|
            c.mapping.contains_key(e) ==> #[trigger] c.after_messages(
                deliveries,
            ).mapping.contains_key(e),
    decreases n,
{
    if n == 0 {
        assert(replayed(w, 0) =~= Seq::<ServerMessage>::empty());
        lemma_carries_nothing(deliveries);
    } else {
        let player = w.players[n - 1];
        let told = ServerMessage::PlayerCreate { id: player.id, entity: player.entity };
        assert(replayed(w, n) =~= replayed(w, n - 1).push(told));
        lemma_carries_push(deliveries, replayed(w, n - 1), told);
        let earlier = deliveries.drop_last();
        lemma_replay_taken(w, c, earlier, n - 1);
        let then = c.after_messages(earlier);
        lemma_client_index(w, n - 1);
        lemma_told_of_player(w, then, player.id, player.entity, deliveries.last().fresh);
        let after = c.after_messages(deliveries);
        assert(after == then.after_message(told, deliveries.last().fresh));
        assert forall|i: int| 0 <= i < n implies after.lobby.contains_key(
            (#[trigger] w.players[i]).id,
        ) by {
            if i < n - 1 {
                assert(then.lobby.contains_key(w.players[i].id));
            }
        }
        assert forall|id: u64| c.lobby.contains_key(id) implies #[trigger] after.lobby.contains_key(
            id,
        ) by {
            assert(then.lobby.contains_key(id));
        }
        assert forall|i: int| 0 <= i < n implies after.mapping.contains_key(
            (#[trigger] w.players[i]).entity,
        ) by {
            if i < n - 1 {
                assert(then.mapping.contains_key(w.players[i].entity));
            }
        }
        assert forall|e: ServerEntity| c.mapping.contains_key(e) implies #[trigger]
            after.mapping.contains_key(e) by {
            assert(then.mapping.contains_key(e));
        }
    }
}

proof fn lemma_replay_received(w: WorldView, me: u64, id: u64, n: int)
    requires
        0 <= n <= w.players.len(),
    ensures
        received(me, w.players.take(n).map_values(|p: PlayerRecord| Outbound::replay(id, p)))
            == if id == me {
            replayed(w, n)
        } else {
            Seq::<ServerMessage>::empty()
        },
    decreases n,
{
    let replay = |p: PlayerRecord| Outbound::replay(id, p);
    if n == 0 {
        assert(w.players.take(0).map_values(replay) =~= Seq::<Outbound>::empty());
        lemma_received_nothing(me);
        assert(replayed(w, 0) =~= Seq::<ServerMessage>::empty());
    } else {
        lemma_replay_received(w, me, id, n - 1);
        let player = w.players[n - 1];
        assert(w.players.take(n).map_values(replay) =~= w.players.take(n - 1).map_values(
            replay,
        ).push(Outbound::replay(id, player)));
        lemma_received_push(
            me,
            w.players.take(n - 1).map_values(replay),
            Outbound::replay(id, player),
        );
        assert(replayed(w, n) =~= replayed(w, n - 1).push(
            ServerMessage::PlayerCreate { id: player.id, entity: player.entity },
        ));
    }
}

/// When a client connects, every client that was in step stays in step, and
/// the client that connected gets in step, provided that it knew nothing
/// wrong: its mirror may be empty.
pub proof fn theorem_connect_keeps_clients_in_step(
    w: WorldView,
    c: MirrorView,
    struck: Set<ServerEntity>,
    me: u64,
    id: u64,
    deliveries: Seq<Delivery>,
)
    requires
        w.wf(),
        w.next_entity < u64::MAX,
        faithful(w, c),
        in_step(w, c, struck) || (id == me && !w.has_client(id)),
        carries(deliveries, received(me, w.connect_messages(id))),
    ensures
        in_step(w.after_connect(id), c.after_messages(deliveries), struck),
{
    if w.has_client(id) {
        lemma_received_nothing(me);
        lemma_carries_nothing(deliveries);
    } else {
        let after = w.after_connect(id);
        let n = w.players.len() as int;
        let entity = w.fresh_entity();
        let replay = |p: PlayerRecord| Outbound::replay(id, p);
        let announced = Outbound::broadcast(ServerMessage::PlayerCreate { id, entity });
        lemma_connect(w, id);
        assert(after.players.take(n) =~= w.players);
        assert(w.players.take(n) =~= w.players);
        assert forall|i: int| 0 <= i < n implies after.players[i] == w.players[i] by {}
        assert forall|other: u64| w.has_client(other) implies after.has_client(other)
            && after.lobby()[other] == w.lobby()[other] by {
            assert(after.lobby().contains_key(other));
        }
        assert forall|e: ServerEntity| w.has_player(e) implies after.has_player(e) by {
            let i = choose|i: int| 0 <= i < w.players.len() && (#[trigger] w.players[i]).entity == e;
            assert(after.players[i].entity == e);
        }
        lemma_same_projectiles(w, after);
        assert forall|other: u64| #[trigger] c.lobby.contains_key(other) implies {
            &&& after.has_client(other)
            &&& c.lobby[other].server_entity == after.lobby()[other]
            &&& c.mapping.contains_key(after.lobby()[other]) ==> c.mapping[after.lobby()[other]]
                == c.lobby[other].client_entity
        } by {
            assert(w.has_client(other));
            assert(after.lobby()[other] == w.lobby()[other]);
        }
        assert forall|e: ServerEntity| #[trigger] c.mapping.contains_key(e) implies after.has_player(
            e,
        ) || after.has_projectile(e) by {
            if w.has_player(e) {
                assert(after.has_player(e));
            } else {
                assert(w.has_projectile(e));
            }
        }
        assert(faithful(after, c));
        lemma_received_push(me, w.players.map_values(replay), announced);
        lemma_replay_received(w, me, id, n);
        let before_last = received(me, w.players.map_values(replay));
        lemma_carries_push(
            deliveries,
            before_last,
            ServerMessage::PlayerCreate { id, entity },
        );
        let earlier = deliveries.drop_last();
        let then = c.after_messages(earlier);
        if id == me {
            assert(replayed(after, n) =~= replayed(w, n));
            lemma_replay_taken(after, c, earlier, n);
        } else {
            lemma_carries_nothing(earlier);
        }
        assert(after.players[n].id == id);
        lemma_client_index(after, n);
        lemma_told_of_player(after, then, id, entity, deliveries.last().fresh);
        let last = c.after_messages(deliveries);
        assert(last == then.after_message(
            ServerMessage::PlayerCreate { id, entity },
            deliveries.last().fresh,
        ));
        assert forall|other: u64| after.has_client(other) implies #[trigger] last.lobby.contains_key(
            other,
        ) by {
            if other != id {
                assert(after.lobby().contains_key(other));
                assert(w.has_client(other));
                let i = w.client_index(other);
                assert(after.players[i].id == other);
                assert(then.lobby.contains_key(other));
            }
        }
        assert forall|other: u64| #[trigger]
            after.has_client(other) && !struck.contains(
                after.lobby()[other],
            ) implies last.mapping.contains_key(after.lobby()[other]) by {
            if other != id {
                assert(after.lobby().contains_key(other));
                assert(w.has_client(other));
                let i = w.client_index(other);
                lemma_client_index(w, i);
                assert(after.lobby()[other] == w.players[i].entity);
                assert(then.mapping.contains_key(w.players[i].entity));
            }
        }
    }
}

/// When a client disconnects, every client that was in step stays in step.
pub proof fn theorem_disconnect_keeps_clients_in_step(
    w: WorldView,
    c: MirrorView,
    struck: Set<ServerEntity>,
    me: u64,
    id: u64,
    deliveries: Seq<Delivery>,
)
    requires
        w.wf(),
        in_step(w, c, struck),
        carries(deliveries, received(me, w.disconnect_messages(id))),
    ensures
        in_step(w.after_disconnect(id), c.after_messages(deliveries), struck),
{
    let after = w.after_disconnect(id);
    let gone = ServerMessage::PlayerDisconnected { id };
    lemma_disconnect(w, id);
    lemma_received_nothing(me);
    assert(w.disconnect_messages(id) =~= Seq::<Outbound>::empty().push(Outbound::broadcast(gone)));
    lemma_received_push(me, Seq::empty(), Outbound::broadcast(gone));
    lemma_carries_push(deliveries, Seq::empty(), gone);
    lemma_carries_nothing(deliveries.drop_last());
    let last = c.after_messages(deliveries);
    assert(c.after_messages(deliveries.drop_last()) == c);
    assert(last == c.after_message(gone, deliveries.last().fresh));
    if w.has_client(id) {
        let k = w.client_index(id);
        let left = w.lobby()[id];
        assert(c.lobby.contains_key(id));
        assert forall|e: ServerEntity| w.has_player(e) && e != left implies after.has_player(
            e,
        ) by {
            let i = choose|i: int| 0 <= i < w.players.len() && (#[trigger] w.players[i]).entity == e;
            let j = if i < k {
                i
            } else {
                i - 1
            };
            assert(after.players[j].entity == e);
        }
        assert forall|other: u64| #[trigger] last.lobby.contains_key(other) implies {
            &&& after.has_client(other)
            &&& last.lobby[other].server_entity == after.lobby()[other]
            &&& last.mapping.contains_key(after.lobby()[other]) ==> last.mapping[after.lobby()[other]]
                == last.lobby[other].client_entity
        } by {
            assert(c.lobby.contains_key(other));
            assert(after.lobby().contains_key(other));
            lemma_lobby_injective(w, other, id);
        }
        lemma_same_projectiles(w, after);
        assert(c.lobby[id].server_entity == left);
        assert forall|e: ServerEntity| #[trigger] last.mapping.contains_key(e) implies after.has_player(
            e,
        ) || after.has_projectile(e) by {
            assert(c.mapping.contains_key(e));
            assert(e != left);
            if w.has_player(e) {
                assert(after.has_player(e));
            } else {
                assert(w.has_projectile(e));
            }
        }
        assert forall|other: u64| after.has_client(other) implies #[trigger] last.lobby.contains_key(
            other,
        ) by {
            assert(after.lobby().contains_key(other));
            assert(w.has_client(other));
            assert(c.lobby.contains_key(other));
        }
        assert forall|other: u64| #[trigger]
            after.has_client(other) && !struck.contains(
                after.lobby()[other],
            ) implies last.mapping.contains_key(after.lobby()[other]) by {
            assert(after.lobby().contains_key(other));
            assert(w.has_client(other));
            lemma_lobby_injective(w, other, id);
        }
    } else {
        assert(!c.lobby.contains_key(id));
    }
}

/// When a message of a client is taken, every client that was in step stays
/// in step.
pub proof fn theorem_message_keeps_clients_in_step(
    w: WorldView,
    c: MirrorView,
    struck: Set<ServerEntity>,
    me: u64,
    inbound: Inbound,
    deliveries: Seq<Delivery>,
)
    requires
        w.wf(),
        w.next_entity < u64::MAX,
        in_step(w, c, struck),
        carries(deliveries, received(me, w.inbound_messages(inbound))),
    ensures
        in_step(w.after_inbound(inbound), c.after_messages(deliveries), struck),
{
    let after = w.after_inbound(inbound);
    lemma_received_nothing(me);
    if inbound.message != ClientMessage::Garbled {
        lemma_same_identities(w, after);
    }
    match inbound.message {
        ClientMessage::Input(input) => {
            lemma_input(w, inbound.client_id, input);
            lemma_carries_nothing(deliveries);
            lemma_same_projectiles(w, after);
        },
        ClientMessage::Garbled => {
            theorem_disconnect_keeps_clients_in_step(
                w,
                c,
                struck,
                me,
                inbound.client_id,
                deliveries,
            );
        },
        ClientMessage::Command(_) => {
            let id = inbound.client_id;
            lemma_basic_attack(w, id);
            if w.has_client(id) {
                let caster = w.players[w.client_index(id)];
                let entity = w.fresh_entity();
                let spawned = ServerMessage::SpawnProjectile {
                    entity,
                    transform: caster.transform.translation.truncate(),
                    rotation: caster.transform.rotation,
                };
                assert(w.inbound_messages(inbound) =~= Seq::<Outbound>::empty().push(
                    Outbound::broadcast(spawned),
                ));
                lemma_received_push(me, Seq::empty(), Outbound::broadcast(spawned));
                lemma_carries_push(deliveries, Seq::empty(), spawned);
                lemma_carries_nothing(deliveries.drop_last());
                let last = c.after_messages(deliveries);
                assert(c.after_messages(deliveries.drop_last()) == c);
                assert(last == c.after_message(spawned, deliveries.last().fresh));
                let n = w.projectiles.len() as int;
                assert(after.projectiles[n].entity == entity);
                assert forall|e: ServerEntity| w.has_projectile(e) implies after.has_projectile(
                    e,
                ) by {
                    let j = w.projectile_index(e);
                    assert(after.projectiles[j].entity == e);
                }
                assert forall|other: u64| #[trigger] last.lobby.contains_key(other) implies {
                    &&& after.has_client(other)
                    &&& last.lobby[other].server_entity == after.lobby()[other]
                    &&& last.mapping.contains_key(after.lobby()[other]) ==> last.mapping[after.lobby()[other]]
                == last.lobby[other].client_entity
                } by {
                    assert(c.lobby.contains_key(other));
                    lemma_lobby_entity(w, other);
                    if w.lobby()[other] == entity {
                        let i = choose|i: int|
                            0 <= i < w.players.len() && (#[trigger] w.players[i]).entity == entity;
                        assert(w.players[i].entity.bits < w.next_entity);
                    }
                }
                assert forall|e: ServerEntity| #[trigger]
                    last.mapping.contains_key(e) implies after.has_player(e)
                    || after.has_projectile(e) by {
                    if e != entity {
                        assert(c.mapping.contains_key(e));
                    }
                }
            } else {
                lemma_carries_nothing(deliveries);
            }
        },
    }
}

/// What a client knows after it was told that the projectiles `gone` are
/// gone: the same players, and the server entities that are not among
/// `gone`.
proof fn lemma_told_of_despawns(
    c: MirrorView,
    deliveries: Seq<Delivery>,
    gone: Seq<ProjectileRecord>,
)
    requires
        carries(
            deliveries,
            gone.map_values(
                |p: ProjectileRecord| ServerMessage::DespawnProjectile { entity: p.entity },
            ),
        ),
    ensures
        c.after_messages(deliveries).lobby == c.lobby,
        forall|e: ServerEntity| #[trigger]
            c.after_messages(deliveries).mapping.contains_key(e) <==> c.mapping.contains_key(e) && (
            forall|i: int| 0 <= i < gone.len() ==> (#[trigger] gone[i]).entity != e),
        forall|e: ServerEntity| #[trigger]
            c.after_messages(deliveries).mapping.contains_key(e) ==> c.after_messages(
                deliveries,
            ).mapping[e] == c.mapping[e],
    decreases gone.len(),
{
    let notice = |p: ProjectileRecord| ServerMessage::DespawnProjectile { entity: p.entity };
    if gone.len() == 0 {
        assert(gone.map_values(notice) =~= Seq::<ServerMessage>::empty());
        lemma_carries_nothing(deliveries);
    } else {
        let rest = gone.drop_last();
        assert(gone.map_values(notice) =~= rest.map_values(notice).push(notice(gone.last())));
        lemma_carries_push(deliveries, rest.map_values(notice), notice(gone.last()));
        lemma_told_of_despawns(c, deliveries.drop_last(), rest);
        let then = c.after_messages(deliveries.drop_last());
        let after = c.after_messages(deliveries);
        assert(after == then.after_message(notice(gone.last()), deliveries.last().fresh));
        assert forall|e: ServerEntity| #[trigger]
            after.mapping.contains_key(e) <==> c.mapping.contains_key(e) && (forall|i: int|
            0 <= i < gone.len() ==> (#[trigger] gone[i]).entity != e) by {
            if after.mapping.contains_key(e) {
                assert(then.mapping.contains_key(e));
                assert forall|i: int| 0 <= i < gone.len() implies (#[trigger] gone[i]).entity
                    != e by {
                    if i < rest.len() {
                        assert(rest[i].entity != e);
                    }
                }
            }
            if c.mapping.contains_key(e) && (forall|i: int|
                0 <= i < gone.len() ==> (#[trigger] gone[i]).entity != e) {
                assert forall|i: int| 0 <= i < rest.len() implies (#[trigger] rest[i]).entity
                    != e by {
                    assert(gone[i].entity != e);
                }
                assert(gone[gone.len() - 1].entity != e);
            }
        }
    }
}

/// When time passes, every client that was in step stays in step.
pub proof fn theorem_expiry_keeps_clients_in_step(
    w: WorldView,
    c: MirrorView,
    struck: Set<ServerEntity>,
    me: u64,
    elapsed: u64,
    deliveries: Seq<Delivery>,
)
    requires
        w.wf(),
        in_step(w, c, struck),
        carries(deliveries, received(me, w.expiry_messages(elapsed))),
    ensures
        in_step(w.after_elapsed(elapsed), c.after_messages(deliveries), struck),
{
    let after = w.after_elapsed(elapsed);
    let alive = |p: ProjectileRecord| p.outlives(elapsed);
    let dead = |p: ProjectileRecord| !p.outlives(elapsed);
    let gone = w.projectiles.filter(dead);
    let last = c.after_messages(deliveries);
    lemma_elapsed(w, elapsed);
    lemma_same_identities(w, after);
    lemma_farewells_received(me, gone);
    lemma_told_of_despawns(c, deliveries, gone);
    assert forall|other: u64| #[trigger] last.lobby.contains_key(other) implies {
        &&& after.has_client(other)
        &&& last.lobby[other].server_entity == after.lobby()[other]
        &&& last.mapping.contains_key(after.lobby()[other]) ==> last.mapping[after.lobby()[other]]
                == last.lobby[other].client_entity
    } by {
        assert(c.lobby.contains_key(other));
    }
    assert forall|other: u64| #[trigger]
        after.has_client(other) && !struck.contains(
            after.lobby()[other],
        ) implies last.mapping.contains_key(after.lobby()[other]) by {
        let held = w.lobby()[other];
        lemma_lobby_entity(w, other);
        assert(w.has_client(other));
        assert(c.mapping.contains_key(held));
        assert forall|i: int| 0 <= i < gone.len() implies (#[trigger] gone[i]).entity != held by {
            let k = lemma_filter_member(w.projectiles, dead, i);
            assert(w.projectiles[k].entity == gone[i].entity);
        }
    }
    assert forall|e: ServerEntity| #[trigger] last.mapping.contains_key(e) implies after.has_player(
        e,
    ) || after.has_projectile(e) by {
        assert(c.mapping.contains_key(e));
        if !w.has_player(e) {
            let k = w.projectile_index(e);
            if dead(w.projectiles[k]) {
                let i = lemma_filter_keeps(w.projectiles, dead, k);
                assert(gone[i].entity == e);
            } else {
                let j = lemma_filter_keeps(w.projectiles, alive, k);
                assert(after.projectiles[j].entity == e);
            }
        }
    }
}

proof fn lemma_farewells_received(me: u64, gone: Seq<ProjectileRecord>)
    ensures
        received(
            me,
            gone.map_values(
                |p: ProjectileRecord|
                    Outbound::broadcast(ServerMessage::DespawnProjectile { entity: p.entity }),
            ),
        ) == gone.map_values(
            |p: ProjectileRecord| ServerMessage::DespawnProjectile { entity: p.entity },
        ),
    decreases gone.len(),
{
    let farewell = |p: ProjectileRecord|
        Outbound::broadcast(ServerMessage::DespawnProjectile { entity: p.entity });
    let notice = |p: ProjectileRecord| ServerMessage::DespawnProjectile { entity: p.entity };
    if gone.len() == 0 {
        assert(gone.map_values(farewell) =~= Seq::<Outbound>::empty());
        lemma_received_nothing(me);
        assert(gone.map_values(notice) =~= Seq::<ServerMessage>::empty());
    } else {
        let rest = gone.drop_last();
        lemma_farewells_received(me, rest);
        assert(gone.map_values(farewell) =~= rest.map_values(farewell).push(
            farewell(gone.last()),
        ));
        lemma_received_push(me, rest.map_values(farewell), farewell(gone.last()));
        assert(gone.map_values(notice) =~= rest.map_values(notice).push(notice(gone.last())));
    }
}

/// The players of which a client was told that they were hit, after an
/// overlap was reported: a hit adds the player that was struck.
pub open spec fn struck_after(
    w: WorldView,
    struck: Set<ServerEntity>,
    overlap: Overlap,
) -> Set<ServerEntity> {
    if w.is_hit(overlap) {
        struck.insert(overlap.player)
    } else {
        struck
    }
}

/// When an overlap is reported, every client that was in step stays in
/// step. After a hit the client knows neither the projectile nor the player
/// that was struck, so it passes over what later snapshots say of them,
/// though the server keeps the player's record.
pub proof fn theorem_overlap_keeps_clients_in_step(
    w: WorldView,
    c: MirrorView,
    struck: Set<ServerEntity>,
    me: u64,
    overlap: Overlap,
    deliveries: Seq<Delivery>,
)
    requires
        w.wf(),
        in_step(w, c, struck),
        carries(deliveries, received(me, w.overlap_messages(overlap))),
    ensures
        in_step(
            w.after_overlap(overlap),
            c.after_messages(deliveries),
            struck_after(w, struck, overlap),
        ),
        w.is_hit(overlap) ==> {
            &&& w.after_overlap(overlap).has_player(overlap.player)
            &&& !c.after_messages(deliveries).mapping.contains_key(overlap.player)
            &&& !c.after_messages(deliveries).mapping.contains_key(overlap.projectile)
            &&& c.after_messages(deliveries).lobby == c.lobby
        },
{
    let after = w.after_overlap(overlap);
    lemma_overlap(w, overlap);
    lemma_same_identities(w, after);
    lemma_received_nothing(me);
    if w.is_hit(overlap) {
        let gone = ServerMessage::DespawnProjectile { entity: overlap.projectile };
        let hit = ServerMessage::DespawnPlayer { entity: overlap.player };
        let others = |p: ProjectileRecord| p.entity != overlap.projectile;
        assert(w.overlap_messages(overlap) =~= Seq::<Outbound>::empty().push(
            Outbound::broadcast(gone),
        ).push(Outbound::broadcast(hit)));
        lemma_received_push(me, Seq::empty(), Outbound::broadcast(gone));
        lemma_received_push(
            me,
            Seq::<Outbound>::empty().push(Outbound::broadcast(gone)),
            Outbound::broadcast(hit),
        );
        lemma_carries_push(deliveries, Seq::<ServerMessage>::empty().push(gone), hit);
        lemma_carries_push(deliveries.drop_last(), Seq::empty(), gone);
        lemma_carries_nothing(deliveries.drop_last().drop_last());
        let first = c.after_messages(deliveries.drop_last());
        let last = c.after_messages(deliveries);
        assert(c.after_messages(deliveries.drop_last().drop_last()) == c);
        assert(first == c.after_message(gone, deliveries.drop_last().last().fresh));
        assert(last == first.after_message(hit, deliveries.last().fresh));
        assert(last.mapping == c.mapping.remove(overlap.projectile).remove(overlap.player));
        assert forall|other: u64| #[trigger] last.lobby.contains_key(other) implies {
            &&& after.has_client(other)
            &&& last.lobby[other].server_entity == after.lobby()[other]
            &&& last.mapping.contains_key(after.lobby()[other]) ==> last.mapping[after.lobby()[other]]
                == last.lobby[other].client_entity
        } by {
            lemma_lobby_entity(w, other);
            assert(c.lobby.contains_key(other));
        }
        assert forall|e: ServerEntity| #[trigger] last.mapping.contains_key(e) implies after.has_player(
            e,
        ) || after.has_projectile(e) by {
            assert(c.mapping.contains_key(e));
            if !w.has_player(e) {
                let k = w.projectile_index(e);
                let j = lemma_filter_keeps(w.projectiles, others, k);
                assert(after.projectiles[j].entity == e);
            }
        }
        assert forall|other: u64| #[trigger]
            after.has_client(other) && !struck.insert(overlap.player).contains(
                after.lobby()[other],
            ) implies last.mapping.contains_key(after.lobby()[other]) by {
            lemma_lobby_entity(w, other);
            assert(w.has_client(other));
            assert(c.mapping.contains_key(w.lobby()[other]));
        }
    } else {
        lemma_carries_nothing(deliveries);
    }
}

/// A client in step shows every player of a snapshot of which it was not
/// told that it was hit: each of them gets its placement.
pub proof fn theorem_client_in_step_places_every_player(
    w: WorldView,
    c: MirrorView,
    struck: Set<ServerEntity>,
    i: int,
)
    requires
        w.wf(),
        in_step(w, c, struck),
        0 <= i < w.players.len(),
        !struck.contains(w.players[i].entity),
    ensures
        w.snapshot_entities()[i] == w.players[i].entity,
        w.snapshot_transforms()[i] == w.players[i].transform,
        c.mapping.contains_key(w.players[i].entity),
        c.mapping[w.players[i].entity] == c.lobby[w.players[i].id].client_entity,
{
    lemma_client_index(w, i);
    assert(c.lobby.contains_key(w.players[i].id));
    assert(w.has_client(w.players[i].id));
}

} // verus!
