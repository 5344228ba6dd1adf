use blitz::client::{
    ClientWorld, Delivery, MirrorChange, NetworkMapping, PlayerInfo, TransformUpdate,
};
use blitz::network::{LocalEntity, NetworkedEntities, ServerEntity, ServerMessage};
use blitz::server::ServerWorld;
use blitz::transform::{Quat, Scalar, Transform, Vec2, Vec3};
use blitz::world::{Outbound, Overlap, Recipient};
use std::collections::HashMap;

fn scalar_of(value: f32) -> Scalar {
    Scalar::from_bits(value.to_bits())
}

fn server(bits: u64) -> ServerEntity {
    ServerEntity { bits }
}

fn local(bits: u64) -> LocalEntity {
    LocalEntity { bits }
}

fn at(x: f32, y: f32) -> Transform {
    Transform {
        translation: Vec3 { x: scalar_of(x), y: scalar_of(y), z: scalar_of(0.0) },
        ..Transform::player_spawn()
    }
}

fn show(mirror: &mut HashMap<LocalEntity, Transform>, updates: &Vec<TransformUpdate>) {
    for update in updates {
        mirror.insert(update.entity, update.transform);
    }
}

fn deliver(client: &mut ClientWorld, id: u64, sent: &Vec<Outbound>, next: &mut u64) {
    for outbound in sent {
        let meant = match outbound.recipient {
            Recipient::Everyone => true,
            Recipient::Client(to) => to == id,
        };
        if meant {
            client.apply_message(outbound.message, local(*next));
            *next += 1;
        }
    }
}

#[test]
fn mapping_insert_then_lookup() {
    let mut mapping = NetworkMapping::new();
    assert_eq!(mapping.lookup(server(1)), None);
    assert_eq!(mapping.insert(server(1), local(10)), None);
    assert_eq!(mapping.lookup(server(1)), Some(local(10)));
    assert_eq!(mapping.lookup(server(2)), None);
}

#[test]
fn mapping_insert_twice_lets_the_later_win() {
    let mut mapping = NetworkMapping::new();
    mapping.insert(server(1), local(10));
    assert_eq!(mapping.insert(server(1), local(11)), Some(local(10)));
    assert_eq!(mapping.lookup(server(1)), Some(local(11)));
}

#[test]
fn mapping_remove_returns_the_local_entity() {
    let mut mapping = NetworkMapping::new();
    mapping.insert(server(1), local(10));
    mapping.insert(server(2), local(20));
    assert_eq!(mapping.remove(server(1)), Some(local(10)));
    assert_eq!(mapping.lookup(server(1)), None);
    assert_eq!(mapping.lookup(server(2)), Some(local(20)));
}

#[test]
fn mapping_remove_of_absent_entity_does_nothing() {
    let mut mapping = NetworkMapping::new();
    mapping.insert(server(2), local(20));
    assert_eq!(mapping.remove(server(1)), None);
    assert_eq!(mapping.lookup(server(2)), Some(local(20)));
}

#[test]
fn mapping_tells_entities_apart_by_all_their_bits() {
    let mut mapping = NetworkMapping::new();
    mapping.insert(server(1), local(10));
    mapping.insert(server(1 << 32 | 1), local(20));
    assert_eq!(mapping.lookup(server(1)), Some(local(10)));
    assert_eq!(mapping.lookup(server(1 << 32 | 1)), Some(local(20)));
}

#[test]
fn player_create_enters_lobby_and_mapping() {
    let mut client = ClientWorld::new();
    let change =
        client.apply_message(ServerMessage::PlayerCreate { id: 7, entity: server(3) }, local(30));
    assert_eq!(
        change,
        MirrorChange::SpawnPlayer {
            entity: local(30),
            transform: Transform::player_spawn(),
            replaced: None,
        }
    );
    assert_eq!(
        client.lobby.players.get(&7),
        Some(&PlayerInfo { client_entity: local(30), server_entity: server(3) })
    );
    assert_eq!(client.mapping.lookup(server(3)), Some(local(30)));
}

#[test]
fn duplicate_player_create_overwrites_and_reports() {
    let mut client = ClientWorld::new();
    client.apply_message(ServerMessage::PlayerCreate { id: 7, entity: server(3) }, local(30));
    let change =
        client.apply_message(ServerMessage::PlayerCreate { id: 7, entity: server(3) }, local(31));
    assert_eq!(
        change,
        MirrorChange::SpawnPlayer {
            entity: local(31),
            transform: Transform::player_spawn(),
            replaced: Some(local(30)),
        }
    );
    assert_eq!(client.mapping.lookup(server(3)), Some(local(31)));
    assert_eq!(client.lobby.players.len(), 1);
}

#[test]
fn player_disconnected_leaves_lobby_and_mapping() {
    let mut client = ClientWorld::new();
    client.apply_message(ServerMessage::PlayerCreate { id: 7, entity: server(3) }, local(30));
    client.apply_message(ServerMessage::PlayerCreate { id: 8, entity: server(4) }, local(31));
    let change = client.apply_message(ServerMessage::PlayerDisconnected { id: 7 }, local(32));
    assert_eq!(change, MirrorChange::Despawn { entity: local(30) });
    assert!(client.lobby.players.get(&7).is_none());
    assert_eq!(client.mapping.lookup(server(3)), None);
    assert_eq!(client.mapping.lookup(server(4)), Some(local(31)));
}

#[test]
fn disconnect_of_unknown_player_does_nothing() {
    let mut client = ClientWorld::new();
    client.apply_message(ServerMessage::PlayerCreate { id: 8, entity: server(4) }, local(31));
    let change = client.apply_message(ServerMessage::PlayerDisconnected { id: 7 }, local(32));
    assert_eq!(change, MirrorChange::Nothing);
    assert_eq!(client.lobby.players.len(), 1);
    assert_eq!(client.mapping.lookup(server(4)), Some(local(31)));
}

#[test]
fn spawn_projectile_is_mirrored_at_unit_scale() {
    let mut client = ClientWorld::new();
    let rotation = Quat { x: scalar_of(0.0), y: scalar_of(0.0), z: scalar_of(0.6), w: scalar_of(0.8) };
    let change = client.apply_message(
        ServerMessage::SpawnProjectile {
            entity: server(5),
            transform: Vec2 { x: scalar_of(12.0), y: scalar_of(-3.0) },
            rotation,
        },
        local(50),
    );
    assert_eq!(
        change,
        MirrorChange::SpawnProjectile {
            entity: local(50),
            transform: Transform {
                translation: Vec3 { x: scalar_of(12.0), y: scalar_of(-3.0), z: scalar_of(0.0) },
                rotation,
                scale: Vec3 { x: scalar_of(1.0), y: scalar_of(1.0), z: scalar_of(1.0) },
            },
            replaced: None,
        }
    );
    assert_eq!(client.mapping.lookup(server(5)), Some(local(50)));
    assert!(client.lobby.players.is_empty());
}

#[test]
fn despawn_projectile_forgets_the_entity() {
    let mut client = ClientWorld::new();
    client.apply_message(
        ServerMessage::SpawnProjectile {
            entity: server(5),
            transform: Vec2::zero(),
            rotation: Quat::identity(),
        },
        local(50),
    );
    let change =
        client.apply_message(ServerMessage::DespawnProjectile { entity: server(5) }, local(51));
    assert_eq!(change, MirrorChange::Despawn { entity: local(50) });
    assert_eq!(client.mapping.lookup(server(5)), None);
}

#[test]
fn despawn_before_create_is_no_fault() {
    let mut client = ClientWorld::new();
    let change =
        client.apply_message(ServerMessage::DespawnProjectile { entity: server(5) }, local(51));
    assert_eq!(change, MirrorChange::Nothing);
    assert_eq!(client.mapping.lookup(server(5)), None);
}

#[test]
fn despawn_player_forgets_the_entity_at_once() {
    let mut client = ClientWorld::new();
    client.apply_message(ServerMessage::PlayerCreate { id: 7, entity: server(3) }, local(30));
    client.apply_message(ServerMessage::PlayerCreate { id: 8, entity: server(4) }, local(31));
    let struck =
        client.apply_message(ServerMessage::DespawnPlayer { entity: server(3) }, local(32));
    assert_eq!(struck, MirrorChange::Despawn { entity: local(30) });
    assert_eq!(client.mapping.lookup(server(3)), None);
    assert_eq!(client.mapping.lookup(server(4)), Some(local(31)));
    assert_eq!(client.lobby.players.len(), 2);
    let snapshot = NetworkedEntities {
        entities: vec![server(3), server(4)],
        transforms: vec![at(1.0, 1.0), at(2.0, 2.0)],
    };
    assert_eq!(
        client.apply_snapshot(&snapshot),
        vec![TransformUpdate { entity: local(31), transform: at(2.0, 2.0) }]
    );
}

#[test]
fn despawn_of_unknown_player_does_nothing() {
    let mut client = ClientWorld::new();
    client.apply_message(ServerMessage::PlayerCreate { id: 7, entity: server(3) }, local(30));
    let change =
        client.apply_message(ServerMessage::DespawnPlayer { entity: server(9) }, local(31));
    assert_eq!(change, MirrorChange::Nothing);
    assert_eq!(client.mapping.lookup(server(3)), Some(local(30)));
}

#[test]
fn struck_player_is_despawned_once_only() {
    let mut client = ClientWorld::new();
    client.apply_message(ServerMessage::PlayerCreate { id: 7, entity: server(3) }, local(30));
    let first = client.apply_message(ServerMessage::DespawnPlayer { entity: server(3) }, local(31));
    assert_eq!(first, MirrorChange::Despawn { entity: local(30) });
    let again = client.apply_message(ServerMessage::DespawnPlayer { entity: server(3) }, local(32));
    assert_eq!(again, MirrorChange::Nothing);
    let left = client.apply_message(ServerMessage::PlayerDisconnected { id: 7 }, local(33));
    assert_eq!(left, MirrorChange::Nothing);
    assert!(client.lobby.players.is_empty());
    assert_eq!(client.mapping.lookup(server(3)), None);
}

#[test]
fn respawn_player_changes_nothing() {
    let mut client = ClientWorld::new();
    client.apply_message(ServerMessage::PlayerCreate { id: 7, entity: server(3) }, local(30));
    let back = client.apply_message(ServerMessage::RespawnPlayer { entity: server(3) }, local(32));
    assert_eq!(back, MirrorChange::Nothing);
    assert_eq!(client.mapping.lookup(server(3)), Some(local(30)));
    assert_eq!(client.lobby.players.len(), 1);
}

#[test]
fn sync_round_with_one_despawn_player() {
    let mut client = ClientWorld::new();
    client.apply_message(ServerMessage::PlayerCreate { id: 7, entity: server(3) }, local(30));
    let deliveries = vec![Delivery {
        message: ServerMessage::DespawnPlayer { entity: server(3) },
        fresh: local(31),
    }];
    let outcome = client.client_sync_players(&deliveries, &vec![]);
    assert_eq!(outcome.changes, vec![MirrorChange::Despawn { entity: local(30) }]);
    assert!(outcome.updates.is_empty());
    assert_eq!(client.mapping.lookup(server(3)), None);
    let later = NetworkedEntities { entities: vec![server(3)], transforms: vec![at(5.0, 5.0)] };
    assert!(client.apply_snapshot(&later).is_empty());
}

#[test]
fn snapshot_updates_known_entities_only() {
    let mut client = ClientWorld::new();
    client.apply_message(ServerMessage::PlayerCreate { id: 7, entity: server(3) }, local(30));
    let snapshot = NetworkedEntities {
        entities: vec![server(9), server(3), server(4)],
        transforms: vec![at(1.0, 1.0), at(2.0, 2.0), at(3.0, 3.0)],
    };
    let updates = client.apply_snapshot(&snapshot);
    assert_eq!(updates, vec![TransformUpdate { entity: local(30), transform: at(2.0, 2.0) }]);
}

#[test]
fn snapshot_for_unmapped_entities_is_a_no_op() {
    let client = ClientWorld::new();
    let snapshot = NetworkedEntities {
        entities: vec![server(1), server(2)],
        transforms: vec![at(1.0, 1.0), at(2.0, 2.0)],
    };
    let updates = client.apply_snapshot(&snapshot);
    assert!(updates.is_empty());
    assert!(client.lobby.players.is_empty());
    assert_eq!(client.mapping.lookup(server(1)), None);
    let mut mirror: HashMap<LocalEntity, Transform> = HashMap::new();
    mirror.insert(local(5), at(9.0, 9.0));
    let before = mirror.clone();
    show(&mut mirror, &updates);
    assert_eq!(mirror, before);
}

#[test]
fn applying_a_snapshot_twice_shows_the_same() {
    let mut client = ClientWorld::new();
    client.apply_message(ServerMessage::PlayerCreate { id: 7, entity: server(3) }, local(30));
    client.apply_message(ServerMessage::PlayerCreate { id: 8, entity: server(4) }, local(31));
    let snapshot = NetworkedEntities {
        entities: vec![server(3), server(4), server(3), server(8)],
        transforms: vec![at(1.0, 1.0), at(2.0, 2.0), at(5.0, 5.0), at(7.0, 7.0)],
    };
    let mut mirror: HashMap<LocalEntity, Transform> = HashMap::new();
    mirror.insert(local(30), at(0.0, 0.0));
    let first = client.apply_snapshot(&snapshot);
    show(&mut mirror, &first);
    let once = mirror.clone();
    let second = client.apply_snapshot(&snapshot);
    assert_eq!(first, second);
    show(&mut mirror, &second);
    assert_eq!(mirror, once);
    assert_eq!(mirror.get(&local(30)), Some(&at(5.0, 5.0)));
    assert_eq!(mirror.get(&local(31)), Some(&at(2.0, 2.0)));
    assert_eq!(mirror.len(), 2);
}

#[test]
fn snapshot_with_lists_of_different_length_uses_whole_entries() {
    let mut client = ClientWorld::new();
    client.apply_message(ServerMessage::PlayerCreate { id: 7, entity: server(3) }, local(30));
    client.apply_message(ServerMessage::PlayerCreate { id: 8, entity: server(4) }, local(31));
    let short = NetworkedEntities {
        entities: vec![server(3), server(4)],
        transforms: vec![at(1.0, 1.0)],
    };
    assert_eq!(short.len(), 1);
    assert_eq!(
        client.apply_snapshot(&short),
        vec![TransformUpdate { entity: local(30), transform: at(1.0, 1.0) }]
    );
    let long = NetworkedEntities {
        entities: vec![server(4)],
        transforms: vec![at(1.0, 1.0), at(2.0, 2.0)],
    };
    assert_eq!(
        client.apply_snapshot(&long),
        vec![TransformUpdate { entity: local(31), transform: at(1.0, 1.0) }]
    );
}

#[test]
fn sync_round_takes_messages_before_snapshots() {
    let mut client = ClientWorld::new();
    let deliveries = vec![
        Delivery {
            message: ServerMessage::PlayerCreate { id: 7, entity: server(3) },
            fresh: local(30),
        },
        Delivery {
            message: ServerMessage::SpawnProjectile {
                entity: server(4),
                transform: Vec2::zero(),
                rotation: Quat::identity(),
            },
            fresh: local(31),
        },
        Delivery { message: ServerMessage::DespawnProjectile { entity: server(4) }, fresh: local(32) },
        Delivery { message: ServerMessage::DespawnPlayer { entity: server(3) }, fresh: local(33) },
    ];
    let snapshots = vec![
        NetworkedEntities {
            entities: vec![server(3), server(4)],
            transforms: vec![at(1.0, 0.0), at(2.0, 0.0)],
        },
        NetworkedEntities { entities: vec![server(3)], transforms: vec![at(3.0, 0.0)] },
    ];
    let outcome = client.client_sync_players(&deliveries, &snapshots);
    assert_eq!(
        outcome.changes,
        vec![
            MirrorChange::SpawnPlayer {
                entity: local(30),
                transform: Transform::player_spawn(),
                replaced: None,
            },
            MirrorChange::SpawnProjectile {
                entity: local(31),
                transform: Transform::projectile_mirror(Vec2::zero(), Quat::identity()),
                replaced: None,
            },
            MirrorChange::Despawn { entity: local(31) },
            MirrorChange::Despawn { entity: local(30) },
        ]
    );
    assert!(outcome.updates.is_empty());
}

#[test]
fn sync_round_places_what_is_still_known() {
    let mut client = ClientWorld::new();
    let deliveries = vec![
        Delivery {
            message: ServerMessage::PlayerCreate { id: 7, entity: server(3) },
            fresh: local(30),
        },
        Delivery {
            message: ServerMessage::SpawnProjectile {
                entity: server(4),
                transform: Vec2::zero(),
                rotation: Quat::identity(),
            },
            fresh: local(31),
        },
        Delivery { message: ServerMessage::DespawnProjectile { entity: server(4) }, fresh: local(32) },
    ];
    let snapshots = vec![
        NetworkedEntities {
            entities: vec![server(3), server(4)],
            transforms: vec![at(1.0, 0.0), at(2.0, 0.0)],
        },
        NetworkedEntities { entities: vec![server(3)], transforms: vec![at(3.0, 0.0)] },
    ];
    let outcome = client.client_sync_players(&deliveries, &snapshots);
    assert_eq!(outcome.changes.len(), 3);
    assert_eq!(
        outcome.updates,
        vec![
            TransformUpdate { entity: local(30), transform: at(1.0, 0.0) },
            TransformUpdate { entity: local(30), transform: at(3.0, 0.0) },
        ]
    );
}

#[test]
fn clients_mirror_what_the_server_keeps() {
    let mut world = ServerWorld::new();
    let mut first = ClientWorld::new();
    let mut second = ClientWorld::new();
    let mut next: u64 = 100;

    let sent = world.connect(1);
    deliver(&mut first, 1, &sent, &mut next);
    let sent = world.connect(2);
    deliver(&mut first, 1, &sent, &mut next);
    deliver(&mut second, 2, &sent, &mut next);
    let sent = world.basic_attack(1);
    deliver(&mut first, 1, &sent, &mut next);
    deliver(&mut second, 2, &sent, &mut next);

    let snapshot = world.server_sync_entities();
    assert_eq!(first.apply_snapshot(&snapshot).len(), 3);
    assert_eq!(second.apply_snapshot(&snapshot).len(), 3);

    let sent = world.update_projectiles(2_000_000_000);
    deliver(&mut first, 1, &sent, &mut next);
    deliver(&mut second, 2, &sent, &mut next);
    let sent = world.disconnect(1);
    deliver(&mut second, 2, &sent, &mut next);

    let snapshot = world.server_sync_entities();
    let updates = second.apply_snapshot(&snapshot);
    assert_eq!(updates.len(), 1);
    assert_eq!(Some(updates[0].entity), second.mapping.lookup(server(1)));
    assert_eq!(second.mapping.lookup(server(0)), None);
    assert_eq!(second.mapping.lookup(server(2)), None);
    assert_eq!(second.lobby.players.len(), 1);
}

#[test]
fn client_stops_showing_a_player_that_was_hit() {
    let mut world = ServerWorld::new();
    let mut watcher = ClientWorld::new();
    let mut next: u64 = 100;
    let sent = world.connect(1);
    deliver(&mut watcher, 1, &sent, &mut next);
    let sent = world.connect(2);
    deliver(&mut watcher, 1, &sent, &mut next);
    let sent = world.basic_attack(1);
    deliver(&mut watcher, 1, &sent, &mut next);
    assert_eq!(watcher.apply_snapshot(&world.server_sync_entities()).len(), 3);

    let sent = world.register_overlap(Overlap { projectile: server(2), player: server(1) });
    deliver(&mut watcher, 1, &sent, &mut next);
    assert_eq!(world.players().len(), 2);
    assert_eq!(watcher.mapping.lookup(server(1)), None);
    assert_eq!(watcher.mapping.lookup(server(2)), None);
    assert_eq!(watcher.lobby.players.len(), 2);
    let updates = watcher.apply_snapshot(&world.server_sync_entities());
    assert_eq!(updates.len(), 1);
    assert_eq!(Some(updates[0].entity), watcher.mapping.lookup(server(0)));

    let sent = world.disconnect(2);
    deliver(&mut watcher, 1, &sent, &mut next);
    assert_eq!(watcher.lobby.players.len(), 1);
}
