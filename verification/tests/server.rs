use blitz::network::{NetworkedEntities, PlayerCommand, ServerEntity, ServerMessage};
use blitz::player::{
    distance_covered, Displacement, PlayerInput, PlayerRecord, PARTS_PER_UNIT,
};
use blitz::projectile::{ProjectileRecord, PROJECTILE_LIFETIME};
use blitz::server::ServerWorld;
use blitz::transform::{Quat, Scalar, Transform, Vec2, Vec3};
use blitz::world::{ClientMessage, Inbound, Outbound, Overlap, Recipient, ServerEvent};

fn scalar(value: f32) -> Scalar {
    Scalar::from_bits(value.to_bits())
}

fn number(scalar: Scalar) -> f32 {
    f32::from_bits(scalar.to_bits())
}

fn units(parts: i128) -> f32 {
    (parts as f64 / PARTS_PER_UNIT as f64) as f32
}

fn entity(bits: u64) -> ServerEntity {
    ServerEntity { bits }
}

fn to_all(message: ServerMessage) -> Outbound {
    Outbound { recipient: Recipient::Everyone, message }
}

fn to_one(id: u64, message: ServerMessage) -> Outbound {
    Outbound { recipient: Recipient::Client(id), message }
}

fn attack() -> PlayerCommand {
    PlayerCommand::BasicAttack { cast_at: Vec2 { x: scalar(10.0), y: scalar(0.0) } }
}

fn lobby_keys(world: &ServerWorld) -> Vec<u64> {
    let mut keys: Vec<u64> = world.lobby().players.keys().copied().collect();
    keys.sort();
    keys
}

#[test]
fn new_world_is_empty() {
    let world = ServerWorld::new();
    assert!(world.players().is_empty());
    assert!(world.projectiles().is_empty());
    assert!(world.lobby().players.is_empty());
    assert_eq!(world.entities_left(), u64::MAX);
}

#[test]
fn first_client_gets_no_replay_and_is_announced_to_all() {
    let mut world = ServerWorld::new();
    let out = world.connect(11);
    assert_eq!(
        out,
        vec![to_all(ServerMessage::PlayerCreate { id: 11, entity: entity(0) })]
    );
    assert_eq!(world.players().len(), 1);
    assert_eq!(world.players()[0], PlayerRecord::joined(11, entity(0)));
}

#[test]
fn second_client_gets_replay_then_broadcast() {
    let mut world = ServerWorld::new();
    world.connect(11);
    let out = world.connect(22);
    assert_eq!(
        out,
        vec![
            to_one(22, ServerMessage::PlayerCreate { id: 11, entity: entity(0) }),
            to_all(ServerMessage::PlayerCreate { id: 22, entity: entity(1) }),
        ]
    );
    assert_eq!(lobby_keys(&world), vec![11, 22]);
    assert_eq!(world.lobby().players.get(&11), Some(&entity(0)));
    assert_eq!(world.lobby().players.get(&22), Some(&entity(1)));
}

#[test]
fn third_client_gets_replay_in_connection_order() {
    let mut world = ServerWorld::new();
    world.connect(5);
    world.connect(3);
    let out = world.connect(9);
    assert_eq!(
        out,
        vec![
            to_one(9, ServerMessage::PlayerCreate { id: 5, entity: entity(0) }),
            to_one(9, ServerMessage::PlayerCreate { id: 3, entity: entity(1) }),
            to_all(ServerMessage::PlayerCreate { id: 9, entity: entity(2) }),
        ]
    );
}

#[test]
fn joined_player_stands_at_spawn_point() {
    let mut world = ServerWorld::new();
    world.connect(1);
    let player = world.players()[0];
    assert_eq!(player.id, 1);
    assert_eq!(number(player.transform.translation.x), 0.0);
    assert_eq!(number(player.transform.translation.y), 0.0);
    assert_eq!(number(player.transform.translation.z), 0.0);
    assert_eq!(number(player.transform.scale.x), 0.5);
    assert_eq!(number(player.transform.scale.y), 0.5);
    assert_eq!(number(player.transform.scale.z), 1.0);
    assert_eq!(number(player.transform.rotation.w), 1.0);
    assert_eq!(number(player.transform.rotation.z), 0.0);
    assert_eq!(player.input, PlayerInput::default());
}

#[test]
fn connecting_twice_changes_nothing() {
    let mut world = ServerWorld::new();
    world.connect(11);
    let out = world.connect(11);
    assert!(out.is_empty());
    assert_eq!(world.players().len(), 1);
    assert_eq!(world.entities_left(), u64::MAX - 1);
    assert_eq!(lobby_keys(&world), vec![11]);
}

#[test]
fn disconnect_removes_player_and_tells_everyone() {
    let mut world = ServerWorld::new();
    world.connect(11);
    world.connect(22);
    world.connect(33);
    let out = world.disconnect(22);
    assert_eq!(out, vec![to_all(ServerMessage::PlayerDisconnected { id: 22 })]);
    assert_eq!(lobby_keys(&world), vec![11, 33]);
    assert_eq!(world.players().len(), 2);
    assert_eq!(world.players()[0].id, 11);
    assert_eq!(world.players()[1].id, 33);
}

#[test]
fn disconnect_of_unknown_client_is_still_announced() {
    let mut world = ServerWorld::new();
    world.connect(11);
    let out = world.disconnect(99);
    assert_eq!(out, vec![to_all(ServerMessage::PlayerDisconnected { id: 99 })]);
    assert_eq!(lobby_keys(&world), vec![11]);
    assert_eq!(world.players().len(), 1);
}

#[test]
fn identities_are_never_used_twice() {
    let mut world = ServerWorld::new();
    world.connect(11);
    world.disconnect(11);
    let out = world.connect(11);
    assert_eq!(
        out,
        vec![to_all(ServerMessage::PlayerCreate { id: 11, entity: entity(1) })]
    );
    let shot = world.basic_attack(11);
    assert_eq!(shot.len(), 1);
    assert_eq!(world.projectiles()[0].entity, entity(2));
}

#[test]
fn lobby_keys_follow_connect_and_disconnect_events() {
    let mut world = ServerWorld::new();
    let events = vec![
        ServerEvent::ClientConnected(1),
        ServerEvent::ClientConnected(2),
        ServerEvent::ClientDisconnected(1),
        ServerEvent::ClientConnected(3),
        ServerEvent::ClientConnected(2),
        ServerEvent::ClientDisconnected(7),
        ServerEvent::ClientDisconnected(3),
        ServerEvent::ClientConnected(1),
    ];
    let mut open: Vec<u64> = Vec::new();
    for event in events {
        match event {
            ServerEvent::ClientConnected(id) => {
                if !open.contains(&id) {
                    open.push(id);
                }
            }
            ServerEvent::ClientDisconnected(id) => open.retain(|other| *other != id),
        }
        world.handle_event(event);
        let mut expected = open.clone();
        expected.sort();
        assert_eq!(lobby_keys(&world), expected);
    }
    assert_eq!(lobby_keys(&world), vec![1, 2]);
}

#[test]
fn last_input_wins() {
    let mut world = ServerWorld::new();
    world.connect(11);
    world.connect(22);
    let first = PlayerInput { left: true, ..PlayerInput::default() };
    let second = PlayerInput {
        right: true,
        mouse: Vec2 { x: scalar(3.0), y: scalar(4.0) },
        ..PlayerInput::default()
    };
    world.receive_input(11, first);
    world.receive_input(11, second);
    assert_eq!(world.players()[0].input, second);
    assert_eq!(world.players()[1].input, PlayerInput::default());
}

#[test]
fn input_of_unknown_client_is_dropped() {
    let mut world = ServerWorld::new();
    world.connect(11);
    world.receive_input(99, PlayerInput { up: true, ..PlayerInput::default() });
    assert_eq!(world.players()[0], PlayerRecord::joined(11, entity(0)));
}

#[test]
fn axis_deltas_of_every_key_combination() {
    for bits in 0u8..16 {
        let input = PlayerInput {
            up: bits & 1 != 0,
            down: bits & 2 != 0,
            left: bits & 4 != 0,
            right: bits & 8 != 0,
            ..PlayerInput::default()
        };
        assert_eq!(input.horizontal(), input.right as i8 - input.left as i8);
        assert_eq!(input.vertical(), input.down as i8 - input.up as i8);
    }
}

#[test]
fn player_moving_right_for_one_second_is_at_200() {
    let mut world = ServerWorld::new();
    world.connect(11);
    world.receive_input(11, PlayerInput { right: true, ..PlayerInput::default() });
    let player = world.players()[0];
    let one_second: u64 = 1_000_000_000;
    let moved = player.input.displacement(one_second);
    assert_eq!(moved, Displacement { x: 200 * PARTS_PER_UNIT as i128, y: 0 });
    let x = number(player.transform.translation.x) + units(moved.x);
    let y = number(player.transform.translation.y) + units(moved.y);
    let placed = Transform {
        translation: Vec3 { x: scalar(x), y: scalar(y), z: player.transform.translation.z },
        ..player.transform
    };
    assert!(world.place(player.entity, placed));
    let after = world.players()[0];
    assert_eq!(number(after.transform.translation.x), 200.0);
    assert_eq!(number(after.transform.translation.y), 0.0);
    assert_eq!(after.transform.rotation, player.transform.rotation);
    assert_eq!(after.input, player.input);
}

#[test]
fn displacement_is_axis_times_speed_times_time() {
    let half_second: u64 = 500_000_000;
    let down_left = PlayerInput { down: true, left: true, ..PlayerInput::default() };
    assert_eq!(
        down_left.displacement(half_second),
        Displacement { x: -100_000_000_000, y: 100_000_000_000 }
    );
    let up = PlayerInput { up: true, ..PlayerInput::default() };
    assert_eq!(up.displacement(half_second), Displacement { x: 0, y: -100_000_000_000 });
    let both = PlayerInput { left: true, right: true, ..PlayerInput::default() };
    assert_eq!(both.displacement(half_second), Displacement { x: 0, y: 0 });
    assert_eq!(down_left.displacement(0), Displacement { x: 0, y: 0 });
    let longest = PlayerInput { right: true, ..PlayerInput::default() }.displacement(u64::MAX);
    assert_eq!(longest.x, 200 * u64::MAX as i128);
    assert_eq!(distance_covered(1_500_000_000), 300_000_000_000);
    assert_eq!(distance_covered(0), 0);
    assert_eq!(units(distance_covered(1_500_000_000) as i128), 300.0);
}

#[test]
fn place_reaches_players_and_projectiles_only() {
    let mut world = ServerWorld::new();
    world.connect(11);
    world.connect(22);
    world.basic_attack(11);
    let target = Transform {
        translation: Vec3 { x: scalar(7.0), y: scalar(-2.0), z: scalar(0.0) },
        rotation: Quat { x: scalar(0.0), y: scalar(0.0), z: scalar(1.0), w: scalar(0.0) },
        scale: Vec3::sprite_scale(),
    };
    assert!(world.place(entity(2), target));
    assert_eq!(world.projectiles()[0].transform, target);
    assert_eq!(world.projectiles()[0].owner, entity(0));
    assert_eq!(world.players()[0].transform, Transform::player_spawn());
    assert!(world.place(entity(1), target));
    assert_eq!(world.players()[1].transform, target);
    assert_eq!(world.players()[0].transform, Transform::player_spawn());
    assert!(!world.place(entity(40), target));
    assert_eq!(world.players()[1].transform, target);
}

#[test]
fn basic_attack_spawns_projectile_at_caster() {
    let mut world = ServerWorld::new();
    world.connect(11);
    let facing = Transform {
        translation: Vec3 { x: scalar(0.0), y: scalar(0.0), z: scalar(0.0) },
        rotation: Quat { x: scalar(0.0), y: scalar(0.0), z: scalar(0.6), w: scalar(0.8) },
        scale: Vec3::sprite_scale(),
    };
    world.place(entity(0), facing);
    let out = world.handle_message(Inbound {
        client_id: 11,
        message: ClientMessage::Command(attack()),
    });
    assert_eq!(
        out,
        vec![to_all(ServerMessage::SpawnProjectile {
            entity: entity(1),
            transform: Vec2 { x: scalar(0.0), y: scalar(0.0) },
            rotation: facing.rotation,
        })]
    );
    assert_eq!(
        world.projectiles().clone(),
        vec![ProjectileRecord {
            entity: entity(1),
            owner: entity(0),
            transform: facing,
            lifetime: 1_500_000_000,
        }]
    );
    assert_eq!(PROJECTILE_LIFETIME, 1_500_000_000);
}

#[test]
fn basic_attack_of_unknown_client_casts_nothing() {
    let mut world = ServerWorld::new();
    world.connect(11);
    let out = world.basic_attack(99);
    assert!(out.is_empty());
    assert!(world.projectiles().is_empty());
    assert_eq!(world.entities_left(), u64::MAX - 1);
}

#[test]
fn two_attacks_in_one_tick_spawn_two_projectiles() {
    let mut world = ServerWorld::new();
    let events = vec![ServerEvent::ClientConnected(11)];
    let inbox = vec![
        Inbound { client_id: 11, message: ClientMessage::Command(attack()) },
        Inbound { client_id: 11, message: ClientMessage::Command(attack()) },
    ];
    let out = world.server_update(&events, &inbox);
    assert_eq!(out.len(), 3);
    assert_eq!(world.projectiles().len(), 2);
    assert_eq!(world.projectiles()[0].entity, entity(1));
    assert_eq!(world.projectiles()[1].entity, entity(2));
    assert_eq!(world.projectiles()[0].owner, entity(0));
    assert_eq!(world.projectiles()[1].owner, entity(0));
}

#[test]
fn server_update_takes_events_before_messages() {
    let mut world = ServerWorld::new();
    world.connect(11);
    let pressed = PlayerInput { down: true, ..PlayerInput::default() };
    let events = vec![ServerEvent::ClientConnected(22), ServerEvent::ClientDisconnected(11)];
    let inbox = vec![
        Inbound { client_id: 22, message: ClientMessage::Input(pressed) },
        Inbound { client_id: 11, message: ClientMessage::Command(attack()) },
        Inbound { client_id: 22, message: ClientMessage::Command(attack()) },
    ];
    let out = world.server_update(&events, &inbox);
    assert_eq!(
        out,
        vec![
            to_one(22, ServerMessage::PlayerCreate { id: 11, entity: entity(0) }),
            to_all(ServerMessage::PlayerCreate { id: 22, entity: entity(1) }),
            to_all(ServerMessage::PlayerDisconnected { id: 11 }),
            to_all(ServerMessage::SpawnProjectile {
                entity: entity(2),
                transform: Vec2::zero(),
                rotation: Quat::identity(),
            }),
        ]
    );
    assert_eq!(lobby_keys(&world), vec![22]);
    assert_eq!(world.players()[0].input, pressed);
    assert_eq!(world.projectiles().len(), 1);
    assert_eq!(world.projectiles()[0].owner, entity(1));
}

#[test]
fn projectile_lifetime_goes_down_each_tick() {
    let mut world = ServerWorld::new();
    world.connect(11);
    world.basic_attack(11);
    let mut last = world.projectiles()[0].lifetime;
    for _ in 0..5 {
        let out = world.update_projectiles(100_000_000);
        assert!(out.is_empty());
        let now = world.projectiles()[0].lifetime;
        assert!(now < last);
        assert_eq!(now, last - 100_000_000);
        last = now;
    }
    assert_eq!(last, 1_000_000_000);
}

#[test]
fn no_time_passing_changes_no_lifetime() {
    let mut world = ServerWorld::new();
    world.connect(11);
    world.basic_attack(11);
    let out = world.update_projectiles(0);
    assert!(out.is_empty());
    assert_eq!(world.projectiles()[0].lifetime, PROJECTILE_LIFETIME);
}

#[test]
fn projectile_expires_after_its_lifetime_with_one_despawn() {
    let mut world = ServerWorld::new();
    world.connect(11);
    world.basic_attack(11);
    let mut despawns: Vec<Outbound> = Vec::new();
    for _ in 0..15 {
        let mut out = world.update_projectiles(100_000_000);
        despawns.append(&mut out);
    }
    assert_eq!(despawns, vec![to_all(ServerMessage::DespawnProjectile { entity: entity(1) })]);
    assert!(world.projectiles().is_empty());
    let later = world.update_projectiles(100_000_000);
    assert!(later.is_empty());
}

#[test]
fn projectile_survives_until_the_last_nanosecond() {
    let mut world = ServerWorld::new();
    world.connect(11);
    world.basic_attack(11);
    let out = world.update_projectiles(PROJECTILE_LIFETIME - 1);
    assert!(out.is_empty());
    assert_eq!(world.projectiles()[0].lifetime, 1);
    let out = world.update_projectiles(1);
    assert_eq!(out, vec![to_all(ServerMessage::DespawnProjectile { entity: entity(1) })]);
    assert!(world.projectiles().is_empty());
}

#[test]
fn expiry_keeps_younger_projectiles_in_order() {
    let mut world = ServerWorld::new();
    world.connect(11);
    world.basic_attack(11);
    world.update_projectiles(1_000_000_000);
    world.basic_attack(11);
    world.update_projectiles(400_000_000);
    world.basic_attack(11);
    let out = world.update_projectiles(u64::MAX);
    assert_eq!(
        out,
        vec![
            to_all(ServerMessage::DespawnProjectile { entity: entity(1) }),
            to_all(ServerMessage::DespawnProjectile { entity: entity(2) }),
            to_all(ServerMessage::DespawnProjectile { entity: entity(3) }),
        ]
    );
    assert!(world.projectiles().is_empty());
}

#[test]
fn expiry_removes_only_the_old_projectile() {
    let mut world = ServerWorld::new();
    world.connect(11);
    world.basic_attack(11);
    world.update_projectiles(1_000_000_000);
    world.basic_attack(11);
    let out = world.update_projectiles(500_000_000);
    assert_eq!(out, vec![to_all(ServerMessage::DespawnProjectile { entity: entity(1) })]);
    assert_eq!(world.projectiles().len(), 1);
    assert_eq!(world.projectiles()[0].entity, entity(2));
    assert_eq!(world.projectiles()[0].lifetime, 1_000_000_000);
}

#[test]
fn projectile_never_hits_its_owner() {
    let mut world = ServerWorld::new();
    world.connect(11);
    world.basic_attack(11);
    let out = world.projectile_hit_player(&vec![Overlap {
        projectile: entity(1),
        player: entity(0),
    }]);
    assert!(out.is_empty());
    assert_eq!(world.projectiles().len(), 1);
}

#[test]
fn hit_despawns_projectile_and_player_once() {
    let mut world = ServerWorld::new();
    world.connect(11);
    world.connect(22);
    world.basic_attack(11);
    let out = world.projectile_hit_player(&vec![
        Overlap { projectile: entity(2), player: entity(0) },
        Overlap { projectile: entity(2), player: entity(1) },
    ]);
    assert_eq!(
        out,
        vec![
            to_all(ServerMessage::DespawnProjectile { entity: entity(2) }),
            to_all(ServerMessage::DespawnPlayer { entity: entity(1) }),
        ]
    );
    assert!(world.projectiles().is_empty());
    assert_eq!(world.players().len(), 2);
    let snapshot = world.server_sync_entities();
    assert_eq!(snapshot.entities, vec![entity(0), entity(1)]);
    let expired = world.update_projectiles(PROJECTILE_LIFETIME);
    assert!(expired.is_empty());
}

#[test]
fn projectile_over_two_players_hits_the_first_only() {
    let mut world = ServerWorld::new();
    world.connect(11);
    world.connect(22);
    world.connect(33);
    world.basic_attack(11);
    let out = world.projectile_hit_player(&vec![
        Overlap { projectile: entity(3), player: entity(2) },
        Overlap { projectile: entity(3), player: entity(1) },
    ]);
    assert_eq!(
        out,
        vec![
            to_all(ServerMessage::DespawnProjectile { entity: entity(3) }),
            to_all(ServerMessage::DespawnPlayer { entity: entity(2) }),
        ]
    );
}

#[test]
fn overlap_with_unknown_entities_is_no_hit() {
    let mut world = ServerWorld::new();
    world.connect(11);
    world.connect(22);
    world.basic_attack(11);
    assert!(world
        .register_overlap(Overlap { projectile: entity(9), player: entity(1) })
        .is_empty());
    assert!(world
        .register_overlap(Overlap { projectile: entity(2), player: entity(9) })
        .is_empty());
    assert!(world
        .register_overlap(Overlap { projectile: entity(2), player: entity(2) })
        .is_empty());
    assert_eq!(world.projectiles().len(), 1);
}

#[test]
fn projectile_of_a_player_that_left_still_flies_and_hits() {
    let mut world = ServerWorld::new();
    world.connect(11);
    world.connect(22);
    world.basic_attack(11);
    world.disconnect(11);
    assert_eq!(world.projectiles().len(), 1);
    let out = world.register_overlap(Overlap { projectile: entity(2), player: entity(1) });
    assert_eq!(out.len(), 2);
    assert!(world.projectiles().is_empty());
}

#[test]
fn snapshot_lists_players_then_projectiles() {
    let mut world = ServerWorld::new();
    world.connect(11);
    world.basic_attack(11);
    world.connect(22);
    let moved = Transform {
        translation: Vec3 { x: scalar(1.5), y: scalar(2.5), z: scalar(0.0) },
        ..Transform::player_spawn()
    };
    world.place(entity(2), moved);
    let snapshot = world.server_sync_entities();
    assert_eq!(
        snapshot,
        NetworkedEntities {
            entities: vec![entity(0), entity(2), entity(1)],
            transforms: vec![Transform::player_spawn(), moved, Transform::player_spawn()],
        }
    );
}

#[test]
fn snapshot_of_empty_world_is_empty() {
    let world = ServerWorld::new();
    let snapshot = world.server_sync_entities();
    assert_eq!(snapshot, NetworkedEntities::default());
    assert_eq!(snapshot.len(), 0);
}

#[test]
fn garbled_bytes_end_the_session_of_their_sender_only() {
    let mut world = ServerWorld::new();
    world.connect(11);
    world.connect(22);
    world.basic_attack(22);
    let others = world.players()[0];
    let shots = world.projectiles().clone();
    let out = world.decode_failed(22);
    assert_eq!(out, vec![to_all(ServerMessage::PlayerDisconnected { id: 22 })]);
    assert_eq!(world.players().clone(), vec![others]);
    assert_eq!(world.projectiles().clone(), shots);
    assert_eq!(lobby_keys(&world), vec![11]);
}

#[test]
fn after_garbled_bytes_nothing_of_the_sender_is_taken() {
    let mut world = ServerWorld::new();
    let events = vec![ServerEvent::ClientConnected(11), ServerEvent::ClientConnected(22)];
    let held = PlayerInput { left: true, ..PlayerInput::default() };
    let inbox = vec![
        Inbound { client_id: 22, message: ClientMessage::Command(attack()) },
        Inbound { client_id: 11, message: ClientMessage::Input(held) },
        Inbound { client_id: 22, message: ClientMessage::Garbled },
        Inbound { client_id: 22, message: ClientMessage::Command(attack()) },
        Inbound { client_id: 22, message: ClientMessage::Input(held) },
        Inbound { client_id: 11, message: ClientMessage::Command(attack()) },
    ];
    let out = world.server_update(&events, &inbox);
    assert_eq!(ServerWorld::sessions_to_end(&inbox), vec![22]);
    assert_eq!(
        out[3..].to_vec(),
        vec![
            to_all(ServerMessage::SpawnProjectile {
                entity: entity(2),
                transform: Vec2::zero(),
                rotation: Quat::identity(),
            }),
            to_all(ServerMessage::PlayerDisconnected { id: 22 }),
            to_all(ServerMessage::SpawnProjectile {
                entity: entity(3),
                transform: Vec2::zero(),
                rotation: Quat::identity(),
            }),
        ]
    );
    assert_eq!(lobby_keys(&world), vec![11]);
    assert_eq!(world.players().len(), 1);
    assert_eq!(world.players()[0].input, held);
    assert_eq!(world.projectiles().len(), 2);
    assert_eq!(world.projectiles()[0].owner, entity(1));
    assert_eq!(world.projectiles()[1].owner, entity(0));
}

#[test]
fn sessions_to_end_are_the_senders_of_garbled_bytes() {
    let inbox = vec![
        Inbound { client_id: 5, message: ClientMessage::Garbled },
        Inbound { client_id: 6, message: ClientMessage::Input(PlayerInput::default()) },
        Inbound { client_id: 7, message: ClientMessage::Garbled },
        Inbound { client_id: 5, message: ClientMessage::Garbled },
    ];
    assert_eq!(ServerWorld::sessions_to_end(&inbox), vec![5, 7, 5]);
    assert!(ServerWorld::sessions_to_end(&vec![]).is_empty());
}

#[test]
fn garbled_bytes_of_an_unknown_client_change_no_record() {
    let mut world = ServerWorld::new();
    world.connect(11);
    let out = world.handle_message(Inbound { client_id: 99, message: ClientMessage::Garbled });
    assert_eq!(out, vec![to_all(ServerMessage::PlayerDisconnected { id: 99 })]);
    assert_eq!(world.players().len(), 1);
}
