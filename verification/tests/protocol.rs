use blitz::client::{ClientLobby, NetworkMapping};
use blitz::network::{
    client_connection_config, server_connection_config, ChannelConfig, ClientChannel,
    NetworkedEntities, PlayerCommand, ServerChannel, ServerEntity, ServerMessage, PROTOCOL_ID,
};
use blitz::player::{PlayerInput, PlayerRecord, PLAYER_MOVE_SPEED};
use blitz::projectile::{ProjectileRecord, HITBOX_SIZE};
use blitz::server::ServerLobby;
use blitz::transform::{Quat, Scalar, Transform, Vec2, Vec3, HALF_BITS, ONE_BITS, ZERO_BITS};

#[test]
fn protocol_constants() {
    assert_eq!(PROTOCOL_ID, 7);
    assert_eq!(PLAYER_MOVE_SPEED, 200);
    assert_eq!(HITBOX_SIZE, 64);
}

#[test]
fn client_channel_numbers() {
    assert_eq!(u8::from(ClientChannel::Command), 0);
    assert_eq!(u8::from(ClientChannel::Input), 1);
}

#[test]
fn server_channel_numbers() {
    assert_eq!(u8::from(ServerChannel::NetworkedEntities), 0);
    assert_eq!(u8::from(ServerChannel::ServerMessages), 1);
}

#[test]
fn client_channels_are_reliable_and_resent_at_once() {
    assert_eq!(
        ClientChannel::channels_config(),
        vec![
            ChannelConfig::Reliable { channel_id: 1, message_resend_millis: 0, ordered: true },
            ChannelConfig::Reliable { channel_id: 0, message_resend_millis: 0, ordered: true },
        ]
    );
}

#[test]
fn server_channels_split_snapshots_from_events() {
    assert_eq!(
        ServerChannel::channels_config(),
        vec![
            ChannelConfig::Unreliable { channel_id: 0, sequenced: true },
            ChannelConfig::Reliable { channel_id: 1, message_resend_millis: 200, ordered: true },
        ]
    );
}

#[test]
fn channel_config_knows_its_number() {
    assert_eq!(
        ChannelConfig::Reliable { channel_id: 4, message_resend_millis: 9, ordered: false }
            .channel_id(),
        4
    );
    assert_eq!(ChannelConfig::Unreliable { channel_id: 6, sequenced: false }.channel_id(), 6);
}

#[test]
fn connection_configs_mirror_each_other() {
    let client = client_connection_config();
    let server = server_connection_config();
    assert_eq!(client.send_channels_config, ClientChannel::channels_config());
    assert_eq!(client.receive_channels_config, ServerChannel::channels_config());
    assert_eq!(server.send_channels_config, client.receive_channels_config);
    assert_eq!(server.receive_channels_config, client.send_channels_config);
}

#[test]
fn scalar_constants_are_the_numbers_they_name() {
    assert_eq!(ZERO_BITS, 0.0f32.to_bits());
    assert_eq!(HALF_BITS, 0.5f32.to_bits());
    assert_eq!(ONE_BITS, 1.0f32.to_bits());
    assert_eq!(Scalar::zero().to_bits(), 0.0f32.to_bits());
    assert_eq!(Scalar::half().to_bits(), 0.5f32.to_bits());
    assert_eq!(Scalar::one().to_bits(), 1.0f32.to_bits());
    assert_eq!(Scalar::from_bits(200.0f32.to_bits()).to_bits(), 200.0f32.to_bits());
}

#[test]
fn vectors_and_rotations() {
    assert_eq!(Vec2::zero(), Vec2 { x: Scalar::zero(), y: Scalar::zero() });
    assert_eq!(Vec3::zero().truncate(), Vec2::zero());
    let point = Vec3 { x: Scalar::one(), y: Scalar::half(), z: Scalar::zero() };
    assert_eq!(point.truncate(), Vec2 { x: Scalar::one(), y: Scalar::half() });
    assert_eq!(
        Quat::identity(),
        Quat { x: Scalar::zero(), y: Scalar::zero(), z: Scalar::zero(), w: Scalar::one() }
    );
    assert_eq!(
        Vec3::sprite_scale(),
        Vec3 { x: Scalar::half(), y: Scalar::half(), z: Scalar::one() }
    );
    assert_eq!(
        Vec3::unit_scale(),
        Vec3 { x: Scalar::one(), y: Scalar::one(), z: Scalar::one() }
    );
}

#[test]
fn cast_projectile_takes_position_and_rotation_of_caster() {
    let caster = Transform {
        translation: point_of(3.0, 4.0),
        rotation: Quat { x: Scalar::zero(), y: Scalar::zero(), z: Scalar::one(), w: Scalar::zero() },
        scale: Vec3::unit_scale(),
    };
    let cast = Transform::cast_from(caster);
    assert_eq!(cast.translation, caster.translation);
    assert_eq!(cast.rotation, caster.rotation);
    assert_eq!(cast.scale, Vec3::sprite_scale());
}

fn point_of(x: f32, y: f32) -> Vec3 {
    Vec3 {
        x: Scalar::from_bits(x.to_bits()),
        y: Scalar::from_bits(y.to_bits()),
        z: Scalar::zero(),
    }
}

#[test]
fn idle_input_holds_no_key() {
    let input = PlayerInput::default();
    assert!(!input.up && !input.down && !input.left && !input.right && !input.space);
    assert_eq!(input.mouse, Vec2::zero());
    assert_eq!(input.horizontal(), 0);
    assert_eq!(input.vertical(), 0);
}

#[test]
fn opposite_keys_cancel() {
    let input = PlayerInput { left: true, right: true, up: true, down: true, ..PlayerInput::default() };
    assert_eq!(input.horizontal(), 0);
    assert_eq!(input.vertical(), 0);
    let left = PlayerInput { left: true, ..PlayerInput::default() };
    assert_eq!(left.horizontal(), -1);
    let up = PlayerInput { up: true, ..PlayerInput::default() };
    assert_eq!(up.vertical(), -1);
    let down = PlayerInput { down: true, ..PlayerInput::default() };
    assert_eq!(down.vertical(), 1);
}

#[test]
fn empty_snapshot_has_no_entries() {
    let snapshot = NetworkedEntities::new();
    assert!(snapshot.entities.is_empty());
    assert!(snapshot.transforms.is_empty());
    assert_eq!(snapshot.len(), 0);
}

#[test]
fn default_lobbies_and_mapping_are_empty() {
    assert!(ServerLobby::default().players.is_empty());
    assert!(ClientLobby::default().players.is_empty());
    assert_eq!(NetworkMapping::default().lookup(ServerEntity { bits: 0 }), None);
}

#[test]
fn projectile_ages_down_to_zero() {
    let caster = PlayerRecord::joined(4, ServerEntity { bits: 9 });
    let shot = ProjectileRecord::cast(ServerEntity { bits: 10 }, caster);
    assert_eq!(shot.owner, ServerEntity { bits: 9 });
    assert_eq!(shot.lifetime, 1_500_000_000);
    assert!(shot.outlives(1_499_999_999));
    assert!(!shot.outlives(1_500_000_000));
    assert_eq!(shot.aged(500_000_000).lifetime, 1_000_000_000);
    assert_eq!(shot.aged(1_500_000_000).lifetime, 0);
    assert_eq!(shot.aged(u64::MAX).lifetime, 0);
    assert_eq!(shot.aged(0), shot);
}

#[test]
fn each_kind_of_message_has_its_channel() {
    let created = ServerMessage::PlayerCreate { id: 1, entity: ServerEntity { bits: 2 } };
    assert_eq!(created.channel(), ServerChannel::ServerMessages);
    let gone = ServerMessage::DespawnProjectile { entity: ServerEntity { bits: 2 } };
    assert_eq!(gone.channel(), ServerChannel::ServerMessages);
    assert_eq!(NetworkedEntities::new().channel(), ServerChannel::NetworkedEntities);
    assert_eq!(PlayerInput::default().channel(), ClientChannel::Input);
    let attack = PlayerCommand::BasicAttack { cast_at: Vec2::zero() };
    assert_eq!(attack.channel(), ClientChannel::Command);
}

#[test]
fn channels_are_set_up_under_their_own_numbers() {
    for config in ServerChannel::channels_config() {
        match config {
            ChannelConfig::Reliable { channel_id, ordered, .. } => {
                assert_eq!(channel_id, u8::from(ServerChannel::ServerMessages));
                assert!(ordered);
            }
            ChannelConfig::Unreliable { channel_id, sequenced } => {
                assert_eq!(channel_id, u8::from(ServerChannel::NetworkedEntities));
                assert!(sequenced);
            }
        }
    }
    let client = ClientChannel::channels_config();
    assert_eq!(client[0].channel_id(), u8::from(ClientChannel::Input));
    assert_eq!(client[1].channel_id(), u8::from(ClientChannel::Command));
}
