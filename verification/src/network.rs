//! The wire protocol: who an entity is, what travels in each direction, and
//! on which channel.

use vstd::prelude::*;
use vstd::std_specs::convert::FromSpecImpl;
use crate::transform::{Quat, Transform, Vec2};

verus! {

/// Version of the protocol; both ends of a connection must agree on it.
pub const PROTOCOL_ID: u64 = 7;

/// Identity of an entity as the server assigns it. Only values of this type
/// travel on the wire.
#[derive(Clone, Copy, Debug, PartialEq, Eq, Structural, Hash)]
pub struct ServerEntity {
    pub bits: u64,
}

/// Handle of an entity in one client's own world. It never leaves that
/// client.
#[derive(Clone, Copy, Debug, PartialEq, Eq, Structural, Hash)]
pub struct LocalEntity {
    pub bits: u64,
}

/// What a client asks the server to do for its player.
#[derive(Clone, Copy, Debug, PartialEq, Eq, Structural)]
pub enum PlayerCommand {
    /// Cast the basic attack while aiming at `cast_at`.
    BasicAttack { cast_at: Vec2 },
}

/// A structural event that the server announces. Each one must arrive.
#[derive(Clone, Copy, Debug, PartialEq, Eq, Structural)]
pub enum ServerMessage {
    PlayerCreate { id: u64, entity: ServerEntity },
    PlayerDisconnected { id: u64 },
    SpawnProjectile { entity: ServerEntity, transform: Vec2, rotation: Quat },
    DespawnProjectile { entity: ServerEntity },
    DespawnPlayer { entity: ServerEntity },
    RespawnPlayer { entity: ServerEntity },
}

/// One snapshot of the world: the placement of every entity that the server keeps, as two
/// parallel lists.
#[derive(Clone, Debug, PartialEq, Eq)]
pub struct NetworkedEntities {
    pub entities: Vec<ServerEntity>,
    pub transforms: Vec<Transform>,
}

/// One entry of a snapshot.
pub struct Placement {
    pub entity: ServerEntity,
    pub transform: Transform,
}

impl NetworkedEntities {
    /// The number of entries: what both lists have.
    pub open spec fn spec_len(&self) -> nat {
        if self.entities@.len() <= self.transforms@.len() {
            self.entities@.len()
        } else {
            self.transforms@.len()
        }
    }

    /// The entries of the snapshot in order. An item of one list that has no
    /// partner in the other belongs to no entry.
    pub open spec fn placements(&self) -> Seq<Placement> {
        Seq::new(
            self.spec_len(),
            |i: int| Placement { entity: self.entities@[i], transform: self.transforms@[i] },
        )
    }

    /// The snapshot without entries.
    pub fn new() -> (snapshot: NetworkedEntities)
        ensures
            snapshot.entities@ == Seq::<ServerEntity>::empty(),
            snapshot.transforms@ == Seq::<Transform>::empty(),
    {
        NetworkedEntities { entities: Vec::new(), transforms: Vec::new() }
    }

    /// The number of entries.
    pub fn len(&self) -> (n: usize)
        ensures
            n == self.spec_len(),
    {
        if self.entities.len() <= self.transforms.len() {
            self.entities.len()
        } else {
            self.transforms.len()
        }
    }
}

impl Default for NetworkedEntities {
    fn default() -> (snapshot: NetworkedEntities)
        ensures
            snapshot.entities@ == Seq::<ServerEntity>::empty(),
            snapshot.transforms@ == Seq::<Transform>::empty(),
    {
        NetworkedEntities::new()
    }
}

/// The channels on which a client sends.
#[derive(Clone, Copy, Debug, PartialEq, Eq, Structural)]
pub enum ClientChannel {
    Input,
    Command,
}

/// The channels on which the server sends.
#[derive(Clone, Copy, Debug, PartialEq, Eq, Structural)]
pub enum ServerChannel {
    ServerMessages,
    NetworkedEntities,
}

impl ClientChannel {
    /// The number by which the transport knows this channel.
    pub open spec fn id(self) -> u8 {
        match self {
            ClientChannel::Command => 0,
            ClientChannel::Input => 1,
        }
    }
}

impl ServerChannel {
    /// The number by which the transport knows this channel.
    pub open spec fn id(self) -> u8 {
        match self {
            ServerChannel::NetworkedEntities => 0,
            ServerChannel::ServerMessages => 1,
        }
    }
}

impl PlayerCommand {
    /// Commands travel on the command channel.
    pub open spec fn spec_channel(&self) -> ClientChannel {
        ClientChannel::Command
    }

    #[verifier::when_used_as_spec(spec_channel)]
    pub fn channel(&self) -> (channel: ClientChannel)
        ensures
            channel == self.spec_channel(),
    {
        ClientChannel::Command
    }
}

impl ServerMessage {
    /// Structural messages travel on the channel of server messages, which
    /// loses none of them.
    pub open spec fn spec_channel(&self) -> ServerChannel {
        ServerChannel::ServerMessages
    }

    #[verifier::when_used_as_spec(spec_channel)]
    pub fn channel(&self) -> (channel: ServerChannel)
        ensures
            channel == self.spec_channel(),
    {
        ServerChannel::ServerMessages
    }
}

impl NetworkedEntities {
    /// Snapshots travel on the channel of networked entities, which may lose
    /// one: the next snapshot makes up for it.
    pub open spec fn spec_channel(&self) -> ServerChannel {
        ServerChannel::NetworkedEntities
    }

    #[verifier::when_used_as_spec(spec_channel)]
    pub fn channel(&self) -> (channel: ServerChannel)
        ensures
            channel == self.spec_channel(),
    {
        ServerChannel::NetworkedEntities
    }
}

impl From<ClientChannel> for u8 {
    fn from(channel_id: ClientChannel) -> (id: u8) {
        match channel_id {
            ClientChannel::Command => 0,
            ClientChannel::Input => 1,
        }
    }
}

impl FromSpecImpl<ClientChannel> for u8 {
    open spec fn obeys_from_spec() -> bool {
        true
    }

    open spec fn from_spec(channel_id: ClientChannel) -> u8 {
        channel_id.id()
    }
}

impl From<ServerChannel> for u8 {
    fn from(channel_id: ServerChannel) -> (id: u8) {
        match channel_id {
            ServerChannel::NetworkedEntities => 0,
            ServerChannel::ServerMessages => 1,
        }
    }
}

impl FromSpecImpl<ServerChannel> for u8 {
    open spec fn obeys_from_spec() -> bool {
        true
    }

    open spec fn from_spec(channel_id: ServerChannel) -> u8 {
        channel_id.id()
    }
}

/// Delivery class of one channel.
#[derive(Clone, Copy, Debug, PartialEq, Eq, Structural)]
pub enum ChannelConfig {
    /// Every message arrives; a message that was not acknowledged is sent
    /// again after `message_resend_millis`. On an ordered channel the
    /// messages arrive in the order sent.
    Reliable { channel_id: u8, message_resend_millis: u64, ordered: bool },
    /// A message may be lost. On a sequenced channel the receiver drops a
    /// message older than the last one it took.
    Unreliable { channel_id: u8, sequenced: bool },
}

impl ChannelConfig {
    /// The number by which the transport knows the channel.
    pub open spec fn spec_channel_id(self) -> u8 {
        match self {
            ChannelConfig::Reliable { channel_id, .. } => channel_id,
            ChannelConfig::Unreliable { channel_id, .. } => channel_id,
        }
    }

    #[verifier::when_used_as_spec(spec_channel_id)]
    pub fn channel_id(self) -> (id: u8)
        ensures
            id == self.spec_channel_id(),
    {
        match self {
            ChannelConfig::Reliable { channel_id, .. } => channel_id,
            ChannelConfig::Unreliable { channel_id, .. } => channel_id,
        }
    }
}

impl ClientChannel {
    /// Inputs and commands both travel reliably and in order, and are sent
    /// again at once: a later input replaces an earlier one, so nothing is
    /// gained by waiting.
    pub open spec fn spec_channels_config() -> Seq<ChannelConfig> {
        seq![
            ChannelConfig::Reliable { channel_id: 1, message_resend_millis: 0, ordered: true },
            ChannelConfig::Reliable { channel_id: 0, message_resend_millis: 0, ordered: true },
        ]
    }

    /// The delivery classes of the channels from client to server.
    pub fn channels_config() -> (configs: Vec<ChannelConfig>)
        ensures
            configs@ == ClientChannel::spec_channels_config(),
            configs@[0].channel_id() == ClientChannel::Input.id(),
            configs@[1].channel_id() == ClientChannel::Command.id(),
    {
        let configs = vec![
            ChannelConfig::Reliable {
                channel_id: u8::from(ClientChannel::Input),
                message_resend_millis: 0,
                ordered: true,
            },
            ChannelConfig::Reliable {
                channel_id: u8::from(ClientChannel::Command),
                message_resend_millis: 0,
                ordered: true,
            },
        ];
        assert(configs@ =~= ClientChannel::spec_channels_config());
        configs
    }
}

impl ServerChannel {
    /// Snapshots travel unreliably and sequenced, since an old position is
    /// worth nothing; structural messages travel reliably and in order, and
    /// are sent again every 200 milliseconds until acknowledged.
    pub open spec fn spec_channels_config() -> Seq<ChannelConfig> {
        seq![
            ChannelConfig::Unreliable { channel_id: 0, sequenced: true },
            ChannelConfig::Reliable { channel_id: 1, message_resend_millis: 200, ordered: true },
        ]
    }

    /// The delivery classes of the channels from server to client.
    pub fn channels_config() -> (configs: Vec<ChannelConfig>)
        ensures
            configs@ == ServerChannel::spec_channels_config(),
            configs@[0].channel_id() == ServerChannel::NetworkedEntities.id(),
            configs@[1].channel_id() == ServerChannel::ServerMessages.id(),
    {
        let configs = vec![
            ChannelConfig::Unreliable {
                channel_id: u8::from(ServerChannel::NetworkedEntities),
                sequenced: true,
            },
            ChannelConfig::Reliable {
                channel_id: u8::from(ServerChannel::ServerMessages),
                message_resend_millis: 200,
                ordered: true,
            },
        ];
        assert(configs@ =~= ServerChannel::spec_channels_config());
        configs
    }
}

/// The channels of one end of a connection.
#[derive(Clone, Debug, PartialEq, Eq)]
pub struct ConnectionConfig {
    pub send_channels_config: Vec<ChannelConfig>,
    pub receive_channels_config: Vec<ChannelConfig>,
}

/// The channels as a client sees them: it sends on the client channels and
/// receives on the server channels.
pub fn client_connection_config() -> (config: ConnectionConfig)
    ensures
        config.send_channels_config@ == ClientChannel::spec_channels_config(),
        config.receive_channels_config@ == ServerChannel::spec_channels_config(),
{
    ConnectionConfig {
        send_channels_config: ClientChannel::channels_config(),
        receive_channels_config: ServerChannel::channels_config(),
    }
}

/// The channels as the server sees them: what one end sends on, the other
/// receives on.
pub fn server_connection_config() -> (config: ConnectionConfig)
    ensures
        config.send_channels_config@ == ServerChannel::spec_channels_config(),
        config.receive_channels_config@ == ClientChannel::spec_channels_config(),
{
    ConnectionConfig {
        send_channels_config: ServerChannel::channels_config(),
        receive_channels_config: ClientChannel::channels_config(),
    }
}

/// Each channel is set up under its own number, and with the delivery that
/// its messages need: structural messages and what clients send arrive
/// without fail and in order; snapshots may be lost, and an old one never
/// overtakes a newer one.
pub proof fn theorem_channels_deliver_as_needed(
    message: ServerMessage,
    snapshot: NetworkedEntities,
    input_channel: ClientChannel,
)
    ensures
        ServerChannel::spec_channels_config().contains(
            ChannelConfig::Reliable {
                channel_id: message.channel().id(),
                message_resend_millis: 200,
                ordered: true,
            },
        ),
        ServerChannel::spec_channels_config().contains(
            ChannelConfig::Unreliable { channel_id: snapshot.channel().id(), sequenced: true },
        ),
        ClientChannel::spec_channels_config().contains(
            ChannelConfig::Reliable {
                channel_id: input_channel.id(),
                message_resend_millis: 0,
                ordered: true,
            },
        ),
{
    let server = ServerChannel::spec_channels_config();
    let client = ClientChannel::spec_channels_config();
    assert(server[1] == ChannelConfig::Reliable {
        channel_id: 1,
        message_resend_millis: 200,
        ordered: true,
    });
    assert(server[0] == ChannelConfig::Unreliable { channel_id: 0, sequenced: true });
    assert(client[0] == ChannelConfig::Reliable {
        channel_id: 1,
        message_resend_millis: 0,
        ordered: true,
    });
    assert(client[1] == ChannelConfig::Reliable {
        channel_id: 0,
        message_resend_millis: 0,
        ordered: true,
    });
}

} // verus!
