//! Authoritative network synchronisation for a small multiplayer action game.
//!
//! The server owns every placement and lifetime; clients mirror what the two
//! server channels deliver. All rules of that exchange live here, stated over
//! mathematical models and proved.
//!
//! - [`transform`], [`player`], [`projectile`]: the data that is kept and sent.
//! - [`network`]: identities, messages and channels.
//! - [`world`]: the model of the server's world and of each phase of a tick.
//! - [`server`]: the world itself, with one function for each phase.
//! - [`client`]: a client's table of entities and its handling of messages.
//! - [`guarantees`], [`agreement`]: what is proved of server and client.
//! - [`launch`]: helpers of the launcher that builds and starts the programs.
//! - [`seq_facts`]: facts about sequences that the proofs rest on.

pub mod agreement;
pub mod client;
pub mod guarantees;
pub mod launch;
pub mod network;
pub mod player;
pub mod projectile;
pub mod seq_facts;
pub mod server;
pub mod transform;
pub mod world;
