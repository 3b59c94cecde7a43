//! Ownership of data by threads: which node and thread owns a datum, how that
//! ownership moves, and the messages nodes exchange about it.

pub mod jump_hash;
pub mod jump_share;
pub mod wire_error;
pub mod bytes;
pub mod authority;
pub mod datum;
pub mod list_wire;
pub mod rk;
pub mod lb;
pub mod request;
pub mod response;
pub mod envelope;
pub mod frame;
pub mod store_wire;
pub mod sk;
pub mod ring;
pub mod ring_laws;
pub mod maps;
pub mod clock;
pub mod membership;
pub mod failure_detector;
pub mod sequencer;
pub mod gossip_wire;
pub mod collation;
pub mod store;
pub mod cache;
pub mod context;
pub mod text;
pub mod response_text;
pub mod message;
pub mod index_handler;
pub mod worker;
pub mod worker_laws;
pub mod halt;
pub mod heartbeat;
pub mod books;
pub mod gossip_state;
pub mod gossip_laws;
pub mod gossip_loop;
pub mod config;
pub mod server;
pub mod server_laws;
pub mod transfer;
pub mod replica_resolver;
pub mod remote_collection;
pub mod remote_store;
pub mod collection_store;
pub mod store_server;
pub mod peer_link;
pub mod remote_laws;
pub mod client;
pub mod registry;
pub mod data_laws;
pub mod migrate;
pub mod admin_wire;
pub mod wire_laws;
pub mod migration;
pub mod planning;
