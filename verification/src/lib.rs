//! Cluster membership and the spreading of rumors by gossip, with what a
//! node keeps around them.
//!
//! Every node runs an engine of its own. It tracks which peers are alive,
//! suspected, confirmed dead or departed, and it spreads small typed facts,
//! the rumors, through the ring without a coordinator. The library holds
//! the decisions of that engine and proves them; sockets, clocks, files
//! and threads belong to the program around it.
//!
//! The engine, leaves first:
//!
//! - [`wire`], [`frame`], [`envelope`], [`probe`]: the bytes on the wire.
//! - [`member`], [`rumor`]: members, rumors, and the rule by which a newer
//!   rumor replaces an older one.
//! - [`store`], [`member_list`], [`id_table`]: what a node holds.
//! - [`server`]: the state that the loops of a node share.
//! - [`pull`], [`push`], [`detector`]: the inbound side, the outbound side
//!   and the failure detector.
//! - [`dat_file`]: the snapshot.
//! - [`client`]: datagrams of a tool that is no member of the ring.
//!
//! Around the engine:
//!
//! - [`supervisor`], [`updater`], [`launcher`]: what a supervisor keeps of a
//!   service process, of its updates, and how its launcher reports.
//! - [`cli`], [`studio`], [`users`], [`decimal`]: what the operator's
//!   commands take, and what they decide before anything is started.

pub mod cli;
pub mod client;
pub mod dat_file;
pub mod decimal;
pub mod detector;
pub mod envelope;
pub mod error;
pub mod frame;
pub mod id_table;
pub mod launcher;
pub mod member;
pub mod member_list;
pub mod probe;
pub mod pull;
pub mod push;
pub mod rumor;
pub mod server;
pub mod store;
pub mod studio;
pub mod supervisor;
pub mod updater;
pub mod users;
pub mod wire;
