//! Discovery and membership core for a mesh of inference worker nodes.
//!
//! A `ThalamusClient` owns the table of known `ThalamusNode` records.  Nodes
//! are found by subnet scanning, multicast browsing and one-hop peer-list
//! gossip; every mutation of the table goes through the upsert / merge /
//! mark-offline operations defined here, and the whole table can be written
//! out as a JSON snapshot and read back.

pub mod codec;
pub mod discovery;
pub mod laws;
pub mod node;
pub mod registry;
pub mod stats;
pub mod text;
