//! Combat-state reconstruction for a live game packet stream: the
//! identity, party, status-effect and entity trackers, the encounter
//! aggregator, and the dispatch step that drives them packet by packet.
pub mod encounter;
pub mod entity_tracker;
pub mod id_tracker;
pub mod models;
pub mod packet;
pub mod parser;
pub mod party_tracker;
pub mod status_tracker;
