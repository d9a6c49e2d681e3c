//! Engine rules: resident state, admission, the writer protocol, bootstrap,
//! checkpoints and collection.

pub mod admission;
pub mod base_load;
pub mod bootstrap;
pub mod bootstrap_exit;
pub mod checkpoint;
pub mod chunks;
pub mod claim;
pub mod collection;
pub mod completion;
pub mod delta;
pub mod forest;
pub mod history;
pub mod machine_laws;
pub mod message_laws;
pub mod naming;
pub mod options;
pub mod ordered;
pub mod prepare;
pub mod recovery;
pub mod recovery_laws;
pub mod service;
pub mod state_laws;
pub mod store;
pub mod store_laws;
pub mod stored;
pub mod stream_laws;
pub mod writer_effects;
pub mod writer_laws;
pub mod writer_machine;
pub mod writer_state;
