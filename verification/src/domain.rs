//! Pure storage vocabulary and durable codecs.

pub mod archive;
pub mod bounds;
pub mod candidate;
pub mod coordinate;
pub mod directory;
pub mod envelope;
pub mod ledger;
pub mod ledger_codec;
pub mod message_laws;
pub mod object_laws;
pub mod partition;
pub mod protocol;
pub mod seal;
pub mod seal_codec;
pub mod spelling;
pub mod sst;
pub mod sst_directory;
pub mod sst_ledger;
pub mod table;
pub mod text;
pub mod value_laws;
pub mod wal;
pub mod wal_codec;
