//! Reading, changing and writing the bank files of one arcade game: the
//! code that its blobs are written in, the records that the blobs hold, the
//! checksums that tie them together, and the stamp over the whole.

pub mod account_max_vals;
pub mod bank;
pub mod bank_laws;
pub mod checksum;
pub mod digest;
pub mod error;
pub mod model;
pub mod natural;
pub mod record;
pub mod runling_max_vals;
pub mod signature;
pub mod signature_laws;
pub mod starcode;
pub mod text;
