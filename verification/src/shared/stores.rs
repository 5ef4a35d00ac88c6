pub mod pack_format;
pub mod pack_proofs;
pub mod pack_store;
pub mod zlib;
