pub mod errors;
pub mod hashing;
