//! Core of the `cv` version-control tool: the on-disk formats it reads
//! (pack indexes, pack object headers, big-endian fields), the decisions
//! that drive a checkout, and the error values the tool reports.

pub mod checkout;
pub mod helpers;
pub mod index;
pub mod objects;
pub mod shared;
