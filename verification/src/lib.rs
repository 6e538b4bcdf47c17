//! Classification and decoding support for replaying archived protocol captures:
//! little-endian codec primitives, the tag classifier, the component resolver
//! and the bookkeeping of a replay run.

pub mod classifier;
pub mod common;
pub mod replay;
pub mod resolver;
pub mod seqs;
pub mod text;
pub mod wire;
