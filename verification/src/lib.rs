//! A bump-pointer arena: a fixed-capacity byte buffer from which values of
//! heterogeneous types are placed sequentially at alignment-correct offsets,
//! then released all at once by a reset.

pub mod arena;
pub mod repr;
