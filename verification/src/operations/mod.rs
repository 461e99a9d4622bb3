//! The operations that the toolkit offers on an animation held in memory.

pub mod compress;
pub mod info;
pub mod policy;
pub mod speed;
pub mod tune;
