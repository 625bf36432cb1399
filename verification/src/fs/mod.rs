//! File systems.

pub mod minix3;
