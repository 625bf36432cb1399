pub mod map;
pub mod types;
