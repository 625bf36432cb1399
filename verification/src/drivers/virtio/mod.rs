pub mod bus;
pub mod device;
pub mod spec;
