pub mod sv39;
