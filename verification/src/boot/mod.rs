//! Boot-time setup.

pub mod entry;
