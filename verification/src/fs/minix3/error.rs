//! Error type returned by the Minix 3 reader.

use vstd::prelude::*;

verus! {

#[derive(Debug, Copy, Clone, PartialEq, Eq, Structural)]
pub enum FsError {
    BadMagic,
    BlockReadFailed,
    OutOfMemory,
    InodeOutOfRange,
    BufferTooSmall,
}

} // verus!
