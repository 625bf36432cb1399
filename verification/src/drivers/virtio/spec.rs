//! VirtIO legacy MMIO register layout and virtqueue structures.

use vstd::prelude::*;

verus! {

pub const MMIO_VIRTIO_START: usize = 0x1000_1000;

pub const MMIO_VIRTIO_END: usize = 0x1000_8000;

pub const MMIO_VIRTIO_STRIDE: usize = 0x1000;

pub const MMIO_VIRTIO_MAGIC: u32 = 0x7472_6976;

pub const VIRTIO_MMIO_IRQ_BASE: u32 = 1;

pub const VIRTIO_RING_SIZE: usize = 8;

pub const VIRTIO_DESC_F_NEXT: u16 = 1;

pub const VIRTIO_DESC_F_WRITE: u16 = 2;

pub const VIRTIO_BLK_T_IN: u32 = 0;

pub const VIRTIO_BLK_T_OUT: u32 = 1;

pub const VIRTIO_BLK_F_RO: u32 = 5;

pub const VIRTIO_ACKNOWLEDGE: u32 = 1;

pub const VIRTIO_DRIVER: u32 = 2;

pub const VIRTIO_DRIVER_OK: u32 = 4;

pub const VIRTIO_FEATURES_OK: u32 = 8;

pub const VIRTIO_FAILED: u32 = 128;

pub const VIRTIO_DEVICE_BLOCK: u32 = 2;

pub const VIRTIO_DEVICE_ENTROPY: u32 = 4;

/// Bytes of one `Descriptor` (u64 + u32 + u16 + u16, C layout).
pub const DESCRIPTOR_BYTES: usize = 16;

/// Bytes of an `AvailRing` (four u16 fields around eight u16 slots).
pub const AVAIL_RING_BYTES: usize = 22;

/// Bytes of a `UsedRing`: two u16, eight 8-byte elements at offset 4,
/// one u16, padded to the 4-byte alignment of the elements.
pub const USED_RING_BYTES: usize = 72;

/// Byte offsets of the legacy MMIO registers.
#[derive(Copy, Clone, PartialEq, Eq, Structural, Debug)]
pub enum MmioOffsets {
    MagicValue,
    Version,
    DeviceId,
    VendorId,
    HostFeatures,
    HostFeaturesSel,
    GuestFeatures,
    GuestFeaturesSel,
    GuestPageSize,
    QueueSel,
    QueueNumMax,
    QueueNum,
    QueueAlign,
    QueuePfn,
    QueueNotify,
    InterruptStatus,
    InterruptAck,
    Status,
    Config,
}

pub open spec fn offset_of(o: MmioOffsets) -> usize {
    match o {
        MmioOffsets::MagicValue => 0x000,
        MmioOffsets::Version => 0x004,
        MmioOffsets::DeviceId => 0x008,
        MmioOffsets::VendorId => 0x00c,
        MmioOffsets::HostFeatures => 0x010,
        MmioOffsets::HostFeaturesSel => 0x014,
        MmioOffsets::GuestFeatures => 0x020,
        MmioOffsets::GuestFeaturesSel => 0x024,
        MmioOffsets::GuestPageSize => 0x028,
        MmioOffsets::QueueSel => 0x030,
        MmioOffsets::QueueNumMax => 0x034,
        MmioOffsets::QueueNum => 0x038,
        MmioOffsets::QueueAlign => 0x03c,
        MmioOffsets::QueuePfn => 0x040,
        MmioOffsets::QueueNotify => 0x050,
        MmioOffsets::InterruptStatus => 0x060,
        MmioOffsets::InterruptAck => 0x064,
        MmioOffsets::Status => 0x070,
        MmioOffsets::Config => 0x100,
    }
}

impl MmioOffsets {
    /// The register's byte offset from the device's MMIO base.
    pub fn val(self) -> (r: usize)
        ensures
            r == offset_of(self),
    {
        match self {
            MmioOffsets::MagicValue => 0x000,
            MmioOffsets::Version => 0x004,
            MmioOffsets::DeviceId => 0x008,
            MmioOffsets::VendorId => 0x00c,
            MmioOffsets::HostFeatures => 0x010,
            MmioOffsets::HostFeaturesSel => 0x014,
            MmioOffsets::GuestFeatures => 0x020,
            MmioOffsets::GuestFeaturesSel => 0x024,
            MmioOffsets::GuestPageSize => 0x028,
            MmioOffsets::QueueSel => 0x030,
            MmioOffsets::QueueNumMax => 0x034,
            MmioOffsets::QueueNum => 0x038,
            MmioOffsets::QueueAlign => 0x03c,
            MmioOffsets::QueuePfn => 0x040,
            MmioOffsets::QueueNotify => 0x050,
            MmioOffsets::InterruptStatus => 0x060,
            MmioOffsets::InterruptAck => 0x064,
            MmioOffsets::Status => 0x070,
            MmioOffsets::Config => 0x100,
        }
    }

    /// The offset in units of `scale` bytes.
    pub fn scaled(self, scale: usize) -> (r: usize)
        requires
            scale > 0,
        ensures
            r == offset_of(self) / scale,
    {
        self.val() / scale
    }

    /// The offset in 32-bit words, for indexing a `u32` register array.
    pub fn scale32(self) -> (r: usize)
        ensures
            r == offset_of(self) / 4,
    {
        self.scaled(4)
    }
}

#[derive(Copy, Clone, PartialEq, Eq, Structural)]
pub struct Descriptor {
    pub addr: u64,
    pub len: u32,
    pub flags: u16,
    pub next: u16,
}

#[derive(Copy, Clone)]
pub struct AvailRing {
    pub flags: u16,
    pub idx: u16,
    pub ring: [u16; 8],
    pub used_event: u16,
}

#[derive(Copy, Clone, PartialEq, Eq, Structural)]
pub struct UsedElem {
    pub id: u32,
    pub len: u32,
}

#[derive(Copy, Clone)]
pub struct UsedRing {
    pub flags: u16,
    pub idx: u16,
    pub ring: [UsedElem; 8],
    pub avail_event: u16,
}

#[derive(Copy, Clone, PartialEq, Eq, Structural)]
pub struct Header {
    pub blktype: u32,
    pub reserved: u32,
    pub sector: u64,
}

/// A block request: header, the data buffer's address, and the status
/// byte the device writes back.
#[derive(Copy, Clone, PartialEq, Eq, Structural)]
pub struct Request {
    pub header: Header,
    pub data: usize,
    pub status: u8,
}

/// `value` rounded up to a multiple of `align`, a power of two: the low
/// bits below `align` are clear, and no multiple lies in between.
pub fn align_up(value: usize, align: usize) -> (r: usize)
    requires
        usize::BITS == 64,
        align > 0,
        align & ((align - 1) as usize) == 0,
        value + align - 1 <= usize::MAX,
    ensures
        r & ((align - 1) as usize) == 0,
        value <= r,
        r - value < align,
{
    let m = align - 1;
    let x = value + m;
    let r = x & !m;
    assert(r & m == 0 && value <= r && r - value <= m) by (bit_vector)
        requires
            x == value + m,
            value <= x,
            r == x & !m,
    ;
    r
}

/// Bytes of the descriptor table.
pub fn virtqueue_desc_bytes() -> (r: usize)
    ensures
        r == DESCRIPTOR_BYTES * VIRTIO_RING_SIZE,
{
    DESCRIPTOR_BYTES * VIRTIO_RING_SIZE
}

/// Bytes of the available ring.
pub fn virtqueue_avail_bytes() -> (r: usize)
    ensures
        r == AVAIL_RING_BYTES,
{
    AVAIL_RING_BYTES
}

/// Bytes of the used ring.
pub fn virtqueue_used_bytes() -> (r: usize)
    ensures
        r == USED_RING_BYTES,
{
    USED_RING_BYTES
}

} // verus!
