//! Probing the VirtIO MMIO windows.
//!
//! For each window the caller reads the magic value; if it is a VirtIO
//! device it reads the device id, and this module decides what the
//! device is and records it. Block devices are then brought up with
//! `setup_block_device` / `setup_block_step`.

use vstd::prelude::*;

use super::device::{
    DeviceType, MAX_VIRTIO_DEVICES, VirtioDevice, VirtioDevices, register_entropy_device,
    register_unknown_device, slot_of,
};
use super::spec::{
    MMIO_VIRTIO_END, MMIO_VIRTIO_MAGIC, MMIO_VIRTIO_START, MMIO_VIRTIO_STRIDE,
    VIRTIO_DEVICE_BLOCK, VIRTIO_DEVICE_ENTROPY,
};

verus! {

/// What probing one MMIO window found.
#[derive(Copy, Clone, PartialEq, Eq, Structural, Debug)]
pub enum Probed {
    /// Reading a register faulted.
    Fault,
    /// The magic value is not VirtIO's.
    NotVirtio,
    /// A VirtIO window with no device behind it (device id 0).
    NotConnected,
    /// A block device, still to be brought up.
    Block,
    /// An entropy device, now recorded.
    Entropy,
    /// A device of a type the kernel does not drive, now recorded.
    Unknown(u32),
}

/// The MMIO windows to probe, lowest first: `MMIO_VIRTIO_START` to
/// `MMIO_VIRTIO_END` inclusive, one `MMIO_VIRTIO_STRIDE` apart.
pub fn probe_addresses() -> (r: Vec<usize>)
    ensures
        r@.len() == MAX_VIRTIO_DEVICES,
        forall|i: int| 0 <= i < MAX_VIRTIO_DEVICES ==> #[trigger] r@[i] == MMIO_VIRTIO_START + i
            * MMIO_VIRTIO_STRIDE,
        r@.last() == MMIO_VIRTIO_END,
{
    let mut out: Vec<usize> = Vec::new();
    let mut i: usize = 0;
    while i < MAX_VIRTIO_DEVICES
        invariant
            i <= MAX_VIRTIO_DEVICES,
            out@.len() == i,
            forall|k: int| 0 <= k < i ==> #[trigger] out@[k] == MMIO_VIRTIO_START + k
                * MMIO_VIRTIO_STRIDE,
        decreases MAX_VIRTIO_DEVICES - i,
    {
        out.push(MMIO_VIRTIO_START + i * MMIO_VIRTIO_STRIDE);
        i = i + 1;
    }
    out
}

/// What the magic value read from a window says: `None` when it is
/// VirtIO's, so the device id is read next.
pub open spec fn magic_checked(magic: Option<u32>) -> Option<Probed> {
    match magic {
        None => Some(Probed::Fault),
        Some(m) => if m != MMIO_VIRTIO_MAGIC {
            Some(Probed::NotVirtio)
        } else {
            None
        },
    }
}

/// What the device id read from a VirtIO window says the device is.
pub open spec fn device_probed(device_id: Option<u32>) -> Probed {
    match device_id {
        None => Probed::Fault,
        Some(0) => Probed::NotConnected,
        Some(VIRTIO_DEVICE_BLOCK) => Probed::Block,
        Some(VIRTIO_DEVICE_ENTROPY) => Probed::Entropy,
        Some(id) => Probed::Unknown(id),
    }
}

/// Probing, by the values the VirtIO MMIO specification fixes: the eight
/// windows lie 4 KiB apart from 0x1000_1000; a window is VirtIO exactly
/// when its magic value reads "virt" (0x7472_6976, little-endian); device
/// id 0 means no device, 2 a block device, 4 an entropy source, any other
/// id a device the kernel does not drive.
pub proof fn lemma_probe_values(addrs: Seq<usize>, magic: Option<u32>, device_id: Option<u32>)
    requires
        addrs.len() == MAX_VIRTIO_DEVICES,
        forall|i: int| 0 <= i < MAX_VIRTIO_DEVICES ==> #[trigger] addrs[i] == MMIO_VIRTIO_START + i
            * MMIO_VIRTIO_STRIDE,
    ensures
        addrs.len() == 8,
        forall|i: int| 0 <= i < 8 ==> #[trigger] addrs[i] == 0x1000_1000 + i * 0x1000,
        magic_checked(None) == Some(Probed::Fault),
        magic is Some ==> (magic_checked(magic) is None <==> magic.unwrap() == 0x7472_6976u32),
        magic is Some && magic.unwrap() != 0x7472_6976u32 ==> magic_checked(magic) == Some(
            Probed::NotVirtio,
        ),
        device_probed(None) == Probed::Fault,
        device_probed(Some(0)) == Probed::NotConnected,
        device_probed(Some(2)) == Probed::Block,
        device_probed(Some(4)) == Probed::Entropy,
        device_id is Some && device_id.unwrap() != 0 && device_id.unwrap() != 2
            && device_id.unwrap() != 4 ==> device_probed(device_id) == Probed::Unknown(
            device_id.unwrap(),
        ),
{
}

/// After reading the magic value of a window (`None`: the read faulted):
/// `None` to go on and read the device id, or what the window is.
pub fn check_magic(magic: Option<u32>) -> (r: Option<Probed>)
    ensures
        r == magic_checked(magic),
{
    match magic {
        None => Some(Probed::Fault),
        Some(m) => if m != MMIO_VIRTIO_MAGIC {
            Some(Probed::NotVirtio)
        } else {
            None
        },
    }
}

/// After reading the device id of the VirtIO window at `ptr` (`None`:
/// the read faulted): what the device is. Entropy and unknown devices
/// are recorded here.
pub fn classify_device(devs: &mut VirtioDevices, ptr: usize, device_id: Option<u32>) -> (r: Probed)
    requires
        old(devs).wf(),
        MMIO_VIRTIO_START <= ptr,
        slot_of(ptr) < MAX_VIRTIO_DEVICES,
    ensures
        final(devs).wf(),
        final(devs).block == old(devs).block,
        r == device_probed(device_id),
        final(devs).devices@ == match r {
            Probed::Entropy => old(devs).devices@.update(
                slot_of(ptr),
                Some(VirtioDevice { kind: DeviceType::Entropy }),
            ),
            Probed::Unknown(_) => old(devs).devices@.update(
                slot_of(ptr),
                Some(VirtioDevice { kind: DeviceType::Unknown }),
            ),
            _ => old(devs).devices@,
        },
{
    let id = match device_id {
        Some(id) => id,
        None => return Probed::Fault,
    };
    if id == 0 {
        Probed::NotConnected
    } else if id == VIRTIO_DEVICE_BLOCK {
        Probed::Block
    } else if id == VIRTIO_DEVICE_ENTROPY {
        register_entropy_device(devs, ptr);
        Probed::Entropy
    } else {
        register_unknown_device(devs, ptr);
        Probed::Unknown(id)
    }
}

} // verus!
