//! Device drivers: the register values and state the kernel computes;
//! the MMIO accesses themselves are performed by the caller.

pub mod plic;
pub mod uart;
pub mod virtio;
