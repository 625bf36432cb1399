use vesper::drivers::virtio::bus::{Probed, check_magic, classify_device, probe_addresses};
use vesper::drivers::virtio::device::{
    BlockDevice, BlockSetup, DeviceType, MmioAccess, MmioReply, QueueState, SetupAction,
    SetupStage, VirtioDevices, alloc_desc_chain, block_complete, block_read, block_slot_for_irq,
    block_write, configured_irqs, dev_slot_from_ptr, first_block_device, free_desc_chain, pending,
    pending_by_irq, register_block_device, setup_block_device, setup_block_step,
};
use vesper::drivers::virtio::spec::{
    MmioOffsets, UsedElem, UsedRing, VIRTIO_BLK_T_IN, VIRTIO_BLK_T_OUT, VIRTIO_DESC_F_NEXT,
    VIRTIO_DESC_F_WRITE, align_up, virtqueue_avail_bytes, virtqueue_desc_bytes,
    virtqueue_used_bytes,
};
use vesper::mm::allocator::page_frame::{PAGE_SIZE, init};

const DEV0: usize = 0x1000_1000;
const DEV2: usize = 0x1000_3000;

#[test]
fn register_offsets() {
    assert_eq!(MmioOffsets::Status.val(), 0x70);
    assert_eq!(MmioOffsets::Status.scale32(), 0x1c);
    assert_eq!(MmioOffsets::Config.scaled(8), 0x20);
    assert_eq!(MmioOffsets::QueuePfn.val(), 0x40);
}

#[test]
fn virtqueue_sizes_and_alignment() {
    assert_eq!(virtqueue_desc_bytes(), 128);
    assert_eq!(virtqueue_avail_bytes(), 22);
    assert_eq!(virtqueue_used_bytes(), 72);
    assert_eq!(align_up(150, 4096), 4096);
    assert_eq!(align_up(4096, 4096), 4096);
    assert_eq!(align_up(4097, 4096), 8192);
    assert_eq!(align_up(0, 8), 0);
}

#[test]
fn probe_walks_the_eight_windows() {
    let a = probe_addresses();
    assert_eq!(a.len(), 8);
    assert_eq!(a[0], 0x1000_1000);
    assert_eq!(a[7], 0x1000_8000);
}

#[test]
fn probe_classifies_windows() {
    assert_eq!(check_magic(None), Some(Probed::Fault));
    assert_eq!(check_magic(Some(0x1234)), Some(Probed::NotVirtio));
    assert_eq!(check_magic(Some(0x7472_6976)), None);
    let mut devs = VirtioDevices::new();
    assert_eq!(classify_device(&mut devs, DEV0, None), Probed::Fault);
    assert_eq!(classify_device(&mut devs, DEV0, Some(0)), Probed::NotConnected);
    assert!(devs.devices[0].is_none());
    assert_eq!(classify_device(&mut devs, DEV0, Some(2)), Probed::Block);
    assert!(devs.devices[0].is_none());
    assert_eq!(classify_device(&mut devs, DEV0, Some(4)), Probed::Entropy);
    assert!(matches!(devs.devices[0], Some(d) if matches!(d.kind, DeviceType::Entropy)));
    assert_eq!(classify_device(&mut devs, DEV2, Some(9)), Probed::Unknown(9));
    assert!(matches!(devs.devices[2], Some(d) if matches!(d.kind, DeviceType::Unknown)));
}

#[test]
fn descriptor_chains_take_the_first_three_free() {
    let mut q = QueueState::empty();
    q.free[1] = false;
    assert_eq!(alloc_desc_chain(&mut q), Some([0, 2, 3]));
    assert!(!q.free[0] && !q.free[2] && !q.free[3] && q.free[4]);
    q.free = [false, false, false, false, false, true, true, false];
    assert_eq!(alloc_desc_chain(&mut q), None);
    // Nothing was taken when the chain could not be built.
    assert_eq!(q.free, [false, false, false, false, false, true, true, false]);
}

#[test]
fn freeing_a_chain_follows_the_next_links() {
    let mut q = QueueState::empty();
    let [a, b, c] = alloc_desc_chain(&mut q).unwrap();
    q.desc[a as usize].flags = VIRTIO_DESC_F_NEXT;
    q.desc[a as usize].next = b;
    q.desc[b as usize].flags = VIRTIO_DESC_F_NEXT;
    q.desc[b as usize].next = c;
    q.desc[c as usize].flags = 0;
    free_desc_chain(&mut q, a);
    assert!(q.free.iter().all(|f| *f));
}

fn block_devices(read_only: bool) -> VirtioDevices {
    let mut devs = VirtioDevices::new();
    register_block_device(&mut devs, DEV2, 0x8100_0000, 128, 4096, read_only);
    devs
}

#[test]
fn registered_block_device_is_found() {
    let devs = block_devices(false);
    assert_eq!(first_block_device(&devs), Some(2));
    assert_eq!(dev_slot_from_ptr(DEV2), 2);
    let irqs = configured_irqs(&devs);
    assert_eq!(irqs, [None, None, Some(3), None, None, None, None, None]);
    assert_eq!(block_slot_for_irq(&devs, 3), Some(2));
    assert_eq!(block_slot_for_irq(&devs, 1), None);
    assert_eq!(block_slot_for_irq(&devs, 0), None);
    assert_eq!(first_block_device(&VirtioDevices::new()), None);
    assert_eq!(BlockDevice::empty().irq(), None);
}

#[test]
fn block_read_queues_a_three_descriptor_chain() {
    let mut devs = block_devices(false);
    let mut heap = init(0x8000_0000, 16 * PAGE_SIZE);
    let (head, req) = block_read(&mut devs, &mut heap, 2, 0x8030_0000, 512, 1024).unwrap();
    assert_eq!(req, 0x8000_1000);
    let q = &devs.block[2].queue;
    let h = q.desc[head as usize];
    let d = q.desc[h.next as usize];
    let s = q.desc[d.next as usize];
    assert_eq!((h.addr, h.len, h.flags), (req as u64, 16, VIRTIO_DESC_F_NEXT));
    assert_eq!((d.addr, d.len, d.flags), (0x8030_0000, 512, VIRTIO_DESC_F_NEXT | VIRTIO_DESC_F_WRITE));
    assert_eq!((s.addr, s.len, s.flags), (req as u64 + 24, 1, VIRTIO_DESC_F_WRITE));
    assert_eq!(q.avail.idx, 1);
    assert_eq!(q.avail.ring[0], head);
    assert_eq!(q.req_head[head as usize], req);
    // The request header: type, then the sector.
    assert_eq!(heap.read_word(req, 0), VIRTIO_BLK_T_IN as i64);
    assert_eq!(heap.read_word(req, 1), 2);
    assert_eq!(heap.read_word(req, 3) & 0xff, 0xff);
}

#[test]
fn block_write_to_a_read_only_device_is_refused() {
    let mut devs = block_devices(true);
    let mut heap = init(0x8000_0000, 16 * PAGE_SIZE);
    assert_eq!(block_write(&mut devs, &mut heap, 2, 0x8030_0000, 512, 0), None);
    assert_eq!(block_read(&mut devs, &mut heap, 5, 0x8030_0000, 512, 0), None);
    let mut rw = block_devices(false);
    let (_, req) = block_write(&mut rw, &mut heap, 2, 0x8030_0000, 512, 4096).unwrap();
    assert_eq!(heap.read_word(req, 0), VIRTIO_BLK_T_OUT as i64);
    assert_eq!(heap.read_word(req, 1), 8);
}

#[test]
fn used_ring_entries_free_their_chains() {
    let mut devs = block_devices(false);
    let mut heap = init(0x8000_0000, 16 * PAGE_SIZE);
    let (head, req) = block_read(&mut devs, &mut heap, 2, 0x8030_0000, 512, 0).unwrap();
    let mut used = UsedRing {
        flags: 0,
        idx: 1,
        ring: [UsedElem { id: 0, len: 0 }; 8],
        avail_event: 0,
    };
    used.ring[0] = UsedElem { id: head as u32, len: 513 };
    let mut bd = devs.block[2];
    pending(&mut bd, &used);
    assert_eq!(bd.ack_used_idx, 1);
    assert!(bd.queue.free.iter().all(|f| *f));
    assert_eq!(bd.queue.req_head[head as usize], 0);
    assert_eq!(pending_by_irq(&mut devs, 2, 0, &used), None);
    assert_eq!(pending_by_irq(&mut devs, 2, 5, &used), Some(1));
    assert_eq!(devs.block[2].ack_used_idx, 1);
    assert!(block_complete(&mut heap, req, 0));
    assert!(!block_complete(&mut heap, 0, 1));
}

fn run_setup(replies: &[MmioReply], heap_pages: usize) -> (Vec<MmioAccess>, SetupAction, VirtioDevices) {
    let mut devs = VirtioDevices::new();
    let mut heap = init(0x8000_0000, heap_pages * PAGE_SIZE);
    let (mut s, first) = setup_block_device(DEV0);
    let mut accesses = vec![first];
    let mut last = SetupAction::Access(first);
    for r in replies {
        let (s2, a) = setup_block_step(s, *r, &mut devs, &mut heap);
        s = s2;
        last = a;
        match a {
            SetupAction::Access(x) => accesses.push(x),
            SetupAction::Finished(_) => break,
        }
    }
    (accesses, last, devs)
}

fn ok() -> MmioReply {
    MmioReply::Written(true)
}

#[test]
fn block_setup_handshake_succeeds() {
    let replies = [
        ok(),
        ok(),
        ok(),
        MmioReply::Value(Some(1 << 5 | 1 << 9)),
        ok(),
        ok(),
        MmioReply::Value(Some(0xb)),
        ok(),
        MmioReply::Value(Some(128)),
        ok(),
        ok(),
        ok(),
        ok(),
        ok(),
    ];
    let (acc, last, devs) = run_setup(&replies, 16);
    assert_eq!(last, SetupAction::Finished(true));
    assert_eq!(acc, vec![
        MmioAccess::Write(MmioOffsets::Status, 0),
        MmioAccess::Write(MmioOffsets::Status, 1),
        MmioAccess::Write(MmioOffsets::Status, 3),
        MmioAccess::Read(MmioOffsets::HostFeatures),
        MmioAccess::Write(MmioOffsets::GuestFeatures, 1 << 9),
        MmioAccess::Write(MmioOffsets::Status, 11),
        MmioAccess::Read(MmioOffsets::Status),
        MmioAccess::Write(MmioOffsets::QueueSel, 0),
        MmioAccess::Read(MmioOffsets::QueueNumMax),
        MmioAccess::Write(MmioOffsets::QueueNum, 8),
        MmioAccess::Write(MmioOffsets::QueueAlign, 4096),
        MmioAccess::Write(MmioOffsets::GuestPageSize, 4096),
        MmioAccess::Write(MmioOffsets::QueuePfn, 0x8000_1000 / 4096),
        MmioAccess::Write(MmioOffsets::Status, 15),
    ]);
    let b = devs.block[0];
    assert_eq!(b.dev, DEV0);
    assert!(b.read_only);
    assert_eq!(b.queue.desc_addr, 0x8000_1000);
    assert_eq!(b.queue.avail_addr, 0x8000_1000 + 128);
    assert_eq!(b.queue.used_addr, 0x8000_2000);
    assert!(matches!(devs.devices[0], Some(d) if matches!(d.kind, DeviceType::Block)));
}

#[test]
fn block_setup_fails_the_device_when_features_are_refused() {
    let replies = [ok(), ok(), ok(), MmioReply::Value(Some(0)), ok(), ok(), MmioReply::Value(Some(3)), ok()];
    let (acc, last, devs) = run_setup(&replies, 16);
    assert_eq!(*acc.last().unwrap(), MmioAccess::Write(MmioOffsets::Status, 128));
    assert_eq!(last, SetupAction::Finished(false));
    assert!(devs.devices[0].is_none());
}

#[test]
fn block_setup_stops_at_a_faulted_access_or_short_queue() {
    let (acc, last, _) = run_setup(&[ok(), MmioReply::Written(false)], 16);
    assert_eq!(acc.len(), 2);
    assert_eq!(last, SetupAction::Finished(false));
    let replies = [
        ok(),
        ok(),
        ok(),
        MmioReply::Value(Some(0)),
        ok(),
        ok(),
        MmioReply::Value(Some(8)),
        ok(),
        MmioReply::Value(Some(4)),
        ok(),
    ];
    let (acc, last, _) = run_setup(&replies, 16);
    assert_eq!(*acc.last().unwrap(), MmioAccess::Write(MmioOffsets::Status, 128));
    assert_eq!(last, SetupAction::Finished(false));
}

#[test]
fn block_setup_fails_the_device_without_queue_memory() {
    let replies = [
        ok(),
        ok(),
        ok(),
        MmioReply::Value(Some(0)),
        ok(),
        ok(),
        MmioReply::Value(Some(8)),
        ok(),
        MmioReply::Value(Some(8)),
        ok(),
        ok(),
        ok(),
        ok(),
    ];
    // One data page: no room for the two-page queue.
    let (acc, last, _) = run_setup(&replies, 1);
    assert_eq!(*acc.last().unwrap(), MmioAccess::Write(MmioOffsets::Status, 128));
    assert_eq!(last, SetupAction::Finished(false));
}

#[test]
fn block_setup_state_starts_reset() {
    let (s, a) = setup_block_device(DEV2);
    assert_eq!(s, BlockSetup { ptr: DEV2, stage: SetupStage::Reset, status: 0, read_only: false, queue_mem: 0 });
    assert_eq!(a, MmioAccess::Write(MmioOffsets::Status, 0));
}
