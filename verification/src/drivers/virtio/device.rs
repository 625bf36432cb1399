//! VirtIO devices found on the MMIO bus, and the block device's
//! virtqueue.
//!
//! The driver owns the descriptor table and the available ring; the
//! device fills the used ring and the request's status byte. The caller
//! performs the MMIO accesses and hands back what the device wrote.

use vstd::prelude::*;

use crate::mm::allocator::page_frame::{
    Heap, allocate, clear_run, deallocate, first_fit, lemma_allocate_one, lemma_desc_bits,
    lemma_first_fit_window, mark_run, run_end_from, zallocate, zero_pages,
};

use super::spec::{
    AvailRing, Descriptor, MMIO_VIRTIO_START, MmioOffsets, UsedRing,
    VIRTIO_ACKNOWLEDGE, VIRTIO_BLK_F_RO, VIRTIO_BLK_T_IN, VIRTIO_BLK_T_OUT, VIRTIO_DESC_F_NEXT,
    VIRTIO_DESC_F_WRITE, VIRTIO_DRIVER, VIRTIO_DRIVER_OK, VIRTIO_FAILED, VIRTIO_FEATURES_OK,
    VIRTIO_MMIO_IRQ_BASE, VIRTIO_RING_SIZE, align_up, virtqueue_avail_bytes, virtqueue_desc_bytes,
    virtqueue_used_bytes,
};

verus! {

pub const MAX_VIRTIO_DEVICES: usize = 8;

/// Status byte value while the device has not answered a request.
pub const STATUS_PENDING: u8 = 0xff;

#[derive(Copy, Clone, PartialEq, Eq, Structural)]
pub enum DeviceType {
    Block,
    Entropy,
    Unknown,
}

#[derive(Copy, Clone, PartialEq, Eq, Structural)]
pub struct VirtioDevice {
    pub kind: DeviceType,
}

/// The descriptor has a successor in its chain.
pub open spec fn has_next(d: Descriptor) -> bool {
    d.flags & 1u16 != 0
}

/// The `k`-th index along the chain starting at `i`.
pub open spec fn nth(desc: Seq<Descriptor>, i: int, k: nat) -> int
    decreases k,
{
    if k == 0 {
        i
    } else {
        desc[nth(desc, i, (k - 1) as nat)].next as int
    }
}

/// The chain starting at `i` stays inside the table and ends after `n`
/// hops, at a descriptor without a successor.
pub open spec fn ends_at(desc: Seq<Descriptor>, i: int, n: nat) -> bool {
    &&& forall|k: nat|
        k <= n ==> 0 <= #[trigger] nth(desc, i, k) < VIRTIO_RING_SIZE
    &&& forall|k: nat| k < n ==> has_next(desc[#[trigger] nth(desc, i, k)])
    &&& !has_next(desc[nth(desc, i, n)])
}

/// `j` lies on the chain starting at `i`, which ends after `n` hops.
pub open spec fn on_chain(desc: Seq<Descriptor>, i: int, n: nat, j: int) -> bool {
    exists|k: nat| k <= n && #[trigger] nth(desc, i, k) == j
}

/// Driver-side state of one virtqueue.
#[derive(Copy, Clone)]
pub struct QueueState {
    /// Physical addresses of the descriptor table and the two rings.
    pub desc_addr: usize,
    pub avail_addr: usize,
    pub used_addr: usize,
    /// The descriptor table, as written to the queue memory.
    pub desc: [Descriptor; 8],
    /// The available ring, as written to the queue memory.
    pub avail: AvailRing,
    /// Descriptors not in any chain handed to the device.
    pub free: [bool; 8],
    /// The request page of the chain headed by each descriptor (0: none).
    pub req_head: [usize; 8],
}

impl QueueState {
    /// No queue memory, every descriptor free, no requests.
    pub fn empty() -> (q: Self)
        ensures
            q.desc_addr == 0 && q.avail_addr == 0 && q.used_addr == 0,
            forall|i: int| 0 <= i < 8 ==> #[trigger] q.free@[i],
            forall|i: int| 0 <= i < 8 ==> #[trigger] q.req_head@[i] == 0,
            forall|i: int| 0 <= i < 8 ==> !has_next(#[trigger] q.desc@[i]),
            q.avail.idx == 0,
    {
        let d = Descriptor { addr: 0, len: 0, flags: 0, next: 0 };
        let q = Self {
            desc_addr: 0,
            avail_addr: 0,
            used_addr: 0,
            desc: [d; 8],
            avail: AvailRing { flags: 0, idx: 0, ring: [0; 8], used_event: 0 },
            free: [true; 8],
            req_head: [0; 8],
        };
        assert(0u16 & 1u16 == 0) by (bit_vector);
        q
    }
}

/// A block device's driver state. `dev` is the MMIO base (0: no device).
#[derive(Copy, Clone)]
pub struct BlockDevice {
    pub dev: usize,
    pub queue: QueueState,
    pub ack_used_idx: u16,
    pub read_only: bool,
}

/// The MMIO slot of the device at `ptr`.
pub open spec fn slot_of(ptr: usize) -> int {
    (ptr - MMIO_VIRTIO_START) / 4096
}

/// The PLIC source of the device at `ptr`.
pub open spec fn irq_of(ptr: usize) -> int {
    VIRTIO_MMIO_IRQ_BASE + slot_of(ptr)
}

impl BlockDevice {
    pub fn empty() -> (b: Self)
        ensures
            b.dev == 0,
            b.ack_used_idx == 0,
            !b.read_only,
            forall|i: int| 0 <= i < 8 ==> #[trigger] b.queue.free@[i],
            forall|i: int| 0 <= i < 8 ==> #[trigger] b.queue.req_head@[i] == 0,
            forall|i: int| 0 <= i < 8 ==> !has_next(#[trigger] b.queue.desc@[i]),
    {
        Self { dev: 0, queue: QueueState::empty(), ack_used_idx: 0, read_only: false }
    }

    /// The PLIC source this device interrupts on, if there is a device.
    pub fn irq(&self) -> (r: Option<u32>)
        requires
            self.dev != 0 ==> MMIO_VIRTIO_START <= self.dev < MMIO_VIRTIO_START + 4096 * 8,
        ensures
            r == if self.dev == 0 {
                None
            } else {
                Some(irq_of(self.dev) as u32)
            },
    {
        if self.dev == 0 {
            None
        } else {
            let off = self.dev - MMIO_VIRTIO_START;
            let slot = off >> 12;
            assert(slot == off / 4096) by (bit_vector)
                requires
                    slot == off >> 12usize,
            ;
            Some(VIRTIO_MMIO_IRQ_BASE + slot as u32)
        }
    }
}

/// The MMIO slot of the device at `ptr`.
pub fn dev_slot_from_ptr(ptr: usize) -> (r: usize)
    requires
        MMIO_VIRTIO_START <= ptr,
    ensures
        r == slot_of(ptr),
{
    let off = ptr - MMIO_VIRTIO_START;
    let r = off >> 12;
    assert(r == off / 4096) by (bit_vector)
        requires
            r == off >> 12usize,
    ;
    r
}

/// Free descriptors among the first `n`.
pub open spec fn free_below(free: Seq<bool>, n: int) -> int
    decreases n,
{
    if n <= 0 {
        0
    } else {
        free_below(free, n - 1) + if free[n - 1] {
            1int
        } else {
            0int
        }
    }
}

proof fn lemma_free_below_mono(free: Seq<bool>, a: int, b: int)
    requires
        0 <= a <= b,
    ensures
        free_below(free, a) <= free_below(free, b),
    decreases b - a,
{
    if a < b {
        lemma_free_below_mono(free, a, b - 1);
    }
}

/// `j` is one of `out[lo..hi]` (for the three-entry chain arrays).
pub open spec fn in_out(out: Seq<u16>, lo: int, hi: int, j: int) -> bool {
    ||| (lo <= 0 < hi && out[0] == j)
    ||| (lo <= 1 < hi && out[1] == j)
    ||| (lo <= 2 < hi && out[2] == j)
}

/// Take the first three free descriptors for a request chain, or none
/// when fewer than three are free.
pub fn alloc_desc_chain(queue: &mut QueueState) -> (r: Option<[u16; 3]>)
    ensures
        final(queue).desc == old(queue).desc,
        final(queue).avail == old(queue).avail,
        final(queue).req_head == old(queue).req_head,
        final(queue).desc_addr == old(queue).desc_addr,
        final(queue).avail_addr == old(queue).avail_addr,
        final(queue).used_addr == old(queue).used_addr,
        (r is Some) == (free_below(old(queue).free@, 8) >= 3),
        r is None ==> final(queue).free == old(queue).free,
        r is Some ==> {
            let out = r.unwrap();
            &&& forall|k: int|
                0 <= k < 3 ==> {
                    &&& #[trigger] out@[k] < 8
                    &&& old(queue).free@[out@[k] as int]
                    &&& free_below(old(queue).free@, out@[k] as int) == k
                }
            &&& out@[0] < out@[1] < out@[2]
            &&& forall|j: int|
                0 <= j < 8 ==> #[trigger] final(queue).free@[j] == (old(queue).free@[j] && j
                    != out@[0] && j != out@[1] && j != out@[2])
        },
{
    let ghost f0 = queue.free@;
    let mut out = [0u16; 3];
    let mut found: usize = 0;
    let mut i: usize = 0;
    while i < VIRTIO_RING_SIZE
        invariant
            i <= 8,
            found < 3,
            f0.len() == 8,
            queue.free@.len() == 8,
            found == free_below(f0, i as int),
            forall|k: int|
                0 <= k < found ==> {
                    &&& #[trigger] out@[k] < i
                    &&& f0[out@[k] as int]
                    &&& free_below(f0, out@[k] as int) == k
                },
            forall|k: int, k2: int| 0 <= k < k2 < found ==> #[trigger] out@[k] < #[trigger] out@[k2],
            forall|j: int|
                0 <= j < 8 ==> #[trigger] queue.free@[j] == (f0[j] && !in_out(out@, 0, found as int, j)),
            queue.desc == old(queue).desc,
            queue.avail == old(queue).avail,
            queue.req_head == old(queue).req_head,
            queue.desc_addr == old(queue).desc_addr,
            queue.avail_addr == old(queue).avail_addr,
            queue.used_addr == old(queue).used_addr,
            f0 == old(queue).free@,
        decreases 8 - i,
    {
        if queue.free[i] {
            queue.free[i] = false;
            out[found] = i as u16;
            found = found + 1;
            proof {
                assert forall|j: int| 0 <= j < 8 implies #[trigger] queue.free@[j] == (f0[j]
                    && !in_out(out@, 0, found as int, j)) by {
                    if j != i {
                        assert(in_out(out@, 0, found as int, j) == in_out(out@, 0, found - 1, j));
                    }
                }
            }
            if found == 3 {
                proof {
                    lemma_free_below_mono(f0, i + 1, 8);
                    assert forall|j: int| 0 <= j < 8 implies #[trigger] queue.free@[j] == (f0[j]
                        && j != out@[0] && j != out@[1] && j != out@[2]) by {}
                }
                return Some(out);
            }
        }
        i = i + 1;
    }
    // Fewer than three free: give back what was taken.
    let mut k: usize = 0;
    while k < found
        invariant
            k <= found,
            found < 3,
            found == free_below(f0, 8),
            f0.len() == 8,
            queue.free@.len() == 8,
            forall|m: int|
                0 <= m < found ==> #[trigger] out@[m] < 8 && f0[out@[m] as int],
            found == 2 ==> out@[0] < out@[1],
            forall|j: int|
                0 <= j < 8 ==> #[trigger] queue.free@[j] == (f0[j] && !in_out(out@, k as int, found as int, j)),
            queue.desc == old(queue).desc,
            queue.avail == old(queue).avail,
            queue.req_head == old(queue).req_head,
            queue.desc_addr == old(queue).desc_addr,
            queue.avail_addr == old(queue).avail_addr,
            queue.used_addr == old(queue).used_addr,
            f0 == old(queue).free@,
        decreases found - k,
    {
        let idx = out[k] as usize;
        queue.free[idx] = true;
        k = k + 1;
        proof {
            assert forall|j: int| 0 <= j < 8 implies #[trigger] queue.free@[j] == (f0[j]
                && !in_out(out@, k as int, found as int, j)) by {
                if j == idx {
                    assert(f0[j]);
                }
            }
        }
    }
    proof {
        assert(queue.free@ =~= f0);
    }
    None
}

/// Return the chain starting at `head` to the free pool, following the
/// `next` links up to the descriptor without a successor.
pub fn free_desc_chain(queue: &mut QueueState, head: u16)
    requires
        exists|n: nat| ends_at(old(queue).desc@, head as int, n),
    ensures
        final(queue).desc == old(queue).desc,
        final(queue).avail == old(queue).avail,
        final(queue).req_head == old(queue).req_head,
        final(queue).desc_addr == old(queue).desc_addr,
        final(queue).avail_addr == old(queue).avail_addr,
        final(queue).used_addr == old(queue).used_addr,
        forall|n: nat|
            ends_at(old(queue).desc@, head as int, n) ==> forall|j: int|
                0 <= j < 8 ==> #[trigger] final(queue).free@[j] == (old(queue).free@[j] || on_chain(
                    old(queue).desc@,
                    head as int,
                    n,
                    j,
                )),
{
    let ghost d = queue.desc@;
    let ghost f0 = queue.free@;
    let ghost n: nat = choose|n: nat| ends_at(d, head as int, n);
    let mut idx = head as usize;
    let ghost mut k: nat = 0;
    loop
        invariant_except_break
            forall|j: int|
                0 <= j < 8 ==> #[trigger] queue.free@[j] == (f0[j] || exists|m: nat|
                    m < k && #[trigger] nth(d, head as int, m) == j),
        invariant
            d == queue.desc@,
            d.len() == 8,
            queue.free@.len() == 8,
            ends_at(d, head as int, n),
            k <= n,
            idx == nth(d, head as int, k),
            queue.desc == old(queue).desc,
            queue.avail == old(queue).avail,
            queue.req_head == old(queue).req_head,
            queue.desc_addr == old(queue).desc_addr,
            queue.avail_addr == old(queue).avail_addr,
            queue.used_addr == old(queue).used_addr,
            f0 == old(queue).free@,
        ensures
            forall|j: int|
                0 <= j < 8 ==> #[trigger] queue.free@[j] == (f0[j] || exists|m: nat|
                    m <= n && #[trigger] nth(d, head as int, m) == j),
            queue.desc == old(queue).desc,
            queue.avail == old(queue).avail,
            queue.req_head == old(queue).req_head,
            queue.desc_addr == old(queue).desc_addr,
            queue.avail_addr == old(queue).avail_addr,
            queue.used_addr == old(queue).used_addr,
        decreases n - k,
    {
        assert(0 <= nth(d, head as int, k) < 8);
        queue.free[idx] = true;
        let desc = queue.desc[idx];
        if desc.flags & VIRTIO_DESC_F_NEXT == 0 {
            proof {
                assert(!has_next(d[idx as int]));
                if k < n {
                    assert(has_next(d[nth(d, head as int, k)]));
                }
                assert(k == n);
                assert forall|j: int| 0 <= j < 8 implies #[trigger] queue.free@[j] == (f0[j]
                    || exists|m: nat| m <= n && #[trigger] nth(d, head as int, m) == j) by {
                    if j == idx {
                        assert(nth(d, head as int, k) == j);
                    } else if exists|m: nat| m <= n && #[trigger] nth(d, head as int, m) == j {
                        let m = choose|m: nat| m <= n && #[trigger] nth(d, head as int, m) == j;
                        assert(m < k);
                    }
                }
            }
            break;
        }
        proof {
            assert(has_next(d[idx as int]));
            if k == n {
                assert(!has_next(d[nth(d, head as int, n)]));
            }
            assert(k < n);
            assert(nth(d, head as int, (k + 1) as nat) == d[nth(d, head as int, k)].next as int);
        }
        idx = desc.next as usize;
        proof {
            k = k + 1;
            assert forall|j: int| 0 <= j < 8 implies #[trigger] queue.free@[j] == (f0[j] || exists|m: nat|
                m < k && #[trigger] nth(d, head as int, m) == j) by {
                if j == nth(d, head as int, (k - 1) as nat) {
                    assert(nth(d, head as int, (k - 1) as nat) == j);
                } else if exists|m: nat| m < k && #[trigger] nth(d, head as int, m) == j {
                    let m = choose|m: nat| m < k && #[trigger] nth(d, head as int, m) == j;
                    assert(m < k - 1);
                }
            }
        }
    }
    proof {
        assert forall|n2: nat| ends_at(d, head as int, n2) implies n2 == n by {
            lemma_ends_at_unique(d, head as int, n, n2);
        }
    }
}

/// A chain ends at one place only.
pub proof fn lemma_ends_at_unique(d: Seq<Descriptor>, i: int, n: nat, n2: nat)
    requires
        ends_at(d, i, n),
        ends_at(d, i, n2),
    ensures
        n == n2,
{
    if n < n2 {
        assert(has_next(d[nth(d, i, n)]));
    } else if n2 < n {
        assert(has_next(d[nth(d, i, n2)]));
    }
}

/// The chain from `i` stays in the table and ends within `f` hops.
pub open spec fn chain_done(d: Seq<Descriptor>, i: int, f: nat) -> bool
    decreases f,
{
    0 <= i < 8 && (!has_next(d[i]) || (f > 0 && chain_done(d, d[i].next as int, (f - 1) as nat)))
}

/// Every chain in the descriptor table ends: following `next` links
/// from any descriptor never loops.
pub open spec fn chains_end(d: Seq<Descriptor>) -> bool {
    forall|i: int| 0 <= i < 8 ==> #[trigger] chain_finite(d, i)
}

/// The chain from `i` ends within some number of hops.
pub open spec fn chain_finite(d: Seq<Descriptor>, i: int) -> bool {
    exists|f: nat| chain_done(d, i, f)
}

proof fn lemma_nth_shift(d: Seq<Descriptor>, i: int, k: nat)
    requires
        0 <= i < d.len(),
    ensures
        nth(d, i, k + 1) == nth(d, d[i].next as int, k),
    decreases k,
{
    let y = d[i].next as int;
    if k > 0 {
        lemma_nth_shift(d, i, (k - 1) as nat);
        assert(nth(d, i, k + 1) == d[nth(d, i, k)].next as int);
        assert(nth(d, y, k) == d[nth(d, y, (k - 1) as nat)].next as int);
    } else {
        assert(nth(d, i, 1) == d[nth(d, i, 0)].next as int);
    }
}

/// A chain that is done within some number of hops ends somewhere.
pub proof fn lemma_chain_done_ends(d: Seq<Descriptor>, i: int, f: nat)
    requires
        chain_done(d, i, f),
        d.len() == 8,
    ensures
        exists|n: nat| ends_at(d, i, n),
    decreases f,
{
    if !has_next(d[i]) {
        assert(ends_at(d, i, 0));
    } else {
        let y = d[i].next as int;
        lemma_chain_done_ends(d, y, (f - 1) as nat);
        let m = choose|m: nat| ends_at(d, y, m);
        assert forall|k: nat| k <= m + 1 implies 0 <= #[trigger] nth(d, i, k) < VIRTIO_RING_SIZE by {
            if k > 0 {
                lemma_nth_shift(d, i, (k - 1) as nat);
                assert(0 <= nth(d, y, (k - 1) as nat) < 8);
            }
        }
        assert forall|k: nat| k < m + 1 implies has_next(d[#[trigger] nth(d, i, k)]) by {
            if k > 0 {
                lemma_nth_shift(d, i, (k - 1) as nat);
                assert(has_next(d[nth(d, y, (k - 1) as nat)]));
            }
        }
        lemma_nth_shift(d, i, m);
        assert(ends_at(d, i, m + 1));
    }
}

/// The hop count of the chain from `i`.
pub open spec fn chain_len(d: Seq<Descriptor>, i: int) -> nat {
    choose|n: nat| ends_at(d, i, n)
}

/// The free map once the chain from `head` is returned.
pub open spec fn freed(d: Seq<Descriptor>, free: Seq<bool>, head: int) -> Seq<bool> {
    Seq::new(8, |j: int| free[j] || on_chain(d, head, chain_len(d, head), j))
}

/// Rewriting three descriptors into the chain `h -> m -> s` (with `s`
/// last) keeps every chain of the table finite.
proof fn lemma_chain_rewrite(d: Seq<Descriptor>, d2: Seq<Descriptor>, h: int, m: int, s: int, x: int, f: nat)
    requires
        d.len() == 8,
        d2.len() == 8,
        0 <= h < 8 && 0 <= m < 8 && 0 <= s < 8,
        has_next(d2[h]) && d2[h].next == m,
        has_next(d2[m]) && d2[m].next == s,
        !has_next(d2[s]),
        forall|j: int| 0 <= j < 8 && j != h && j != m && j != s ==> #[trigger] d2[j] == d[j],
        chain_done(d, x, f),
    ensures
        chain_done(d2, x, f + 2),
    decreases f,
{
    assert(chain_done(d2, s, 0));
    assert(chain_done(d2, m, 1));
    assert(chain_done(d2, h, 2));
    if x == s {
        lemma_chain_done_mono(d2, x, 0, f + 2);
    } else if x == m {
        lemma_chain_done_mono(d2, x, 1, f + 2);
    } else if x == h {
        lemma_chain_done_mono(d2, x, 2, f + 2);
    } else if has_next(d[x]) {
        lemma_chain_rewrite(d, d2, h, m, s, d[x].next as int, (f - 1) as nat);
    }
}

proof fn lemma_chain_done_mono(d: Seq<Descriptor>, x: int, f: nat, g: nat)
    requires
        chain_done(d, x, f),
        f <= g,
    ensures
        chain_done(d, x, g),
    decreases f,
{
    if has_next(d[x]) {
        lemma_chain_done_mono(d, d[x].next as int, (f - 1) as nat, (g - 1) as nat);
    }
}

/// Driver state after the device reports `steps` used entries from `ack`
/// on: each reported chain head in range loses its request and has its
/// chain freed.
pub open spec fn pending_spec(
    d: Seq<Descriptor>,
    free: Seq<bool>,
    rh: Seq<usize>,
    ack: u16,
    used: UsedRing,
    steps: nat,
) -> (Seq<bool>, Seq<usize>, u16)
    decreases steps,
{
    if steps == 0 {
        (free, rh, ack)
    } else {
        let elem = used.ring@[ack as int % 8];
        let ack2 = ((ack + 1) % 0x1_0000) as u16;
        if elem.id >= 8 {
            pending_spec(d, free, rh, ack2, used, (steps - 1) as nat)
        } else {
            pending_spec(
                d,
                freed(d, free, elem.id as int),
                rh.update(elem.id as int, 0),
                ack2,
                used,
                (steps - 1) as nat,
            )
        }
    }
}

/// How many used entries lie between `ack` and the device's `idx`.
pub open spec fn pending_steps(ack: u16, idx: u16) -> nat {
    ((idx - ack) % 0x1_0000) as nat
}

/// `b` is the block device `b0` after it took in the used entries of
/// `used` up to `used.idx`: their chains freed and their requests
/// dropped, everything else as it was.
pub open spec fn pending_effect(b0: BlockDevice, b: BlockDevice, used: UsedRing) -> bool {
    &&& b.dev == b0.dev
    &&& b.read_only == b0.read_only
    &&& b.queue.desc == b0.queue.desc
    &&& b.queue.avail == b0.queue.avail
    &&& b.queue.desc_addr == b0.queue.desc_addr
    &&& b.queue.avail_addr == b0.queue.avail_addr
    &&& b.queue.used_addr == b0.queue.used_addr
    &&& b.ack_used_idx == used.idx
    &&& (b.queue.free@, b.queue.req_head@, b.ack_used_idx) == pending_spec(
        b0.queue.desc@,
        b0.queue.free@,
        b0.queue.req_head@,
        b0.ack_used_idx,
        used,
        pending_steps(b0.ack_used_idx, used.idx),
    )
}

/// Process the used entries the device has added since the last call:
/// `used` is the used ring as the device left it.
pub fn pending(bd: &mut BlockDevice, used: &UsedRing)
    requires
        chains_end(old(bd).queue.desc@),
    ensures
        pending_effect(*old(bd), *final(bd), *used),
{
    let ghost d = bd.queue.desc@;
    let ghost whole = pending_spec(
        d,
        bd.queue.free@,
        bd.queue.req_head@,
        bd.ack_used_idx,
        *used,
        pending_steps(bd.ack_used_idx, used.idx),
    );
    while bd.ack_used_idx != used.idx
        invariant
            d == bd.queue.desc@,
            chains_end(d),
            whole == pending_spec(
                d,
                bd.queue.free@,
                bd.queue.req_head@,
                bd.ack_used_idx,
                *used,
                pending_steps(bd.ack_used_idx, used.idx),
            ),
            whole == pending_spec(
                old(bd).queue.desc@,
                old(bd).queue.free@,
                old(bd).queue.req_head@,
                old(bd).ack_used_idx,
                *used,
                pending_steps(old(bd).ack_used_idx, used.idx),
            ),
            bd.dev == old(bd).dev,
            bd.read_only == old(bd).read_only,
            bd.queue.desc == old(bd).queue.desc,
            bd.queue.avail == old(bd).queue.avail,
            bd.queue.desc_addr == old(bd).queue.desc_addr,
            bd.queue.avail_addr == old(bd).queue.avail_addr,
            bd.queue.used_addr == old(bd).queue.used_addr,
        decreases pending_steps(bd.ack_used_idx, used.idx),
    {
        let ghost ack0 = bd.ack_used_idx;
        let used_idx = (bd.ack_used_idx as usize) % VIRTIO_RING_SIZE;
        let elem = used.ring[used_idx];
        bd.ack_used_idx = bd.ack_used_idx.wrapping_add(1);
        proof {
            assert(pending_steps(ack0, used.idx) > 0);
            assert(bd.ack_used_idx == ((ack0 + 1) % 0x1_0000) as u16);
            assert(pending_steps(bd.ack_used_idx, used.idx) == pending_steps(ack0, used.idx) - 1);
        }
        let head = elem.id as usize;
        if head < VIRTIO_RING_SIZE {
            let _req = bd.queue.req_head[head];
            bd.queue.req_head[head] = 0;
            proof {
                assert(chain_finite(d, head as int));
                let f = choose|f: nat| chain_done(d, head as int, f);
                lemma_chain_done_ends(d, head as int, f);
                assert((head as u16) as int == head as int);
                let n = choose|n: nat| ends_at(d, head as int, n);
                assert(ends_at(bd.queue.desc@, (head as u16) as int, n));
            }
            let ghost free0 = bd.queue.free@;
            free_desc_chain(&mut bd.queue, head as u16);
            proof {
                let n = chain_len(d, head as int);
                assert(ends_at(d, head as int, n));
                assert(bd.queue.free@ =~= freed(d, free0, head as int));
            }
        }
    }
}

/// The devices found on the MMIO bus, one slot per MMIO window.
pub struct VirtioDevices {
    pub block: Vec<BlockDevice>,
    pub devices: Vec<Option<VirtioDevice>>,
}

/// A block device slot: empty, or a device inside the MMIO window whose
/// descriptor chains all end.
pub open spec fn block_ok(b: BlockDevice) -> bool {
    &&& b.dev != 0 ==> MMIO_VIRTIO_START <= b.dev < MMIO_VIRTIO_START + 8 * 4096
    &&& chains_end(b.queue.desc@)
}

impl VirtioDevices {
    pub open spec fn wf(&self) -> bool {
        &&& self.block@.len() == MAX_VIRTIO_DEVICES
        &&& self.devices@.len() == MAX_VIRTIO_DEVICES
        &&& forall|i: int| 0 <= i < MAX_VIRTIO_DEVICES ==> #[trigger] block_ok(self.block@[i])
    }

    /// No devices.
    pub fn new() -> (r: Self)
        ensures
            r.wf(),
            forall|i: int| 0 <= i < 8 ==> (#[trigger] r.block@[i]).dev == 0,
            forall|i: int| 0 <= i < 8 ==> (#[trigger] r.devices@[i]) is None,
    {
        let mut block: Vec<BlockDevice> = Vec::new();
        let mut devices: Vec<Option<VirtioDevice>> = Vec::new();
        let mut i: usize = 0;
        while i < MAX_VIRTIO_DEVICES
            invariant
                i <= 8,
                block@.len() == i,
                devices@.len() == i,
                forall|k: int| 0 <= k < i ==> (#[trigger] block@[k]).dev == 0,
                forall|k: int| 0 <= k < i ==> #[trigger] block_ok(block@[k]),
                forall|k: int| 0 <= k < i ==> (#[trigger] devices@[k]) is None,
            decreases 8 - i,
        {
            let b = BlockDevice::empty();
            proof {
                assert forall|j: int| 0 <= j < 8 implies #[trigger] chain_finite(b.queue.desc@, j) by {
                    assert(chain_done(b.queue.desc@, j, 0));
                }
            }
            block.push(b);
            devices.push(None);
            i = i + 1;
        }
        VirtioDevices { block, devices }
    }
}

/// Record the device at `ptr` as an entropy device.
pub fn register_entropy_device(devs: &mut VirtioDevices, ptr: usize)
    requires
        old(devs).wf(),
        MMIO_VIRTIO_START <= ptr,
        slot_of(ptr) < MAX_VIRTIO_DEVICES,
    ensures
        final(devs).wf(),
        final(devs).block == old(devs).block,
        final(devs).devices@ == old(devs).devices@.update(
            slot_of(ptr),
            Some(VirtioDevice { kind: DeviceType::Entropy }),
        ),
{
    let slot = dev_slot_from_ptr(ptr);
    devs.devices.set(slot, Some(VirtioDevice { kind: DeviceType::Entropy }));
}

/// Record the device at `ptr` as a device of a type the kernel does not
/// drive.
pub fn register_unknown_device(devs: &mut VirtioDevices, ptr: usize)
    requires
        old(devs).wf(),
        MMIO_VIRTIO_START <= ptr,
        slot_of(ptr) < MAX_VIRTIO_DEVICES,
    ensures
        final(devs).wf(),
        final(devs).block == old(devs).block,
        final(devs).devices@ == old(devs).devices@.update(
            slot_of(ptr),
            Some(VirtioDevice { kind: DeviceType::Unknown }),
        ),
{
    let slot = dev_slot_from_ptr(ptr);
    devs.devices.set(slot, Some(VirtioDevice { kind: DeviceType::Unknown }));
}

/// Record a configured block device at `ptr` whose queue memory starts
/// at `queue_mem`, with its used ring `used_offset` bytes in.
pub fn register_block_device(
    devs: &mut VirtioDevices,
    ptr: usize,
    queue_mem: usize,
    desc_bytes: usize,
    used_offset: usize,
    read_only: bool,
)
    requires
        old(devs).wf(),
        ptr != 0,
        MMIO_VIRTIO_START <= ptr < MMIO_VIRTIO_START + 8 * 4096,
        queue_mem + used_offset <= usize::MAX,
        queue_mem + desc_bytes <= usize::MAX,
    ensures
        final(devs).wf(),
        ({
            let b = final(devs).block@[slot_of(ptr)];
            &&& b.dev == ptr
            &&& b.ack_used_idx == 0
            &&& b.read_only == read_only
            &&& b.queue.desc_addr == queue_mem
            &&& b.queue.avail_addr == queue_mem + desc_bytes
            &&& b.queue.used_addr == queue_mem + used_offset
            &&& forall|i: int| 0 <= i < 8 ==> #[trigger] b.queue.free@[i]
            &&& forall|i: int| 0 <= i < 8 ==> #[trigger] b.queue.req_head@[i] == 0
            &&& b.queue.avail.idx == 0
        }),
        forall|i: int|
            0 <= i < 8 && i != slot_of(ptr) ==> #[trigger] final(devs).block@[i] == old(
                devs,
            ).block@[i],
        final(devs).devices@ == old(devs).devices@.update(
            slot_of(ptr),
            Some(VirtioDevice { kind: DeviceType::Block }),
        ),
{
    let slot = dev_slot_from_ptr(ptr);
    let mut qstate = QueueState::empty();
    qstate.desc_addr = queue_mem;
    qstate.avail_addr = queue_mem + desc_bytes;
    qstate.used_addr = queue_mem + used_offset;
    let b = BlockDevice { dev: ptr, queue: qstate, ack_used_idx: 0, read_only };
    proof {
        assert forall|j: int| 0 <= j < 8 implies #[trigger] chain_finite(b.queue.desc@, j) by {
            assert(chain_done(b.queue.desc@, j, 0));
        }
    }
    devs.block.set(slot, b);
    devs.devices.set(slot, Some(VirtioDevice { kind: DeviceType::Block }));
    proof {
        assert forall|i: int| 0 <= i < MAX_VIRTIO_DEVICES implies #[trigger] block_ok(devs.block@[i]) by {
            if i != slot {
                assert(block_ok(old(devs).block@[i]));
            }
        }
    }
}

/// The first slot holding a block device.
pub fn first_block_device(devs: &VirtioDevices) -> (r: Option<usize>)
    requires
        devs.wf(),
    ensures
        match r {
            None => forall|i: int| 0 <= i < 8 ==> (#[trigger] devs.block@[i]).dev == 0,
            Some(idx) => idx < 8 && devs.block@[idx as int].dev != 0 && forall|i: int|
                0 <= i < idx ==> (#[trigger] devs.block@[i]).dev == 0,
        },
{
    let mut idx: usize = 0;
    while idx < MAX_VIRTIO_DEVICES
        invariant
            idx <= 8,
            devs.block@.len() == 8,
            forall|i: int| 0 <= i < idx ==> (#[trigger] devs.block@[i]).dev == 0,
        decreases 8 - idx,
    {
        if devs.block[idx].dev != 0 {
            return Some(idx);
        }
        idx = idx + 1;
    }
    None
}

/// The PLIC source of each slot's block device, if any.
pub fn configured_irqs(devs: &VirtioDevices) -> (out: [Option<u32>; 8])
    requires
        devs.wf(),
    ensures
        forall|i: int|
            0 <= i < 8 ==> #[trigger] out@[i] == if devs.block@[i].dev == 0 {
                None
            } else {
                Some(irq_of(devs.block@[i].dev) as u32)
            },
{
    let mut out: [Option<u32>; 8] = [None; 8];
    let mut i: usize = 0;
    while i < MAX_VIRTIO_DEVICES
        invariant
            i <= 8,
            devs.wf(),
            forall|k: int|
                0 <= k < i ==> #[trigger] out@[k] == if devs.block@[k].dev == 0 {
                    None
                } else {
                    Some(irq_of(devs.block@[k].dev) as u32)
                },
        decreases 8 - i,
    {
        assert(block_ok(devs.block@[i as int]));
        out[i] = devs.block[i].irq();
        i = i + 1;
    }
    out
}

/// The slot of the block device behind PLIC source `irq`, if there is one.
pub fn block_slot_for_irq(devs: &VirtioDevices, irq: u32) -> (r: Option<usize>)
    requires
        devs.wf(),
    ensures
        r == if irq >= VIRTIO_MMIO_IRQ_BASE && irq - VIRTIO_MMIO_IRQ_BASE < 8
            && devs.block@[irq - VIRTIO_MMIO_IRQ_BASE].dev != 0 {
            Some((irq - VIRTIO_MMIO_IRQ_BASE) as usize)
        } else {
            None
        },
{
    let slot = match irq.checked_sub(VIRTIO_MMIO_IRQ_BASE) {
        Some(v) => v as usize,
        None => return None,
    };
    if slot >= MAX_VIRTIO_DEVICES {
        return None;
    }
    if devs.block[slot].dev == 0 {
        return None;
    }
    Some(slot)
}

/// Service an interrupt of the block device in `slot`, given the
/// interrupt status `isr` it reports and its used ring `used`. Returns
/// the value to acknowledge, or `None` when the device raised nothing.
pub fn pending_by_irq(devs: &mut VirtioDevices, slot: usize, isr: u32, used: &UsedRing) -> (r: Option<u32>)
    requires
        old(devs).wf(),
        slot < MAX_VIRTIO_DEVICES,
    ensures
        final(devs).wf(),
        final(devs).devices == old(devs).devices,
        r == if isr == 0 {
            None
        } else {
            Some(isr & 3)
        },
        isr == 0 ==> final(devs).block == old(devs).block,
        isr != 0 ==> pending_effect(old(devs).block@[slot as int], final(devs).block@[slot as int], *used),
        forall|i: int|
            0 <= i < 8 && i != slot ==> #[trigger] final(devs).block@[i] == old(devs).block@[i],
{
    if isr == 0 {
        return None;
    }
    let mut bd = devs.block[slot];
    assert(block_ok(devs.block@[slot as int]));
    pending(&mut bd, used);
    devs.block.set(slot, bd);
    proof {
        assert forall|i: int| 0 <= i < MAX_VIRTIO_DEVICES implies #[trigger] block_ok(devs.block@[i]) by {
            if i != slot {
                assert(block_ok(old(devs).block@[i]));
            }
        }
    }
    Some(isr & 0x3)
}

/// The heap words of a freshly filled request in the page at index
/// `fi`: header (type, reserved), sector, data address, and the status
/// byte set to pending.
pub open spec fn request_mem(mem: Seq<i64>, fi: int, blktype: u32, sector: u64, data: usize) -> Seq<i64> {
    mem.update(fi * 512, blktype as i64).update(fi * 512 + 1, sector as i64).update(
        fi * 512 + 2,
        data as i64,
    ).update(fi * 512 + 3, (mem[fi * 512 + 3] & !0xffi64) | 0xffi64)
}

/// Why a block request does not reach the device.
pub open spec fn block_op_refused(devs: VirtioDevices, dev: usize, write: bool) -> bool {
    ||| dev >= MAX_VIRTIO_DEVICES
    ||| devs.block@[dev as int].dev == 0
    ||| (devs.block@[dev as int].read_only && write)
}

/// What `block_op` does to the devices `d0` and heap `h0`, leaving `d1`
/// and `h1` and returning `r`.
pub open spec fn block_op_effect(
    d0: VirtioDevices,
    d1: VirtioDevices,
    h0: Heap,
    h1: Heap,
    dev: usize,
    buffer: usize,
    size: u32,
    offset: u64,
    write: bool,
    r: Option<(u16, usize)>,
) -> bool {
    &&& (d1.devices == d0.devices)
    &&& (forall|i: int|
            0 <= i < 8 && i != dev ==> #[trigger] d1.block@[i] == d0.block@[i])
    &&& (block_op_refused(d0, dev, write) || first_fit(h0.descs(), 1) is None ==> {
            &&& r is None
            &&& d1.block == d0.block
            &&& h1.descs() == h0.descs()
            &&& h1.mem() == h0.mem()
        })
    &&& (!block_op_refused(d0, dev, write) && first_fit(h0.descs(), 1) is Some ==> {
            let fi = first_fit(h0.descs(), 1).unwrap();
            let req = h0.page_addr(fi);
            let b0 = d0.block@[dev as int];
            let b = d1.block@[dev as int];
            let blktype = if write {
                VIRTIO_BLK_T_OUT
            } else {
                VIRTIO_BLK_T_IN
            };
            &&& h1.mem() == request_mem(h0.mem(), fi, blktype, offset / 512, buffer)
            &&& (r is None) == (free_below(b0.queue.free@, 8) < 3)
            &&& r is None ==> {
                &&& d1.block == d0.block
                &&& h1.descs() == h0.descs()
            }
            &&& r is Some ==> {
                let (h, req2) = r.unwrap();
                let hd = b.queue.desc@[h as int];
                let dd = b.queue.desc@[hd.next as int];
                let sd = b.queue.desc@[dd.next as int];
                &&& req2 == req
                &&& h1.descs() == mark_run(h0.descs(), fi, 1)
                &&& h < 8 && hd.next < 8 && dd.next < 8
                &&& b0.queue.free@[h as int] && b0.queue.free@[hd.next as int]
                    && b0.queue.free@[dd.next as int]
                &&& !b.queue.free@[h as int] && !b.queue.free@[hd.next as int]
                    && !b.queue.free@[dd.next as int]
                &&& hd == Descriptor { addr: req as u64, len: 16, flags: VIRTIO_DESC_F_NEXT, next: hd.next }
                &&& dd == Descriptor {
                    addr: buffer as u64,
                    len: size,
                    flags: if write {
                        VIRTIO_DESC_F_NEXT
                    } else {
                        VIRTIO_DESC_F_NEXT | VIRTIO_DESC_F_WRITE
                    },
                    next: dd.next,
                }
                &&& sd == Descriptor {
                    addr: (req + 24) as u64,
                    len: 1,
                    flags: VIRTIO_DESC_F_WRITE,
                    next: 0,
                }
                &&& b.queue.req_head@ == b0.queue.req_head@.update(h as int, req as usize)
                &&& b.queue.avail.idx == ((b0.queue.avail.idx + 1) % 0x1_0000) as u16
                &&& b.queue.avail.ring@ == b0.queue.avail.ring@.update(
                    b0.queue.avail.idx as int % 8,
                    h,
                )
                &&& b.dev == b0.dev && b.read_only == b0.read_only && b.ack_used_idx == b0.ack_used_idx
                &&& forall|j: int|
                    0 <= j < 8 ==> #[trigger] b.queue.free@[j] == (b0.queue.free@[j] && j != h
                        && j != hd.next && j != dd.next)
                &&& forall|j: int|
                    0 <= j < 8 && j != h && j != hd.next && j != dd.next ==> #[trigger] b.queue.desc@[j]
                        == b0.queue.desc@[j]
            }
        })
}

/// A block request in the VirtIO block format: the request page's first
/// word is the request type (0 to read, 1 to write), the second the
/// sector (`offset / 512`), the third the data buffer; three descriptors
/// chain the 16-byte header (read by the device), the `size`-byte data
/// buffer (written by the device for a read, read for a write) and the
/// status byte at request + 24 (written by the device); the chain's head
/// goes on the available ring. Writes to a read-only device, requests to
/// a device slot that holds no device, and requests with fewer than three
/// free descriptors are refused. `d1`, `h1` and `r` are what `block_op`
/// leaves and returns.
pub proof fn lemma_block_request_format(
    d0: VirtioDevices,
    d1: VirtioDevices,
    h0: Heap,
    h1: Heap,
    dev: usize,
    buffer: usize,
    size: u32,
    offset: u64,
    write: bool,
    r: Option<(u16, usize)>,
)
    requires
        h0.wf(),
        block_op_effect(d0, d1, h0, h1, dev, buffer, size, offset, write, r),
    ensures
        dev >= 8 ==> r is None,
        dev < 8 && d0.block@[dev as int].dev == 0 ==> r is None,
        dev < 8 && write && d0.block@[dev as int].read_only ==> r is None,
        dev < 8 && d0.block@[dev as int].dev != 0 && !(write && d0.block@[dev as int].read_only)
            && first_fit(h0.descs(), 1) is Some ==> ((r is None) <==> free_below(
            d0.block@[dev as int].queue.free@,
            8,
        ) < 3),
        r matches Some((head, req)) ==> {
            let q0 = d0.block@[dev as int].queue;
            let q = d1.block@[dev as int].queue;
            let hd = q.desc@[head as int];
            let dd = q.desc@[hd.next as int];
            let sd = q.desc@[dd.next as int];
            let fi = first_fit(h0.descs(), 1).unwrap();
            &&& req == h0.start() + fi * 4096
            &&& h1.mem()[fi * 512] == (if write {
                1i64
            } else {
                0i64
            })
            &&& h1.mem()[fi * 512 + 1] == (offset / 512) as i64
            &&& h1.mem()[fi * 512 + 2] == buffer as i64
            &&& hd.addr == req && hd.len == 16 && hd.flags == 1
            &&& dd.addr == buffer && dd.len == size && dd.flags == (if write {
                1u16
            } else {
                3u16
            })
            &&& sd.addr == req + 24 && sd.len == 1 && sd.flags == 2 && sd.next == 0
            &&& head != hd.next && head != dd.next && hd.next != dd.next
            &&& q.avail.ring@[q0.avail.idx as int % 8] == head
            &&& q.avail.idx == (q0.avail.idx + 1) % 0x1_0000
        },
{
    if r is Some {
        let fi = first_fit(h0.descs(), 1).unwrap();
        lemma_first_fit_window(h0.descs(), 1, 0);
        assert(0 <= fi * 512 && fi * 512 + 3 < h0.mem().len()) by (nonlinear_arith)
            requires
                0 <= fi < h0.npages(),
                h0.mem().len() == h0.npages() * 512,
        ;
        assert(1u16 | 2u16 == 3u16) by (bit_vector);
    }
}

/// Queue a block request: a read (`write == false`) or write of `size`
/// bytes between `buffer` and the disk at byte `offset`. The request
/// page comes from the page-frame allocator and holds the header and the
/// status byte; a three-descriptor chain (header, data, status) is put on
/// the available ring. Returns the chain's head and the request page, or
/// `None` when the request cannot be queued (no such device, a write to a
/// read-only device, no page, no three free descriptors).
///
/// The caller then notifies the device, waits for the status byte to
/// leave `STATUS_PENDING` while feeding the used ring to `pending`, and
/// finishes with `block_complete`.
#[verifier::spinoff_prover]
pub fn block_op(
    devs: &mut VirtioDevices,
    heap: &mut Heap,
    dev: usize,
    buffer: usize,
    size: u32,
    offset: u64,
    write: bool,
) -> (r: Option<(u16, usize)>)
    requires
        usize::BITS == 64,
        old(devs).wf(),
        old(heap).wf(),
    ensures
        final(devs).wf(),
        final(heap).wf(),
        final(heap).same_geometry(old(heap)),
        block_op_effect(
            *old(devs),
            *final(devs),
            *old(heap),
            *final(heap),
            dev,
            buffer,
            size,
            offset,
            write,
            r,
        ),
{
    if dev >= MAX_VIRTIO_DEVICES {
        return None;
    }
    if devs.block[dev].dev == 0 {
        return None;
    }
    if devs.block[dev].read_only && write {
        return None;
    }
    let ghost h0 = *heap;
    let ghost b0 = devs.block@[dev as int];
    proof {
        lemma_allocate_one(h0.descs());
    }
    let req = match allocate(heap, 1) {
        Some(p) => p,
        None => return None,
    };
    let ghost fi = first_fit(h0.descs(), 1).unwrap();
    proof {
        lemma_first_fit_window(h0.descs(), 1, 0);
        assert(h0.page_addr(fi) + 4096 <= h0.start() + h0.npages() * 4096) by (nonlinear_arith)
            requires
                fi + 1 <= h0.npages(),
                h0.page_addr(fi) == h0.start() + fi * 4096,
        ;
        assert((fi * 4096) % 4096 == 0 && (fi * 4096) / 4096 == fi) by (nonlinear_arith);
        assert(h0.is_frame(req as int));
        assert(h0.frame_index(req as int) == fi);
    }
    let blktype = if write {
        VIRTIO_BLK_T_OUT
    } else {
        VIRTIO_BLK_T_IN
    };
    let w3 = heap.read_word(req, 3);
    heap.write_word(req, 0, blktype as i64);
    heap.write_word(req, 1, (offset / 512) as i64);
    heap.write_word(req, 2, buffer as i64);
    heap.write_word(req, 3, (w3 & !0xff) | 0xff);
    proof {
        crate::mm::allocator::page_frame::lemma_word_index(fi, 3, h0.npages());
        assert(heap.mem() == request_mem(h0.mem(), fi, blktype, offset / 512, buffer));
    }
    let mut bdev = devs.block[dev];
    let chain = alloc_desc_chain(&mut bdev.queue);
    let (head, data, stat) = match chain {
        Some(c) => (c[0], c[1], c[2]),
        None => {
            let ghost hm = *heap;
            proof {
                lemma_desc_bits();
                assert(hm.descs()[fi] == 3u8);
                assert(run_end_from(hm.descs(), fi) == Some(fi));
                assert((req - hm.start()) / 4096 == fi);
            }
            deallocate(heap, req);
            proof {
                assert(heap.descs() =~= h0.descs()) by {
                    assert(h0.descs()[fi] == 0u8);
                }
            }
            return None;
        },
    };
    let head_desc = Descriptor { addr: req as u64, len: 16, flags: VIRTIO_DESC_F_NEXT, next: data };
    let data_flags = if write {
        VIRTIO_DESC_F_NEXT
    } else {
        VIRTIO_DESC_F_NEXT | VIRTIO_DESC_F_WRITE
    };
    let data_desc = Descriptor { addr: buffer as u64, len: size, flags: data_flags, next: stat };
    let status_desc = Descriptor {
        addr: (req + 24) as u64,
        len: 1,
        flags: VIRTIO_DESC_F_WRITE,
        next: 0,
    };
    let ghost d0 = bdev.queue.desc@;
    bdev.queue.desc[head as usize] = head_desc;
    bdev.queue.desc[data as usize] = data_desc;
    bdev.queue.desc[stat as usize] = status_desc;
    bdev.queue.req_head[head as usize] = req;
    let avail_idx = bdev.queue.avail.idx;
    bdev.queue.avail.ring[(avail_idx as usize) % VIRTIO_RING_SIZE] = head;
    bdev.queue.avail.idx = avail_idx.wrapping_add(1);
    proof {
        assert(1u16 & 1u16 != 0 && (1u16 | 2u16) & 1u16 != 0 && 2u16 & 1u16 == 0)
            by (bit_vector);
        let d2 = bdev.queue.desc@;
        assert(block_ok(b0));
        assert forall|x: int| 0 <= x < 8 implies #[trigger] chain_finite(d2, x) by {
            assert(chain_finite(d0, x));
            let f = choose|f: nat| chain_done(d0, x, f);
            lemma_chain_rewrite(d0, d2, head as int, data as int, stat as int, x, f);
        }
    }
    devs.block.set(dev, bdev);
    proof {
        assert forall|i: int| 0 <= i < MAX_VIRTIO_DEVICES implies #[trigger] block_ok(devs.block@[i]) by {
            if i != dev {
                assert(block_ok(old(devs).block@[i]));
            }
        }
    }
    Some((head, req))
}

/// Finish a request once its status byte `status` has left
/// `STATUS_PENDING`: give the request page back and report whether the
/// device answered success (0).
pub fn block_complete(heap: &mut Heap, req: usize, status: u8) -> (ok: bool)
    requires
        old(heap).wf(),
        old(heap).start() <= req < old(heap).heap_begin() + old(heap).heap_len(),
        run_end_from(old(heap).descs(), (req - old(heap).start()) / 4096) is Some,
    ensures
        ok == (status == 0),
        final(heap).wf(),
        final(heap).same_geometry(old(heap)),
        final(heap).mem() == old(heap).mem(),
        final(heap).descs() == clear_run(
            old(heap).descs(),
            (req - old(heap).start()) / 4096,
            run_end_from(old(heap).descs(), (req - old(heap).start()) / 4096).unwrap(),
        ),
{
    let ok = status == 0;
    free_request(heap, req);
    ok
}

/// Give a request page back.
fn free_request(heap: &mut Heap, req: usize)
    requires
        old(heap).wf(),
        old(heap).start() <= req < old(heap).heap_begin() + old(heap).heap_len(),
        run_end_from(old(heap).descs(), (req - old(heap).start()) / 4096) is Some,
    ensures
        final(heap).wf(),
        final(heap).same_geometry(old(heap)),
        final(heap).mem() == old(heap).mem(),
        final(heap).descs() == clear_run(
            old(heap).descs(),
            (req - old(heap).start()) / 4096,
            run_end_from(old(heap).descs(), (req - old(heap).start()) / 4096).unwrap(),
        ),
{
    if req == 0 {
        return;
    }
    deallocate(heap, req);
}

/// Queue a read of `size` bytes at byte `offset` of block device `dev`
/// into `buffer` (see `block_op`).
pub fn block_read(
    devs: &mut VirtioDevices,
    heap: &mut Heap,
    dev: usize,
    buffer: usize,
    size: u32,
    offset: u64,
) -> (r: Option<(u16, usize)>)
    requires
        usize::BITS == 64,
        old(devs).wf(),
        old(heap).wf(),
    ensures
        final(devs).wf(),
        final(heap).wf(),
        final(heap).same_geometry(old(heap)),
        block_op_effect(
            *old(devs),
            *final(devs),
            *old(heap),
            *final(heap),
            dev,
            buffer,
            size,
            offset,
            false,
            r,
        ),
        (r is Some) == (!block_op_refused(*old(devs), dev, false) && first_fit(old(heap).descs(), 1) is Some
            && free_below(old(devs).block@[dev as int].queue.free@, 8) >= 3),
        r is Some ==> {
            let (h, req) = r.unwrap();
            let b = final(devs).block@[dev as int];
            &&& h < 8
            &&& b.queue.desc@[b.queue.desc@[h as int].next as int].flags == VIRTIO_DESC_F_NEXT
                | VIRTIO_DESC_F_WRITE
            &&& b.queue.desc@[b.queue.desc@[h as int].next as int].addr == buffer as u64
            &&& b.queue.desc@[b.queue.desc@[h as int].next as int].len == size
            &&& final(heap).word(req as int, 0) == VIRTIO_BLK_T_IN as i64
            &&& final(heap).word(req as int, 1) == (offset / 512) as i64
        },
{
    let ghost h0 = *heap;
    let r = block_op(devs, heap, dev, buffer, size, offset, false);
    proof {
        if r is Some {
            let fi = first_fit(h0.descs(), 1).unwrap();
            crate::mm::allocator::page_frame::lemma_first_fit_window(h0.descs(), 1, 0);
            assert((fi * 4096) % 4096 == 0 && (fi * 4096) / 4096 == fi) by (nonlinear_arith);
            crate::mm::allocator::page_frame::lemma_word_index(fi, 3, h0.npages());
            assert(heap.frame_index(r.unwrap().1 as int) == fi);
        }
    }
    r
}

/// Queue a write of `size` bytes from `buffer` to byte `offset` of block
/// device `dev` (see `block_op`).
pub fn block_write(
    devs: &mut VirtioDevices,
    heap: &mut Heap,
    dev: usize,
    buffer: usize,
    size: u32,
    offset: u64,
) -> (r: Option<(u16, usize)>)
    requires
        usize::BITS == 64,
        old(devs).wf(),
        old(heap).wf(),
    ensures
        final(devs).wf(),
        final(heap).wf(),
        final(heap).same_geometry(old(heap)),
        block_op_effect(
            *old(devs),
            *final(devs),
            *old(heap),
            *final(heap),
            dev,
            buffer,
            size,
            offset,
            true,
            r,
        ),
        (r is Some) == (!block_op_refused(*old(devs), dev, true) && first_fit(old(heap).descs(), 1) is Some
            && free_below(old(devs).block@[dev as int].queue.free@, 8) >= 3),
        r is Some ==> {
            let (h, req) = r.unwrap();
            let b = final(devs).block@[dev as int];
            &&& h < 8
            &&& b.queue.desc@[b.queue.desc@[h as int].next as int].flags == VIRTIO_DESC_F_NEXT
            &&& b.queue.desc@[b.queue.desc@[h as int].next as int].addr == buffer as u64
            &&& b.queue.desc@[b.queue.desc@[h as int].next as int].len == size
            &&& final(heap).word(req as int, 0) == VIRTIO_BLK_T_OUT as i64
            &&& final(heap).word(req as int, 1) == (offset / 512) as i64
        },
{
    let ghost h0 = *heap;
    let r = block_op(devs, heap, dev, buffer, size, offset, true);
    proof {
        if r is Some {
            let fi = first_fit(h0.descs(), 1).unwrap();
            crate::mm::allocator::page_frame::lemma_first_fit_window(h0.descs(), 1, 0);
            assert((fi * 4096) % 4096 == 0 && (fi * 4096) / 4096 == fi) by (nonlinear_arith);
            crate::mm::allocator::page_frame::lemma_word_index(fi, 3, h0.npages());
            assert(heap.frame_index(r.unwrap().1 as int) == fi);
        }
    }
    r
}

/// One 32-bit register access on a device's MMIO window.
#[derive(Copy, Clone, PartialEq, Eq, Structural, Debug)]
pub enum MmioAccess {
    Write(MmioOffsets, u32),
    Read(MmioOffsets),
}

/// How an access went: a write went through or faulted, a read gave a
/// value or faulted.
#[derive(Copy, Clone, PartialEq, Eq, Structural, Debug)]
pub enum MmioReply {
    Written(bool),
    Value(Option<u32>),
}

/// Where the block device bring-up stands: the access it last asked for.
#[derive(Copy, Clone, PartialEq, Eq, Structural, Debug)]
pub enum SetupStage {
    Reset,
    Acknowledge,
    Driver,
    HostFeatures,
    GuestFeatures,
    FeaturesOk,
    CheckStatus,
    SelectQueue,
    QueueNumMax,
    QueueNum,
    QueueAlign,
    PageSize,
    QueuePfn,
    DriverOk,
    /// The device was told that setup failed.
    Failing,
}

/// State of a block device bring-up: the device, the stage, the status
/// bits written so far, whether the device is read-only, and the queue
/// memory once allocated.
#[derive(Copy, Clone, PartialEq, Eq, Structural, Debug)]
pub struct BlockSetup {
    pub ptr: usize,
    pub stage: SetupStage,
    pub status: u32,
    pub read_only: bool,
    pub queue_mem: usize,
}

/// What the bring-up asks for next.
#[derive(Copy, Clone, PartialEq, Eq, Structural, Debug)]
pub enum SetupAction {
    Access(MmioAccess),
    /// Done: whether the device is ready.
    Finished(bool),
}

/// Pages of queue memory: the descriptor table and available ring, then
/// the used ring on the next page boundary.
pub const QUEUE_PAGES: usize = 2;

/// Byte offset of the available ring in the queue memory: it follows the
/// descriptor table.
pub const DESCRIPTOR_TABLE_BYTES: usize = 128;

/// Byte offset of the used ring in the queue memory.
pub const USED_RING_OFFSET: usize = 4096;

impl BlockSetup {
    pub open spec fn wf(self) -> bool {
        &&& MMIO_VIRTIO_START <= self.ptr < MMIO_VIRTIO_START + MAX_VIRTIO_DEVICES * 4096
        &&& self.queue_mem + QUEUE_PAGES * 4096 <= usize::MAX
    }
}

pub open spec fn wrote(reply: MmioReply) -> bool {
    reply == MmioReply::Written(true)
}

pub open spec fn read_value(reply: MmioReply) -> Option<u32> {
    match reply {
        MmioReply::Value(v) => v,
        MmioReply::Written(_) => None,
    }
}

/// `s` moved to `stage`, asking for `access`.
pub open spec fn ask(s: BlockSetup, stage: SetupStage, access: MmioAccess) -> (BlockSetup, SetupAction) {
    (BlockSetup { stage, ..s }, SetupAction::Access(access))
}

pub open spec fn give_up(s: BlockSetup) -> (BlockSetup, SetupAction) {
    (s, SetupAction::Finished(false))
}

/// Tell the device that setup failed, then stop.
pub open spec fn fail_device(s: BlockSetup) -> (BlockSetup, SetupAction) {
    ask(s, SetupStage::Failing, MmioAccess::Write(MmioOffsets::Status, VIRTIO_FAILED))
}

/// The bring-up's next state and request after the device answered
/// `reply` to the last access; `page` is the queue memory the allocator
/// hands out, if any, when the queue is set up.
pub open spec fn setup_next(s: BlockSetup, reply: MmioReply, page: Option<usize>) -> (
    BlockSetup,
    SetupAction,
) {
    match s.stage {
        SetupStage::Reset => if wrote(reply) {
            ask(
                BlockSetup { status: VIRTIO_ACKNOWLEDGE, ..s },
                SetupStage::Acknowledge,
                MmioAccess::Write(MmioOffsets::Status, VIRTIO_ACKNOWLEDGE),
            )
        } else {
            give_up(s)
        },
        SetupStage::Acknowledge => if wrote(reply) {
            let st = s.status | VIRTIO_DRIVER;
            ask(
                BlockSetup { status: st, ..s },
                SetupStage::Driver,
                MmioAccess::Write(MmioOffsets::Status, st),
            )
        } else {
            give_up(s)
        },
        SetupStage::Driver => if wrote(reply) {
            ask(s, SetupStage::HostFeatures, MmioAccess::Read(MmioOffsets::HostFeatures))
        } else {
            give_up(s)
        },
        SetupStage::HostFeatures => match read_value(reply) {
            None => give_up(s),
            Some(hf) => {
                let ro = 1u32 << VIRTIO_BLK_F_RO;
                ask(
                    BlockSetup { read_only: hf & ro != 0, ..s },
                    SetupStage::GuestFeatures,
                    MmioAccess::Write(MmioOffsets::GuestFeatures, hf & !ro),
                )
            },
        },
        SetupStage::GuestFeatures => if wrote(reply) {
            let st = s.status | VIRTIO_FEATURES_OK;
            ask(
                BlockSetup { status: st, ..s },
                SetupStage::FeaturesOk,
                MmioAccess::Write(MmioOffsets::Status, st),
            )
        } else {
            give_up(s)
        },
        SetupStage::FeaturesOk => if wrote(reply) {
            ask(s, SetupStage::CheckStatus, MmioAccess::Read(MmioOffsets::Status))
        } else {
            give_up(s)
        },
        SetupStage::CheckStatus => match read_value(reply) {
            None => give_up(s),
            Some(st) => if st & VIRTIO_FEATURES_OK == 0 {
                fail_device(s)
            } else {
                ask(s, SetupStage::SelectQueue, MmioAccess::Write(MmioOffsets::QueueSel, 0))
            },
        },
        SetupStage::SelectQueue => if wrote(reply) {
            ask(s, SetupStage::QueueNumMax, MmioAccess::Read(MmioOffsets::QueueNumMax))
        } else {
            give_up(s)
        },
        SetupStage::QueueNumMax => match read_value(reply) {
            None => give_up(s),
            Some(q) => if q < VIRTIO_RING_SIZE as u32 {
                fail_device(s)
            } else {
                ask(
                    s,
                    SetupStage::QueueNum,
                    MmioAccess::Write(MmioOffsets::QueueNum, VIRTIO_RING_SIZE as u32),
                )
            },
        },
        SetupStage::QueueNum => if wrote(reply) {
            ask(s, SetupStage::QueueAlign, MmioAccess::Write(MmioOffsets::QueueAlign, 4096))
        } else {
            give_up(s)
        },
        SetupStage::QueueAlign => if wrote(reply) {
            ask(s, SetupStage::PageSize, MmioAccess::Write(MmioOffsets::GuestPageSize, 4096))
        } else {
            give_up(s)
        },
        SetupStage::PageSize => if wrote(reply) {
            match page {
                None => fail_device(s),
                Some(p) => ask(
                    BlockSetup { queue_mem: p, ..s },
                    SetupStage::QueuePfn,
                    MmioAccess::Write(MmioOffsets::QueuePfn, (p as u32) / 4096),
                ),
            }
        } else {
            give_up(s)
        },
        SetupStage::QueuePfn => if wrote(reply) {
            let st = s.status | VIRTIO_DRIVER_OK;
            ask(
                BlockSetup { status: st, ..s },
                SetupStage::DriverOk,
                MmioAccess::Write(MmioOffsets::Status, st),
            )
        } else {
            give_up(s)
        },
        SetupStage::DriverOk => (s, SetupAction::Finished(wrote(reply))),
        SetupStage::Failing => give_up(s),
    }
}

/// The device's feature word decides whether it is read-only: when the
/// HostFeatures read answers `hf`, the bring-up records the device as
/// read-only exactly when bit 5 (`VIRTIO_BLK_F_RO`) of `hf` is set, and
/// writes back every other feature bit of `hf` as the guest's features.
/// No other step changes that record, so the device is registered with
/// it. `r` is what a step of the bring-up returns.
pub proof fn lemma_read_only_from_features(
    s: BlockSetup,
    reply: MmioReply,
    page: Option<usize>,
    r: (BlockSetup, SetupAction),
)
    requires
        r == setup_next(s, reply, page),
    ensures
        s.stage == SetupStage::HostFeatures ==> match reply {
            MmioReply::Value(Some(hf)) => {
                &&& r.0.read_only == ((hf >> 5u32) & 1 == 1)
                &&& r.0.stage == SetupStage::GuestFeatures
                &&& r.0.ptr == s.ptr && r.0.status == s.status && r.0.queue_mem == s.queue_mem
                &&& r.1 == SetupAction::Access(
                    MmioAccess::Write(MmioOffsets::GuestFeatures, hf & 0xffff_ffdfu32),
                )
            },
            _ => r.0 == s && r.1 == SetupAction::Finished(false),
        },
        s.stage != SetupStage::HostFeatures ==> r.0.read_only == s.read_only,
{
    if s.stage == SetupStage::HostFeatures {
        if let MmioReply::Value(Some(hf)) = reply {
            assert((hf & (1u32 << 5u32) != 0) == ((hf >> 5u32) & 1 == 1)) by (bit_vector);
            assert(hf & !(1u32 << 5u32) == hf & 0xffff_ffdfu32) by (bit_vector);
        }
    }
}

/// The queue memory the allocator hands out next, if it can.
pub open spec fn queue_page(h: Heap) -> Option<usize> {
    match first_fit(h.descs(), QUEUE_PAGES as int) {
        Some(i) => Some(h.page_addr(i) as usize),
        None => None,
    }
}

/// `s` allocates queue memory on `reply`.
pub open spec fn allocates_on(s: BlockSetup, reply: MmioReply) -> bool {
    s.stage == SetupStage::PageSize && wrote(reply)
}

/// `s` records the device on `reply`.
pub open spec fn registers_on(s: BlockSetup, reply: MmioReply) -> bool {
    s.stage == SetupStage::QueuePfn && wrote(reply)
}

/// Start bringing up the block device at `ptr`: reset it first.
pub fn setup_block_device(ptr: usize) -> (r: (BlockSetup, MmioAccess))
    requires
        MMIO_VIRTIO_START <= ptr < MMIO_VIRTIO_START + MAX_VIRTIO_DEVICES * 4096,
    ensures
        r.0.wf(),
        r.0 == (BlockSetup {
            ptr,
            stage: SetupStage::Reset,
            status: 0,
            read_only: false,
            queue_mem: 0,
        }),
        r.1 == MmioAccess::Write(MmioOffsets::Status, 0),
{
    (
        BlockSetup { ptr, stage: SetupStage::Reset, status: 0, read_only: false, queue_mem: 0 },
        MmioAccess::Write(MmioOffsets::Status, 0),
    )
}

/// Bytes of queue memory rounded to pages: `QUEUE_PAGES`.
fn queue_pages() -> (r: usize)
    requires
        usize::BITS == 64,
    ensures
        r == QUEUE_PAGES,
{
    let desc_bytes = virtqueue_desc_bytes();
    let avail_bytes = virtqueue_avail_bytes();
    let used_bytes = virtqueue_used_bytes();
    assert(4096usize & 4095usize == 0) by (bit_vector);
    let used_offset = align_up(desc_bytes + avail_bytes, 4096);
    assert(used_offset == 4096) by (bit_vector)
        requires
            used_offset & 4095usize == 0,
            150 <= used_offset,
            used_offset - 150 < 4096,
    ;
    let queue_bytes = used_offset + used_bytes;
    let rounded = align_up(queue_bytes, 4096);
    assert(rounded == 8192) by (bit_vector)
        requires
            rounded & 4095usize == 0,
            4168 <= rounded,
            rounded - 4168 < 4096,
    ;
    rounded / 4096
}

/// Advance the bring-up of a block device after the device answered
/// `reply`: reset, acknowledge, negotiate features (masking read-only),
/// check that the device accepted them, size the queue, allocate and
/// hand over the queue memory, record the device, and set DRIVER_OK.
/// Any faulted access ends the bring-up; a refused feature set, a short
/// queue, or no memory for the queue first marks the device FAILED.
pub fn setup_block_step(
    s: BlockSetup,
    reply: MmioReply,
    devs: &mut VirtioDevices,
    heap: &mut Heap,
) -> (r: (BlockSetup, SetupAction))
    requires
        usize::BITS == 64,
        s.wf(),
        old(devs).wf(),
        old(heap).wf(),
    ensures
        r.0.wf(),
        final(devs).wf(),
        final(heap).wf(),
        final(heap).same_geometry(old(heap)),
        r == setup_next(s, reply, queue_page(*old(heap))),
        if allocates_on(s, reply) {
            match first_fit(old(heap).descs(), QUEUE_PAGES as int) {
                None => final(heap).descs() == old(heap).descs() && final(heap).mem() == old(
                    heap,
                ).mem(),
                Some(i) => final(heap).descs() == mark_run(
                    old(heap).descs(),
                    i,
                    QUEUE_PAGES as int,
                ) && final(heap).mem() == zero_pages(old(heap).mem(), i, QUEUE_PAGES as int),
            }
        } else {
            *final(heap) == *old(heap)
        },
        if registers_on(s, reply) {
            &&& ({
                let b = final(devs).block@[slot_of(s.ptr)];
                &&& b.dev == s.ptr
                &&& b.ack_used_idx == 0
                &&& b.read_only == s.read_only
                &&& b.queue.desc_addr == s.queue_mem
                &&& b.queue.avail_addr == s.queue_mem + DESCRIPTOR_TABLE_BYTES
                &&& b.queue.used_addr == s.queue_mem + USED_RING_OFFSET
                &&& forall|i: int| 0 <= i < 8 ==> #[trigger] b.queue.free@[i]
                &&& forall|i: int| 0 <= i < 8 ==> #[trigger] b.queue.req_head@[i] == 0
                &&& b.queue.avail.idx == 0
            })
            &&& forall|i: int|
                0 <= i < 8 && i != slot_of(s.ptr) ==> #[trigger] final(devs).block@[i] == old(
                    devs,
                ).block@[i]
            &&& final(devs).devices@ == old(devs).devices@.update(
                slot_of(s.ptr),
                Some(VirtioDevice { kind: DeviceType::Block }),
            )
        } else {
            *final(devs) == *old(devs)
        },
{
    let ghost h0 = *heap;
    let ghost page = queue_page(h0);
    let ok = match reply {
        MmioReply::Written(b) => b,
        MmioReply::Value(_) => false,
    };
    let value = match reply {
        MmioReply::Value(v) => v,
        MmioReply::Written(_) => None,
    };
    let fail = (BlockSetup { stage: SetupStage::Failing, ..s }, SetupAction::Access(
        MmioAccess::Write(MmioOffsets::Status, VIRTIO_FAILED),
    ));
    match s.stage {
        SetupStage::Reset => {
            if !ok {
                return (s, SetupAction::Finished(false));
            }
            let st = VIRTIO_ACKNOWLEDGE;
            (BlockSetup { stage: SetupStage::Acknowledge, status: st, ..s }, SetupAction::Access(
                MmioAccess::Write(MmioOffsets::Status, st),
            ))
        },
        SetupStage::Acknowledge => {
            if !ok {
                return (s, SetupAction::Finished(false));
            }
            let st = s.status | VIRTIO_DRIVER;
            (BlockSetup { stage: SetupStage::Driver, status: st, ..s }, SetupAction::Access(
                MmioAccess::Write(MmioOffsets::Status, st),
            ))
        },
        SetupStage::Driver => {
            if !ok {
                return (s, SetupAction::Finished(false));
            }
            (BlockSetup { stage: SetupStage::HostFeatures, ..s }, SetupAction::Access(
                MmioAccess::Read(MmioOffsets::HostFeatures),
            ))
        },
        SetupStage::HostFeatures => {
            let hf = match value {
                Some(v) => v,
                None => return (s, SetupAction::Finished(false)),
            };
            let ro = 1u32 << VIRTIO_BLK_F_RO;
            let guest_features = hf & !ro;
            let read_only = (hf & ro) != 0;
            (
                BlockSetup { stage: SetupStage::GuestFeatures, read_only, ..s },
                SetupAction::Access(MmioAccess::Write(MmioOffsets::GuestFeatures, guest_features)),
            )
        },
        SetupStage::GuestFeatures => {
            if !ok {
                return (s, SetupAction::Finished(false));
            }
            let st = s.status | VIRTIO_FEATURES_OK;
            (BlockSetup { stage: SetupStage::FeaturesOk, status: st, ..s }, SetupAction::Access(
                MmioAccess::Write(MmioOffsets::Status, st),
            ))
        },
        SetupStage::FeaturesOk => {
            if !ok {
                return (s, SetupAction::Finished(false));
            }
            (BlockSetup { stage: SetupStage::CheckStatus, ..s }, SetupAction::Access(
                MmioAccess::Read(MmioOffsets::Status),
            ))
        },
        SetupStage::CheckStatus => {
            let st = match value {
                Some(v) => v,
                None => return (s, SetupAction::Finished(false)),
            };
            if st & VIRTIO_FEATURES_OK == 0 {
                return fail;
            }
            (BlockSetup { stage: SetupStage::SelectQueue, ..s }, SetupAction::Access(
                MmioAccess::Write(MmioOffsets::QueueSel, 0),
            ))
        },
        SetupStage::SelectQueue => {
            if !ok {
                return (s, SetupAction::Finished(false));
            }
            (BlockSetup { stage: SetupStage::QueueNumMax, ..s }, SetupAction::Access(
                MmioAccess::Read(MmioOffsets::QueueNumMax),
            ))
        },
        SetupStage::QueueNumMax => {
            let qnmax = match value {
                Some(v) => v,
                None => return (s, SetupAction::Finished(false)),
            };
            if qnmax < VIRTIO_RING_SIZE as u32 {
                return fail;
            }
            (BlockSetup { stage: SetupStage::QueueNum, ..s }, SetupAction::Access(
                MmioAccess::Write(MmioOffsets::QueueNum, VIRTIO_RING_SIZE as u32),
            ))
        },
        SetupStage::QueueNum => {
            if !ok {
                return (s, SetupAction::Finished(false));
            }
            (BlockSetup { stage: SetupStage::QueueAlign, ..s }, SetupAction::Access(
                MmioAccess::Write(MmioOffsets::QueueAlign, 4096),
            ))
        },
        SetupStage::QueueAlign => {
            if !ok {
                return (s, SetupAction::Finished(false));
            }
            (BlockSetup { stage: SetupStage::PageSize, ..s }, SetupAction::Access(
                MmioAccess::Write(MmioOffsets::GuestPageSize, 4096),
            ))
        },
        SetupStage::PageSize => {
            if !ok {
                return (s, SetupAction::Finished(false));
            }
            let pages = queue_pages();
            let queue_mem = match zallocate(heap, pages) {
                Some(p) => p,
                None => return fail,
            };
            proof {
                let i = first_fit(h0.descs(), 2).unwrap();
                lemma_first_fit_window(h0.descs(), 2, 0);
                assert(h0.page_addr(i) + 2 * 4096 <= h0.start() + h0.npages() * 4096)
                    by (nonlinear_arith)
                    requires
                        i + 2 <= h0.npages(),
                        h0.page_addr(i) == h0.start() + i * 4096,
                ;
            }
            (BlockSetup { stage: SetupStage::QueuePfn, queue_mem, ..s }, SetupAction::Access(
                MmioAccess::Write(MmioOffsets::QueuePfn, (queue_mem as u32) / 4096),
            ))
        },
        SetupStage::QueuePfn => {
            if !ok {
                return (s, SetupAction::Finished(false));
            }
            register_block_device(
                devs,
                s.ptr,
                s.queue_mem,
                DESCRIPTOR_TABLE_BYTES,
                USED_RING_OFFSET,
                s.read_only,
            );
            let st = s.status | VIRTIO_DRIVER_OK;
            (BlockSetup { stage: SetupStage::DriverOk, status: st, ..s }, SetupAction::Access(
                MmioAccess::Write(MmioOffsets::Status, st),
            ))
        },
        SetupStage::DriverOk => (s, SetupAction::Finished(ok)),
        SetupStage::Failing => (s, SetupAction::Finished(false)),
    }
}

/// Completing a request gives back exactly the descriptors it took:
/// freeing the three-descriptor chain `h -> m -> s` that a request was
/// queued on, from a free map that lost just those three, restores the
/// free map as it was before the request.
pub proof fn lemma_completion_restores_free(d: Seq<Descriptor>, before: Seq<bool>, after: Seq<bool>, h: int)
    requires
        d.len() == 8,
        before.len() == 8,
        after.len() == 8,
        0 <= h < 8,
        has_next(d[h]),
        0 <= d[h].next < 8,
        has_next(d[d[h].next as int]),
        0 <= d[d[h].next as int].next < 8,
        !has_next(d[d[d[h].next as int].next as int]),
        before[h],
        before[d[h].next as int],
        before[d[d[h].next as int].next as int],
        forall|j: int|
            0 <= j < 8 ==> #[trigger] after[j] == (before[j] && j != h && j != d[h].next as int
                && j != d[d[h].next as int].next as int),
    ensures
        freed(d, after, h) == before,
{
    let m = d[h].next as int;
    let s = d[m].next as int;
    assert(nth(d, h, 0) == h);
    assert(nth(d, h, 1) == m);
    assert(nth(d, h, 2) == s);
    assert(ends_at(d, h, 2)) by {
        assert forall|k: nat| k <= 2 implies 0 <= #[trigger] nth(d, h, k) < VIRTIO_RING_SIZE by {
            if k == 1 {
                assert(nth(d, h, 1) == m);
            } else if k == 2 {
                assert(nth(d, h, 2) == s);
            }
        }
        assert forall|k: nat| k < 2 implies has_next(d[#[trigger] nth(d, h, k)]) by {
            if k == 1 {
                assert(nth(d, h, 1) == m);
            }
        }
    }
    let n = chain_len(d, h);
    assert(ends_at(d, h, n));
    lemma_ends_at_unique(d, h, n, 2);
    assert forall|j: int| 0 <= j < 8 implies #[trigger] freed(d, after, h)[j] == before[j] by {
        if j == h {
            assert(on_chain(d, h, 2, j)) by {
                assert(nth(d, h, 0) == j);
            }
        } else if j == m {
            assert(on_chain(d, h, 2, j)) by {
                assert(nth(d, h, 1) == j);
            }
        } else if j == s {
            assert(on_chain(d, h, 2, j)) by {
                assert(nth(d, h, 2) == j);
            }
        } else {
            if on_chain(d, h, 2, j) {
                let k = choose|k: nat| k <= 2 && #[trigger] nth(d, h, k) == j;
                assert(k == 0 || k == 1 || k == 2);
            }
        }
    }
    assert(freed(d, after, h) =~= before);
}

/// A queued request's descriptors come back when it completes: after
/// `block_op` queues a request on chain `h`, freeing that chain (as
/// `pending` does once the device reports `h` used) gives back the free
/// map the device had before the request.
pub proof fn lemma_request_round_trip(
    d0: VirtioDevices,
    d1: VirtioDevices,
    h0: Heap,
    h1: Heap,
    dev: usize,
    buffer: usize,
    size: u32,
    offset: u64,
    write: bool,
    r: Option<(u16, usize)>,
)
    requires
        d0.wf(),
        d1.wf(),
        block_op_effect(d0, d1, h0, h1, dev, buffer, size, offset, write, r),
        r is Some,
    ensures
        freed(
            d1.block@[dev as int].queue.desc@,
            d1.block@[dev as int].queue.free@,
            r.unwrap().0 as int,
        ) == d0.block@[dev as int].queue.free@,
{
    if block_op_refused(d0, dev, write) || first_fit(h0.descs(), 1) is None {
        assert(r is None);
    }
    let b = d1.block@[dev as int];
    let b0 = d0.block@[dev as int];
    let h = r.unwrap().0 as int;
    let hd = b.queue.desc@[h];
    let dd = b.queue.desc@[hd.next as int];
    let sd = b.queue.desc@[dd.next as int];
    assert(has_next(hd)) by {
        assert(1u16 & 1u16 != 0) by (bit_vector);
    }
    assert(has_next(dd)) by {
        assert(1u16 & 1u16 != 0 && (1u16 | 2u16) & 1u16 != 0) by (bit_vector);
    }
    assert(!has_next(sd)) by {
        assert(2u16 & 1u16 == 0) by (bit_vector);
    }
    lemma_completion_restores_free(b.queue.desc@, b0.queue.free@, b.queue.free@, h);
}

/// Once the device reports a queued request used, its descriptors are
/// free again: `block_op` queues a request on chain `h`; when the used
/// ring holds exactly one new entry, naming `h`, `pending` leaves the
/// free map as it was before the request.
pub proof fn lemma_completed_request_frees(
    d0: VirtioDevices,
    d1: VirtioDevices,
    h0: Heap,
    h1: Heap,
    dev: usize,
    buffer: usize,
    size: u32,
    offset: u64,
    write: bool,
    r: Option<(u16, usize)>,
    used: UsedRing,
    b2: BlockDevice,
)
    requires
        d0.wf(),
        d1.wf(),
        block_op_effect(d0, d1, h0, h1, dev, buffer, size, offset, write, r),
        r is Some,
        pending_steps(d1.block@[dev as int].ack_used_idx, used.idx) == 1,
        used.ring@[d1.block@[dev as int].ack_used_idx as int % 8].id == r.unwrap().0,
        pending_effect(d1.block@[dev as int], b2, used),
    ensures
        b2.queue.free@ == d0.block@[dev as int].queue.free@,
{
    lemma_request_round_trip(d0, d1, h0, h1, dev, buffer, size, offset, write, r);
    if block_op_refused(d0, dev, write) || first_fit(h0.descs(), 1) is None {
        assert(r is None);
    }
    reveal_with_fuel(pending_spec, 2);
    assert(r.unwrap().0 < 8);
}

/// Position of a stage in the bring-up.
pub open spec fn stage_rank(st: SetupStage) -> int {
    match st {
        SetupStage::Reset => 0,
        SetupStage::Acknowledge => 1,
        SetupStage::Driver => 2,
        SetupStage::HostFeatures => 3,
        SetupStage::GuestFeatures => 4,
        SetupStage::FeaturesOk => 5,
        SetupStage::CheckStatus => 6,
        SetupStage::SelectQueue => 7,
        SetupStage::QueueNumMax => 8,
        SetupStage::QueueNum => 9,
        SetupStage::QueueAlign => 10,
        SetupStage::PageSize => 11,
        SetupStage::QueuePfn => 12,
        SetupStage::DriverOk => 13,
        SetupStage::Failing => 14,
    }
}

/// The bring-up always ends: every step that asks for another access
/// moves to a later stage, so at most fifteen accesses are made.
pub proof fn lemma_setup_progresses(s: BlockSetup, reply: MmioReply, page: Option<usize>)
    ensures
        setup_next(s, reply, page).1 is Access ==> stage_rank(setup_next(s, reply, page).0.stage)
            > stage_rank(s.stage),
        0 <= stage_rank(s.stage) <= 14,
{
}

} // verus!
