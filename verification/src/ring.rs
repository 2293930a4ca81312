//! The SPSC ring primitive: a fixed-capacity circular buffer of descriptors
//! with two monotonically increasing 32-bit indices, `producer` and
//! `consumer`. All index arithmetic is 32-bit unsigned with wrap-around;
//! occupancy is `producer - consumer` under that wrap, and the slot for an
//! index is `index % capacity`, which coincides with the kernel's
//! `index & (capacity - 1)` because the capacity divides 2^32.

use vstd::prelude::*;

verus! {

use vstd::arithmetic::div_mod::lemma_fundamental_div_mod;
use vstd::arithmetic::div_mod::lemma_mod_equivalence;
use vstd::arithmetic::div_mod::lemma_mod_mod;
use vstd::arithmetic::div_mod::lemma_mod_multiples_vanish;
use vstd::arithmetic::div_mod::lemma_small_mod;

/// One ring descriptor. FILL and COMPLETION entries carry only `addr`
/// (a frame offset); RX and TX entries carry `{addr, len, options}`.
#[derive(Clone, Copy, PartialEq, Eq, Structural, Debug)]
pub struct RingDesc {
    pub addr: u64,
    pub len: u32,
    pub options: u32,
}

/// Ring capacities must divide 2^32 — equivalently, be a power of two — so
/// that slot selection by `index % capacity` is insensitive to the 32-bit
/// wrap-around of the indices themselves; and they must be strictly below
/// 2^32 so that a full ring's occupancy is representable (with a capacity of
/// exactly 2^32, full and empty would both read as `producer == consumer`).
pub open spec fn cap_ok(cap: int) -> bool {
    0 < cap < 0x1_0000_0000int && 0x1_0000_0000int % cap == 0
}

/// Reducing an index modulo 2^32 (the wrap of a `u32`) does not change its
/// slot: `(x % 2^32) % cap == x % cap` whenever `cap` divides 2^32.
pub proof fn lemma_wrap_mod(x: int, cap: int)
    requires
        cap_ok(cap),
        0 <= x,
    ensures
        (x % 0x1_0000_0000int) % cap == x % cap,
{
    let q = 0x1_0000_0000int / cap;
    lemma_fundamental_div_mod(0x1_0000_0000int, cap);
    assert(cap * q == 0x1_0000_0000int);
    assert(q != 0) by {
        if q == 0 {
            assert(cap * 0int == 0int);
        }
    }
    assert(q > 0) by {
        if q < 0 {
            vstd::arithmetic::mul::lemma_mul_strictly_positive(cap, -q);
            assert(cap * q == -(cap * (-q))) by {
                vstd::arithmetic::mul::lemma_mul_unary_negation(cap, q);
            }
        }
    }
    lemma_mod_mod(x, cap, q);
}

/// Adding one full 32-bit wrap to an index does not change its slot.
pub proof fn lemma_wrap_add_mod(x: int, cap: int)
    requires
        cap_ok(cap),
    ensures
        (x + 0x1_0000_0000int) % cap == x % cap,
{
    let q = 0x1_0000_0000int / cap;
    lemma_fundamental_div_mod(0x1_0000_0000int, cap);
    assert(cap * q == 0x1_0000_0000int);
    lemma_mod_multiples_vanish(q, x, cap);
}

/// Two in-flight entry positions `c + j` and `c + k` with `j < k` and
/// `k - j < cap` never share a slot.
pub proof fn lemma_distinct_slots(c: int, j: int, k: int, cap: int)
    requires
        cap_ok(cap),
        0 <= c,
        0 <= j < k,
        k - j < cap,
    ensures
        (c + j) % cap != (c + k) % cap,
{
    if (c + j) % cap == (c + k) % cap {
        lemma_mod_equivalence(c + k, c + j, cap);
        assert((k - j) % cap == 0);
        lemma_small_mod((k - j) as nat, cap as nat);
    }
}

/// Ring occupancy is bounded: `0 <= producer - consumer <= capacity` under
/// 32-bit wrap arithmetic, in every well-formed ring. Construction
/// establishes this and every operation preserves it.
pub proof fn lemma_ring_occupancy_bounds(r: Ring)
    requires
        r.wf(),
    ensures
        0 <= r.occupancy() <= r.capacity(),
{
}

/// Length of one kernel ring mapping: the descriptor array of
/// `ring_size * stride` bytes (stride 8 for FILL and COMPLETION, 16 for RX
/// and TX) begins `desc_offset` bytes into the mapping, as the kernel
/// publishes it in its memory-map offsets query.
pub fn ring_map_len(desc_offset: u64, ring_size: u32, stride: u32) -> (n: u64)
    requires
        desc_offset + ring_size as int * stride as int <= u64::MAX,
    ensures
        n == desc_offset + ring_size as int * stride as int,
{
    proof {
        vstd::arithmetic::mul::lemma_mul_upper_bound(
            ring_size as int,
            0xFFFF_FFFFint,
            stride as int,
            0xFFFF_FFFFint,
        );
    }
    desc_offset + (ring_size as u64) * (stride as u64)
}

/// A single SPSC ring. In the raw datapath the two indices and the
/// descriptor array live in kernel-shared memory; here they are plain
/// fields, and which side (user or kernel) may call the producer or the
/// consumer operation is decided by the socket that owns the ring.
pub struct Ring {
    pub producer: u32,
    pub consumer: u32,
    pub slots: Vec<RingDesc>,
}

impl Ring {
    pub open spec fn capacity(self) -> int {
        self.slots.len() as int
    }

    /// `producer - consumer` under 32-bit wrap: the number of published,
    /// not yet consumed descriptors.
    pub open spec fn occupancy(self) -> int {
        self.producer.wrapping_sub(self.consumer) as int
    }

    pub open spec fn wf(self) -> bool {
        &&& cap_ok(self.capacity())
        &&& self.occupancy() <= self.capacity()
    }

    /// The published, not yet consumed descriptors, oldest first.
    pub open spec fn contents(self) -> Seq<RingDesc> {
        Seq::new(
            self.occupancy() as nat,
            |k: int| self.slots[(self.consumer as int + k) % self.capacity()],
        )
    }

    /// The frame offsets carried by the published descriptors.
    pub open spec fn addrs(self) -> Seq<u64> {
        self.contents().map_values(|d: RingDesc| d.addr)
    }

    /// An empty ring of the given capacity, all slots zeroed.
    pub fn new(capacity: usize) -> (r: Ring)
        requires
            cap_ok(capacity as int),
        ensures
            r.wf(),
            r.capacity() == capacity as int,
            r.producer == 0u32,
            r.consumer == 0u32,
            r.occupancy() == 0,
            r.contents() == Seq::<RingDesc>::empty(),
    {
        let slots: Vec<RingDesc> = vec![RingDesc { addr: 0, len: 0, options: 0 }; capacity];
        let r = Ring { producer: 0, consumer: 0, slots };
        proof {
            assert(r.contents() =~= Seq::<RingDesc>::empty());
        }
        r
    }

    pub fn occupancy_count(&self) -> (n: u32)
        ensures
            n as int == self.occupancy(),
    {
        self.producer.wrapping_sub(self.consumer)
    }

    pub fn is_empty(&self) -> (b: bool)
        ensures
            b <==> self.occupancy() == 0,
    {
        self.producer == self.consumer
    }

    pub fn is_full(&self) -> (b: bool)
        requires
            self.wf(),
        ensures
            b <==> self.occupancy() == self.capacity(),
    {
        self.producer.wrapping_sub(self.consumer) as usize >= self.slots.len()
    }

    /// Producer side: write the descriptor at `producer % capacity`, then
    /// advance `producer` by one. The new entry is the youngest.
    pub fn enqueue(&mut self, d: RingDesc)
        requires
            old(self).wf(),
            old(self).occupancy() < old(self).capacity(),
        ensures
            final(self).wf(),
            final(self).capacity() == old(self).capacity(),
            final(self).consumer == old(self).consumer,
            final(self).occupancy() == old(self).occupancy() + 1,
            final(self).contents() == old(self).contents().push(d),
    {
        let ghost pre = *self;
        let cap = self.slots.len();
        let idx = (self.producer as usize) % cap;
        self.slots[idx] = d;
        self.producer = self.producer.wrapping_add(1);
        proof {
            let capi = pre.capacity();
            let c = pre.consumer as int;
            let occ = pre.occupancy();
            assert(self.occupancy() == occ + 1);
            // The written slot is where entry number `occ` lives: the
            // producer index is congruent to `consumer + occupancy`.
            assert((pre.producer as int) % capi == (c + occ) % capi) by {
                if c + occ < 0x1_0000_0000int {
                    assert(pre.producer as int == c + occ);
                } else {
                    assert(pre.producer as int == c + occ - 0x1_0000_0000int);
                    lemma_wrap_add_mod(c + occ - 0x1_0000_0000int, capi);
                }
            }
            assert forall|k: int| 0 <= k < occ implies #[trigger] ((c + k) % capi) != (c + occ)
                % capi by {
                lemma_distinct_slots(c, k, occ, capi);
            }
            assert forall|k: int| 0 <= k <= occ implies 0 <= #[trigger] ((c + k) % capi)
                < capi by {
                vstd::arithmetic::div_mod::lemma_mod_bound(c + k, capi);
            }
            assert(self.contents() =~= pre.contents().push(d));
        }
    }

    /// Consumer side: read the descriptor at `consumer % capacity`, then
    /// advance `consumer` by one. Returns the oldest published entry.
    pub fn dequeue(&mut self) -> (d: RingDesc)
        requires
            old(self).wf(),
            old(self).occupancy() > 0,
        ensures
            final(self).wf(),
            final(self).capacity() == old(self).capacity(),
            final(self).producer == old(self).producer,
            final(self).slots@ == old(self).slots@,
            final(self).occupancy() == old(self).occupancy() - 1,
            d == old(self).contents()[0],
            final(self).contents() == old(self).contents().drop_first(),
    {
        let ghost pre = *self;
        let cap = self.slots.len();
        proof {
            vstd::arithmetic::div_mod::lemma_mod_bound(pre.consumer as int, pre.capacity());
        }
        let idx = (self.consumer as usize) % cap;
        let d = self.slots[idx];
        self.consumer = self.consumer.wrapping_add(1);
        proof {
            let capi = pre.capacity();
            let c = pre.consumer as int;
            assert forall|k: int| 0 <= k < self.occupancy() implies #[trigger] ((self.consumer
                as int + k) % capi) == (c + 1 + k) % capi by {
                if c + 1 >= 0x1_0000_0000int {
                    lemma_wrap_add_mod(self.consumer as int + k, capi);
                }
            }
            assert(self.contents() =~= pre.contents().drop_first());
        }
        d
    }
}

} // verus!
