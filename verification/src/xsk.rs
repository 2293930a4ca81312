//! The AF_XDP socket model: UMEM frame offsets moving between the four
//! rings, the user-side TX free-list, and the single pending-TX slot.
//!
//! Every frame offset is, at rest, in exactly one of four states:
//! owned-by-kernel-RX (published on FILL or already delivered on RX),
//! owned-by-user-TX (on the free-list or held as the pending TX frame), or
//! owned-by-kernel-TX (published on TX or already reported on COMPLETION).
//! The transient owned-by-user-RX state begins and ends inside one
//! `poll_rx` call. The multiset `offsets_multiset` collects all offsets
//! over all of these places; `partitioned` says it is exactly the set of
//! all frame offsets, once each — the property that makes the unsynchronised
//! sharing of UMEM bytes between kernel and user safe.
//!
//! The kernel's half of each ring is modelled by the `kernel_*` methods, so
//! the whole lifecycle can be driven and checked in one address space.

use vstd::prelude::*;

verus! {

use crate::ring::cap_ok;
use crate::ring::Ring;
use crate::ring::RingDesc;
use vstd::arithmetic::div_mod::lemma_mod_multiples_basic;
use vstd::multiset::Multiset;
use vstd::arithmetic::mul::lemma_mul_strict_inequality;
use vstd::arithmetic::mul::lemma_mul_upper_bound;
use vstd::seq_lib::group_to_multiset_ensures;
use vstd::seq_lib::lemma_multiset_commutative;

/// A FILL or COMPLETION entry: an 8-byte frame offset, no length.
pub open spec fn addr_desc(addr: u64) -> RingDesc {
    RingDesc { addr, len: 0, options: 0 }
}

/// The frame offsets `lo * frame_size, (lo + 1) * frame_size, ...` up to
/// (excluding) `hi * frame_size`.
pub open spec fn frame_offsets(lo: int, hi: int, frame_size: int) -> Seq<u64> {
    Seq::new((hi - lo) as nat, |i: int| ((lo + i) * frame_size) as u64)
}

pub struct XdpSocket {
    /// user -> kernel: empty frame offsets the kernel may fill with
    /// received packets.
    pub fill: Ring,
    /// kernel -> user: frame offsets whose transmission is done.
    pub comp: Ring,
    /// kernel -> user: `{offset, len}` descriptors of received packets.
    pub rx: Ring,
    /// user -> kernel: `{offset, len}` descriptors of outgoing packets.
    pub tx: Ring,
    /// Frame offsets owned by user space and free for transmit use.
    pub tx_free_frames: Vec<u64>,
    /// The at-most-one frame handed out by `get_tx_frame` and not yet
    /// submitted or cancelled.
    pub pending_tx_addr: Option<u64>,
    pub frame_size: u64,
    pub num_frames: u64,
}

impl XdpSocket {
    pub open spec fn umem_size(self) -> int {
        self.frame_size as int * self.num_frames as int
    }

    /// A frame offset: in `[0, umem_size)` and aligned to `frame_size`.
    pub open spec fn valid_offset(self, a: u64) -> bool {
        &&& a as int % self.frame_size as int == 0
        &&& (a as int) < self.umem_size()
    }

    pub open spec fn pending_mset(self) -> Multiset<u64> {
        match self.pending_tx_addr {
            Some(a) => Multiset::empty().insert(a),
            None => Multiset::empty(),
        }
    }

    /// Every frame offset currently recorded anywhere in the lifecycle:
    /// FILL and RX (owned by the kernel's receive side), the free-list and
    /// the pending slot (owned by user space), TX and COMPLETION (owned by
    /// the kernel's transmit side).
    pub open spec fn offsets_multiset(self) -> Multiset<u64> {
        self.fill.addrs().to_multiset().add(self.rx.addrs().to_multiset()).add(
            self.tx_free_frames@.to_multiset(),
        ).add(self.pending_mset()).add(self.tx.addrs().to_multiset()).add(
            self.comp.addrs().to_multiset(),
        )
    }

    pub open spec fn all_offsets(self) -> Multiset<u64> {
        frame_offsets(0, self.num_frames as int, self.frame_size as int).to_multiset()
    }

    /// Frame-offset partition: every frame offset is in exactly one place.
    pub open spec fn partitioned(self) -> bool {
        self.offsets_multiset() == self.all_offsets()
    }

    pub open spec fn wf(self) -> bool {
        &&& self.fill.wf()
        &&& self.comp.wf()
        &&& self.rx.wf()
        &&& self.tx.wf()
        &&& 0 < self.frame_size
        &&& self.umem_size() <= u64::MAX
        &&& forall|a: u64| #[trigger] self.offsets_multiset().count(a) <= 1
        &&& forall|a: u64|
            #[trigger] self.offsets_multiset().count(a) > 0 ==> self.valid_offset(a)
        &&& (self.pending_tx_addr is Some ==> self.tx.occupancy() < self.tx.capacity())
    }

    /// The ring capacities and UMEM geometry never change after `new`.
    pub open spec fn cfg_unchanged(pre: XdpSocket, post: XdpSocket) -> bool {
        &&& post.frame_size == pre.frame_size
        &&& post.num_frames == pre.num_frames
        &&& post.fill.capacity() == pre.fill.capacity()
        &&& post.comp.capacity() == pre.comp.capacity()
        &&& post.rx.capacity() == pre.rx.capacity()
        &&& post.tx.capacity() == pre.tx.capacity()
    }

    /// Construct the model socket: four empty rings of capacity `ring_size`,
    /// the first `num_frames / 2` frame offsets seeded onto FILL for the
    /// kernel's receive side, the remaining offsets seeded onto the TX
    /// free-list. (The raw construction additionally creates the socket,
    /// registers UMEM and maps the rings; those steps carry no frame state.)
    #[verifier::loop_isolation(false)]
    pub fn new(ring_size: u32, frame_size: u32, num_frames: u32) -> (s: XdpSocket)
        requires
            cap_ok(ring_size as int),
            0 < frame_size,
            num_frames / 2 <= ring_size,
        ensures
            s.wf(),
            s.partitioned(),
            s.frame_size == frame_size as u64,
            s.num_frames == num_frames as u64,
            s.fill.capacity() == ring_size as int,
            s.comp.capacity() == ring_size as int,
            s.rx.capacity() == ring_size as int,
            s.tx.capacity() == ring_size as int,
            s.fill.addrs() == frame_offsets(0, num_frames as int / 2, frame_size as int),
            s.rx.contents() == Seq::<RingDesc>::empty(),
            s.tx.contents() == Seq::<RingDesc>::empty(),
            s.comp.contents() == Seq::<RingDesc>::empty(),
            s.tx_free_frames@ == frame_offsets(
                num_frames as int / 2,
                num_frames as int,
                frame_size as int,
            ),
            s.pending_tx_addr is None,
    {
        let half = num_frames / 2;
        let ghost fsi = frame_size as int;
        let mut fill = Ring::new(ring_size as usize);
        let mut i: u32 = 0;
        while i < half
            invariant
                i <= half,
                half <= ring_size,
                0 < frame_size,
                fill.wf(),
                fill.capacity() == ring_size as int,
                fill.occupancy() == i as int,
                fill.contents() == Seq::new(i as nat, |k: int| addr_desc((k * fsi) as u64)),
            decreases half - i,
        {
            proof {
                lemma_mul_upper_bound(i as int, 0xFFFF_FFFFint, fsi, 0xFFFF_FFFFint);
            }
            fill.enqueue(RingDesc { addr: (i as u64) * (frame_size as u64), len: 0, options: 0 });
            proof {
                assert(fill.contents() =~= Seq::new(
                    (i + 1) as nat,
                    |k: int| addr_desc((k * fsi) as u64),
                ));
            }
            i = i + 1;
        }
        let mut free: Vec<u64> = Vec::new();
        proof {
            assert(free@ =~= frame_offsets(half as int, half as int, fsi));
        }
        let mut j: u32 = half;
        while j < num_frames
            invariant
                half <= j <= num_frames,
                0 < frame_size,
                free@ == frame_offsets(half as int, j as int, fsi),
            decreases num_frames - j,
        {
            proof {
                lemma_mul_upper_bound(j as int, 0xFFFF_FFFFint, fsi, 0xFFFF_FFFFint);
            }
            free.push((j as u64) * (frame_size as u64));
            proof {
                assert(free@ =~= frame_offsets(half as int, j as int + 1, fsi));
            }
            j = j + 1;
        }
        let s = XdpSocket {
            fill,
            comp: Ring::new(ring_size as usize),
            rx: Ring::new(ring_size as usize),
            tx: Ring::new(ring_size as usize),
            tx_free_frames: free,
            pending_tx_addr: None,
            frame_size: frame_size as u64,
            num_frames: num_frames as u64,
        };
        proof {
            s.lemma_new_wf(ring_size, frame_size, num_frames);
        }
        s
    }

    /// What `poll_rx` does: with RX empty, nothing; otherwise the oldest RX
    /// descriptor is consumed and returned, and its offset is recycled onto
    /// FILL — unless FILL is full, in which case the recycle is dropped and
    /// that offset leaks to the kernel, a loss the caller tolerates bounded
    /// by the ring capacity.
    pub open spec fn poll_rx_spec(pre: XdpSocket, post: XdpSocket, r: Option<(u64, u32)>) -> bool {
        &&& Self::cfg_unchanged(pre, post)
        &&& post.tx == pre.tx
        &&& post.comp == pre.comp
        &&& post.tx_free_frames@ == pre.tx_free_frames@
        &&& post.pending_tx_addr == pre.pending_tx_addr
        &&& if pre.rx.occupancy() == 0 {
            &&& r is None
            &&& post.rx == pre.rx
            &&& post.fill == pre.fill
        } else {
            let d = pre.rx.contents()[0];
            &&& r == Some((d.addr, d.len))
            &&& post.rx.contents() == pre.rx.contents().drop_first()
            &&& if pre.fill.occupancy() < pre.fill.capacity() {
                post.fill.contents() == pre.fill.contents().push(addr_desc(d.addr))
            } else {
                post.fill == pre.fill
            }
        }
    }

    /// True when a `poll_rx` from `pre` must drop the recycle: a packet is
    /// ready but FILL has no room for its offset.
    pub open spec fn drops_recycle(pre: XdpSocket) -> bool {
        pre.rx.occupancy() > 0 && pre.fill.occupancy() == pre.fill.capacity()
    }

    /// Dequeue one received packet, if any: returns its frame offset and
    /// length, and recycles the offset back onto FILL for the kernel to
    /// reuse. Every offset stays accounted for, except that a recycle into
    /// a full FILL ring is dropped. Because the offset is recycled at once,
    /// the frame's bytes are for this iteration's reading only: the caller
    /// must not retain the offset across iterations.
    pub fn poll_rx(&mut self) -> (r: Option<(u64, u32)>)
        requires
            old(self).wf(),
        ensures
            final(self).wf(),
            Self::poll_rx_spec(*old(self), *final(self), r),
            Self::drops_recycle(*old(self)) ==> final(self).offsets_multiset() == old(
                self,
            ).offsets_multiset().remove(old(self).rx.addrs()[0]),
            !Self::drops_recycle(*old(self)) ==> final(self).offsets_multiset() == old(
                self,
            ).offsets_multiset(),
            r matches Some(p) ==> final(self).valid_offset(p.0),
    {
        if self.rx.is_empty() {
            return None;
        }
        let ghost pre = *self;
        let d = self.rx.dequeue();
        let ghost mid = *self;
        proof {
            broadcast use group_to_multiset_ensures;

            lemma_addrs_dequeue(pre.rx, mid.rx, d);
            assert(pre.rx.addrs()[0] == d.addr);
            assert(pre.rx.addrs().contains(d.addr));
            assert(pre.rx.addrs().to_multiset().count(d.addr) > 0);
            assert(pre.offsets_multiset().count(d.addr) > 0);
            assert(pre.valid_offset(d.addr));
        }
        if !self.fill.is_full() {
            self.fill.enqueue(RingDesc { addr: d.addr, len: 0, options: 0 });
            proof {
                lemma_addrs_enqueue(mid.fill, self.fill, addr_desc(d.addr));
                assert(self.offsets_multiset() =~= pre.offsets_multiset());
                pre.lemma_wf_transfer(*self);
            }
        } else {
            proof {
                assert(self.offsets_multiset() =~= pre.offsets_multiset().remove(d.addr));
                pre.lemma_wf_transfer(*self);
            }
        }
        Some((d.addr, d.len))
    }

    /// The free-list as it stands after a COMPLETION drain: the completed
    /// offsets are appended, oldest first.
    pub open spec fn drained_free(pre: XdpSocket) -> Seq<u64> {
        pre.tx_free_frames@ + pre.comp.addrs()
    }

    /// What `get_tx_frame` does: first every completed offset moves from
    /// COMPLETION to the free-list; then, if TX has room and the free-list
    /// is non-empty, the youngest free offset becomes the pending TX frame.
    pub open spec fn get_tx_frame_spec(pre: XdpSocket, post: XdpSocket, r: Option<u64>) -> bool {
        &&& Self::cfg_unchanged(pre, post)
        &&& post.rx == pre.rx
        &&& post.fill == pre.fill
        &&& post.tx == pre.tx
        &&& post.comp.contents() == Seq::<RingDesc>::empty()
        &&& if pre.tx.occupancy() >= pre.tx.capacity() || Self::drained_free(pre).len() == 0 {
            &&& r is None
            &&& post.tx_free_frames@ == Self::drained_free(pre)
            &&& post.pending_tx_addr == pre.pending_tx_addr
        } else {
            &&& r == Some(Self::drained_free(pre).last())
            &&& post.tx_free_frames@ == Self::drained_free(pre).drop_last()
            &&& post.pending_tx_addr == Some(Self::drained_free(pre).last())
        }
    }

    /// Acquire a frame for transmit. Drains COMPLETION into the free-list,
    /// then hands out one free offset as the pending TX frame — unless the
    /// TX ring is full (backpressure) or no frame is free. The caller must
    /// `tx_submit` or `cancel_tx` before asking again.
    #[verifier::loop_isolation(false)]
    pub fn get_tx_frame(&mut self) -> (r: Option<u64>)
        requires
            old(self).wf(),
            old(self).pending_tx_addr is None,
        ensures
            final(self).wf(),
            Self::get_tx_frame_spec(*old(self), *final(self), r),
            final(self).offsets_multiset() == old(self).offsets_multiset(),
            old(self).partitioned() ==> final(self).partitioned(),
            r matches Some(a) ==> final(self).pending_tx_addr == Some(a)
                && final(self).valid_offset(a),
    {
        let ghost pre = *self;
        while !self.comp.is_empty()
            invariant
                self.comp.wf(),
                self.fill == pre.fill,
                self.rx == pre.rx,
                self.tx == pre.tx,
                self.pending_tx_addr == pre.pending_tx_addr,
                self.frame_size == pre.frame_size,
                self.num_frames == pre.num_frames,
                self.comp.capacity() == pre.comp.capacity(),
                self.tx_free_frames@ + self.comp.addrs() == Self::drained_free(pre),
            decreases self.comp.occupancy(),
        {
            let ghost it = *self;
            let d = self.comp.dequeue();
            self.tx_free_frames.push(d.addr);
            proof {
                lemma_addrs_dequeue(it.comp, self.comp, d);
                assert(self.tx_free_frames@ + self.comp.addrs() =~= it.tx_free_frames@
                    + it.comp.addrs());
            }
        }
        proof {
            broadcast use group_to_multiset_ensures;

            assert(self.comp.contents() =~= Seq::<RingDesc>::empty());
            assert(self.comp.addrs() =~= Seq::<u64>::empty());
            assert(self.tx_free_frames@ =~= Self::drained_free(pre));
            lemma_multiset_commutative(pre.tx_free_frames@, pre.comp.addrs());
            assert(self.offsets_multiset() =~= pre.offsets_multiset());
            pre.lemma_wf_transfer(*self);
        }
        if self.tx.is_full() {
            return None;
        }
        let ghost drained = *self;
        let popped = self.tx_free_frames.pop();
        match popped {
            Some(addr) => {
                self.pending_tx_addr = Some(addr);
                proof {
                    broadcast use group_to_multiset_ensures;

                    assert(drained.tx_free_frames@ =~= self.tx_free_frames@.push(addr));
                    assert(self.offsets_multiset() =~= drained.offsets_multiset());
                    drained.lemma_wf_transfer(*self);
                    assert(self.pending_mset().count(addr) == 1);
                    assert(self.offsets_multiset().count(addr) > 0);
                }
                Some(addr)
            },
            None => None,
        }
    }

    /// What `tx_submit` does: the pending offset is published on TX with
    /// the given length, and the pending slot is cleared.
    pub open spec fn tx_submit_spec(pre: XdpSocket, post: XdpSocket, len: u32) -> bool {
        &&& Self::cfg_unchanged(pre, post)
        &&& post.rx == pre.rx
        &&& post.fill == pre.fill
        &&& post.comp == pre.comp
        &&& post.tx_free_frames@ == pre.tx_free_frames@
        &&& post.pending_tx_addr is None
        &&& pre.pending_tx_addr matches Some(a) && post.tx.contents() == pre.tx.contents().push(
            RingDesc { addr: a, len, options: 0 },
        )
    }

    /// Publish the pending frame on the TX ring with the given packet
    /// length. (The raw datapath follows this with a non-blocking, empty
    /// `sendto` as a kernel wake-up poke, whose failure is ignored; that
    /// call carries no frame state and stays outside the model.)
    pub fn tx_submit(&mut self, len: u32)
        requires
            old(self).wf(),
            old(self).pending_tx_addr is Some,
        ensures
            final(self).wf(),
            Self::tx_submit_spec(*old(self), *final(self), len),
            final(self).offsets_multiset() == old(self).offsets_multiset(),
            old(self).partitioned() ==> final(self).partitioned(),
    {
        let ghost pre = *self;
        let addr: u64 = match self.pending_tx_addr {
            Some(a) => a,
            None => vstd::pervasive::unreached(),
        };
        self.pending_tx_addr = None;
        self.tx.enqueue(RingDesc { addr, len, options: 0 });
        proof {
            lemma_addrs_enqueue(pre.tx, self.tx, RingDesc { addr, len, options: 0 });
            assert(self.offsets_multiset() =~= pre.offsets_multiset());
            pre.lemma_wf_transfer(*self);
        }
    }

    /// What `cancel_tx` does: the pending offset returns to the free-list.
    pub open spec fn cancel_tx_spec(pre: XdpSocket, post: XdpSocket) -> bool {
        &&& Self::cfg_unchanged(pre, post)
        &&& post.rx == pre.rx
        &&& post.fill == pre.fill
        &&& post.comp == pre.comp
        &&& post.tx == pre.tx
        &&& post.pending_tx_addr is None
        &&& pre.pending_tx_addr matches Some(a) && post.tx_free_frames@
            == pre.tx_free_frames@.push(a)
    }

    /// Return the pending frame to the free-list unused.
    pub fn cancel_tx(&mut self)
        requires
            old(self).wf(),
            old(self).pending_tx_addr is Some,
        ensures
            final(self).wf(),
            Self::cancel_tx_spec(*old(self), *final(self)),
            final(self).offsets_multiset() == old(self).offsets_multiset(),
            old(self).partitioned() ==> final(self).partitioned(),
    {
        let ghost pre = *self;
        let addr: u64 = match self.pending_tx_addr {
            Some(a) => a,
            None => vstd::pervasive::unreached(),
        };
        self.pending_tx_addr = None;
        self.tx_free_frames.push(addr);
        proof {
            broadcast use group_to_multiset_ensures;

            assert(self.offsets_multiset() =~= pre.offsets_multiset());
            pre.lemma_wf_transfer(*self);
        }
    }

    /// What one TX iteration of the poll loop decides, given what the
    /// protocol engine produced for the pending frame: a positive packet
    /// length is published with the 42 header bytes counted in; no packet
    /// (or the zero-length "nothing right now" sentinel) returns the frame
    /// to the free-list.
    pub open spec fn tx_egress_step_spec(
        pre: XdpSocket,
        post: XdpSocket,
        quic_len: Option<u32>,
        submitted: bool,
    ) -> bool {
        match quic_len {
            Some(l) => if l > 0 {
                submitted && Self::tx_submit_spec(pre, post, (42 + l) as u32)
            } else {
                !submitted && Self::cancel_tx_spec(pre, post)
            },
            None => !submitted && Self::cancel_tx_spec(pre, post),
        }
    }

    /// Decide one TX iteration of the poll loop: submit the pending frame
    /// with headers counted in when the protocol engine wrote a packet of
    /// positive length into it, cancel otherwise. Returns whether the frame
    /// was submitted; on `false` the caller leaves its transmit loop.
    pub fn tx_egress_step(&mut self, quic_len: Option<u32>) -> (submitted: bool)
        requires
            old(self).wf(),
            old(self).pending_tx_addr is Some,
            quic_len matches Some(l) ==> l <= u32::MAX - 42,
        ensures
            final(self).wf(),
            Self::tx_egress_step_spec(*old(self), *final(self), quic_len, submitted),
            final(self).offsets_multiset() == old(self).offsets_multiset(),
            old(self).partitioned() ==> final(self).partitioned(),
    {
        match quic_len {
            Some(l) => {
                if l > 0 {
                    self.tx_submit(42 + l);
                    true
                } else {
                    self.cancel_tx();
                    false
                }
            },
            None => {
                self.cancel_tx();
                false
            },
        }
    }

    /// What the kernel's receive path does: it takes the oldest FILL offset,
    /// writes a packet of `len` bytes into that frame, and publishes the
    /// `{offset, len}` descriptor on RX.
    pub open spec fn kernel_rx_deliver_spec(
        pre: XdpSocket,
        post: XdpSocket,
        len: u32,
        a: u64,
    ) -> bool {
        &&& Self::cfg_unchanged(pre, post)
        &&& post.tx == pre.tx
        &&& post.comp == pre.comp
        &&& post.tx_free_frames@ == pre.tx_free_frames@
        &&& post.pending_tx_addr == pre.pending_tx_addr
        &&& pre.fill.contents().len() > 0
        &&& a == pre.fill.addrs()[0]
        &&& post.fill.contents() == pre.fill.contents().drop_first()
        &&& post.rx.contents() == pre.rx.contents().push(RingDesc { addr: a, len, options: 0 })
    }

    /// The kernel's half of the receive path, for driving the model: one
    /// FILL offset becomes one RX descriptor of the given length. Returns
    /// the offset delivered.
    pub fn kernel_rx_deliver(&mut self, len: u32) -> (a: u64)
        requires
            old(self).wf(),
            old(self).fill.occupancy() > 0,
            old(self).rx.occupancy() < old(self).rx.capacity(),
        ensures
            final(self).wf(),
            Self::kernel_rx_deliver_spec(*old(self), *final(self), len, a),
            final(self).offsets_multiset() == old(self).offsets_multiset(),
            old(self).partitioned() ==> final(self).partitioned(),
    {
        let ghost pre = *self;
        let d = self.fill.dequeue();
        let ghost mid = *self;
        self.rx.enqueue(RingDesc { addr: d.addr, len, options: 0 });
        proof {
            lemma_addrs_dequeue(pre.fill, mid.fill, d);
            lemma_addrs_enqueue(mid.rx, self.rx, RingDesc { addr: d.addr, len, options: 0 });
            assert(self.offsets_multiset() =~= pre.offsets_multiset());
            pre.lemma_wf_transfer(*self);
        }
        d.addr
    }

    /// What the kernel's transmit path does: it takes the oldest TX
    /// descriptor, sends the frame, and reports the offset on COMPLETION.
    pub open spec fn kernel_tx_complete_spec(pre: XdpSocket, post: XdpSocket, a: u64) -> bool {
        &&& Self::cfg_unchanged(pre, post)
        &&& post.rx == pre.rx
        &&& post.fill == pre.fill
        &&& post.tx_free_frames@ == pre.tx_free_frames@
        &&& post.pending_tx_addr == pre.pending_tx_addr
        &&& pre.tx.contents().len() > 0
        &&& a == pre.tx.addrs()[0]
        &&& post.tx.contents() == pre.tx.contents().drop_first()
        &&& post.comp.contents() == pre.comp.contents().push(addr_desc(a))
    }

    /// The kernel's half of the transmit path, for driving the model: the
    /// oldest TX descriptor is consumed and its offset reported on
    /// COMPLETION. Returns the offset completed.
    pub fn kernel_tx_complete(&mut self) -> (a: u64)
        requires
            old(self).wf(),
            old(self).tx.occupancy() > 0,
            old(self).comp.occupancy() < old(self).comp.capacity(),
        ensures
            final(self).wf(),
            Self::kernel_tx_complete_spec(*old(self), *final(self), a),
            final(self).offsets_multiset() == old(self).offsets_multiset(),
            old(self).partitioned() ==> final(self).partitioned(),
    {
        let ghost pre = *self;
        let d = self.tx.dequeue();
        let ghost mid = *self;
        self.comp.enqueue(RingDesc { addr: d.addr, len: 0, options: 0 });
        proof {
            lemma_addrs_dequeue(pre.tx, mid.tx, d);
            lemma_addrs_enqueue(mid.comp, self.comp, addr_desc(d.addr));
            assert(self.offsets_multiset() =~= pre.offsets_multiset());
            pre.lemma_wf_transfer(*self);
        }
        d.addr
    }

    /// Well-formedness carries over to any state with the same geometry,
    /// well-formed rings, and no more copies of any offset than before.
    proof fn lemma_wf_transfer(self, post: XdpSocket)
        requires
            self.wf(),
            Self::cfg_unchanged(self, post),
            post.frame_size == self.frame_size,
            post.num_frames == self.num_frames,
            post.fill.wf(),
            post.comp.wf(),
            post.rx.wf(),
            post.tx.wf(),
            forall|a: u64| #[trigger] post.offsets_multiset().count(a) <= self.offsets_multiset().count(a),
            post.pending_tx_addr is Some ==> post.tx.occupancy() < post.tx.capacity(),
        ensures
            post.wf(),
    {
        assert forall|a: u64| #[trigger] post.offsets_multiset().count(a) > 0 implies post
            .valid_offset(a) by {
            assert(self.offsets_multiset().count(a) > 0);
        }
    }

    proof fn lemma_new_wf(self, ring_size: u32, frame_size: u32, num_frames: u32)
        requires
            0 < frame_size,
            self.frame_size == frame_size as u64,
            self.num_frames == num_frames as u64,
            self.fill.wf(),
            self.comp.wf(),
            self.rx.wf(),
            self.tx.wf(),
            self.tx.occupancy() == 0,
            self.tx.capacity() == ring_size as int,
            cap_ok(ring_size as int),
            self.fill.contents() == Seq::new(
                (num_frames / 2) as nat,
                |k: int| addr_desc((k * frame_size as int) as u64),
            ),
            self.rx.contents() == Seq::<RingDesc>::empty(),
            self.comp.contents() == Seq::<RingDesc>::empty(),
            self.tx.contents() == Seq::<RingDesc>::empty(),
            self.tx_free_frames@ == frame_offsets(
                num_frames as int / 2,
                num_frames as int,
                frame_size as int,
            ),
            self.pending_tx_addr is None,
        ensures
            self.wf(),
            self.partitioned(),
            self.fill.addrs() == frame_offsets(0, num_frames as int / 2, frame_size as int),
    {
        broadcast use group_to_multiset_ensures;

        let fsi = frame_size as int;
        let nf = num_frames as int;
        let half = nf / 2;
        let lo = frame_offsets(0, half, fsi);
        let hi = frame_offsets(half, nf, fsi);
        let all = frame_offsets(0, nf, fsi);
        assert(self.fill.addrs() =~= lo);
        assert(self.rx.addrs() =~= Seq::<u64>::empty());
        assert(self.tx.addrs() =~= Seq::<u64>::empty());
        assert(self.comp.addrs() =~= Seq::<u64>::empty());
        // Each offset is a distinct multiple of frame_size below umem_size.
        lemma_mul_upper_bound(nf, 0xFFFF_FFFFint, fsi, 0xFFFF_FFFFint);
        assert forall|i: int, j: int| 0 <= i < nf && 0 <= j < nf && i != j implies all[i]
            != all[j] by {
            lemma_frame_offset_bounds(i, nf, fsi);
            lemma_frame_offset_bounds(j, nf, fsi);
            assert(all[i] == (i * fsi) as u64);
            assert(all[j] == (j * fsi) as u64);
            if i < j {
                lemma_mul_strict_inequality(i, j, fsi);
            } else {
                lemma_mul_strict_inequality(j, i, fsi);
            }
        }
        assert(all.no_duplicates());
        all.lemma_multiset_has_no_duplicates();
        assert(lo + hi =~= all);
        lemma_multiset_commutative(lo, hi);
        assert(Seq::<u64>::empty().to_multiset() =~= Multiset::<u64>::empty());
        assert(self.offsets_multiset() =~= all.to_multiset());
        assert forall|a: u64| #[trigger] self.offsets_multiset().count(a) > 0 implies self
            .valid_offset(a) by {
            assert(all.to_multiset().count(a) > 0);
            assert(all.contains(a));
            let i = choose|i: int| 0 <= i < all.len() && all[i] == a;
            lemma_frame_offset_bounds(i, nf, fsi);
            assert(a == (i * fsi) as u64);
            assert(a as int == i * fsi);
            lemma_mod_multiples_basic(i, fsi);
        }
    }
}

/// Publishing a descriptor moves its offset into the ring's multiset.
proof fn lemma_addrs_enqueue(pre: Ring, post: Ring, d: RingDesc)
    requires
        post.contents() == pre.contents().push(d),
    ensures
        post.addrs() == pre.addrs().push(d.addr),
        post.addrs().to_multiset() == pre.addrs().to_multiset().insert(d.addr),
{
    broadcast use group_to_multiset_ensures;

    assert(post.addrs() =~= pre.addrs().push(d.addr));
}

/// Consuming the oldest descriptor takes its offset out of the ring's
/// multiset.
proof fn lemma_addrs_dequeue(pre: Ring, post: Ring, d: RingDesc)
    requires
        pre.contents().len() > 0,
        d == pre.contents()[0],
        post.contents() == pre.contents().drop_first(),
    ensures
        pre.addrs() == post.addrs().insert(0, d.addr),
        pre.addrs().to_multiset() == post.addrs().to_multiset().insert(d.addr),
{
    broadcast use group_to_multiset_ensures;

    assert(pre.addrs() =~= seq![d.addr] + post.addrs());
    lemma_multiset_commutative(seq![d.addr], post.addrs());
    assert(seq![d.addr] =~= Seq::<u64>::empty().push(d.addr));
    assert(pre.addrs() =~= post.addrs().insert(0, d.addr));
    assert(pre.addrs().to_multiset() =~= post.addrs().to_multiset().insert(d.addr));
}

/// For `0 <= i < n` and `0 < f`: the offset `i * f` is non-negative and
/// the next frame still starts no later than `n * f`.
proof fn lemma_frame_offset_bounds(i: int, n: int, f: int)
    requires
        0 <= i < n,
        0 < f,
    ensures
        0 <= i * f,
        i * f < n * f,
        i * f + f <= n * f,
{
    vstd::arithmetic::mul::lemma_mul_strict_inequality(i, n, f);
    vstd::arithmetic::mul::lemma_mul_nonnegative(i, f);
    vstd::arithmetic::mul::lemma_mul_inequality(i + 1, n, f);
    vstd::arithmetic::mul::lemma_mul_is_distributive_add_other_way(f, i, 1);
}

} // verus!

