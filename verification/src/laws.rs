//! Lifecycle laws relating several socket operations. Each law is stated
//! over the operations' relational specifications (`*_spec`), which the
//! executable methods establish, so a chain of calls satisfies the
//! hypotheses directly.

use vstd::prelude::*;

verus! {

use crate::ring::RingDesc;
use crate::xsk::addr_desc;
use crate::xsk::frame_offsets;
use crate::xsk::XdpSocket;
use vstd::arithmetic::div_mod::lemma_fundamental_div_mod;
use vstd::arithmetic::mul::lemma_mul_inequality;
use vstd::seq_lib::group_to_multiset_ensures;

/// In a partitioned, well-formed socket, every frame offset is recorded
/// exactly once over FILL, RX, the free-list, the pending slot, TX and
/// COMPLETION — it is in exactly one of the lifecycle states.
pub proof fn lemma_partition_exactly_once(s: XdpSocket, a: u64)
    requires
        s.wf(),
        s.partitioned(),
        s.valid_offset(a),
    ensures
        s.offsets_multiset().count(a) == 1,
{
    broadcast use group_to_multiset_ensures;

    let fs = s.frame_size as int;
    let nf = s.num_frames as int;
    let i = a as int / fs;
    lemma_fundamental_div_mod(a as int, fs);
    assert(a as int == fs * i);
    assert(i < nf) by {
        if i >= nf {
            lemma_mul_inequality(nf, i, fs);
            vstd::arithmetic::mul::lemma_mul_is_commutative(i, fs);
        }
    }
    assert(0 <= i) by {
        vstd::arithmetic::div_mod::lemma_div_pos_is_pos(a as int, fs);
    }
    let all = frame_offsets(0, nf, fs);
    assert(all[i] == a) by {
        vstd::arithmetic::mul::lemma_mul_is_commutative(i, fs);
    }
    assert(all.contains(a));
    assert(s.offsets_multiset().count(a) > 0);
}

/// A `get_tx_frame` that hands out a frame, followed by `cancel_tx`,
/// leaves the TX free-list exactly as it was — provided no completions
/// were pending, so the drain added nothing.
pub proof fn lemma_cancel_restores_free_list(s0: XdpSocket, s1: XdpSocket, s2: XdpSocket, x: u64)
    requires
        s0.comp.occupancy() == 0,
        XdpSocket::get_tx_frame_spec(s0, s1, Some(x)),
        XdpSocket::cancel_tx_spec(s1, s2),
    ensures
        s2.tx_free_frames@ == s0.tx_free_frames@,
        s2.pending_tx_addr is None,
{
    assert(s0.comp.addrs() =~= Seq::<u64>::empty());
    assert(XdpSocket::drained_free(s0) =~= s0.tx_free_frames@);
    assert(s2.tx_free_frames@ =~= s0.tx_free_frames@);
}

/// One `poll_rx` that does not overflow FILL conserves the number of
/// buffers available to the kernel's receive side: the dequeued offset is
/// recycled, so FILL plus RX occupancy is unchanged.
pub proof fn lemma_poll_rx_conserves_kernel_buffers(
    pre: XdpSocket,
    post: XdpSocket,
    r: Option<(u64, u32)>,
)
    requires
        pre.fill.wf(),
        XdpSocket::poll_rx_spec(pre, post, r),
        !XdpSocket::drops_recycle(pre),
    ensures
        post.fill.occupancy() + post.rx.occupancy() == pre.fill.occupancy() + pre.rx.occupancy(),
{
    if pre.rx.occupancy() > 0 {
        assert(post.rx.contents().len() == pre.rx.contents().len() - 1);
        assert(post.fill.contents().len() == pre.fill.contents().len() + 1);
    }
}

/// A kernel delivery likewise conserves FILL plus RX occupancy: it moves
/// one offset from FILL to RX.
pub proof fn lemma_deliver_conserves_kernel_buffers(
    pre: XdpSocket,
    post: XdpSocket,
    len: u32,
    a: u64,
)
    requires
        XdpSocket::kernel_rx_deliver_spec(pre, post, len, a),
    ensures
        post.fill.occupancy() + post.rx.occupancy() == pre.fill.occupancy() + pre.rx.occupancy(),
{
    assert(post.rx.contents().len() == pre.rx.contents().len() + 1);
    assert(post.fill.contents().len() == pre.fill.contents().len() - 1);
}

/// One step of the receive path: either the user dequeued and recycled a
/// packet without overflowing FILL, or the kernel delivered one.
pub open spec fn rx_conserving_step(pre: XdpSocket, post: XdpSocket) -> bool {
    ||| pre.fill.wf() && exists|r: Option<(u64, u32)>|
        #[trigger] XdpSocket::poll_rx_spec(pre, post, r) && !XdpSocket::drops_recycle(pre)
    ||| exists|len: u32, a: u64| #[trigger] XdpSocket::kernel_rx_deliver_spec(pre, post, len, a)
}

/// Any interleaving of deliveries and non-overflowing recycles leaves the
/// kernel's receive-side buffer count at its initial value: after N
/// successful dequeue-and-recycle steps, FILL plus RX occupancy is what it
/// started as.
pub proof fn lemma_recycles_conserve_kernel_buffers(states: Seq<XdpSocket>)
    requires
        states.len() > 0,
        forall|i: int|
            0 <= i < states.len() - 1 ==> rx_conserving_step(states[i], #[trigger] states[i + 1]),
    ensures
        states.last().fill.occupancy() + states.last().rx.occupancy() == states.first().fill.occupancy()
            + states.first().rx.occupancy(),
    decreases states.len(),
{
    if states.len() > 1 {
        let rest = states.drop_first();
        assert forall|i: int| 0 <= i < rest.len() - 1 implies rx_conserving_step(
            rest[i],
            #[trigger] rest[i + 1],
        ) by {
            assert(rest[i] == states[i + 1]);
            assert(rest[i + 1] == states[i + 2]);
        }
        lemma_recycles_conserve_kernel_buffers(rest);
        assert(rx_conserving_step(states[0], states[1]));
        if states[0].fill.wf() && exists|r: Option<(u64, u32)>|
            #[trigger] XdpSocket::poll_rx_spec(states[0], states[1], r)
                && !XdpSocket::drops_recycle(states[0]) {
            let r = choose|r: Option<(u64, u32)>|
                #[trigger] XdpSocket::poll_rx_spec(states[0], states[1], r)
                    && !XdpSocket::drops_recycle(states[0]);
            lemma_poll_rx_conserves_kernel_buffers(states[0], states[1], r);
        } else {
            let (len, a) = choose|len: u32, a: u64|
                #[trigger] XdpSocket::kernel_rx_deliver_spec(states[0], states[1], len, a);
            lemma_deliver_conserves_kernel_buffers(states[0], states[1], len, a);
        }
        assert(rest.last() == states.last());
        assert(rest.first() == states[1]);
    }
}

/// A TX round trip returns the submitted frame's offset to the free-list
/// exactly once: submit the pending offset, let the kernel complete it,
/// and the next `get_tx_frame`'s drain appends it — once — and hands it
/// straight back out.
pub proof fn lemma_tx_round_trip(
    s0: XdpSocket,
    s1: XdpSocket,
    s2: XdpSocket,
    s3: XdpSocket,
    x: u64,
    len: u32,
    c: u64,
    r: Option<u64>,
)
    requires
        s0.wf(),
        s0.pending_tx_addr == Some(x),
        s0.tx.occupancy() == 0,
        s0.comp.occupancy() == 0,
        XdpSocket::tx_submit_spec(s0, s1, len),
        XdpSocket::kernel_tx_complete_spec(s1, s2, c),
        XdpSocket::get_tx_frame_spec(s2, s3, r),
    ensures
        c == x,
        XdpSocket::drained_free(s2).to_multiset().count(x) == 1,
        r == Some(x),
{
    broadcast use group_to_multiset_ensures;

    assert(s0.tx.contents() =~= Seq::<RingDesc>::empty());
    assert(s1.tx.contents() =~= seq![RingDesc { addr: x, len, options: 0 }]);
    assert(s1.tx.addrs() =~= seq![x]);
    assert(c == x);
    assert(s1.comp.contents() =~= Seq::<RingDesc>::empty());
    assert(s2.comp.contents() =~= seq![addr_desc(x)]);
    assert(s2.comp.addrs() =~= seq![x]);
    let drained = XdpSocket::drained_free(s2);
    assert(drained =~= s0.tx_free_frames@.push(x));
    // In a well-formed start the pending slot already held the only copy of
    // `x`, so the free-list had none.
    assert(s0.pending_mset().count(x) == 1);
    assert(s0.offsets_multiset().count(x) <= 1);
    assert(s0.tx_free_frames@.to_multiset().count(x) == 0);
    assert(drained.to_multiset().count(x) == 1);
    // The drain leaves TX empty and the free-list non-empty, so the next
    // `get_tx_frame` pops the freshly returned offset.
    assert(s2.tx.contents() =~= Seq::<RingDesc>::empty());
    assert(s2.tx.occupancy() == 0);
    assert(drained.last() == x);
}

} // verus!
