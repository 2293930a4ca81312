//! The UMEM packet buffer: a contiguous region of `frame_size * num_frames`
//! bytes, divided into fixed-size frames identified by their byte offsets.
//! The raw datapath maps this region once (huge pages preferred) and shares
//! it with the kernel; here it is plain owned memory, and every access is
//! bounded to one frame. Which side may touch a frame at any instant is the
//! socket's partition invariant; the region itself only enforces bounds.

use vstd::prelude::*;

verus! {

use vstd::arithmetic::div_mod::lemma_fundamental_div_mod;
use vstd::arithmetic::mul::lemma_mul_inequality;
use vstd::arithmetic::mul::lemma_mul_upper_bound;

pub struct Umem {
    pub bytes: Vec<u8>,
    pub frame_size: u64,
    pub num_frames: u64,
}

impl Umem {
    pub open spec fn size(self) -> int {
        self.frame_size as int * self.num_frames as int
    }

    pub open spec fn wf(self) -> bool {
        &&& 0 < self.frame_size
        &&& self.bytes@.len() == self.size()
    }

    /// A frame offset: aligned to `frame_size` and inside the region.
    pub open spec fn valid_offset(self, a: u64) -> bool {
        &&& a as int % self.frame_size as int == 0
        &&& (a as int) < self.size()
    }

    /// An aligned offset inside the region leaves room for one full frame.
    pub proof fn lemma_frame_fits(self, a: u64)
        requires
            self.wf(),
            self.valid_offset(a),
        ensures
            a as int + self.frame_size as int <= self.size(),
    {
        let fs = self.frame_size as int;
        let nf = self.num_frames as int;
        lemma_fundamental_div_mod(a as int, fs);
        let k = a as int / fs;
        assert(a as int == fs * k);
        vstd::arithmetic::div_mod::lemma_div_pos_is_pos(a as int, fs);
        assert(k < nf) by {
            if k >= nf {
                lemma_mul_inequality(nf, k, fs);
                vstd::arithmetic::mul::lemma_mul_is_commutative(nf, fs);
                vstd::arithmetic::mul::lemma_mul_is_commutative(k, fs);
            }
        }
        lemma_mul_inequality(k + 1, nf, fs);
        vstd::arithmetic::mul::lemma_mul_is_distributive_add_other_way(fs, k, 1);
        vstd::arithmetic::mul::lemma_mul_is_commutative(k + 1, fs);
        vstd::arithmetic::mul::lemma_mul_is_commutative(nf, fs);
    }

    /// The region as registered with the kernel: zero-initialised,
    /// `frame_size * num_frames` bytes. (The raw allocation tries huge
    /// pages first and falls back to regular pages; either way the kernel
    /// hands back zeroed memory, which is all that matters here.)
    #[verifier::loop_isolation(false)]
    pub fn new(frame_size: u32, num_frames: u32) -> (u: Umem)
        requires
            0 < frame_size,
            frame_size as int * num_frames as int <= usize::MAX,
        ensures
            u.wf(),
            u.frame_size == frame_size as u64,
            u.num_frames == num_frames as u64,
            u.bytes@ == Seq::new((frame_size as nat) * (num_frames as nat), |i: int| 0u8),
    {
        proof {
            lemma_mul_upper_bound(frame_size as int, 0xFFFF_FFFFint, num_frames as int, 0xFFFF_FFFFint);
        }
        let n: usize = (frame_size as u64 * num_frames as u64) as usize;
        let bytes: Vec<u8> = vec![0u8; n];
        let u = Umem { bytes, frame_size: frame_size as u64, num_frames: num_frames as u64 };
        proof {
            assert(u.bytes@ =~= Seq::new((frame_size as nat) * (num_frames as nat), |i: int| 0u8));
        }
        u
    }

    /// Copy `data` into the frame at `offset`, starting at the frame's
    /// first byte. Writes never cross the frame boundary.
    #[verifier::loop_isolation(false)]
    pub fn frame_write(&mut self, offset: u64, data: &Vec<u8>)
        requires
            old(self).wf(),
            old(self).valid_offset(offset),
            data@.len() <= old(self).frame_size,
        ensures
            final(self).wf(),
            final(self).frame_size == old(self).frame_size,
            final(self).num_frames == old(self).num_frames,
            final(self).bytes@ == old(self).bytes@.take(offset as int) + data@ + old(
                self,
            ).bytes@.skip(offset as int + data@.len()),
    {
        let total = self.bytes.len();
        proof {
            self.lemma_frame_fits(offset);
            assert(offset as int + self.frame_size as int <= total as int);
        }
        let ghost pre = *self;
        let base = offset as usize;
        proof {
            assert(base as int == offset as int);
        }
        let mut i: usize = 0;
        while i < data.len()
            invariant
                i <= data@.len(),
                self.frame_size == pre.frame_size,
                self.num_frames == pre.num_frames,
                self.bytes@.len() == pre.bytes@.len(),
                forall|j: int|
                    0 <= j < self.bytes@.len() && !(base <= j < base + i) ==> self.bytes@[j]
                        == pre.bytes@[j],
                forall|j: int| 0 <= j < i ==> self.bytes@[base + j] == data@[j],
            decreases data@.len() - i,
        {
            self.bytes[base + i] = data[i];
            i = i + 1;
        }
        proof {
            assert(self.bytes@ =~= pre.bytes@.take(offset as int) + data@ + pre.bytes@.skip(
                offset as int + data@.len(),
            ));
        }
    }

    /// Read `len` bytes of the frame at `offset`, from the frame's first
    /// byte. Reads never cross the frame boundary.
    #[verifier::loop_isolation(false)]
    pub fn frame_read(&self, offset: u64, len: usize) -> (r: Vec<u8>)
        requires
            self.wf(),
            self.valid_offset(offset),
            len <= self.frame_size,
        ensures
            r@ == self.bytes@.subrange(offset as int, offset as int + len as int),
    {
        let total = self.bytes.len();
        proof {
            self.lemma_frame_fits(offset);
            assert(offset as int + self.frame_size as int <= total as int);
        }
        let base = offset as usize;
        proof {
            assert(base as int == offset as int);
        }
        let mut r: Vec<u8> = Vec::new();
        let mut i: usize = 0;
        while i < len
            invariant
                i <= len,
                r@ == self.bytes@.subrange(offset as int, offset as int + i as int),
            decreases len - i,
        {
            r.push(self.bytes[base + i]);
            proof {
                assert(r@ =~= self.bytes@.subrange(offset as int, offset as int + i as int + 1));
            }
            i = i + 1;
        }
        r
    }
}

} // verus!
