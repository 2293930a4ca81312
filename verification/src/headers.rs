//! The fixed 42-byte Ethernet II + IPv4 + UDP header codec.
//!
//! Inbound, the datapath treats everything after the 42-byte prefix as the
//! UDP payload; classification happened upstream, so no field validation is
//! done here. Outbound, the writer fills the full prefix from static
//! configuration: EtherType IPv4, version/IHL 0x45, zero identification and
//! fragmenting, TTL 64, protocol UDP, the standard one's-complement header
//! checksum, and a zero UDP checksum (permitted for IPv4).

use vstd::prelude::*;

verus! {

/// Bytes of Ethernet + IPv4 + UDP headers before the UDP payload.
pub const HEADER_LEN: usize = 42;

/// Static addressing configuration: MAC resolution and routing are outside
/// the datapath, so peer and local addresses are fixed at construction.
#[derive(Clone, Copy)]
pub struct NetConfig {
    pub src_mac: [u8; 6],
    pub dst_mac: [u8; 6],
    pub src_ip: [u8; 4],
    pub dst_ip: [u8; 4],
}

/// The plain sum of the ten 16-bit words of the IPv4 header, with the
/// checksum field counted as zero: version/IHL and TOS (0x4500), total
/// length, identification (zero), flags/fragment (zero), TTL and protocol
/// (0x4011), and the four address words.
pub open spec fn ipv4_words_total(cfg: NetConfig, payload_len: u16) -> int {
    0x4500 + (28 + payload_len) + 0x4011 + (cfg.src_ip@[0] * 256 + cfg.src_ip@[1]) + (
    cfg.src_ip@[2] * 256 + cfg.src_ip@[3]) + (cfg.dst_ip@[0] * 256 + cfg.dst_ip@[1]) + (
    cfg.dst_ip@[2] * 256 + cfg.dst_ip@[3])
}

/// End-around-carry fold: add the carry half into the low half, twice.
/// For any sum of ten 16-bit words, two folds land in `[0, 0xFFFF]`.
pub open spec fn fold_twice(sum: int) -> int {
    let f1 = sum % 0x10000 + sum / 0x10000;
    f1 % 0x10000 + f1 / 0x10000
}

/// The IPv4 header checksum: the one's complement of the folded word sum.
pub open spec fn ipv4_checksum_of(cfg: NetConfig, payload_len: u16) -> int {
    0xFFFF - fold_twice(ipv4_words_total(cfg, payload_len))
}

/// All 42 header bytes for a UDP payload of `payload_len` bytes.
pub open spec fn header_bytes(
    cfg: NetConfig,
    payload_len: u16,
    src_port: u16,
    dst_port: u16,
) -> Seq<u8> {
    seq![
        // Ethernet: destination MAC, source MAC, EtherType IPv4
        cfg.dst_mac@[0],
        cfg.dst_mac@[1],
        cfg.dst_mac@[2],
        cfg.dst_mac@[3],
        cfg.dst_mac@[4],
        cfg.dst_mac@[5],
        cfg.src_mac@[0],
        cfg.src_mac@[1],
        cfg.src_mac@[2],
        cfg.src_mac@[3],
        cfg.src_mac@[4],
        cfg.src_mac@[5],
        0x08u8,
        0x00u8,
        // IPv4: version/IHL, TOS, total length, identification,
        // flags/fragment, TTL, protocol, checksum, addresses
        0x45u8,
        0x00u8,
        ((28 + payload_len) / 256) as u8,
        ((28 + payload_len) % 256) as u8,
        0x00u8,
        0x00u8,
        0x00u8,
        0x00u8,
        64u8,
        17u8,
        (ipv4_checksum_of(cfg, payload_len) / 256) as u8,
        (ipv4_checksum_of(cfg, payload_len) % 256) as u8,
        cfg.src_ip@[0],
        cfg.src_ip@[1],
        cfg.src_ip@[2],
        cfg.src_ip@[3],
        cfg.dst_ip@[0],
        cfg.dst_ip@[1],
        cfg.dst_ip@[2],
        cfg.dst_ip@[3],
        // UDP: ports, length, zero checksum
        (src_port / 256) as u8,
        (src_port % 256) as u8,
        (dst_port / 256) as u8,
        (dst_port % 256) as u8,
        ((8 + payload_len) / 256) as u8,
        ((8 + payload_len) % 256) as u8,
        0x00u8,
        0x00u8,
    ]
}

impl NetConfig {
    /// Compute the IPv4 header checksum for a frame carrying `payload_len`
    /// bytes of UDP payload.
    pub fn ipv4_checksum(&self, payload_len: u16) -> (ck: u16)
        requires
            payload_len <= 0xFFE3,
        ensures
            ck as int == ipv4_checksum_of(*self, payload_len),
    {
        let total: u32 = 28 + payload_len as u32;
        let mut sum: u32 = 0x4500 + total + 0x4011;
        sum = sum + (self.src_ip[0] as u32) * 256 + self.src_ip[1] as u32;
        sum = sum + (self.src_ip[2] as u32) * 256 + self.src_ip[3] as u32;
        sum = sum + (self.dst_ip[0] as u32) * 256 + self.dst_ip[1] as u32;
        sum = sum + (self.dst_ip[2] as u32) * 256 + self.dst_ip[3] as u32;
        let f1: u32 = sum % 0x10000 + sum / 0x10000;
        let f2: u32 = f1 % 0x10000 + f1 / 0x10000;
        (0xFFFF - f2) as u16
    }

    /// Produce the 42-byte header prefix for a frame whose UDP payload is
    /// `payload_len` bytes long, addressed with the given ports.
    pub fn write_headers(&self, payload_len: u16, src_port: u16, dst_port: u16) -> (r: Vec<u8>)
        requires
            payload_len <= 0xFFE3,
        ensures
            r@ == header_bytes(*self, payload_len, src_port, dst_port),
            r@.len() == HEADER_LEN,
    {
        let total: u16 = 28 + payload_len;
        let udp_len: u16 = 8 + payload_len;
        let ck: u16 = self.ipv4_checksum(payload_len);
        let mut r: Vec<u8> = Vec::new();
        r.push(self.dst_mac[0]);
        r.push(self.dst_mac[1]);
        r.push(self.dst_mac[2]);
        r.push(self.dst_mac[3]);
        r.push(self.dst_mac[4]);
        r.push(self.dst_mac[5]);
        r.push(self.src_mac[0]);
        r.push(self.src_mac[1]);
        r.push(self.src_mac[2]);
        r.push(self.src_mac[3]);
        r.push(self.src_mac[4]);
        r.push(self.src_mac[5]);
        r.push(0x08);
        r.push(0x00);
        r.push(0x45);
        r.push(0x00);
        r.push((total / 256) as u8);
        r.push((total % 256) as u8);
        r.push(0x00);
        r.push(0x00);
        r.push(0x00);
        r.push(0x00);
        r.push(64);
        r.push(17);
        r.push((ck / 256) as u8);
        r.push((ck % 256) as u8);
        r.push(self.src_ip[0]);
        r.push(self.src_ip[1]);
        r.push(self.src_ip[2]);
        r.push(self.src_ip[3]);
        r.push(self.dst_ip[0]);
        r.push(self.dst_ip[1]);
        r.push(self.dst_ip[2]);
        r.push(self.dst_ip[3]);
        r.push((src_port / 256) as u8);
        r.push((src_port % 256) as u8);
        r.push((dst_port / 256) as u8);
        r.push((dst_port % 256) as u8);
        r.push((udp_len / 256) as u8);
        r.push((udp_len % 256) as u8);
        r.push(0x00);
        r.push(0x00);
        proof {
            assert(r@ =~= header_bytes(*self, payload_len, src_port, dst_port));
        }
        r
    }
}

/// One end-around-carry fold keeps the value's residue modulo 0xFFFF,
/// because 0x10000 is congruent to 1.
proof fn lemma_fold_congruent(x: int)
    requires
        0 <= x,
    ensures
        (x % 0x10000 + x / 0x10000) % 0xFFFF == x % 0xFFFF,
        0 <= x % 0x10000 + x / 0x10000,
{
    vstd::arithmetic::div_mod::lemma_fundamental_div_mod(x, 0x10000);
    let q = x / 0x10000;
    let r = x % 0x10000;
    vstd::arithmetic::div_mod::lemma_div_pos_is_pos(x, 0x10000);
    assert(x == 0xFFFF * q + (r + q));
    vstd::arithmetic::div_mod::lemma_mod_multiples_vanish(q, r + q, 0xFFFF);
}

/// Receiver-side validity of the header checksum: summing all ten header
/// words — the nine data words and the checksum itself — and folding the
/// carries yields 0xFFFF, exactly what a validating receiver checks for.
pub proof fn lemma_checksum_validates(cfg: NetConfig, payload_len: u16)
    ensures
        fold_twice(ipv4_words_total(cfg, payload_len) + ipv4_checksum_of(cfg, payload_len))
            == 0xFFFF,
{
    let s = ipv4_words_total(cfg, payload_len);
    assert(0x4500 <= s <= 0x60000);
    let f1 = s % 0x10000 + s / 0x10000;
    let f2 = f1 % 0x10000 + f1 / 0x10000;
    lemma_fold_congruent(s);
    lemma_fold_congruent(f1);
    vstd::arithmetic::div_mod::lemma_div_is_ordered(s, 0x60000, 0x10000);
    assert(f1 <= 0xFFFF + 6);
    vstd::arithmetic::div_mod::lemma_div_is_ordered(f1, 0x10005, 0x10000);
    assert(f2 <= 0xFFFF);
    let ck = 0xFFFF - f2;
    let t = s + ck;
    // t is congruent to 0 modulo 0xFFFF: the checksum cancels the folded
    // sum, and each fold preserved the residue.
    assert(f2 % 0xFFFF == s % 0xFFFF);
    vstd::arithmetic::div_mod::lemma_mod_bound(s, 0xFFFF);
    vstd::arithmetic::div_mod::lemma_sub_mod_noop(s + 0xFFFF, f2, 0xFFFF);
    vstd::arithmetic::div_mod::lemma_mod_add_multiples_vanish(s - f2, 0xFFFF);
    assert(t % 0xFFFF == (s - f2) % 0xFFFF);
    assert((s - f2) % 0xFFFF == (s % 0xFFFF - f2 % 0xFFFF) % 0xFFFF);
    assert(t % 0xFFFF == 0) by {
        vstd::arithmetic::div_mod::lemma_mod_self_0(0xFFFF);
    }
    let g1 = t % 0x10000 + t / 0x10000;
    let g2 = g1 % 0x10000 + g1 / 0x10000;
    lemma_fold_congruent(t);
    lemma_fold_congruent(g1);
    vstd::arithmetic::div_mod::lemma_div_is_ordered(t, 0x70000, 0x10000);
    assert(g1 <= 0xFFFF + 7);
    vstd::arithmetic::div_mod::lemma_div_is_ordered(g1, 0x10006, 0x10000);
    assert(g2 <= 0xFFFF);
    assert(g2 % 0xFFFF == 0);
    // In [0, 0xFFFF] only 0 and 0xFFFF have residue 0, and the total is
    // positive, so the fold cannot be 0.
    if g2 < 0xFFFF {
        vstd::arithmetic::div_mod::lemma_small_mod(g2 as nat, 0xFFFF);
        assert(g2 == 0);
        assert(t >= 0x4500);
        assert(g1 >= t % 0x10000);
        vstd::arithmetic::div_mod::lemma_div_pos_is_pos(t, 0x10000);
        if t < 0x10000 {
            vstd::arithmetic::div_mod::lemma_small_mod(t as nat, 0x10000);
            assert(g1 == t);
        } else {
            assert(t / 0x10000 >= 1) by {
                vstd::arithmetic::div_mod::lemma_div_is_ordered(0x10000, t, 0x10000);
            }
        }
        assert(g1 > 0);
        if g1 < 0x10000 {
            vstd::arithmetic::div_mod::lemma_small_mod(g1 as nat, 0x10000);
            assert(g2 == g1);
        } else {
            assert(g1 / 0x10000 >= 1) by {
                vstd::arithmetic::div_mod::lemma_div_is_ordered(0x10000, g1, 0x10000);
            }
        }
        assert(g2 > 0);
    }
    assert(g2 == 0xFFFF);
}

/// Inbound parse: everything after the 42-byte prefix is the UDP payload;
/// a frame no longer than the prefix carries none. No field validation —
/// the upstream classifier already decided this frame belongs to us.
pub fn udp_payload<'a>(frame: &'a [u8]) -> (r: Option<&'a [u8]>)
    ensures
        frame@.len() > HEADER_LEN ==> (r matches Some(p) && p@ == frame@.subrange(
            HEADER_LEN as int,
            frame@.len() as int,
        )),
        frame@.len() <= HEADER_LEN ==> r is None,
{
    if frame.len() > HEADER_LEN {
        Some(vstd::slice::slice_subrange(frame, HEADER_LEN, frame.len()))
    } else {
        None
    }
}

} // verus!
