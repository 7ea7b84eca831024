//! IPv4/TCP packet crafting and parsing.
//!
//! The crafter builds a complete IPv4 header + TCP header + payload with
//! correct checksums, TTL 64, a fixed advertised window of 65535 and no TCP
//! options. The parser accepts raw IPv4 datagrams and extracts the TCP
//! fields the tunnel engine dispatches on; malformed or non-TCP packets
//! parse to nothing and are dropped by the caller.

use vstd::prelude::*;

verus! {

/// TCP FIN flag bit.
pub const FLAG_FIN: u8 = 0x01;

/// TCP SYN flag bit.
pub const FLAG_SYN: u8 = 0x02;

/// TCP PSH flag bit.
pub const FLAG_PSH: u8 = 0x08;

/// TCP ACK flag bit.
pub const FLAG_ACK: u8 = 0x10;

/// The flag bits the crafter recognizes; unknown bits are ignored.
pub const FLAG_MASK: u8 = 0x1b;

/// Largest payload a crafted packet can carry: the IPv4 total length is 16
/// bits and the two headers take 40 bytes.
pub const MAX_TCP_PAYLOAD: usize = 65495;

/// An IPv4 socket address as plain values.
#[derive(Clone, Copy, Debug, PartialEq, Eq, Structural)]
pub struct SockAddr {
    /// The address as a 32-bit big-endian value.
    pub ip: u32,
    pub port: u16,
}

/// The TCP fields of one parsed ingress packet.
pub struct TcpSegment {
    pub src: SockAddr,
    pub dst: SockAddr,
    pub seq: u32,
    pub ack: u32,
    pub flags: u8,
    pub payload: Vec<u8>,
}

/// The mathematical model of a parsed segment.
pub ghost struct SegModel {
    pub src: SockAddr,
    pub dst: SockAddr,
    pub seq: u32,
    pub ack: u32,
    pub flags: u8,
    pub payload: Seq<u8>,
}

impl View for TcpSegment {
    type V = SegModel;

    open spec fn view(&self) -> SegModel {
        SegModel {
            src: self.src,
            dst: self.dst,
            seq: self.seq,
            ack: self.ack,
            flags: self.flags,
            payload: self.payload@,
        }
    }
}

/// Whether a flag bit is set in a flag mask.
pub open spec fn has_flag(flags: u8, bit: u8) -> bool {
    flags & bit != 0
}

/// The two big-endian bytes of a value below 2^16.
pub open spec fn be16n(x: int) -> Seq<u8> {
    seq![(x / 256) as u8, (x % 256) as u8]
}

/// The four big-endian bytes of a 32-bit value.
pub open spec fn be32n(x: u32) -> Seq<u8> {
    seq![
        (x as int / 0x1000000) as u8,
        ((x as int / 0x10000) % 256) as u8,
        ((x as int / 256) % 256) as u8,
        (x as int % 256) as u8,
    ]
}

/// The big-endian 16-bit value at offset `i`.
pub open spec fn u16be(s: Seq<u8>, i: int) -> u16 {
    ((s[i] as int) * 256 + (s[i + 1] as int)) as u16
}

/// The big-endian 32-bit value at offset `i`.
pub open spec fn u32be(s: Seq<u8>, i: int) -> u32 {
    ((s[i] as int) * 0x1000000 + (s[i + 1] as int) * 0x10000 + (s[i + 2] as int) * 256 + (s[i
        + 3] as int)) as u32
}

/// The plain sum of the big-endian 16-bit words of a byte string; an odd
/// trailing byte counts as the high byte of a final word.
pub open spec fn sum16(s: Seq<u8>) -> int
    decreases s.len(),
{
    if s.len() == 0 {
        0
    } else if s.len() == 1 {
        (s[0] as int) * 256
    } else {
        (s[0] as int) * 256 + (s[1] as int) + sum16(s.skip(2))
    }
}

/// Folds the carries of a ones'-complement sum until it fits 16 bits.
pub open spec fn ones_fold(n: int) -> int
    decreases n when n >= 0 via ones_fold_dec
{
    if n < 0x10000 {
        n
    } else {
        ones_fold(n % 0x10000 + n / 0x10000)
    }
}

#[via_fn]
proof fn ones_fold_dec(n: int) {
    if !(n < 0x10000) {
        assert(0 <= n % 0x10000 + n / 0x10000 < n) by (nonlinear_arith)
            requires
                n >= 0x10000,
        ;
    }
}

/// The Internet checksum of a byte string: the complement of the folded
/// ones'-complement sum of its 16-bit words.
pub open spec fn checksum16(s: Seq<u8>) -> int {
    0xffff - ones_fold(sum16(s))
}

/// The 20 IPv4 header bytes before the checksum is filled in: version 4,
/// no options, total length as given, no fragmentation, TTL 64, protocol
/// TCP.
pub open spec fn ipv4_header_pre(src_ip: u32, dst_ip: u32, total_len: int) -> Seq<u8> {
    seq![0x45u8, 0u8] + be16n(total_len) + seq![0u8, 0u8, 0u8, 0u8, 64u8, 6u8, 0u8, 0u8] + be32n(
        src_ip,
    ) + be32n(dst_ip)
}

/// The finished IPv4 header, its checksum in bytes 10 and 11.
pub open spec fn ipv4_header(src_ip: u32, dst_ip: u32, total_len: int) -> Seq<u8> {
    let pre = ipv4_header_pre(src_ip, dst_ip, total_len);
    let c = checksum16(pre);
    pre.update(10, (c / 256) as u8).update(11, (c % 256) as u8)
}

/// The acknowledgement number the crafter writes: the given one when the
/// ACK flag is set, zero otherwise.
pub open spec fn ack_field(ack: u32, flags: u8) -> u32 {
    if has_flag(flags, FLAG_ACK) {
        ack
    } else {
        0
    }
}

/// The 20 TCP header bytes before the checksum is filled in: data offset 5,
/// the recognized flag bits, window 65535, no options, no urgent pointer.
pub open spec fn tcp_header_pre(src: SockAddr, dst: SockAddr, seq: u32, ack: u32, flags: u8) -> Seq<
    u8,
> {
    be16n(src.port as int) + be16n(dst.port as int) + be32n(seq) + be32n(ack_field(ack, flags))
        + seq![0x50u8, flags & FLAG_MASK] + be16n(0xffff) + seq![0u8, 0u8, 0u8, 0u8]
}

/// The IPv4 pseudo-header the TCP checksum covers.
pub open spec fn pseudo_header(src_ip: u32, dst_ip: u32, tcp_len: int) -> Seq<u8> {
    be32n(src_ip) + be32n(dst_ip) + seq![0u8, 6u8] + be16n(tcp_len)
}

/// The finished TCP header, its checksum in bytes 16 and 17.
pub open spec fn tcp_header(src: SockAddr, dst: SockAddr, seq: u32, ack: u32, flags: u8, payload:
    Seq<u8>) -> Seq<u8> {
    let pre = tcp_header_pre(src, dst, seq, ack, flags);
    let c = checksum16(pseudo_header(src.ip, dst.ip, 20 + payload.len() as int) + pre + payload);
    pre.update(16, (c / 256) as u8).update(17, (c % 256) as u8)
}

/// The complete crafted packet: IPv4 header, TCP header, payload.
pub open spec fn craft_spec(src: SockAddr, dst: SockAddr, seq: u32, ack: u32, flags: u8, payload:
    Seq<u8>) -> Seq<u8> {
    ipv4_header(src.ip, dst.ip, 40 + payload.len() as int) + tcp_header(src, dst, seq, ack, flags, payload)
        + payload
}

/// What parsing a raw IPv4 datagram yields: the TCP fields, or nothing for
/// anything that is not a well-formed IPv4+TCP packet.
pub open spec fn parse_spec(s: Seq<u8>) -> Option<SegModel> {
    if s.len() < 20 {
        None
    } else if s[0] >> 4 != 4 || (s[0] & 0x0f) < 5 {
        None
    } else if s[9] != 6 {
        None
    } else {
        let ihl = ((s[0] & 0x0f) as int) * 4;
        if s.len() < ihl + 20 {
            None
        } else {
            let off = ((s[ihl + 12] >> 4) as int) * 4;
            if off < 20 || s.len() < ihl + off {
                None
            } else {
                Some(
                    SegModel {
                        src: SockAddr { ip: u32be(s, 12), port: u16be(s, ihl) },
                        dst: SockAddr { ip: u32be(s, 16), port: u16be(s, ihl + 2) },
                        seq: u32be(s, ihl + 4),
                        ack: u32be(s, ihl + 8),
                        flags: s[ihl + 13],
                        payload: s.skip(ihl + off),
                    },
                )
            }
        }
    }
}

/// Reading back the two big-endian bytes of a 16-bit value yields it.
proof fn lemma_be16_roundtrip(x: u16)
    ensures
        u16be(be16n(x as int), 0) == x,
{
    vstd::arithmetic::div_mod::lemma_fundamental_div_mod(x as int, 256);
}

/// Reading back the four big-endian bytes of a 32-bit value yields it.
proof fn lemma_be32_roundtrip(x: u32)
    ensures
        u32be(be32n(x), 0) == x,
{
    let y = x as int;
    vstd::arithmetic::div_mod::lemma_fundamental_div_mod(y, 256);
    vstd::arithmetic::div_mod::lemma_fundamental_div_mod(y / 256, 256);
    vstd::arithmetic::div_mod::lemma_fundamental_div_mod(y / 0x10000, 256);
    vstd::arithmetic::div_mod::lemma_div_denominator(y, 256, 256);
    vstd::arithmetic::div_mod::lemma_div_denominator(y, 0x10000, 256);
    assert(0 <= y / 0x1000000 < 256) by (nonlinear_arith)
        requires
            0 <= y < 0x1_0000_0000,
    ;
}

proof fn lemma_sum16_bound(s: Seq<u8>)
    ensures
        0 <= sum16(s) <= 0x10000 * s.len(),
    decreases s.len(),
{
    if s.len() >= 2 {
        lemma_sum16_bound(s.skip(2));
    }
}

/// The word sum splits over a concatenation at an even boundary.
proof fn lemma_sum16_even_concat(a: Seq<u8>, b: Seq<u8>)
    requires
        a.len() % 2 == 0,
    ensures
        sum16(a + b) == sum16(a) + sum16(b),
    decreases a.len(),
{
    if a.len() == 0 {
        assert(a + b =~= b);
    } else {
        assert((a + b).skip(2) =~= a.skip(2) + b);
        lemma_sum16_even_concat(a.skip(2), b);
    }
}

proof fn lemma_ones_fold_range(n: int)
    requires
        n >= 0,
    ensures
        0 <= ones_fold(n) < 0x10000,
    decreases n,
{
    if n >= 0x10000 {
        assert(0 <= n % 0x10000 + n / 0x10000 < n) by (nonlinear_arith)
            requires
                n >= 0x10000,
        ;
        lemma_ones_fold_range(n % 0x10000 + n / 0x10000);
    }
}

proof fn lemma_ones_fold_le(n: int)
    requires
        n >= 0,
    ensures
        ones_fold(n) <= n,
    decreases n,
{
    if n >= 0x10000 {
        assert(0 <= n % 0x10000 + n / 0x10000 < n) by (nonlinear_arith)
            requires
                n >= 0x10000,
        ;
        lemma_ones_fold_le(n % 0x10000 + n / 0x10000);
    }
}

proof fn lemma_ones_fold_pos(n: int)
    requires
        n > 0,
    ensures
        ones_fold(n) > 0,
    decreases n,
{
    if n >= 0x10000 {
        assert(0 < n % 0x10000 + n / 0x10000 < n) by (nonlinear_arith)
            requires
                n >= 0x10000,
        ;
        lemma_ones_fold_pos(n % 0x10000 + n / 0x10000);
    }
}

/// Folding the carries preserves the value modulo 0xffff, because
/// 0x10000 is 1 modulo 0xffff.
proof fn lemma_ones_fold_mod(n: int)
    requires
        n >= 0,
    ensures
        ones_fold(n) % 0xffff == n % 0xffff,
    decreases n,
{
    if n >= 0x10000 {
        let q = n / 0x10000;
        let r = n % 0x10000;
        vstd::arithmetic::div_mod::lemma_fundamental_div_mod(n, 0x10000);
        assert(n == 0xffff * q + (q + r));
        vstd::arithmetic::div_mod::lemma_mod_multiples_vanish(q, q + r, 0xffff);
        assert(0 <= n % 0x10000 + n / 0x10000 < n) by (nonlinear_arith)
            requires
                n >= 0x10000,
        ;
        lemma_ones_fold_mod(q + r);
    }
}

/// Adding the complement of a sum's fold to the sum makes it fold to
/// exactly 0xffff: the receiver-side checksum identity.
proof fn lemma_ones_fold_complement(n: int)
    requires
        n >= 0,
    ensures
        ones_fold(n + 0xffff - ones_fold(n)) == 0xffff,
{
    let f = ones_fold(n);
    lemma_ones_fold_range(n);
    lemma_ones_fold_le(n);
    lemma_ones_fold_mod(n);
    let m = n + 0xffff - f;
    lemma_ones_fold_pos(m);
    lemma_ones_fold_mod(m);
    lemma_ones_fold_range(m);
    vstd::arithmetic::div_mod::lemma_mod_multiples_vanish(1, n - f, 0xffff);
    vstd::arithmetic::div_mod::lemma_sub_mod_noop(n, f, 0xffff);
    assert(m % 0xffff == 0);
    let fm = ones_fold(m);
    assert(fm % 0xffff == 0);
    vstd::arithmetic::div_mod::lemma_fundamental_div_mod(fm, 0xffff);
    assert(fm == 0xffff * (fm / 0xffff));
    assert(fm == 0xffff) by (nonlinear_arith)
        requires
            fm == 0xffff * (fm / 0xffff),
            0 < fm < 0x10000,
    ;
}

/// Replacing the zero word at even offset `i` adds its value to the word
/// sum.
proof fn lemma_sum16_update_word(s: Seq<u8>, i: int, a: u8, b: u8)
    requires
        0 <= i,
        i % 2 == 0,
        i + 2 <= s.len(),
    ensures
        sum16(s.update(i, a).update(i + 1, b)) == sum16(s) - (s[i] as int) * 256 - (s[i
            + 1] as int) + (a as int) * 256 + (b as int),
{
    let t = s.update(i, a).update(i + 1, b);
    assert(s =~= s.take(i) + s.skip(i));
    assert(t.take(i) =~= s.take(i));
    assert(t =~= t.take(i) + t.skip(i));
    lemma_sum16_even_concat(s.take(i), s.skip(i));
    lemma_sum16_even_concat(t.take(i), t.skip(i));
    let ss = s.skip(i);
    let tt = t.skip(i);
    assert(ss[0] == s[i] && ss[1] == s[i + 1]);
    assert(tt[0] == a && tt[1] == b);
    assert(tt.skip(2) =~= ss.skip(2));
}

/// The finished IPv4 header verifies: summing all ten of its words,
/// checksum included, folds to 0xffff — the standard receiver check.
pub proof fn lemma_ipv4_checksum_validates(src_ip: u32, dst_ip: u32, total_len: int)
    requires
        0 <= total_len < 0x10000,
    ensures
        ones_fold(sum16(ipv4_header(src_ip, dst_ip, total_len))) == 0xffff,
{
    let pre = ipv4_header_pre(src_ip, dst_ip, total_len);
    let c = checksum16(pre);
    assert(pre.len() == 20);
    assert(pre[10] == 0 && pre[11] == 0);
    lemma_sum16_bound(pre);
    lemma_ones_fold_range(sum16(pre));
    assert(0 <= c <= 0xffff);
    assert(0 <= c / 256 < 256 && 0 <= c % 256 < 256) by (nonlinear_arith)
        requires
            0 <= c <= 0xffff,
    ;
    vstd::arithmetic::div_mod::lemma_fundamental_div_mod(c, 256);
    lemma_sum16_update_word(pre, 10, (c / 256) as u8, (c % 256) as u8);
    assert(sum16(ipv4_header(src_ip, dst_ip, total_len)) == sum16(pre) + c);
    lemma_ones_fold_complement(sum16(pre));
}

/// The finished TCP header verifies: summing the pseudo-header, the
/// header with its checksum, and the payload folds to 0xffff — the
/// standard receiver check.
pub proof fn lemma_tcp_checksum_validates(
    src: SockAddr,
    dst: SockAddr,
    seq: u32,
    ack: u32,
    flags: u8,
    payload: Seq<u8>,
)
    requires
        payload.len() <= MAX_TCP_PAYLOAD,
    ensures
        ({
            let ps = pseudo_header(src.ip, dst.ip, 20 + payload.len() as int);
            let hdr = tcp_header(src, dst, seq, ack, flags, payload);
            ones_fold(sum16(ps + hdr + payload)) == 0xffff
        }),
{
    let ps = pseudo_header(src.ip, dst.ip, 20 + payload.len() as int);
    let tpre = tcp_header_pre(src, dst, seq, ack, flags);
    let hdr = tcp_header(src, dst, seq, ack, flags, payload);
    let n = sum16(ps + tpre + payload);
    let c = checksum16(ps + tpre + payload);
    assert(ps.len() == 12);
    assert(tpre.len() == 20);
    assert(tpre[16] == 0 && tpre[17] == 0);
    lemma_sum16_bound(ps + tpre + payload);
    lemma_ones_fold_range(n);
    assert(0 <= c <= 0xffff);
    assert(0 <= c / 256 < 256 && 0 <= c % 256 < 256) by (nonlinear_arith)
        requires
            0 <= c <= 0xffff,
    ;
    vstd::arithmetic::div_mod::lemma_fundamental_div_mod(c, 256);
    lemma_sum16_even_concat(ps, tpre);
    lemma_sum16_even_concat(ps + tpre, payload);
    lemma_sum16_even_concat(ps, hdr);
    lemma_sum16_even_concat(ps + hdr, payload);
    lemma_sum16_update_word(tpre, 16, (c / 256) as u8, (c % 256) as u8);
    assert(sum16(hdr) == sum16(tpre) + c);
    assert(sum16(ps + hdr + payload) == n + c);
    lemma_ones_fold_complement(n);
}

/// Adds the 16-bit words of `data` to a running sum.
fn add_words(acc: u64, data: &[u8]) -> (r: u64)
    requires
        acc + 0x10000 * data@.len() < 0x8000_0000_0000_0000,
    ensures
        r == acc + sum16(data@),
{
    let ghost whole = data@;
    let mut sum = acc;
    let mut i: usize = 0;
    proof {
        lemma_sum16_bound(whole);
        assert(whole.skip(0) =~= whole);
    }
    while i + 1 < data.len()
        invariant
            i <= data@.len(),
            i % 2 == 0,
            data@ == whole,
            acc + 0x10000 * whole.len() < 0x8000_0000_0000_0000,
            sum + sum16(whole.skip(i as int)) == acc + sum16(whole),
            sum <= acc + 0x10000 * i,
        decreases data@.len() - i,
    {
        proof {
            let t = whole.skip(i as int);
            assert(t.len() >= 2);
            assert(t[0] == whole[i as int]);
            assert(t[1] == whole[i as int + 1]);
            assert(t.skip(2) =~= whole.skip(i as int + 2));
            lemma_sum16_bound(whole.skip(i as int + 2));
            lemma_sum16_bound(t);
        }
        sum = sum + (data[i] as u64) * 256 + (data[i + 1] as u64);
        i = i + 2;
    }
    if i < data.len() {
        proof {
            let t = whole.skip(i as int);
            assert(t.len() == 1);
            assert(t[0] == whole[i as int]);
        }
        sum = sum + (data[i] as u64) * 256;
        proof {
            assert(sum16(whole.skip(i as int)) == (whole[i as int] as int) * 256);
        }
    } else {
        proof {
            assert(whole.skip(i as int) =~= Seq::<u8>::empty());
        }
    }
    sum
}

/// Folds the carries of a word sum into 16 bits.
fn fold_carries(n: u64) -> (r: u16)
    ensures
        r as int == ones_fold(n as int),
{
    let mut acc = n;
    while acc >= 0x10000
        invariant
            ones_fold(acc as int) == ones_fold(n as int),
        decreases acc,
    {
        proof {
            assert(acc & 0xffff == acc % 0x10000) by (bit_vector);
            assert(acc >> 16u64 == acc / 0x10000) by (bit_vector);
            assert(0 <= acc % 0x10000 + acc / 0x10000 < acc) by (nonlinear_arith)
                requires
                    acc >= 0x10000,
            ;
        }
        acc = (acc & 0xffff) + (acc >> 16u64);
    }
    acc as u16
}

/// The Internet checksum of the words summed into `sum`.
fn finish_checksum(sum: u64) -> (r: u16)
    ensures
        r as int == 0xffff - ones_fold(sum as int),
{
    proof {
        lemma_ones_fold_range(sum as int);
    }
    let folded = fold_carries(sum);
    0xffff - folded
}

/// Appends the two big-endian bytes of a 16-bit value.
fn push_be16(v: &mut Vec<u8>, x: u16)
    ensures
        final(v)@ == old(v)@ + be16n(x as int),
{
    let ghost before = v@;
    v.push((x / 256) as u8);
    v.push((x % 256) as u8);
    proof {
        assert(v@ =~= before + be16n(x as int));
    }
}

/// Appends the four big-endian bytes of a 32-bit value.
fn push_be32(v: &mut Vec<u8>, x: u32)
    ensures
        final(v)@ == old(v)@ + be32n(x),
{
    let ghost before = v@;
    v.push((x / 0x1000000) as u8);
    v.push(((x / 0x10000) % 256) as u8);
    v.push(((x / 256) % 256) as u8);
    v.push((x % 256) as u8);
    proof {
        assert(v@ =~= before + be32n(x));
    }
}

/// Appends a copy of a byte slice.
pub(crate) fn push_bytes(v: &mut Vec<u8>, data: &[u8])
    ensures
        final(v)@ == old(v)@ + data@,
{
    let ghost before = v@;
    let mut i: usize = 0;
    while i < data.len()
        invariant
            i <= data@.len(),
            v@ == before + data@.take(i as int),
        decreases data@.len() - i,
    {
        v.push(data[i]);
        proof {
            assert(before + data@.take(i as int + 1) =~= (before + data@.take(i as int)).push(
                data@[i as int],
            ));
        }
        i = i + 1;
    }
    proof {
        assert(data@.take(data@.len() as int) =~= data@);
    }
}

/// Builds one IPv4+TCP packet with the given addresses, sequence and
/// acknowledgement numbers, flag mask and payload.
pub fn craft_ipv4_tcp(src: SockAddr, dst: SockAddr, seq: u32, ack: u32, flags: u8, payload: &[u8])
    -> (r: Vec<u8>)
    requires
        payload@.len() <= MAX_TCP_PAYLOAD,
    ensures
        r@ == craft_spec(src, dst, seq, ack, flags, payload@),
        r@.len() == 40 + payload@.len(),
{
    let total_len: usize = 40 + payload.len();
    let tcp_len: usize = 20 + payload.len();

    // IPv4 header with a zero checksum field.
    let mut ip0: Vec<u8> = Vec::new();
    ip0.push(0x45);
    ip0.push(0);
    push_be16(&mut ip0, total_len as u16);
    ip0.push(0);
    ip0.push(0);
    ip0.push(0);
    ip0.push(0);
    ip0.push(64);
    ip0.push(6);
    ip0.push(0);
    ip0.push(0);
    push_be32(&mut ip0, src.ip);
    push_be32(&mut ip0, dst.ip);
    proof {
        assert(ip0@ =~= ipv4_header_pre(src.ip, dst.ip, total_len as int));
        lemma_sum16_bound(ip0@);
    }
    let c1 = finish_checksum(add_words(0, ip0.as_slice()));

    // TCP header with a zero checksum field.
    let ackv: u32 = if flags & FLAG_ACK != 0 {
        ack
    } else {
        0
    };
    let mut tcp0: Vec<u8> = Vec::new();
    push_be16(&mut tcp0, src.port);
    push_be16(&mut tcp0, dst.port);
    push_be32(&mut tcp0, seq);
    push_be32(&mut tcp0, ackv);
    tcp0.push(0x50);
    tcp0.push(flags & FLAG_MASK);
    push_be16(&mut tcp0, 0xffff);
    tcp0.push(0);
    tcp0.push(0);
    tcp0.push(0);
    tcp0.push(0);
    proof {
        assert(tcp0@ =~= tcp_header_pre(src, dst, seq, ack, flags));
    }

    // Pseudo-header for the TCP checksum.
    let mut ps: Vec<u8> = Vec::new();
    push_be32(&mut ps, src.ip);
    push_be32(&mut ps, dst.ip);
    ps.push(0);
    ps.push(6);
    push_be16(&mut ps, tcp_len as u16);
    proof {
        assert(ps@ =~= pseudo_header(src.ip, dst.ip, tcp_len as int));
        lemma_sum16_bound(ps@);
        lemma_sum16_bound(tcp0@);
        lemma_sum16_bound(payload@);
    }
    let s1 = add_words(0, ps.as_slice());
    let s2 = add_words(s1, tcp0.as_slice());
    let s3 = add_words(s2, payload);
    let c2 = finish_checksum(s3);
    proof {
        lemma_sum16_even_concat(ps@ + tcp0@, payload@);
        lemma_sum16_even_concat(ps@, tcp0@);
        assert(sum16(ps@ + tcp0@ + payload@) == sum16(ps@) + sum16(tcp0@) + sum16(payload@));
    }

    // Assemble the packet, placing each checksum in its slot.
    let mut r: Vec<u8> = Vec::new();
    let mut i: usize = 0;
    while i < 10
        invariant
            i <= 10,
            ip0@.len() == 20,
            r@ == ip0@.take(i as int),
        decreases 10 - i,
    {
        r.push(ip0[i]);
        i = i + 1;
    }
    r.push((c1 / 256) as u8);
    r.push((c1 % 256) as u8);
    let mut i2: usize = 12;
    while i2 < 20
        invariant
            12 <= i2 <= 20,
            ip0@.len() == 20,
            r@.len() == i2,
            r@ == ip0@.take(10).push((c1 / 256) as u8).push((c1 % 256) as u8) + ip0@.subrange(
                12,
                i2 as int,
            ),
        decreases 20 - i2,
    {
        r.push(ip0[i2]);
        proof {
            assert(ip0@.subrange(12, i2 as int + 1) =~= ip0@.subrange(12, i2 as int).push(
                ip0@[i2 as int],
            ));
        }
        i2 = i2 + 1;
    }
    proof {
        assert(r@ =~= ipv4_header(src.ip, dst.ip, total_len as int));
    }
    let ghost iph = r@;
    let mut j: usize = 0;
    while j < 16
        invariant
            j <= 16,
            tcp0@.len() == 20,
            r@ == iph + tcp0@.take(j as int),
        decreases 16 - j,
    {
        r.push(tcp0[j]);
        proof {
            assert(iph + tcp0@.take(j as int + 1) =~= (iph + tcp0@.take(j as int)).push(
                tcp0@[j as int],
            ));
        }
        j = j + 1;
    }
    r.push((c2 / 256) as u8);
    r.push((c2 % 256) as u8);
    r.push(0);
    r.push(0);
    proof {
        assert(r@ =~= iph + tcp_header(src, dst, seq, ack, flags, payload@));
    }
    push_bytes(&mut r, payload);
    proof {
        assert(r@ == craft_spec(src, dst, seq, ack, flags, payload@));
    }
    r
}

/// Parsing inverts crafting: a crafted packet parses back to exactly the
/// addresses, sequence and acknowledgement numbers, recognized flag bits
/// and payload it was built from — what the tunnel states of each packet
/// it emits can be read off the wire.
pub proof fn lemma_parse_inverts_craft(
    src: SockAddr,
    dst: SockAddr,
    seq: u32,
    ack: u32,
    flags: u8,
    payload: Seq<u8>,
)
    requires
        payload.len() <= MAX_TCP_PAYLOAD,
    ensures
        parse_spec(craft_spec(src, dst, seq, ack, flags, payload)) == Some(
            SegModel {
                src,
                dst,
                seq,
                ack: ack_field(ack, flags),
                flags: flags & FLAG_MASK,
                payload,
            },
        ),
{
    let total_len = 40 + payload.len() as int;
    let pre = ipv4_header_pre(src.ip, dst.ip, total_len);
    let iph = ipv4_header(src.ip, dst.ip, total_len);
    let tpre = tcp_header_pre(src, dst, seq, ack, flags);
    let tcph = tcp_header(src, dst, seq, ack, flags, payload);
    let s = craft_spec(src, dst, seq, ack, flags, payload);
    assert(pre.len() == 20);
    assert(iph.len() == 20);
    assert(tpre.len() == 20);
    assert(tcph.len() == 20);
    assert(s.len() == 40 + payload.len());
    assert(forall|i: int| 0 <= i < 20 ==> s[i] == iph[i]);
    assert(forall|j: int| 0 <= j < 20 ==> s[20 + j] == tcph[j]);
    assert(s[0] == 0x45);
    assert(0x45u8 >> 4 == 4) by (bit_vector);
    assert(0x45u8 & 0x0f == 5) by (bit_vector);
    assert(s[9] == 6);
    assert(s[32] == 0x50);
    assert(0x50u8 >> 4 == 5) by (bit_vector);
    assert(s[33] == flags & FLAG_MASK);

    lemma_be32_roundtrip(src.ip);
    assert(s[12] == be32n(src.ip)[0] && s[13] == be32n(src.ip)[1] && s[14] == be32n(src.ip)[2]
        && s[15] == be32n(src.ip)[3]);
    assert(u32be(s, 12) == src.ip);

    lemma_be32_roundtrip(dst.ip);
    assert(s[16] == be32n(dst.ip)[0] && s[17] == be32n(dst.ip)[1] && s[18] == be32n(dst.ip)[2]
        && s[19] == be32n(dst.ip)[3]);
    assert(u32be(s, 16) == dst.ip);

    lemma_be16_roundtrip(src.port);
    assert(s[20] == be16n(src.port as int)[0] && s[21] == be16n(src.port as int)[1]);
    assert(u16be(s, 20) == src.port);

    lemma_be16_roundtrip(dst.port);
    assert(s[22] == be16n(dst.port as int)[0] && s[23] == be16n(dst.port as int)[1]);
    assert(u16be(s, 22) == dst.port);

    lemma_be32_roundtrip(seq);
    assert(s[24] == be32n(seq)[0] && s[25] == be32n(seq)[1] && s[26] == be32n(seq)[2] && s[27]
        == be32n(seq)[3]);
    assert(u32be(s, 24) == seq);

    lemma_be32_roundtrip(ack_field(ack, flags));
    assert(s[28] == be32n(ack_field(ack, flags))[0] && s[29] == be32n(ack_field(ack, flags))[1]
        && s[30] == be32n(ack_field(ack, flags))[2] && s[31] == be32n(ack_field(ack, flags))[3]);
    assert(u32be(s, 28) == ack_field(ack, flags));

    assert(s.skip(40) =~= payload);
}

/// Reads the big-endian 16-bit value at offset `i`.
fn read_u16be(s: &[u8], i: usize) -> (r: u16)
    requires
        i + 2 <= s@.len(),
    ensures
        r == u16be(s@, i as int),
{
    (s[i] as u16) * 256 + (s[i + 1] as u16)
}

/// Reads the big-endian 32-bit value at offset `i`.
fn read_u32be(s: &[u8], i: usize) -> (r: u32)
    requires
        i + 4 <= s@.len(),
    ensures
        r == u32be(s@, i as int),
{
    (s[i] as u32) * 0x1000000 + (s[i + 1] as u32) * 0x10000 + (s[i + 2] as u32) * 256 + (s[i
        + 3] as u32)
}

/// Parses a raw IPv4 datagram into the TCP fields the engine needs.
/// Anything that is not well-formed IPv4 carrying TCP yields `None`.
pub fn parse_ipv4_tcp(packet: &[u8]) -> (r: Option<TcpSegment>)
    ensures
        match r {
            Some(seg) => parse_spec(packet@) == Some(seg@),
            None => parse_spec(packet@) is None,
        },
{
    if packet.len() < 20 {
        return None;
    }
    if packet[0] >> 4u8 != 4 || packet[0] & 0x0f < 5 {
        return None;
    }
    if packet[9] != 6 {
        return None;
    }
    let ihl: usize = ((packet[0] & 0x0f) as usize) * 4;
    if packet.len() < ihl + 20 {
        return None;
    }
    let off: usize = ((packet[ihl + 12] >> 4u8) as usize) * 4;
    if off < 20 || packet.len() < ihl + off {
        return None;
    }
    let payload = crate::codec::slice_range(packet, ihl + off, packet.len());
    proof {
        assert(payload@ =~= packet@.skip(ihl as int + off as int));
    }
    Some(
        TcpSegment {
            src: SockAddr { ip: read_u32be(packet, 12), port: read_u16be(packet, ihl) },
            dst: SockAddr { ip: read_u32be(packet, 16), port: read_u16be(packet, ihl + 2) },
            seq: read_u32be(packet, ihl + 4),
            ack: read_u32be(packet, ihl + 8),
            flags: packet[ihl + 13],
            payload,
        },
    )
}

} // verus!
