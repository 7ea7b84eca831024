//! The tunnel engine: the flow table and the per-packet dispatch rules.
//!
//! The engine holds one entry per intercepted TCP flow and decides, for
//! each parsed ingress segment and each upstream payload, what to answer
//! toward the host and what to hand to the flow's egress sink. All I/O and
//! the upstream substreams stay with the caller: the engine only decides,
//! so every decision is a pure function of the table and the event.

use vstd::prelude::*;

use std::collections::HashMap;

use crate::codec::slice_range;
use crate::packet::{
    craft_spec, craft_ipv4_tcp, has_flag, SockAddr, TcpSegment, SegModel, parse_spec,
    parse_ipv4_tcp, FLAG_ACK, FLAG_FIN, FLAG_PSH, FLAG_SYN, MAX_TCP_PAYLOAD,
};

verus! {

broadcast use vstd::std_specs::hash::group_hash_axioms;

/// What identifies an intercepted flow within the client: the remote
/// endpoint and the host's local port. The local address is the virtual
/// interface's fixed peer and is not part of the key.
#[derive(Clone, Copy, Debug, PartialEq, Eq, Structural)]
pub struct FlowKey {
    pub remote_ip: u32,
    pub remote_port: u16,
    pub local_port: u16,
}

/// The key packed into one 64-bit word: the table is keyed by this value.
pub open spec fn key_id(k: FlowKey) -> u64 {
    (k.remote_ip as int * 0x1_0000_0000 + k.remote_port as int * 0x10000
        + k.local_port as int) as u64
}

/// Packs a flow key into its 64-bit table key.
pub fn key_id_of(k: &FlowKey) -> (r: u64)
    ensures
        r == key_id(*k),
{
    (k.remote_ip as u64) * 0x1_0000_0000 + (k.remote_port as u64) * 0x10000 + (
    k.local_port as u64)
}

/// At most one table entry can exist per flow key: the packing that keys
/// the table is injective, and a map holds one value per key.
pub proof fn lemma_flow_key_injective(k1: FlowKey, k2: FlowKey)
    requires
        key_id(k1) == key_id(k2),
    ensures
        k1 == k2,
{
}

/// The per-flow record.
///
/// `our_seq` is the sequence number the tunnel will place in the next
/// packet toward the host, `our_ack` the next sequence number it expects
/// from the host. The ghost `egress` log holds every payload byte the
/// engine has handed to this flow's egress sink, in order.
#[derive(Clone, Copy)]
pub struct TcpFlow {
    pub our_seq: u32,
    pub our_ack: u32,
    pub local_addr: SockAddr,
    pub remote_addr: SockAddr,
    pub egress: Ghost<Seq<u8>>,
}

/// What the engine decides for one ingress packet.
pub enum PacketAction {
    /// Nothing to do: the packet was malformed, not TCP, a pure ACK on an
    /// existing flow, or addressed to no flow without a SYN.
    Ignore,
    /// A SYN for an unknown key. The caller opens the upstream substream
    /// and, on success, calls `accept_flow` (or `open_flow`) with these
    /// values; on failure it drops the SYN.
    SynSeen { key: FlowKey, src: SockAddr, dst: SockAddr, kernel_next: u32 },
    /// A data segment on an existing flow: write `response` to the
    /// interface and hand `egress` to the flow's egress sink.
    AckData { key: FlowKey, response: Vec<u8>, egress: Vec<u8> },
    /// A FIN on an existing flow, now removed: write `response`, hand
    /// `egress` to the sink, and signal the flow's cancel handle.
    FinClose { key: FlowKey, response: Vec<u8>, egress: Vec<u8> },
}

/// The flow key of a host-origin segment: destination address and port,
/// source port.
pub open spec fn seg_key(s: SegModel) -> FlowKey {
    FlowKey { remote_ip: s.dst.ip, remote_port: s.dst.port, local_port: s.src.port }
}

/// Addition modulo 2^32, the arithmetic of TCP sequence numbers.
pub open spec fn wadd(a: int, b: int) -> u32 {
    ((a + b) % 0x1_0000_0000) as u32
}

/// The dispatch relation of the engine: how one host-origin segment `s`
/// takes the flow table from `old_m` to `m` with decision `r`.
///
/// - An unknown key without SYN, or an existing flow's pure ACK, changes
///   nothing and is ignored.
/// - A SYN for an unknown key changes nothing yet and reports the flow to
///   open, acknowledging `seq + 1`.
/// - A FIN on an existing flow removes it, forwards any payload, and
///   answers FIN|ACK with ack `seq + 1` and seq the host's own ack.
/// - A data segment on an existing flow forwards the payload, appends it
///   to the flow's egress log, sets `our_ack` to `seq + len` and `our_seq`
///   to the host's ack, and answers a bare ACK.
pub open spec fn step_ok(old_m: Map<u64, TcpFlow>, m: Map<u64, TcpFlow>, s: SegModel, r:
    PacketAction) -> bool {
    let k = seg_key(s);
    let kid = key_id(k);
    &&& (!old_m.contains_key(kid) && !has_flag(s.flags, FLAG_SYN) ==> r is Ignore && m == old_m)
    &&& (!old_m.contains_key(kid) && has_flag(s.flags, FLAG_SYN) ==> ({
        &&& m == old_m
        &&& (r matches PacketAction::SynSeen { key, src, dst, kernel_next } && key == k && src
            == s.src && dst == s.dst && kernel_next == wadd(s.seq as int, 1))
    }))
    &&& (old_m.contains_key(kid) && has_flag(s.flags, FLAG_FIN) ==> ({
        &&& m == old_m.remove(kid)
        &&& (r matches PacketAction::FinClose { key, response, egress } && key == k && egress@
            == s.payload && response@ == craft_spec(
            old_m[kid].remote_addr,
            old_m[kid].local_addr,
            s.ack,
            wadd(s.seq as int, 1),
            (FLAG_FIN | FLAG_ACK),
            Seq::<u8>::empty(),
        ))
    }))
    &&& (old_m.contains_key(kid) && !has_flag(s.flags, FLAG_FIN) && s.payload.len() > 0 ==> ({
        &&& m.contains_key(kid)
        &&& m == old_m.insert(kid, m[kid])
        &&& m[kid].our_seq == s.ack
        &&& m[kid].our_ack == wadd(s.seq as int, s.payload.len() as int)
        &&& m[kid].local_addr == old_m[kid].local_addr
        &&& m[kid].remote_addr == old_m[kid].remote_addr
        &&& m[kid].egress@ == old_m[kid].egress@ + s.payload
        &&& (r matches PacketAction::AckData { key, response, egress } && key == k && egress@
            == s.payload && response@ == craft_spec(
            old_m[kid].remote_addr,
            old_m[kid].local_addr,
            s.ack,
            wadd(s.seq as int, s.payload.len() as int),
            FLAG_ACK,
            Seq::<u8>::empty(),
        ))
    }))
    &&& (old_m.contains_key(kid) && !has_flag(s.flags, FLAG_FIN) && s.payload.len() == 0 ==> r
        is Ignore && m == old_m)
}

/// Ordering within a flow: every data segment the engine accepts appends
/// its payload, whole and in arrival order, to the flow's egress log — the
/// bytes handed to the egress sink are the concatenation of the payloads
/// in the order the segments were processed.
pub proof fn lemma_egress_order(
    old_m: Map<u64, TcpFlow>,
    m: Map<u64, TcpFlow>,
    s: SegModel,
    r: PacketAction,
)
    requires
        step_ok(old_m, m, s, r),
        old_m.contains_key(key_id(seg_key(s))),
        !has_flag(s.flags, FLAG_FIN),
        s.payload.len() > 0,
    ensures
        m[key_id(seg_key(s))].egress@ == old_m[key_id(seg_key(s))].egress@ + s.payload,
        forall|kid: u64|
            kid != key_id(seg_key(s)) && old_m.contains_key(kid) ==> m.contains_key(kid)
                && m[kid] == old_m[kid],
{
}

/// Adds a byte count to a sequence number modulo 2^32.
fn wrap_add(a: u32, b: usize) -> (r: u32)
    ensures
        r == wadd(a as int, b as int),
{
    proof {
        vstd::arithmetic::div_mod::lemma_add_mod_noop(a as int, b as int, 0x1_0000_0000);
    }
    (((a as u64) + ((b as u64) % 0x1_0000_0000)) % 0x1_0000_0000) as u32
}

/// Draws a fresh 32-bit initial sequence number.
///
/// Relies on `rand::random`: a value from the thread-local generator;
/// nothing can be promised of a random value.
#[verifier::external_body]
fn random_u32() -> (r: u32) {
    rand::random::<u32>()
}

/// The tunnel engine: the flow table, owned by a single event loop.
pub struct Tunnel {
    flow_table: HashMap<u64, TcpFlow>,
}

impl Tunnel {
    /// The table as a map from packed key to flow record.
    pub closed spec fn flows(&self) -> Map<u64, TcpFlow> {
        self.flow_table@
    }

    pub fn new() -> (r: Self)
        ensures
            r.flows() == Map::<u64, TcpFlow>::empty(),
    {
        Tunnel { flow_table: HashMap::new() }
    }

    /// Whether a flow exists for this key.
    pub fn has_flow(&self, key: &FlowKey) -> (r: bool)
        ensures
            r == self.flows().contains_key(key_id(*key)),
    {
        self.flow_table.contains_key(&key_id_of(key))
    }

    /// The `(our_seq, our_ack)` pair of a flow, if one exists for the key.
    pub fn flow_seq_ack(&self, key: &FlowKey) -> (r: Option<(u32, u32)>)
        ensures
            match r {
                Some(p) => self.flows().contains_key(key_id(*key)) && p.0 == self.flows()[key_id(
                    *key,
                )].our_seq && p.1 == self.flows()[key_id(*key)].our_ack,
                None => !self.flows().contains_key(key_id(*key)),
            },
    {
        match self.flow_table.get(&key_id_of(key)) {
            Some(f) => Some((f.our_seq, f.our_ack)),
            None => None,
        }
    }

    /// Decides what to do with one parsed host-origin segment.
    ///
    /// On a FIN for an existing flow the answer is a FIN|ACK acknowledging
    /// `seq + 1` and the flow leaves the table; on a data segment the
    /// answer is a bare ACK acknowledging `seq + len` and the payload goes
    /// to the egress log; a pure ACK is swallowed; a SYN for an unknown
    /// key is reported for the caller to open the upstream; anything else
    /// is ignored. All sequence arithmetic is modulo 2^32.
    pub fn process_segment(&mut self, seg: &TcpSegment) -> (r: PacketAction)
        ensures
            step_ok(old(self).flows(), final(self).flows(), seg@, r),
    {
        let key = FlowKey {
            remote_ip: seg.dst.ip,
            remote_port: seg.dst.port,
            local_port: seg.src.port,
        };
        let kid = key_id_of(&key);
        let empty: Vec<u8> = Vec::new();
        match self.flow_table.get(&kid) {
            Some(fref) => {
                let f = *fref;
                if seg.flags & FLAG_FIN != 0 {
                    let new_ack = wrap_add(seg.seq, 1);
                    let response = craft_ipv4_tcp(
                        f.remote_addr,
                        f.local_addr,
                        seg.ack,
                        new_ack,
                        FLAG_FIN | FLAG_ACK,
                        empty.as_slice(),
                    );
                    self.flow_table.remove(&kid);
                    let egress = slice_range(seg.payload.as_slice(), 0, seg.payload.len());
                    proof {
                        assert(egress@ =~= seg@.payload);
                    }
                    PacketAction::FinClose { key, response, egress }
                } else if seg.payload.len() > 0 {
                    let new_ack = wrap_add(seg.seq, seg.payload.len());
                    let f2 = TcpFlow {
                        our_seq: seg.ack,
                        our_ack: new_ack,
                        local_addr: f.local_addr,
                        remote_addr: f.remote_addr,
                        egress: Ghost(f.egress@ + seg.payload@),
                    };
                    self.flow_table.insert(kid, f2);
                    let response = craft_ipv4_tcp(
                        f.remote_addr,
                        f.local_addr,
                        seg.ack,
                        new_ack,
                        FLAG_ACK,
                        empty.as_slice(),
                    );
                    let egress = slice_range(seg.payload.as_slice(), 0, seg.payload.len());
                    proof {
                        assert(egress@ =~= seg@.payload);
                    }
                    PacketAction::AckData { key, response, egress }
                } else {
                    PacketAction::Ignore
                }
            },
            None => {
                if seg.flags & FLAG_SYN != 0 {
                    PacketAction::SynSeen {
                        key,
                        src: seg.src,
                        dst: seg.dst,
                        kernel_next: wrap_add(seg.seq, 1),
                    }
                } else {
                    PacketAction::Ignore
                }
            },
        }
    }

    /// Parses one raw ingress datagram and decides what to do with it.
    /// Packets that do not parse as IPv4+TCP are ignored.
    pub fn process_packet(&mut self, packet: &[u8]) -> (r: PacketAction)
        ensures
            match parse_spec(packet@) {
                None => r is Ignore && final(self).flows() == old(self).flows(),
                Some(s) => step_ok(old(self).flows(), final(self).flows(), s, r),
            },
    {
        match parse_ipv4_tcp(packet) {
            Some(seg) => self.process_segment(&seg),
            None => PacketAction::Ignore,
        }
    }

    /// Installs the flow for an accepted SYN and returns the SYN|ACK to
    /// emit toward the host, with the given initial sequence number.
    pub fn accept_flow(
        &mut self,
        key: &FlowKey,
        local: SockAddr,
        remote: SockAddr,
        kernel_next: u32,
        isn: u32,
    ) -> (r: Vec<u8>)
        requires
            !old(self).flows().contains_key(key_id(*key)),
        ensures
            ({
                let kid = key_id(*key);
                let m = final(self).flows();
                &&& m.contains_key(kid)
                &&& m == old(self).flows().insert(kid, m[kid])
                &&& m[kid].our_seq == isn
                &&& m[kid].our_ack == kernel_next
                &&& m[kid].local_addr == local
                &&& m[kid].remote_addr == remote
                &&& m[kid].egress@ == Seq::<u8>::empty()
                &&& r@ == craft_spec(
                    remote,
                    local,
                    isn,
                    kernel_next,
                    (FLAG_SYN | FLAG_ACK),
                    Seq::<u8>::empty(),
                )
            }),
    {
        let kid = key_id_of(key);
        let flow = TcpFlow {
            our_seq: isn,
            our_ack: kernel_next,
            local_addr: local,
            remote_addr: remote,
            egress: Ghost(Seq::<u8>::empty()),
        };
        self.flow_table.insert(kid, flow);
        let empty: Vec<u8> = Vec::new();
        craft_ipv4_tcp(remote, local, isn, kernel_next, FLAG_SYN | FLAG_ACK, empty.as_slice())
    }

    /// Installs the flow for an accepted SYN under a freshly drawn random
    /// initial sequence number and returns the SYN|ACK to emit.
    pub fn open_flow(
        &mut self,
        key: &FlowKey,
        local: SockAddr,
        remote: SockAddr,
        kernel_next: u32,
    ) -> (r: Vec<u8>)
        requires
            !old(self).flows().contains_key(key_id(*key)),
        ensures
            ({
                let kid = key_id(*key);
                let m = final(self).flows();
                exists|isn: u32|
                    {
                        &&& m.contains_key(kid)
                        &&& m == old(self).flows().insert(kid, m[kid])
                        &&& m[kid].our_seq == isn
                        &&& m[kid].our_ack == kernel_next
                        &&& m[kid].local_addr == local
                        &&& m[kid].remote_addr == remote
                        &&& m[kid].egress@ == Seq::<u8>::empty()
                        &&& r@ == craft_spec(
                            remote,
                            local,
                            isn,
                            kernel_next,
                            (FLAG_SYN | FLAG_ACK),
                            Seq::<u8>::empty(),
                        )
                    }
            }),
    {
        let isn = random_u32();
        let r = self.accept_flow(key, local, remote, kernel_next, isn);
        proof {
            let kid = key_id(*key);
            let m = self.flows();
            assert(m[kid].our_seq == isn && r@ == craft_spec(
                remote,
                local,
                isn,
                kernel_next,
                (FLAG_SYN | FLAG_ACK),
                Seq::<u8>::empty(),
            ));
        }
        r
    }

    /// Decides what to emit toward the host for a payload arriving from
    /// upstream tagged with a flow key: a PSH|ACK carrying the payload if
    /// the flow still exists (advancing `our_seq` by its length), nothing
    /// if the flow is gone.
    pub fn process_upstream(&mut self, key: &FlowKey, payload: &[u8]) -> (r: Option<Vec<u8>>)
        requires
            payload@.len() <= MAX_TCP_PAYLOAD,
        ensures
            ({
                let kid = key_id(*key);
                let old_m = old(self).flows();
                let m = final(self).flows();
                &&& (!old_m.contains_key(kid) ==> r is None && m == old_m)
                &&& (old_m.contains_key(kid) ==> ({
                    &&& m.contains_key(kid)
                    &&& m == old_m.insert(kid, m[kid])
                    &&& m[kid].our_seq == wadd(old_m[kid].our_seq as int, payload.len() as int)
                    &&& m[kid].our_ack == old_m[kid].our_ack
                    &&& m[kid].local_addr == old_m[kid].local_addr
                    &&& m[kid].remote_addr == old_m[kid].remote_addr
                    &&& m[kid].egress@ == old_m[kid].egress@
                    &&& (r matches Some(pkt) && pkt@ == craft_spec(
                        old_m[kid].remote_addr,
                        old_m[kid].local_addr,
                        old_m[kid].our_seq,
                        old_m[kid].our_ack,
                        (FLAG_PSH | FLAG_ACK),
                        payload@,
                    ))
                }))
            }),
    {
        let kid = key_id_of(key);
        match self.flow_table.get(&kid) {
            Some(fref) => {
                let f = *fref;
                let pkt = craft_ipv4_tcp(
                    f.remote_addr,
                    f.local_addr,
                    f.our_seq,
                    f.our_ack,
                    FLAG_PSH | FLAG_ACK,
                    payload,
                );
                let f2 = TcpFlow {
                    our_seq: wrap_add(f.our_seq, payload.len()),
                    our_ack: f.our_ack,
                    local_addr: f.local_addr,
                    remote_addr: f.remote_addr,
                    egress: f.egress,
                };
                self.flow_table.insert(kid, f2);
                Some(pkt)
            },
            None => None,
        }
    }
}

} // verus!
