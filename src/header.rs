use vstd::prelude::*;

use crate::rpc::{
    common_header, get_rpc, get_rpc_bytes, invoke_rpc, invoke_rpc_bytes, put_rpc, put_rpc_bytes,
    resp_stamp,
};
use crate::wire::{append_bytes, be16, be32, le_bytes, push_be16, push_be32, set_be16};

verus! {

/// Bytes of an IPv4 header without options.
pub const IP_HEADER_LEN: usize = 20;

/// Bytes of a UDP header.
pub const UDP_HEADER_LEN: usize = 8;

/// The largest RPC that fits behind the IPv4 and UDP headers.
pub const MAX_RPC_LEN: usize = 65507;

/// Length of the zeroed key of the requests that `generate_request` builds.
pub const PROBE_KEY_LEN: usize = 30;

/// Ethernet header: destination, source, ethertype IPv4.
pub open spec fn mac_header(src: Seq<u8>, dst: Seq<u8>) -> Seq<u8> {
    dst + src + be16(0x0800)
}

/// IPv4 header: version 4, IHL 5, TTL 128, protocol UDP, checksum left to the fabric.
pub open spec fn ip_header(src: u32, dst: u32, total_len: u16) -> Seq<u8> {
    seq![0x45u8, 0u8] + be16(total_len) + seq![0u8, 0u8, 0u8, 0u8, 128u8, 17u8, 0u8, 0u8] + be32(
        src,
    ) + be32(dst)
}

/// UDP header with a zero checksum.
pub open spec fn udp_header(src_port: u16, dst_port: u16, len: u16) -> Seq<u8> {
    be16(src_port) + be16(dst_port) + be16(len) + be16(0)
}

/// Writes the IP total length and the UDP length that a frame of `f.len()` bytes needs.
pub open spec fn with_lengths(f: Seq<u8>) -> Seq<u8> {
    let udp_len = (f.len() - 34) as u16;
    let ip_len = (f.len() - 14) as u16;
    f.update(16, (ip_len / 256) as u8).update(17, (ip_len % 256) as u8).update(
        38,
        (udp_len / 256) as u8,
    ).update(39, (udp_len % 256) as u8)
}

/// Builds request frames for one server: the Ethernet, IP and UDP headers are computed once,
/// and each request gets them with its own length fields.
pub struct RequestGenerator {
    pub src_mac: [u8; 6],
    pub dst_mac: [u8; 6],
    pub src_ip: u32,
    pub dst_ip: u32,
    pub src_port: u16,
    pub dst_port: u16,
    /// Whether `generate_request` builds `invoke()` RPCs rather than `get()` RPCs.
    pub use_invoke: bool,
    pub req_mac_header: Vec<u8>,
    pub req_ip_header: Vec<u8>,
    pub req_udp_header: Vec<u8>,
    /// Requests built by `generate_request`, modulo 2^64.
    pub requests_sent: u64,
}

impl RequestGenerator {
    /// The header templates match the addresses and ports.
    pub open spec fn wf(&self) -> bool {
        &&& self.req_mac_header@ == mac_header(self.src_mac@, self.dst_mac@)
        &&& self.req_ip_header@ == ip_header(self.src_ip, self.dst_ip, IP_HEADER_LEN as u16)
        &&& self.req_udp_header@ == udp_header(
            self.src_port,
            self.dst_port,
            UDP_HEADER_LEN as u16,
        )
    }

    /// The three headers with their placeholder lengths.
    pub open spec fn template(&self) -> Seq<u8> {
        self.req_mac_header@ + self.req_ip_header@ + self.req_udp_header@
    }

    /// The complete frame that carries `rpc`.
    pub open spec fn frame(&self, rpc: Seq<u8>) -> Seq<u8> {
        mac_header(self.src_mac@, self.dst_mac@) + ip_header(
            self.src_ip,
            self.dst_ip,
            (28 + rpc.len()) as u16,
        ) + udp_header(self.src_port, self.dst_port, (8 + rpc.len()) as u16) + rpc
    }

    /// Computes the header templates. Length fields hold the bare header sizes until
    /// `fixup_header_length_fields` sets them for a request.
    pub fn new(
        src_mac: [u8; 6],
        dst_mac: [u8; 6],
        src_ip: u32,
        dst_ip: u32,
        src_port: u16,
        dst_port: u16,
        use_invoke: bool,
    ) -> (r: RequestGenerator)
        ensures
            r.wf(),
            r.src_mac == src_mac,
            r.dst_mac == dst_mac,
            r.src_ip == src_ip,
            r.dst_ip == dst_ip,
            r.src_port == src_port,
            r.dst_port == dst_port,
            r.use_invoke == use_invoke,
            r.requests_sent == 0,
    {
        let mut udp: Vec<u8> = Vec::new();
        push_be16(&mut udp, src_port);
        push_be16(&mut udp, dst_port);
        push_be16(&mut udp, UDP_HEADER_LEN as u16);
        push_be16(&mut udp, 0);
        assert(udp@ =~= udp_header(src_port, dst_port, UDP_HEADER_LEN as u16));

        let mut ip: Vec<u8> = Vec::new();
        ip.push(0x45);
        ip.push(0);
        push_be16(&mut ip, IP_HEADER_LEN as u16);
        ip.push(0);
        ip.push(0);
        ip.push(0);
        ip.push(0);
        ip.push(128);
        ip.push(17);
        ip.push(0);
        ip.push(0);
        push_be32(&mut ip, src_ip);
        push_be32(&mut ip, dst_ip);
        assert(ip@ =~= ip_header(src_ip, dst_ip, IP_HEADER_LEN as u16));

        let mut mac: Vec<u8> = Vec::new();
        append_bytes(&mut mac, &dst_mac);
        append_bytes(&mut mac, &src_mac);
        push_be16(&mut mac, 0x0800);
        assert(mac@ =~= mac_header(src_mac@, dst_mac@));

        RequestGenerator {
            src_mac,
            dst_mac,
            src_ip,
            dst_ip,
            src_port,
            dst_port,
            use_invoke,
            req_mac_header: mac,
            req_ip_header: ip,
            req_udp_header: udp,
            requests_sent: 0,
        }
    }

    /// A fresh frame holding the MAC, IP and UDP headers, with placeholder lengths.
    pub fn create_request(&self) -> (r: Vec<u8>)
        requires
            self.wf(),
        ensures
            r@ == self.template(),
            r@.len() == 42,
    {
        let mut out: Vec<u8> = Vec::new();
        append_bytes(&mut out, self.req_mac_header.as_slice());
        append_bytes(&mut out, self.req_ip_header.as_slice());
        append_bytes(&mut out, self.req_udp_header.as_slice());
        out
    }

    /// Sets the UDP length to 8 plus the payload length and the IP total length to 20 plus
    /// that, for a frame whose payload follows the 42 bytes of headers.
    pub fn fixup_header_length_fields(request: Vec<u8>) -> (r: Vec<u8>)
        requires
            42 <= request@.len() <= 42 + MAX_RPC_LEN,
        ensures
            r@ == with_lengths(request@),
    {
        let ghost orig = request@;
        let mut request = request;
        let len = request.len();
        let udp_len = (len - 34) as u16;
        let ip_len = (len - 14) as u16;
        set_be16(&mut request, 38, udp_len);
        set_be16(&mut request, 16, ip_len);
        assert(request@ =~= with_lengths(orig));
        request
    }

    /// Headers, then `rpc`, then the length fields set.
    fn finish(&self, rpc: &[u8]) -> (r: Vec<u8>)
        requires
            self.wf(),
            rpc@.len() <= MAX_RPC_LEN,
        ensures
            r@ == self.frame(rpc@),
    {
        let mut request = self.create_request();
        append_bytes(&mut request, rpc);
        let r = Self::fixup_header_length_fields(request);
        proof {
            assert(be16((28 + rpc@.len()) as u16) =~= seq![
                (((28 + rpc@.len()) as u16) / 256) as u8,
                (((28 + rpc@.len()) as u16) % 256) as u8,
            ]);
            assert(r@ =~= self.frame(rpc@));
        }
        r
    }

    /// The frame of a `get()` of `key` in `table_id`, carrying `stamp`.
    pub fn create_get_request(&self, tenant: u32, table_id: u64, key: &[u8], stamp: u64) -> (r: Vec<
        u8,
    >)
        requires
            self.wf(),
            key@.len() <= MAX_RPC_LEN - 23,
        ensures
            r@ == self.frame(get_rpc(tenant, table_id, key@, stamp)),
    {
        let rpc = get_rpc_bytes(tenant, table_id, key, stamp);
        proof {
            crate::wire::lemma_le_bytes_len(tenant as nat, 4);
            crate::wire::lemma_le_bytes_len(stamp as nat, 8);
            crate::wire::lemma_le_bytes_len(table_id as nat, 8);
            crate::wire::lemma_le_bytes_len(key@.len(), 2);
        }
        self.finish(rpc.as_slice())
    }

    /// The frame of a `put()` of `value` under `key` in `table_id`, carrying `stamp`.
    pub fn create_put_request(
        &self,
        tenant: u32,
        table_id: u64,
        key: &[u8],
        value: &[u8],
        stamp: u64,
    ) -> (r: Vec<u8>)
        requires
            self.wf(),
            key@.len() + value@.len() <= MAX_RPC_LEN - 25,
        ensures
            r@ == self.frame(put_rpc(tenant, table_id, key@, value@, stamp)),
    {
        let rpc = put_rpc_bytes(tenant, table_id, key, value, stamp);
        proof {
            crate::wire::lemma_le_bytes_len(tenant as nat, 4);
            crate::wire::lemma_le_bytes_len(stamp as nat, 8);
            crate::wire::lemma_le_bytes_len(table_id as nat, 8);
            crate::wire::lemma_le_bytes_len(key@.len(), 2);
            crate::wire::lemma_le_bytes_len(value@.len(), 2);
        }
        self.finish(rpc.as_slice())
    }

    /// The frame of an `invoke()` whose payload is a name of `name_len` bytes followed by
    /// `args_len` bytes of arguments, carrying `stamp`.
    pub fn create_invoke_request(
        &self,
        tenant: u32,
        name_len: usize,
        args_len: usize,
        payload: &[u8],
        stamp: u64,
    ) -> (r: Vec<u8>)
        requires
            self.wf(),
            name_len <= u32::MAX,
            args_len <= u32::MAX,
            payload@.len() <= MAX_RPC_LEN - 21,
        ensures
            r@ == self.frame(invoke_rpc(tenant, name_len as nat, args_len as nat, payload@, stamp)),
    {
        let rpc = invoke_rpc_bytes(tenant, name_len, args_len, payload, stamp);
        proof {
            crate::wire::lemma_le_bytes_len(tenant as nat, 4);
            crate::wire::lemma_le_bytes_len(stamp as nat, 8);
            crate::wire::lemma_le_bytes_len(name_len as nat, 4);
            crate::wire::lemma_le_bytes_len(args_len as nat, 4);
        }
        self.finish(payload_ref(&rpc))
    }

    /// Builds the next probe request: an `invoke()` of the extension "get" on table 1 with a
    /// zeroed 30-byte key, or else a native `get()` of that key, for tenant 1.
    pub fn generate_request(&mut self, stamp: u64) -> (r: Vec<u8>)
        requires
            old(self).wf(),
        ensures
            final(self).wf(),
            final(self).src_mac == old(self).src_mac,
            final(self).dst_mac == old(self).dst_mac,
            final(self).src_ip == old(self).src_ip,
            final(self).dst_ip == old(self).dst_ip,
            final(self).src_port == old(self).src_port,
            final(self).dst_port == old(self).dst_port,
            final(self).use_invoke == old(self).use_invoke,
            final(self).requests_sent == old(self).requests_sent.wrapping_add(1),
            old(self).use_invoke ==> r@ == old(self).frame(
                invoke_rpc(1, 3, 38, probe_invoke_payload(), stamp),
            ),
            !old(self).use_invoke ==> r@ == old(self).frame(
                get_rpc(1, 1, Seq::new(PROBE_KEY_LEN as nat, |i: int| 0u8), stamp),
            ),
    {
        let r = if self.use_invoke {
            let payload = probe_payload();
            self.create_invoke_request(1, 3, payload.len() - 3, payload.as_slice(), stamp)
        } else {
            let key: Vec<u8> = zeros(PROBE_KEY_LEN);
            assert(key@ =~= Seq::new(PROBE_KEY_LEN as nat, |i: int| 0u8));
            self.create_get_request(1, 1, key.as_slice(), stamp)
        };
        self.requests_sent = self.requests_sent.wrapping_add(1);
        r
    }
}

fn payload_ref(v: &Vec<u8>) -> (r: &[u8])
    ensures
        r@ == v@,
{
    v.as_slice()
}

/// The name "get", table id 1 in eight little-endian bytes, and 30 zero bytes of key.
pub open spec fn probe_invoke_payload() -> Seq<u8> {
    seq![103u8, 101u8, 116u8] + le_bytes(1, 8) + Seq::new(PROBE_KEY_LEN as nat, |i: int| 0u8)
}

fn probe_payload() -> (r: Vec<u8>)
    ensures
        r@ == probe_invoke_payload(),
        r@.len() == 41,
{
    let mut p: Vec<u8> = Vec::new();
    // "get"
    p.push(103);
    p.push(101);
    p.push(116);
    crate::wire::push_le(&mut p, 1, 8);
    let key = zeros(PROBE_KEY_LEN);
    append_bytes(&mut p, key.as_slice());
    proof {
        crate::wire::lemma_le_bytes_len(1, 8);
    }
    assert(p@ =~= probe_invoke_payload());
    p
}

/// `n` zero bytes.
pub fn zeros(n: usize) -> (r: Vec<u8>)
    ensures
        r@ == Seq::new(n as nat, |i: int| 0u8),
{
    let mut v: Vec<u8> = Vec::new();
    let mut i: usize = 0;
    while i < n
        invariant
            i <= n,
            v@ == Seq::new(i as nat, |j: int| 0u8),
        decreases n - i,
    {
        v.push(0);
        i = i + 1;
        assert(v@ =~= Seq::new(i as nat, |j: int| 0u8));
    }
    v
}

/// Two generators built from the same addresses, ports and mode hold byte-identical
/// header templates.
pub proof fn lemma_templates_deterministic(a: RequestGenerator, b: RequestGenerator)
    requires
        a.wf(),
        b.wf(),
        a.src_mac == b.src_mac,
        a.dst_mac == b.dst_mac,
        a.src_ip == b.src_ip,
        a.dst_ip == b.dst_ip,
        a.src_port == b.src_port,
        a.dst_port == b.dst_port,
    ensures
        a.template() == b.template(),
        forall|rpc: Seq<u8>| a.frame(rpc) == b.frame(rpc),
{
}

/// The stamp field of a frame carries the stamp its RPC was built with.
pub proof fn lemma_frame_stamp(g: RequestGenerator, op: u8, tenant: u32, stamp: u64, body: Seq<u8>)
    ensures
        resp_stamp(g.frame(common_header(op, tenant, stamp) + body)) == stamp,
{
    let rpc = common_header(op, tenant, stamp) + body;
    let headers = mac_header(g.src_mac@, g.dst_mac@) + ip_header(
        g.src_ip,
        g.dst_ip,
        (28 + rpc.len()) as u16,
    ) + udp_header(g.src_port, g.dst_port, (8 + rpc.len()) as u16);
    crate::wire::lemma_le_bytes_len(tenant as nat, 4);
    crate::wire::lemma_le_bytes_len(stamp as nat, 8);
    assert(g.frame(rpc) =~= headers + common_header(op, tenant, stamp) + body);
    if g.frame(rpc).len() >= 56 {
        crate::rpc::lemma_stamp_round_trip(headers, op, tenant, stamp, body, g.frame(rpc));
    } else {
        crate::wire::lemma_u64_round_trip(stamp);
        assert(g.frame(rpc).subrange(47, 55) =~= le_bytes(stamp as nat, 8));
    }
}

} // verus!
