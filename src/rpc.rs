use vstd::prelude::*;

use crate::wire::{append_bytes, le_bytes, le_value, push_le, read_le};

verus! {

/// Opcode of a native `get()` request and its response.
pub const OP_GET: u8 = 1;

/// Opcode of a native `put()` request and its response.
pub const OP_PUT: u8 = 2;

/// Opcode of an `invoke()` request and its response.
pub const OP_INVOKE: u8 = 3;

/// Status of a response whose operation completed on the server.
pub const STATUS_OK: u8 = 1;

/// Status of an `invoke()` response by which the server hands the extension back.
pub const STATUS_PUSHBACK: u8 = 2;

/// Bytes of Ethernet, IPv4 and UDP headers in front of every RPC.
pub const NET_HEADERS_LEN: usize = 42;

/// The header that opens every request: opcode, tenant, stamp.
pub open spec fn common_header(op: u8, tenant: u32, stamp: u64) -> Seq<u8> {
    seq![op] + le_bytes(tenant as nat, 4) + le_bytes(stamp as nat, 8)
}

/// The RPC of a `get()` of `key` in `table_id`.
pub open spec fn get_rpc(tenant: u32, table_id: u64, key: Seq<u8>, stamp: u64) -> Seq<u8> {
    common_header(OP_GET, tenant, stamp) + le_bytes(table_id as nat, 8) + le_bytes(key.len(), 2)
        + key
}

/// The RPC of a `put()` of `value` under `key` in `table_id`.
pub open spec fn put_rpc(
    tenant: u32,
    table_id: u64,
    key: Seq<u8>,
    value: Seq<u8>,
    stamp: u64,
) -> Seq<u8> {
    common_header(OP_PUT, tenant, stamp) + le_bytes(table_id as nat, 8) + le_bytes(key.len(), 2)
        + le_bytes(value.len(), 2) + key + value
}

/// The RPC of an `invoke()` whose payload is the extension's name followed by its arguments.
pub open spec fn invoke_rpc(
    tenant: u32,
    name_len: nat,
    args_len: nat,
    payload: Seq<u8>,
    stamp: u64,
) -> Seq<u8> {
    common_header(OP_INVOKE, tenant, stamp) + le_bytes(name_len, 4) + le_bytes(args_len, 4)
        + payload
}

/// Appends the common request header.
pub fn push_common_header(out: &mut Vec<u8>, op: u8, tenant: u32, stamp: u64)
    ensures
        final(out)@ == old(out)@ + common_header(op, tenant, stamp),
{
    out.push(op);
    push_le(out, tenant as u64, 4);
    push_le(out, stamp, 8);
    assert(final(out)@ =~= old(out)@ + common_header(op, tenant, stamp));
}

/// Builds the RPC of a `get()`.
pub fn get_rpc_bytes(tenant: u32, table_id: u64, key: &[u8], stamp: u64) -> (r: Vec<u8>)
    requires
        key@.len() <= u16::MAX,
    ensures
        r@ == get_rpc(tenant, table_id, key@, stamp),
{
    let mut out: Vec<u8> = Vec::new();
    push_common_header(&mut out, OP_GET, tenant, stamp);
    push_le(&mut out, table_id, 8);
    push_le(&mut out, key.len() as u64, 2);
    append_bytes(&mut out, key);
    assert(out@ =~= get_rpc(tenant, table_id, key@, stamp));
    out
}

/// Builds the RPC of a `put()`.
pub fn put_rpc_bytes(tenant: u32, table_id: u64, key: &[u8], value: &[u8], stamp: u64) -> (r: Vec<
    u8,
>)
    requires
        key@.len() <= u16::MAX,
        value@.len() <= u16::MAX,
    ensures
        r@ == put_rpc(tenant, table_id, key@, value@, stamp),
{
    let mut out: Vec<u8> = Vec::new();
    push_common_header(&mut out, OP_PUT, tenant, stamp);
    push_le(&mut out, table_id, 8);
    push_le(&mut out, key.len() as u64, 2);
    push_le(&mut out, value.len() as u64, 2);
    append_bytes(&mut out, key);
    append_bytes(&mut out, value);
    assert(out@ =~= put_rpc(tenant, table_id, key@, value@, stamp));
    out
}

/// Builds the RPC of an `invoke()`.
pub fn invoke_rpc_bytes(
    tenant: u32,
    name_len: usize,
    args_len: usize,
    payload: &[u8],
    stamp: u64,
) -> (r: Vec<u8>)
    requires
        name_len <= u32::MAX,
        args_len <= u32::MAX,
    ensures
        r@ == invoke_rpc(tenant, name_len as nat, args_len as nat, payload@, stamp),
{
    let mut out: Vec<u8> = Vec::new();
    push_common_header(&mut out, OP_INVOKE, tenant, stamp);
    push_le(&mut out, name_len as u64, 4);
    push_le(&mut out, args_len as u64, 4);
    append_bytes(&mut out, payload);
    assert(out@ =~= invoke_rpc(tenant, name_len as nat, args_len as nat, payload@, stamp));
    out
}

/// A response as the receive path sees it.
pub enum ParsedResponse {
    GetOk { stamp: u64, tenant: u32, payload: Vec<u8> },
    PutOk { stamp: u64 },
    InvokeOk { stamp: u64 },
    InvokePushback { stamp: u64, tenant: u32, records: Vec<u8> },
    Unknown,
}

/// The opcode of a response frame.
pub open spec fn resp_opcode(f: Seq<u8>) -> u8 {
    f[42]
}

/// The tenant of a response frame.
pub open spec fn resp_tenant(f: Seq<u8>) -> nat {
    le_value(f.subrange(43, 47))
}

/// The stamp that a response frame echoes.
pub open spec fn resp_stamp(f: Seq<u8>) -> nat {
    le_value(f.subrange(47, 55))
}

/// The status of a response frame.
pub open spec fn resp_status(f: Seq<u8>) -> u8 {
    f[55]
}

/// What follows the response header.
pub open spec fn resp_payload(f: Seq<u8>) -> Seq<u8> {
    f.subrange(56, f.len() as int)
}

/// How a response frame is classified.
pub open spec fn parses_as(f: Seq<u8>, r: ParsedResponse) -> bool {
    if f.len() < 56 {
        r is Unknown
    } else if resp_opcode(f) == OP_GET {
        r matches ParsedResponse::GetOk { stamp, tenant, payload } && stamp == resp_stamp(f)
            && tenant == resp_tenant(f) && payload@ == resp_payload(f)
    } else if resp_opcode(f) == OP_PUT {
        r matches ParsedResponse::PutOk { stamp } && stamp == resp_stamp(f)
    } else if resp_opcode(f) == OP_INVOKE && resp_status(f) == STATUS_OK {
        r matches ParsedResponse::InvokeOk { stamp } && stamp == resp_stamp(f)
    } else if resp_opcode(f) == OP_INVOKE && resp_status(f) == STATUS_PUSHBACK {
        r matches ParsedResponse::InvokePushback { stamp, tenant, records } && stamp
            == resp_stamp(f) && tenant == resp_tenant(f) && records@ == resp_payload(f)
    } else {
        r is Unknown
    }
}

/// Copies `s[from..]`.
fn tail_bytes(s: &[u8], from: usize) -> (r: Vec<u8>)
    requires
        from <= s@.len(),
    ensures
        r@ == s@.subrange(from as int, s@.len() as int),
{
    let mut out: Vec<u8> = Vec::new();
    let mut i: usize = from;
    while i < s.len()
        invariant
            from <= i <= s@.len(),
            out@ == s@.subrange(from as int, i as int),
        decreases s@.len() - i,
    {
        out.push(s[i]);
        i = i + 1;
        assert(out@ =~= s@.subrange(from as int, i as int));
    }
    out
}

/// Classifies a received frame by opcode and status.
pub fn parse_response(f: &[u8]) -> (r: ParsedResponse)
    ensures
        parses_as(f@, r),
{
    if f.len() < 56 {
        return ParsedResponse::Unknown;
    }
    let op = f[42];
    let stamp = read_le(f, 47, 8);
    let status = f[55];
    if op == OP_GET {
        let tenant = read_le(f, 43, 4);
        proof {
            crate::wire::lemma_le_value_bound(f@.subrange(43, 47));
            reveal_with_fuel(crate::wire::pow256, 5);
        }
        ParsedResponse::GetOk { stamp, tenant: tenant as u32, payload: tail_bytes(f, 56) }
    } else if op == OP_PUT {
        ParsedResponse::PutOk { stamp }
    } else if op == OP_INVOKE && status == STATUS_OK {
        ParsedResponse::InvokeOk { stamp }
    } else if op == OP_INVOKE && status == STATUS_PUSHBACK {
        let tenant = read_le(f, 43, 4);
        proof {
            crate::wire::lemma_le_value_bound(f@.subrange(43, 47));
            reveal_with_fuel(crate::wire::pow256, 5);
        }
        ParsedResponse::InvokePushback { stamp, tenant: tenant as u32, records: tail_bytes(f, 56) }
    } else {
        ParsedResponse::Unknown
    }
}

/// A response whose stamp field echoes the bytes of a request frame's stamp field carries
/// the stamp that the request was sent with.
pub proof fn lemma_stamp_round_trip(
    headers: Seq<u8>,
    op: u8,
    tenant: u32,
    stamp: u64,
    body: Seq<u8>,
    resp: Seq<u8>,
)
    requires
        headers.len() == NET_HEADERS_LEN,
        resp.len() >= 56,
        resp.subrange(47, 55) == (headers + common_header(op, tenant, stamp) + body).subrange(
            47,
            55,
        ),
    ensures
        resp_stamp(resp) == stamp,
{
    crate::wire::lemma_le_bytes_len(tenant as nat, 4);
    crate::wire::lemma_u64_round_trip(stamp);
    let req = headers + common_header(op, tenant, stamp) + body;
    assert(req.subrange(47, 55) =~= le_bytes(stamp as nat, 8));
}

} // verus!
