use vstd::prelude::*;

use std::collections::HashMap;
use std::collections::VecDeque;

use crate::header::{lemma_frame_stamp, zeros, RequestGenerator};
use crate::rpc::{
    common_header, get_rpc, invoke_rpc, parse_response, parses_as, put_rpc, resp_stamp,
    ParsedResponse,
};
use crate::wire::{append_bytes, le_bytes, push_le};
use crate::workload::{allowed, key_image, lemma_key_image_zero, Op, Pushback};

verus! {

broadcast use vstd::std_specs::hash::group_hash_axioms;

/// The most requests that may await their response at once.
pub const WINDOW: u64 = 32;

/// Native `get()`s that one simulated extension performs.
pub const NUM_OPS: u8 = 1;

/// Multiplications that one simulated extension performs.
pub const NUM_MUL: u64 = 1000;

/// Local completions between two resets of the completion counter.
pub const REPORT_EVERY: u64 = 100000;

/// The table that every request addresses.
pub const TABLE_ID: u64 = 1;

/// Length of the extension name "pushback" at the head of every invoke payload.
pub const EXT_NAME_LEN: usize = 8;

/// The largest key plus value that the client builds requests for.
pub const MAX_KV_LEN: usize = 65000;

/// State of one `invoke()` from its send until the extension completes on this client.
pub struct TaskManager {
    /// The tenant that issued the request.
    pub tenant: u32,
    /// Extension name followed by its arguments.
    pub req: Vec<u8>,
    /// Length of the name inside `req`.
    pub name_length: u32,
    /// The stamp under which the task is awaited.
    pub id: u64,
    /// Records handed back by the server, then values of the task's own reads.
    pub rwset: Vec<u8>,
    /// Whether the server pushed the extension back, so that it runs here.
    pub resumed: bool,
}

impl TaskManager {
    /// A task for a request just sent, not yet pushed back.
    pub fn new(req: &[u8], tenant: u32, name_length: u32, id: u64) -> (r: TaskManager)
        ensures
            r.req@ == req@,
            r.tenant == tenant,
            r.name_length == name_length,
            r.id == id,
            r.rwset@ == Seq::<u8>::empty(),
            !r.resumed,
    {
        let mut copy: Vec<u8> = Vec::new();
        append_bytes(&mut copy, req);
        TaskManager { tenant, req: copy, name_length, id, rwset: Vec::new(), resumed: false }
    }
}

/// What one step of a resumed extension ended in.
pub enum TaskState {
    /// It gave up the processor and is to run again later.
    Yielded,
    /// It needs the value stored under `key` before it can go on.
    Waiting { key: Vec<u8> },
    /// It finished after running for `cycles` cycles.
    Completed { cycles: u64 },
}

/// `init` times every integer in `[1, limit)`, modulo 2^64.
pub open spec fn mul_spec(init: u8, limit: nat) -> u64
    decreases limit,
{
    if limit <= 1 {
        init as u64
    } else {
        (mul_spec(init, (limit - 1) as nat) as nat * (limit - 1) as nat % 0x1_0000_0000_0000_0000)
            as u64
    }
}

/// `a + b`, or `u64::MAX` where that overflows.
pub open spec fn sat_add(a: u64, b: u64) -> u64 {
    if a + b <= u64::MAX {
        (a + b) as u64
    } else {
        u64::MAX
    }
}

/// `a - b`, or zero where `b` is larger.
pub open spec fn sat_sub(a: u64, b: u64) -> u64 {
    if a >= b {
        (a - b) as u64
    } else {
        0
    }
}

/// The first byte of a value, or zero if it is empty.
pub open spec fn first_byte(s: Seq<u8>) -> u8 {
    if s.len() > 0 {
        s[0]
    } else {
        0
    }
}

/// The key of a follow-up `get()`: the value read, cut to `key_len` bytes.
pub open spec fn next_key(value: Seq<u8>, key_len: nat) -> Seq<u8> {
    if value.len() <= key_len {
        value
    } else {
        value.subrange(0, key_len as int)
    }
}

/// The stamp a response echoes, if it has one.
pub open spec fn stamp_of(r: ParsedResponse) -> Option<u64> {
    match r {
        ParsedResponse::GetOk { stamp, .. } => Some(stamp),
        ParsedResponse::PutOk { stamp } => Some(stamp),
        ParsedResponse::InvokeOk { stamp } => Some(stamp),
        ParsedResponse::InvokePushback { stamp, .. } => Some(stamp),
        ParsedResponse::Unknown => None,
    }
}

/// Sends requests under a window of outstanding ones, receives their responses, measures
/// latency, and runs pushed-back extensions as local tasks.
pub struct PushbackRecvSend {
    /// Responses to wait for before the measurement stops.
    pub responses: u64,
    /// Cycle count at which the measurement started.
    pub start: u64,
    /// Requests completed so far.
    pub recvd: u64,
    /// One latency sample, in cycles, per completed request.
    pub latencies: Vec<u64>,
    /// Whether this core reports latency percentiles.
    pub master: bool,
    /// Cycle count at which the last awaited response arrived.
    pub stop: u64,
    pub workload: Pushback,
    pub sender: RequestGenerator,
    /// Requests to send in all.
    pub requests: u64,
    /// Requests sent so far.
    pub sent: u64,
    /// Whether requests are native `get()`/`put()`s rather than `invoke()`s.
    pub native: bool,
    /// Invoke payload of a get: "pushback", the table id, the key.
    pub payload_get: Vec<u8>,
    /// Invoke payload of a put: "pushback", the table id, the key length, the key, the value.
    pub payload_put: Vec<u8>,
    /// Set once every awaited response has arrived.
    pub finished: bool,
    /// Requests sent whose response has not been accounted.
    pub outstanding: u64,
    /// Invokes awaiting their response, by stamp.
    pub manager: HashMap<u64, TaskManager>,
    /// Resumed tasks awaiting the response to their own `get()`, by stamp.
    pub parked: HashMap<u64, TaskManager>,
    /// Tasks ready to run, in order.
    pub waiting: VecDeque<TaskManager>,
    /// Local completions since the counter was last reset.
    pub pushback_completed: u64,
    /// Cycles spent by locally completed tasks, saturating.
    pub cycles_total: u64,
    /// Locally completed tasks, saturating.
    pub cycles_count: u64,
    /// Native requests awaiting a response, by stamp, with the steps done so far.
    pub native_state: HashMap<u64, u8>,
    /// The latest stamp handed out; stamps only grow.
    pub last_stamp: u64,
}

/// The frames of the `Some` entries of `rs`, in order.
pub open spec fn somes(rs: Seq<Option<Vec<u8>>>) -> Seq<Vec<u8>>
    decreases rs.len(),
{
    if rs.len() == 0 {
        Seq::empty()
    } else {
        match rs.last() {
            Some(f) => somes(rs.drop_last()).push(f),
            None => somes(rs.drop_last()),
        }
    }
}

/// `new_q` is `old_q` with `t` appended, resumed and with `extra` added to its read set.
pub open spec fn enqueued(
    old_q: Seq<TaskManager>,
    new_q: Seq<TaskManager>,
    t: TaskManager,
    extra: Seq<u8>,
) -> bool {
    &&& new_q.len() == old_q.len() + 1
    &&& new_q.subrange(0, old_q.len() as int) == old_q
    &&& new_q.last().id == t.id
    &&& new_q.last().tenant == t.tenant
    &&& new_q.last().req == t.req
    &&& new_q.last().name_length == t.name_length
    &&& new_q.last().rwset@ == t.rwset@ + extra
    &&& new_q.last().resumed
}

/// Copies at most the first `n` bytes of `s`.
pub fn prefix_bytes(s: &[u8], n: usize) -> (r: Vec<u8>)
    ensures
        r@ == next_key(s@, n as nat),
{
    let end = if s.len() <= n {
        s.len()
    } else {
        n
    };
    let mut out: Vec<u8> = Vec::new();
    let mut i: usize = 0;
    while i < end
        invariant
            i <= end <= s@.len(),
            out@ == s@.subrange(0, i as int),
        decreases end - i,
    {
        out.push(s[i]);
        i = i + 1;
        assert(out@ =~= s@.subrange(0, i as int));
    }
    assert(s@.subrange(0, s@.len() as int) =~= s@);
    out
}

/// "pushback" followed by table id 1 in eight little-endian bytes.
pub open spec fn payload_prefix() -> Seq<u8> {
    seq![112u8, 117u8, 115u8, 104u8, 98u8, 97u8, 99u8, 107u8] + le_bytes(TABLE_ID as nat, 8)
}

fn push_payload_prefix(out: &mut Vec<u8>)
    ensures
        final(out)@ == old(out)@ + payload_prefix(),
{
    // "pushback"
    out.push(112);
    out.push(117);
    out.push(115);
    out.push(104);
    out.push(98);
    out.push(97);
    out.push(99);
    out.push(107);
    push_le(out, TABLE_ID, 8);
    assert(final(out)@ =~= old(out)@ + payload_prefix());
}

/// Relies on slice::sort_unstable: the slice ends in ascending order and holds the same
/// elements.
#[verifier::external_body]
fn sort_u64(v: &mut Vec<u64>)
    ensures
        final(v)@.to_multiset() == old(v)@.to_multiset(),
        forall|i: int, j: int| 0 <= i <= j < final(v)@.len() ==> final(v)@[i] <= final(v)@[j],
{
    v.sort_unstable();
}

/// The median of an ascending sequence: its middle element, or the mean of its two middle
/// elements rounded down.
pub open spec fn median_of(s: Seq<u64>) -> u64 {
    let n = s.len() as int;
    if n % 2 == 1 {
        s[n / 2]
    } else {
        ((s[n / 2 - 1] as nat + s[n / 2] as nat) / 2) as u64
    }
}

/// The 99th percentile of an ascending sequence.
pub open spec fn p99_of(s: Seq<u64>) -> u64 {
    s[(s.len() * 99 / 100) as int]
}

/// Median and 99th percentile of an ascending, non-empty list of samples.
pub fn percentiles(sorted: &Vec<u64>) -> (r: (u64, u64))
    requires
        sorted@.len() > 0,
        sorted@.len() * 99 <= usize::MAX,
    ensures
        r.0 == median_of(sorted@),
        r.1 == p99_of(sorted@),
{
    let n = sorted.len();
    let m = if n % 2 == 1 {
        sorted[n / 2]
    } else {
        let a = sorted[n / 2 - 1];
        let b = sorted[n / 2];
        a / 2 + b / 2 + (a % 2 + b % 2) / 2
    };
    let t = sorted[n * 99 / 100];
    (m, t)
}

impl PushbackRecvSend {
    /// The invoke payload of a get or a put of key index `key`: "pushback", the table id,
    /// for a put the key length, the key, and for a put the zero value.
    pub open spec fn invoke_payload(&self, is_get: bool, key: u32) -> Seq<u8> {
        let klen = self.workload.key_buf@.len();
        let vlen = self.workload.value_buf@.len();
        if is_get {
            payload_prefix() + key_image(key, klen)
        } else {
            payload_prefix() + le_bytes(klen, 2) + key_image(key, klen) + Seq::new(
                vlen,
                |i: int| 0u8,
            )
        }
    }

    /// The frame of the request for a get or a put of key index `key` by `tenant`, stamped
    /// `stamp`: a native `get()` or `put()`, or an `invoke()` of "pushback".
    pub open spec fn request_frame(&self, is_get: bool, tenant: u32, key: u32, stamp: u64) -> Seq<
        u8,
    > {
        let klen = self.workload.key_buf@.len();
        let vlen = self.workload.value_buf@.len();
        if self.native {
            if is_get {
                self.sender.frame(get_rpc(tenant, TABLE_ID, key_image(key, klen), stamp))
            } else {
                self.sender.frame(
                    put_rpc(
                        tenant,
                        TABLE_ID,
                        key_image(key, klen),
                        Seq::new(vlen, |i: int| 0u8),
                        stamp,
                    ),
                )
            }
        } else {
            let p = self.invoke_payload(is_get, key);
            self.sender.frame(
                invoke_rpc(tenant, EXT_NAME_LEN as nat, (p.len() - EXT_NAME_LEN) as nat, p, stamp),
            )
        }
    }

    /// How a request sent under `stamp` is awaited: a native one with its first step
    /// counted, an invoke with a fresh task holding its payload.
    pub open spec fn awaits(
        &self,
        cfg: &PushbackRecvSend,
        is_get: bool,
        tenant: u32,
        key: u32,
        stamp: u64,
    ) -> bool {
        if cfg.native {
            self.native_state@.contains_key(stamp) && self.native_state@[stamp] == 1
        } else {
            &&& self.manager@.contains_key(stamp)
            &&& self.manager@[stamp].req@ == cfg.invoke_payload(is_get, key)
            &&& self.manager@[stamp].tenant == tenant
            &&& self.manager@[stamp].name_length == EXT_NAME_LEN
            &&& self.manager@[stamp].id == stamp
            &&& self.manager@[stamp].rwset@.len() == 0
            &&& !self.manager@[stamp].resumed
        }
    }

    /// Frame `i` of a batch that `send` returned carries draw `i` under a stamp it is
    /// awaited by.
    pub open spec fn sent_frame(
        &self,
        cfg: &PushbackRecvSend,
        frame: Seq<u8>,
        draw: (u32, u32),
    ) -> bool {
        exists|g: bool|
            allowed(g, cfg.workload.put_pct) && frame == cfg.request_frame(
                g,
                draw.0,
                draw.1,
                resp_stamp(frame) as u64,
            ) && self.awaits(cfg, g, draw.0, draw.1, resp_stamp(frame) as u64)
    }

    pub open spec fn wf(&self) -> bool {
        &&& self.sender.wf()
        &&& self.workload.wf()
        &&& self.workload.key_buf@.len() + self.workload.value_buf@.len() <= MAX_KV_LEN
        &&& self.payload_get@.len() == 16 + self.workload.key_buf@.len()
        &&& self.payload_put@.len() == 18 + self.workload.key_buf@.len()
            + self.workload.value_buf@.len()
        &&& self.payload_get@.subrange(0, 16) == payload_prefix()
        &&& self.payload_get@.subrange(20, self.payload_get@.len() as int) == Seq::new(
            (self.workload.key_buf@.len() - 4) as nat,
            |i: int| 0u8,
        )
        &&& self.payload_put@.subrange(0, 18) == payload_prefix() + le_bytes(
            self.workload.key_buf@.len(),
            2,
        )
        &&& self.payload_put@.subrange(22, self.payload_put@.len() as int) == Seq::new(
            (self.workload.key_buf@.len() - 4 + self.workload.value_buf@.len()) as nat,
            |i: int| 0u8,
        )
        &&& self.outstanding <= WINDOW
        &&& self.finished ==> self.responses <= self.recvd
        &&& self.sent <= self.requests
        &&& self.recvd + self.outstanding == self.sent
        &&& self.latencies@.len() == self.recvd
        &&& self.native ==> self.outstanding == self.native_state@.len()
        &&& !self.native ==> self.outstanding == self.manager@.len()
        &&& forall|s: u64| #[trigger]
            self.manager@.contains_key(s) ==> s <= self.last_stamp && self.manager@[s].id == s
        &&& forall|s: u64| #[trigger]
            self.parked@.contains_key(s) ==> s <= self.last_stamp && self.parked@[s].id == s
                && self.parked@[s].resumed
        &&& forall|s: u64| #[trigger]
            self.native_state@.contains_key(s) ==> s <= self.last_stamp && 1
                <= self.native_state@[s] <= NUM_OPS
    }

    /// A client that sends `reqs` requests and stops measuring after `resps` responses.
    /// Native requests are `get()`s and `put()`s of the workload's keys; otherwise each is an
    /// `invoke()` of the extension "pushback" with the same key.
    pub fn new(
        resps: u64,
        master: bool,
        workload: Pushback,
        sender: RequestGenerator,
        reqs: u64,
        use_invoke: bool,
        start: u64,
    ) -> (r: PushbackRecvSend)
        requires
            workload.wf(),
            sender.wf(),
            workload.key_buf@.len() + workload.value_buf@.len() <= MAX_KV_LEN,
        ensures
            r.wf(),
            r.workload == workload,
            r.sender == sender,
            r.responses == resps,
            r.requests == reqs,
            r.native == !use_invoke,
            r.master == master,
            r.start == start,
            r.last_stamp == start,
            r.sent == 0,
            r.recvd == 0,
            r.outstanding == 0,
            !r.finished,
            r.manager@.is_empty(),
            r.parked@.is_empty(),
            r.native_state@.is_empty(),
            r.waiting@.len() == 0,
            r.cycles_count == 0,
            r.payload_get@ == payload_prefix() + Seq::new(
                workload.key_buf@.len(),
                |i: int| 0u8,
            ),
            r.payload_put@ == payload_prefix() + le_bytes(workload.key_buf@.len(), 2) + Seq::new(
                workload.key_buf@.len() + workload.value_buf@.len(),
                |i: int| 0u8,
            ),
    {
        let key_len = workload.key_buf.len();
        let value_len = workload.value_buf.len();
        let mut payload_get: Vec<u8> = Vec::new();
        push_payload_prefix(&mut payload_get);
        append_bytes(&mut payload_get, zeros(key_len).as_slice());

        let mut payload_put: Vec<u8> = Vec::new();
        push_payload_prefix(&mut payload_put);
        push_le(&mut payload_put, key_len as u64, 2);
        append_bytes(&mut payload_put, zeros(key_len + value_len).as_slice());
        proof {
            crate::wire::lemma_le_bytes_len(TABLE_ID as nat, 8);
            crate::wire::lemma_le_bytes_len(key_len as nat, 2);
            assert(payload_get@.subrange(0, 16) =~= payload_prefix());
            assert(payload_get@.subrange(20, payload_get@.len() as int) =~= Seq::new(
                (key_len - 4) as nat,
                |i: int| 0u8,
            ));
            assert(payload_put@.subrange(0, 18) =~= payload_prefix() + le_bytes(key_len as nat, 2));
            assert(payload_put@.subrange(22, payload_put@.len() as int) =~= Seq::new(
                (key_len - 4 + value_len) as nat,
                |i: int| 0u8,
            ));
        }
        PushbackRecvSend {
            responses: resps,
            start,
            recvd: 0,
            latencies: Vec::new(),
            master,
            stop: 0,
            workload,
            sender,
            requests: reqs,
            sent: 0,
            native: !use_invoke,
            payload_get,
            payload_put,
            finished: false,
            outstanding: 0,
            manager: HashMap::new(),
            parked: HashMap::new(),
            waiting: VecDeque::new(),
            pushback_completed: 0,
            cycles_total: 0,
            cycles_count: 0,
            native_state: HashMap::new(),
            last_stamp: start,
        }
    }

    /// Records an invoke sent under stamp `id`, so that a pushback can resume it.
    pub fn add_request(&mut self, req: &[u8], tenant: u32, name_length: u32, id: u64)
        ensures
            final(self).manager@.contains_key(id),
            final(self).manager@[id].req@ == req@,
            final(self).manager@[id].tenant == tenant,
            final(self).manager@[id].name_length == name_length,
            final(self).manager@[id].id == id,
            final(self).manager@[id].rwset@.len() == 0,
            !final(self).manager@[id].resumed,
            forall|s: u64|
                s != id ==> (#[trigger] final(self).manager@.contains_key(s)
                    == old(self).manager@.contains_key(s)) && (old(self).manager@.contains_key(s)
                    ==> final(self).manager@[s] == old(self).manager@[s]),
            final(self).manager@.dom() == old(self).manager@.dom().insert(id),
            *final(self) == (PushbackRecvSend { manager: final(self).manager, ..*old(self) }),
    {
        let task = TaskManager::new(req, tenant, name_length, id);
        self.manager.insert(id, task);
    }

    /// Forgets the invoke sent under stamp `id`.
    pub fn remove_request(&mut self, id: u64)
        ensures
            final(self).manager@ == old(self).manager@.remove(id),
            *final(self) == (PushbackRecvSend { manager: final(self).manager, ..*old(self) }),
    {
        self.manager.remove(&id);
    }

    /// `init` multiplied by every integer in `[1, limit)`, wrapping: the compute that a
    /// simulated extension performs.
    pub fn mul(&self, init: u8, limit: u64) -> (r: u64)
        ensures
            r == mul_spec(init, limit as nat),
    {
        let mut mul: u64 = init as u64;
        if limit == 0 {
            return mul;
        }
        let mut i: u64 = 1;
        while i < limit
            invariant
                1 <= i <= limit,
                mul == mul_spec(init, i as nat),
            decreases limit - i,
        {
            assert(mul_spec(init, (i + 1) as nat) == ((mul as nat * i as nat)
                % 0x1_0000_0000_0000_0000) as u64);
            mul = mul.wrapping_mul(i);
            i = i + 1;
        }
        mul
    }

    /// The next stamp: `now`, or one past the last stamp if `now` is not later.
    fn next_stamp(&mut self, now: u64) -> (s: u64)
        requires
            old(self).last_stamp < u64::MAX,
        ensures
            s > old(self).last_stamp,
            s >= now,
            final(self).last_stamp == s,
            old(self).last_stamp < now ==> s == now,
            old(self).last_stamp >= now ==> s == old(self).last_stamp + 1,
            *final(self) == (PushbackRecvSend { last_stamp: s, ..*old(self) }),
    {
        let s = if now > self.last_stamp {
            now
        } else {
            self.last_stamp + 1
        };
        self.last_stamp = s;
        s
    }

    /// Which responses complete a request: a native `get()` on its last step or a native
    /// `put()`, or an `invoke()` answered OK or pushed back, in each case under a stamp that
    /// is awaited.
    pub open spec fn completes(&self, resp: ParsedResponse) -> bool {
        match resp {
            ParsedResponse::GetOk { stamp, .. } => self.native && self.native_state@.contains_key(
                stamp,
            ) && self.native_state@[stamp] >= NUM_OPS,
            ParsedResponse::PutOk { stamp } => self.native && self.native_state@.contains_key(stamp),
            ParsedResponse::InvokeOk { stamp } => !self.native && self.manager@.contains_key(stamp),
            ParsedResponse::InvokePushback { stamp, .. } => !self.native
                && self.manager@.contains_key(stamp),
            ParsedResponse::Unknown => false,
        }
    }

    /// Whether `resp` is a native `get()` response on a step before the last, which fires
    /// the next `get()`.
    pub open spec fn continues(&self, resp: ParsedResponse) -> bool {
        match resp {
            ParsedResponse::GetOk { stamp, .. } => self.native && self.native_state@.contains_key(
                stamp,
            ) && self.native_state@[stamp] < NUM_OPS,
            _ => false,
        }
    }

    /// Whether `resp` answers the `get()` of a resumed task, which becomes runnable again.
    pub open spec fn wakes(&self, resp: ParsedResponse) -> bool {
        match resp {
            ParsedResponse::GetOk { stamp, .. } => !self.native && self.parked@.contains_key(stamp),
            _ => false,
        }
    }

    /// The latency sample of a completing response received at `now`: the cycles since its
    /// stamp, less, for a native `get()`, the compute that the extension would have done.
    pub open spec fn latency_of(&self, resp: ParsedResponse, now: u64) -> u64 {
        match resp {
            ParsedResponse::GetOk { stamp, payload, .. } => sat_sub(
                sat_sub(now, stamp),
                mul_spec(first_byte(payload@), NUM_MUL as nat),
            ),
            ParsedResponse::PutOk { stamp } => sat_sub(now, stamp),
            ParsedResponse::InvokeOk { stamp } => sat_sub(now, stamp),
            ParsedResponse::InvokePushback { stamp, .. } => sat_sub(now, stamp),
            ParsedResponse::Unknown => 0,
        }
    }

    /// Fields that only sending and receiving change stay as they were.
    pub open spec fn same_config(&self, o: &PushbackRecvSend) -> bool {
        &&& self.responses == o.responses
        &&& self.requests == o.requests
        &&& self.native == o.native
        &&& self.master == o.master
        &&& self.start == o.start
        &&& self.sender == o.sender
        &&& self.workload.key_buf@.len() == o.workload.key_buf@.len()
        &&& self.workload.value_buf@.len() == o.workload.value_buf@.len()
    }

    /// Accounts one completed request with latency `lat`.
    fn complete(&mut self, lat: u64)
        requires
            old(self).outstanding > 0,
            old(self).recvd + old(self).outstanding == old(self).sent,
            old(self).latencies@.len() == old(self).recvd,
        ensures
            final(self).recvd == old(self).recvd + 1,
            final(self).outstanding == old(self).outstanding - 1,
            final(self).latencies@ == old(self).latencies@.push(lat),
            *final(self) == (PushbackRecvSend {
                recvd: final(self).recvd,
                outstanding: final(self).outstanding,
                latencies: final(self).latencies,
                ..*old(self)
            }),
    {
        self.recvd = self.recvd + 1;
        self.outstanding = self.outstanding - 1;
        self.latencies.push(lat);
    }

    /// Sends while fewer than `WINDOW` requests are outstanding, requests remain and drawn
    /// `(tenant, key)` ranks remain in `draws`: frame `i` is the request made of draw `i`,
    /// under a fresh stamp no earlier than `now`, awaited under that stamp.
    #[verifier::rlimit(100)]
    pub fn send(&mut self, now: u64, draws: &Vec<(u32, u32)>) -> (frames: Vec<Vec<u8>>)
        requires
            old(self).wf(),
            forall|i: int|
                0 <= i < draws@.len() ==> old(self).workload.in_range(
                    (#[trigger] draws@[i]).0,
                    draws@[i].1,
                ),
        ensures
            final(self).wf(),
            *final(self) == (PushbackRecvSend {
                sent: final(self).sent,
                outstanding: final(self).outstanding,
                last_stamp: final(self).last_stamp,
                manager: final(self).manager,
                native_state: final(self).native_state,
                workload: final(self).workload,
                payload_get: final(self).payload_get,
                payload_put: final(self).payload_put,
                ..*old(self)
            }),
            final(self).same_config(old(self)),
            final(self).workload.put_pct == old(self).workload.put_pct,
            final(self).workload.n_keys == old(self).workload.n_keys,
            final(self).workload.n_tenants == old(self).workload.n_tenants,
            frames@.len() <= draws@.len(),
            frames@.len() == final(self).sent - old(self).sent,
            final(self).outstanding == old(self).outstanding + frames@.len(),
            final(self).outstanding == WINDOW || final(self).sent == final(self).requests
                || frames@.len() == draws@.len() || final(self).last_stamp == u64::MAX,
            frames@.len() == 0 ==> *final(self) == *old(self),
            final(self).last_stamp >= old(self).last_stamp,
            final(self).last_stamp <= (if now > old(self).last_stamp {
                now as int
            } else {
                old(self).last_stamp as int
            }) + frames@.len(),
            forall|i: int|
                0 <= i < frames@.len() ==> final(self).sent_frame(
                    old(self),
                    #[trigger] frames@[i]@,
                    draws@[i],
                ),
            forall|i: int|
                0 <= i < frames@.len() ==> old(self).last_stamp < resp_stamp(#[trigger] frames@[i]@)
                    <= final(self).last_stamp && resp_stamp(frames@[i]@) >= now,
            forall|i: int, j: int|
                0 <= i < j < frames@.len() ==> resp_stamp(#[trigger] frames@[i]@) < resp_stamp(
                    #[trigger] frames@[j]@,
                ),
            old(self).native ==> final(self).manager == old(self).manager,
            !old(self).native ==> final(self).native_state == old(self).native_state,
            forall|s: u64| #[trigger]
                old(self).manager@.contains_key(s) ==> final(self).manager@.contains_key(s)
                    && final(self).manager@[s] == old(self).manager@[s],
            forall|s: u64| #[trigger]
                old(self).native_state@.contains_key(s) ==> final(self).native_state@.contains_key(s)
                    && final(self).native_state@[s] == old(self).native_state@[s],
            forall|s: u64|
                #![trigger final(self).manager@.contains_key(s)]
                #![trigger final(self).native_state@.contains_key(s)]
                (final(self).manager@.contains_key(s) && !old(self).manager@.contains_key(s)) || (
                final(self).native_state@.contains_key(s) && !old(self).native_state@.contains_key(s)) ==> exists|i: int|
                    0 <= i < frames@.len() && resp_stamp(#[trigger] frames@[i]@) == s,
    {
        let mut frames: Vec<Vec<u8>> = Vec::new();
        if self.requests <= self.sent {
            return frames;
        }
        let ghost o = *old(self);
        let ghost top: int = if now > o.last_stamp {
            now as int
        } else {
            o.last_stamp as int
        };
        let mut j: usize = 0;
        while self.outstanding < WINDOW && self.sent < self.requests && self.last_stamp < u64::MAX
            && j < draws.len()
            invariant
                self.wf(),
                *self == (PushbackRecvSend {
                    sent: self.sent,
                    outstanding: self.outstanding,
                    last_stamp: self.last_stamp,
                    manager: self.manager,
                    native_state: self.native_state,
                    workload: self.workload,
                    payload_get: self.payload_get,
                    payload_put: self.payload_put,
                    ..o
                }),
                self.same_config(&o),
                self.workload.put_pct == o.workload.put_pct,
                self.workload.n_keys == o.workload.n_keys,
                self.workload.n_tenants == o.workload.n_tenants,
                forall|i: int|
                    0 <= i < draws@.len() ==> o.workload.in_range(
                        (#[trigger] draws@[i]).0,
                        draws@[i].1,
                    ),
                j == frames@.len(),
                j <= draws@.len(),
                frames@.len() == self.sent - o.sent,
                self.outstanding == o.outstanding + frames@.len(),
                frames@.len() == 0 ==> *self == o,
                self.last_stamp >= o.last_stamp,
                self.last_stamp <= top + frames@.len(),
                top == (if now > o.last_stamp {
                    now as int
                } else {
                    o.last_stamp as int
                }),
                forall|i: int|
                    0 <= i < frames@.len() ==> self.sent_frame(
                        &o,
                        #[trigger] frames@[i]@,
                        draws@[i],
                    ),
                forall|i: int|
                    0 <= i < frames@.len() ==> o.last_stamp < resp_stamp(#[trigger] frames@[i]@)
                        <= self.last_stamp && resp_stamp(frames@[i]@) >= now,
                forall|i: int, k: int|
                    0 <= i < k < frames@.len() ==> resp_stamp(#[trigger] frames@[i]@) < resp_stamp(
                        #[trigger] frames@[k]@,
                    ),
                o.native ==> self.manager == o.manager,
                !o.native ==> self.native_state == o.native_state,
                forall|s: u64| #[trigger]
                    o.manager@.contains_key(s) ==> self.manager@.contains_key(s)
                        && self.manager@[s] == o.manager@[s],
                forall|s: u64| #[trigger]
                    o.native_state@.contains_key(s) ==> self.native_state@.contains_key(s)
                        && self.native_state@[s] == o.native_state@[s],
                forall|s: u64|
                    #![trigger self.manager@.contains_key(s)]
                    #![trigger self.native_state@.contains_key(s)]
                    (self.manager@.contains_key(s) && !o.manager@.contains_key(s)) || (
                    self.native_state@.contains_key(s) && !o.native_state@.contains_key(s))
                        ==> exists|i: int|
                        0 <= i < frames@.len() && resp_stamp(#[trigger] frames@[i]@) == s,
            decreases self.requests - self.sent,
        {
            let ghost before = *self;
            let ghost frames_before = frames@;
            let stamp = self.next_stamp(now);
            let (tenant, key) = draws[j];
            let op = self.workload.abc(tenant, key);
            let is_get = match op {
                Op::Get { .. } => true,
                Op::Put { .. } => false,
            };
            let ghost klen = self.workload.key_buf@.len();
            let ghost vlen = self.workload.value_buf@.len();
            let frame: Vec<u8>;
            if self.native {
                if is_get {
                    frame = self.sender.create_get_request(
                        tenant,
                        TABLE_ID,
                        self.workload.key_buf.as_slice(),
                        stamp,
                    );
                    proof {
                        let key_s = self.workload.key_buf@;
                        let body = le_bytes(TABLE_ID as nat, 8) + le_bytes(key_s.len(), 2) + key_s;
                        assert(get_rpc(tenant, TABLE_ID, key_s, stamp) =~= common_header(
                            crate::rpc::OP_GET,
                            tenant,
                            stamp,
                        ) + body);
                        lemma_frame_stamp(self.sender, crate::rpc::OP_GET, tenant, stamp, body);
                    }
                } else {
                    frame = self.sender.create_put_request(
                        tenant,
                        TABLE_ID,
                        self.workload.key_buf.as_slice(),
                        self.workload.value_buf.as_slice(),
                        stamp,
                    );
                    proof {
                        let key_s = self.workload.key_buf@;
                        let value = self.workload.value_buf@;
                        let body = le_bytes(TABLE_ID as nat, 8) + le_bytes(key_s.len(), 2)
                            + le_bytes(value.len(), 2) + key_s + value;
                        assert(put_rpc(tenant, TABLE_ID, key_s, value, stamp) =~= common_header(
                            crate::rpc::OP_PUT,
                            tenant,
                            stamp,
                        ) + body);
                        lemma_frame_stamp(self.sender, crate::rpc::OP_PUT, tenant, stamp, body);
                    }
                }
                assert(!self.native_state@.contains_key(stamp));
                self.native_state.insert(stamp, 1);
            } else {
                // Only the first four bytes of the key vary, and the value is all zero, so
                // the prefilled payloads need just those four bytes.
                let mut payload: Vec<u8> = Vec::new();
                if is_get {
                    self.payload_get.set(16, self.workload.key_buf[0]);
                    self.payload_get.set(17, self.workload.key_buf[1]);
                    self.payload_get.set(18, self.workload.key_buf[2]);
                    self.payload_get.set(19, self.workload.key_buf[3]);
                    assert(self.payload_get@ =~= o.invoke_payload(true, key));
                    assert(self.payload_get@.subrange(0, 16) =~= payload_prefix());
                    assert(self.payload_get@.subrange(20, self.payload_get@.len() as int)
                        =~= before.payload_get@.subrange(20, self.payload_get@.len() as int));
                    append_bytes(&mut payload, self.payload_get.as_slice());
                } else {
                    proof {
                        crate::wire::lemma_le_bytes_len(klen, 2);
                        crate::wire::lemma_le_bytes_len(TABLE_ID as nat, 8);
                        assert forall|i: int| 0 <= i < 18 implies #[trigger] before.payload_put@[i]
                            == (payload_prefix() + le_bytes(klen, 2))[i] by {
                            assert(before.payload_put@.subrange(0, 18)[i] == before.payload_put@[i]);
                        }
                        assert forall|i: int|
                            22 <= i < before.payload_put@.len() implies #[trigger] before.payload_put@[i]
                            == 0u8 by {
                            assert(before.payload_put@.subrange(
                                22,
                                before.payload_put@.len() as int,
                            )[i - 22] == before.payload_put@[i]);
                        }
                    }
                    self.payload_put.set(18, self.workload.key_buf[0]);
                    self.payload_put.set(19, self.workload.key_buf[1]);
                    self.payload_put.set(20, self.workload.key_buf[2]);
                    self.payload_put.set(21, self.workload.key_buf[3]);
                    assert(self.payload_put@ =~= o.invoke_payload(false, key));
                    assert(self.payload_put@.subrange(0, 18) =~= before.payload_put@.subrange(0, 18));
                    assert(self.payload_put@.subrange(22, self.payload_put@.len() as int)
                        =~= before.payload_put@.subrange(22, self.payload_put@.len() as int));
                    append_bytes(&mut payload, self.payload_put.as_slice());
                }
                assert(!self.manager@.contains_key(stamp));
                self.add_request(payload.as_slice(), tenant, EXT_NAME_LEN as u32, stamp);
                frame = self.sender.create_invoke_request(
                    tenant,
                    EXT_NAME_LEN,
                    payload.len() - EXT_NAME_LEN,
                    payload.as_slice(),
                    stamp,
                );
                proof {
                    let body = le_bytes(EXT_NAME_LEN as nat, 4) + le_bytes(
                        (payload@.len() - EXT_NAME_LEN) as nat,
                        4,
                    ) + payload@;
                    assert(invoke_rpc(
                        tenant,
                        EXT_NAME_LEN as nat,
                        (payload@.len() - EXT_NAME_LEN) as nat,
                        payload@,
                        stamp,
                    ) =~= common_header(crate::rpc::OP_INVOKE, tenant, stamp) + body);
                    lemma_frame_stamp(self.sender, crate::rpc::OP_INVOKE, tenant, stamp, body);
                }
            }
            assert(resp_stamp(frame@) == stamp);
            self.outstanding = self.outstanding + 1;
            self.sent = self.sent + 1;
            frames.push(frame);
            j = j + 1;
            proof {
                assert forall|s: u64| #[trigger]
                    o.manager@.contains_key(s) implies self.manager@.contains_key(s)
                    && self.manager@[s] == o.manager@[s] by {
                    assert(before.manager@.contains_key(s));
                    assert(s <= before.last_stamp);
                }
                assert(self.last_stamp == stamp);
                assert(before.last_stamp <= top + frames_before.len());
                assert(top >= now);
                assert(frames@.len() == frames_before.len() + 1);
                if now > before.last_stamp {
                    assert(stamp == now);
                } else {
                    assert(stamp == before.last_stamp + 1);
                }
                assert(stamp <= top + frames@.len());
                assert(frames@[frames@.len() - 1]@ == o.request_frame(is_get, tenant, key, stamp));
                assert(self.awaits(&o, is_get, tenant, key, stamp));
                assert(self.sent_frame(&o, frames@[frames@.len() - 1]@, draws@[j - 1]));
                assert forall|i: int| 0 <= i < frames@.len() implies self.sent_frame(
                    &o,
                    #[trigger] frames@[i]@,
                    draws@[i],
                ) by {
                    if i < frames@.len() - 1 {
                        assert(frames@[i] == frames_before[i]);
                        assert(before.sent_frame(&o, frames_before[i]@, draws@[i]));
                        let g = choose|g: bool|
                            allowed(g, o.workload.put_pct) && frames_before[i]@ == o.request_frame(
                                g,
                                draws@[i].0,
                                draws@[i].1,
                                resp_stamp(frames_before[i]@) as u64,
                            ) && before.awaits(
                                &o,
                                g,
                                draws@[i].0,
                                draws@[i].1,
                                resp_stamp(frames_before[i]@) as u64,
                            );
                        assert(resp_stamp(frames_before[i]@) <= before.last_stamp);
                        let si = resp_stamp(frames_before[i]@) as u64;
                        assert(si != stamp);
                        if o.native {
                            assert(before.native_state@.contains_key(si));
                            assert(self.native_state@.contains_key(si));
                            assert(self.native_state@[si] == before.native_state@[si]);
                        } else {
                            assert(before.manager@.contains_key(si));
                            assert(self.manager@.contains_key(si));
                            assert(self.manager@[si] == before.manager@[si]);
                        }
                        assert(self.awaits(
                            &o,
                            g,
                            draws@[i].0,
                            draws@[i].1,
                            resp_stamp(frames_before[i]@) as u64,
                        ));
                    }
                }
                assert forall|s: u64|
                    #![trigger self.manager@.contains_key(s)]
                    #![trigger self.native_state@.contains_key(s)]
                    (self.manager@.contains_key(s) && !o.manager@.contains_key(s)) || (
                    self.native_state@.contains_key(s) && !o.native_state@.contains_key(s))
                        implies exists|i: int|
                    0 <= i < frames@.len() && resp_stamp(#[trigger] frames@[i]@) == s by {
                    if s == stamp {
                        assert(resp_stamp(frames@[frames@.len() - 1]@) == s);
                    } else {
                        assert(before.manager@.contains_key(s) && !o.manager@.contains_key(s) || (
                        before.native_state@.contains_key(s) && !o.native_state@.contains_key(s)));
                        let i = choose|i: int|
                            0 <= i < frames_before.len() && resp_stamp(
                                #[trigger] frames_before[i]@,
                            ) == s;
                        assert(frames@[i] == frames_before[i]);
                    }
                }
            }
        }
        frames
    }

    /// The relation between the state before (`o`) and after (`n`) handling `resp` at
    /// `now`, with `r` the follow-up frame, if any.
    pub open spec fn handled(
        o: PushbackRecvSend,
        n: PushbackRecvSend,
        resp: ParsedResponse,
        now: u64,
        r: Option<Vec<u8>>,
    ) -> bool {
        &&& n == (PushbackRecvSend {
            recvd: n.recvd,
            outstanding: n.outstanding,
            latencies: n.latencies,
            manager: n.manager,
            parked: n.parked,
            native_state: n.native_state,
            waiting: n.waiting,
            ..o
        })
        &&& n.outstanding == if o.completes(resp) {
            o.outstanding - 1
        } else {
            o.outstanding as int
        }
        &&& (n.wf())
        &&& (n.same_config(&o))
        &&& (n.sent == o.sent)
        &&& (n.last_stamp == o.last_stamp)
        &&& (n.finished == o.finished)
        &&& (n.stop == o.stop)
        &&& (o.completes(resp) ==> n.recvd == o.recvd + 1
                && n.latencies@ == o.latencies@.push(
                o.latency_of(resp, now),
            ))
        &&& (!o.completes(resp) ==> n.recvd == o.recvd && n.latencies == o.latencies)
        &&& (o.completes(resp) && o.native ==> n.native_state@ == o.native_state@.remove(
            stamp_of(resp)->Some_0,
        ))
        &&& (o.completes(resp) && !o.native ==> n.manager@ == o.manager@.remove(stamp_of(resp)->Some_0))
        &&& (!o.completes(resp) && !o.continues(resp) ==> n.native_state@ == o.native_state@
            && n.manager@ == o.manager@)
        &&& (r.is_some() == o.continues(resp))
        &&& (o.continues(resp) ==> (match resp {
                ParsedResponse::GetOk { stamp, tenant, payload } => r->Some_0@ == o.sender.frame(
                    get_rpc(
                        tenant,
                        TABLE_ID,
                        next_key(payload@, o.workload.key_buf@.len()),
                        stamp,
                    ),
                ) && n.native_state@ == o.native_state@.insert(
                    stamp,
                    (o.native_state@[stamp] + 1) as u8,
                ),
                _ => true,
            }))
        &&& (match resp {
                ParsedResponse::InvokePushback { stamp, records, .. } => o.completes(resp)
                    ==> enqueued(
                    o.waiting@,
                    n.waiting@,
                    o.manager@[stamp],
                    records@,
                ) && n.parked == o.parked,
                ParsedResponse::GetOk { stamp, payload, .. } => (o.wakes(resp) ==> enqueued(
                    o.waiting@,
                    n.waiting@,
                    o.parked@[stamp],
                    payload@,
                ) && n.parked@ == o.parked@.remove(stamp)) && (!o.wakes(
                    resp,
                ) ==> n.waiting == o.waiting && n.parked@ == o.parked@),
                _ => n.waiting == o.waiting && n.parked == o.parked,
            })
    }

    /// Handles one parsed response received at `now`, as the request it answers requires:
    /// completes it, resumes or wakes a task, or fires the next step of a native request,
    /// whose frame is returned. A response under a stamp that nothing awaits is dropped.
    pub fn handle_response(&mut self, resp: ParsedResponse, now: u64) -> (r: Option<Vec<u8>>)
        requires
            old(self).wf(),
        ensures
            Self::handled(*old(self), *final(self), resp, now, r),
    {
        match resp {
            ParsedResponse::GetOk { stamp, tenant, payload } => {
                if self.native {
                    let count: u8 = match self.native_state.get(&stamp) {
                        Some(c) => *c,
                        None => {
                            return None;
                        },
                    };
                    if count >= NUM_OPS {
                        let init: u8 = if payload.len() > 0 {
                            payload[0]
                        } else {
                            0
                        };
                        let m = self.mul(init, NUM_MUL);
                        let lat = now.saturating_sub(stamp).saturating_sub(m);
                        self.native_state.remove(&stamp);
                        self.complete(lat);
                        None
                    } else {
                        let key = prefix_bytes(payload.as_slice(), self.workload.key_buf.len());
                        let frame = self.sender.create_get_request(
                            tenant,
                            TABLE_ID,
                            key.as_slice(),
                            stamp,
                        );
                        self.native_state.insert(stamp, count + 1);
                        Some(frame)
                    }
                } else {
                    match self.parked.remove(&stamp) {
                        Some(task) => {
                            let mut task = task;
                            task.resumed = true;
                            append_bytes(&mut task.rwset, payload.as_slice());
                            self.waiting.push_back(task);
                            assert(self.waiting@.subrange(0, old(self).waiting@.len() as int)
                                =~= old(self).waiting@);
                            None
                        },
                        None => {
                            assert(self.parked@ =~= old(self).parked@);
                            None
                        },
                    }
                }
            },
            ParsedResponse::PutOk { stamp } => {
                if self.native && self.native_state.contains_key(&stamp) {
                    self.native_state.remove(&stamp);
                    self.complete(now.saturating_sub(stamp));
                }
                None
            },
            ParsedResponse::InvokeOk { stamp } => {
                if !self.native {
                    match self.manager.remove(&stamp) {
                        Some(_) => {
                            self.complete(now.saturating_sub(stamp));
                        },
                        None => {
                            assert(self.manager@ =~= old(self).manager@);
                        },
                    }
                }
                None
            },
            ParsedResponse::InvokePushback { stamp, tenant, records } => {
                if !self.native {
                    match self.manager.remove(&stamp) {
                        Some(task) => {
                            let mut task = task;
                            task.resumed = true;
                            append_bytes(&mut task.rwset, records.as_slice());
                            self.waiting.push_back(task);
                            assert(self.waiting@.subrange(0, old(self).waiting@.len() as int)
                                =~= old(self).waiting@);
                            self.complete(now.saturating_sub(stamp));
                        },
                        None => {
                            assert(self.manager@ =~= old(self).manager@);
                        },
                    }
                }
                None
            },
            ParsedResponse::Unknown => None,
        }
    }

    /// One frame handled: it parses as some response, and handling that response takes
    /// `o` to `n` with follow-up `r`.
    pub open spec fn step(
        o: PushbackRecvSend,
        n: PushbackRecvSend,
        frame: Seq<u8>,
        now: u64,
        r: Option<Vec<u8>>,
    ) -> bool {
        exists|resp: ParsedResponse| parses_as(frame, resp) && Self::handled(o, n, resp, now, r)
    }

    /// `states` runs from `o` through one `step` per frame of `frames`, with follow-ups `rs`.
    pub open spec fn run(
        o: PushbackRecvSend,
        states: Seq<PushbackRecvSend>,
        rs: Seq<Option<Vec<u8>>>,
        frames: Seq<Vec<u8>>,
        now: u64,
    ) -> bool {
        &&& states.len() == frames.len() + 1
        &&& rs.len() == frames.len()
        &&& states[0] == o
        &&& forall|i: int|
            #![trigger frames[i]]
            0 <= i < frames.len() ==> Self::step(states[i], states[i + 1], frames[i]@, now, rs[i])
    }

    /// Handles a batch of frames received at `now`, in order: each is parsed and handled as
    /// `handle_response` does, and the follow-up frames are returned in order. Once every
    /// awaited response has arrived, the stop time is set to `now`; if that had already
    /// happened before the call, the client is marked finished and the batch is ignored.
    pub fn recv(&mut self, frames: &Vec<Vec<u8>>, now: u64) -> (out: Vec<Vec<u8>>)
        requires
            old(self).wf(),
        ensures
            final(self).wf(),
            old(self).responses <= old(self).recvd ==> *final(self) == (PushbackRecvSend {
                finished: true,
                ..*old(self)
            }) && out@.len() == 0,
            old(self).responses > old(self).recvd ==> exists|
                states: Seq<PushbackRecvSend>,
                rs: Seq<Option<Vec<u8>>>,
            |
                #![trigger Self::run(*old(self), states, rs, frames@, now)]
                Self::run(*old(self), states, rs, frames@, now) && out@ == somes(rs)
                    && *final(self) == (PushbackRecvSend {
                    stop: final(self).stop,
                    ..states.last()
                }) && (final(self).responses <= final(self).recvd ==> final(self).stop == now)
                    && (final(self).responses > final(self).recvd ==> final(self).stop == old(
                    self).stop),
    {
        if self.responses <= self.recvd {
            self.finished = true;
            return Vec::new();
        }
        let ghost o = *old(self);
        let ghost mut states: Seq<PushbackRecvSend> = seq![o];
        let ghost mut rs: Seq<Option<Vec<u8>>> = Seq::empty();
        let mut out: Vec<Vec<u8>> = Vec::new();
        let mut i: usize = 0;
        while i < frames.len()
            invariant
                self.wf(),
                i <= frames@.len(),
                states.len() == i + 1,
                rs.len() == i,
                states[0] == o,
                states.last() == *self,
                self.stop == o.stop,
                self.responses == o.responses,
                forall|k: int|
                    #![trigger frames@[k]]
                    0 <= k < i ==> Self::step(states[k], states[k + 1], frames@[k]@, now, rs[k]),
                out@ == somes(rs),
            decreases frames@.len() - i,
        {
            let ghost before = *self;
            let resp = parse_response(frames[i].as_slice());
            let ghost resp_g = resp;
            let r = self.handle_response(resp, now);
            proof {
                assert(Self::step(before, *self, frames@[i as int]@, now, r));
                let ghost prev_rs = rs;
                let ghost prev_states = states;
                states = states.push(*self);
                rs = rs.push(r);
                assert(rs.drop_last() =~= prev_rs);
                assert forall|k: int|
                    #![trigger frames@[k]]
                    0 <= k < i + 1 implies Self::step(
                    states[k],
                    states[k + 1],
                    frames@[k]@,
                    now,
                    rs[k],
                ) by {
                    if k < i {
                        assert(states[k] == prev_states[k]);
                        assert(states[k + 1] == prev_states[k + 1]);
                        assert(rs[k] == prev_rs[k]);
                    }
                }
            }
            match r {
                Some(f) => out.push(f),
                None => {},
            }
            i = i + 1;
        }
        if self.responses <= self.recvd {
            self.stop = now;
        }
        proof {
            assert(Self::run(o, states, rs, frames@, now));
            assert(*self == (PushbackRecvSend { stop: self.stop, ..states.last() }));
            assert(Self::run(o, states, rs, frames@, now) && out@ == somes(rs) && *self == (
            PushbackRecvSend { stop: self.stop, ..states.last() }) && (self.responses
                <= self.recvd ==> self.stop == now) && (self.responses > self.recvd ==> self.stop
                == o.stop));
        }
        out
    }

    /// Takes the task at the head of the run queue, if any.
    pub fn take_task(&mut self) -> (r: Option<TaskManager>)
        ensures
            old(self).waiting@.len() == 0 ==> r is None && final(self).waiting@ == old(self).waiting@,
            old(self).waiting@.len() > 0 ==> r == Some(old(self).waiting@[0])
                && final(self).waiting@ == old(self).waiting@.drop_first(),
            *final(self) == (PushbackRecvSend { waiting: final(self).waiting, ..*old(self) }),
    {
        self.waiting.pop_front()
    }

    /// Files a task after one step of its extension, taken at `now`: one that yielded goes
    /// to the tail of the run queue; one that waits gets a fresh stamp, is parked under it,
    /// and the frame of its `get()` is returned (if stamps have run out it runs again
    /// instead); one that completed is dropped and its cycles are accounted.
    pub fn execute_task(&mut self, task: TaskManager, state: TaskState, now: u64) -> (r: Option<
        Vec<u8>,
    >)
        requires
            old(self).wf(),
            state matches TaskState::Waiting { key } ==> key@.len() <= MAX_KV_LEN,
        ensures
            final(self).wf(),
            final(self).same_config(old(self)),
            final(self).sent == old(self).sent,
            final(self).recvd == old(self).recvd,
            final(self).outstanding == old(self).outstanding,
            final(self).latencies == old(self).latencies,
            final(self).manager == old(self).manager,
            final(self).native_state == old(self).native_state,
            final(self).finished == old(self).finished,
            final(self).stop == old(self).stop,
            final(self).start == old(self).start,
            final(self).requests == old(self).requests,
            final(self).responses == old(self).responses,
            match state {
                TaskState::Yielded => r is None && final(self).waiting@ == old(self).waiting@.push(
                    task,
                ) && final(self).parked == old(self).parked,
                TaskState::Waiting { key } => if old(self).last_stamp < u64::MAX {
                    let s = final(self).last_stamp;
                    &&& s > old(self).last_stamp
                    &&& s >= now
                    &&& final(self).waiting == old(self).waiting
                    &&& final(self).parked@.dom() == old(self).parked@.dom().insert(s)
                    &&& forall|x: u64|
                        x != s && #[trigger] old(self).parked@.contains_key(x) ==> final(self).parked@[x] == old(self).parked@[x]
                    &&& final(self).parked@[s].id == s
                    &&& final(self).parked@[s].tenant == task.tenant
                    &&& final(self).parked@[s].req == task.req
                    &&& final(self).parked@[s].name_length == task.name_length
                    &&& final(self).parked@[s].rwset == task.rwset
                    &&& final(self).parked@[s].resumed
                    &&& r matches Some(f) && f@ == final(self).sender.frame(
                        get_rpc(task.tenant, TABLE_ID, key@, s),
                    )
                } else {
                    r is None && final(self).waiting@ == old(self).waiting@.push(task)
                        && final(self).parked == old(self).parked
                },
                TaskState::Completed { cycles } => {
                    &&& r is None
                    &&& final(self).waiting == old(self).waiting
                    &&& final(self).parked == old(self).parked
                    &&& final(self).cycles_count == sat_add(old(self).cycles_count, 1)
                    &&& final(self).cycles_total == sat_add(old(self).cycles_total, cycles)
                    &&& final(self).pushback_completed == if old(self).pushback_completed + 1
                        >= REPORT_EVERY {
                        0
                    } else {
                        (old(self).pushback_completed + 1) as u64
                    }
                },
            },
    {
        match state {
            TaskState::Yielded => {
                self.waiting.push_back(task);
                None
            },
            TaskState::Waiting { key } => {
                if self.last_stamp == u64::MAX {
                    self.waiting.push_back(task);
                    return None;
                }
                let stamp = self.next_stamp(now);
                let mut task = task;
                task.id = stamp;
                task.resumed = true;
                let tenant = task.tenant;
                assert(!self.parked@.contains_key(stamp));
                self.parked.insert(stamp, task);
                Some(self.sender.create_get_request(tenant, TABLE_ID, key.as_slice(), stamp))
            },
            TaskState::Completed { cycles } => {
                self.cycles_total = self.cycles_total.saturating_add(cycles);
                self.cycles_count = self.cycles_count.saturating_add(1);
                if self.pushback_completed >= REPORT_EVERY - 1 {
                    self.pushback_completed = 0;
                } else {
                    self.pushback_completed = self.pushback_completed + 1;
                }
                None
            },
        }
    }

    /// Mean cycles of the locally completed tasks, or zero before the first.
    pub fn average_completion_cycles(&self) -> (r: u64)
        ensures
            self.cycles_count == 0 ==> r == 0,
            self.cycles_count > 0 ==> r == self.cycles_total / self.cycles_count,
    {
        if self.cycles_count == 0 {
            0
        } else {
            self.cycles_total / self.cycles_count
        }
    }

    /// Sorts the latency samples and returns their median and 99th percentile, or `None`
    /// when there are none.
    pub fn latency_summary(&mut self) -> (r: Option<(u64, u64)>)
        ensures
            final(self).latencies@.to_multiset() == old(self).latencies@.to_multiset(),
            final(self).latencies@.len() == old(self).latencies@.len(),
            forall|i: int, j: int|
                0 <= i <= j < final(self).latencies@.len() ==> final(self).latencies@[i] <= final(self).latencies@[j],
            r is Some <==> old(self).latencies@.len() > 0 && old(self).latencies@.len() * 99
                <= usize::MAX,
            r matches Some(p) ==> p.0 == median_of(final(self).latencies@) && p.1 == p99_of(
                final(self).latencies@,
            ),
            *final(self) == (PushbackRecvSend { latencies: final(self).latencies, ..*old(self) }),
    {
        sort_u64(&mut self.latencies);
        proof {
            self.latencies@.to_multiset_ensures();
            old(self).latencies@.to_multiset_ensures();
        }
        let n = self.latencies.len();
        if n == 0 || n > usize::MAX / 99 {
            return None;
        }
        Some(percentiles(&self.latencies))
    }
}

/// At every moment between calls, the number of outstanding requests lies in `[0, WINDOW]`
/// and equals the number of requests awaited under a stamp.
pub proof fn lemma_window_bounded(c: PushbackRecvSend)
    requires
        c.wf(),
    ensures
        0 <= c.outstanding <= WINDOW,
        c.native ==> c.outstanding == c.native_state@.len(),
        !c.native ==> c.outstanding == c.manager@.len(),
        c.recvd + c.outstanding == c.sent,
{
}

/// There is exactly one latency sample per completed request, at termination as at every
/// moment between calls.
pub proof fn lemma_one_sample_per_response(c: PushbackRecvSend)
    requires
        c.wf(),
    ensures
        c.latencies@.len() == c.recvd,
{
}

/// A response completes a request only if it echoes the stamp under which that request is
/// awaited; the request's task, if any, carries that same stamp as its id.
pub proof fn lemma_completion_matches_stamp(c: PushbackRecvSend, resp: ParsedResponse)
    requires
        c.wf(),
        c.completes(resp),
    ensures
        stamp_of(resp) is Some,
        c.native ==> c.native_state@.contains_key(stamp_of(resp)->Some_0),
        !c.native ==> c.manager@.contains_key(stamp_of(resp)->Some_0) && c.manager@[stamp_of(
            resp,
        )->Some_0].id == stamp_of(resp)->Some_0,
        stamp_of(resp)->Some_0 <= c.last_stamp,
{
}

} // verus!
