use pushback_client::client::{
    PushbackRecvSend, TaskManager, TaskState, NUM_MUL, WINDOW,
};
use pushback_client::header::RequestGenerator;
use pushback_client::rpc::{OP_GET, OP_INVOKE, OP_PUT, STATUS_OK, STATUS_PUSHBACK};
use pushback_client::workload::Pushback;

fn generator(use_invoke: bool) -> RequestGenerator {
    RequestGenerator::new(
        [0x02, 0, 0, 0, 0, 0x01],
        [0x02, 0, 0, 0, 0, 0x02],
        0x0a00_0001,
        0x0a00_0002,
        1000,
        2000,
        use_invoke,
    )
}

fn workload(key_len: usize, value_len: usize, n_keys: u32, put_pct: usize) -> Pushback {
    Pushback::new(key_len, value_len, n_keys, put_pct, 8)
}

/// A window's worth of tenant and key ranks, cycling through tenants 1..=8 and keys 1..=10.
fn draws() -> Vec<(u32, u32)> {
    (0..WINDOW as u32).map(|i| (1 + i % 8, 1 + i % 10)).collect()
}

fn client(use_invoke: bool, put_pct: usize, n_keys: u32, reqs: u64) -> PushbackRecvSend {
    PushbackRecvSend::new(
        reqs,
        true,
        workload(30, 100, n_keys, put_pct),
        generator(use_invoke),
        reqs,
        use_invoke,
        1000,
    )
}

/// The server's answer to a request frame: the request's headers and stamp echoed, a
/// status, then a payload.
fn respond(req: &[u8], status: u8, payload: &[u8]) -> Vec<u8> {
    let mut f = req[..55].to_vec();
    f.push(status);
    f.extend_from_slice(payload);
    f
}

/// Runs the client against a server that answers every request at once with `status`.
fn run_echo(c: &mut PushbackRecvSend, status: u8, opcodes: &mut Vec<u8>) {
    let mut now: u64 = 2000;
    let mut rounds = 0;
    while c.recvd < c.responses {
        let frames = c.send(now, &draws());
        now += 100;
        let replies: Vec<Vec<u8>> = frames
            .iter()
            .map(|f| {
                opcodes.push(f[42]);
                respond(f, status, &[7u8; 8])
            })
            .collect();
        c.recv(&replies, now);
        now += 100;
        rounds += 1;
        assert!(rounds < 10_000);
    }
}

#[test]
fn pure_get_native() {
    let mut c = client(false, 0, 10, 100);
    let mut ops = Vec::new();
    run_echo(&mut c, STATUS_OK, &mut ops);
    assert_eq!(c.sent, 100);
    assert_eq!(c.recvd, 100);
    assert_eq!(c.outstanding, 0);
    assert_eq!(c.latencies.len(), 100);
    assert!(ops.iter().all(|&o| o == OP_GET));
    assert!(c.native_state.is_empty());
}

#[test]
fn pure_put_native() {
    let mut c = client(false, 100, 10, 50);
    let mut ops = Vec::new();
    run_echo(&mut c, STATUS_OK, &mut ops);
    assert_eq!(c.sent, 50);
    assert_eq!(c.recvd, 50);
    assert_eq!(c.outstanding, 0);
    assert_eq!(c.latencies.len(), 50);
    assert!(ops.iter().all(|&o| o == OP_PUT));
}

#[test]
fn invoke_ok() {
    let mut c = client(true, 0, 10, 10);
    let mut ops = Vec::new();
    run_echo(&mut c, STATUS_OK, &mut ops);
    assert_eq!(c.recvd, 10);
    assert!(c.manager.is_empty());
    assert!(c.waiting.is_empty());
    assert_eq!(c.outstanding, 0);
    assert!(ops.iter().all(|&o| o == OP_INVOKE));
}

#[test]
fn invoke_pushback() {
    let mut c = client(true, 0, 10, 1);
    let frames = c.send(5000, &draws());
    assert_eq!(frames.len(), 1);
    let replies = vec![respond(&frames[0], STATUS_PUSHBACK, &[])];
    c.recv(&replies, 6000);
    assert!(c.manager.is_empty());
    assert_eq!(c.waiting.len(), 1);
    assert_eq!(c.recvd, 1);
    assert_eq!(c.outstanding, 0);
    assert_eq!(c.average_completion_cycles(), 0);
    let mut steps = 0;
    while let Some(task) = c.take_task() {
        assert!(task.resumed);
        let state = if steps < 2 {
            TaskState::Yielded
        } else {
            TaskState::Completed { cycles: 1500 }
        };
        assert!(c.execute_task(task, state, 7000).is_none());
        steps += 1;
    }
    assert_eq!(steps, 3);
    assert!(c.waiting.is_empty());
    assert_eq!(c.cycles_count, 1);
    assert!(c.average_completion_cycles() > 0);
}

#[test]
fn mixed_pushback_half() {
    let mut c = client(true, 0, 10, 1000);
    let mut now: u64 = 2000;
    let mut n: u64 = 0;
    while c.recvd < 1000 {
        let frames = c.send(now, &draws());
        let replies: Vec<Vec<u8>> = frames
            .iter()
            .map(|f| {
                n += 1;
                let status = if n % 2 == 0 { STATUS_PUSHBACK } else { STATUS_OK };
                respond(f, status, &[])
            })
            .collect();
        now += 50;
        c.recv(&replies, now);
        while let Some(task) = c.take_task() {
            c.execute_task(task, TaskState::Completed { cycles: NUM_MUL }, now);
        }
    }
    assert_eq!(c.recvd, 1000);
    assert_eq!(c.cycles_count, 500);
    let avg = c.average_completion_cycles();
    assert!(avg * 2 >= NUM_MUL && avg <= 2 * NUM_MUL);
}

#[test]
fn window_saturation() {
    let mut c = client(false, 0, 10, 100);
    let first = c.send(100, &draws());
    assert_eq!(first.len() as u64, WINDOW);
    assert_eq!(c.outstanding, WINDOW);
    // No responses: the window stays full and nothing more is sent.
    assert!(c.send(200, &draws()).is_empty());
    assert_eq!(c.sent, WINDOW);
    let replies: Vec<Vec<u8>> = first.iter().map(|f| respond(f, STATUS_OK, &[0])).collect();
    c.recv(&replies, 300);
    assert_eq!(c.outstanding, 0);
    let more = c.send(400, &draws());
    assert_eq!(more.len() as u64, WINDOW);
    assert_eq!(c.sent, 2 * WINDOW);
}

#[test]
fn stamps_strictly_increase_and_echo() {
    let mut c = client(false, 0, 10, 10);
    let frames = c.send(0, &draws());
    let stamps: Vec<u64> = frames
        .iter()
        .map(|f| u64::from_le_bytes(f[47..55].try_into().unwrap()))
        .collect();
    assert_eq!(stamps.len(), 10);
    for w in stamps.windows(2) {
        assert!(w[0] < w[1]);
    }
    assert!(stamps[0] > 1000);
    // A reply with an unknown stamp is dropped; the echoed ones complete their requests.
    let mut bogus = respond(&frames[0], STATUS_OK, &[0]);
    bogus[47..55].copy_from_slice(&999u64.to_le_bytes());
    c.recv(&vec![bogus], 10);
    assert_eq!(c.recvd, 0);
    let replies: Vec<Vec<u8>> = frames.iter().map(|f| respond(f, STATUS_OK, &[0])).collect();
    c.recv(&replies, u64::MAX);
    assert_eq!(c.recvd, 10);
    for (i, s) in stamps.iter().enumerate() {
        assert_eq!(c.latencies[i], u64::MAX - s);
    }
}

#[test]
fn finished_after_all_responses() {
    let mut c = client(false, 0, 10, 3);
    let frames = c.send(10, &draws());
    let replies: Vec<Vec<u8>> = frames.iter().map(|f| respond(f, STATUS_OK, &[0])).collect();
    c.recv(&replies, 500);
    assert_eq!(c.stop, 500);
    assert!(!c.finished);
    assert!(c.recv(&Vec::new(), 600).is_empty());
    assert!(c.finished);
}

#[test]
fn unknown_and_short_frames_are_dropped() {
    let mut c = client(true, 0, 10, 2);
    let frames = c.send(10, &draws());
    let mut odd = respond(&frames[0], STATUS_OK, &[]);
    odd[42] = 77;
    let short = frames[1][..40].to_vec();
    let put_reply = {
        let mut f = respond(&frames[1], STATUS_OK, &[]);
        f[42] = OP_PUT;
        f
    };
    c.recv(&vec![odd, short, put_reply], 20);
    assert_eq!(c.recvd, 0);
    assert_eq!(c.outstanding, 2);
    assert_eq!(c.manager.len(), 2);
}

#[test]
fn waiting_task_gets_fresh_stamp_and_wakes() {
    // Measure until two responses, so that the follow-up reply is still handled.
    let mut c = PushbackRecvSend::new(
        2,
        true,
        workload(30, 100, 10, 0),
        generator(true),
        1,
        true,
        1000,
    );
    let frames = c.send(100, &draws());
    c.recv(&vec![respond(&frames[0], STATUS_PUSHBACK, &[9, 9])], 200);
    let task = c.take_task().unwrap();
    assert_eq!(task.rwset, vec![9, 9]);
    let last = c.last_stamp;
    let frame = c
        .execute_task(task, TaskState::Waiting { key: vec![4, 3, 2, 1] }, 50)
        .unwrap();
    assert_eq!(c.last_stamp, last + 1);
    assert_eq!(frame[42], OP_GET);
    assert_eq!(&frame[47..55], &(last + 1).to_le_bytes());
    assert_eq!(&frame[frame.len() - 4..], &[4, 3, 2, 1]);
    assert!(c.parked.contains_key(&(last + 1)));
    let reply = respond(&frame, STATUS_OK, &[5, 6]);
    c.recv(&vec![reply], 300);
    assert!(c.parked.is_empty());
    let task = c.take_task().unwrap();
    assert_eq!(task.rwset, vec![9, 9, 5, 6]);
    // The follow-up reply is not a new completion.
    assert_eq!(c.recvd, 1);
}

#[test]
fn mul_wraps() {
    let c = client(false, 0, 10, 1);
    assert_eq!(c.mul(2, 4), 12);
    assert_eq!(c.mul(3, 0), 3);
    assert_eq!(c.mul(3, 1), 3);
    assert_eq!(c.mul(1, 21), 2_432_902_008_176_640_000);
    assert_eq!(c.mul(1, NUM_MUL), 0);
}

#[test]
fn latency_summary_sorts() {
    let mut c = client(false, 0, 10, 1);
    assert_eq!(c.latency_summary(), None);
    c.latencies = vec![50, 10, 40, 20, 30, 60];
    assert_eq!(c.latency_summary(), Some((35, 60)));
    assert_eq!(c.latencies, vec![10, 20, 30, 40, 50, 60]);
    c.latencies = vec![3, 1, 2];
    assert_eq!(c.latency_summary(), Some((2, 3)));
}

#[test]
fn add_and_remove_request() {
    let mut c = client(true, 0, 10, 1);
    c.add_request(&[1, 2, 3], 4, 1, 77);
    assert_eq!(c.manager[&77].req, vec![1, 2, 3]);
    assert_eq!(c.manager[&77].tenant, 4);
    c.remove_request(77);
    assert!(c.manager.is_empty());
    let t = TaskManager::new(&[1], 2, 1, 3);
    assert!(!t.resumed);
}

#[test]
fn frames_carry_the_drawn_tenant_and_key() {
    let mut c = client(false, 0, 10, 100);
    let ds = vec![(3u32, 7u32), (5, 2)];
    let frames = c.send(100, &ds);
    // Only as many requests as draws are sent.
    assert_eq!(frames.len(), 2);
    assert_eq!(c.sent, 2);
    for (f, &(t, k)) in frames.iter().zip(ds.iter()) {
        assert_eq!(f[42], OP_GET);
        assert_eq!(&f[43..47], &t.to_le_bytes());
        assert_eq!(&f[65..69], &k.to_le_bytes());
        assert!(f[69..95].iter().all(|&b| b == 0));
    }
    let mut inv = client(true, 0, 10, 100);
    let frames = inv.send(100, &vec![(2u32, 9u32)]);
    let f = &frames[0];
    assert_eq!(f[42], OP_INVOKE);
    assert_eq!(&f[63..71], b"pushback");
    assert_eq!(&f[71..79], &1u64.to_le_bytes());
    assert_eq!(&f[79..83], &9u32.to_le_bytes());
    let stamp = u64::from_le_bytes(f[47..55].try_into().unwrap());
    assert_eq!(inv.manager[&stamp].req, f[63..].to_vec());
    assert_eq!(inv.manager[&stamp].tenant, 2);
}

#[test]
fn empty_send_keeps_state() {
    let mut c = client(false, 0, 10, 5);
    let before = (c.sent, c.outstanding, c.last_stamp);
    assert!(c.send(99_999, &Vec::new()).is_empty());
    assert_eq!((c.sent, c.outstanding, c.last_stamp), before);
}
