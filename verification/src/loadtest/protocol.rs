//! What the orchestrator and the workers say to each other.
//!
//! A message goes as a frame: the length of its payload in four bytes, the lowest
//! first, and the payload.
use crate::text;
use vstd::prelude::*;
use vstd::string::StringExecFns;

verus! {

/// What the orchestrator asks of a worker.
#[derive(Debug, Clone, Copy, PartialEq, Eq, Structural)]
pub enum ToWorker {
    Spawn { count: u32 },
    Stop { count: u32 },
    Drain,
}

/// What a worker tells the orchestrator.
#[derive(Debug)]
pub enum ToOrchestrator {
    Hello { worker_id: String, started_at_unix: u64 },
    Metrics(WorkerMetrics),
    Drained,
}

/// What a worker counted.
#[derive(Debug, Clone, Copy, PartialEq, Eq, Structural)]
pub struct WorkerMetrics {
    pub bots_alive: u32,
    pub auth_ok: u64,
    pub auth_fail: u64,
    pub world_ok: u64,
    pub world_fail: u64,
    pub bytes_in_total: u64,
    pub bytes_out_total: u64,
    pub send_errors: u64,
    pub messages_in: u64,
    pub messages_out: u64,
}

impl Default for WorkerMetrics {
    fn default() -> (r: Self)
        ensures
            r == (WorkerMetrics {
                bots_alive: 0,
                auth_ok: 0,
                auth_fail: 0,
                world_ok: 0,
                world_fail: 0,
                bytes_in_total: 0,
                bytes_out_total: 0,
                send_errors: 0,
                messages_in: 0,
                messages_out: 0,
            }),
    {
        WorkerMetrics {
            bots_alive: 0,
            auth_ok: 0,
            auth_fail: 0,
            world_ok: 0,
            world_fail: 0,
            bytes_in_total: 0,
            bytes_out_total: 0,
            send_errors: 0,
            messages_in: 0,
            messages_out: 0,
        }
    }
}

/// No longer frame is read: 16 MiB.
pub const MAX_FRAME_BYTES: usize = 16_777_216;

/// The four bytes of a length, the lowest first.
pub open spec fn length_bytes(n: int) -> Seq<u8> {
    seq![(n % 256) as u8, (n / 256 % 256) as u8, (n / 65536 % 256) as u8, (n / 16777216) as u8]
}

/// The frame of a payload.
pub open spec fn frame_of(payload: Seq<u8>) -> Seq<u8> {
    length_bytes(payload.len() as int) + payload
}

/// The length that four bytes stand for.
pub open spec fn length_of(b: Seq<u8>) -> int {
    b[0] + b[1] * 256 + b[2] * 65536 + b[3] * 16777216
}

/// Put a payload into a frame; one whose length four bytes cannot hold has none.
pub fn encode_frame(payload: &Vec<u8>) -> (r: Option<Vec<u8>>)
    ensures
        match r {
            Some(f) => payload@.len() <= u32::MAX && f@ == frame_of(payload@),
            None => payload@.len() > u32::MAX,
        },
{
    if payload.len() > 0xffff_ffff {
        return None;
    }
    let n: u32 = payload.len() as u32;
    let mut f: Vec<u8> = Vec::new();
    f.push((n % 256) as u8);
    f.push((n / 256 % 256) as u8);
    f.push((n / 65536 % 256) as u8);
    f.push((n / 16777216) as u8);
    let ghost head = f@;
    assert(head =~= length_bytes(payload@.len() as int));
    let mut i: usize = 0;
    assert(f@ =~= head + payload@.take(0));
    while i < payload.len()
        invariant
            i <= payload@.len(),
            f@ == head + payload@.take(i as int),
        decreases payload.len() - i,
    {
        f.push(payload[i]);
        i += 1;
        assert(f@ =~= head + payload@.take(i as int));
    }
    assert(payload@.take(i as int) =~= payload@);
    Some(f)
}

/// How much payload follows the four bytes at the beginning of a frame; what is
/// said of a frame that is too long is handed out instead.
pub fn frame_len(b: [u8; 4]) -> (r: Result<usize, String>)
    ensures
        match r {
            Ok(n) => n == length_of(b@) && n <= MAX_FRAME_BYTES,
            Err(e) => length_of(b@) > MAX_FRAME_BYTES && e@ == "frame too large: "@ + text::decimal(
                length_of(b@) as nat,
            ),
        },
{
    let n: u64 = b[0] as u64 + b[1] as u64 * 256 + b[2] as u64 * 65536 + b[3] as u64 * 16777216;
    if n > 16_777_216 {
        let mut e = "frame too large: ".to_string();
        e.append(text::to_decimal(n).as_str());
        Err(e)
    } else {
        Ok(n as usize)
    }
}

/// Whoever reads a frame learns how long its payload is, and finds the payload
/// behind that.
pub proof fn a_frame_is_read_back(payload: Seq<u8>)
    requires
        payload.len() <= u32::MAX,
    ensures
        length_of(frame_of(payload).take(4)) == payload.len(),
        frame_of(payload).skip(4) == payload,
{
    let f = frame_of(payload);
    let n = payload.len() as int;
    assert(f.take(4) =~= length_bytes(n));
    assert(f.skip(4) =~= payload);
    assert(n / 256 == n / 65536 * 256 + n / 256 % 256);
    assert(n / 65536 == n / 16777216 * 256 + n / 65536 % 256);
}

/// A payload in its frame is read back: the first four bytes tell its length, and it follows.
pub proof fn what_is_framed_is_read(payload: &Vec<u8>, r: Option<Vec<u8>>, b: [u8; 4], n: Result<usize, String>)
    requires
        call_ensures(encode_frame, (payload,), r),
        r is Some ==> b@ == r->0@.take(4),
        call_ensures(frame_len, (b,), n),
    ensures
        payload@.len() <= u32::MAX <==> r is Some,
        r is Some ==> r->0@.len() == payload@.len() + 4 && r->0@.skip(4) == payload@,
        r is Some && payload@.len() <= 16 * 1024 * 1024 ==> n is Ok && n->Ok_0 == payload@.len(),
        r is Some && payload@.len() > 16 * 1024 * 1024 ==> n is Err,
{
    if payload@.len() <= u32::MAX {
        a_frame_is_read_back(payload@);
    }
}

} // verus!
