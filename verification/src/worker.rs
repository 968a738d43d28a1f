//! The worker: the serial processor of one shard's job queue. Each request
//! taken from the queue is answered with exactly one response; `set` and
//! `get` act on the shard in place, while a snapshot request forks, and the
//! reply is a function of the fork and — when awaited — the child's exit.

use vstd::prelude::*;

use crate::db::{entry_wf, DB, Value, ValueV};

verus! {

/// A request as the worker receives it from its job queue.
#[derive(Debug)]
pub enum Request {
    Put { key: String, value: Value },
    Get { key: String },
    Snapshot { wait: bool },
}

/// The one response a worker sends back for each request it consumes.
#[derive(Debug)]
pub enum Response {
    Stored,
    Value(Option<Value>),
    SnapshotAccepted,
    SnapshotFinished,
    SnapshotFailed,
}

/// Mathematical view of a response.
pub enum ResponseV {
    Stored,
    Value(Option<ValueV>),
    SnapshotAccepted,
    SnapshotFinished,
    SnapshotFailed,
}

impl View for Response {
    type V = ResponseV;

    open spec fn view(&self) -> ResponseV {
        match self {
            Response::Stored => ResponseV::Stored,
            Response::Value(Some(v)) => ResponseV::Value(Some(v@)),
            Response::Value(None) => ResponseV::Value(None),
            Response::SnapshotAccepted => ResponseV::SnapshotAccepted,
            Response::SnapshotFinished => ResponseV::SnapshotFinished,
            Response::SnapshotFailed => ResponseV::SnapshotFailed,
        }
    }
}

/// A `set` request (`Put`) must fit the snapshot format; nothing else is
/// asked of a request.
pub open spec fn spec_request_wf(req: Request) -> bool {
    match req {
        Request::Put { key, value } => entry_wf(key@, value@),
        _ => true,
    }
}

/// Checks that a request fits the snapshot format, so that unverified
/// callers can test it before handing the request to the worker.
pub fn request_wf(req: &Request) -> (r: bool)
    ensures
        r == spec_request_wf(*req),
{
    match req {
        Request::Put { key, value } => key.as_str().as_bytes().len() <= 255
            && value.data.as_str().as_bytes().len() <= u32::MAX as usize,
        _ => true,
    }
}

/// The shard state after one request: `set` inserts, everything else leaves
/// the shard alone.
pub open spec fn spec_db_after(m: Map<Seq<char>, ValueV>, req: Request) -> Map<Seq<char>, ValueV> {
    match req {
        Request::Put { key, value } => m.insert(key@, value@),
        _ => m,
    }
}

/// The parent's snapshot policy: a failed fork is reported at once; a
/// fire-and-forget request is accepted as soon as the fork succeeds; an
/// awaited one reports how the child exited.
pub open spec fn spec_snapshot_response(wait: bool, fork_ok: bool, child_ok: bool) -> ResponseV {
    if !fork_ok {
        ResponseV::SnapshotFailed
    } else if !wait {
        ResponseV::SnapshotAccepted
    } else if child_ok {
        ResponseV::SnapshotFinished
    } else {
        ResponseV::SnapshotFailed
    }
}

/// The response owed for one request against shard state `m`.
pub open spec fn spec_reply(
    m: Map<Seq<char>, ValueV>,
    req: Request,
    fork_ok: bool,
    child_ok: bool,
) -> ResponseV {
    match req {
        Request::Put { .. } => ResponseV::Stored,
        Request::Get { key } => ResponseV::Value(
            if m.contains_key(key@) {
                Some(m[key@])
            } else {
                None
            },
        ),
        Request::Snapshot { wait } => spec_snapshot_response(wait, fork_ok, child_ok),
    }
}

/// The reply the parent sends for a snapshot request, given whether the fork
/// succeeded and — only consulted when `wait` — whether the child exited
/// with status 0.
pub fn snapshot_response(wait: bool, fork_ok: bool, child_ok: bool) -> (r: Response)
    ensures
        r@ == spec_snapshot_response(wait, fork_ok, child_ok),
{
    if !fork_ok {
        Response::SnapshotFailed
    } else if !wait {
        Response::SnapshotAccepted
    } else if child_ok {
        Response::SnapshotFinished
    } else {
        Response::SnapshotFailed
    }
}

/// One worker step: dispatches one request against the shard and produces
/// the one response owed for it. For a snapshot request the caller performs
/// the fork and reports its outcome; the shard itself never changes.
pub fn step(db: &mut DB, req: &Request, fork_ok: bool, child_ok: bool) -> (r: Response)
    requires
        old(db).wf(),
        spec_request_wf(*req),
    ensures
        final(db).wf(),
        final(db)@ == spec_db_after(old(db)@, *req),
        r@ == spec_reply(old(db)@, *req, fork_ok, child_ok),
{
    match req {
        Request::Put { key, value } => {
            db.insert(key.clone(), value.clone());
            Response::Stored
        },
        Request::Get { key } => {
            match db.get(key.as_str()) {
                Some(v) => Response::Value(Some(v.clone())),
                None => Response::Value(None),
            }
        },
        Request::Snapshot { wait } => snapshot_response(*wait, fork_ok, child_ok),
    }
}

/// The shard state after the first `i` requests of a queue.
pub open spec fn spec_db_after_prefix(
    m: Map<Seq<char>, ValueV>,
    reqs: Seq<Request>,
    i: int,
) -> Map<Seq<char>, ValueV>
    decreases i,
{
    if i <= 0 {
        m
    } else {
        spec_db_after(spec_db_after_prefix(m, reqs, i - 1), reqs[i - 1])
    }
}

/// Drains a queue of requests in arrival order. This is the ordering
/// guarantee a shard's clients observe: the i-th response answers the i-th
/// request, evaluated against the state the first i requests produced.
pub fn run_batch(db: &mut DB, reqs: &Vec<Request>, outcomes: &Vec<(bool, bool)>) -> (rs: Vec<
    Response,
>)
    requires
        old(db).wf(),
        outcomes@.len() == reqs@.len(),
        forall|i: int| 0 <= i < reqs@.len() ==> spec_request_wf(#[trigger] reqs@[i]),
    ensures
        final(db).wf(),
        rs@.len() == reqs@.len(),
        final(db)@ == spec_db_after_prefix(old(db)@, reqs@, reqs@.len() as int),
        forall|i: int|
            0 <= i < reqs@.len() ==> (#[trigger] rs@[i])@ == spec_reply(
                spec_db_after_prefix(old(db)@, reqs@, i),
                reqs@[i],
                outcomes@[i].0,
                outcomes@[i].1,
            ),
{
    let mut rs: Vec<Response> = Vec::new();
    let mut i: usize = 0;
    while i < reqs.len()
        invariant
            i <= reqs@.len(),
            outcomes@.len() == reqs@.len(),
            forall|k: int| 0 <= k < reqs@.len() ==> spec_request_wf(#[trigger] reqs@[k]),
            db.wf(),
            rs@.len() == i,
            db@ == spec_db_after_prefix(old(db)@, reqs@, i as int),
            forall|k: int|
                0 <= k < i ==> (#[trigger] rs@[k])@ == spec_reply(
                    spec_db_after_prefix(old(db)@, reqs@, k),
                    reqs@[k],
                    outcomes@[k].0,
                    outcomes@[k].1,
                ),
        decreases reqs@.len() - i,
    {
        let r = step(db, &reqs[i], outcomes[i].0, outcomes[i].1);
        rs.push(r);
        i = i + 1;
    }
    rs
}

/// Law: a `set` is answered `Stored`, and the next `get` of the same key on
/// the same shard answers exactly the value that was set.
pub proof fn lemma_set_then_get(
    m: Map<Seq<char>, ValueV>,
    key1: String,
    key2: String,
    value: Value,
    f1: bool,
    c1: bool,
    f2: bool,
    c2: bool,
)
    requires
        key1@ == key2@,
    ensures
        ({
            let set_req = Request::Put { key: key1, value };
            let m1 = spec_db_after(m, set_req);
            &&& spec_reply(m, set_req, f1, c1) == ResponseV::Stored
            &&& spec_reply(m1, Request::Get { key: key2 }, f2, c2) == ResponseV::Value(
                Some(value@),
            )
        }),
{
}

/// Law: setting the same key twice overwrites; a `get` afterwards answers
/// the value written last.
pub proof fn lemma_double_set_overwrites(
    m: Map<Seq<char>, ValueV>,
    key1: String,
    key2: String,
    key3: String,
    v1: Value,
    v2: Value,
    f: bool,
    c: bool,
)
    requires
        key1@ == key2@,
        key2@ == key3@,
    ensures
        ({
            let m1 = spec_db_after(m, Request::Put { key: key1, value: v1 });
            let m2 = spec_db_after(m1, Request::Put { key: key2, value: v2 });
            spec_reply(m2, Request::Get { key: key3 }, f, c) == ResponseV::Value(Some(v2@))
        }),
{
}

/// Law: a snapshot request never changes the shard, so two snapshots with no
/// mutation between them dump the same entries and write identical bytes.
pub proof fn lemma_snapshot_leaves_shard(m: Map<Seq<char>, ValueV>, wait: bool)
    ensures
        spec_db_after(m, Request::Snapshot { wait }) == m,
{
}

} // verus!
