//! The handler layer between connection handlers and workers. A handler
//! sends one request down a shard's job queue and interprets the single
//! reply; the queue plumbing lives outside the library, and these functions
//! fix what each reply — or its absence — means.

use vstd::prelude::*;

use crate::db::Value;
use crate::types::HorcruxError;
use crate::worker::Response;

verus! {

/// What a connection handler dispatches through: a `set`, a `get`, and a
/// snapshot broadcast.
pub trait Handler: Clone + SetHandler + GetHandler + SnapshotHandler {

}

pub trait SetHandler {
    fn set(&self, key: String, flags: u32, exptime: u32, data: String) -> Result<
        (),
        HorcruxError,
    >;
}

pub trait GetHandler {
    fn get(&self, key: &str) -> Option<Value>;
}

pub trait SnapshotHandler {
    fn snapshot(&self, wait: bool) -> Result<(), HorcruxError>;
}

/// Interprets a worker's reply to a `set`: only `Stored` is success; a
/// missing or mismatched reply is an internal fault.
pub fn set_reply(r: Option<Response>) -> (out: Result<(), HorcruxError>)
    ensures
        out is Ok <==> r matches Some(Response::Stored),
        out matches Err(e) ==> e is Internal,
{
    match r {
        Some(Response::Stored) => Ok(()),
        _ => Err(HorcruxError::Internal),
    }
}

/// Interprets a worker's reply to a `get`: a value reply is handed through
/// unchanged; a missing or mismatched reply reads as a miss.
pub fn get_reply(r: Option<Response>) -> (out: Option<Value>)
    ensures
        r matches Some(Response::Value(v)) ==> out == v,
        !(r matches Some(Response::Value(_))) ==> out is None,
{
    match r {
        Some(Response::Value(v)) => v,
        _ => None,
    }
}

/// A reply that acknowledges a snapshot request: accepted when not awaited,
/// finished when awaited.
pub open spec fn snapshot_ack(r: Option<Response>) -> bool {
    r matches Some(Response::SnapshotAccepted) || r matches Some(Response::SnapshotFinished)
}

/// Interprets a worker's reply to one snapshot request.
pub fn snapshot_reply(r: Option<Response>) -> (out: Result<(), HorcruxError>)
    ensures
        out is Ok <==> snapshot_ack(r),
        out matches Err(e) ==> e is Internal,
{
    match r {
        Some(Response::SnapshotAccepted) => Ok(()),
        Some(Response::SnapshotFinished) => Ok(()),
        _ => Err(HorcruxError::Internal),
    }
}

/// Aggregates a snapshot broadcast: the broadcast succeeded only if every
/// shard acknowledged its request.
pub fn broadcast_result(replies: &Vec<Option<Response>>) -> (out: Result<(), HorcruxError>)
    ensures
        out is Ok <==> (forall|i: int|
            0 <= i < replies@.len() ==> snapshot_ack(#[trigger] replies@[i])),
        out matches Err(e) ==> e is Internal,
{
    let mut i: usize = 0;
    while i < replies.len()
        invariant
            i <= replies@.len(),
            forall|k: int| 0 <= k < i ==> snapshot_ack(#[trigger] replies@[k]),
        decreases replies@.len() - i,
    {
        match &replies[i] {
            Some(Response::SnapshotAccepted) => (),
            Some(Response::SnapshotFinished) => (),
            _ => {
                return Err(HorcruxError::Internal);
            },
        }
        i = i + 1;
    }
    Ok(())
}

} // verus!
