//! Per-channel message retention: each monitored channel keeps at most
//! `limit` non-pinned messages, older ones being purged as new ones arrive.
//! The crate holds the retention state machine itself — the capped queue,
//! the pin reconciliation, the limit adjustment and the status report —
//! as pure transitions on plain values; callers perform the remote calls
//! that the returned outcomes ask for.

use vstd::prelude::*;

pub mod msg;
pub mod msgman;
pub mod numfmt;
pub mod render;
pub mod queue;

verus! {

/// Smallest limit that the `configure` command accepts.
pub const QUEUE_LIMIT_MIN: i64 = 5;

/// Largest limit that the `configure` command accepts.
pub const QUEUE_LIMIT_MAX: i64 = 500;

/// The validation rule of the `configure` command: only limits between
/// `QUEUE_LIMIT_MIN` and `QUEUE_LIMIT_MAX` are accepted; anything else is
/// rejected before any state changes.
pub fn configure_limit_valid(value: i64) -> (ok: bool)
    ensures
        ok <==> QUEUE_LIMIT_MIN <= value <= QUEUE_LIMIT_MAX,
{
    QUEUE_LIMIT_MIN <= value && value <= QUEUE_LIMIT_MAX
}

} // verus!
