//! Verified core of a desktop reminder application: the reminder store, its
//! durable text format, the fixed-format timestamp arithmetic, and the
//! periodic due-scan engine with its idempotent notification ledger.

pub mod codec;
pub mod datetime;
pub mod reminder;
pub mod repo;
pub mod sched;
pub mod text;

use vstd::prelude::*;

verus! {

/// Seconds past due after which a reminder is considered permanently elapsed.
pub const GRACE_SECONDS: i64 = 60;

/// Seconds before due within which a reminder becomes eligible for notification.
pub const NOTIFY_WINDOW_SECONDS: i64 = 300;

} // verus!
