//! The settings of a run where nothing else is asked for.

use vstd::prelude::*;

verus! {

/// How many domains a run takes from the list.
pub const DOMAINS_TO_INCLUDE: usize = 250;

/// How many readiness events one wait can report.
pub const MAX_EPOLL_EVENTS_RETURNED: isize = 340;

/// The longest a single readiness wait may be set to, in milliseconds.
pub const EPOLL_TIMEOUT_MILLIS: isize = 1000;

/// How many queries may be in flight at once.
pub const MAX_CONCURRENCY: usize = 8;

/// How long a run goes on without an answer, in milliseconds.
pub const COLLECTION_TIMEOUT_MS: i64 = 2000;

} // verus!
