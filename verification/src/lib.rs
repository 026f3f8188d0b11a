//! Building blocks of a DNS latency benchmark: the query wire format, the
//! bounded-window scheduler, the per-query timing table and the statistics
//! drawn from it.

pub mod args;
pub mod codec;
pub mod data;
pub mod json_stats;
pub mod net;
pub mod query;
pub mod resolver;
pub mod scheduler;
pub mod statics;
pub mod stats;
pub mod text;
pub mod timing;
