//! Engine for collecting code-review activity of an organization: cursor
//! pagination, date-window trimming, a bounded scheduler, a per-contributor
//! reduction and a weighted ranking. Network access and rendering are left to
//! the caller, which performs the requests that the state machines here ask for.

pub mod aggregate;
pub mod engine;
pub mod error;
pub mod history;
pub mod page;
pub mod record;
pub mod repos;
pub mod schedule;
pub mod score;
pub mod tally;
pub mod tally_laws;
pub mod time;
