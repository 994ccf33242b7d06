//! Query builder for the audit log.
//!
//! `LogQuery` accumulates optional filters; `matches()` evaluates them against
//! a single entry.

use crate::audit::AuditLog;
use vstd::prelude::*;

verus! {

/// Filter set for log queries.
#[derive(Debug)]
pub struct LogQuery {
    /// Inclusive lower bound on `entry.timestamp`. `0` is treated as unset.
    pub from_ts: u64,
    /// Inclusive upper bound on `entry.timestamp`. `0` is treated as unset.
    pub to_ts: u64,
    /// Optional event-type filter (numeric code).
    pub event_type: Option<u32>,
    /// Whether the `actor` filter is active.
    pub has_actor: bool,
    /// Actor filter.
    pub actor: String,
    /// Whether the `portfolio` filter is active.
    pub has_portfolio: bool,
    /// Portfolio filter.
    pub portfolio: String,
    /// Maximum number of entries returned.
    pub limit: u32,
    /// Reserved for future use (e.g. cursor-based pagination).
    pub cursor: u64,
}

/// Whether `entry` satisfies every active filter of `q`.
pub open spec fn query_accepts(q: LogQuery, entry: AuditLog) -> bool {
    &&& (q.from_ts == 0 || entry.timestamp >= q.from_ts)
    &&& (q.to_ts == 0 || entry.timestamp <= q.to_ts)
    &&& (q.event_type matches Some(t) ==> entry.event_type == t)
    &&& (q.has_actor ==> entry.actor@ == q.actor@)
    &&& (q.has_portfolio ==> entry.portfolio@ == q.portfolio@)
}

impl LogQuery {
    /// An empty query (every filter inactive) returning at most `limit`
    /// entries.
    pub fn new(limit: u32) -> (q: Self)
        ensures
            q.from_ts == 0,
            q.to_ts == 0,
            q.event_type is None,
            !q.has_actor,
            !q.has_portfolio,
            q.portfolio@ == "none"@,
            q.limit == limit,
            q.cursor == 0,
    {
        LogQuery {
            from_ts: 0,
            to_ts: 0,
            event_type: None,
            has_actor: false,
            actor: String::new(),
            has_portfolio: false,
            portfolio: String::from_str("none"),
            limit,
            cursor: 0,
        }
    }

    /// Restrict the query to events at or after `ts`.
    pub fn from_ts(self, ts: u64) -> (q: Self)
        ensures
            q == (LogQuery { from_ts: ts, ..self }),
    {
        let mut q = self;
        q.from_ts = ts;
        q
    }

    /// Restrict the query to events at or before `ts`.
    pub fn to_ts(self, ts: u64) -> (q: Self)
        ensures
            q == (LogQuery { to_ts: ts, ..self }),
    {
        let mut q = self;
        q.to_ts = ts;
        q
    }

    /// Restrict the query to one event type (by numeric code).
    pub fn event_type(self, t: u32) -> (q: Self)
        ensures
            q == (LogQuery { event_type: Some(t), ..self }),
    {
        let mut q = self;
        q.event_type = Some(t);
        q
    }

    /// Restrict the query to one actor.
    pub fn actor(self, a: String) -> (q: Self)
        ensures
            q == (LogQuery { has_actor: true, actor: a, ..self }),
    {
        let mut q = self;
        q.has_actor = true;
        q.actor = a;
        q
    }

    /// Restrict the query to one portfolio.
    pub fn portfolio(self, p: String) -> (q: Self)
        ensures
            q == (LogQuery { has_portfolio: true, portfolio: p, ..self }),
    {
        let mut q = self;
        q.has_portfolio = true;
        q.portfolio = p;
        q
    }

    /// Override the maximum number of entries returned.
    pub fn limit(self, limit: u32) -> (q: Self)
        ensures
            q == (LogQuery { limit, ..self }),
    {
        let mut q = self;
        q.limit = limit;
        q
    }

    /// Whether `entry` satisfies every active filter.
    pub fn matches(&self, entry: &AuditLog) -> (r: bool)
        ensures
            r == query_accepts(*self, *entry),
    {
        if self.from_ts != 0 && entry.timestamp < self.from_ts {
            return false;
        }
        if self.to_ts != 0 && entry.timestamp > self.to_ts {
            return false;
        }
        if let Some(t) = self.event_type {
            if entry.event_type != t {
                return false;
            }
        }
        if self.has_actor && entry.actor != self.actor {
            return false;
        }
        if self.has_portfolio && entry.portfolio != self.portfolio {
            return false;
        }
        true
    }
}

/// A fresh query accepts every entry.
pub proof fn lemma_new_query_accepts_all(q: LogQuery, entry: AuditLog)
    requires
        q.from_ts == 0,
        q.to_ts == 0,
        q.event_type is None,
        !q.has_actor,
        !q.has_portfolio,
    ensures
        query_accepts(q, entry),
{
}

} // verus!
