//! What was read out of one session's transcript.

use vstd::prelude::*;

use crate::model::Subagent;

verus! {

/// Counts of tokens, by what they were for.
#[derive(Debug, Clone, Copy, PartialEq, Eq, Structural)]
pub struct Tokens {
    pub input: u64,
    pub output: u64,
    pub cache_read: u64,
    pub cached_input: u64,
    pub cache_write_5m: u64,
    pub cache_write_1h: u64,
    pub reasoning_output: u64,
}

impl Tokens {
    /// No tokens.
    pub fn none() -> (r: Tokens)
        ensures
            r == (Tokens {
                input: 0,
                output: 0,
                cache_read: 0,
                cached_input: 0,
                cache_write_5m: 0,
                cache_write_1h: 0,
                reasoning_output: 0,
            }),
    {
        Tokens {
            input: 0,
            output: 0,
            cache_read: 0,
            cached_input: 0,
            cache_write_5m: 0,
            cache_write_1h: 0,
            reasoning_output: 0,
        }
    }
}

/// Amounts of money, by what they were for.
#[derive(Debug, Clone, Copy, PartialEq, Eq, Structural)]
pub struct Costs {
    pub input: u64,
    pub output: u64,
    pub cache_read: u64,
    pub cached_input: u64,
    pub cache_write_5m: u64,
    pub cache_write_1h: u64,
    pub total: u64,
}

impl Costs {
    /// Nothing spent.
    pub fn none() -> (r: Costs)
        ensures
            r == (Costs {
                input: 0,
                output: 0,
                cache_read: 0,
                cached_input: 0,
                cache_write_5m: 0,
                cache_write_1h: 0,
                total: 0,
            }),
    {
        Costs {
            input: 0,
            output: 0,
            cache_read: 0,
            cached_input: 0,
            cache_write_5m: 0,
            cache_write_1h: 0,
            total: 0,
        }
    }
}

/// What one model did in a session.
pub struct ModelBreakdown {
    pub model: String,
    pub tokens: Tokens,
    pub costs: Costs,
    pub total: u64,
}

/// Prices per million tokens.
#[derive(Debug, Clone, Copy, PartialEq, Eq, Structural)]
pub struct Rates {
    pub input: u64,
    pub cached_input: u64,
    pub output: u64,
}

/// What an edit changed.
pub struct Delta {
    pub added: u64,
    pub removed: u64,
    pub hunks: Vec<String>,
}

/// One tool invocation.
pub struct ToolDetail {
    pub id: Option<String>,
    pub ts: String,
    /// The local time of day, which is shown where `ts` can be read.
    pub clock: String,
    /// What it was asked, short.
    pub d: String,
    /// What it was asked, in full.
    pub full: Option<String>,
    pub failed: bool,
    /// The subagent that made the call.
    pub origin: Option<String>,
    pub delta: Option<Delta>,
    pub dur_ms: Option<i64>,
    pub tokens_in: u64,
    pub tokens_out: u64,
    /// How many calls the turn made that the counts belong to.
    pub shared: u64,
}

/// What a session's tools did.
pub struct Metrics {
    pub tools: Vec<(String, u64)>,
    pub tool_details: Vec<(String, Vec<ToolDetail>)>,
    pub tool_count: u64,
    pub tool_errors: u64,
    pub lines_added: u64,
    pub lines_removed: u64,
    pub api_duration_ms: u64,
}

/// What the context window is filled with.
#[derive(Debug, Clone, Copy, PartialEq, Eq, Structural)]
pub struct ContextBreakdown {
    pub total: u64,
    pub startup: u64,
    pub tool_output: u64,
    pub tool_input: u64,
    pub attachments: u64,
    pub user_text: u64,
    pub assistant_text: u64,
    pub after_compaction: bool,
    pub superseded: bool,
}

impl ContextBreakdown {
    /// What the categories leave of the total, below zero where they overshoot.
    pub open spec fn gap(&self) -> int {
        self.total - self.startup - self.tool_output - self.tool_input - self.attachments - self.user_text
            - self.assistant_text
    }

    /// What the categories leave of the total, below zero where they overshoot.
    pub fn unaccounted(&self) -> (r: i128)
        ensures
            r == self.gap(),
    {
        self.total as i128 - self.startup as i128 - self.tool_output as i128 - self.tool_input as i128
            - self.attachments as i128 - self.user_text as i128 - self.assistant_text as i128
    }
}

/// The size of the window at one request.
pub struct CtxPoint {
    pub ts: String,
    pub window: u64,
    pub after_compaction: bool,
}

/// Everything the panels read of one session.
pub struct SessionData {
    pub error: Option<String>,
    pub last_model: String,
    pub reasoning_effort: Option<String>,
    pub tokens: Tokens,
    pub metrics: Metrics,
    pub costs: Costs,
    /// What was spent on each day, and by which model.
    pub costs_by_day: Vec<(String, Vec<(String, u64)>)>,
    /// What was spent in each hour, and by which model.
    pub costs_by_hour: Vec<(String, Vec<(String, u64)>)>,
    pub model_breakdown: Vec<ModelBreakdown>,
    pub rates: Option<Rates>,
    pub subagents: Vec<Subagent>,
    pub context_breakdown: Option<ContextBreakdown>,
    pub context_series: Vec<CtxPoint>,
    pub compactions: u64,
}

impl SessionData {
    /// A transcript with nothing in it.
    pub fn new() -> (r: SessionData)
        ensures
            r.error is None,
            r.last_model@.len() == 0,
            r.reasoning_effort is None,
            r.tokens.reasoning_output == 0,
            r.metrics.tools@.len() == 0,
            r.metrics.tool_details@.len() == 0,
            r.metrics.tool_count == 0,
            r.metrics.tool_errors == 0,
            r.metrics.lines_added == 0,
            r.metrics.lines_removed == 0,
            r.metrics.api_duration_ms == 0,
            r.costs.total == 0,
            r.costs_by_day@.len() == 0,
            r.costs_by_hour@.len() == 0,
            r.model_breakdown@.len() == 0,
            r.rates is None,
            r.subagents@.len() == 0,
            r.context_breakdown is None,
            r.context_series@.len() == 0,
            r.compactions == 0,
    {
        SessionData {
            error: None,
            last_model: String::new(),
            reasoning_effort: None,
            tokens: Tokens::none(),
            metrics: Metrics {
                tools: Vec::new(),
                tool_details: Vec::new(),
                tool_count: 0,
                tool_errors: 0,
                lines_added: 0,
                lines_removed: 0,
                api_duration_ms: 0,
            },
            costs: Costs::none(),
            costs_by_day: Vec::new(),
            costs_by_hour: Vec::new(),
            model_breakdown: Vec::new(),
            rates: None,
            subagents: Vec::new(),
            context_breakdown: None,
            context_series: Vec::new(),
            compactions: 0,
        }
    }
}

} // verus!
