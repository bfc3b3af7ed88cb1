//! Results handed back to the UI, and the clock properties new nodes get.
use vstd::prelude::*;

use crate::clock::{latency_text, GraphClock, PerformanceProfile};
use crate::ordset::strs_view;
use crate::text::{concat, own};

verus! {

/// `parts` joined with `sep` between neighbours.
pub open spec fn join_spec(parts: Seq<Seq<char>>, sep: Seq<char>) -> Seq<char>
    decreases parts.len(),
{
    if parts.len() == 0 {
        Seq::empty()
    } else if parts.len() == 1 {
        parts[0]
    } else {
        join_spec(parts.drop_last(), sep) + sep + parts.last()
    }
}

/// Result fragments for UI status lines.
#[derive(Debug)]
pub struct ApplyReport {
    pub messages: Vec<String>,
}

impl Default for ApplyReport {
    fn default() -> (r: Self)
        ensures
            r.messages@.len() == 0,
    {
        ApplyReport { messages: Vec::new() }
    }
}

impl ApplyReport {
    /// Append a message.
    pub fn push(&mut self, m: &str)
        ensures
            strs_view(final(self).messages@) == strs_view(old(self).messages@).push(m@),
    {
        self.messages.push(own(m));
        assert(strs_view(self.messages@) =~= strs_view(old(self).messages@).push(m@));
    }

    /// The messages joined with ` · `.
    pub fn join(&self) -> (r: String)
        ensures
            r@ == join_spec(strs_view(self.messages@), " · "@),
    {
        let ghost parts = strs_view(self.messages@);
        let mut out = String::new();
        let mut i: usize = 0;
        while i < self.messages.len()
            invariant
                i <= self.messages.len(),
                parts == strs_view(self.messages@),
                out@ == join_spec(parts.take(i as int), " · "@),
            decreases self.messages.len() - i,
        {
            assert(parts.take(i + 1).drop_last() =~= parts.take(i as int));
            assert(parts.take(i + 1).last() == self.messages@[i as int]@);
            if i == 0 {
                out = own(self.messages[i].as_str());
                assert(parts.take(1).len() == 1);
            } else {
                let with_sep = concat(out.as_str(), " · ");
                out = concat(with_sep.as_str(), self.messages[i].as_str());
            }
            i += 1;
        }
        assert(parts.take(self.messages.len() as int) =~= parts);
        out
    }
}

/// Clock and latency properties for node creation.
#[derive(Debug)]
pub struct ClockProps {
    pub sample_rate: u32,
    pub quantum: u32,
    pub soft_quantum: bool,
    pub suspend_timeout: u32,
    pub node_latency: String,
}

impl ClockProps {
    /// The properties of the live graph clock: suspend timeout 0 when forced,
    /// else 5; latency `"{quantum}/{rate}"`.
    pub fn from_graph_clock(c: &GraphClock) -> (r: Self)
        ensures
            r.sample_rate == c.sample_rate,
            r.quantum == c.quantum,
            r.soft_quantum == c.soft_quantum,
            r.suspend_timeout == (if c.force_suspend_timeout_zero { 0u32 } else { 5u32 }),
            r.node_latency@ == latency_text(c.quantum, c.sample_rate),
    {
        ClockProps {
            sample_rate: c.sample_rate,
            quantum: c.quantum,
            soft_quantum: c.soft_quantum,
            suspend_timeout: if c.force_suspend_timeout_zero {
                0
            } else {
                5
            },
            node_latency: c.node_latency_prop(),
        }
    }

    /// The properties of a performance profile's graph clock.
    pub fn from_profile(p: &PerformanceProfile) -> (r: Self)
        ensures
            r.sample_rate == (if p.sample_rate == 0 { 1 } else { p.sample_rate }),
            r.quantum == (if p.quantum == 0 { 1 } else { p.quantum }),
            r.soft_quantum == p.soft_quantum,
            r.suspend_timeout == (if p.force_suspend_timeout_zero { 0u32 } else { 5u32 }),
            r.node_latency@ == latency_text(r.quantum, r.sample_rate),
    {
        let c = p.graph_clock();
        ClockProps::from_graph_clock(&c)
    }
}

} // verus!
