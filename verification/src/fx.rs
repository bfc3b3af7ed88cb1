//! FX helper names per bus, the per-FX rebuild marks, and FX control-plane
//! timing lines.
use vstd::prelude::*;

use crate::domain::{bus_suffix_spec, fx_name_for_bus, post_name_for_bus};
use crate::table::Table;
use crate::text::{concat, concat3, decimal, ends_with, has_suffix, own, str_eq, u64_to_string};

verus! {

// ---------------------------------------------------------------------------
// Names (canonical only: the in-process host has no A/B generations)
// ---------------------------------------------------------------------------

/// The FX sink of a bus.
pub open spec fn fx_name_spec(bus: Seq<char>) -> Seq<char> {
    "buschain_fx_"@ + bus_suffix_spec(bus)
}

/// The post-FX sink of a bus.
pub open spec fn post_name_spec(bus: Seq<char>) -> Seq<char> {
    "buschain_post_"@ + bus_suffix_spec(bus)
}

pub fn canonical_fx(bus: &str) -> (r: String)
    ensures
        r@ == fx_name_spec(bus@),
{
    fx_name_for_bus(bus)
}

pub fn canonical_post(bus: &str) -> (r: String)
    ensures
        r@ == post_name_spec(bus@),
{
    post_name_for_bus(bus)
}

/// Alias: staging names are no longer used.
pub fn staging_fx(bus: &str) -> (r: String)
    ensures
        r@ == fx_name_spec(bus@),
{
    canonical_fx(bus)
}

/// Alias: staging names are no longer used.
pub fn staging_post(bus: &str) -> (r: String)
    ensures
        r@ == post_name_spec(bus@),
{
    canonical_post(bus)
}

/// Nothing to heal: live names are always canonical.
pub fn heal_live_gen(_bus: &str) {
}

pub fn live_fx_name(bus: &str) -> (r: String)
    ensures
        r@ == fx_name_spec(bus@),
{
    canonical_fx(bus)
}

pub fn live_post_name(bus: &str) -> (r: String)
    ensures
        r@ == post_name_spec(bus@),
{
    canonical_post(bus)
}

/// Nothing to record: live names are always canonical.
pub fn set_live_gen(_bus: &str, _fx: &str, _post: &str) {
}

/// Nothing to forget: live names are always canonical.
pub fn clear_live_gen(_bus: &str) {
}

/// Both slots resolve to the canonical names (A/B retired).
pub fn staging_pair(bus: &str) -> (r: (String, String))
    ensures
        r.0@ == fx_name_spec(bus@),
        r.1@ == post_name_spec(bus@),
{
    (canonical_fx(bus), canonical_post(bus))
}

/// A legacy staging helper name (`…__stg`).
pub fn is_staging_name(name: &str) -> (r: bool)
    ensures
        r == has_suffix(name@, "__stg"@),
{
    ends_with(name, "__stg")
}

/// An FX generation is live when the in-process host runs, or a legacy
/// Pulse helper sink (the canonical FX sink) remains.
pub fn any_gen_live(host_running: bool, fx_sink_present: bool) -> (r: bool)
    ensures
        r == (host_running || fx_sink_present),
{
    if host_running {
        return true;
    }
    fx_sink_present
}

// ---------------------------------------------------------------------------
// Rebuild marks
// ---------------------------------------------------------------------------

/// How long an FX sink still counts as rebuilding after a rebuild ends, in milliseconds.
pub const SETTLE_MS: u64 = 120;

/// FX sinks being rebuilt, and the settle deadlines of those just rebuilt.
pub struct BusyState {
    pub names: Table<String, ()>,
    /// Keep the mark briefly after a rebuild returns so the first
    /// post-spawn reconcile ticks do not race an empty link cache.
    pub settle_until: Table<String, u64>,
}

impl BusyState {
    /// Tables with distinct keys.
    pub open spec fn wf(&self) -> bool {
        self.names.wf() && self.settle_until.wf()
    }

    /// Whether `name` counts as rebuilding at `now_ms`.
    pub open spec fn is_marked(&self, name: Seq<char>, now_ms: u64) -> bool {
        self.names@.contains_key(name) || (self.settle_until@.contains_key(name) && now_ms
            < self.settle_until@[name])
    }

    /// No FX being rebuilt.
    pub fn new() -> (r: Self)
        ensures
            r.wf(),
            r.names@ == Map::<Seq<char>, ()>::empty(),
            r.settle_until@ == Map::<Seq<char>, u64>::empty(),
    {
        BusyState { names: Table::new(), settle_until: Table::new() }
    }
}

/// Mark (`on`) or unmark `fx_name` as rebuilding; unmarking starts the settle
/// window, which ends `SETTLE_MS` after `now_ms`.
pub fn mark_rebuilding(state: &mut BusyState, fx_name: &str, on: bool, now_ms: u64)
    requires
        old(state).wf(),
        now_ms <= u64::MAX - SETTLE_MS,
    ensures
        final(state).wf(),
        on ==> final(state).names@ == old(state).names@.insert(fx_name@, ())
            && final(state).settle_until@ == old(state).settle_until@.remove(fx_name@),
        !on ==> final(state).names@ == old(state).names@.remove(fx_name@)
            && final(state).settle_until@ == old(state).settle_until@.insert(fx_name@, (now_ms + SETTLE_MS) as u64),
{
    if on {
        state.names.insert(own(fx_name), ());
        let _ = state.settle_until.remove(&own(fx_name));
    } else {
        let _ = state.names.remove(&own(fx_name));
        state.settle_until.insert(own(fx_name), now_ms + SETTLE_MS);
    }
}

/// Whether `fx_name` is being rebuilt or still settling at `now_ms`; an
/// expired settle deadline is dropped.
pub fn is_rebuilding(state: &mut BusyState, fx_name: &str, now_ms: u64) -> (r: bool)
    requires
        old(state).wf(),
    ensures
        final(state).wf(),
        r == old(state).is_marked(fx_name@, now_ms),
        final(state).names@ == old(state).names@,
        final(state).settle_until@ == (if !old(state).names@.contains_key(fx_name@)
            && old(state).settle_until@.contains_key(fx_name@) && now_ms >= old(state).settle_until@[fx_name@] {
            old(state).settle_until@.remove(fx_name@)
        } else {
            old(state).settle_until@
        }),
{
    let key = own(fx_name);
    if state.names.contains_key(&key) {
        return true;
    }
    let until = match state.settle_until.get(&key) {
        Some(u) => *u,
        None => return false,
    };
    if now_ms < until {
        return true;
    }
    let _ = state.settle_until.remove(&key);
    false
}

/// Marks an FX sink rebuilding for a respawn critical section; `leave`
/// unmarks it again.
pub struct RebuildGuard {
    pub fx_name: String,
}

impl RebuildGuard {
    /// Mark `fx_name` as rebuilding.
    pub fn enter(state: &mut BusyState, fx_name: &str, now_ms: u64) -> (g: Self)
        requires
            old(state).wf(),
            now_ms <= u64::MAX - SETTLE_MS,
        ensures
            final(state).wf(),
            g.fx_name@ == fx_name@,
            final(state).names@ == old(state).names@.insert(fx_name@, ()),
            final(state).settle_until@ == old(state).settle_until@.remove(fx_name@),
    {
        mark_rebuilding(state, fx_name, true, now_ms);
        RebuildGuard { fx_name: own(fx_name) }
    }

    /// End the critical section: unmark and start the settle window.
    pub fn leave(self, state: &mut BusyState, now_ms: u64)
        requires
            old(state).wf(),
            now_ms <= u64::MAX - SETTLE_MS,
        ensures
            final(state).wf(),
            final(state).names@ == old(state).names@.remove(self.fx_name@),
            final(state).settle_until@ == old(state).settle_until@.insert(
                self.fx_name@,
                (now_ms + SETTLE_MS) as u64,
            ),
    {
        mark_rebuilding(state, self.fx_name.as_str(), false, now_ms);
    }
}

/// Marking `name` (what `mark_rebuilding(.., true, ..)` leaves)
/// makes `is_rebuilding` answer true at every time.
pub proof fn law_is_marked_while_rebuilding(before: BusyState, after: BusyState, name: Seq<char>, now_ms: u64)
    requires
        after.names@ == before.names@.insert(name, ()),
        after.settle_until@ == before.settle_until@.remove(name),
    ensures
        after.is_marked(name, now_ms),
{
}

/// Unmarking `name` at `t` (what `mark_rebuilding(.., false, t)`
/// leaves) keeps it marked exactly until `t + SETTLE_MS`.
pub proof fn law_mark_settles(before: BusyState, after: BusyState, name: Seq<char>, t: u64, now_ms: u64)
    requires
        t <= u64::MAX - SETTLE_MS,
        after.names@ == before.names@.remove(name),
        after.settle_until@ == before.settle_until@.insert(name, (t + SETTLE_MS) as u64),
    ensures
        after.is_marked(name, now_ms) == (now_ms < t + SETTLE_MS),
{
}

// ---------------------------------------------------------------------------
// Timing lines (`BUSCHAIN_FX_TRACE`)
// ---------------------------------------------------------------------------

/// Tracing is on when the variable is set to anything but empty, `0` or
/// `false`.
pub fn enabled(env_value: &Option<String>) -> (r: bool)
    ensures
        r == match env_value {
            Some(v) => v@ != "0"@ && v@ != "false"@ && v@.len() > 0,
            None => false,
        },
{
    match env_value {
        Some(v) => !str_eq(v.as_str(), "0") && !str_eq(v.as_str(), "false") && !v.as_str().is_empty(),
        None => false,
    }
}

/// `[buschain-fx-trace] {phase} {elapsed_ms}ms {detail}`.
pub open spec fn trace_line(phase: Seq<char>, detail: Seq<char>, elapsed_ms: u64) -> Seq<char> {
    "[buschain-fx-trace] "@ + phase + " "@ + decimal(elapsed_ms as nat) + "ms "@ + detail
}

/// The trace line for a phase, when tracing is on.
pub fn log(on: bool, phase: &str, detail: &str, elapsed_ms: u64) -> (r: Option<String>)
    ensures
        match r {
            Some(l) => on && l@ == trace_line(phase@, detail@, elapsed_ms),
            None => !on,
        },
{
    if !on {
        return None;
    }
    let head = concat3("[buschain-fx-trace] ", phase, " ");
    let ms = u64_to_string(elapsed_ms);
    let mid = concat3(head.as_str(), ms.as_str(), "ms ");
    Some(concat(mid.as_str(), detail))
}

/// Start timing `phase` at `now_ms`.
pub fn span(phase: &str, now_ms: u64) -> (r: FxSpan)
    ensures
        r.phase@ == phase@,
        r.start_ms == now_ms,
        !r.finished,
{
    FxSpan { phase: own(phase), start_ms: now_ms, finished: false }
}

/// A timed control-plane phase.
pub struct FxSpan {
    pub phase: String,
    pub start_ms: u64,
    pub finished: bool,
}

impl FxSpan {
    /// Milliseconds since the start (zero when the clock reads earlier).
    pub open spec fn elapsed(&self, now_ms: u64) -> u64 {
        if now_ms >= self.start_ms {
            (now_ms - self.start_ms) as u64
        } else {
            0
        }
    }

    /// Finish with `detail`: the trace line, when tracing is on.
    pub fn end(self, on: bool, detail: &str, now_ms: u64) -> (r: Option<String>)
        ensures
            match r {
                Some(l) => on && l@ == trace_line(self.phase@, detail@, self.elapsed(now_ms)),
                None => !on,
            },
    {
        let elapsed = now_ms.saturating_sub(self.start_ms);
        log(on, self.phase.as_str(), detail, elapsed)
    }

    /// Finish with `ok`.
    pub fn end_ok(self, on: bool, now_ms: u64) -> (r: Option<String>)
        ensures
            match r {
                Some(l) => on && l@ == trace_line(self.phase@, "ok"@, self.elapsed(now_ms)),
                None => !on,
            },
    {
        self.end(on, "ok", now_ms)
    }

    /// A span dropped unfinished reports `dropped`; a finished one nothing.
    pub fn dropped(self, on: bool, now_ms: u64) -> (r: Option<String>)
        ensures
            match r {
                Some(l) => on && !self.finished && l@ == trace_line(self.phase@, "dropped"@, self.elapsed(now_ms)),
                None => !on || self.finished,
            },
    {
        if self.finished {
            return None;
        }
        self.end(on, "dropped", now_ms)
    }
}

} // verus!
