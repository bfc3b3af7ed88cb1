//! Backend decisions: native-first linking with its Pulse fallback, capture
//! hop verification, filter-chain clock fragments, node-id caching, and the
//! CLI commands the backends issue.
use vstd::prelude::*;

use crate::clock::{latency_text, GraphClock};
use crate::graph::GraphView;
use crate::null_sink::{argv_view, cmds_view, lock_text};
use crate::table::Table;
use crate::text::{
    concat, concat3, decimal, has_prefix, lines, lines_spec, opt_view, own, push_char, split_char,
    split_spec, starts_with, str_eq, strip_prefix, strip_prefix_spec, to_chars, trim, trim_spec,
    u32_to_string, without_suffix,
};

verus! {

/// In-process FX hosts spawn no `pipewire -c` children: nothing to stop,
/// own or back off.
#[derive(Debug)]
pub struct FilterChainRuntime;

impl FilterChainRuntime {
    pub fn new() -> (r: Self) {
        FilterChainRuntime
    }

    /// Nothing to stop: the runtime is unchanged.
    pub fn stop_all(&mut self)
        ensures
            *final(self) == *old(self),
    {
    }

    /// Nothing to stop: the runtime is unchanged.
    pub fn stop_one(&mut self, _fx_name: &str)
        ensures
            *final(self) == *old(self),
    {
    }

    pub fn owns_live(&mut self, _fx_name: &str) -> (r: bool)
        ensures
            !r,
    {
        false
    }

    pub fn spawn_in_backoff(&mut self, _fx_name: &str) -> (r: bool)
        ensures
            !r,
    {
        false
    }
}

/// The CLI (`pactl` / `pw-link`) backend.
#[derive(Debug)]
pub struct PipewireCliBackend;

impl PipewireCliBackend {
    pub fn new() -> (r: Self) {
        PipewireCliBackend
    }
}

/// The native registry backend (Pulse CLI for levels).
#[derive(Debug)]
pub struct PipewireNativeBackend;

impl PipewireNativeBackend {
    pub fn new() -> (r: Self) {
        PipewireNativeBackend
    }
}

/// `pactl` commands gating the outbound `{bus}.monitor` source (muted at 0%)
/// or opening it (unmuted at 100%), without muting the app-facing sink.
pub open spec fn gate_cmds_spec(bus: Seq<char>, gated: bool) -> Seq<Seq<Seq<char>>> {
    let mon = bus + ".monitor"@;
    if gated {
        seq![seq!["set-source-mute"@, mon, "1"@], seq!["set-source-volume"@, mon, "0%"@]]
    } else {
        seq![seq!["set-source-mute"@, mon, "0"@], seq!["set-source-volume"@, mon, "100%"@]]
    }
}

fn argv3(a: &str, b: &str, c: &str) -> (r: Vec<String>)
    ensures
        argv_view(r@) == seq![a@, b@, c@],
{
    let v = vec![own(a), own(b), own(c)];
    assert(argv_view(v@) =~= seq![a@, b@, c@]);
    v
}

/// The `pactl` commands that gate or open a bus monitor (best effort each).
pub fn gate_bus_monitor(bus: &str, gated: bool) -> (r: Vec<Vec<String>>)
    ensures
        cmds_view(r@) == gate_cmds_spec(bus@, gated),
{
    let mon = concat(bus, ".monitor");
    let r = if gated {
        vec![argv3("set-source-mute", mon.as_str(), "1"), argv3("set-source-volume", mon.as_str(), "0%")]
    } else {
        vec![argv3("set-source-mute", mon.as_str(), "0"), argv3("set-source-volume", mon.as_str(), "100%")]
    };
    assert(cmds_view(r@) =~= gate_cmds_spec(bus@, gated));
    r
}

/// `BUSCHAIN_ALLOW_PULSE_CAPTURE` enables the Pulse fallback when it is
/// `1`, `true`, `TRUE`, `yes` or `YES`.
pub fn allow_pulse_capture_fallback(env_value: &Option<String>) -> (r: bool)
    ensures
        r == match env_value {
            Some(v) => v@ == "1"@ || v@ == "true"@ || v@ == "TRUE"@ || v@ == "yes"@ || v@ == "YES"@,
            None => false,
        },
{
    match env_value {
        Some(v) => {
            let s = v.as_str();
            str_eq(s, "1") || str_eq(s, "true") || str_eq(s, "TRUE") || str_eq(s, "yes") || str_eq(s, "YES")
        },
        None => false,
    }
}

/// What the native control plane made of a link request.
#[derive(Debug, PartialEq, Eq, Structural)]
pub enum NativeLink {
    /// The plane is not up.
    NotReady,
    /// The RPC failed.
    Failed,
    /// The RPC succeeded; whether the hop was seen live in the registry
    /// within the short wait.
    Linked { live: bool },
}

/// What to do after the native attempt.
#[derive(Debug)]
pub enum LinkNext {
    /// The hop is live.
    Done,
    /// Give up with this error.
    Fail(String),
    /// Give up with the native error.
    NativeError,
    /// Link through the CLI backend.
    UseCli,
}

/// One end of the hop is an FX sink (`.monitor` ignored).
pub open spec fn touches_fx(source: Seq<char>, sink: Seq<char>) -> bool {
    has_prefix(without_suffix(sink, ".monitor"@), "buschain_fx_"@) || has_prefix(
        without_suffix(source, ".monitor"@),
        "buschain_fx_"@,
    )
}

/// The decision after a native link attempt; `force` picks the wording.
pub open spec fn link_next_ok(r: LinkNext, source: Seq<char>, sink: Seq<char>, native: NativeLink, fallback: bool, force: bool) -> bool {
    match native {
        NativeLink::NotReady => r is UseCli,
        NativeLink::Linked { live } => if live {
            r is Done
        } else if !fallback {
            r matches LinkNext::Fail(m) && m@ == (if force {
                "native force-ensure ok but hop not live "@
            } else {
                "native ensure ok but hop not live "@
            }) + source + "→"@ + sink
        } else {
            r is UseCli
        },
        NativeLink::Failed => if touches_fx(source, sink) || !fallback {
            r is NativeError
        } else {
            r is UseCli
        },
    }
}

fn link_next(source: &str, sink: &str, native: NativeLink, fallback_allowed: bool, force: bool) -> (r: LinkNext)
    ensures
        link_next_ok(r, source@, sink@, native, fallback_allowed, force),
{
    match native {
        NativeLink::NotReady => LinkNext::UseCli,
        NativeLink::Linked { live } => {
            if live {
                LinkNext::Done
            } else if !fallback_allowed {
                let head = if force {
                    "native force-ensure ok but hop not live "
                } else {
                    "native ensure ok but hop not live "
                };
                let a = concat(head, source);
                LinkNext::Fail(concat3(a.as_str(), "→", sink))
            } else {
                LinkNext::UseCli
            }
        },
        NativeLink::Failed => {
            let dst = crate::text::drop_suffix(sink, ".monitor");
            let src = crate::text::drop_suffix(source, ".monitor");
            if starts_with(dst.as_str(), "buschain_fx_") || starts_with(src.as_str(), "buschain_fx_") {
                return LinkNext::NativeError;
            }
            if !fallback_allowed {
                return LinkNext::NativeError;
            }
            LinkNext::UseCli
        },
    }
}

/// Native registry links first; the Pulse/CLI path only when the registry
/// is down or the escape hatch allows it (never for FX sinks).
pub fn ensure_link(source: &str, sink: &str, native: NativeLink, fallback_allowed: bool) -> (r: LinkNext)
    ensures
        link_next_ok(r, source@, sink@, native, fallback_allowed, false),
{
    link_next(source, sink, native, fallback_allowed, false)
}

/// The same decision for a force-recreated hop.
pub fn ensure_link_force(source: &str, sink: &str, native: NativeLink, fallback_allowed: bool) -> (r: LinkNext)
    ensures
        link_next_ok(r, source@, sink@, native, fallback_allowed, true),
{
    link_next(source, sink, native, fallback_allowed, true)
}

/// A rate-bridge bus.
pub open spec fn is_rate_bridge_name(d: Seq<char>) -> bool {
    has_prefix(d, "buschain_rs_"@) || has_prefix(d, "shadow_rs_"@)
}

/// A capture hop is verified live: directly, or through some rate bridge
/// that a desired route feeds from `source`.
pub open spec fn capture_hop_spec(view: GraphView, source: Seq<char>, bus: Seq<char>, routes: Seq<(Seq<char>, Seq<char>)>) -> bool {
    crate::ports::link_is_live_spec(view, source, bus) || exists|k: int|
        0 <= k < routes.len() && (#[trigger] routes[k]).0 == source && is_rate_bridge_name(routes[k].1)
            && crate::ports::link_is_live_spec(view, source, routes[k].1) && crate::ports::link_is_live_spec(
            view,
            routes[k].1 + ".monitor"@,
            bus,
        )
}

/// Capture hop verified live in the registry: `source`→`bus` directly, or
/// `source`→rate bridge and bridge monitor→`bus` for a desired route.
pub fn capture_hop_verified(view: &GraphView, source: &str, bus: &str, routes: &Vec<(String, String)>) -> (r: bool)
    requires
        view.wf(),
    ensures
        r == capture_hop_spec(*view, source@, bus@, crate::ordset::pairs_view(routes@)),
{
    if crate::ports::link_is_live(view, source, bus) {
        return true;
    }
    let ghost rv = crate::ordset::pairs_view(routes@);
    let mut i: usize = 0;
    while i < routes.len()
        invariant
            i <= routes.len(),
            view.wf(),
            rv == crate::ordset::pairs_view(routes@),
            !crate::ports::link_is_live_spec(*view, source@, bus@),
            forall|k: int| 0 <= k < i ==> !((#[trigger] rv[k]).0 == source@ && is_rate_bridge_name(rv[k].1)
                && crate::ports::link_is_live_spec(*view, source@, rv[k].1) && crate::ports::link_is_live_spec(
                *view,
                rv[k].1 + ".monitor"@,
                bus@,
            )),
        decreases routes.len() - i,
    {
        let s = routes[i].0.as_str();
        let d = routes[i].1.as_str();
        assert(rv[i as int] == (s@, d@));
        if str_eq(s, source) && (starts_with(d, "buschain_rs_") || starts_with(d, "shadow_rs_")) {
            let mon = concat(d, ".monitor");
            if crate::ports::link_is_live(view, source, d) && crate::ports::link_is_live(view, mon.as_str(), bus) {
                return true;
            }
        }
        i += 1;
    }
    false
}

/// The filter-chain clock fragment.
pub open spec fn chain_clock_spec(rate: u32, quantum: u32, soft: bool) -> Seq<char> {
    "\n        audio.rate            = "@ + decimal(rate as nat) + "\n        node.rate             = 1/"@
        + decimal(rate as nat) + "\n        node.latency          = "@ + latency_text(quantum, rate)
        + "\n        node.lock-quantum     = "@ + lock_text(soft) + "\n        node.force-quantum    = "@
        + decimal(quantum as nat)
}

/// Filter-chain conf fragment for the clock (capture and playback props).
pub fn filter_chain_clock_props(clock: &GraphClock) -> (r: String)
    ensures
        r@ == chain_clock_spec(clock.sample_rate, clock.quantum, clock.soft_quantum),
{
    let latency = clock.node_latency_prop();
    let rate = u32_to_string(clock.sample_rate);
    let q = u32_to_string(clock.quantum);
    let a = concat("\n        audio.rate            = ", rate.as_str());
    let b = concat3(a.as_str(), "\n        node.rate             = 1/", rate.as_str());
    let c = concat3(b.as_str(), "\n        node.latency          = ", latency.as_str());
    let soft_inv = if clock.soft_quantum {
        "false"
    } else {
        "true"
    };
    let d = concat3(c.as_str(), "\n        node.lock-quantum     = ", soft_inv);
    concat3(d.as_str(), "\n        node.force-quantum    = ", q.as_str())
}

/// The clock aligned to a live sink's running rate (when known and not 0),
/// with its filter-chain fragment.
pub fn filter_chain_clock_for_sink(clock: &GraphClock, live_rate: Option<u32>) -> (r: (GraphClock, String))
    ensures
        r.0.sample_rate == (match live_rate {
            Some(x) => if x > 0 { x } else { clock.sample_rate },
            None => clock.sample_rate,
        }),
        r.0.quantum == clock.quantum,
        r.0.soft_quantum == clock.soft_quantum,
        r.0.force_suspend_timeout_zero == clock.force_suspend_timeout_zero,
        r.0.bound_device@ == clock.bound_device@,
        r.1@ == chain_clock_spec(r.0.sample_rate, r.0.quantum, r.0.soft_quantum),
{
    let rate = match live_rate {
        Some(x) => if x > 0 {
            x
        } else {
            clock.sample_rate
        },
        None => clock.sample_rate,
    };
    let aligned = GraphClock {
        sample_rate: rate,
        quantum: clock.quantum,
        soft_quantum: clock.soft_quantum,
        force_suspend_timeout_zero: clock.force_suspend_timeout_zero,
        bound_device: own(clock.bound_device.as_str()),
    };
    let frag = filter_chain_clock_props(&aligned);
    (aligned, frag)
}

/// `s` with `"` escaped.
pub open spec fn escape_quotes(s: Seq<char>) -> Seq<char>
    decreases s.len(),
{
    if s.len() == 0 {
        Seq::empty()
    } else if s.last() == '"' {
        escape_quotes(s.drop_last()).push('\\').push('"')
    } else {
        escape_quotes(s.drop_last()).push(s.last())
    }
}

fn escape_quotes_exec(s: &str) -> (r: String)
    ensures
        r@ == escape_quotes(s@),
{
    let x = to_chars(s);
    let mut out = String::new();
    let mut i: usize = 0;
    while i < x.len()
        invariant
            i <= x.len(),
            x@ == s@,
            out@ == escape_quotes(s@.take(i as int)),
        decreases x.len() - i,
    {
        assert(s@.take(i + 1).drop_last() =~= s@.take(i as int));
        assert(s@.take(i + 1).last() == x@[i as int]);
        if x[i] == '"' {
            push_char(&mut out, '\\');
            push_char(&mut out, '"');
        } else {
            push_char(&mut out, x[i]);
        }
        i += 1;
    }
    assert(s@.take(x.len() as int) =~= s@);
    out
}

/// `key = "value"` entries, space separated.
pub open spec fn props_entries(e: Seq<(Seq<char>, Seq<char>)>) -> Seq<char>
    decreases e.len(),
{
    if e.len() == 0 {
        Seq::empty()
    } else {
        let prev = props_entries(e.drop_last());
        let item = e.last().0 + " = \""@ + escape_quotes(e.last().1) + "\""@;
        if e.len() == 1 {
            item
        } else {
            prev + " "@ + item
        }
    }
}

/// The `pw-cli s <node> Props` body for key/value props; none when there is
/// nothing to set.
pub fn node_props_body(entries: &Vec<(String, String)>) -> (r: Option<String>)
    ensures
        match r {
            Some(b) => entries@.len() > 0 && b@ == "{ "@ + props_entries(crate::ordset::pairs_view(entries@)) + " }"@,
            None => entries@.len() == 0,
        },
{
    if entries.len() == 0 {
        return None;
    }
    let ghost ev = crate::ordset::pairs_view(entries@);
    let mut body = String::new();
    let mut i: usize = 0;
    while i < entries.len()
        invariant
            i <= entries.len(),
            ev == crate::ordset::pairs_view(entries@),
            body@ == props_entries(ev.take(i as int)),
        decreases entries.len() - i,
    {
        assert(ev.take(i + 1).drop_last() =~= ev.take(i as int));
        assert(ev.take(i + 1).last() == ev[i as int]);
        assert(ev[i as int] == (entries@[i as int].0@, entries@[i as int].1@));
        let v = escape_quotes_exec(entries[i].1.as_str());
        let item = concat(concat3(entries[i].0.as_str(), " = \"", v.as_str()).as_str(), "\"");
        if i == 0 {
            body = item;
        } else {
            body = concat3(body.as_str(), " ", item.as_str());
        }
        i += 1;
    }
    assert(ev.take(entries.len() as int) =~= ev);
    Some(concat3("{ ", body.as_str(), " }"))
}

/// Devices of `pactl list short sinks|sources`: rows with a name, described
/// by their fourth column (or their name).
pub open spec fn devices_spec(ls: Seq<Seq<char>>) -> Seq<(Seq<char>, Seq<char>)>
    decreases ls.len(),
{
    if ls.len() == 0 {
        Seq::empty()
    } else {
        let r = devices_spec(ls.drop_last());
        let parts = split_spec(ls.last(), '\t');
        if parts.len() < 2 {
            r
        } else {
            r.push((parts[1], if parts.len() >= 4 { parts[3] } else { parts[1] }))
        }
    }
}

/// Devices of a `pactl list short sinks|sources` listing: (name, description).
pub fn list_devices(listing: &str) -> (r: Vec<(String, String)>)
    ensures
        crate::ordset::pairs_view(r@) == devices_spec(lines_spec(listing@)),
{
    let ls = lines(listing);
    let ghost lv = ls@.map_values(|t: String| t@);
    let mut v: Vec<(String, String)> = Vec::new();
    let mut i: usize = 0;
    assert(crate::ordset::pairs_view(v@) =~= devices_spec(lv.take(0)));
    while i < ls.len()
        invariant
            i <= ls.len(),
            lv == ls@.map_values(|t: String| t@),
            crate::ordset::pairs_view(v@) == devices_spec(lv.take(i as int)),
        decreases ls.len() - i,
    {
        assert(lv.take(i + 1).drop_last() =~= lv.take(i as int));
        assert(lv.take(i + 1).last() == ls@[i as int]@);
        let parts = split_char(ls[i].as_str(), '\t');
        let ghost pv = parts@.map_values(|t: String| t@);
        assert(pv == split_spec(ls@[i as int]@, '\t'));
        if parts.len() >= 2 {
            assert(pv[1] == parts@[1]@);
            let desc = if parts.len() >= 4 {
                assert(pv[3] == parts@[3]@);
                own(parts[3].as_str())
            } else {
                own(parts[1].as_str())
            };
            v.push((own(parts[1].as_str()), desc));
        }
        assert(crate::ordset::pairs_view(v@) =~= devices_spec(lv.take(i + 1)));
        i += 1;
    }
    assert(lv.take(ls.len() as int) =~= lv);
    v
}

/// The default sink of `pactl info`: the first non-empty trimmed value of a
/// `Default Sink:` line.
pub open spec fn default_sink_spec(ls: Seq<Seq<char>>) -> Option<Seq<char>>
    decreases ls.len(),
{
    if ls.len() == 0 {
        None
    } else {
        match strip_prefix_spec(ls[0], "Default Sink:"@) {
            Some(rest) if trim_spec(rest).len() > 0 => Some(trim_spec(rest)),
            _ => default_sink_spec(ls.drop_first()),
        }
    }
}

/// The default sink named by `pactl info`.
pub fn default_sink_from_info(info: &str) -> (r: Option<String>)
    ensures
        opt_view(r) == default_sink_spec(lines_spec(info@)),
{
    let ls = lines(info);
    let ghost lv = ls@.map_values(|t: String| t@);
    let mut i: usize = 0;
    assert(lv.skip(0) =~= lv);
    while i < ls.len()
        invariant
            i <= ls.len(),
            lv == ls@.map_values(|t: String| t@),
            lv == lines_spec(info@),
            default_sink_spec(lv) == default_sink_spec(lv.skip(i as int)),
        decreases ls.len() - i,
    {
        assert(lv.skip(i as int)[0] == ls@[i as int]@);
        assert(lv.skip(i as int).drop_first() =~= lv.skip(i + 1));
        match strip_prefix(ls[i].as_str(), "Default Sink:") {
            Some(rest) => {
                let name = trim(rest.as_str());
                if !name.as_str().is_empty() {
                    return Some(name);
                }
            },
            None => {},
        }
        i += 1;
    }
    None
}

/// Rate bridges among the listed sinks (the ones to unload).
pub open spec fn bridges_spec(names: Seq<Seq<char>>) -> Seq<Seq<char>>
    decreases names.len(),
{
    if names.len() == 0 {
        Seq::empty()
    } else {
        let r = bridges_spec(names.drop_last());
        if is_rate_bridge_name(names.last()) {
            r.push(names.last())
        } else {
            r
        }
    }
}

/// The rate-bridge sinks (`buschain_rs_*`, `shadow_rs_*`) among `sinks`.
pub fn teardown_rate_bridges(sinks: &Vec<(String, String)>) -> (r: Vec<String>)
    ensures
        argv_view(r@) == bridges_spec(crate::ordset::pairs_view(sinks@).map_values(|p: (Seq<char>, Seq<char>)| p.0)),
{
    let ghost names = crate::ordset::pairs_view(sinks@).map_values(|p: (Seq<char>, Seq<char>)| p.0);
    let mut out: Vec<String> = Vec::new();
    let mut i: usize = 0;
    assert(argv_view(out@) =~= bridges_spec(names.take(0)));
    while i < sinks.len()
        invariant
            i <= sinks.len(),
            names == crate::ordset::pairs_view(sinks@).map_values(|p: (Seq<char>, Seq<char>)| p.0),
            argv_view(out@) == bridges_spec(names.take(i as int)),
        decreases sinks.len() - i,
    {
        assert(names.take(i + 1).drop_last() =~= names.take(i as int));
        assert(names.take(i + 1).last() == sinks@[i as int].0@);
        let n = sinks[i].0.as_str();
        if starts_with(n, "buschain_rs_") || starts_with(n, "shadow_rs_") {
            out.push(own(n));
        }
        assert(argv_view(out@) =~= bridges_spec(names.take(i + 1)));
        i += 1;
    }
    assert(names.take(sinks.len() as int) =~= names);
    out
}

// ---------------------------------------------------------------------------
// Node ids by name (`pw-cli ls Node` is the dominant cost of knob pushes)
// ---------------------------------------------------------------------------

/// A cached id is trusted this long (ms).
pub const NODE_ID_TTL_MS: u64 = 45_000;

/// Node ids learned by name, with when they were learned.
#[derive(Debug)]
pub struct NodeIdCache {
    pub entries: Table<String, (u32, u64)>,
}

impl NodeIdCache {
    pub fn new() -> (r: Self)
        ensures
            r.entries.wf(),
            r.entries@ == Map::<Seq<char>, (u32, u64)>::empty(),
    {
        NodeIdCache { entries: Table::new() }
    }
}

/// What `find_node_id_by_name` needs next.
#[derive(Debug, PartialEq, Eq, Structural)]
pub enum NodeIdQuery {
    /// The answer.
    Found(u32),
    /// Run `pw-cli ls Node` (and a sink probe), then call
    /// `finish_node_id_probe` with this cached id.
    Probe(Option<u32>),
}

/// Look up `name`: the native registry id first, then a cache entry younger
/// than the TTL; otherwise a probe is needed (with any older cached id).
pub fn find_node_id_by_name(cache: &NodeIdCache, name: &str, now_ms: u64, native: Option<u32>) -> (r: NodeIdQuery)
    requires
        cache.entries.wf(),
    ensures
        r == match native {
            Some(id) => NodeIdQuery::Found(id),
            None => if cache.entries@.contains_key(name@) {
                let (id, at) = cache.entries@[name@];
                if crate::cli::elapsed_ms(at, now_ms) < NODE_ID_TTL_MS {
                    NodeIdQuery::Found(id)
                } else {
                    NodeIdQuery::Probe(Some(id))
                }
            } else {
                NodeIdQuery::Probe(None)
            },
        },
{
    match native {
        Some(id) => return NodeIdQuery::Found(id),
        None => {},
    }
    match cache.entries.get(&own(name)) {
        Some(e) => {
            let (id, at) = *e;
            if now_ms.saturating_sub(at) < NODE_ID_TTL_MS {
                NodeIdQuery::Found(id)
            } else {
                NodeIdQuery::Probe(Some(id))
            }
        },
        None => NodeIdQuery::Probe(None),
    }
}

/// After the probe: a fresh id is cached and returned; with no fresh id an
/// older cached id is kept only while its sink still exists.
pub fn finish_node_id_probe(cache: &mut NodeIdCache, name: &str, now_ms: u64, stale: Option<u32>, probed: Option<u32>, sink_exists: bool) -> (r: Option<u32>)
    requires
        old(cache).entries.wf(),
    ensures
        final(cache).entries.wf(),
        match probed {
            Some(id) => r == Some(id) && final(cache).entries@ == old(cache).entries@.insert(name@, (id, now_ms)),
            None => final(cache).entries@ == old(cache).entries@ && r == (match stale {
                Some(id) => if sink_exists { Some(id) } else { None },
                None => None,
            }),
        },
{
    match probed {
        Some(id) => {
            cache.entries.insert(own(name), (id, now_ms));
            Some(id)
        },
        None => match stale {
            Some(id) => if sink_exists {
                Some(id)
            } else {
                None
            },
            None => None,
        },
    }
}

/// Seed the cache when the host already knows the id (id 0 is ignored).
pub fn cache_node_id(cache: &mut NodeIdCache, name: &str, id: u32, now_ms: u64)
    requires
        old(cache).entries.wf(),
    ensures
        final(cache).entries.wf(),
        final(cache).entries@ == (if id == 0 {
            old(cache).entries@
        } else {
            old(cache).entries@.insert(name@, (id, now_ms))
        }),
{
    if id == 0 {
        return;
    }
    cache.entries.insert(own(name), (id, now_ms));
}

// ---------------------------------------------------------------------------
// Moving sink-inputs between sinks
// ---------------------------------------------------------------------------

/// How to move the streams of one sink onto another.
#[derive(Debug)]
pub enum MovePlan {
    /// Done: this many moved.
    Moved(u32),
    /// Move these sink-inputs with `pactl move-sink-input`.
    Pulse(Vec<String>),
}

/// Move all sink-inputs on `from_sink` to `to_sink`: a native retarget that
/// moved some wins; else the Pulse path, only when both sinks are listed.
pub fn move_sink_inputs(native_moved: Option<u32>, sinks_listing: &str, inputs_listing: &str, from_sink: &str, to_sink: &str) -> (r: MovePlan)
    ensures
        match native_moved {
            Some(n) if n > 0 => r matches MovePlan::Moved(m) && m == n,
            _ => match crate::null_sink::sink_index_text_spec(lines_spec(sinks_listing@), from_sink@) {
                None => r matches MovePlan::Moved(m) && m == 0,
                Some(from_idx) => if crate::null_sink::sink_index_text_spec(lines_spec(sinks_listing@), to_sink@) is None {
                    r matches MovePlan::Moved(m) && m == 0
                } else {
                    r matches MovePlan::Pulse(v) && argv_view(v@) == crate::null_sink::inputs_on_spec(
                        lines_spec(inputs_listing@),
                        from_idx,
                    )
                },
            },
        },
{
    match native_moved {
        Some(n) => if n > 0 {
            return MovePlan::Moved(n);
        },
        None => {},
    }
    let from_idx = match crate::null_sink::sink_index_for_name(sinks_listing, from_sink) {
        Some(i) => i,
        None => return MovePlan::Moved(0),
    };
    if crate::null_sink::sink_index_for_name(sinks_listing, to_sink).is_none() {
        return MovePlan::Moved(0);
    }
    MovePlan::Pulse(crate::null_sink::list_sink_input_indices_on(inputs_listing, from_idx.as_str()))
}


/// Position of the first device named `name`.
pub open spec fn first_device_pos(devs: Seq<(Seq<char>, Seq<char>)>, name: Seq<char>) -> Option<int>
    decreases devs.len(),
{
    if devs.len() == 0 {
        None
    } else if devs[0].0 == name {
        Some(0)
    } else {
        match first_device_pos(devs.drop_first(), name) {
            Some(i) => Some(i + 1),
            None => None,
        }
    }
}

/// Index column of the first listing row naming `name`.
pub open spec fn first_row_index(ls: Seq<Seq<char>>, name: Seq<char>) -> Option<Seq<char>>
    decreases ls.len(),
{
    if ls.len() == 0 {
        None
    } else {
        let parts = split_spec(ls[0], '\t');
        if parts.len() >= 2 && parts[1] == name {
            Some(parts[0])
        } else {
            first_row_index(ls.drop_first(), name)
        }
    }
}

/// The `wpctl` fallbacks for making `name` the default sink: by its
/// position among the listed sinks, then by its Pulse index.
pub open spec fn switch_fallback_spec(name: Seq<char>, listing: Option<Seq<char>>) -> Seq<Seq<Seq<char>>> {
    match listing {
        None => Seq::empty(),
        Some(l) => (match first_device_pos(devices_spec(lines_spec(l)), name) {
            Some(i) => seq![seq!["set-default"@, decimal(i as nat)]],
            None => Seq::empty(),
        }) + match first_row_index(lines_spec(l), name) {
            Some(idx) => seq![seq!["set-default"@, idx]],
            None => Seq::empty(),
        },
    }
}

/// Where switching the default sink through the CLI stands.
#[derive(Debug, PartialEq, Eq)]
pub enum SinkSwitch {
    /// Finished: whether `pactl info` names the sink.
    Done(bool),
    /// Run `pactl set-default-sink <name>`, wait 40 ms, report the default.
    SetWithPactl,
    /// Run `wpctl` with each of these argument lists, wait 40 ms, report the default.
    Fallback(Vec<Vec<String>>),
}

/// Start switching the default sink to `name`, given the current default.
pub fn set_default_sink(name: &str, current: Option<&str>) -> (r: SinkSwitch)
    ensures
        match current {
            Some(c) => c@ == name@,
            None => false,
        } ==> r == SinkSwitch::Done(true),
        !match current {
            Some(c) => c@ == name@,
            None => false,
        } ==> r == SinkSwitch::SetWithPactl,
{
    match current {
        Some(c) => if str_eq(c, name) {
            SinkSwitch::Done(true)
        } else {
            SinkSwitch::SetWithPactl
        },
        None => SinkSwitch::SetWithPactl,
    }
}

fn device_pos(devs: &Vec<(String, String)>, name: &str) -> (r: Option<usize>)
    ensures
        match r {
            Some(i) => first_device_pos(crate::ordset::pairs_view(devs@), name@) == Some(i as int),
            None => first_device_pos(crate::ordset::pairs_view(devs@), name@) is None,
        },
{
    let ghost dv = crate::ordset::pairs_view(devs@);
    let mut i: usize = 0;
    assert(dv.skip(0) =~= dv);
    while i < devs.len()
        invariant
            i <= devs.len(),
            dv == crate::ordset::pairs_view(devs@),
            first_device_pos(dv, name@) == match first_device_pos(dv.skip(i as int), name@) {
                Some(k) => Some(k + i),
                None => None::<int>,
            },
        decreases devs.len() - i,
    {
        assert(dv.skip(i as int)[0] == dv[i as int]);
        assert(dv.skip(i as int).drop_first() =~= dv.skip(i + 1));
        if str_eq(devs[i].0.as_str(), name) {
            return Some(i);
        }
        i += 1;
    }
    None
}

fn row_index(listing: &str, name: &str) -> (r: Option<String>)
    ensures
        opt_view(r) == first_row_index(lines_spec(listing@), name@),
{
    let ls = lines(listing);
    let ghost lv = ls@.map_values(|t: String| t@);
    let mut i: usize = 0;
    assert(lv.skip(0) =~= lv);
    while i < ls.len()
        invariant
            i <= ls.len(),
            lv == ls@.map_values(|t: String| t@),
            lv == lines_spec(listing@),
            first_row_index(lv, name@) == first_row_index(lv.skip(i as int), name@),
        decreases ls.len() - i,
    {
        assert(lv.skip(i as int)[0] == ls@[i as int]@);
        assert(lv.skip(i as int).drop_first() =~= lv.skip(i + 1));
        let parts = split_char(ls[i].as_str(), '\t');
        let ghost pv = parts@.map_values(|t: String| t@);
        assert(pv == split_spec(ls@[i as int]@, '\t'));
        if parts.len() >= 2 {
            assert(pv[1] == parts@[1]@ && pv[0] == parts@[0]@);
            if str_eq(parts[1].as_str(), name) {
                return Some(own(parts[0].as_str()));
            }
        }
        i += 1;
    }
    None
}

/// After `pactl set-default-sink`: done when it took (`set_ok` and `current`
/// names the sink); otherwise the `wpctl` fallbacks from the `pactl list
/// short sinks` listing (none when it could not be had).
pub fn after_pactl_set(name: &str, set_ok: bool, current: Option<&str>, sinks_listing: Option<&str>) -> (r: SinkSwitch)
    ensures
        set_ok && match current {
            Some(c) => c@ == name@,
            None => false,
        } ==> r == SinkSwitch::Done(true),
        !(set_ok && match current {
            Some(c) => c@ == name@,
            None => false,
        }) ==> (r matches SinkSwitch::Fallback(cmds) && cmds_view(cmds@) == switch_fallback_spec(
            name@,
            match sinks_listing {
                Some(l) => Some(l@),
                None => None,
            },
        )),
{
    if set_ok {
        match current {
            Some(c) => if str_eq(c, name) {
                return SinkSwitch::Done(true);
            },
            None => {},
        }
    }
    let mut cmds: Vec<Vec<String>> = Vec::new();
    match sinks_listing {
        Some(l) => {
            let devs = list_devices(l);
            match device_pos(&devs, name) {
                Some(i) => {
                    let n: u64 = i as u64;
                    let mut c: Vec<String> = Vec::new();
                    c.push(own("set-default"));
                    c.push(crate::text::u64_to_string(n));
                    assert(argv_view(c@) =~= seq!["set-default"@, decimal(i as nat)]);
                    cmds.push(c);
                },
                None => {},
            }
            match row_index(l, name) {
                Some(idx) => {
                    let mut c: Vec<String> = Vec::new();
                    c.push(own("set-default"));
                    c.push(idx);
                    assert(argv_view(c@) =~= seq!["set-default"@, c@[1]@]);
                    cmds.push(c);
                },
                None => {},
            }
            assert(cmds_view(cmds@) =~= switch_fallback_spec(name@, Some(l@)));
        },
        None => {
            assert(cmds_view(cmds@) =~= switch_fallback_spec(name@, None));
        },
    }
    SinkSwitch::Fallback(cmds)
}


/// The LADSPA search path from the plugin directories found (canonical
/// paths of those that exist): sorted, without duplicates, joined by `:`.
pub fn ladspa_search_path(dirs: &Vec<String>) -> (r: String)
    ensures
        exists|s: Seq<Seq<char>>|
            crate::ordset::sorted_strs(s) && s.to_set() == crate::ordset::strs_view(dirs@).to_set() && r@
                == crate::contract::join_spec(s, ":"@),
{
    let mut sorted: Vec<String> = Vec::new();
    let mut i: usize = 0;
    assert(crate::ordset::strs_view(sorted@).to_set() =~= crate::ordset::strs_view(dirs@.take(0)).to_set());
    while i < dirs.len()
        invariant
            i <= dirs.len(),
            crate::ordset::sorted_strs(crate::ordset::strs_view(sorted@)),
            crate::ordset::strs_view(sorted@).to_set() == crate::ordset::strs_view(dirs@.take(i as int)).to_set(),
        decreases dirs.len() - i,
    {
        let ghost before = crate::ordset::strs_view(dirs@.take(i as int));
        assert(crate::ordset::strs_view(dirs@.take(i + 1)) =~= before.push(dirs@[i as int]@));
        proof {
            before.lemma_push_to_set_commute(dirs@[i as int]@);
        }
        crate::ordset::insert_sorted_str(&mut sorted, own(dirs[i].as_str()));
        i += 1;
    }
    assert(dirs@.take(dirs.len() as int) =~= dirs@);
    let ghost parts = crate::ordset::strs_view(sorted@);
    let mut out = String::new();
    let mut k: usize = 0;
    while k < sorted.len()
        invariant
            k <= sorted.len(),
            parts == crate::ordset::strs_view(sorted@),
            out@ == crate::contract::join_spec(parts.take(k as int), ":"@),
        decreases sorted.len() - k,
    {
        assert(parts.take(k + 1).drop_last() =~= parts.take(k as int));
        assert(parts.take(k + 1).last() == sorted@[k as int]@);
        if k == 0 {
            out = own(sorted[k].as_str());
            assert(parts.take(1).len() == 1);
        } else {
            let with_sep = concat(out.as_str(), ":");
            out = concat(with_sep.as_str(), sorted[k].as_str());
        }
        k += 1;
    }
    assert(parts.take(sorted.len() as int) =~= parts);
    out
}

} // verus!
