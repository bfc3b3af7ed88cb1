//! Clocked routes: when a hop into a BusChain bus needs a rate bridge
//! (`buschain_rs_*`), and the ordered steps that make the hop. Bridges are
//! inbound only: BusChain → hardware always links directly, since the device
//! adapter resamples output.
use vstd::prelude::*;

use crate::domain::NodeName;
use crate::ordset::{pairs_view, strs_view};
use crate::text::{concat, decimal, has_prefix, own, str_eq, u32_to_string, without_suffix};

verus! {

/// The rate a hop endpoint runs at, for the bridge decision. BusChain buses
/// (not bridges) prefer their live sink rate, else the graph clock; bridges
/// run at the graph clock; anything else takes its running source rate, its
/// running sink rate, then its probed endpoint rate, else 0 (unknown).
pub open spec fn effective_rate_spec(
    node: Seq<char>,
    clock_rate: u32,
    sink_running: Option<u32>,
    source_running: Option<u32>,
    endpoint_rate: Option<u32>,
) -> u32 {
    if has_prefix(node, "buschain_"@) && !has_prefix(node, "buschain_rs_"@) {
        match sink_running {
            Some(r) => r,
            None => clock_rate,
        }
    } else if has_prefix(node, "buschain_rs_"@) {
        clock_rate
    } else {
        match source_running {
            Some(r) => r,
            None => match sink_running {
                Some(r) => r,
                None => match endpoint_rate {
                    Some(r) => r,
                    None => 0,
                },
            },
        }
    }
}

/// Effective rate of `node` from what the probes found (see `effective_rate_spec`).
pub fn effective_rate(
    node: &str,
    clock_rate: u32,
    sink_running: Option<u32>,
    source_running: Option<u32>,
    endpoint_rate: Option<u32>,
) -> (r: u32)
    ensures
        r == effective_rate_spec(node@, clock_rate, sink_running, source_running, endpoint_rate),
{
    let name = NodeName::new(node);
    if name.is_shadow() && !name.is_rate_bridge() {
        return match sink_running {
            Some(r) => r,
            None => clock_rate,
        };
    }
    if name.is_rate_bridge() {
        return clock_rate;
    }
    match source_running {
        Some(r) => r,
        None => match sink_running {
            Some(r) => r,
            None => match endpoint_rate {
                Some(r) => r,
                None => 0,
            },
        },
    }
}

/// A hop from outside into a BusChain bus whose known rates differ.
pub open spec fn wants_bridge_spec(source: Seq<char>, sink: Seq<char>, src_rate: u32, dst_rate: u32) -> bool {
    let src = without_suffix(source, ".monitor"@);
    let dst = without_suffix(sink, ".monitor"@);
    has_prefix(dst, "buschain_"@) && !has_prefix(src, "buschain_"@) && src_rate != 0 && dst_rate != 0
        && src_rate != dst_rate
}

/// Whether the hop `source → sink` needs a rate bridge.
pub fn wants_rate_bridge(source: &str, sink: &str, src_rate: u32, dst_rate: u32) -> (r: bool)
    ensures
        r == wants_bridge_spec(source@, sink@, src_rate, dst_rate),
{
    let src = NodeName(crate::text::drop_suffix(source, ".monitor"));
    let dst = NodeName(crate::text::drop_suffix(sink, ".monitor"));
    dst.is_shadow() && !src.is_shadow() && src_rate != 0 && dst_rate != 0 && src_rate != dst_rate
}

/// One step of making a clocked route, in the order the caller performs them.
#[derive(Debug, PartialEq, Eq)]
pub enum RouteStep {
    /// Remove the live hop `source → sink`.
    Unlink(String, String),
    /// Drop the hop from the desired routes.
    ForgetRoute(String, String),
    /// Cut `source` from every sink but the listed ones.
    UnlinkExcept(String, Vec<String>),
    /// Create the bridge null-sink at the graph clock and record it with its
    /// rates; then wait for its playback ports.
    EnsureBridge { src_rate: u32, dst_rate: u32, description: String },
    /// Make the hop (forced: recreate it even when it looks present).
    Link(String, String, bool),
    /// Record the hop in the desired routes (with its exclusivity).
    RecordRoute(String, String, bool),
}

/// What a step says, as character sequences.
pub enum StepView {
    Unlink(Seq<char>, Seq<char>),
    ForgetRoute(Seq<char>, Seq<char>),
    UnlinkExcept(Seq<char>, Seq<Seq<char>>),
    EnsureBridge(u32, u32, Seq<char>),
    Link(Seq<char>, Seq<char>, bool),
    RecordRoute(Seq<char>, Seq<char>, bool),
}

pub open spec fn step_view(s: RouteStep) -> StepView {
    match s {
        RouteStep::Unlink(a, b) => StepView::Unlink(a@, b@),
        RouteStep::ForgetRoute(a, b) => StepView::ForgetRoute(a@, b@),
        RouteStep::UnlinkExcept(a, v) => StepView::UnlinkExcept(a@, strs_view(v@)),
        RouteStep::EnsureBridge { src_rate, dst_rate, description } => StepView::EnsureBridge(
            src_rate,
            dst_rate,
            description@,
        ),
        RouteStep::Link(a, b, f) => StepView::Link(a@, b@, f),
        RouteStep::RecordRoute(a, b, e) => StepView::RecordRoute(a@, b@, e),
    }
}

pub open spec fn steps_view(v: Seq<RouteStep>) -> Seq<StepView> {
    v.map_values(|s: RouteStep| step_view(s))
}

/// A recorded bridge whose hops belong to this route: the desired routes
/// hold `source → bridge` or `bridge.monitor → sink`.
pub open spec fn is_stale_bridge(
    b: Seq<char>,
    source: Seq<char>,
    sink: Seq<char>,
    routes: Seq<(Seq<char>, Seq<char>)>,
) -> bool {
    routes.contains((source, b)) || routes.contains((b + ".monitor"@, sink))
}

/// Steps that drop the hops of the stale bridges `stale`, in order.
pub open spec fn stale_steps(stale: Seq<Seq<char>>, source: Seq<char>, sink: Seq<char>) -> Seq<StepView>
    decreases stale.len(),
{
    if stale.len() == 0 {
        Seq::empty()
    } else {
        let b = stale.last();
        let mon = b + ".monitor"@;
        stale_steps(stale.drop_last(), source, sink) + seq![
            StepView::Unlink(mon, sink),
            StepView::Unlink(source, b),
            StepView::ForgetRoute(source, b),
            StepView::ForgetRoute(mon, sink),
        ]
    }
}

/// Recorded bridges (in the order given) that are stale for this route.
pub open spec fn stale_bridges(
    bridges: Seq<Seq<char>>,
    source: Seq<char>,
    sink: Seq<char>,
    routes: Seq<(Seq<char>, Seq<char>)>,
) -> Seq<Seq<char>>
    decreases bridges.len(),
{
    if bridges.len() == 0 {
        Seq::empty()
    } else {
        let rest = stale_bridges(bridges.drop_last(), source, sink, routes);
        if is_stale_bridge(bridges.last(), source, sink, routes) {
            rest.push(bridges.last())
        } else {
            rest
        }
    }
}

/// The description of a bridge from `src_rate` to `dst_rate`.
pub open spec fn bridge_description(src_rate: u32, dst_rate: u32) -> Seq<char> {
    "BusChainControl_RateBridge_"@ + decimal(src_rate as nat) + "_to_"@ + decimal(dst_rate as nat)
}

/// The steps of a clocked route. Direct: drop stale bridge hops, keep the
/// source on `sink` (and the hold) alone when exclusive, link and record the
/// hop. Bridged: drop the dry hop, keep the source on the bridge alone when
/// exclusive, create the bridge, link source → bridge → sink (recreating
/// both when forced) and record them (the outbound hop never exclusive).
pub open spec fn route_steps(
    source: Seq<char>,
    sink: Seq<char>,
    src_rate: u32,
    dst_rate: u32,
    bridge: Seq<char>,
    bridges: Seq<Seq<char>>,
    routes: Seq<(Seq<char>, Seq<char>)>,
    exclusive: bool,
    force: bool,
) -> Seq<StepView> {
    if !wants_bridge_spec(source, sink, src_rate, dst_rate) {
        stale_steps(stale_bridges(bridges, source, sink, routes), source, sink) + (if exclusive {
            seq![StepView::UnlinkExcept(source, seq![sink, "buschain_hold"@])]
        } else {
            Seq::empty()
        }) + seq![StepView::Link(source, sink, force), StepView::RecordRoute(source, sink, exclusive)]
    } else {
        let mon = bridge + ".monitor"@;
        seq![StepView::Unlink(source, sink), StepView::ForgetRoute(source, sink)] + (if exclusive {
            seq![StepView::UnlinkExcept(source, seq![bridge, "buschain_hold"@])]
        } else {
            Seq::empty()
        }) + seq![StepView::EnsureBridge(src_rate, dst_rate, bridge_description(src_rate, dst_rate))] + (
        if force {
            seq![
                StepView::Unlink(source, bridge),
                StepView::Unlink(mon, sink),
                StepView::Link(source, bridge, true),
                StepView::Link(mon, sink, true),
            ]
        } else {
            seq![StepView::Link(source, bridge, false), StepView::Link(mon, sink, false)]
        }) + seq![StepView::RecordRoute(source, bridge, exclusive), StepView::RecordRoute(mon, sink, false)]
    }
}

fn routes_contain(routes: &[(String, String)], a: &str, b: &str) -> (r: bool)
    ensures
        r == pairs_view(routes@).contains((a@, b@)),
{
    let ghost pv = pairs_view(routes@);
    let mut i: usize = 0;
    while i < routes.len()
        invariant
            i <= routes.len(),
            pv == pairs_view(routes@),
            forall|j: int| 0 <= j < i ==> pv[j] != (a@, b@),
        decreases routes.len() - i,
    {
        assert(pv[i as int] == (routes@[i as int].0@, routes@[i as int].1@));
        if str_eq(routes[i].0.as_str(), a) && str_eq(routes[i].1.as_str(), b) {
            assert(pv[i as int] == (a@, b@));
            return true;
        }
        i += 1;
    }
    false
}

fn hold_allow(keep: &str) -> (r: Vec<String>)
    ensures
        strs_view(r@) == seq![keep@, "buschain_hold"@],
{
    let mut v: Vec<String> = Vec::new();
    v.push(own(keep));
    v.push(own("buschain_hold"));
    assert(strs_view(v@) =~= seq![keep@, "buschain_hold"@]);
    v
}

fn route_steps_exec(
    source: &str,
    sink: &str,
    src_rate: u32,
    dst_rate: u32,
    bridge: &str,
    bridges: &[String],
    routes: &[(String, String)],
    exclusive: bool,
    force: bool,
) -> (r: Vec<RouteStep>)
    ensures
        steps_view(r@) == route_steps(
            source@,
            sink@,
            src_rate,
            dst_rate,
            bridge@,
            strs_view(bridges@),
            pairs_view(routes@),
            exclusive,
            force,
        ),
{
    let ghost bv = strs_view(bridges@);
    let ghost rv = pairs_view(routes@);
    let mut out: Vec<RouteStep> = Vec::new();
    if !wants_rate_bridge(source, sink, src_rate, dst_rate) {
        let mut i: usize = 0;
        while i < bridges.len()
            invariant
                i <= bridges.len(),
                bv == strs_view(bridges@),
                rv == pairs_view(routes@),
                steps_view(out@) == stale_steps(stale_bridges(bv.take(i as int), source@, sink@, rv), source@, sink@),
            decreases bridges.len() - i,
        {
            assert(bv.take(i + 1).drop_last() =~= bv.take(i as int));
            assert(bv.take(i + 1).last() == bridges@[i as int]@);
            let b = bridges[i].as_str();
            let mon = concat(b, ".monitor");
            if routes_contain(routes, source, b) || routes_contain(routes, mon.as_str(), sink) {
                let ghost before = steps_view(out@);
                let ghost st = stale_bridges(bv.take(i as int), source@, sink@, rv);
                out.push(RouteStep::Unlink(own(mon.as_str()), own(sink)));
                out.push(RouteStep::Unlink(own(source), own(b)));
                out.push(RouteStep::ForgetRoute(own(source), own(b)));
                out.push(RouteStep::ForgetRoute(mon, own(sink)));
                assert(st.push(b@).drop_last() =~= st);
                assert(steps_view(out@) =~= stale_steps(st.push(b@), source@, sink@));
            }
            i += 1;
        }
        assert(bv.take(bridges.len() as int) =~= bv);
        if exclusive {
            out.push(RouteStep::UnlinkExcept(own(source), hold_allow(sink)));
        }
        out.push(RouteStep::Link(own(source), own(sink), force));
        out.push(RouteStep::RecordRoute(own(source), own(sink), exclusive));
        assert(steps_view(out@) =~= route_steps(source@, sink@, src_rate, dst_rate, bridge@, bv, rv, exclusive, force));
        return out;
    }
    let mon = concat(bridge, ".monitor");
    out.push(RouteStep::Unlink(own(source), own(sink)));
    out.push(RouteStep::ForgetRoute(own(source), own(sink)));
    if exclusive {
        out.push(RouteStep::UnlinkExcept(own(source), hold_allow(bridge)));
    }
    let s1 = u32_to_string(src_rate);
    let s2 = u32_to_string(dst_rate);
    let d1 = concat("BusChainControl_RateBridge_", s1.as_str());
    let d2 = concat(d1.as_str(), "_to_");
    let description = concat(d2.as_str(), s2.as_str());
    out.push(RouteStep::EnsureBridge { src_rate, dst_rate, description });
    if force {
        out.push(RouteStep::Unlink(own(source), own(bridge)));
        out.push(RouteStep::Unlink(own(mon.as_str()), own(sink)));
        out.push(RouteStep::Link(own(source), own(bridge), true));
        out.push(RouteStep::Link(own(mon.as_str()), own(sink), true));
    } else {
        out.push(RouteStep::Link(own(source), own(bridge), false));
        out.push(RouteStep::Link(own(mon.as_str()), own(sink), false));
    }
    out.push(RouteStep::RecordRoute(own(source), own(bridge), exclusive));
    out.push(RouteStep::RecordRoute(mon, own(sink), false));
    assert(steps_view(out@) =~= route_steps(source@, sink@, src_rate, dst_rate, bridge@, bv, rv, exclusive, force));
    out
}

/// The steps that ensure the clocked route `source → sink` (see
/// `route_steps`): `src_rate` / `dst_rate` are the endpoints' effective
/// rates, `bridge` the name the desired state gives this hop's bridge,
/// `bridges` the recorded bridges and `routes` the desired routes.
pub fn ensure_clocked_route(
    source: &str,
    sink: &str,
    src_rate: u32,
    dst_rate: u32,
    bridge: &str,
    bridges: &[String],
    routes: &[(String, String)],
    exclusive: bool,
) -> (r: Vec<RouteStep>)
    ensures
        steps_view(r@) == route_steps(
            source@,
            sink@,
            src_rate,
            dst_rate,
            bridge@,
            strs_view(bridges@),
            pairs_view(routes@),
            exclusive,
            false,
        ),
{
    route_steps_exec(source, sink, src_rate, dst_rate, bridge, bridges, routes, exclusive, false)
}

/// As `ensure_clocked_route`, recreating the capture hops (after a teardown,
/// so an Add cannot attach to a dead bridge).
pub fn ensure_clocked_route_force(
    source: &str,
    sink: &str,
    src_rate: u32,
    dst_rate: u32,
    bridge: &str,
    bridges: &[String],
    routes: &[(String, String)],
    exclusive: bool,
) -> (r: Vec<RouteStep>)
    ensures
        steps_view(r@) == route_steps(
            source@,
            sink@,
            src_rate,
            dst_rate,
            bridge@,
            strs_view(bridges@),
            pairs_view(routes@),
            exclusive,
            true,
        ),
{
    route_steps_exec(source, sink, src_rate, dst_rate, bridge, bridges, routes, exclusive, true)
}

/// A hop leaving BusChain, a hop into anything but a BusChain bus, and a
/// hop whose rates agree or are unknown never get a rate bridge: the route
/// ends by linking and recording `source → sink` itself, and no bridge is
/// created.
pub proof fn law_direct_unless_inbound_rate_mismatch(
    source: Seq<char>,
    sink: Seq<char>,
    src_rate: u32,
    dst_rate: u32,
    bridge: Seq<char>,
    bridges: Seq<Seq<char>>,
    routes: Seq<(Seq<char>, Seq<char>)>,
    exclusive: bool,
    force: bool,
)
    requires
        has_prefix(without_suffix(source, ".monitor"@), "buschain_"@) || !has_prefix(
            without_suffix(sink, ".monitor"@),
            "buschain_"@,
        ) || src_rate == 0 || dst_rate == 0 || src_rate == dst_rate,
    ensures
        ({
            let st = route_steps(source, sink, src_rate, dst_rate, bridge, bridges, routes, exclusive, force);
            &&& st.len() >= 2
            &&& st[st.len() - 2] == StepView::Link(source, sink, force)
            &&& st[st.len() - 1] == StepView::RecordRoute(source, sink, exclusive)
            &&& forall|k: int| 0 <= k < st.len() ==> !(#[trigger] st[k] is EnsureBridge)
        }),
{
    let stale = stale_bridges(bridges, source, sink, routes);
    lemma_stale_steps_no_bridge(stale, source, sink);
}

proof fn lemma_stale_steps_no_bridge(stale: Seq<Seq<char>>, source: Seq<char>, sink: Seq<char>)
    ensures
        forall|k: int| 0 <= k < stale_steps(stale, source, sink).len() ==> !(#[trigger] stale_steps(stale, source, sink)[k] is EnsureBridge),
    decreases stale.len(),
{
    if stale.len() > 0 {
        lemma_stale_steps_no_bridge(stale.drop_last(), source, sink);
    }
}

/// A hop between two BusChain nodes with no bridge on record is direct and
/// nothing else: when exclusive the source is first cut from all but `sink`
/// and the hold, then the hop is linked and recorded; no bridge is made and
/// no other hop is touched.
pub proof fn law_buschain_hop_without_bridges(
    source: Seq<char>,
    sink: Seq<char>,
    src_rate: u32,
    dst_rate: u32,
    bridge: Seq<char>,
    routes: Seq<(Seq<char>, Seq<char>)>,
    exclusive: bool,
    force: bool,
)
    requires
        has_prefix(without_suffix(source, ".monitor"@), "buschain_"@),
        has_prefix(without_suffix(sink, ".monitor"@), "buschain_"@),
    ensures
        route_steps(source, sink, src_rate, dst_rate, bridge, Seq::empty(), routes, exclusive, force) == (if exclusive {
            seq![StepView::UnlinkExcept(source, seq![sink, "buschain_hold"@])]
        } else {
            Seq::<StepView>::empty()
        }) + seq![StepView::Link(source, sink, force), StepView::RecordRoute(source, sink, exclusive)],
{
    assert(stale_bridges(Seq::empty(), source, sink, routes) =~= Seq::<Seq<char>>::empty());
    assert(stale_steps(Seq::empty(), source, sink) =~= Seq::<StepView>::empty());
    let tail = (if exclusive {
        seq![StepView::UnlinkExcept(source, seq![sink, "buschain_hold"@])]
    } else {
        Seq::<StepView>::empty()
    }) + seq![StepView::Link(source, sink, force), StepView::RecordRoute(source, sink, exclusive)];
    assert(Seq::<StepView>::empty() + (if exclusive {
        seq![StepView::UnlinkExcept(source, seq![sink, "buschain_hold"@])]
    } else {
        Seq::<StepView>::empty()
    }) + seq![StepView::Link(source, sink, force), StepView::RecordRoute(source, sink, exclusive)] =~= tail);
}

// ---------------------------------------------------------------------------
// Running the steps
// ---------------------------------------------------------------------------

/// A step whose failure ends the route with that error: creating the bridge
/// or making a hop. Failures of the other steps are ignored.
pub open spec fn fatal_step(s: StepView) -> bool {
    s is EnsureBridge || s is Link
}

/// Index of the first fatal step among the first `n` whose outcome failed.
pub open spec fn first_failure(steps: Seq<StepView>, outcomes: Seq<Result<(), String>>, n: nat) -> Option<int>
    decreases n,
{
    if n == 0 {
        None
    } else {
        match first_failure(steps, outcomes, (n - 1) as nat) {
            Some(k) => Some(k),
            None => if fatal_step(steps[n - 1]) && outcomes[n - 1] is Err {
                Some(n - 1)
            } else {
                None
            },
        }
    }
}

/// What the runner of a route does next.
#[derive(Debug)]
pub enum RouteRun {
    /// Perform the step at this index and report its outcome.
    Perform(usize),
    /// The route is done with this result.
    Done(Result<(), String>),
}

fn is_fatal(s: &RouteStep) -> (r: bool)
    ensures
        r == fatal_step(step_view(*s)),
{
    match s {
        RouteStep::EnsureBridge { .. } => true,
        RouteStep::Link(..) => true,
        _ => false,
    }
}

/// Run the steps of a route one at a time: `outcomes` are the outcomes of
/// the steps performed so far, in step order. The first failed bridge or
/// hop ends the route with its error; otherwise the next step is performed,
/// and once every step is performed the route succeeds.
pub fn route_next(steps: &Vec<RouteStep>, outcomes: &Vec<Result<(), String>>) -> (r: RouteRun)
    requires
        outcomes@.len() <= steps@.len(),
    ensures
        match first_failure(steps_view(steps@), outcomes@, outcomes@.len()) {
            Some(k) => r matches RouteRun::Done(Err(e)) && outcomes@[k] matches Err(m) && e@ == m@,
            None => if outcomes@.len() == steps@.len() {
                r matches RouteRun::Done(Ok(_))
            } else {
                r matches RouteRun::Perform(i) && i == outcomes@.len()
            },
        },
{
    let ghost sv = steps_view(steps@);
    let mut i: usize = 0;
    while i < outcomes.len()
        invariant
            i <= outcomes.len(),
            outcomes@.len() <= steps@.len(),
            sv == steps_view(steps@),
            first_failure(sv, outcomes@, i as nat) is None,
        decreases outcomes.len() - i,
    {
        assert(sv[i as int] == step_view(steps@[i as int]));
        if is_fatal(&steps[i]) {
            match &outcomes[i] {
                Err(e) => {
                    proof {
                        lemma_first_failure_stays(sv, outcomes@, (i + 1) as nat, outcomes@.len());
                    }
                    return RouteRun::Done(Err(own(e.as_str())));
                },
                Ok(_) => {},
            }
        }
        i += 1;
    }
    if outcomes.len() == steps.len() {
        RouteRun::Done(Ok(()))
    } else {
        RouteRun::Perform(outcomes.len())
    }
}

proof fn lemma_first_failure_stays(steps: Seq<StepView>, outcomes: Seq<Result<(), String>>, a: nat, b: nat)
    requires
        a <= b,
        first_failure(steps, outcomes, a) is Some,
    ensures
        first_failure(steps, outcomes, b) == first_failure(steps, outcomes, a),
    decreases b - a,
{
    if a < b {
        lemma_first_failure_stays(steps, outcomes, a, (b - 1) as nat);
    }
}

proof fn lemma_first_failure_before(steps: Seq<StepView>, outcomes: Seq<Result<(), String>>, n: nat, j: int)
    requires
        first_failure(steps, outcomes, n) is None,
        0 <= j < n,
        fatal_step(steps[j]),
    ensures
        outcomes[j] is Ok,
    decreases n,
{
    if j < n - 1 {
        lemma_first_failure_before(steps, outcomes, (n - 1) as nat, j);
    }
}

proof fn lemma_stale_steps_kinds(stale: Seq<Seq<char>>, source: Seq<char>, sink: Seq<char>)
    ensures
        forall|k: int|
            0 <= k < stale_steps(stale, source, sink).len() ==> (#[trigger] stale_steps(stale, source, sink)[k] is Unlink
                || stale_steps(stale, source, sink)[k] is ForgetRoute),
    decreases stale.len(),
{
    if stale.len() > 0 {
        lemma_stale_steps_kinds(stale.drop_last(), source, sink);
        let r = stale_steps(stale.drop_last(), source, sink);
        let all = stale_steps(stale, source, sink);
        assert forall|k: int| 0 <= k < all.len() implies (#[trigger] all[k] is Unlink || all[k] is ForgetRoute) by {
            if k < r.len() {
                assert(all[k] == r[k]);
            }
        }
    }
}

/// A route records a hop only after every bridge and hop of the route is
/// made: in the steps of any clocked route every record step comes after
/// every fatal step, and the runner performs a step only when no earlier
/// fatal step failed, so the route ends in an error exactly when a bridge
/// or hop failed, and a failed route records nothing after the failure.
pub proof fn law_route_recorded_only_on_success(
    source: Seq<char>,
    sink: Seq<char>,
    src_rate: u32,
    dst_rate: u32,
    bridge: Seq<char>,
    bridges: Seq<Seq<char>>,
    routes: Seq<(Seq<char>, Seq<char>)>,
    exclusive: bool,
    force: bool,
    outcomes: Seq<Result<(), String>>,
    i: int,
)
    requires
        ({
            let st = route_steps(source, sink, src_rate, dst_rate, bridge, bridges, routes, exclusive, force);
            &&& 0 <= i < st.len()
            &&& i <= outcomes.len()
            &&& first_failure(st, outcomes, i as nat) is None
            &&& st[i] is RecordRoute
        }),
    ensures
        ({
            let st = route_steps(source, sink, src_rate, dst_rate, bridge, bridges, routes, exclusive, force);
            forall|j: int| 0 <= j < st.len() && fatal_step(#[trigger] st[j]) ==> j < i && outcomes[j] is Ok
        }),
{
    let st = route_steps(source, sink, src_rate, dst_rate, bridge, bridges, routes, exclusive, force);
    let stale = stale_bridges(bridges, source, sink, routes);
    lemma_stale_steps_kinds(stale, source, sink);
    let ss = stale_steps(stale, source, sink);
    assert forall|j: int| 0 <= j < st.len() && fatal_step(#[trigger] st[j]) implies j < i && outcomes[j] is Ok by {
        if !wants_bridge_spec(source, sink, src_rate, dst_rate) {
            if j < ss.len() {
                assert(st[j] == ss[j]);
            }
            if i < ss.len() {
                assert(st[i] == ss[i]);
            }
        }
        assert(j < i);
        lemma_first_failure_before(st, outcomes, i as nat, j);
    }
}

/// Every hop a route records is made by an earlier step of the same route
/// (`Link` of that very hop, forced as the route is); and when a rate bridge
/// is wanted both hops through it are made: `source → bridge` and
/// `bridge.monitor → sink`.
pub proof fn law_recorded_hops_are_linked(
    source: Seq<char>,
    sink: Seq<char>,
    src_rate: u32,
    dst_rate: u32,
    bridge: Seq<char>,
    bridges: Seq<Seq<char>>,
    routes: Seq<(Seq<char>, Seq<char>)>,
    exclusive: bool,
    force: bool,
)
    ensures
        ({
            let st = route_steps(source, sink, src_rate, dst_rate, bridge, bridges, routes, exclusive, force);
            forall|i: int|
                0 <= i < st.len() && (#[trigger] st[i] matches StepView::RecordRoute(a, b, _)) ==> exists|j: int|
                    0 <= j < i && #[trigger] st[j] == StepView::Link(st[i]->RecordRoute_0, st[i]->RecordRoute_1, force)
        }),
        wants_bridge_spec(source, sink, src_rate, dst_rate) ==> ({
            let st = route_steps(source, sink, src_rate, dst_rate, bridge, bridges, routes, exclusive, force);
            &&& st.contains(StepView::Link(source, bridge, force))
            &&& st.contains(StepView::Link(bridge + ".monitor"@, sink, force))
        }),
{
    let st = route_steps(source, sink, src_rate, dst_rate, bridge, bridges, routes, exclusive, force);
    let stale = stale_bridges(bridges, source, sink, routes);
    lemma_stale_steps_kinds(stale, source, sink);
    let ss = stale_steps(stale, source, sink);
    let n = st.len();
    if !wants_bridge_spec(source, sink, src_rate, dst_rate) {
        assert forall|i: int|
            0 <= i < st.len() && (#[trigger] st[i] matches StepView::RecordRoute(a, b, _)) implies exists|j: int|
                0 <= j < i && #[trigger] st[j] == StepView::Link(st[i]->RecordRoute_0, st[i]->RecordRoute_1, force) by {
            if i < ss.len() {
                assert(st[i] == ss[i]);
            }
            assert(i == n - 1);
            assert(st[n - 2] == StepView::Link(source, sink, force));
        }
    } else {
        let mon = bridge + ".monitor"@;
        let k = n - 2;
        if force {
            assert(st[k - 2] == StepView::Link(source, bridge, true));
            assert(st[k - 1] == StepView::Link(mon, sink, true));
        } else {
            assert(st[k - 2] == StepView::Link(source, bridge, false));
            assert(st[k - 1] == StepView::Link(mon, sink, false));
        }
        assert forall|i: int|
            0 <= i < st.len() && (#[trigger] st[i] matches StepView::RecordRoute(a, b, _)) implies exists|j: int|
                0 <= j < i && #[trigger] st[j] == StepView::Link(st[i]->RecordRoute_0, st[i]->RecordRoute_1, force) by {
            if i == n - 2 {
                assert(st[k - 2] == StepView::Link(source, bridge, force));
            } else {
                assert(i == n - 1);
                assert(st[k - 1] == StepView::Link(mon, sink, force));
            }
        }
        assert(st[k - 2] == StepView::Link(source, bridge, force));
        assert(st[k - 1] == StepView::Link(mon, sink, force));
    }
}

} // verus!
