//! Clocked null-sinks: the `pactl` commands that create one, when an existing
//! one is kept or recreated, and what the Pulse listings say about them.
use vstd::prelude::*;

use crate::contract::ClockProps;
use crate::domain::{NodeRole, NodeSpec};
use crate::modules::{module_row, parse_module_row};
use crate::text::{
    concat, concat3, contains, decimal, has_infix, lines, lines_spec, lowercase, own, push_char,
    split_char, split_spec, starts_with, has_prefix, str_eq, to_chars, to_lowercase, u32_to_string,
};

verus! {

/// `d` with spaces and `=` replaced by `_`.
pub open spec fn sanitize_spec(d: Seq<char>) -> Seq<char>
    decreases d.len(),
{
    if d.len() == 0 {
        Seq::empty()
    } else {
        let c = d.last();
        sanitize_spec(d.drop_last()).push(if c == ' ' || c == '=' { '_' } else { c })
    }
}

/// A description usable inside `sink_properties` (no spaces, no `=`).
pub fn sanitize_desc(d: &str) -> (r: String)
    ensures
        r@ == sanitize_spec(d@),
{
    let x = to_chars(d);
    let mut out = String::new();
    let mut i: usize = 0;
    while i < x.len()
        invariant
            i <= x.len(),
            x@ == d@,
            out@ == sanitize_spec(d@.take(i as int)),
        decreases x.len() - i,
    {
        assert(d@.take(i + 1).drop_last() =~= d@.take(i as int));
        assert(d@.take(i + 1).last() == x@[i as int]);
        let c = x[i];
        push_char(&mut out, if c == ' ' || c == '=' { '_' } else { c });
        i += 1;
    }
    assert(d@.take(x.len() as int) =~= d@);
    out
}

/// `"true"` for a hard quantum lock, `"false"` for a soft one.
pub open spec fn lock_text(soft: bool) -> Seq<char> {
    if soft {
        "false"@
    } else {
        "true"@
    }
}

/// The `sink_properties=…` argument of a new null-sink.
pub open spec fn sink_props_spec(description: Seq<char>, clock: ClockProps) -> Seq<char> {
    "sink_properties=device.description="@ + sanitize_spec(description) + " media.name=buschain-control session.suspend-timeout-seconds="@
        + decimal(clock.suspend_timeout as nat) + " node.virtual=true node.latency="@ + clock.node_latency@
        + " audio.rate="@ + decimal(clock.sample_rate as nat) + " node.force-quantum="@ + decimal(
        clock.quantum as nat,
    ) + " node.lock-quantum="@ + lock_text(clock.soft_quantum)
}

fn lock_str(soft: bool) -> (r: &'static str)
    ensures
        r@ == lock_text(soft),
{
    if soft {
        "false"
    } else {
        "true"
    }
}

fn sink_props(description: &str, clock: &ClockProps) -> (r: String)
    ensures
        r@ == sink_props_spec(description@, *clock),
{
    let d = sanitize_desc(description);
    let a = concat("sink_properties=device.description=", d.as_str());
    let b = concat(a.as_str(), " media.name=buschain-control session.suspend-timeout-seconds=");
    let st = u32_to_string(clock.suspend_timeout);
    let c = concat3(b.as_str(), st.as_str(), " node.virtual=true node.latency=");
    let e = concat3(c.as_str(), clock.node_latency.as_str(), " audio.rate=");
    let rate = u32_to_string(clock.sample_rate);
    let f = concat3(e.as_str(), rate.as_str(), " node.force-quantum=");
    let q = u32_to_string(clock.quantum);
    let g = concat3(f.as_str(), q.as_str(), " node.lock-quantum=");
    concat(g.as_str(), lock_str(clock.soft_quantum))
}

/// App-facing buses (Track and Master).
pub open spec fn is_app_bus(role: NodeRole) -> bool {
    role == NodeRole::TrackBus || role == NodeRole::MasterBus
}

/// Views of an argument list.
pub open spec fn argv_view(v: Seq<String>) -> Seq<Seq<char>> {
    v.map_values(|s: String| s@)
}

/// Views of a list of commands.
pub open spec fn cmds_view(v: Seq<Vec<String>>) -> Seq<Seq<Seq<char>>> {
    v.map_values(|c: Vec<String>| argv_view(c@))
}

/// The `pactl` commands that create the null-sink of `spec`: load the
/// module at the clock's rate (stereo, front-left/front-right), then start
/// app buses and muted helpers muted at 0%, other helpers unmuted at 100%.
pub open spec fn create_cmds_spec(name: Seq<char>, description: Seq<char>, role: NodeRole, start_muted: bool, clock: ClockProps) -> Seq<Seq<Seq<char>>> {
    let load = seq![
        "load-module"@,
        "module-null-sink"@,
        "sink_name="@ + name,
        "rate="@ + decimal(clock.sample_rate as nat),
        "channels=2"@,
        "channel_map=front-left,front-right"@,
        sink_props_spec(description, clock),
    ];
    if is_app_bus(role) || start_muted {
        seq![load, seq!["set-sink-mute"@, name, "1"@], seq!["set-sink-volume"@, name, "0%"@]]
    } else {
        seq![load, seq!["set-sink-volume"@, name, "100%"@], seq!["set-sink-mute"@, name, "0"@]]
    }
}

fn argv3(a: &str, b: &str, c: &str) -> (r: Vec<String>)
    ensures
        argv_view(r@) == seq![a@, b@, c@],
{
    let v = vec![own(a), own(b), own(c)];
    assert(argv_view(v@) =~= seq![a@, b@, c@]);
    v
}

/// The `pactl` commands (arguments after `pactl`) that create the null-sink
/// of `spec` at `clock`; the first must succeed, the others are best effort.
pub fn create_null_sink(spec: &NodeSpec, clock: &ClockProps) -> (r: Vec<Vec<String>>)
    ensures
        cmds_view(r@) == create_cmds_spec(
            spec.name.0@,
            spec.description@,
            spec.role,
            spec.start_muted,
            *clock,
        ),
{
    let name = spec.name.as_str();
    let rate = u32_to_string(clock.sample_rate);
    let load = vec![
        own("load-module"),
        own("module-null-sink"),
        concat("sink_name=", name),
        concat("rate=", rate.as_str()),
        own("channels=2"),
        own("channel_map=front-left,front-right"),
        sink_props(spec.description.as_str(), clock),
    ];
    let app_bus = match spec.role {
        NodeRole::TrackBus | NodeRole::MasterBus => true,
        _ => false,
    };
    let ghost lv = argv_view(load@);
    let r = if app_bus || spec.start_muted {
        vec![load, argv3("set-sink-mute", name, "1"), argv3("set-sink-volume", name, "0%")]
    } else {
        vec![load, argv3("set-sink-volume", name, "100%"), argv3("set-sink-mute", name, "0")]
    };
    assert(lv =~= seq![
        "load-module"@,
        "module-null-sink"@,
        "sink_name="@ + name@,
        "rate="@ + decimal(clock.sample_rate as nat),
        "channels=2"@,
        "channel_map=front-left,front-right"@,
        sink_props_spec(spec.description@, *clock),
    ]);
    assert(cmds_view(r@) =~= create_cmds_spec(spec.name.0@, spec.description@, spec.role, spec.start_muted, *clock));
    r
}

/// What to do with a requested null-sink.
#[derive(Debug, PartialEq, Eq, Structural)]
pub enum EnsureAction {
    /// Keep it; push clock props and description.
    Keep,
    /// Unload the helper (wrong layout or rate), then create it anew.
    Recreate,
    /// Create it.
    Create,
}

/// App buses are never migrated here (cork risk); helpers are kept only
/// when stereo front-left/front-right at the clock's rate.
pub open spec fn ensure_spec(role: NodeRole, exists: bool, live_rate: Option<u32>, stereo: bool, rate: u32) -> EnsureAction {
    if !exists {
        EnsureAction::Create
    } else if is_app_bus(role) || (stereo && live_rate == Some(rate)) {
        EnsureAction::Keep
    } else {
        EnsureAction::Recreate
    }
}

/// Decide how to bring `spec` up: `exists` (listed by Pulse), its running
/// rate, and whether its channel map is stereo front-left/front-right.
pub fn ensure_null_sink(spec: &NodeSpec, clock: &ClockProps, exists: bool, live_rate: Option<u32>, stereo: bool) -> (r: EnsureAction)
    ensures
        r == ensure_spec(spec.role, exists, live_rate, stereo, clock.sample_rate),
{
    if !exists {
        return EnsureAction::Create;
    }
    let app_bus = match spec.role {
        NodeRole::TrackBus | NodeRole::MasterBus => true,
        _ => false,
    };
    if app_bus {
        return EnsureAction::Keep;
    }
    if stereo && live_rate == Some(clock.sample_rate) {
        return EnsureAction::Keep;
    }
    EnsureAction::Recreate
}

/// The `Props` body pushed onto a live sink for the clock.
pub open spec fn clock_body_spec(clock: ClockProps) -> Seq<char> {
    "{ node.latency = \""@ + clock.node_latency@ + "\" audio.rate = "@ + decimal(clock.sample_rate as nat)
        + " node.force-quantum = "@ + decimal(clock.quantum as nat) + " node.lock-quantum = "@ + lock_text(
        clock.soft_quantum,
    ) + " }"@
}

/// The `Props` body that pushes the clock onto a live sink.
pub fn clock_props_body(clock: &ClockProps) -> (r: String)
    ensures
        r@ == clock_body_spec(*clock),
{
    let a = concat3("{ node.latency = \"", clock.node_latency.as_str(), "\" audio.rate = ");
    let rate = u32_to_string(clock.sample_rate);
    let b = concat3(a.as_str(), rate.as_str(), " node.force-quantum = ");
    let q = u32_to_string(clock.quantum);
    let c = concat3(b.as_str(), q.as_str(), " node.lock-quantum = ");
    concat3(c.as_str(), lock_str(clock.soft_quantum), " }")
}

/// `s` with every `"` escaped.
pub open spec fn quote_escape(s: Seq<char>) -> Seq<char>
    decreases s.len(),
{
    if s.len() == 0 {
        Seq::empty()
    } else if s.last() == '"' {
        quote_escape(s.drop_last()).push('\\').push('"')
    } else {
        quote_escape(s.drop_last()).push(s.last())
    }
}

/// The `Props` body that renames a live null-sink.
pub fn description_body(description: &str) -> (r: String)
    ensures
        r@ == "{ device.description = \""@ + quote_escape(sanitize_spec(description@)) + "\" }"@,
{
    let d = sanitize_desc(description);
    let x = to_chars(d.as_str());
    let mut esc = String::new();
    let mut i: usize = 0;
    while i < x.len()
        invariant
            i <= x.len(),
            x@ == d@,
            esc@ == quote_escape(d@.take(i as int)),
        decreases x.len() - i,
    {
        assert(d@.take(i + 1).drop_last() =~= d@.take(i as int));
        assert(d@.take(i + 1).last() == x@[i as int]);
        if x[i] == '"' {
            push_char(&mut esc, '\\');
            push_char(&mut esc, '"');
        } else {
            push_char(&mut esc, x[i]);
        }
        i += 1;
    }
    assert(d@.take(x.len() as int) =~= d@);
    concat3("{ device.description = \"", esc.as_str(), "\" }")
}

/// Index of the first `module-null-sink` row whose arguments hold
/// `sink_name={name}`.
pub open spec fn null_sink_module_spec(ls: Seq<Seq<char>>, name: Seq<char>) -> Option<Seq<char>>
    decreases ls.len(),
{
    if ls.len() == 0 {
        None
    } else {
        match module_row(ls[0]) {
            Some((idx, m, args)) => if m == "module-null-sink"@ && has_infix(args, "sink_name="@ + name) {
                Some(idx)
            } else {
                null_sink_module_spec(ls.drop_first(), name)
            },
            None => null_sink_module_spec(ls.drop_first(), name),
        }
    }
}

/// The module to unload to remove null-sink `name`, from `pactl list short
/// modules`.
pub fn null_sink_module(modules: &str, name: &str) -> (r: Option<String>)
    ensures
        match r {
            Some(i) => null_sink_module_spec(lines_spec(modules@), name@) == Some(i@),
            None => null_sink_module_spec(lines_spec(modules@), name@) is None,
        },
{
    let ls = lines(modules);
    let ghost lv = ls@.map_values(|t: String| t@);
    let needle = concat("sink_name=", name);
    let mut i: usize = 0;
    assert(lv.skip(0) =~= lv);
    while i < ls.len()
        invariant
            i <= ls.len(),
            lv == ls@.map_values(|t: String| t@),
            lv == lines_spec(modules@),
            needle@ == "sink_name="@ + name@,
            null_sink_module_spec(lv, name@) == null_sink_module_spec(lv.skip(i as int), name@),
        decreases ls.len() - i,
    {
        assert(lv.skip(i as int)[0] == ls@[i as int]@);
        assert(lv.skip(i as int).drop_first() =~= lv.skip(i + 1));
        match parse_module_row(ls[i].as_str()) {
            Some(row) => {
                if str_eq(row.name.as_str(), "module-null-sink") && contains(row.args.as_str(), needle.as_str()) {
                    return Some(row.index);
                }
            },
            None => {},
        }
        i += 1;
    }
    None
}

/// Whether the channel map of sink `name` in `pactl list sinks` is stereo
/// front-left/front-right, scanning `ls` with `in_sink` telling whether the
/// block of that sink is open (unknown layouts count as stereo).
pub open spec fn stereo_scan(ls: Seq<Seq<char>>, name: Seq<char>, in_sink: bool) -> bool
    decreases ls.len(),
{
    if ls.len() == 0 {
        true
    } else {
        let line = ls[0];
        let a = if has_prefix(line, "Sink #"@) { false } else { in_sink };
        let b = if has_infix(line, "Name:"@) && has_infix(line, name) { true } else { a };
        if b && has_infix(line, "channel map:"@) {
            lower_stereo_map(lowercase(line))
        } else {
            stereo_scan(ls.drop_first(), name, b)
        }
    }
}

/// Whether sink `name` is stereo front-left/front-right per `pactl list
/// sinks` (`listing`); true when unknown.
pub fn sink_is_stereo_fl_fr(listing: &str, name: &str) -> (r: bool)
    ensures
        r == stereo_scan(lines_spec(listing@), name@, false),
{
    let ls = lines(listing);
    let ghost lv = ls@.map_values(|t: String| t@);
    let mut in_sink = false;
    let mut i: usize = 0;
    assert(lv.skip(0) =~= lv);
    while i < ls.len()
        invariant
            i <= ls.len(),
            lv == ls@.map_values(|t: String| t@),
            lv == lines_spec(listing@),
            stereo_scan(lv, name@, false) == stereo_scan(lv.skip(i as int), name@, in_sink),
        decreases ls.len() - i,
    {
        assert(lv.skip(i as int)[0] == ls@[i as int]@);
        assert(lv.skip(i as int).drop_first() =~= lv.skip(i + 1));
        let line = ls[i].as_str();
        if starts_with(line, "Sink #") {
            in_sink = false;
        }
        if contains(line, "Name:") && contains(line, name) {
            in_sink = true;
        }
        if in_sink && contains(line, "channel map:") {
            let map = to_lowercase(line);
            return lowered_stereo_map(map.as_str());
        }
        i += 1;
    }
    true
}

/// A lowercased `channel map:` line that names front-left and front-right.
pub open spec fn lower_stereo_map(line: Seq<char>) -> bool {
    has_infix(line, "front-left"@) && has_infix(line, "front-right"@)
}

/// `lower_stereo_map` on a lowercased channel-map line.
pub fn lowered_stereo_map(line: &str) -> (r: bool)
    ensures
        r == lower_stereo_map(line@),
{
    contains(line, "front-left") && contains(line, "front-right")
}

/// Index column of the row naming sink `name` in `pactl list short sinks`;
/// a row with no second column before it ends the search.
pub open spec fn sink_index_text_spec(ls: Seq<Seq<char>>, name: Seq<char>) -> Option<Seq<char>>
    decreases ls.len(),
{
    if ls.len() == 0 {
        None
    } else {
        let parts = split_spec(ls[0], '\t');
        if parts.len() < 2 {
            None
        } else if parts[1] == name {
            Some(parts[0])
        } else {
            sink_index_text_spec(ls.drop_first(), name)
        }
    }
}

/// The index column of sink `name` in `pactl list short sinks`.
pub fn sink_index_for_name(listing: &str, name: &str) -> (r: Option<String>)
    ensures
        match r {
            Some(i) => sink_index_text_spec(lines_spec(listing@), name@) == Some(i@),
            None => sink_index_text_spec(lines_spec(listing@), name@) is None,
        },
{
    let ls = lines(listing);
    let ghost lv = ls@.map_values(|t: String| t@);
    let mut i: usize = 0;
    assert(lv.skip(0) =~= lv);
    while i < ls.len()
        invariant
            i <= ls.len(),
            lv == ls@.map_values(|t: String| t@),
            lv == lines_spec(listing@),
            sink_index_text_spec(lv, name@) == sink_index_text_spec(lv.skip(i as int), name@),
        decreases ls.len() - i,
    {
        assert(lv.skip(i as int)[0] == ls@[i as int]@);
        assert(lv.skip(i as int).drop_first() =~= lv.skip(i + 1));
        let parts = split_char(ls[i].as_str(), '\t');
        let ghost pv = parts@.map_values(|t: String| t@);
        if parts.len() < 2 {
            return None;
        }
        assert(pv[0] == parts@[0]@ && pv[1] == parts@[1]@);
        if str_eq(parts[1].as_str(), name) {
            return Some(own(parts[0].as_str()));
        }
        i += 1;
    }
    None
}

/// Index columns of the rows of `pactl list short sink-inputs` whose second
/// column is `sink_idx`.
pub open spec fn inputs_on_spec(ls: Seq<Seq<char>>, sink_idx: Seq<char>) -> Seq<Seq<char>>
    decreases ls.len(),
{
    if ls.len() == 0 {
        Seq::empty()
    } else {
        let r = inputs_on_spec(ls.drop_last(), sink_idx);
        let parts = split_spec(ls.last(), '\t');
        if parts.len() >= 2 && parts[1] == sink_idx {
            r.push(parts[0])
        } else {
            r
        }
    }
}

/// The sink-inputs playing into the sink with index `sink_idx`, from
/// `pactl list short sink-inputs`.
pub fn list_sink_input_indices_on(listing: &str, sink_idx: &str) -> (r: Vec<String>)
    ensures
        argv_view(r@) == inputs_on_spec(lines_spec(listing@), sink_idx@),
{
    let ls = lines(listing);
    let ghost lv = ls@.map_values(|t: String| t@);
    let mut out: Vec<String> = Vec::new();
    let mut i: usize = 0;
    assert(argv_view(out@) =~= inputs_on_spec(lv.take(0), sink_idx@));
    while i < ls.len()
        invariant
            i <= ls.len(),
            lv == ls@.map_values(|t: String| t@),
            argv_view(out@) == inputs_on_spec(lv.take(i as int), sink_idx@),
        decreases ls.len() - i,
    {
        assert(lv.take(i + 1).drop_last() =~= lv.take(i as int));
        assert(lv.take(i + 1).last() == ls@[i as int]@);
        let parts = split_char(ls[i].as_str(), '\t');
        let ghost pv = parts@.map_values(|t: String| t@);
        if parts.len() >= 2 {
            assert(pv[0] == parts@[0]@ && pv[1] == parts@[1]@);
            if str_eq(parts[1].as_str(), sink_idx) {
                out.push(own(parts[0].as_str()));
            }
        }
        assert(argv_view(out@) =~= inputs_on_spec(lv.take(i + 1), sink_idx@));
        i += 1;
    }
    assert(lv.take(ls.len() as int) =~= lv);
    out
}


/// How an app bus moves to a new graph clock.
#[derive(Debug)]
pub enum Migration {
    /// The sink is missing: create it (`create_null_sink`).
    Create,
    /// It already runs at the clock's rate: push the clock props onto it.
    PushClock,
    /// Recreate it at the clock: create the hold sink when given, park the
    /// `park` streams on `buschain_hold`, unload and create the sink, unmute
    /// it at full volume and resume it when `unmute` (app buses), move the
    /// streams back, and wait for the rate to land.
    Recreate { hold: Option<NodeSpec>, park: Vec<String>, unmute: bool },
}

/// The parking sink for streams while a bus is recreated.
pub fn hold_spec() -> (r: NodeSpec)
    ensures
        r.name.0@ == "buschain_hold"@,
        r.description@ == "BusChainControl_Hold"@,
        r.role == NodeRole::Hold,
        r.start_muted,
        !r.pulse_export,
{
    NodeSpec {
        name: crate::domain::NodeName::new("buschain_hold"),
        description: own("BusChainControl_Hold"),
        role: NodeRole::Hold,
        start_muted: true,
        pulse_export: false,
    }
}

/// Unload and recreate the bus of `spec` at `clock`: `exists` (listed by
/// Pulse), its running rate, whether the hold sink exists, and the
/// sink-input indices on the bus.
pub fn migrate_recreate_null_sink(
    spec: &NodeSpec,
    clock: &ClockProps,
    exists: bool,
    live_rate: Option<u32>,
    hold_exists: bool,
    inputs: &Vec<String>,
) -> (r: Migration)
    ensures
        !exists ==> r is Create,
        exists && live_rate == Some(clock.sample_rate) ==> r is PushClock,
        exists && live_rate != Some(clock.sample_rate) ==> (r matches Migration::Recreate { hold, park, unmute }
            && argv_view(park@) == argv_view(inputs@) && unmute == is_app_bus(spec.role) && (hold_exists
            ==> hold is None) && (!hold_exists ==> (hold matches Some(h) && h.name.0@ == "buschain_hold"@
            && h.description@ == "BusChainControl_Hold"@ && h.role == NodeRole::Hold && h.start_muted))),
{
    if !exists {
        return Migration::Create;
    }
    if live_rate == Some(clock.sample_rate) {
        return Migration::PushClock;
    }
    let hold = if hold_exists {
        None
    } else {
        Some(hold_spec())
    };
    let mut park: Vec<String> = Vec::new();
    let mut i: usize = 0;
    while i < inputs.len()
        invariant
            i <= inputs.len(),
            argv_view(park@) == argv_view(inputs@.take(i as int)),
        decreases inputs.len() - i,
    {
        let ghost before = park@;
        let item = own(inputs[i].as_str());
        let ghost iv = item@;
        park.push(item);
        assert(inputs@.take(i + 1) =~= inputs@.take(i as int).push(inputs@[i as int]));
        assert(argv_view(park@) =~= argv_view(before).push(iv));
        assert(argv_view(park@) =~= argv_view(inputs@.take(i + 1)));
        i += 1;
    }
    assert(inputs@.take(inputs.len() as int) =~= inputs@);
    let unmute = match spec.role {
        NodeRole::TrackBus | NodeRole::MasterBus => true,
        _ => false,
    };
    Migration::Recreate { hold, park, unmute }
}

} // verus!
