//! System virtual input of a track bus: a feed null-sink plus a Pulse
//! remap-source that applications capture from (`buschain_vin_{suffix}`,
//! fed through `buschain_vinf_{suffix}`).
use vstd::prelude::*;

use crate::domain::{NodeName, NodeRole, NodeSpec};
use crate::modules::{module_row, parse_module_row};
use crate::null_sink::{argv_view, sanitize_desc, sanitize_spec};
use crate::text::{
    concat, concat3, has_infix, has_prefix, lines, lines_spec, own, starts_with, str_eq, strip_prefix,
    strip_prefix_spec, tokens, tokens_spec, trim, trim_spec,
};

verus! {

/// `(vin_source, vinf_feed)` of a track bus.
pub open spec fn names_spec(bus: Seq<char>) -> Option<(Seq<char>, Seq<char>)> {
    match strip_prefix_spec(bus, "buschain_track_"@) {
        Some(suffix) => if suffix.len() > 0 {
            Some(("buschain_vin_"@ + suffix, "buschain_vinf_"@ + suffix))
        } else {
            None
        },
        None => None,
    }
}

/// `(vin_source, vinf_feed)` for a track bus; none for Master or non-track
/// buses.
pub fn names_for_bus(bus: &str) -> (r: Option<(String, String)>)
    ensures
        match r {
            Some((v, f)) => names_spec(bus@) == Some((v@, f@)),
            None => names_spec(bus@) is None,
        },
{
    let suffix = match strip_prefix(bus, "buschain_track_") {
        Some(s) => s,
        None => return None,
    };
    if suffix.as_str().is_empty() {
        return None;
    }
    Some((concat("buschain_vin_", suffix.as_str()), concat("buschain_vinf_", suffix.as_str())))
}

/// A virtual-input capture source.
pub fn is_virtual_input_source(name: &str) -> (r: bool)
    ensures
        r == has_prefix(name@, "buschain_vin_"@),
{
    starts_with(name, "buschain_vin_")
}

/// A virtual-input feed sink.
pub fn is_virtual_input_feed(name: &str) -> (r: bool)
    ensures
        r == has_prefix(name@, "buschain_vinf_"@),
{
    starts_with(name, "buschain_vinf_")
}

/// Module arguments carry `source_name={name}` as a whole token.
pub open spec fn args_name_source(toks: Seq<Seq<char>>, name: Seq<char>) -> bool {
    exists|k: int| 0 <= k < toks.len() && strip_prefix_spec(#[trigger] toks[k], "source_name="@) == Some(name)
}

/// Whether module arguments name the source `name`.
pub fn module_args_source_name(args: &str, name: &str) -> (r: bool)
    ensures
        r == args_name_source(tokens_spec(args@), name@),
{
    let toks = tokens(args);
    let ghost tv = toks@.map_values(|t: String| t@);
    let mut i: usize = 0;
    while i < toks.len()
        invariant
            i <= toks.len(),
            tv == toks@.map_values(|t: String| t@),
            tv == tokens_spec(args@),
            forall|k: int| 0 <= k < i ==> strip_prefix_spec(#[trigger] tv[k], "source_name="@) != Some(name@),
        decreases toks.len() - i,
    {
        assert(tv[i as int] == toks@[i as int]@);
        match strip_prefix(toks[i].as_str(), "source_name=") {
            Some(v) => if str_eq(v.as_str(), name) {
                return true;
            },
            None => {},
        }
        i += 1;
    }
    false
}

/// Indices of every `module-remap-source` whose arguments name `name`.
pub open spec fn remap_modules_spec(ls: Seq<Seq<char>>, name: Seq<char>) -> Seq<Seq<char>>
    decreases ls.len(),
{
    if ls.len() == 0 {
        Seq::empty()
    } else {
        let r = remap_modules_spec(ls.drop_last(), name);
        match module_row(ls.last()) {
            Some((idx, m, args)) => if m == "module-remap-source"@ && args_name_source(tokens_spec(args), name) {
                r.push(idx)
            } else {
                r
            },
            None => r,
        }
    }
}

/// The remap-source modules to unload for source `name`, from `pactl list
/// short modules`.
pub fn remap_source_modules(modules: &str, name: &str) -> (r: Vec<String>)
    ensures
        argv_view(r@) == remap_modules_spec(lines_spec(modules@), name@),
{
    let ls = lines(modules);
    let ghost lv = ls@.map_values(|t: String| t@);
    let mut out: Vec<String> = Vec::new();
    let mut i: usize = 0;
    assert(argv_view(out@) =~= remap_modules_spec(lv.take(0), name@));
    while i < ls.len()
        invariant
            i <= ls.len(),
            lv == ls@.map_values(|t: String| t@),
            argv_view(out@) == remap_modules_spec(lv.take(i as int), name@),
        decreases ls.len() - i,
    {
        assert(lv.take(i + 1).drop_last() =~= lv.take(i as int));
        assert(lv.take(i + 1).last() == ls@[i as int]@);
        match parse_module_row(ls[i].as_str()) {
            Some(row) => {
                if str_eq(row.name.as_str(), "module-remap-source") && module_args_source_name(row.args.as_str(), name) {
                    out.push(row.index);
                }
            },
            None => {},
        }
        assert(argv_view(out@) =~= remap_modules_spec(lv.take(i + 1), name@));
        i += 1;
    }
    assert(lv.take(ls.len() as int) =~= lv);
    out
}

/// In a `pw-link -l` listing, scanning trimmed lines: a line starting with
/// `{feed}:monitor_FL` (not an arrow line) opens the feed's block; an
/// `|->` line in it that mentions `input.{vin}` or `vin` means the remap
/// capture hears the feed; any non-`|` line closes the block.
pub open spec fn hears_scan(ls: Seq<Seq<char>>, mon_fl: Seq<char>, input: Seq<char>, vin: Seq<char>, under: bool) -> bool
    decreases ls.len(),
{
    if ls.len() == 0 {
        false
    } else {
        let t = trim_spec(ls[0]);
        if has_prefix(t, mon_fl) && !has_infix(t, "|->"@) && !has_infix(t, "|<-"@) {
            hears_scan(ls.drop_first(), mon_fl, input, vin, true)
        } else if under && has_prefix(t, "|->"@) {
            if has_infix(t, input) || has_infix(t, vin) {
                true
            } else {
                hears_scan(ls.drop_first(), mon_fl, input, vin, under)
            }
        } else if under && !has_prefix(t, "|"@) {
            hears_scan(ls.drop_first(), mon_fl, input, vin, false)
        } else {
            hears_scan(ls.drop_first(), mon_fl, input, vin, under)
        }
    }
}

/// Whether `{feed}.monitor` is linked into the remap capture of `vin`, from
/// a `pw-link -l` listing (the CLI view when the registry is down).
pub fn remap_hears_feed_in_listing(listing: &str, feed: &str, vin: &str) -> (r: bool)
    ensures
        r == hears_scan(lines_spec(listing@), feed@ + ":monitor_FL"@, "input."@ + vin@, vin@, false),
{
    let mon_fl = concat(feed, ":monitor_FL");
    let input = concat("input.", vin);
    let ls = lines(listing);
    let ghost lv = ls@.map_values(|t: String| t@);
    let mut under = false;
    let mut i: usize = 0;
    assert(lv.skip(0) =~= lv);
    while i < ls.len()
        invariant
            i <= ls.len(),
            lv == ls@.map_values(|t: String| t@),
            lv == lines_spec(listing@),
            mon_fl@ == feed@ + ":monitor_FL"@,
            input@ == "input."@ + vin@,
            hears_scan(lv, mon_fl@, input@, vin@, false) == hears_scan(lv.skip(i as int), mon_fl@, input@, vin@, under),
        decreases ls.len() - i,
    {
        assert(lv.skip(i as int)[0] == ls@[i as int]@);
        assert(lv.skip(i as int).drop_first() =~= lv.skip(i + 1));
        let t = trim(ls[i].as_str());
        let s = t.as_str();
        if starts_with(s, mon_fl.as_str()) && !crate::text::contains(s, "|->") && !crate::text::contains(s, "|<-") {
            under = true;
        } else if under && starts_with(s, "|->") {
            if crate::text::contains(s, input.as_str()) || crate::text::contains(s, vin) {
                return true;
            }
        } else if under && !starts_with(s, "|") {
            under = false;
        }
        i += 1;
    }
    false
}

/// The feed null-sink of a virtual input (internal, unmuted at creation).
pub fn feed_spec(feed: &str, description: &str) -> (r: NodeSpec)
    ensures
        r.name.0@ == feed@,
        r.description@ == description@ + "_VinFeed"@,
        r.role == NodeRole::VirtualInputFeed,
        !r.start_muted,
        !r.pulse_export,
{
    NodeSpec {
        name: NodeName::new(feed),
        description: concat(description, "_VinFeed"),
        role: NodeRole::VirtualInputFeed,
        start_muted: false,
        pulse_export: false,
    }
}

/// The `pactl load-module module-remap-source` arguments of a virtual input.
pub open spec fn remap_args_spec(vin: Seq<char>, feed: Seq<char>, description: Seq<char>) -> Seq<Seq<char>> {
    seq![
        "load-module"@,
        "module-remap-source"@,
        "source_name="@ + vin,
        "master="@ + feed + ".monitor"@,
        "channels=2"@,
        "channel_map=front-left,front-right"@,
        "source_properties=device.description="@ + sanitize_spec(description) + " media.name=buschain-control node.virtual=true"@,
    ]
}

/// Arguments after `pactl` that load the remap source `vin` over `feed`.
pub fn remap_source_args(vin: &str, feed: &str, description: &str) -> (r: Vec<String>)
    ensures
        argv_view(r@) == remap_args_spec(vin@, feed@, description@),
{
    let desc = sanitize_desc(description);
    let master = concat3("master=", feed, ".monitor");
    let props = concat3("source_properties=device.description=", desc.as_str(), " media.name=buschain-control node.virtual=true");
    let v = vec![
        own("load-module"),
        own("module-remap-source"),
        concat("source_name=", vin),
        master,
        own("channels=2"),
        own("channel_map=front-left,front-right"),
        props,
    ];
    assert(argv_view(v@) =~= remap_args_spec(vin@, feed@, description@));
    v
}

/// What tearing down a virtual input unloads.
#[derive(Debug)]
pub struct Teardown {
    /// Remap-source modules to unload.
    pub remap_modules: Vec<String>,
    /// Feed null-sink to unload.
    pub feed: String,
}

/// Unload the remap source and the feed null-sink of a track bus (nothing
/// for other buses); `modules` is `pactl list short modules`.
pub fn teardown_virtual_input(bus: &str, modules: &str) -> (r: Option<Teardown>)
    ensures
        match r {
            Some(t) => names_spec(bus@) matches Some((v, f)) && t.feed@ == f && argv_view(t.remap_modules@)
                == remap_modules_spec(lines_spec(modules@), v),
            None => names_spec(bus@) is None,
        },
{
    match names_for_bus(bus) {
        Some((vin, feed)) => Some(Teardown { remap_modules: remap_source_modules(modules, vin.as_str()), feed }),
        None => None,
    }
}

/// The vin source whose description to refresh after a track rename, with
/// the `Props` body: only for a track bus whose source exists.
pub fn push_virtual_input_description(bus: &str, description: &str, source_exists: bool) -> (r: Option<(String, String)>)
    ensures
        match r {
            Some((v, body)) => source_exists && (names_spec(bus@) matches Some((vs, f)) && v@ == vs && body@
                == "{ device.description = \""@ + crate::null_sink::quote_escape(sanitize_spec(description@)) + "\" }"@),
            None => !source_exists || names_spec(bus@) is None,
        },
{
    match names_for_bus(bus) {
        Some((vin, _)) => {
            if !source_exists {
                return None;
            }
            let body = crate::null_sink::description_body(description);
            Some((vin, body))
        },
        None => None,
    }
}


/// How the remap source of a virtual input is brought up.
#[derive(Debug, Clone, Copy, PartialEq, Eq, Structural)]
pub enum VinStart {
    /// The source exists and hears its feed: only refresh its description.
    Describe,
    /// The source exists but no longer hears its feed (its capture links
    /// were stripped): unload it, pause briefly, load it again.
    Reload,
    /// No source yet: load it.
    Load,
}

/// What ensuring a track's virtual input does: ensure the feed null-sink
/// (and unmute it at full volume), then bring up the remap source.
#[derive(Debug)]
pub struct VinPlan {
    pub vin: String,
    pub feed: String,
    pub feed_spec: NodeSpec,
    pub start: VinStart,
    /// Arguments after `pactl` that load the remap source.
    pub remap_args: Vec<String>,
}

/// The error for a bus that is not a track bus.
pub open spec fn not_track_msg(bus: Seq<char>) -> Seq<char> {
    "virtual input only for buschain_track_* (got "@ + bus + ")"@
}

/// Ensure the system virtual input of `bus`, given whether its remap source
/// exists and whether it hears the feed's monitor.
pub fn ensure_virtual_input(bus: &str, description: &str, source_exists: bool, hears_feed: bool) -> (r: Result<
    VinPlan,
    String,
>)
    ensures
        match r {
            Ok(p) => names_spec(bus@) == Some((p.vin@, p.feed@)) && p.feed_spec.name.0@ == p.feed@
                && p.feed_spec.description@ == description@ + "_VinFeed"@ && p.feed_spec.role
                == NodeRole::VirtualInputFeed && !p.feed_spec.start_muted && !p.feed_spec.pulse_export
                && p.start == (if source_exists && hears_feed {
                VinStart::Describe
            } else if source_exists {
                VinStart::Reload
            } else {
                VinStart::Load
            }) && argv_view(p.remap_args@) == remap_args_spec(p.vin@, p.feed@, description@),
            Err(e) => names_spec(bus@) is None && e@ == not_track_msg(bus@),
        },
{
    let (vin, feed) = match names_for_bus(bus) {
        Some(n) => n,
        None => return Err(concat3("virtual input only for buschain_track_* (got ", bus, ")")),
    };
    let spec = feed_spec(feed.as_str(), description);
    let start = if source_exists && hears_feed {
        VinStart::Describe
    } else if source_exists {
        VinStart::Reload
    } else {
        VinStart::Load
    };
    let remap_args = remap_source_args(vin.as_str(), feed.as_str(), description);
    Ok(VinPlan { vin, feed, feed_spec: spec, start, remap_args })
}

} // verus!
