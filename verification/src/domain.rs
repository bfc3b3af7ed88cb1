//! Typed graph identities: bus names, node roles, link and insert-chain names.
use vstd::prelude::*;

use crate::text::{concat, drop_prefix, has_prefix, own, starts_with, str_eq, strip_prefix, strip_prefix_spec, trim, trim_spec, without_prefix};

verus! {

/// Pulse-visible null-sink class (Master / virtual outputs).
pub const MEDIA_CLASS_PUBLIC_SINK: &'static str = "Audio/Sink";

/// Sealed helper class; such nodes stay out of `pactl` while keeping linkable ports.
pub const MEDIA_CLASS_INTERNAL_SINK: &'static str = "Audio/Sink/Internal";

/// Name is a BusChain-owned helper node (FX, post, meters, bridges, virtual inputs, hold).
pub open spec fn helper_name(s: Seq<char>) -> bool {
    has_prefix(s, "buschain_fx_"@) || has_prefix(s, "buschain_post_"@) || has_prefix(
        s,
        "buschain_mid_"@,
    ) || has_prefix(s, "buschain_mtr_"@) || has_prefix(s, "buschain_glc_"@) || has_prefix(
        s,
        "buschain_rs_"@,
    ) || has_prefix(s, "buschain_vinf_"@) || has_prefix(s, "buschain_vin_"@) || s
        == "buschain_hold"@
}

/// Stable logical bus / helper name (Pulse sink name).
#[derive(Debug, Clone, PartialEq, Eq, Hash)]
pub struct NodeName(pub String);

impl NodeName {
    pub fn new(s: &str) -> (r: Self)
        ensures
            r.0@ == s@,
    {
        NodeName(own(s))
    }

    pub fn as_str(&self) -> (r: &str)
        ensures
            r@ == self.0@,
    {
        self.0.as_str()
    }

    /// Any BusChain-owned name (`buschain_` prefix).
    pub fn is_shadow(&self) -> (r: bool)
        ensures
            r == has_prefix(self.0@, "buschain_"@),
    {
        starts_with(self.0.as_str(), "buschain_")
    }

    pub fn is_buschain_helper(&self) -> (r: bool)
        ensures
            r == helper_name(self.0@),
    {
        let s = self.0.as_str();
        starts_with(s, "buschain_fx_") || starts_with(s, "buschain_post_") || starts_with(
            s,
            "buschain_mid_",
        ) || starts_with(s, "buschain_mtr_") || starts_with(s, "buschain_glc_") || starts_with(
            s,
            "buschain_rs_",
        ) || starts_with(s, "buschain_vinf_") || starts_with(s, "buschain_vin_") || str_eq(
            s,
            "buschain_hold",
        )
    }

    pub fn is_rate_bridge(&self) -> (r: bool)
        ensures
            r == has_prefix(self.0@, "buschain_rs_"@),
    {
        starts_with(self.0.as_str(), "buschain_rs_")
    }

    /// Pulse monitor source name for a sink.
    pub fn monitor_source(&self) -> (r: String)
        ensures
            r@ == self.0@ + ".monitor"@,
    {
        concat(self.0.as_str(), ".monitor")
    }
}

/// Role of a BusChain-owned node.
#[derive(Debug, Clone, Copy, PartialEq, Eq)]
pub enum NodeRole {
    MasterBus,
    TrackBus,
    PostBus,
    Hold,
    FxSink,
    RateBridge,
    /// Internal null-sink that receives post/bus egress for a virtual mic remap.
    VirtualInputFeed,
    External,
}

impl NodeRole {
    /// Default Pulse export: only Master is public; helpers stay sealed.
    pub fn default_pulse_export(self) -> (r: bool)
        ensures
            r == (self is MasterBus),
    {
        match self {
            NodeRole::MasterBus => true,
            _ => false,
        }
    }
}

/// Desired null-sink / helper specification.
#[derive(Debug, Clone)]
pub struct NodeSpec {
    pub name: NodeName,
    pub description: String,
    pub role: NodeRole,
    /// When true, start muted at 0% (app-facing buses).
    pub start_muted: bool,
    /// Expose in desktop Output lists; otherwise created as the internal class.
    pub pulse_export: bool,
}

impl NodeSpec {
    pub fn media_class(&self) -> (r: &'static str)
        ensures
            r@ == (if self.pulse_export {
                MEDIA_CLASS_PUBLIC_SINK@
            } else {
                MEDIA_CLASS_INTERNAL_SINK@
            }),
    {
        if self.pulse_export {
            MEDIA_CLASS_PUBLIC_SINK
        } else {
            MEDIA_CLASS_INTERNAL_SINK
        }
    }

    pub fn with_pulse_export(self, export: bool) -> (r: Self)
        ensures
            r.pulse_export == export,
            r.name == self.name,
            r.description == self.description,
            r.role == self.role,
            r.start_muted == self.start_muted,
    {
        let mut s = self;
        s.pulse_export = export;
        s
    }
}

/// Stereo route hop (Pulse-style source → sink names).
#[derive(Debug, Clone, PartialEq, Eq, Hash)]
pub struct LinkSpec {
    /// Pulse source (often `bus.monitor` or capture name).
    pub source: String,
    /// Pulse sink name.
    pub sink: String,
    pub exclusive: bool,
}

/// Opaque backend handle (CLI backend uses names; native may use object ids).
#[derive(Debug, Clone, PartialEq, Eq, Hash)]
pub struct NodeId(pub String);

#[derive(Debug, Clone, PartialEq, Eq, Hash)]
pub struct LinkId(pub String);

/// Key/value props pushed to a live node.
#[derive(Debug, Clone)]
pub struct Props {
    pub entries: Vec<(String, String)>,
}

/// The entries of a prop bag as character sequences.
pub open spec fn props_view(p: Props) -> Seq<(Seq<char>, Seq<char>)> {
    p.entries@.map_values(|e: (String, String)| (e.0@, e.1@))
}

impl Props {
    pub fn new() -> (r: Self)
        ensures
            r.entries@.len() == 0,
    {
        Props { entries: Vec::new() }
    }

    /// Append one `key = value` entry.
    pub fn set(self, key: &str, value: &str) -> (r: Self)
        ensures
            props_view(r) == props_view(self).push((key@, value@)),
    {
        let mut s = self;
        let ghost before = props_view(s);
        s.entries.push((own(key), own(value)));
        assert(props_view(s) =~= before.push((key@, value@)));
        s
    }
}

/// Lightweight enumeration of sinks/sources for probing.
#[derive(Debug, Clone)]
pub struct DeviceNode {
    pub name: String,
    pub description: String,
}

#[derive(Debug, Clone)]
pub struct GraphSnapshot {
    pub sinks: Vec<DeviceNode>,
    pub sources: Vec<DeviceNode>,
}

// ---------------------------------------------------------------------------
// Insert chains
// ---------------------------------------------------------------------------

/// Plugin format for rack dispatch (LADSPA / LV2 / CLAP / VST3).
#[derive(Debug, Clone, Copy, PartialEq, Eq)]
pub enum InsertFormat {
    Ladspa,
    Lv2,
    Clap,
    Vst3,
}

/// Resolved physical nodes for the sealed wet path.
#[derive(Debug, Clone, PartialEq, Eq)]
pub struct WirePlan {
    pub bus: NodeName,
    pub fx_sink: NodeName,
    pub post_sink: NodeName,
    pub dest: String,
}

impl WirePlan {
    pub fn bus_monitor(&self) -> (r: String)
        ensures
            r@ == self.bus.0@ + ".monitor"@,
    {
        self.bus.monitor_source()
    }

    pub fn post_monitor(&self) -> (r: String)
        ensures
            r@ == self.post_sink.0@ + ".monitor"@,
    {
        self.post_sink.monitor_source()
    }
}

#[derive(Debug, Clone, Copy, PartialEq, Eq)]
pub enum ChainEnsureMode {
    /// Adopt if signature matches; never stop/spawn.
    ProbeOnly,
    /// Respawn when signature / audible path mismatches.
    Idempotent,
    /// Always respawn the filter-chain.
    ForceRespawn,
}

/// Live state of a bus insert chain.
#[derive(Debug, Clone)]
pub enum ChainState {
    /// No inserts — dry bus→dest.
    Dry,
    /// Spawn / wet switch in progress.
    Building,
    /// Audible through plugins.
    Wet(WirePlan),
    /// Rack non-empty but wet path failed.
    Failed(String),
}

impl ChainState {
    pub fn is_wet(&self) -> (r: bool)
        ensures
            r == (self is Wet),
    {
        match self {
            ChainState::Wet(_) => true,
            _ => false,
        }
    }

    pub fn wire(&self) -> (r: Option<&WirePlan>)
        ensures
            match self {
                ChainState::Wet(w) => r == Some(w),
                _ => r is None,
            },
    {
        match self {
            ChainState::Wet(w) => Some(w),
            _ => None,
        }
    }
}

/// Short name of a bus: `master`, the track id, or the name itself.
pub open spec fn bus_suffix_spec(bus: Seq<char>) -> Seq<char> {
    if bus == "buschain_master"@ {
        "master"@
    } else if has_prefix(bus, "buschain_track_"@) {
        bus.subrange("buschain_track_"@.len() as int, bus.len() as int)
    } else {
        bus
    }
}

pub fn bus_suffix(bus: &str) -> (r: String)
    ensures
        r@ == bus_suffix_spec(bus@),
{
    if str_eq(bus, "buschain_master") {
        own("master")
    } else {
        match strip_prefix(bus, "buschain_track_") {
            Some(rest) => rest,
            None => own(bus),
        }
    }
}

pub fn fx_name_for_bus(bus: &str) -> (r: String)
    ensures
        r@ == "buschain_fx_"@ + bus_suffix_spec(bus@),
{
    let s = bus_suffix(bus);
    concat("buschain_fx_", s.as_str())
}

pub fn post_name_for_bus(bus: &str) -> (r: String)
    ensures
        r@ == "buschain_post_"@ + bus_suffix_spec(bus@),
{
    let s = bus_suffix(bus);
    concat("buschain_post_", s.as_str())
}

/// LADSPA label as the catalog stores it: no `ladspa:` prefix, trimmed, and
/// pre-rebrand `shadow_*` labels rewritten to `buschain_*`.
pub open spec fn normalize_ladspa_label_spec(id: Seq<char>) -> Seq<char> {
    let t = trim_spec(without_prefix(id, "ladspa:"@));
    match strip_prefix_spec(t, "shadow_"@) {
        Some(rest) => "buschain_"@ + rest,
        None => t,
    }
}

pub fn normalize_ladspa_label(id: &str) -> (r: String)
    ensures
        r@ == normalize_ladspa_label_spec(id@),
{
    let stripped = drop_prefix(id, "ladspa:");
    let t = trim(stripped.as_str());
    match strip_prefix(t.as_str(), "shadow_") {
        Some(rest) => concat("buschain_", rest.as_str()),
        None => t,
    }
}


/// Lowercase hex digit for `d < 16`.
pub open spec fn hex_char(d: nat) -> char {
    if d < 10 {
        ((d + 48) as u32) as char
    } else {
        ((d + 87) as u32) as char
    }
}

/// The low `n` hex digits of `v`, most significant first, zero-padded
/// (a UUID's simple form is `hex_of(value, 32)`).
pub open spec fn hex_of(v: nat, n: nat) -> Seq<char>
    decreases n,
{
    if n == 0 {
        Seq::empty()
    } else {
        hex_of(v / 16, (n - 1) as nat).push(hex_char(v % 16))
    }
}

fn hex_digits(v: u128, n: usize) -> (r: String)
    ensures
        r@ == hex_of(v as nat, n as nat),
    decreases n,
{
    if n == 0 {
        return String::new();
    }
    let mut s = hex_digits(v / 16, n - 1);
    let d = (v % 16) as u8;
    let c = if d < 10 {
        (d + 48) as char
    } else {
        (d + 87) as char
    };
    crate::text::push_char(&mut s, c);
    s
}

/// One insert of a track rack as wiring reads it (its control values stay
/// with the app). The engine wires audio through it and never opens its UI.
#[derive(Debug)]
pub struct InsertSlot {
    /// The slot's UUID, as its 128-bit value.
    pub slot_id: u128,
    /// Plugin id / LADSPA label / CLAP id.
    pub plugin_key: String,
    /// Module path when known (preferred), else the stem.
    pub plugin_so: String,
    pub format: InsertFormat,
    /// Sidechain source bus (monitor tap), when the plugin takes aux input.
    pub sidechain_from: Option<String>,
}

/// Desired insert chain for one bus.
#[derive(Debug)]
pub struct ChainSpec {
    pub bus: NodeName,
    /// Rack order = process order.
    pub inserts: Vec<InsertSlot>,
    /// Exclusive wet destination (`buschain_master` or a hardware sink).
    pub dest: String,
}

/// One insert's part of the topology fingerprint: `<uuid>:<label>:sc=<source or ->`.
pub open spec fn slot_signature(p: InsertSlot) -> Seq<char> {
    hex_of(p.slot_id as nat, 32) + ":"@ + normalize_ladspa_label_spec(p.plugin_key@) + ":sc="@ + match p.sidechain_from {
        Some(sc) => sc@,
        None => "-"@,
    }
}

/// Topology fingerprint of a rack: slot order, plugin keys and sidechains
/// (not bypass or knob values), behind the `stereo2` IO layout.
pub open spec fn inserts_signature_spec(inserts: Seq<InsertSlot>) -> Seq<char> {
    "stereo2|"@ + crate::contract::join_spec(inserts.map_values(|p: InsertSlot| slot_signature(p)), "|"@)
}

fn slot_signature_of(p: &InsertSlot) -> (r: String)
    ensures
        r@ == slot_signature(*p),
{
    let id = hex_digits(p.slot_id, 32);
    let a = concat(id.as_str(), ":");
    let label = normalize_ladspa_label(p.plugin_key.as_str());
    let b = concat(a.as_str(), label.as_str());
    let c = concat(b.as_str(), ":sc=");
    match &p.sidechain_from {
        Some(sc) => concat(c.as_str(), sc.as_str()),
        None => concat(c.as_str(), "-"),
    }
}

/// Topology fingerprint for Props gating (see `inserts_signature_spec`).
pub fn inserts_signature(inserts: &[InsertSlot]) -> (r: String)
    ensures
        r@ == inserts_signature_spec(inserts@),
{
    let ghost parts = inserts@.map_values(|p: InsertSlot| slot_signature(p));
    let mut body = String::new();
    let mut i: usize = 0;
    while i < inserts.len()
        invariant
            i <= inserts.len(),
            parts == inserts@.map_values(|p: InsertSlot| slot_signature(p)),
            body@ == crate::contract::join_spec(parts.take(i as int), "|"@),
        decreases inserts.len() - i,
    {
        assert(parts.take(i + 1).drop_last() =~= parts.take(i as int));
        assert(parts.take(i + 1).last() == slot_signature(inserts@[i as int]));
        let item = slot_signature_of(&inserts[i]);
        if i == 0 {
            body = item;
            assert(parts.take(1).len() == 1);
        } else {
            let with_sep = concat(body.as_str(), "|");
            body = concat(with_sep.as_str(), item.as_str());
        }
        i += 1;
    }
    assert(parts.take(inserts.len() as int) =~= parts);
    concat("stereo2|", body.as_str())
}

impl ChainSpec {
    /// Resolved physical nodes of the sealed wet path (canonical names).
    pub fn wire_plan(&self) -> (r: WirePlan)
        ensures
            r.bus.0@ == self.bus.0@,
            r.fx_sink.0@ == "buschain_fx_"@ + bus_suffix_spec(self.bus.0@),
            r.post_sink.0@ == "buschain_post_"@ + bus_suffix_spec(self.bus.0@),
            r.dest@ == self.dest@,
    {
        WirePlan {
            bus: NodeName::new(self.bus.as_str()),
            fx_sink: NodeName(fx_name_for_bus(self.bus.as_str())),
            post_sink: NodeName(post_name_for_bus(self.bus.as_str())),
            dest: own(self.dest.as_str()),
        }
    }

    /// The rack's topology fingerprint.
    pub fn signature(&self) -> (r: String)
        ensures
            r@ == inserts_signature_spec(self.inserts@),
    {
        inserts_signature(self.inserts.as_slice())
    }
}

} // verus!
