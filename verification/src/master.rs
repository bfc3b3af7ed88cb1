//! Graph clock-master policy: Master HW must win PipeWire driver election.
//!
//! PipeWire clocks the whole graph off the running node with the highest
//! `priority.driver`; WirePlumber's defaults rank capture above playback, so
//! an adopted track input would otherwise clock Master HW. The only lever is
//! a WirePlumber rule applied when nodes are created: this module renders
//! that drop-in and inspects the live election (from `pw-dump` records).
use vstd::prelude::*;

use crate::ordset::{insert_sorted_str, sorted_strs, strs_view};
use crate::text::{concat, has_prefix, opt_view, own, push_char, starts_with, str_eq, without_suffix, drop_suffix, to_chars};

verus! {

/// Drop-in file name (sorted after the shipped `51-buschain-seal-helpers.conf`).
pub const RULE_FILE: &'static str = "53-buschain-master-hw-clock.conf";

/// Above WirePlumber's USB capture default (2109) with room for user overrides.
pub const MASTER_HW_DRIVER_PRIORITY: i64 = 5000;

/// Below every playback default (HDMI about 700): inputs only drive when alone.
pub const INPUT_DRIVER_PRIORITY: i64 = 100;

/// The node currently clocking the graph for a given follower.
#[derive(Debug)]
pub struct GraphDriver {
    pub id: u32,
    pub name: String,
    pub priority: i64,
    pub card_name: Option<String>,
    /// Rates the driver advertises in `EnumFormat` (empty when unknown).
    pub native_rates: Vec<u32>,
}

impl GraphDriver {
    /// True when the driver advertises rates and `rate` is not one of them.
    pub fn cannot_run_natively(&self, rate: u32) -> (r: bool)
        ensures
            r == (self.native_rates@.len() > 0 && !self.native_rates@.contains(rate)),
    {
        self.native_rates.len() > 0 && !crate::ordset::contains_u32(self.native_rates.as_slice(), rate)
    }
}

/// An empty rate list never makes a driver unable to run a rate.
pub proof fn law_unknown_rates_run_natively(d: GraphDriver, rate: u32)
    requires
        d.native_rates@.len() == 0,
    ensures
        !(d.native_rates@.len() > 0 && !d.native_rates@.contains(rate)),
{
}

/// Outcome of inspecting who clocks Master HW.
#[derive(Debug)]
pub enum ClockOwner {
    /// Master HW (or a sibling node on the same ALSA card) is the graph driver.
    MasterHw(GraphDriver),
    /// Another device clocks the graph: Master HW is a resampled follower.
    Foreign(GraphDriver),
    /// Master HW is not running, not found, or `pw-dump` unavailable.
    Unknown,
}

/// What the election logic reads of one `pw-dump` object.
#[derive(Debug)]
pub struct DumpNode {
    /// `id`.
    pub id: Option<u32>,
    /// `/info/props` is present.
    pub has_props: bool,
    /// `node.name`.
    pub name: Option<String>,
    /// `/info/state`.
    pub state: Option<String>,
    /// `node.driver-id` (integer or numeric string).
    pub driver_id: Option<i64>,
    /// `priority.driver` (integer or numeric string).
    pub priority_driver: Option<i64>,
    /// `api.alsa.card.name`.
    pub card_name: Option<String>,
    /// `alsa.card_name`.
    pub card_name_alt: Option<String>,
    /// `api.alsa.split.name`.
    pub split_name: Option<String>,
    /// ALSA card number (`alsa.card`, `api.alsa.card`, or from `api.alsa.path`).
    pub alsa_card: Option<u32>,
    /// `alsa.card` alone.
    pub alsa_card_prop: Option<u32>,
    /// `api.alsa.card` alone.
    pub api_alsa_card_prop: Option<u32>,
    /// Rates advertised in `EnumFormat` / `Format`, sorted.
    pub enum_rates: Vec<u32>,
    /// The first plain rate of its current `Format` within 8 kHz–384 kHz.
    pub format_rate: Option<u32>,
}

/// The object is a node named `name`.
pub open spec fn named(o: DumpNode, name: Seq<char>) -> bool {
    o.has_props && opt_view(o.name) == Some(name)
}

/// Index of the first node named `name`.
pub open spec fn first_named(dump: Seq<DumpNode>, name: Seq<char>) -> Option<int>
    decreases dump.len(),
{
    if dump.len() == 0 {
        None
    } else if named(dump[0], name) {
        Some(0)
    } else {
        match first_named(dump.drop_first(), name) {
            Some(i) => Some(i + 1),
            None => None,
        }
    }
}

/// Index of the first node with global id `id`.
pub open spec fn first_with_id(dump: Seq<DumpNode>, id: u32) -> Option<int>
    decreases dump.len(),
{
    if dump.len() == 0 {
        None
    } else if dump[0].id == Some(id) && dump[0].has_props {
        Some(0)
    } else {
        match first_with_id(dump.drop_first(), id) {
            Some(i) => Some(i + 1),
            None => None,
        }
    }
}

/// ALSA card of the first node named `name` that has one.
pub open spec fn card_of(dump: Seq<DumpNode>, name: Seq<char>) -> Option<u32>
    decreases dump.len(),
{
    if dump.len() == 0 {
        None
    } else if named(dump[0], name) && dump[0].alsa_card is Some {
        dump[0].alsa_card
    } else {
        card_of(dump.drop_first(), name)
    }
}

fn find_named(dump: &Vec<DumpNode>, name: &str) -> (r: Option<usize>)
    ensures
        match r {
            Some(j) => first_named(dump@, name@) == Some(j as int),
            None => first_named(dump@, name@) is None,
        },
{
    let mut i: usize = 0;
    assert(dump@.skip(0) =~= dump@);
    while i < dump.len()
        invariant
            i <= dump.len(),
            first_named(dump@, name@) == (match first_named(dump@.skip(i as int), name@) {
                Some(k) => Some(k + i),
                None => None::<int>,
            }),
        decreases dump.len() - i,
    {
        assert(dump@.skip(i as int)[0] == dump@[i as int]);
        assert(dump@.skip(i as int).drop_first() =~= dump@.skip(i + 1));
        let hit = dump[i].has_props && match &dump[i].name {
            Some(n) => str_eq(n.as_str(), name),
            None => false,
        };
        if hit {
            return Some(i);
        }
        i += 1;
    }
    None
}

fn find_with_id(dump: &Vec<DumpNode>, id: u32) -> (r: Option<usize>)
    ensures
        match r {
            Some(j) => first_with_id(dump@, id) == Some(j as int),
            None => first_with_id(dump@, id) is None,
        },
{
    let mut i: usize = 0;
    assert(dump@.skip(0) =~= dump@);
    while i < dump.len()
        invariant
            i <= dump.len(),
            first_with_id(dump@, id) == (match first_with_id(dump@.skip(i as int), id) {
                Some(k) => Some(k + i),
                None => None::<int>,
            }),
        decreases dump.len() - i,
    {
        assert(dump@.skip(i as int)[0] == dump@[i as int]);
        assert(dump@.skip(i as int).drop_first() =~= dump@.skip(i + 1));
        if dump[i].id == Some(id) && dump[i].has_props {
            return Some(i);
        }
        i += 1;
    }
    None
}

pub(crate) fn find_alsa_card(dump: &Vec<DumpNode>, name: &str) -> (r: Option<u32>)
    ensures
        r == card_of(dump@, name@),
{
    let mut i: usize = 0;
    assert(dump@.skip(0) =~= dump@);
    while i < dump.len()
        invariant
            i <= dump.len(),
            card_of(dump@, name@) == card_of(dump@.skip(i as int), name@),
        decreases dump.len() - i,
    {
        assert(dump@.skip(i as int)[0] == dump@[i as int]);
        assert(dump@.skip(i as int).drop_first() =~= dump@.skip(i + 1));
        let hit = dump[i].has_props && match &dump[i].name {
            Some(n) => str_eq(n.as_str(), name),
            None => false,
        };
        if hit && dump[i].alsa_card.is_some() {
            return dump[i].alsa_card;
        }
        i += 1;
    }
    None
}

fn copy_opt(o: &Option<String>) -> (r: Option<String>)
    ensures
        opt_view(r) == opt_view(*o),
{
    match o {
        Some(s) => Some(own(s.as_str())),
        None => None,
    }
}

/// Card name of a node record: `api.alsa.card.name`, else `alsa.card_name`.
pub open spec fn record_card_name(o: DumpNode) -> Option<Seq<char>> {
    match opt_view(o.card_name) {
        Some(c) => Some(c),
        None => opt_view(o.card_name_alt),
    }
}

/// `api.alsa.card.name` of the node `node` (a `.monitor` suffix ignored).
pub open spec fn card_name_spec(dump: Seq<DumpNode>, node: Seq<char>) -> Option<Seq<char>> {
    match first_named(dump, without_suffix(node, ".monitor"@)) {
        Some(i) => record_card_name(dump[i]),
        None => None,
    }
}

fn card_name_in(dump: &Vec<DumpNode>, node: &str) -> (r: Option<String>)
    ensures
        opt_view(r) == card_name_spec(dump@, node@),
{
    let n = drop_suffix(node, ".monitor");
    let i = match find_named(dump, n.as_str()) {
        Some(i) => i,
        None => return None,
    };
    proof {
        lemma_first_named_in_range(dump@, n@);
    }
    match &dump[i].card_name {
        Some(c) => Some(own(c.as_str())),
        None => copy_opt(&dump[i].card_name_alt),
    }
}

proof fn lemma_first_named_in_range(dump: Seq<DumpNode>, name: Seq<char>)
    ensures
        first_named(dump, name) matches Some(i) ==> 0 <= i < dump.len() && named(dump[i], name),
    decreases dump.len(),
{
    if dump.len() > 0 && !named(dump[0], name) {
        lemma_first_named_in_range(dump.drop_first(), name);
    }
}

proof fn lemma_first_with_id_in_range(dump: Seq<DumpNode>, id: u32)
    ensures
        first_with_id(dump, id) matches Some(i) ==> 0 <= i < dump.len() && dump[i].id == Some(id) && dump[i].has_props,
    decreases dump.len(),
{
    if dump.len() > 0 && !(dump[0].id == Some(id) && dump[0].has_props) {
        lemma_first_with_id_in_range(dump.drop_first(), id);
    }
}

/// `api.alsa.card.name` of a node (identical on every node of one card): the
/// key the generated rule matches on. None without a dump.
pub fn alsa_card_name(dump: Option<&Vec<DumpNode>>, node: &str) -> (r: Option<String>)
    ensures
        opt_view(r) == match dump {
            Some(d) => card_name_spec(d@, node@),
            None => None,
        },
{
    match dump {
        Some(d) => card_name_in(d, node),
        None => None,
    }
}

/// Kinds of `ClockOwner`.
#[derive(PartialEq, Eq, Structural)]
pub enum OwnerKind {
    MasterHw,
    Foreign,
    Unknown,
}

/// Who clocks `master_hw`, with the index of the driver's record: Unknown
/// unless Master HW is found, running, and names a recorded driver.
pub open spec fn owner_spec(dump: Seq<DumpNode>, master_hw: Seq<char>) -> (OwnerKind, int) {
    let hw = without_suffix(master_hw, ".monitor"@);
    if hw.len() == 0 {
        (OwnerKind::Unknown, 0)
    } else {
        match first_named(dump, hw) {
            None => (OwnerKind::Unknown, 0),
            Some(h) => {
                let hn = dump[h];
                if opt_view(hn.state) != Some("running"@) {
                    (OwnerKind::Unknown, 0)
                } else if !(hn.driver_id matches Some(d) && d > 0) {
                    (OwnerKind::Unknown, 0)
                } else {
                    let did = (hn.driver_id->0) as u32;
                    match first_with_id(dump, did) {
                        None => (OwnerKind::Unknown, 0),
                        Some(k) => {
                            let dn = dump[k];
                            if dn.name is None {
                                (OwnerKind::Unknown, 0)
                            } else {
                                let dname = dn.name->0@;
                                let same = hn.id == Some(did) || opt_view(hn.split_name) == Some(dname)
                                    || (card_of(dump, hw) is Some && card_of(dump, hw) == card_of(dump, dname))
                                    || (hn.card_name is Some && opt_view(hn.card_name) == opt_view(dn.card_name));
                                (if same { OwnerKind::MasterHw } else { OwnerKind::Foreign }, k)
                            }
                        },
                    }
                }
            },
        }
    }
}

/// Input and output of one ALSA card share its hardware clock: when Master
/// HW runs and its driver's record is on the same card as Master HW (the
/// same card number, or the same `api.alsa.card.name`), or is Master HW
/// itself, the owner is Master HW, never a foreign device; and Master HW is
/// the owner only in those cases or when the driver is its split parent.
pub proof fn law_same_card_driver_is_master_hw(dump: Seq<DumpNode>, master_hw: Seq<char>)
    ensures
        ({
            let hw = without_suffix(master_hw, ".monitor"@);
            let (kind, k) = owner_spec(dump, master_hw);
            let h = first_named(dump, hw)->0;
            kind != OwnerKind::Unknown ==> {
                let dname = dump[k].name->0@;
                ((card_of(dump, hw) is Some && card_of(dump, hw) == card_of(dump, dname))
                    || (dump[h].card_name is Some && opt_view(dump[h].card_name) == opt_view(dump[k].card_name))
                    || dump[h].id == dump[k].id) ==> kind == OwnerKind::MasterHw
            }
        }),
        ({
            let hw = without_suffix(master_hw, ".monitor"@);
            let (kind, k) = owner_spec(dump, master_hw);
            let h = first_named(dump, hw)->0;
            kind == OwnerKind::MasterHw ==> {
                let dname = dump[k].name->0@;
                (card_of(dump, hw) is Some && card_of(dump, hw) == card_of(dump, dname))
                    || (dump[h].card_name is Some && opt_view(dump[h].card_name) == opt_view(dump[k].card_name))
                    || dump[h].id == dump[k].id || opt_view(dump[h].split_name) == Some(dname)
            }
        }),
{
    let hw = without_suffix(master_hw, ".monitor"@);
    let (kind, k) = owner_spec(dump, master_hw);
    if kind != OwnerKind::Unknown {
        let h = first_named(dump, hw)->0;
        let did = (dump[h].driver_id->0) as u32;
        assert(first_with_id(dump, did) == Some(k));
        lemma_first_with_id_in_range(dump, did);
    }
}

/// `d` is the driver described by record `k`, whose global id is `did`.
pub open spec fn driver_from(d: GraphDriver, dump: Seq<DumpNode>, k: int, did: u32) -> bool {
    &&& d.id == did
    &&& Some(d.name@) == opt_view(dump[k].name)
    &&& d.priority == (match dump[k].priority_driver {
        Some(p) => p,
        None => 0,
    })
    &&& opt_view(d.card_name) == opt_view(dump[k].card_name)
    &&& d.native_rates@ == dump[k].enum_rates@
}

/// The driver id that Master HW's record names.
pub open spec fn master_driver_id(dump: Seq<DumpNode>, master_hw: Seq<char>) -> u32 {
    let h = first_named(dump, without_suffix(master_hw, ".monitor"@))->0;
    (dump[h].driver_id->0) as u32
}

/// Whether finding who clocks `master_hw` needs a `pw-dump` at all: not for
/// an empty name (after dropping `.monitor`), which is never clocked.
pub fn clock_owner_needs_dump(master_hw: &str) -> (r: bool)
    ensures
        r == (without_suffix(master_hw@, ".monitor"@).len() > 0),
{
    let hw = drop_suffix(master_hw, ".monitor");
    hw.as_str().unicode_len() > 0
}

/// Who clocks `master_hw` right now (Unknown without a dump).
pub fn graph_clock_owner(dump: Option<&Vec<DumpNode>>, master_hw: &str) -> (r: ClockOwner)
    ensures
        dump is None ==> r is Unknown,
        dump matches Some(dv) ==> ({
            let (kind, k) = owner_spec(dv@, master_hw@);
            match r {
                ClockOwner::Unknown => kind == OwnerKind::Unknown,
                ClockOwner::MasterHw(d) => kind == OwnerKind::MasterHw && driver_from(
                    d,
                    dv@,
                    k,
                    master_driver_id(dv@, master_hw@),
                ),
                ClockOwner::Foreign(d) => kind == OwnerKind::Foreign && driver_from(
                    d,
                    dv@,
                    k,
                    master_driver_id(dv@, master_hw@),
                ),
            }
        }),
{
    let hw = drop_suffix(master_hw, ".monitor");
    if hw.as_str().is_empty() {
        return ClockOwner::Unknown;
    }
    let dv = match dump {
        Some(d) => d,
        None => return ClockOwner::Unknown,
    };
    let h = match find_named(dv, hw.as_str()) {
        Some(h) => h,
        None => return ClockOwner::Unknown,
    };
    proof {
        lemma_first_named_in_range(dv@, hw@);
    }
    let running = match &dv[h].state {
        Some(s) => str_eq(s.as_str(), "running"),
        None => false,
    };
    if !running {
        return ClockOwner::Unknown;
    }
    let driver_id: i64 = match dv[h].driver_id {
        Some(d) => if d > 0 {
            d
        } else {
            return ClockOwner::Unknown;
        },
        None => return ClockOwner::Unknown,
    };
    let did = #[verifier::truncate] (driver_id as u32);
    let k = match find_with_id(dv, did) {
        Some(k) => k,
        None => return ClockOwner::Unknown,
    };
    proof {
        lemma_first_with_id_in_range(dv@, did);
    }
    let drv_name = match &dv[k].name {
        Some(n) => own(n.as_str()),
        None => return ClockOwner::Unknown,
    };
    let driver = GraphDriver {
        id: did,
        name: own(drv_name.as_str()),
        priority: match dv[k].priority_driver {
            Some(p) => p,
            None => 0,
        },
        card_name: copy_opt(&dv[k].card_name),
        native_rates: copy_rates(&dv[k].enum_rates),
    };
    if dv[h].id == Some(did) {
        return ClockOwner::MasterHw(driver);
    }
    let split_same = match &dv[h].split_name {
        Some(s) => str_eq(s.as_str(), drv_name.as_str()),
        None => false,
    };
    if split_same {
        return ClockOwner::MasterHw(driver);
    }
    let hw_card = find_alsa_card(dv, hw.as_str());
    let drv_card = find_alsa_card(dv, drv_name.as_str());
    if hw_card.is_some() && hw_card == drv_card {
        return ClockOwner::MasterHw(driver);
    }
    let card_same = match (&dv[h].card_name, &driver.card_name) {
        (Some(a), Some(b)) => str_eq(a.as_str(), b.as_str()),
        _ => false,
    };
    if card_same {
        return ClockOwner::MasterHw(driver);
    }
    ClockOwner::Foreign(driver)
}

pub(crate) fn copy_rates(v: &Vec<u32>) -> (r: Vec<u32>)
    ensures
        r@ == v@,
{
    let mut r: Vec<u32> = Vec::new();
    let mut i: usize = 0;
    while i < v.len()
        invariant
            i <= v.len(),
            r@ == v@.take(i as int),
        decreases v.len() - i,
    {
        r.push(v[i]);
        assert(v@.take(i + 1) =~= v@.take(i as int).push(v@[i as int]));
        i += 1;
    }
    assert(v@.take(v.len() as int) =~= v@);
    r
}

/// Session-scoped election policy rendered into a WirePlumber drop-in.
#[derive(Debug)]
pub struct ClockMasterPolicy {
    /// `api.alsa.card.name` of the Master HW sink: its playback nodes win.
    pub master_hw_card: Option<String>,
    /// `api.alsa.card.name` of every adopted `alsa_input.*`, sorted, once
    /// each: their capture nodes lose.
    pub input_cards: Vec<String>,
}

impl Default for ClockMasterPolicy {
    fn default() -> (r: Self)
        ensures
            r.master_hw_card is None,
            r.input_cards@.len() == 0,
    {
        ClockMasterPolicy { master_hw_card: None, input_cards: Vec::new() }
    }
}

/// `s` with `\` and `"` escaped by a backslash.
pub open spec fn escape_spec(s: Seq<char>) -> Seq<char>
    decreases s.len(),
{
    if s.len() == 0 {
        Seq::empty()
    } else {
        let e = escape_spec(s.drop_last());
        let c = s.last();
        if c == '\\' {
            e.push('\\').push('\\')
        } else if c == '"' {
            e.push('\\').push('"')
        } else {
            e.push(c)
        }
    }
}

/// Escape `\` and `"` for a quoted SPA-JSON string.
pub fn escape(s: &str) -> (r: String)
    ensures
        r@ == escape_spec(s@),
{
    let x = to_chars(s);
    let mut out = String::new();
    let mut i: usize = 0;
    while i < x.len()
        invariant
            i <= x.len(),
            x@ == s@,
            out@ == escape_spec(s@.take(i as int)),
        decreases x.len() - i,
    {
        assert(s@.take(i + 1).drop_last() =~= s@.take(i as int));
        assert(s@.take(i + 1).last() == x@[i as int]);
        let c = x[i];
        if c == '\\' {
            push_char(&mut out, '\\');
            push_char(&mut out, '\\');
        } else if c == '"' {
            push_char(&mut out, '\\');
            push_char(&mut out, '"');
        } else {
            push_char(&mut out, c);
        }
        i += 1;
    }
    assert(s@.take(x.len() as int) =~= s@);
    out
}

/// The comment header and the opening of the rule list.
pub open spec fn rules_header() -> Seq<char> {
    "# BusChain Control — generated from the active session; do not edit.\n# Master HW must win PipeWire driver election so a track input (e.g. a\n# full-speed USB codec) cannot become the graph clock and leak its xruns\n# into everything that follows it. Rules apply when nodes are created:\n#   systemctl --user restart wireplumber   (or re-plug the device)\nmonitor.alsa.rules = [\n"@
}

/// One rule: nodes of `card` whose name starts `alsa_{kind}.` get `prio`.
pub open spec fn rule_block(card: Seq<char>, kind: Seq<char>, prio: Seq<char>) -> Seq<char> {
    "  {\n    matches = [\n      { api.alsa.card.name = \""@ + escape_spec(card) + "\"  node.name = \"~alsa_"@ + kind
        + ".*\" }\n    ]\n    actions = { update-props = { priority.driver = "@ + prio + " } }\n  }\n"@
}

/// The input-card rules, in order.
pub open spec fn input_blocks(cards: Seq<Seq<char>>) -> Seq<char>
    decreases cards.len(),
{
    if cards.len() == 0 {
        Seq::empty()
    } else {
        input_blocks(cards.drop_last()) + rule_block(cards.last(), "input"@, "100"@)
    }
}

/// The whole drop-in.
pub open spec fn render_spec(master: Option<Seq<char>>, cards: Seq<Seq<char>>) -> Seq<char> {
    rules_header() + (match master {
        Some(c) => rule_block(c, "output"@, "5000"@),
        None => Seq::empty(),
    }) + input_blocks(cards) + "]\n"@
}

fn render_block(card: &str, kind: &str, prio: &str) -> (r: String)
    ensures
        r@ == rule_block(card@, kind@, prio@),
{
    let e = escape(card);
    let a = concat("  {\n    matches = [\n      { api.alsa.card.name = \"", e.as_str());
    let b = concat(a.as_str(), "\"  node.name = \"~alsa_");
    let c = concat(b.as_str(), kind);
    let d = concat(c.as_str(), ".*\" }\n    ]\n    actions = { update-props = { priority.driver = ");
    let f = concat(d.as_str(), prio);
    concat(f.as_str(), " } }\n  }\n")
}

/// What becomes of the WirePlumber drop-in file.
#[derive(Debug)]
pub enum RuleAction {
    /// Remove the file (the policy is empty); removing an absent file changes nothing.
    Remove,
    /// The file already holds the body.
    Keep,
    /// Write this body.
    Write(String),
}

impl ClockMasterPolicy {
    /// Input cards are strictly increasing.
    pub open spec fn wf(&self) -> bool {
        sorted_strs(strs_view(self.input_cards@))
    }

    /// Add an input card (kept sorted, once each).
    pub fn insert_input_card(&mut self, card: &str)
        requires
            old(self).wf(),
        ensures
            final(self).wf(),
            strs_view(final(self).input_cards@).to_set() == strs_view(old(self).input_cards@).to_set().insert(card@),
            opt_view(final(self).master_hw_card) == opt_view(old(self).master_hw_card),
    {
        insert_sorted_str(&mut self.input_cards, own(card));
    }

    /// No card to rank.
    pub fn is_empty(&self) -> (r: bool)
        ensures
            r == (self.master_hw_card is None && self.input_cards@.len() == 0),
    {
        self.master_hw_card.is_none() && self.input_cards.len() == 0
    }

    /// What to do with the drop-in file given its current text (none when it
    /// is absent or unreadable): an empty policy removes the file; a body
    /// equal to the current text leaves it alone; otherwise the body is
    /// written.
    pub fn rule_action(&self, current: Option<&str>) -> (r: RuleAction)
        ensures
            (self.master_hw_card is None && self.input_cards@.len() == 0) ==> r == RuleAction::Remove,
            !(self.master_hw_card is None && self.input_cards@.len() == 0) ==> match r {
                RuleAction::Keep => current matches Some(t) && t@ == render_spec(
                    opt_view(self.master_hw_card),
                    strs_view(self.input_cards@),
                ),
                RuleAction::Write(body) => body@ == render_spec(
                    opt_view(self.master_hw_card),
                    strs_view(self.input_cards@),
                ) && !(current matches Some(t) && t@ == body@),
                RuleAction::Remove => false,
            },
    {
        if self.is_empty() {
            return RuleAction::Remove;
        }
        let body = self.render();
        match current {
            Some(t) => {
                if str_eq(t, body.as_str()) {
                    RuleAction::Keep
                } else {
                    RuleAction::Write(body)
                }
            },
            None => RuleAction::Write(body),
        }
    }

    /// The WirePlumber 0.5 SPA-JSON drop-in body.
    pub fn render(&self) -> (r: String)
        ensures
            r@ == render_spec(opt_view(self.master_hw_card), strs_view(self.input_cards@)),
    {
        let mut out = own(
            "# BusChain Control — generated from the active session; do not edit.\n# Master HW must win PipeWire driver election so a track input (e.g. a\n# full-speed USB codec) cannot become the graph clock and leak its xruns\n# into everything that follows it. Rules apply when nodes are created:\n#   systemctl --user restart wireplumber   (or re-plug the device)\nmonitor.alsa.rules = [\n",
        );
        proof {
            reveal_strlit("# BusChain Control — generated from the active session; do not edit.\n# Master HW must win PipeWire driver election so a track input (e.g. a\n# full-speed USB codec) cannot become the graph clock and leak its xruns\n# into everything that follows it. Rules apply when nodes are created:\n#   systemctl --user restart wireplumber   (or re-plug the device)\nmonitor.alsa.rules = [\n");
        }
        match &self.master_hw_card {
            Some(card) => {
                let b = render_block(card.as_str(), "output", "5000");
                out = concat(out.as_str(), b.as_str());
            },
            None => {},
        }
        let ghost head = out@;
        let ghost cards = strs_view(self.input_cards@);
        let mut i: usize = 0;
        while i < self.input_cards.len()
            invariant
                i <= self.input_cards.len(),
                cards == strs_view(self.input_cards@),
                out@ == head + input_blocks(cards.take(i as int)),
            decreases self.input_cards.len() - i,
        {
            assert(cards.take(i + 1).drop_last() =~= cards.take(i as int));
            assert(cards.take(i + 1).last() == self.input_cards@[i as int]@);
            let b = render_block(self.input_cards[i].as_str(), "input", "100");
            out = concat(out.as_str(), b.as_str());
            i += 1;
        }
        assert(cards.take(self.input_cards.len() as int) =~= cards);
        concat(out.as_str(), "]\n")
    }

    /// Resolve card names from the dump for Master HW and the adopted
    /// sources (only `alsa_input.*` nodes count). None without a dump.
    pub fn from_graph(dump: Option<&Vec<DumpNode>>, master_hw: &str, sources: &[String]) -> (r: Option<Self>)
        ensures
            dump is None ==> r is None,
            dump matches Some(dv) ==> (r matches Some(p) && p.wf() && opt_view(p.master_hw_card) == (if master_hw@.len()
                == 0 {
                None
            } else {
                card_name_spec(dv@, master_hw@)
            }) && strs_view(p.input_cards@).to_set() == input_card_set(dv@, strs_view(sources@))),
    {
        let dv = match dump {
            Some(d) => d,
            None => return None,
        };
        let master_hw_card = if master_hw.is_empty() {
            None
        } else {
            card_name_in(dv, master_hw)
        };
        let mut p = ClockMasterPolicy { master_hw_card, input_cards: Vec::new() };
        let ghost srcs = strs_view(sources@);
        assert(strs_view(p.input_cards@).to_set() =~= Set::<Seq<char>>::empty());
        let mut i: usize = 0;
        while i < sources.len()
            invariant
                i <= sources.len(),
                srcs == strs_view(sources@),
                p.wf(),
                opt_view(p.master_hw_card) == (if master_hw@.len() == 0 {
                    None
                } else {
                    card_name_spec(dv@, master_hw@)
                }),
                strs_view(p.input_cards@).to_set() == input_card_set(dv@, srcs.take(i as int)),
            decreases sources.len() - i,
        {
            let ghost before = strs_view(p.input_cards@).to_set();
            let src = sources[i].as_str();
            assert(srcs[i as int] == src@);
            let node = drop_suffix(src, ".monitor");
            if starts_with(node.as_str(), "alsa_input.") {
                match card_name_in(dv, node.as_str()) {
                    Some(card) => {
                        p.insert_input_card(card.as_str());
                    },
                    None => {},
                }
            }
            proof {
                lemma_input_card_set_step(dv@, srcs, i as int);
            }
            i += 1;
        }
        assert(srcs.take(sources.len() as int) =~= srcs);
        Some(p)
    }
}

/// Card of an adopted source: its node (no `.monitor`) must be an
/// `alsa_input.*` node with a recorded card name.
pub open spec fn source_card(dump: Seq<DumpNode>, src: Seq<char>) -> Option<Seq<char>> {
    let node = without_suffix(src, ".monitor"@);
    if has_prefix(node, "alsa_input."@) {
        card_name_spec(dump, node)
    } else {
        None
    }
}

/// Cards of the adopted sources.
pub open spec fn input_card_set(dump: Seq<DumpNode>, srcs: Seq<Seq<char>>) -> Set<Seq<char>> {
    Set::new(
        |c: Seq<char>|
            exists|i: int| 0 <= i < srcs.len() && source_card(dump, #[trigger] srcs[i]) == Some(c),
    )
}

proof fn lemma_input_card_set_step(dump: Seq<DumpNode>, srcs: Seq<Seq<char>>, i: int)
    requires
        0 <= i < srcs.len(),
    ensures
        input_card_set(dump, srcs.take(i + 1)) == match source_card(dump, srcs[i]) {
            Some(c) => input_card_set(dump, srcs.take(i)).insert(c),
            None => input_card_set(dump, srcs.take(i)),
        },
{
    let a = srcs.take(i);
    let b = srcs.take(i + 1);
    let want = match source_card(dump, srcs[i]) {
        Some(c) => input_card_set(dump, a).insert(c),
        None => input_card_set(dump, a),
    };
    assert forall|c: Seq<char>| #[trigger] input_card_set(dump, b).contains(c) == want.contains(c) by {
        if input_card_set(dump, b).contains(c) {
            let k = choose|k: int| 0 <= k < b.len() && source_card(dump, #[trigger] b[k]) == Some(c);
            if k < i {
                assert(a[k] == b[k]);
            } else {
                assert(b[k] == srcs[i]);
            }
        }
        if input_card_set(dump, a).contains(c) {
            let k = choose|k: int| 0 <= k < a.len() && source_card(dump, #[trigger] a[k]) == Some(c);
            assert(b[k] == a[k]);
        }
        if source_card(dump, srcs[i]) == Some(c) {
            assert(b[i] == srcs[i]);
        }
    }
    assert(input_card_set(dump, b) =~= want);
}

/// An empty policy renders the header and an empty rule list.
pub proof fn law_empty_policy_has_no_rules()
    ensures
        render_spec(None, Seq::empty()) == rules_header() + "]\n"@,
{
    assert(render_spec(None, Seq::empty()) =~= rules_header() + "]\n"@);
}

} // verus!
