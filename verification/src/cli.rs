//! Short-lived caches of CLI listings (`pactl list short sinks`, `pw-link`)
//! for probe hot paths, and what the CLI listings say.
use vstd::prelude::*;

use crate::text::{
    has_infix, lines, lines_spec, opt_view, own, parse_u32, parse_u32_spec, split_char, split_spec,
    str_eq, strip_prefix, strip_prefix_spec, trim, trim_spec,
};

verus! {

/// `pactl list short sinks` stays fresh this long (ms).
pub const SHORT_SINKS_TTL_MS: u64 = 150;

/// `pw-link -l` stays fresh this long (ms).
pub const PW_LINK_L_TTL_MS: u64 = 80;

/// `pw-link -o` / `-i` stay fresh this long (ms).
pub const PW_LINK_PORTS_TTL_MS: u64 = 100;

/// One cached listing and when it was taken.
#[derive(Debug)]
pub struct TtlSlot {
    pub ttl_ms: u64,
    pub entry: Option<(u64, String)>,
}

/// Milliseconds from `at` to `now` (zero when the clock reads earlier).
pub open spec fn elapsed_ms(at: u64, now: u64) -> u64 {
    if now >= at {
        (now - at) as u64
    } else {
        0
    }
}

impl TtlSlot {
    /// An empty slot.
    pub fn new(ttl_ms: u64) -> (r: Self)
        ensures
            r.ttl_ms == ttl_ms,
            r.entry is None,
    {
        TtlSlot { ttl_ms, entry: None }
    }

    /// The cached text when taken less than `ttl_ms` before `now_ms`.
    pub open spec fn fresh_spec(&self, now_ms: u64) -> Option<Seq<char>> {
        match self.entry {
            Some((at, text)) => if elapsed_ms(at, now_ms) < self.ttl_ms {
                Some(text@)
            } else {
                None
            },
            None => None,
        }
    }

    /// The cached text, if still fresh at `now_ms`.
    pub fn fresh(&self, now_ms: u64) -> (r: Option<String>)
        ensures
            opt_view(r) == self.fresh_spec(now_ms),
    {
        match &self.entry {
            Some((at, text)) => if now_ms.saturating_sub(*at) < self.ttl_ms {
                Some(own(text.as_str()))
            } else {
                None
            },
            None => None,
        }
    }

    /// Record what a fetch at `now_ms` returned and hand back the answer: a
    /// fetched text is stored and returned; on a failed fetch the last text
    /// is returned when `fail_open`, else nothing.
    pub fn complete(&mut self, now_ms: u64, fetched: Option<String>, fail_open: bool) -> (r: Option<String>)
        ensures
            final(self).ttl_ms == old(self).ttl_ms,
            match fetched {
                Some(t) => final(self).entry matches Some((at, s)) && at == now_ms && s@ == t@ && opt_view(r)
                    == Some(t@),
                None => final(self).entry == old(self).entry && opt_view(r) == (if fail_open {
                    match old(self).entry {
                        Some((_, s)) => Some(s@),
                        None => None,
                    }
                } else {
                    None
                }),
            },
    {
        match fetched {
            Some(t) => {
                let copy = own(t.as_str());
                self.entry = Some((now_ms, t));
                Some(copy)
            },
            None => {
                if !fail_open {
                    return None;
                }
                match &self.entry {
                    Some((_, s)) => Some(own(s.as_str())),
                    None => None,
                }
            },
        }
    }

    /// Forget the cached text.
    pub fn invalidate(&mut self)
        ensures
            final(self).entry is None,
            final(self).ttl_ms == old(self).ttl_ms,
    {
        self.entry = None;
    }
}

/// The probe caches of the CLI backend.
#[derive(Debug)]
pub struct ProbeCaches {
    pub short_sinks: TtlSlot,
    pub pw_link_l: TtlSlot,
    pub pw_link_o: TtlSlot,
    pub pw_link_i: TtlSlot,
}

impl ProbeCaches {
    /// Empty caches with their TTLs.
    pub fn new() -> (r: Self)
        ensures
            r.short_sinks.ttl_ms == SHORT_SINKS_TTL_MS && r.short_sinks.entry is None,
            r.pw_link_l.ttl_ms == PW_LINK_L_TTL_MS && r.pw_link_l.entry is None,
            r.pw_link_o.ttl_ms == PW_LINK_PORTS_TTL_MS && r.pw_link_o.entry is None,
            r.pw_link_i.ttl_ms == PW_LINK_PORTS_TTL_MS && r.pw_link_i.entry is None,
    {
        ProbeCaches {
            short_sinks: TtlSlot::new(SHORT_SINKS_TTL_MS),
            pw_link_l: TtlSlot::new(PW_LINK_L_TTL_MS),
            pw_link_o: TtlSlot::new(PW_LINK_PORTS_TTL_MS),
            pw_link_i: TtlSlot::new(PW_LINK_PORTS_TTL_MS),
        }
    }
}

/// Forget every cached listing.
pub fn invalidate_probe_caches(c: &mut ProbeCaches)
    ensures
        final(c).short_sinks.entry is None,
        final(c).pw_link_l.entry is None,
        final(c).pw_link_o.entry is None,
        final(c).pw_link_i.entry is None,
        final(c).short_sinks.ttl_ms == old(c).short_sinks.ttl_ms,
        final(c).pw_link_l.ttl_ms == old(c).pw_link_l.ttl_ms,
        final(c).pw_link_o.ttl_ms == old(c).pw_link_o.ttl_ms,
        final(c).pw_link_i.ttl_ms == old(c).pw_link_i.ttl_ms,
{
    c.short_sinks.invalidate();
    c.pw_link_l.invalidate();
    c.pw_link_o.invalidate();
    c.pw_link_i.invalidate();
}

/// What a cached probe needs next.
#[derive(Debug)]
pub enum Probe {
    /// The cached listing is fresh.
    Cached(String),
    /// Run the command, then hand its output to the matching `*_fetched`.
    Fetch,
}

/// The probe answer from a slot.
pub open spec fn probe_spec(p: Probe, slot: TtlSlot, now_ms: u64) -> bool {
    match p {
        Probe::Cached(t) => slot.fresh_spec(now_ms) == Some(t@),
        Probe::Fetch => slot.fresh_spec(now_ms) is None,
    }
}

fn probe_slot(slot: &TtlSlot, now_ms: u64) -> (r: Probe)
    ensures
        probe_spec(r, *slot, now_ms),
{
    match slot.fresh(now_ms) {
        Some(t) => Probe::Cached(t),
        None => Probe::Fetch,
    }
}

/// `pactl list short sinks`: the fresh cached listing, or fetch.
pub fn pactl_short_sinks(c: &ProbeCaches, now_ms: u64) -> (r: Probe)
    ensures
        probe_spec(r, c.short_sinks, now_ms),
{
    probe_slot(&c.short_sinks, now_ms)
}

/// After fetching `pactl list short sinks`: on timeout the last good
/// listing is answered (fail-open), so a wedged `pactl` does not read as
/// "FX node missing".
pub fn pactl_short_sinks_fetched(c: &mut ProbeCaches, now_ms: u64, fetched: Option<String>) -> (r: Option<String>)
    ensures
        match fetched {
            Some(t) => final(c).short_sinks.entry matches Some((at, s)) && at == now_ms && s@ == t@ && opt_view(r) == Some(t@),
            None => final(c).short_sinks.entry == old(c).short_sinks.entry && opt_view(r) == match old(c).short_sinks.entry {
                Some((_, s)) => Some(s@),
                None => None,
            },
        },
{
    c.short_sinks.complete(now_ms, fetched, true)
}

/// `pw-link -l`: the fresh cached listing, or fetch.
pub fn pw_link_listing(c: &ProbeCaches, now_ms: u64) -> (r: Probe)
    ensures
        probe_spec(r, c.pw_link_l, now_ms),
{
    probe_slot(&c.pw_link_l, now_ms)
}

/// After fetching `pw-link -l` (no fail-open).
pub fn pw_link_listing_fetched(c: &mut ProbeCaches, now_ms: u64, fetched: Option<String>) -> (r: Option<String>)
    ensures
        match fetched {
            Some(t) => final(c).pw_link_l.entry matches Some((at, s)) && at == now_ms && s@ == t@ && opt_view(r) == Some(t@),
            None => final(c).pw_link_l.entry == old(c).pw_link_l.entry && r is None,
        },
{
    c.pw_link_l.complete(now_ms, fetched, false)
}

/// `pw-link -o`: the fresh cached listing, or fetch.
pub fn pw_link_outputs(c: &ProbeCaches, now_ms: u64) -> (r: Probe)
    ensures
        probe_spec(r, c.pw_link_o, now_ms),
{
    probe_slot(&c.pw_link_o, now_ms)
}

/// After fetching `pw-link -o` (no fail-open).
pub fn pw_link_outputs_fetched(c: &mut ProbeCaches, now_ms: u64, fetched: Option<String>) -> (r: Option<String>)
    ensures
        match fetched {
            Some(t) => final(c).pw_link_o.entry matches Some((at, s)) && at == now_ms && s@ == t@ && opt_view(r) == Some(t@),
            None => final(c).pw_link_o.entry == old(c).pw_link_o.entry && r is None,
        },
{
    c.pw_link_o.complete(now_ms, fetched, false)
}

/// `pw-link -i`: the fresh cached listing, or fetch.
pub fn pw_link_inputs(c: &ProbeCaches, now_ms: u64) -> (r: Probe)
    ensures
        probe_spec(r, c.pw_link_i, now_ms),
{
    probe_slot(&c.pw_link_i, now_ms)
}

/// After fetching `pw-link -i` (no fail-open).
pub fn pw_link_inputs_fetched(c: &mut ProbeCaches, now_ms: u64, fetched: Option<String>) -> (r: Option<String>)
    ensures
        match fetched {
            Some(t) => final(c).pw_link_i.entry matches Some((at, s)) && at == now_ms && s@ == t@ && opt_view(r) == Some(t@),
            None => final(c).pw_link_i.entry == old(c).pw_link_i.entry && r is None,
        },
{
    c.pw_link_i.complete(now_ms, fetched, false)
}

/// A listing fetched at `t` answers every probe before `t + ttl` without a
/// new fetch, with the same text.
pub proof fn law_fresh_listing_is_reused(slot: TtlSlot, t: u64, text: String, now_ms: u64)
    requires
        slot.entry == Some((t, text)),
        t <= now_ms,
        now_ms - t < slot.ttl_ms,
    ensures
        slot.fresh_spec(now_ms) == Some(text@),
{
}

// ---------------------------------------------------------------------------
// What the listings say
// ---------------------------------------------------------------------------

/// Index of sink `name` in `pactl list short sinks`: the first row naming
/// it; a row whose index does not parse, or that has no name, ends the
/// search with nothing.
pub open spec fn sink_index_spec(ls: Seq<Seq<char>>, name: Seq<char>) -> Option<u32>
    decreases ls.len(),
{
    if ls.len() == 0 {
        None
    } else {
        let parts = split_spec(ls[0], '\t');
        match parse_u32_spec(parts[0]) {
            None => None,
            Some(idx) => if parts.len() < 2 {
                None
            } else if parts[1] == name {
                Some(idx)
            } else {
                sink_index_spec(ls.drop_first(), name)
            },
        }
    }
}

/// Index of sink `name` in a `pactl list short sinks` listing.
pub fn sink_index(listing: &str, name: &str) -> (r: Option<u32>)
    ensures
        r == sink_index_spec(lines_spec(listing@), name@),
{
    let ls = lines(listing);
    let ghost lv = ls@.map_values(|t: String| t@);
    let mut i: usize = 0;
    assert(lv.skip(0) =~= lv);
    while i < ls.len()
        invariant
            i <= ls.len(),
            lv == ls@.map_values(|t: String| t@),
            lv == lines_spec(listing@),
            sink_index_spec(lv, name@) == sink_index_spec(lv.skip(i as int), name@),
        decreases ls.len() - i,
    {
        assert(lv.skip(i as int)[0] == ls@[i as int]@);
        assert(lv.skip(i as int).drop_first() =~= lv.skip(i + 1));
        let parts = split_char(ls[i].as_str(), '\t');
        let ghost pv = parts@.map_values(|t: String| t@);
        assert(pv == split_spec(ls@[i as int]@, '\t'));
        assert(pv.len() >= 1);
        assert(pv[0] == parts@[0]@);
        let idx = match parse_u32(parts[0].as_str()) {
            Some(x) => x,
            None => return None,
        };
        if parts.len() < 2 {
            return None;
        }
        assert(pv[1] == parts@[1]@);
        if str_eq(parts[1].as_str(), name) {
            return Some(idx);
        }
        i += 1;
    }
    None
}

/// Some row of `pactl list short sink-inputs` plays into sink index `want`
/// (second column).
pub open spec fn has_input_on(ls: Seq<Seq<char>>, want: u32) -> bool {
    exists|k: int|
        0 <= k < ls.len() && split_spec(#[trigger] ls[k], '\t').len() >= 2 && parse_u32_spec(split_spec(ls[k], '\t')[1])
            == Some(want)
}

/// True when any sink-input plays into sink `name`: its index from the
/// sinks listing, matched against the second column of the sink-inputs
/// listing (never the sink name).
pub fn sink_has_input(sinks_listing: &str, inputs_listing: &str, name: &str) -> (r: bool)
    ensures
        r == match sink_index_spec(lines_spec(sinks_listing@), name@) {
            Some(want) => has_input_on(lines_spec(inputs_listing@), want),
            None => false,
        },
{
    let want = match sink_index(sinks_listing, name) {
        Some(w) => w,
        None => return false,
    };
    let ls = lines(inputs_listing);
    let ghost lv = ls@.map_values(|t: String| t@);
    let mut i: usize = 0;
    while i < ls.len()
        invariant
            i <= ls.len(),
            lv == ls@.map_values(|t: String| t@),
            lv == lines_spec(inputs_listing@),
            sink_index_spec(lines_spec(sinks_listing@), name@) == Some(want),
            forall|k: int| 0 <= k < i ==> !(split_spec(#[trigger] lv[k], '\t').len() >= 2 && parse_u32_spec(
                split_spec(lv[k], '\t')[1],
            ) == Some(want)),
        decreases ls.len() - i,
    {
        let parts = split_char(ls[i].as_str(), '\t');
        let ghost pv = parts@.map_values(|t: String| t@);
        assert(lv[i as int] == ls@[i as int]@);
        assert(pv == split_spec(lv[i as int], '\t'));
        if parts.len() >= 2 {
            assert(pv[1] == parts@[1]@);
            if parse_u32(parts[1].as_str()) == Some(want) {
                assert(has_input_on(lv, want));
                return true;
            }
        }
        i += 1;
    }
    false
}

/// `pw-cli ls Node`: the id of the last `id N,` line seen before the first
/// line holding `node.name` and `"{name}"` (trimmed lines).
pub open spec fn node_id_scan(ls: Seq<Seq<char>>, needle: Seq<char>, current: Option<u32>) -> Option<u32>
    decreases ls.len(),
{
    if ls.len() == 0 {
        None
    } else {
        let t = trim_spec(ls[0]);
        let cur = match strip_prefix_spec(t, "id "@) {
            Some(rest) => parse_u32_spec(trim_spec(split_spec(rest, ',')[0])),
            None => current,
        };
        if has_infix(t, "node.name"@) && has_infix(t, needle) {
            cur
        } else {
            node_id_scan(ls.drop_first(), needle, cur)
        }
    }
}

/// Node id of `name` from a `pw-cli ls Node` listing.
pub fn find_node_id_by_name_uncached(listing: &str, name: &str) -> (r: Option<u32>)
    ensures
        r == node_id_scan(lines_spec(listing@), "\""@ + name@ + "\""@, None),
{
    let ls = lines(listing);
    let ghost lv = ls@.map_values(|t: String| t@);
    let needle = crate::text::concat3("\"", name, "\"");
    let mut current: Option<u32> = None;
    let mut i: usize = 0;
    assert(lv.skip(0) =~= lv);
    while i < ls.len()
        invariant
            i <= ls.len(),
            lv == ls@.map_values(|t: String| t@),
            lv == lines_spec(listing@),
            needle@ == "\""@ + name@ + "\""@,
            node_id_scan(lv, needle@, None) == node_id_scan(lv.skip(i as int), needle@, current),
        decreases ls.len() - i,
    {
        assert(lv.skip(i as int)[0] == ls@[i as int]@);
        assert(lv.skip(i as int).drop_first() =~= lv.skip(i + 1));
        let t = trim(ls[i].as_str());
        match strip_prefix(t.as_str(), "id ") {
            Some(rest) => {
                let parts = split_char(rest.as_str(), ',');
                let ghost pv = parts@.map_values(|x: String| x@);
                assert(pv == split_spec(rest@, ','));
                assert(pv.len() >= 1);
                assert(pv[0] == parts@[0]@);
                let first = trim(parts[0].as_str());
                current = parse_u32(first.as_str());
            },
            None => {},
        }
        if crate::text::contains(t.as_str(), "node.name") && crate::text::contains(t.as_str(), needle.as_str()) {
            return current;
        }
        i += 1;
    }
    None
}

} // verus!
