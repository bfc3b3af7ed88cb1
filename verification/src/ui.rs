//! Mixer UI decisions that do not draw: the visualization mode switch, app
//! keys, list reordering, plugin menus and which devices the pickers show.
use vstd::prelude::*;

use crate::text::{
    concat, contains, has_infix, has_prefix, lowercase, own, starts_with, str_eq, strip_prefix,
    strip_prefix_spec, to_lowercase,
};

verus! {

/// Repaint cadence while the window paints meters and charts (ms).
pub const LIVE_REPAINT_MS: u64 = 16;

/// Wake interval while withdrawn (tray and IPC still polled, ms).
pub const IDLE_REPAINT_MS: u64 = 1000;

/// Visualization mode.
#[derive(Debug, Clone, Copy, PartialEq, Eq, Structural)]
pub enum VizMode {
    Live,
    Idle,
}

/// Central switch for visualization side effects.
#[derive(Debug)]
pub struct UiRuntime {
    mode: VizMode,
}

impl UiRuntime {
    /// The current mode.
    pub closed spec fn spec_mode(&self) -> VizMode {
        self.mode
    }

    pub fn new_live() -> (r: Self)
        ensures
            r.spec_mode() == VizMode::Live,
    {
        UiRuntime { mode: VizMode::Live }
    }

    pub fn new_idle() -> (r: Self)
        ensures
            r.spec_mode() == VizMode::Idle,
    {
        UiRuntime { mode: VizMode::Idle }
    }

    pub fn mode(&self) -> (r: VizMode)
        ensures
            r == self.spec_mode(),
    {
        self.mode
    }

    pub fn is_live(&self) -> (r: bool)
        ensures
            r == (self.spec_mode() == VizMode::Live),
    {
        self.mode == VizMode::Live
    }

    /// Switch to Idle. True when the mode changed, i.e. when the caller must
    /// pause meters and clear spectrum watches; idempotent.
    pub fn enter_idle(&mut self) -> (changed: bool)
        ensures
            final(self).spec_mode() == VizMode::Idle,
            changed == (old(self).spec_mode() == VizMode::Live),
    {
        if self.mode == VizMode::Idle {
            return false;
        }
        self.mode = VizMode::Idle;
        true
    }

    /// Switch to Live. True when the mode changed, i.e. when the caller must
    /// resume meters and retarget taps; idempotent.
    pub fn enter_live(&mut self) -> (changed: bool)
        ensures
            final(self).spec_mode() == VizMode::Live,
            changed == (old(self).spec_mode() == VizMode::Idle),
    {
        if self.mode == VizMode::Live {
            return false;
        }
        self.mode = VizMode::Live;
        true
    }
}

impl Default for UiRuntime {
    fn default() -> (r: Self)
        ensures
            r.spec_mode() == VizMode::Live,
    {
        UiRuntime::new_live()
    }
}

/// Entering a mode twice does the side effect once: after one switch the
/// second reports no change and leaves the mode as it is.
pub proof fn law_mode_switch_idempotent(after_first: UiRuntime, after_second: UiRuntime, changed: bool, target: VizMode)
    requires
        after_first.spec_mode() == target,
        after_second.spec_mode() == target,
        changed == (after_first.spec_mode() != target),
    ensures
        !changed,
        after_second.spec_mode() == after_first.spec_mode(),
{
}

/// The key with its `bin:`, `id:` or `name:` prefix taken off.
pub open spec fn bare_key(key: Seq<char>) -> Seq<char> {
    match strip_prefix_spec(key, "bin:"@) {
        Some(b) => b,
        None => match strip_prefix_spec(key, "id:"@) {
            Some(i) => i,
            None => match strip_prefix_spec(key, "name:"@) {
                Some(n) => n,
                None => key,
            },
        },
    }
}

fn bare(key: &str) -> (r: String)
    ensures
        r@ == bare_key(key@),
{
    match strip_prefix(key, "bin:") {
        Some(b) => b,
        None => match strip_prefix(key, "id:") {
            Some(i) => i,
            None => match strip_prefix(key, "name:") {
                Some(n) => n,
                None => own(key),
            },
        },
    }
}

/// An app key for display: the binary, id or name without its prefix.
pub fn pretty_app_key(key: &str) -> (r: String)
    ensures
        r@ == bare_key(key@),
{
    bare(key)
}

/// Two app keys name the same app: equal, or equal once prefix-stripped and
/// lowercased.
pub fn keys_same_app(a: &str, b: &str) -> (r: bool)
    ensures
        r == (a@ == b@ || lowercase(bare_key(a@)) == lowercase(bare_key(b@))),
{
    if str_eq(a, b) {
        return true;
    }
    let x = to_lowercase(bare(a).as_str());
    let y = to_lowercase(bare(b).as_str());
    str_eq(x.as_str(), y.as_str())
}

/// `keys_same_app` is reflexive and symmetric.
pub proof fn law_keys_same_app(a: Seq<char>, b: Seq<char>)
    ensures
        (a == a || lowercase(bare_key(a)) == lowercase(bare_key(a))),
        (a == b || lowercase(bare_key(a)) == lowercase(bare_key(b))) == (b == a || lowercase(bare_key(b))
            == lowercase(bare_key(a))),
{
}

/// Where `reorder_insert_at` leaves the item at `from` when it moves it
/// before `drop_before`.
pub open spec fn reorder_spec<T>(s: Seq<T>, from: int, drop_before: int) -> Option<Seq<T>> {
    let n = s.len() as int;
    let d = if drop_before < n { drop_before } else { n };
    if from >= n || d == from || d == from + 1 {
        None
    } else {
        let at = if d > from { d - 1 } else { d };
        Some(s.remove(from).insert(at, s[from]))
    }
}

/// Move the item at `from` so it lands before `drop_before` (clamped to the
/// length); false, and nothing moved, when the order would not change.
pub fn reorder_insert_at<T>(items: &mut Vec<T>, from: usize, drop_before: usize) -> (moved: bool)
    ensures
        match reorder_spec(old(items)@, from as int, drop_before as int) {
            Some(s) => moved && final(items)@ == s,
            None => !moved && final(items)@ == old(items)@,
        },
{
    let n = items.len();
    if from >= n {
        return false;
    }
    let d = if drop_before < n {
        drop_before
    } else {
        n
    };
    if d == from || d == from + 1 {
        return false;
    }
    let item = items.remove(from);
    let at = if d > from {
        d - 1
    } else {
        d
    };
    items.insert(at, item);
    true
}

/// A reorder keeps the same items: it is a permutation.
pub proof fn law_reorder_permutes<T>(s: Seq<T>, from: int, drop_before: int)
    requires
        0 <= from,
        0 <= drop_before,
        reorder_spec(s, from, drop_before) is Some,
    ensures
        reorder_spec(s, from, drop_before)->0.to_multiset() == s.to_multiset(),
        reorder_spec(s, from, drop_before)->0.len() == s.len(),
{
    let n = s.len() as int;
    let d = if drop_before < n { drop_before } else { n };
    let at = if d > from { d - 1 } else { d };
    let x = s[from];
    let r = s.remove(from);
    let t = r.insert(at, x);
    assert(t.remove(at) =~= r);
    s.to_multiset_ensures();
    r.to_multiset_ensures();
    t.to_multiset_ensures();
    assert(t[at] == x);
    assert(t.contains(x));
    assert(s.contains(x));
    assert(t.to_multiset() =~= r.to_multiset().insert(x));
    assert(s.to_multiset() =~= r.to_multiset().insert(x));
}

/// Plugin formats of the catalog.
#[derive(Debug, Clone, Copy, PartialEq, Eq, Structural)]
pub enum PluginFormat {
    Ladspa,
    Lv2,
    Clap,
    Vst3,
}

/// Menu group of a plugin: LADSPA plugins by what their lowercased id
/// mentions, the other formats by format.
pub open spec fn menu_group_spec(id: Seq<char>, fmt: PluginFormat) -> Seq<char> {
    match fmt {
        PluginFormat::Ladspa => {
            let l = lowercase(id);
            if has_infix(l, "compressor"@) || has_infix(l, "limiter"@) || has_infix(l, "gate"@) || has_infix(
                l,
                "softclip"@,
            ) {
                "Dynamics"@
            } else if has_infix(l, "eq"@) || has_infix(l, "overdrive"@) {
                "EQ & Tone"@
            } else if has_infix(l, "pitch"@) {
                "Pitch"@
            } else if has_infix(l, "denoiser"@) || has_infix(l, "noise"@) {
                "Cleanup"@
            } else if has_infix(l, "buschain_"@) {
                "BusChain"@
            } else {
                "LADSPA"@
            }
        },
        PluginFormat::Lv2 => "LV2"@,
        PluginFormat::Clap => "CLAP"@,
        PluginFormat::Vst3 => "VST3"@,
    }
}

/// Menu group of a plugin.
pub fn plugin_menu_group(id: &str, fmt: PluginFormat) -> (r: &'static str)
    ensures
        r@ == menu_group_spec(id@, fmt),
{
    match fmt {
        PluginFormat::Ladspa => {
            let l = to_lowercase(id);
            let s = l.as_str();
            if contains(s, "compressor") || contains(s, "limiter") || contains(s, "gate") || contains(s, "softclip") {
                "Dynamics"
            } else if contains(s, "eq") || contains(s, "overdrive") {
                "EQ & Tone"
            } else if contains(s, "pitch") {
                "Pitch"
            } else if contains(s, "denoiser") || contains(s, "noise") {
                "Cleanup"
            } else if contains(s, "buschain_") {
                "BusChain"
            } else {
                "LADSPA"
            }
        },
        PluginFormat::Lv2 => "LV2",
        PluginFormat::Clap => "CLAP",
        PluginFormat::Vst3 => "VST3",
    }
}

/// Short name of a plugin format.
pub fn format_short_name(fmt: PluginFormat) -> (r: &'static str)
    ensures
        r@ == match fmt {
            PluginFormat::Ladspa => "LADSPA"@,
            PluginFormat::Lv2 => "LV2"@,
            PluginFormat::Clap => "CLAP"@,
            PluginFormat::Vst3 => "VST3"@,
        },
{
    match fmt {
        PluginFormat::Ladspa => "LADSPA",
        PluginFormat::Lv2 => "LV2",
        PluginFormat::Clap => "CLAP",
        PluginFormat::Vst3 => "VST3",
    }
}

/// A catalog entry: plugin id and display name.
pub open spec fn catalog_name(catalog: Seq<(String, String)>, id: Seq<char>) -> Seq<char>
    decreases catalog.len(),
{
    if catalog.len() == 0 {
        id
    } else if catalog[0].0@ == id {
        catalog[0].1@
    } else {
        catalog_name(catalog.drop_first(), id)
    }
}

/// Display name of a plugin: its catalog name, else its id.
pub fn plugin_label(catalog: &Vec<(String, String)>, id: &str) -> (r: String)
    ensures
        r@ == catalog_name(catalog@, id@),
{
    let mut i: usize = 0;
    assert(catalog@.skip(0) =~= catalog@);
    while i < catalog.len()
        invariant
            i <= catalog.len(),
            catalog_name(catalog@, id@) == catalog_name(catalog@.skip(i as int), id@),
        decreases catalog.len() - i,
    {
        assert(catalog@.skip(i as int)[0] == catalog@[i as int]);
        assert(catalog@.skip(i as int).drop_first() =~= catalog@.skip(i + 1));
        if str_eq(catalog[i].0.as_str(), id) {
            return own(catalog[i].1.as_str());
        }
        i += 1;
    }
    own(id)
}

/// Helper sinks and sources the pickers never offer.
pub open spec fn internal_helper_spec(name: Seq<char>) -> bool {
    has_prefix(name, "easyeffects_"@) || has_infix(name, "filter-chain"@) || name == "auto_null"@ || has_prefix(
        name,
        "buschain_hold"@,
    ) || has_prefix(name, "buschain_post_"@) || has_prefix(name, "buschain_rs_"@) || has_prefix(
        name,
        "buschain_vinf_"@,
    ) || has_prefix(name, "buschain_fx_"@)
}

/// Helper sinks and sources the pickers never offer.
pub fn is_internal_helper(name: &str) -> (r: bool)
    ensures
        r == internal_helper_spec(name@),
{
    starts_with(name, "easyeffects_") || contains(name, "filter-chain") || str_eq(name, "auto_null") || starts_with(
        name,
        "buschain_hold",
    ) || starts_with(name, "buschain_post_") || starts_with(name, "buschain_rs_") || starts_with(
        name,
        "buschain_vinf_",
    ) || starts_with(name, "buschain_fx_")
}

/// What the pickers read of a session track.
#[derive(Debug)]
pub struct TrackInfo {
    pub name: String,
    /// Sink name the track's bus is expected to have.
    pub expected_sink_name: String,
    /// Source name of the track's virtual input.
    pub expected_virtual_input_name: String,
    pub is_master: bool,
    pub virtual_output: bool,
    pub virtual_input: bool,
}

/// The track publishes its bus as a desktop output.
pub open spec fn exports_sink(t: TrackInfo, name: Seq<char>) -> bool {
    t.expected_sink_name@ == name && (t.is_master || t.virtual_output)
}

/// The track publishes this virtual input.
pub open spec fn exports_source(t: TrackInfo, name: Seq<char>) -> bool {
    !t.is_master && t.virtual_input && t.expected_virtual_input_name@ == name
}

/// Which sinks the output picker shows: not internal helpers; BusChain sinks
/// only when some track exports them.
pub open spec fn include_sink_spec(name: Seq<char>, tracks: Seq<TrackInfo>) -> bool {
    if internal_helper_spec(name) {
        false
    } else if has_prefix(name, "buschain_"@) {
        exists|k: int| 0 <= k < tracks.len() && exports_sink(#[trigger] tracks[k], name)
    } else {
        true
    }
}

/// Which sources the input picker shows: not helpers or monitors; BusChain
/// virtual inputs only when some track exports them; no other BusChain source.
pub open spec fn include_source_spec(name: Seq<char>, tracks: Seq<TrackInfo>) -> bool {
    if internal_helper_spec(name) || has_infix(name, ".monitor"@) {
        false
    } else if has_prefix(name, "buschain_vin_"@) {
        exists|k: int| 0 <= k < tracks.len() && exports_source(#[trigger] tracks[k], name)
    } else if has_prefix(name, "buschain_"@) {
        false
    } else {
        true
    }
}

fn any_exports_sink(tracks: &Vec<TrackInfo>, name: &str) -> (r: bool)
    ensures
        r == exists|k: int| 0 <= k < tracks@.len() && exports_sink(#[trigger] tracks@[k], name@),
{
    let mut i: usize = 0;
    while i < tracks.len()
        invariant
            i <= tracks.len(),
            forall|k: int| 0 <= k < i ==> !exports_sink(#[trigger] tracks@[k], name@),
        decreases tracks.len() - i,
    {
        let t = &tracks[i];
        if str_eq(t.expected_sink_name.as_str(), name) && (t.is_master || t.virtual_output) {
            return true;
        }
        i += 1;
    }
    false
}

fn any_exports_source(tracks: &Vec<TrackInfo>, name: &str) -> (r: bool)
    ensures
        r == exists|k: int| 0 <= k < tracks@.len() && exports_source(#[trigger] tracks@[k], name@),
{
    let mut i: usize = 0;
    while i < tracks.len()
        invariant
            i <= tracks.len(),
            forall|k: int| 0 <= k < i ==> !exports_source(#[trigger] tracks@[k], name@),
        decreases tracks.len() - i,
    {
        let t = &tracks[i];
        if !t.is_master && t.virtual_input && str_eq(t.expected_virtual_input_name.as_str(), name) {
            return true;
        }
        i += 1;
    }
    false
}

/// Whether the output picker shows sink `name`.
pub fn include_sink(name: &str, tracks: &Vec<TrackInfo>) -> (r: bool)
    ensures
        r == include_sink_spec(name@, tracks@),
{
    if is_internal_helper(name) {
        return false;
    }
    if starts_with(name, "buschain_") {
        return any_exports_sink(tracks, name);
    }
    true
}

/// Whether the input picker shows source `name`.
pub fn include_source(name: &str, tracks: &Vec<TrackInfo>) -> (r: bool)
    ensures
        r == include_source_spec(name@, tracks@),
{
    if is_internal_helper(name) || contains(name, ".monitor") {
        return false;
    }
    if starts_with(name, "buschain_vin_") {
        return any_exports_source(tracks, name);
    }
    if starts_with(name, "buschain_") {
        return false;
    }
    true
}

/// Title of a sink in the picker: `Master` or the track name for a track's
/// bus (the first track expecting that name), else the description.
pub open spec fn sink_title_spec(tracks: Seq<TrackInfo>, name: Seq<char>, description: Seq<char>) -> Seq<char>
    decreases tracks.len(),
{
    if tracks.len() == 0 {
        description
    } else if tracks[0].expected_sink_name@ == name {
        if tracks[0].is_master {
            "Master"@
        } else {
            tracks[0].name@
        }
    } else {
        sink_title_spec(tracks.drop_first(), name, description)
    }
}

/// Title of a source in the picker: the name of the first track exporting
/// that virtual input, else the description.
pub open spec fn source_title_spec(tracks: Seq<TrackInfo>, name: Seq<char>, description: Seq<char>) -> Seq<char>
    decreases tracks.len(),
{
    if tracks.len() == 0 {
        description
    } else if exports_source(tracks[0], name) {
        tracks[0].name@
    } else {
        source_title_spec(tracks.drop_first(), name, description)
    }
}

/// Title of a sink in the picker.
pub fn sink_title(tracks: &Vec<TrackInfo>, name: &str, description: &str) -> (r: String)
    ensures
        r@ == sink_title_spec(tracks@, name@, description@),
{
    let mut i: usize = 0;
    assert(tracks@.skip(0) =~= tracks@);
    while i < tracks.len()
        invariant
            i <= tracks.len(),
            sink_title_spec(tracks@, name@, description@) == sink_title_spec(tracks@.skip(i as int), name@, description@),
        decreases tracks.len() - i,
    {
        assert(tracks@.skip(i as int)[0] == tracks@[i as int]);
        assert(tracks@.skip(i as int).drop_first() =~= tracks@.skip(i + 1));
        let t = &tracks[i];
        if str_eq(t.expected_sink_name.as_str(), name) {
            if t.is_master {
                return own("Master");
            }
            return own(t.name.as_str());
        }
        i += 1;
    }
    own(description)
}

/// Title of a source in the picker.
pub fn source_title(tracks: &Vec<TrackInfo>, name: &str, description: &str) -> (r: String)
    ensures
        r@ == source_title_spec(tracks@, name@, description@),
{
    let mut i: usize = 0;
    assert(tracks@.skip(0) =~= tracks@);
    while i < tracks.len()
        invariant
            i <= tracks.len(),
            source_title_spec(tracks@, name@, description@) == source_title_spec(tracks@.skip(i as int), name@, description@),
        decreases tracks.len() - i,
    {
        assert(tracks@.skip(i as int)[0] == tracks@[i as int]);
        assert(tracks@.skip(i as int).drop_first() =~= tracks@.skip(i + 1));
        let t = &tracks[i];
        if !t.is_master && t.virtual_input && str_eq(t.expected_virtual_input_name.as_str(), name) {
            return own(t.name.as_str());
        }
        i += 1;
    }
    own(description)
}

/// `r` lists favourite track indices first, then the others, each group in
/// increasing order, every index of `n` tracks once.
pub open spec fn favorites_first_spec(r: Seq<usize>, n: int, is_fav: spec_fn(int) -> bool) -> bool {
    &&& r.len() == n
    &&& exists|nf: int| #[trigger] split_at(r, n, is_fav, nf)
    &&& forall|i: int| 0 <= i < n ==> #[trigger] r.contains(i as usize)
}

/// The first `nf` entries are the favourites, the rest the others, each run
/// increasing.
pub open spec fn split_at(r: Seq<usize>, n: int, is_fav: spec_fn(int) -> bool, nf: int) -> bool {
    &&& 0 <= nf <= n
    &&& forall|k: int| 0 <= k < nf ==> #[trigger] is_fav(r[k] as int)
    &&& forall|k: int| nf <= k < n ==> !#[trigger] is_fav(r[k] as int)
    &&& forall|a: int, b: int| 0 <= a < b < nf ==> #[trigger] r[a] < #[trigger] r[b]
    &&& forall|a: int, b: int| nf <= a < b < n ==> #[trigger] r[a] < #[trigger] r[b]
}

/// The track at `i` is a favourite.
pub open spec fn fav_at(track_ids: Seq<String>, favorites: Seq<String>, i: int) -> bool {
    crate::ordset::strs_view(favorites).contains(track_ids[i]@)
}

/// Favourite tracks first, each group in track order: the track indices in
/// that order (`track_ids` are the tracks' ids as text).
pub fn tracks_favorites_first(track_ids: &Vec<String>, favorites: &Vec<String>) -> (r: Vec<usize>)
    ensures
        favorites_first_spec(r@, track_ids@.len() as int, |i: int| fav_at(track_ids@, favorites@, i)),
{
    let ghost isf = |i: int| fav_at(track_ids@, favorites@, i);
    let mut fav: Vec<usize> = Vec::new();
    let mut rest: Vec<usize> = Vec::new();
    let mut i: usize = 0;
    while i < track_ids.len()
        invariant
            i <= track_ids.len(),
            isf == (|i: int| fav_at(track_ids@, favorites@, i)),
            forall|k: int| 0 <= k < fav@.len() ==> (#[trigger] fav@[k]) < i && isf(fav@[k] as int),
            forall|k: int| 0 <= k < rest@.len() ==> (#[trigger] rest@[k]) < i && !isf(rest@[k] as int),
            forall|a: int, b: int| 0 <= a < b < fav@.len() ==> #[trigger] fav@[a] < #[trigger] fav@[b],
            forall|a: int, b: int| 0 <= a < b < rest@.len() ==> #[trigger] rest@[a] < #[trigger] rest@[b],
            fav@.len() + rest@.len() == i,
            forall|j: int| 0 <= j < i ==> (#[trigger] fav@.contains(j as usize)) || rest@.contains(j as usize),
        decreases track_ids.len() - i,
    {
        let ghost f_old = fav@;
        let ghost r_old = rest@;
        let is_fav = crate::ordset::contains_str(favorites.as_slice(), track_ids[i].as_str());
        if is_fav {
            fav.push(i);
        } else {
            rest.push(i);
        }
        proof {
            assert forall|j: int| 0 <= j < i + 1 implies (#[trigger] fav@.contains(j as usize)) || rest@.contains(j as usize) by {
                if j == i {
                    if is_fav {
                        assert(fav@[f_old.len() as int] == j as usize);
                    } else {
                        assert(rest@[r_old.len() as int] == j as usize);
                    }
                } else if f_old.contains(j as usize) {
                    let q = choose|q: int| 0 <= q < f_old.len() && f_old[q] == j as usize;
                    assert(fav@[q] == j as usize);
                } else {
                    assert(r_old.contains(j as usize));
                    let q = choose|q: int| 0 <= q < r_old.len() && r_old[q] == j as usize;
                    assert(rest@[q] == j as usize);
                }
            }
        }
        i += 1;
    }
    let nf = fav.len();
    let ghost f0 = fav@;
    let mut k: usize = 0;
    while k < rest.len()
        invariant
            k <= rest.len(),
            nf == f0.len(),
            fav@ == f0 + rest@.take(k as int),
        decreases rest.len() - k,
    {
        fav.push(rest[k]);
        assert(rest@.take(k + 1) =~= rest@.take(k as int).push(rest@[k as int]));
        k += 1;
    }
    assert(rest@.take(rest.len() as int) =~= rest@);
    proof {
        let r = fav@;
        let n = track_ids@.len() as int;
        assert(r =~= f0 + rest@);
        assert forall|j: int| 0 <= j < n implies #[trigger] r.contains(j as usize) by {
            if f0.contains(j as usize) {
                let q = choose|q: int| 0 <= q < f0.len() && f0[q] == j as usize;
                assert(r[q] == j as usize);
            } else {
                assert(rest@.contains(j as usize));
                let q = choose|q: int| 0 <= q < rest@.len() && rest@[q] == j as usize;
                assert(r[nf + q] == j as usize);
            }
        }
        let nfi = nf as int;
        assert(forall|q: int| 0 <= q < nfi ==> #[trigger] isf(r[q] as int)) by {
            assert forall|q: int| 0 <= q < nfi implies #[trigger] isf(r[q] as int) by {
                assert(r[q] == f0[q]);
            }
        }
        assert forall|q: int| nfi <= q < n implies !#[trigger] isf(r[q] as int) by {
            assert(r[q] == rest@[q - nfi]);
        }
        assert forall|a: int, b: int| 0 <= a < b < nfi implies #[trigger] r[a] < #[trigger] r[b] by {
            assert(r[a] == f0[a] && r[b] == f0[b]);
        }
        assert forall|a: int, b: int| nfi <= a < b < n implies #[trigger] r[a] < #[trigger] r[b] by {
            assert(r[a] == rest@[a - nfi] && r[b] == rest@[b - nfi]);
        }
        assert(split_at(r, n, isf, nfi));
    }
    fav
}

// ---------------------------------------------------------------------------
// Output tab rows
// ---------------------------------------------------------------------------

/// A BusChain helper or a pre-rebrand leftover, hidden on the Output tab
/// unless "Show hidden" is on.
pub open spec fn hidden_output(name: Seq<char>, description: Seq<char>) -> bool {
    has_prefix(name, "buschain_fx_"@) || has_prefix(name, "buschain_post_"@) || has_prefix(
        name,
        "buschain_mid_"@,
    ) || has_prefix(name, "buschain_rs_"@) || has_prefix(name, "buschain_vinf_"@) || name
        == "buschain_hold"@ || has_prefix(name, "shadow_"@) || has_prefix(description, "ShadowAudio_"@)
}

/// Some track with that sink exports a virtual output.
pub open spec fn exports_virtual_output(tracks: Seq<TrackInfo>, name: Seq<char>) -> bool {
    exists|k: int| 0 <= k < tracks.len() && (#[trigger] tracks[k]).expected_sink_name@ == name && tracks[k].virtual_output
}

/// The snapshot sink is listed: always with "Show hidden"; otherwise not a
/// hidden helper, and a track bus only when a track exports it as a virtual
/// output.
pub open spec fn output_kept(name: Seq<char>, description: Seq<char>, tracks: Seq<TrackInfo>, show_hidden: bool) -> bool {
    show_hidden || (!hidden_output(name, description) && (has_prefix(name, "buschain_track_"@)
        ==> exports_virtual_output(tracks, name)))
}

/// The kept snapshot sinks, in order, as `(name, description, false)`.
pub open spec fn kept_outputs(sinks: Seq<(Seq<char>, Seq<char>)>, tracks: Seq<TrackInfo>, show_hidden: bool) -> Seq<
    (Seq<char>, Seq<char>, bool),
>
    decreases sinks.len(),
{
    if sinks.len() == 0 {
        Seq::empty()
    } else {
        let r = kept_outputs(sinks.drop_last(), tracks, show_hidden);
        let s = sinks.last();
        if output_kept(s.0, s.1, tracks, show_hidden) {
            r.push((s.0, s.1, false))
        } else {
            r
        }
    }
}

/// `BusChainControl_` and the track name with spaces as underscores.
pub open spec fn bus_label(t: TrackInfo) -> Seq<char> {
    "BusChainControl_"@ + crate::text::replace_char_spec(t.name@, ' ', '_')
}

/// Some row carries that sink name.
pub open spec fn row_named(rows: Seq<(Seq<char>, Seq<char>, bool)>, name: Seq<char>) -> bool {
    exists|k: int| 0 <= k < rows.len() && (#[trigger] rows[k]).0 == name
}

/// After `rows`, one row per master or virtual-output track whose sink no
/// row names yet, as `(sink, bus label, true)`, in track order.
pub open spec fn synth_outputs(rows: Seq<(Seq<char>, Seq<char>, bool)>, tracks: Seq<TrackInfo>) -> Seq<
    (Seq<char>, Seq<char>, bool),
>
    decreases tracks.len(),
{
    if tracks.len() == 0 {
        rows
    } else {
        let r = synth_outputs(rows, tracks.drop_last());
        let t = tracks.last();
        if (t.is_master || t.virtual_output) && !row_named(r, t.expected_sink_name@) {
            r.push((t.expected_sink_name@, bus_label(t), true))
        } else {
            r
        }
    }
}

/// The rows of the Output tab: the kept snapshot sinks in order, then one
/// synthesized row per master or virtual-output track whose sink is not
/// there yet (the bool marks a synthesized row).
pub open spec fn output_rows_spec(sinks: Seq<(Seq<char>, Seq<char>)>, tracks: Seq<TrackInfo>, show_hidden: bool) -> Seq<
    (Seq<char>, Seq<char>, bool),
> {
    synth_outputs(kept_outputs(sinks, tracks, show_hidden), tracks)
}

proof fn lemma_kept_outputs(sinks: Seq<(Seq<char>, Seq<char>)>, tracks: Seq<TrackInfo>, show_hidden: bool)
    ensures
        forall|k: int|
            0 <= k < kept_outputs(sinks, tracks, show_hidden).len() ==> !(#[trigger] kept_outputs(sinks, tracks, show_hidden)[k]).2
                && output_kept(
                kept_outputs(sinks, tracks, show_hidden)[k].0,
                kept_outputs(sinks, tracks, show_hidden)[k].1,
                tracks,
                show_hidden,
            ),
    decreases sinks.len(),
{
    if sinks.len() > 0 {
        lemma_kept_outputs(sinks.drop_last(), tracks, show_hidden);
        let r = kept_outputs(sinks.drop_last(), tracks, show_hidden);
        let all = kept_outputs(sinks, tracks, show_hidden);
        assert forall|k: int| 0 <= k < all.len() implies !(#[trigger] all[k]).2 && output_kept(all[k].0, all[k].1, tracks, show_hidden) by {
            if k < r.len() {
                assert(all[k] == r[k]);
            }
        }
    }
}

proof fn lemma_synth_outputs(rows: Seq<(Seq<char>, Seq<char>, bool)>, tracks: Seq<TrackInfo>)
    ensures
        synth_outputs(rows, tracks).len() >= rows.len(),
        forall|k: int| 0 <= k < rows.len() ==> #[trigger] synth_outputs(rows, tracks)[k] == rows[k],
        forall|k: int| rows.len() <= k < synth_outputs(rows, tracks).len() ==> (#[trigger] synth_outputs(rows, tracks)[k]).2,
        forall|j: int|
            0 <= j < tracks.len() && ((#[trigger] tracks[j]).is_master || tracks[j].virtual_output) ==> row_named(
                synth_outputs(rows, tracks),
                tracks[j].expected_sink_name@,
            ),
    decreases tracks.len(),
{
    if tracks.len() > 0 {
        let init = tracks.drop_last();
        lemma_synth_outputs(rows, init);
        let r = synth_outputs(rows, init);
        let all = synth_outputs(rows, tracks);
        let t = tracks.last();
        assert forall|k: int| 0 <= k < r.len() implies #[trigger] all[k] == r[k] by {}
        assert forall|j: int|
            0 <= j < tracks.len() && ((#[trigger] tracks[j]).is_master || tracks[j].virtual_output) implies row_named(
                all,
                tracks[j].expected_sink_name@,
            ) by {
            if j < init.len() {
                assert(tracks[j] == init[j]);
                assert(row_named(r, init[j].expected_sink_name@));
                let k = choose|k: int| 0 <= k < r.len() && (#[trigger] r[k]).0 == init[j].expected_sink_name@;
                assert(all[k] == r[k]);
            } else {
                assert(tracks[j] == t);
                if row_named(r, t.expected_sink_name@) {
                    let k = choose|k: int| 0 <= k < r.len() && (#[trigger] r[k]).0 == t.expected_sink_name@;
                    assert(all[k] == r[k]);
                } else {
                    assert(all[r.len() as int].0 == t.expected_sink_name@);
                }
            }
        }
    }
}

/// What the Output tab promises: without "Show hidden", no snapshot row is
/// a hidden helper (and a track bus is listed only when a track exports it as
/// a virtual output); every snapshot row comes first, in snapshot order; and
/// the sink of every master or virtual-output track is on some row.
pub proof fn law_output_rows(sinks: Seq<(Seq<char>, Seq<char>)>, tracks: Seq<TrackInfo>, show_hidden: bool)
    ensures
        forall|k: int|
            0 <= k < output_rows_spec(sinks, tracks, show_hidden).len() && !(#[trigger] output_rows_spec(sinks, tracks, show_hidden)[k]).2
                && !show_hidden ==> !hidden_output(
                output_rows_spec(sinks, tracks, show_hidden)[k].0,
                output_rows_spec(sinks, tracks, show_hidden)[k].1,
            ) && (has_prefix(output_rows_spec(sinks, tracks, show_hidden)[k].0, "buschain_track_"@)
                ==> exports_virtual_output(tracks, output_rows_spec(sinks, tracks, show_hidden)[k].0)),
        forall|j: int|
            0 <= j < tracks.len() && ((#[trigger] tracks[j]).is_master || tracks[j].virtual_output) ==> row_named(
                output_rows_spec(sinks, tracks, show_hidden),
                tracks[j].expected_sink_name@,
            ),
{
    let kept = kept_outputs(sinks, tracks, show_hidden);
    lemma_kept_outputs(sinks, tracks, show_hidden);
    lemma_synth_outputs(kept, tracks);
    let all = output_rows_spec(sinks, tracks, show_hidden);
    assert forall|k: int| 0 <= k < all.len() && !(#[trigger] all[k]).2 && !show_hidden implies !hidden_output(all[k].0, all[k].1)
        && (has_prefix(all[k].0, "buschain_track_"@) ==> exports_virtual_output(tracks, all[k].0)) by {
        if k < kept.len() {
            assert(all[k] == kept[k]);
        }
    }
}

/// Views of output rows.
pub open spec fn strs_rows(v: Seq<(String, String, bool)>) -> Seq<(Seq<char>, Seq<char>, bool)> {
    v.map_values(|r: (String, String, bool)| (r.0@, r.1@, r.2))
}

fn is_hidden_output(name: &str, description: &str) -> (r: bool)
    ensures
        r == hidden_output(name@, description@),
{
    starts_with(name, "buschain_fx_") || starts_with(name, "buschain_post_") || starts_with(
        name,
        "buschain_mid_",
    ) || starts_with(name, "buschain_rs_") || starts_with(name, "buschain_vinf_") || str_eq(
        name,
        "buschain_hold",
    ) || starts_with(name, "shadow_") || starts_with(description, "ShadowAudio_")
}

fn any_virtual_output(tracks: &Vec<TrackInfo>, name: &str) -> (r: bool)
    ensures
        r == exports_virtual_output(tracks@, name@),
{
    let mut i: usize = 0;
    while i < tracks.len()
        invariant
            i <= tracks.len(),
            forall|k: int| 0 <= k < i ==> !((#[trigger] tracks@[k]).expected_sink_name@ == name@ && tracks@[k].virtual_output),
        decreases tracks.len() - i,
    {
        if str_eq(tracks[i].expected_sink_name.as_str(), name) && tracks[i].virtual_output {
            return true;
        }
        i += 1;
    }
    false
}

fn any_row_named(rows: &Vec<(String, String, bool)>, name: &str) -> (r: bool)
    ensures
        r == row_named(strs_rows(rows@), name@),
{
    let ghost v = strs_rows(rows@);
    let mut i: usize = 0;
    while i < rows.len()
        invariant
            i <= rows.len(),
            v == strs_rows(rows@),
            forall|k: int| 0 <= k < i ==> (#[trigger] v[k]).0 != name@,
        decreases rows.len() - i,
    {
        assert(v[i as int].0 == rows@[i as int].0@);
        if str_eq(rows[i].0.as_str(), name) {
            return true;
        }
        i += 1;
    }
    false
}

/// The rows of the Output tab (see `output_rows_spec`): `sinks` are the
/// snapshot's `(name, description)`, in order.
pub fn output_rows(sinks: &Vec<(String, String)>, tracks: &Vec<TrackInfo>, show_hidden: bool) -> (r: Vec<(String, String, bool)>)
    ensures
        strs_rows(r@) == output_rows_spec(crate::ordset::pairs_view(sinks@), tracks@, show_hidden),
{
    let ghost sv = crate::ordset::pairs_view(sinks@);
    let mut out: Vec<(String, String, bool)> = Vec::new();
    let mut i: usize = 0;
    while i < sinks.len()
        invariant
            i <= sinks.len(),
            sv == crate::ordset::pairs_view(sinks@),
            strs_rows(out@) == kept_outputs(sv.take(i as int), tracks@, show_hidden),
        decreases sinks.len() - i,
    {
        let name = sinks[i].0.as_str();
        let desc = sinks[i].1.as_str();
        assert(sv.take(i + 1).drop_last() =~= sv.take(i as int));
        assert(sv.take(i + 1).last() == (name@, desc@));
        let keep = show_hidden || (!is_hidden_output(name, desc) && (!starts_with(name, "buschain_track_")
            || any_virtual_output(tracks, name)));
        if keep {
            out.push((own(name), own(desc), false));
        }
        assert(strs_rows(out@) =~= kept_outputs(sv.take(i + 1), tracks@, show_hidden));
        i += 1;
    }
    assert(sv.take(sinks.len() as int) =~= sv);
    let ghost kept = strs_rows(out@);
    let mut j: usize = 0;
    while j < tracks.len()
        invariant
            j <= tracks.len(),
            strs_rows(out@) == synth_outputs(kept, tracks@.take(j as int)),
        decreases tracks.len() - j,
    {
        let t = &tracks[j];
        assert(tracks@.take(j + 1).drop_last() =~= tracks@.take(j as int));
        assert(tracks@.take(j + 1).last() == *t);
        if (t.is_master || t.virtual_output) && !any_row_named(&out, t.expected_sink_name.as_str()) {
            let label = concat("BusChainControl_", crate::text::replace_char(t.name.as_str(), ' ', '_').as_str());
            out.push((own(t.expected_sink_name.as_str()), label, true));
        }
        assert(strs_rows(out@) =~= synth_outputs(kept, tracks@.take(j + 1)));
        j += 1;
    }
    assert(tracks@.take(tracks.len() as int) =~= tracks@);
    out
}

/// How one Output row is shown and what it offers.
#[derive(Debug)]
pub struct OutputRowDetail {
    /// The title: `BusChainControl_Master` / the track's bus label for a
    /// track's sink, else the sink's description.
    pub label: String,
    /// A mixer-owned bus (Master or a track bus): level from the strip.
    pub app_bus: bool,
    /// A BusChain or pre-rebrand helper, not a hardware device.
    pub helper: bool,
    /// Offers "Master HW out".
    pub can_set_master: bool,
    /// Offers "System default".
    pub can_default: bool,
    /// Offers mute and volume.
    pub can_mute: bool,
}

/// Title of an Output row: from the first track expecting that sink.
pub open spec fn output_label_spec(tracks: Seq<TrackInfo>, name: Seq<char>, description: Seq<char>) -> Seq<char>
    decreases tracks.len(),
{
    if tracks.len() == 0 {
        description
    } else if tracks[0].expected_sink_name@ == name {
        if tracks[0].is_master {
            "BusChainControl_Master"@
        } else {
            bus_label(tracks[0])
        }
    } else {
        output_label_spec(tracks.drop_first(), name, description)
    }
}

/// A sink that can never be the system default: FX, post, rate-bridge, the
/// hold, or a pre-rebrand leftover.
pub open spec fn fx_like(name: Seq<char>) -> bool {
    has_prefix(name, "buschain_fx_"@) || has_prefix(name, "buschain_post_"@) || has_prefix(
        name,
        "buschain_rs_"@,
    ) || name == "buschain_hold"@ || has_prefix(name, "shadow_"@)
}

fn output_label(tracks: &Vec<TrackInfo>, name: &str, description: &str) -> (r: String)
    ensures
        r@ == output_label_spec(tracks@, name@, description@),
{
    let mut i: usize = 0;
    assert(tracks@.skip(0) =~= tracks@);
    while i < tracks.len()
        invariant
            i <= tracks.len(),
            output_label_spec(tracks@, name@, description@) == output_label_spec(tracks@.skip(i as int), name@, description@),
        decreases tracks.len() - i,
    {
        assert(tracks@.skip(i as int)[0] == tracks@[i as int]);
        assert(tracks@.skip(i as int).drop_first() =~= tracks@.skip(i + 1));
        let t = &tracks[i];
        if str_eq(t.expected_sink_name.as_str(), name) {
            if t.is_master {
                return own("BusChainControl_Master");
            }
            return concat("BusChainControl_", crate::text::replace_char(t.name.as_str(), ' ', '_').as_str());
        }
        i += 1;
    }
    own(description)
}

/// What one Output row shows and offers.
pub fn output_row_detail(name: &str, description: &str, tracks: &Vec<TrackInfo>) -> (r: OutputRowDetail)
    ensures
        r.label@ == output_label_spec(tracks@, name@, description@),
        r.app_bus == (name@ == "buschain_master"@ || has_prefix(name@, "buschain_track_"@)),
        r.helper == (has_prefix(name@, "buschain_"@) || has_prefix(name@, "shadow_"@)),
        r.can_set_master == !r.helper,
        r.can_default == (!fx_like(name@) && !(has_prefix(name@, "buschain_track_"@) && !exports_virtual_output(
            tracks@,
            name@,
        ))),
        r.can_mute == !r.app_bus,
{
    let label = output_label(tracks, name, description);
    let app_bus = str_eq(name, "buschain_master") || starts_with(name, "buschain_track_");
    let helper = starts_with(name, "buschain_") || starts_with(name, "shadow_");
    let fx = starts_with(name, "buschain_fx_") || starts_with(name, "buschain_post_") || starts_with(
        name,
        "buschain_rs_",
    ) || str_eq(name, "buschain_hold") || starts_with(name, "shadow_");
    let hidden_track = starts_with(name, "buschain_track_") && !any_virtual_output(tracks, name);
    OutputRowDetail {
        label,
        app_bus,
        helper,
        can_set_master: !helper,
        can_default: !fx && !hidden_track,
        can_mute: !app_bus,
    }
}

/// The Output header line for Master HW: its description (its name when the
/// description is missing or empty), or `(none)`.
pub fn master_hw_label(master: Option<&str>, description: Option<&str>) -> (r: String)
    ensures
        r@ == "Master HW → "@ + match master {
            None => "(none)"@,
            Some(n) => match description {
                Some(d) => if d@.len() > 0 {
                    d@
                } else {
                    n@
                },
                None => n@,
            },
        },
{
    match master {
        None => concat("Master HW → ", "(none)"),
        Some(n) => match description {
            Some(d) => if d.unicode_len() > 0 {
                concat("Master HW → ", d)
            } else {
                concat("Master HW → ", n)
            },
            None => concat("Master HW → ", n),
        },
    }
}

/// How far the system default has caught up with the preferred one: `ok`
/// once the live default is the preferred one, `applying…` while a
/// preference waits, nothing without a preference.
pub fn default_sink_status(preferred: Option<&str>, live: Option<&str>) -> (r: &'static str)
    ensures
        r@ == match (preferred, live) {
            (Some(p), Some(l)) => if p@ == l@ {
                "ok"@
            } else {
                "applying…"@
            },
            (Some(_), None) => "applying…"@,
            _ => ""@,
        },
{
    match (preferred, live) {
        (Some(p), Some(l)) => if str_eq(p, l) {
            "ok"
        } else {
            "applying…"
        },
        (Some(_), None) => "applying…",
        _ => "",
    }
}

/// Solo is retired: clear every leftover solo flag of the session's tracks
/// so no bus stays muted. Reports whether any was set (then the session is
/// dirty and levels are re-sent).
pub fn clear_solos(solos: &mut Vec<bool>) -> (changed: bool)
    ensures
        changed == old(solos)@.contains(true),
        final(solos)@.len() == old(solos)@.len(),
        forall|i: int| 0 <= i < final(solos)@.len() ==> !#[trigger] final(solos)@[i],
{
    let mut changed = false;
    let mut i: usize = 0;
    while i < solos.len()
        invariant
            i <= solos.len(),
            solos@.len() == old(solos)@.len(),
            forall|k: int| 0 <= k < i ==> !#[trigger] solos@[k],
            forall|k: int| i <= k < solos@.len() ==> #[trigger] solos@[k] == old(solos)@[k],
            changed == old(solos)@.take(i as int).contains(true),
        decreases solos.len() - i,
    {
        proof {
            assert(old(solos)@.take(i + 1) =~= old(solos)@.take(i as int).push(old(solos)@[i as int]));
            broadcast use vstd::seq_lib::group_seq_properties;
        }
        if solos[i] {
            changed = true;
        }
        solos.set(i, false);
        i += 1;
    }
    assert(old(solos)@.take(old(solos)@.len() as int) =~= old(solos)@);
    changed
}

} // verus!
