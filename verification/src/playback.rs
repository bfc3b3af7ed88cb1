//! Session playback placement: which sink-inputs (application streams) go
//! to which bus, from the pins and preferred default sink of the session.
use vstd::prelude::*;

use crate::session::PlaybackStreamInfo;

use crate::text::{
    all_digits, ascii_lower_seq, concat, contains, decimal, eq_ignore_ascii_case, eq_ignore_case,
    has_infix, has_prefix, lowercase, opt_view, own, starts_with, str_eq, strip_prefix,
    strip_prefix_spec, to_ascii_lowercase, to_chars, to_lowercase, trim, trim_spec, u32_to_string,
};

verus! {

/// One application stream (Pulse sink-input) as placement sees it.
#[derive(Debug)]
pub struct Si {
    pub index: u32,
    pub sink: String,
    pub application: String,
    pub binary: Option<String>,
    pub app_id: Option<String>,
    pub node_name: Option<String>,
    pub media_role: Option<String>,
    pub internal: bool,
}

/// The text, when present and not empty.
pub open spec fn nonempty(o: Option<String>) -> Option<Seq<char>> {
    match o {
        Some(s) => if s@.len() > 0 {
            Some(s@)
        } else {
            None
        },
        None => None,
    }
}

/// Generic runtimes whose binary is useless as an app identity.
pub open spec fn binary_is_generic_spec(b: Seq<char>) -> bool {
    let l = ascii_lower_seq(b);
    l == "electron"@ || l == "chrome"@ || l == "chromium"@ || l == "chrome-sandbox"@ || l == "java"@
        || l == "python"@ || l == "python3"@ || l == "python3.10"@ || l == "python3.11"@ || l
        == "python3.12"@ || l == "python3.13"@ || l == "node"@ || l == "nodejs"@ || l == "wine"@ || l
        == "wine64"@ || l == "mono"@ || l == "dotnet"@ || l == "perl"@ || l == "ruby"@
}

/// Generic application names.
pub open spec fn name_is_generic_spec(s: Seq<char>) -> bool {
    let l = ascii_lower_seq(s);
    l == "chromium"@ || l == "chrome"@ || l == "electron"@ || l == "playback"@
}

/// A bare stream label: `Stream <digits>` or only digits (after trimming).
pub open spec fn stream_label_spec(s: Seq<char>) -> bool {
    let t = trim_spec(s);
    match strip_prefix_spec(t, "Stream "@) {
        Some(rest) => all_digits(rest),
        None => all_digits(t) && t.len() > 0,
    }
}

/// The stream names a real application: a non-generic binary, an app id,
/// or a name that is neither generic nor a bare stream label.
pub open spec fn has_app_identity_spec(app: Seq<char>, binary: Option<Seq<char>>, app_id: Option<Seq<char>>) -> bool {
    (binary matches Some(b) && b.len() > 0 && !binary_is_generic_spec(b)) || (app_id matches Some(id)
        && id.len() > 0) || (app.len() > 0 && !name_is_generic_spec(app) && !stream_label_spec(app))
}

/// An event-like media role.
pub open spec fn is_event_role(role: Option<Seq<char>>) -> bool {
    role matches Some(r) && ({
        let l = ascii_lower_seq(r);
        l == "event"@ || l == "notify"@ || l == "notification"@ || l == "alert"@
    })
}

/// Anonymous system sounds (never reclaimed): `System Sounds`, or an
/// event-role stream with no application identity.
pub open spec fn anon_spec(si: Si) -> bool {
    anon_fields(si.application@, opt_view(si.media_role), opt_view(si.binary), opt_view(si.app_id))
}

/// `anon_spec` over the fields it reads.
pub open spec fn anon_fields(
    app: Seq<char>,
    role: Option<Seq<char>>,
    binary: Option<Seq<char>>,
    app_id: Option<Seq<char>>,
) -> bool {
    eq_ignore_ascii_case(app, "System Sounds"@) || (is_event_role(role) && !has_app_identity_spec(
        app,
        binary,
        app_id,
    ))
}

/// The application key: non-generic binary, id, non-generic name, generic
/// binary, node, then stream index.
pub open spec fn app_key_spec(si: Si) -> Seq<char> {
    match nonempty(si.binary) {
        Some(b) if !binary_is_generic_spec(b) => "bin:"@ + b,
        _ => match nonempty(si.app_id) {
            Some(id) => "id:"@ + id,
            None => if si.application@.len() > 0 && !name_is_generic_spec(si.application@) {
                "name:"@ + si.application@
            } else {
                match nonempty(si.binary) {
                    Some(b) => "bin:"@ + b,
                    None => match nonempty(si.node_name) {
                        Some(n) => "node:"@ + n,
                        None => "stream:"@ + decimal(si.index as nat),
                    },
                }
            },
        },
    }
}

/// Whether a pin token designates the stream.
pub open spec fn matches_key_spec(si: Si, token: Seq<char>) -> bool {
    if token.len() == 0 {
        false
    } else if token == app_key_spec(si) {
        true
    } else if strip_prefix_spec(token, "bin:"@) is Some {
        opt_view(si.binary) == strip_prefix_spec(token, "bin:"@)
    } else if strip_prefix_spec(token, "id:"@) is Some {
        opt_view(si.app_id) == strip_prefix_spec(token, "id:"@)
    } else if strip_prefix_spec(token, "name:"@) is Some {
        eq_ignore_ascii_case(si.application@, strip_prefix_spec(token, "name:"@)->0)
    } else if strip_prefix_spec(token, "node:"@) is Some {
        opt_view(si.node_name) == strip_prefix_spec(token, "node:"@)
    } else if strip_prefix_spec(token, "stream:"@) is Some {
        decimal(si.index as nat) == strip_prefix_spec(token, "stream:"@)->0
    } else if decimal(si.index as nat) == token {
        true
    } else {
        let tok = lowercase(token);
        lowercase(si.application@) == tok || (si.binary matches Some(b) && lowercase(b@) == tok) || (
        si.app_id matches Some(id) && lowercase(id@) == tok)
    }
}

fn opt_is(o: &Option<String>, s: &str) -> (r: bool)
    ensures
        r == (opt_view(*o) == Some(s@)),
{
    match o {
        Some(x) => str_eq(x.as_str(), s),
        None => false,
    }
}

fn nonempty_of(o: &Option<String>) -> (r: Option<&String>)
    ensures
        match r {
            Some(s) => nonempty(*o) == Some(s@),
            None => nonempty(*o) is None,
        },
{
    match o {
        Some(s) => if s.as_str().is_empty() {
            None
        } else {
            Some(s)
        },
        None => None,
    }
}

/// Generic runtimes whose binary is useless as an app identity.
pub fn binary_is_generic(b: &str) -> (r: bool)
    ensures
        r == binary_is_generic_spec(b@),
{
    let l = to_ascii_lowercase(b);
    let s = l.as_str();
    str_eq(s, "electron") || str_eq(s, "chrome") || str_eq(s, "chromium") || str_eq(s, "chrome-sandbox")
        || str_eq(s, "java") || str_eq(s, "python") || str_eq(s, "python3") || str_eq(s, "python3.10")
        || str_eq(s, "python3.11") || str_eq(s, "python3.12") || str_eq(s, "python3.13") || str_eq(s, "node")
        || str_eq(s, "nodejs") || str_eq(s, "wine") || str_eq(s, "wine64") || str_eq(s, "mono") || str_eq(
        s,
        "dotnet",
    ) || str_eq(s, "perl") || str_eq(s, "ruby")
}

/// Generic application names.
pub fn name_is_generic(s: &str) -> (r: bool)
    ensures
        r == name_is_generic_spec(s@),
{
    let l = to_ascii_lowercase(s);
    let t = l.as_str();
    str_eq(t, "chromium") || str_eq(t, "chrome") || str_eq(t, "electron") || str_eq(t, "playback")
}

fn all_ascii_digits(s: &str) -> (r: bool)
    ensures
        r == all_digits(s@),
{
    let x = to_chars(s);
    let mut i: usize = 0;
    while i < x.len()
        invariant
            i <= x.len(),
            x@ == s@,
            forall|j: int| 0 <= j < i ==> crate::text::is_digit(#[trigger] x@[j]),
        decreases x.len() - i,
    {
        if !('0' <= x[i] && x[i] <= '9') {
            return false;
        }
        i += 1;
    }
    true
}

/// A bare stream label: `Stream <digits>` or only digits (after trimming).
pub fn looks_like_stream_label(s: &str) -> (r: bool)
    ensures
        r == stream_label_spec(s@),
{
    let t = trim(s);
    match strip_prefix(t.as_str(), "Stream ") {
        Some(rest) => all_ascii_digits(rest.as_str()),
        None => all_ascii_digits(t.as_str()) && !t.as_str().is_empty(),
    }
}

/// The stream names a real application.
pub fn has_app_identity(application: &str, binary: &Option<String>, app_id: &Option<String>) -> (r: bool)
    ensures
        r == has_app_identity_spec(application@, opt_view(*binary), opt_view(*app_id)),
{
    match binary {
        Some(b) => if !b.as_str().is_empty() && !binary_is_generic(b.as_str()) {
            return true;
        },
        None => {},
    }
    match app_id {
        Some(id) => if !id.as_str().is_empty() {
            return true;
        },
        None => {},
    }
    !application.is_empty() && !name_is_generic(application) && !looks_like_stream_label(application)
}

/// Anonymous system sounds only (must not be reclaimed): app-owned streams
/// with an event role keep their identity and follow pins and the default.
pub fn is_anonymous_system_sound(si: &Si) -> (r: bool)
    ensures
        r == anon_spec(*si),
{
    if eq_ignore_case(si.application.as_str(), "System Sounds") {
        return true;
    }
    let is_event = match &si.media_role {
        Some(role) => {
            let l = to_ascii_lowercase(role.as_str());
            str_eq(l.as_str(), "event") || str_eq(l.as_str(), "notify") || str_eq(l.as_str(), "notification")
                || str_eq(l.as_str(), "alert")
        },
        None => false,
    };
    if !is_event {
        return false;
    }
    !has_app_identity(si.application.as_str(), &si.binary, &si.app_id)
}

/// The application key of a stream (the same cascade the UI stores pins with).
pub fn si_app_key(si: &Si) -> (r: String)
    ensures
        r@ == app_key_spec(*si),
{
    match nonempty_of(&si.binary) {
        Some(b) => if !binary_is_generic(b.as_str()) {
            return concat("bin:", b.as_str());
        },
        None => {},
    }
    match nonempty_of(&si.app_id) {
        Some(id) => {
            return concat("id:", id.as_str());
        },
        None => {},
    }
    if !si.application.as_str().is_empty() && !name_is_generic(si.application.as_str()) {
        return concat("name:", si.application.as_str());
    }
    match nonempty_of(&si.binary) {
        Some(b) => {
            return concat("bin:", b.as_str());
        },
        None => {},
    }
    match nonempty_of(&si.node_name) {
        Some(n) => {
            return concat("node:", n.as_str());
        },
        None => {},
    }
    let idx = u32_to_string(si.index);
    concat("stream:", idx.as_str())
}

fn opt_lower_is(o: &Option<String>, tok: &str) -> (r: bool)
    ensures
        r == (o matches Some(x) && lowercase(x@) == tok@),
{
    match o {
        Some(x) => {
            let l = to_lowercase(x.as_str());
            str_eq(l.as_str(), tok)
        },
        None => false,
    }
}

/// Whether a pin token designates the stream: its application key, a
/// `bin:` / `id:` / `name:` / `node:` / `stream:` token, its index, or
/// (lowercased) its name, binary or app id.
pub fn matches_key(si: &Si, token: &str) -> (r: bool)
    ensures
        r == matches_key_spec(*si, token@),
{
    if token.is_empty() {
        return false;
    }
    let app_key = si_app_key(si);
    if str_eq(token, app_key.as_str()) {
        return true;
    }
    match strip_prefix(token, "bin:") {
        Some(bin) => {
            return opt_is(&si.binary, bin.as_str());
        },
        None => {},
    }
    match strip_prefix(token, "id:") {
        Some(id) => {
            return opt_is(&si.app_id, id.as_str());
        },
        None => {},
    }
    match strip_prefix(token, "name:") {
        Some(name) => {
            return eq_ignore_case(si.application.as_str(), name.as_str());
        },
        None => {},
    }
    match strip_prefix(token, "node:") {
        Some(n) => {
            return opt_is(&si.node_name, n.as_str());
        },
        None => {},
    }
    let idx = u32_to_string(si.index);
    match strip_prefix(token, "stream:") {
        Some(id) => {
            return str_eq(idx.as_str(), id.as_str());
        },
        None => {},
    }
    if str_eq(idx.as_str(), token) {
        return true;
    }
    let tok = to_lowercase(token);
    let app = to_lowercase(si.application.as_str());
    str_eq(app.as_str(), tok.as_str()) || opt_lower_is(&si.binary, tok.as_str()) || opt_lower_is(
        &si.app_id,
        tok.as_str(),
    )
}

/// A media name usable as the application name.
pub open spec fn media_fallback_ok(m: Seq<char>) -> bool {
    lowercase(m) != "playback"@ && lowercase(m) != "buschain-control"@
}

/// Application name of a registry stream: the app name, else a usable media
/// name, else `Stream <serial>`.
pub open spec fn native_application(s: PlaybackStreamInfo) -> Seq<char> {
    match opt_view(s.app_name) {
        Some(a) => a,
        None => match opt_view(s.media_name) {
            Some(m) if media_fallback_ok(m) => m,
            _ => "Stream "@ + decimal(s.serial as nat),
        },
    }
}

/// A registry stream is internal: virtual, on a BusChain helper sink, a
/// BusChain or filter-chain node, BusChain's own media, or an anonymous
/// system sound.
pub open spec fn native_internal(s: PlaybackStreamInfo) -> bool {
    let app = native_application(s);
    s.node_virtual || has_prefix(s.sink@, "buschain_fx_"@) || has_prefix(s.sink@, "buschain_post_"@)
        || has_prefix(s.sink@, "buschain_glc_"@) || has_prefix(s.sink@, "buschain_rs_"@) || has_prefix(
        s.sink@,
        "buschain_mtr_"@,
    ) || has_prefix(s.node_name@, "buschain_"@) || has_infix(s.node_name@, "filter-chain"@) || (
    s.media_name matches Some(m) && eq_ignore_ascii_case(m@, "buschain-control"@)) || has_infix(
        lowercase(app),
        "buschain"@,
    ) || anon_fields(app, opt_view(s.media_role), opt_view(s.binary), opt_view(s.app_id))
}

/// `si` is the placement view of registry stream `s`.
pub open spec fn native_si(si: Si, s: PlaybackStreamInfo) -> bool {
    &&& si.index == s.serial
    &&& si.sink@ == s.sink@
    &&& si.application@ == native_application(s)
    &&& opt_view(si.binary) == opt_view(s.binary)
    &&& opt_view(si.app_id) == opt_view(s.app_id)
    &&& opt_view(si.node_name) == (if s.node_name@.len() > 0 { Some(s.node_name@) } else { None })
    &&& opt_view(si.media_role) == opt_view(s.media_role)
    &&& si.internal == native_internal(s)
}

fn copy_opt(o: &Option<String>) -> (r: Option<String>)
    ensures
        opt_view(r) == opt_view(*o),
{
    match o {
        Some(s) => Some(own(s.as_str())),
        None => None,
    }
}

fn native_to_si(s: &PlaybackStreamInfo) -> (si: Si)
    ensures
        native_si(si, *s),
{
    let application = match &s.app_name {
        Some(a) => own(a.as_str()),
        None => {
            let usable = match &s.media_name {
                Some(m) => {
                    let ml = to_lowercase(m.as_str());
                    if !str_eq(ml.as_str(), "playback") && !str_eq(ml.as_str(), "buschain-control") {
                        Some(own(m.as_str()))
                    } else {
                        None
                    }
                },
                None => None,
            };
            match usable {
                Some(m) => m,
                None => {
                    let n = u32_to_string(s.serial);
                    concat("Stream ", n.as_str())
                },
            }
        },
    };
    let node_name = if s.node_name.as_str().is_empty() {
        None
    } else {
        Some(own(s.node_name.as_str()))
    };
    let probe = Si {
        index: s.serial,
        sink: own(s.sink.as_str()),
        application: own(application.as_str()),
        binary: copy_opt(&s.binary),
        app_id: copy_opt(&s.app_id),
        node_name: copy_opt(&node_name),
        media_role: copy_opt(&s.media_role),
        internal: false,
    };
    let anon = is_anonymous_system_sound(&probe);
    let sink = s.sink.as_str();
    let control_media = match &s.media_name {
        Some(m) => eq_ignore_case(m.as_str(), "buschain-control"),
        None => false,
    };
    let lower_app = to_lowercase(application.as_str());
    let internal = s.node_virtual || starts_with(sink, "buschain_fx_") || starts_with(sink, "buschain_post_")
        || starts_with(sink, "buschain_glc_") || starts_with(sink, "buschain_rs_") || starts_with(
        sink,
        "buschain_mtr_",
    ) || starts_with(s.node_name.as_str(), "buschain_") || contains(s.node_name.as_str(), "filter-chain")
        || control_media || contains(lower_app.as_str(), "buschain") || anon;
    Si {
        index: s.serial,
        sink: own(sink),
        application,
        binary: copy_opt(&s.binary),
        app_id: copy_opt(&s.app_id),
        node_name,
        media_role: copy_opt(&s.media_role),
        internal,
    }
}

/// Streams of the native registry as placement sees them (the registry also
/// sees streams on Internal buses that Pulse hides).
pub fn list_sink_inputs_native(streams: &[PlaybackStreamInfo]) -> (r: Vec<Si>)
    ensures
        r@.len() == streams@.len(),
        forall|k: int| 0 <= k < r@.len() ==> native_si(#[trigger] r@[k], streams@[k]),
{
    let mut out: Vec<Si> = Vec::new();
    let mut i: usize = 0;
    while i < streams.len()
        invariant
            i <= streams.len(),
            out@.len() == i,
            forall|k: int| 0 <= k < i ==> native_si(#[trigger] out@[k], streams@[k]),
        decreases streams.len() - i,
    {
        let si = native_to_si(&streams[i]);
        out.push(si);
        i += 1;
    }
    out
}

/// Rows of `pactl list short sinks` (index, name); rows whose index does not
/// parse or that have no name are skipped.
pub open spec fn short_rows(ls: Seq<Seq<char>>) -> Seq<(u32, Seq<char>)>
    decreases ls.len(),
{
    if ls.len() == 0 {
        Seq::empty()
    } else {
        let r = short_rows(ls.drop_last());
        let parts = crate::text::split_spec(ls.last(), '\t');
        match crate::text::parse_u32_spec(parts[0]) {
            Some(idx) => if parts.len() >= 2 {
                r.push((idx, parts[1]))
            } else {
                r
            },
            None => r,
        }
    }
}

/// Registry `buschain_*` names added to the sink list when missing (index 0).
pub open spec fn merge_registry(v: Seq<(u32, Seq<char>)>, names: Seq<Seq<char>>) -> Seq<(u32, Seq<char>)>
    decreases names.len(),
{
    if names.len() == 0 {
        v
    } else {
        let w = merge_registry(v, names.drop_last());
        let n = names.last();
        if has_prefix(n, "buschain_"@) && !(exists|k: int| 0 <= k < w.len() && #[trigger] w[k].1 == n) {
            w.push((0u32, n))
        } else {
            w
        }
    }
}

/// Views of `(index, name)` rows.
pub open spec fn rows_view(v: Seq<(u32, String)>) -> Seq<(u32, Seq<char>)> {
    v.map_values(|p: (u32, String)| (p.0, p.1@))
}

fn has_row_named(v: &Vec<(u32, String)>, name: &str) -> (r: bool)
    ensures
        r == exists|k: int| 0 <= k < rows_view(v@).len() && #[trigger] rows_view(v@)[k].1 == name@,
{
    let mut i: usize = 0;
    while i < v.len()
        invariant
            i <= v.len(),
            forall|k: int| 0 <= k < i ==> #[trigger] rows_view(v@)[k].1 != name@,
        decreases v.len() - i,
    {
        if str_eq(v[i].1.as_str(), name) {
            assert(rows_view(v@)[i as int].1 == name@);
            return true;
        }
        i += 1;
    }
    false
}

/// Sinks known to placement: the rows of `pactl list short sinks` (`listing`;
/// empty when pactl failed), then the registry's `buschain_*` sinks that
/// Pulse does not list (index 0), when the registry is up.
pub fn list_short_sinks(listing: &str, registry_names: &Option<Vec<String>>) -> (r: Vec<(u32, String)>)
    ensures
        rows_view(r@) == match registry_names {
            Some(ns) => merge_registry(short_rows(crate::text::lines_spec(listing@)), crate::ordset::strs_view(ns@)),
            None => short_rows(crate::text::lines_spec(listing@)),
        },
{
    let ls = crate::text::lines(listing);
    let ghost lv = ls@.map_values(|t: String| t@);
    let mut v: Vec<(u32, String)> = Vec::new();
    let mut i: usize = 0;
    assert(rows_view(v@) =~= short_rows(lv.take(0)));
    while i < ls.len()
        invariant
            i <= ls.len(),
            lv == ls@.map_values(|t: String| t@),
            rows_view(v@) == short_rows(lv.take(i as int)),
        decreases ls.len() - i,
    {
        assert(lv.take(i + 1).drop_last() =~= lv.take(i as int));
        assert(lv.take(i + 1).last() == ls@[i as int]@);
        let parts = crate::text::split_char(ls[i].as_str(), '\t');
        let ghost pv = parts@.map_values(|t: String| t@);
        assert(pv == crate::text::split_spec(ls@[i as int]@, '\t'));
        assert(pv.len() >= 1);
        assert(parts.len() >= 1);
        assert(pv[0] == parts@[0]@);
        match crate::text::parse_u32(parts[0].as_str()) {
            Some(idx) => {
                if parts.len() >= 2 {
                    assert(pv[1] == parts@[1]@);
                    v.push((idx, own(parts[1].as_str())));
                }
            },
            None => {},
        }
        assert(rows_view(v@) =~= short_rows(lv.take(i + 1)));
        i += 1;
    }
    assert(lv.take(ls.len() as int) =~= lv);
    match registry_names {
        Some(ns) => {
            let ghost base = rows_view(v@);
            let ghost nv = crate::ordset::strs_view(ns@);
            let mut j: usize = 0;
            assert(nv.take(0) =~= Seq::<Seq<char>>::empty());
            while j < ns.len()
                invariant
                    j <= ns.len(),
                    nv == crate::ordset::strs_view(ns@),
                    rows_view(v@) == merge_registry(base, nv.take(j as int)),
                decreases ns.len() - j,
            {
                assert(nv.take(j + 1).drop_last() =~= nv.take(j as int));
                assert(nv.take(j + 1).last() == ns@[j as int]@);
                let name = ns[j].as_str();
                if starts_with(name, "buschain_") && !has_row_named(&v, name) {
                    v.push((0, own(name)));
                }
                assert(rows_view(v@) =~= merge_registry(base, nv.take(j + 1)));
                j += 1;
            }
            assert(nv.take(ns.len() as int) =~= nv);
        },
        None => {},
    }
    v
}

/// Properties of one `pactl list sink-inputs` block.
pub type PropMap = Map<Seq<char>, Seq<char>>;

/// State of the `pactl list sink-inputs` scan: finished blocks (index and
/// properties), the open block's index, and its properties.
pub open spec fn parse_step(done: Seq<(u32, PropMap)>, cur: Option<u32>, props: PropMap, line: Seq<char>) -> (Seq<(u32, PropMap)>, Option<u32>, PropMap) {
    match strip_prefix_spec(line, "Sink Input #"@) {
        Some(rest) => (
            match cur {
                Some(i) => done.push((i, props)),
                None => done,
            },
            crate::text::parse_u32_spec(trim_spec(rest)),
            Map::empty(),
        ),
        None => {
            let t = trim_spec(line);
            match strip_prefix_spec(t, "Sink:"@) {
                Some(rest) => (done, cur, props.insert("Sink"@, trim_spec(rest))),
                None => match crate::text::split_once_spec(t, " = "@) {
                    Some((k, v)) => (done, cur, props.insert(trim_spec(k), crate::text::unquote_spec(trim_spec(v)))),
                    None => (done, cur, props),
                },
            }
        },
    }
}

/// The scan after the first `n` lines.
pub open spec fn parse_scan(ls: Seq<Seq<char>>, n: nat) -> (Seq<(u32, PropMap)>, Option<u32>, PropMap)
    decreases n,
{
    if n == 0 {
        (Seq::empty(), None, Map::empty())
    } else {
        let (d, c, p) = parse_scan(ls, (n - 1) as nat);
        parse_step(d, c, p, ls[n - 1])
    }
}

/// The blocks of a `pactl list sink-inputs` listing that carry an index.
pub open spec fn sink_input_blocks(ls: Seq<Seq<char>>) -> Seq<(u32, PropMap)> {
    let (d, c, p) = parse_scan(ls, ls.len());
    match c {
        Some(i) => d.push((i, p)),
        None => d,
    }
}

/// A property of the block, without surrounding quotes.
pub open spec fn prop(props: PropMap, k: Seq<char>) -> Option<Seq<char>> {
    if props.contains_key(k) {
        Some(crate::text::unquote_spec(props[k]))
    } else {
        None
    }
}

/// Views of a property table.
pub open spec fn prop_view(t: Map<Seq<char>, String>) -> PropMap {
    t.map_values(|v: String| v@)
}

/// The value, when present and not empty.
pub open spec fn nonempty_view(o: Option<Seq<char>>) -> Option<Seq<char>> {
    match o {
        Some(v) => if v.len() > 0 {
            Some(v)
        } else {
            None
        },
        None => None,
    }
}

/// Name of the first sink row with index `i`.
pub open spec fn sink_named_by_index(sinks: Seq<(u32, Seq<char>)>, i: u32) -> Option<Seq<char>>
    decreases sinks.len(),
{
    if sinks.len() == 0 {
        None
    } else if sinks[0].0 == i {
        Some(sinks[0].1)
    } else {
        sink_named_by_index(sinks.drop_first(), i)
    }
}

/// The sink of a block: its `Sink:` value, resolved to a name when it is an
/// index of a listed sink.
pub open spec fn block_sink(props: PropMap, sinks: Seq<(u32, Seq<char>)>) -> Seq<char> {
    let raw = if props.contains_key("Sink"@) {
        props["Sink"@]
    } else {
        Seq::empty()
    };
    match crate::text::parse_u32_spec(raw) {
        Some(i) => match sink_named_by_index(sinks, i) {
            Some(n) => n,
            None => raw,
        },
        None => raw,
    }
}

/// Application name of a block: `application.name`, else a usable
/// `media.name`, else `Stream <index>`.
pub open spec fn block_application(index: u32, props: PropMap) -> Seq<char> {
    match nonempty_view(prop(props, "application.name"@)) {
        Some(a) => a,
        None => match prop(props, "media.name"@) {
            Some(m) if media_fallback_ok(m) => m,
            _ => "Stream "@ + decimal(index as nat),
        },
    }
}

/// `si` is the placement view of a `pactl list sink-inputs` block.
#[verifier::opaque]
pub open spec fn block_si(si: Si, index: u32, props: PropMap, sinks: Seq<(u32, Seq<char>)>) -> bool {
    let sink = block_sink(props, sinks);
    let app = block_application(index, props);
    let media = match prop(props, "media.name"@) {
        Some(m) => m,
        None => Seq::empty(),
    };
    &&& si.index == index
    &&& si.sink@ == sink
    &&& si.application@ == app
    &&& opt_view(si.binary) == nonempty_view(prop(props, "application.process.binary"@))
    &&& opt_view(si.app_id) == nonempty_view(prop(props, "application.id"@))
    &&& opt_view(si.node_name) == nonempty_view(prop(props, "node.name"@))
    &&& opt_view(si.media_role) == nonempty_view(prop(props, "media.role"@))
    &&& si.internal == (has_prefix(sink, "buschain_fx_"@) || has_prefix(sink, "buschain_post_"@) || has_prefix(
        sink,
        "buschain_rs_"@,
    ) || (nonempty_view(prop(props, "node.name"@)) matches Some(n) && (has_prefix(n, "buschain_"@)
        || has_infix(n, "filter-chain"@))) || eq_ignore_ascii_case(media, "buschain-control"@) || has_infix(
        lowercase(app),
        "buschain"@,
    ) || anon_fields(
        app,
        nonempty_view(prop(props, "media.role"@)),
        nonempty_view(prop(props, "application.process.binary"@)),
        nonempty_view(prop(props, "application.id"@)),
    ))
}

fn get_prop(props: &crate::table::Table<String, String>, k: &str) -> (r: Option<String>)
    requires
        props.wf(),
    ensures
        opt_view(r) == prop(prop_view(props@), k@),
{
    match props.get(&own(k)) {
        Some(v) => Some(crate::text::unquote(v.as_str())),
        None => None,
    }
}

fn nonempty_owned(o: Option<String>) -> (r: Option<String>)
    ensures
        opt_view(r) == nonempty_view(opt_view(o)),
{
    match o {
        Some(s) => if s.as_str().is_empty() {
            None
        } else {
            Some(s)
        },
        None => None,
    }
}

fn find_sink_by_index(sinks: &Vec<(u32, String)>, i: u32) -> (r: Option<String>)
    ensures
        opt_view(r) == sink_named_by_index(rows_view(sinks@), i),
{
    let ghost rv = rows_view(sinks@);
    let mut k: usize = 0;
    assert(rv.skip(0) =~= rv);
    while k < sinks.len()
        invariant
            k <= sinks.len(),
            rv == rows_view(sinks@),
            sink_named_by_index(rv, i) == sink_named_by_index(rv.skip(k as int), i),
        decreases sinks.len() - k,
    {
        assert(rv.skip(k as int)[0] == rv[k as int]);
        assert(rv.skip(k as int).drop_first() =~= rv.skip(k + 1));
        if sinks[k].0 == i {
            return Some(own(sinks[k].1.as_str()));
        }
        k += 1;
    }
    None
}

fn block_to_si(index: u32, props: &crate::table::Table<String, String>, sinks: &Vec<(u32, String)>) -> (si: Si)
    requires
        props.wf(),
    ensures
        block_si(si, index, prop_view(props@), rows_view(sinks@)),
{
    let raw = match props.get(&own("Sink")) {
        Some(v) => own(v.as_str()),
        None => String::new(),
    };
    let sink = match crate::text::parse_u32(raw.as_str()) {
        Some(i) => match find_sink_by_index(sinks, i) {
            Some(n) => n,
            None => raw,
        },
        None => raw,
    };
    let application = match nonempty_owned(get_prop(props, "application.name")) {
        Some(a) => a,
        None => {
            let usable = match get_prop(props, "media.name") {
                Some(m) => {
                    let ml = to_lowercase(m.as_str());
                    if !str_eq(ml.as_str(), "playback") && !str_eq(ml.as_str(), "buschain-control") {
                        Some(m)
                    } else {
                        None
                    }
                },
                None => None,
            };
            match usable {
                Some(m) => m,
                None => {
                    let n = u32_to_string(index);
                    concat("Stream ", n.as_str())
                },
            }
        },
    };
    let binary = nonempty_owned(get_prop(props, "application.process.binary"));
    let app_id = nonempty_owned(get_prop(props, "application.id"));
    let node_name = nonempty_owned(get_prop(props, "node.name"));
    let media = match get_prop(props, "media.name") {
        Some(m) => m,
        None => String::new(),
    };
    let media_role = nonempty_owned(get_prop(props, "media.role"));
    let probe = Si {
        index,
        sink: own(sink.as_str()),
        application: own(application.as_str()),
        binary: copy_opt(&binary),
        app_id: copy_opt(&app_id),
        node_name: copy_opt(&node_name),
        media_role: copy_opt(&media_role),
        internal: false,
    };
    let anon = is_anonymous_system_sound(&probe);
    let node_internal = match &node_name {
        Some(n) => starts_with(n.as_str(), "buschain_") || contains(n.as_str(), "filter-chain"),
        None => false,
    };
    let lower_app = to_lowercase(application.as_str());
    let s = sink.as_str();
    let internal = starts_with(s, "buschain_fx_") || starts_with(s, "buschain_post_") || starts_with(s, "buschain_rs_")
        || node_internal || eq_ignore_case(media.as_str(), "buschain-control") || contains(
        lower_app.as_str(),
        "buschain",
    ) || anon;
    let r = Si { index, sink, application, binary, app_id, node_name, media_role, internal };
    proof {
        reveal(block_si);
    }
    r
}

/// `items` are the placement views of the blocks `d`.
pub open spec fn items_match(items: Seq<Si>, d: Seq<(u32, PropMap)>, sinks: Seq<(u32, Seq<char>)>) -> bool {
    &&& items.len() == d.len()
    &&& forall|k: int| 0 <= k < d.len() ==> block_si(#[trigger] items[k], d[k].0, d[k].1, sinks)
}

fn scan_line(
    items: &mut Vec<Si>,
    cur: &mut Option<u32>,
    props: &mut crate::table::Table<String, String>,
    line: &str,
    sinks: &Vec<(u32, String)>,
    Ghost(d): Ghost<Seq<(u32, PropMap)>>,
)
    requires
        old(props).wf(),
        items_match(old(items)@, d, rows_view(sinks@)),
    ensures
        final(props).wf(),
        ({
            let (d2, c2, p2) = parse_step(d, *old(cur), prop_view(old(props)@), line@);
            &&& items_match(final(items)@, d2, rows_view(sinks@))
            &&& *final(cur) == c2
            &&& prop_view(final(props)@) == p2
        }),
{
    match strip_prefix(line, "Sink Input #") {
        Some(rest) => {
            match *cur {
                Some(idx) => {
                    let si = block_to_si(idx, props, sinks);
                    let ghost before = items@;
                    items.push(si);
                    proof {
                        let d2 = d.push((idx, prop_view(old(props)@)));
                        assert forall|k: int| 0 <= k < d2.len() implies block_si(#[trigger] items@[k], d2[k].0, d2[k].1, rows_view(sinks@)) by {
                            if k < d.len() {
                                assert(items@[k] == before[k]);
                            }
                        }
                    }
                },
                None => {},
            }
            *props = crate::table::Table::new();
            assert(prop_view(props@) =~= Map::<Seq<char>, Seq<char>>::empty());
            let t = trim(rest.as_str());
            *cur = crate::text::parse_u32(t.as_str());
        },
        None => {
            let t = trim(line);
            match strip_prefix(t.as_str(), "Sink:") {
                Some(rest) => {
                    let ghost pv0 = props@;
                    let tv = trim(rest.as_str());
                    let ghost tvv = tv@;
                    props.insert(own("Sink"), tv);
                    assert(prop_view(props@) =~= prop_view(pv0).insert("Sink"@, tvv));
                },
                None => match crate::text::split_once_str(t.as_str(), " = ") {
                    Some((k, v)) => {
                        let ghost pv0 = props@;
                        let vt = trim(v.as_str());
                        let kt = trim(k.as_str());
                        let uq = crate::text::unquote(vt.as_str());
                        let ghost kv = kt@;
                        let ghost uv = uq@;
                        props.insert(kt, uq);
                        assert(prop_view(props@) =~= prop_view(pv0).insert(kv, uv));
                    },
                    None => {},
                },
            }
        },
    }
}

/// Streams of `pactl list sink-inputs` as placement sees them, sink indices
/// resolved through `sinks`.
pub fn list_sink_inputs(text: &str, sinks: &Vec<(u32, String)>) -> (r: Vec<Si>)
    ensures
        items_match(r@, sink_input_blocks(crate::text::lines_spec(text@)), rows_view(sinks@)),
{
    let ls = crate::text::lines(text);
    let ghost lv = ls@.map_values(|t: String| t@);
    let mut items: Vec<Si> = Vec::new();
    let mut cur: Option<u32> = None;
    let mut props: crate::table::Table<String, String> = crate::table::Table::new();
    assert(prop_view(props@) =~= Map::<Seq<char>, Seq<char>>::empty());
    let mut i: usize = 0;
    while i < ls.len()
        invariant
            i <= ls.len(),
            lv == ls@.map_values(|t: String| t@),
            lv == crate::text::lines_spec(text@),
            props.wf(),
            parse_scan(lv, i as nat).1 == cur,
            parse_scan(lv, i as nat).2 == prop_view(props@),
            items_match(items@, parse_scan(lv, i as nat).0, rows_view(sinks@)),
        decreases ls.len() - i,
    {
        assert(lv[i as int] == ls@[i as int]@);
        let ghost st = parse_scan(lv, i as nat);
        scan_line(&mut items, &mut cur, &mut props, ls[i].as_str(), sinks, Ghost(st.0));
        assert(parse_scan(lv, (i + 1) as nat) == parse_step(st.0, st.1, st.2, lv[i as int]));
        i += 1;
    }
    let ghost st = parse_scan(lv, lv.len());
    match cur {
        Some(idx) => {
            let si = block_to_si(idx, &props, sinks);
            let ghost before = items@;
            items.push(si);
            proof {
                let b = sink_input_blocks(lv);
                assert(b == st.0.push((idx, prop_view(props@))));
                assert forall|k: int| 0 <= k < b.len() implies block_si(#[trigger] items@[k], b[k].0, b[k].1, rows_view(sinks@)) by {
                    if k < st.0.len() {
                        assert(items@[k] == before[k]);
                    }
                }
            }
        },
        None => {},
    }
    items
}

/// What placement reads of the session's desired state.
#[derive(Debug)]
pub struct PlaybackPins {
    /// Bus name and the app keys pinned to it.
    pub bus_playback: Vec<(String, Vec<String>)>,
    /// The sink unassigned user streams are reclaimed to.
    pub preferred_default: Option<String>,
    /// The session owns the system default sink.
    pub owns_system_default: bool,
}

/// Views of the pins.
pub open spec fn pins_view(v: Seq<(String, Vec<String>)>) -> Seq<(Seq<char>, Seq<Seq<char>>)> {
    v.map_values(|p: (String, Vec<String>)| (p.0@, crate::ordset::strs_view(p.1@)))
}

/// Some row names `name`.
pub open spec fn sink_listed(sinks: Seq<(u32, Seq<char>)>, name: Seq<char>) -> bool {
    exists|k: int| 0 <= k < sinks.len() && #[trigger] sinks[k].1 == name
}

/// Some line of a `pactl list short sinks` listing names `bus` in its second column.
pub open spec fn listing_has_sink(ls: Seq<Seq<char>>, bus: Seq<char>) -> bool {
    exists|k: int|
        0 <= k < ls.len() && crate::text::split_spec(#[trigger] ls[k], '\t').len() >= 2 && crate::text::split_spec(
            ls[k],
            '\t',
        )[1] == bus
}

/// A pin bus is ready when Pulse lists it, or (during bring-up) when it is
/// Master and the sink list holds it.
pub open spec fn pin_ready_spec(bus: Seq<char>, listing: Seq<char>, sinks: Seq<(u32, Seq<char>)>) -> bool {
    listing_has_sink(crate::text::lines_spec(listing), bus) || (bus == "buschain_master"@ && sink_listed(
        sinks,
        bus,
    ))
}

/// Whether the pin bus is Pulse-visible (`listing` is `pactl list short
/// sinks`), or is Master and present in `sinks`.
pub fn pin_bus_is_ready(bus: &str, listing: &str, sinks: &Vec<(u32, String)>) -> (r: bool)
    ensures
        r == pin_ready_spec(bus@, listing@, rows_view(sinks@)),
{
    let ls = crate::text::lines(listing);
    let ghost lv = ls@.map_values(|t: String| t@);
    let mut i: usize = 0;
    while i < ls.len()
        invariant
            i <= ls.len(),
            lv == ls@.map_values(|t: String| t@),
            lv == crate::text::lines_spec(listing@),
            forall|k: int| 0 <= k < i ==> !(crate::text::split_spec(#[trigger] lv[k], '\t').len() >= 2
                && crate::text::split_spec(lv[k], '\t')[1] == bus@),
        decreases ls.len() - i,
    {
        let parts = crate::text::split_char(ls[i].as_str(), '\t');
        let ghost pv = parts@.map_values(|t: String| t@);
        assert(lv[i as int] == ls@[i as int]@);
        if parts.len() >= 2 && str_eq(parts[1].as_str(), bus) {
            assert(pv[1] == parts@[1]@);
            assert(crate::text::split_spec(lv[i as int], '\t') == pv);
            assert(listing_has_sink(lv, bus@));
            return true;
        }
        proof {
            if parts.len() >= 2 {
                assert(pv[1] == parts@[1]@);
            }
        }
        i += 1;
    }
    str_eq(bus, "buschain_master") && has_row_named(sinks, bus)
}

/// Index of the first pin entry for key `k`.
pub open spec fn first_key(m: Seq<(Seq<char>, Seq<char>)>, k: Seq<char>) -> Option<int>
    decreases m.len(),
{
    if m.len() == 0 {
        None
    } else if m[0].0 == k {
        Some(0)
    } else {
        match first_key(m.drop_first(), k) {
            Some(i) => Some(i + 1),
            None => None,
        }
    }
}

/// Set key `k` to bus `b` (in place when present, else appended).
pub open spec fn assoc_set(m: Seq<(Seq<char>, Seq<char>)>, k: Seq<char>, b: Seq<char>) -> Seq<(Seq<char>, Seq<char>)> {
    match first_key(m, k) {
        Some(i) => m.update(i, (k, b)),
        None => m.push((k, b)),
    }
}

/// Pin each of `keys` to `bus`, in order.
pub open spec fn pin_keys(m: Seq<(Seq<char>, Seq<char>)>, bus: Seq<char>, keys: Seq<Seq<char>>) -> Seq<(Seq<char>, Seq<char>)>
    decreases keys.len(),
{
    if keys.len() == 0 {
        m
    } else {
        assoc_set(pin_keys(m, bus, keys.drop_last()), keys.last(), bus)
    }
}

/// Key → bus table of the pins whose bus is listed and ready.
pub open spec fn key_buses(
    pins: Seq<(Seq<char>, Seq<Seq<char>>)>,
    sinks: Seq<(u32, Seq<char>)>,
    listing: Seq<char>,
) -> Seq<(Seq<char>, Seq<char>)>
    decreases pins.len(),
{
    if pins.len() == 0 {
        Seq::empty()
    } else {
        let m = key_buses(pins.drop_last(), sinks, listing);
        let (bus, keys) = pins.last();
        if sink_listed(sinks, bus) && pin_ready_spec(bus, listing, sinks) {
            pin_keys(m, bus, keys)
        } else {
            m
        }
    }
}

/// The bus of the first pin key (in table order) that designates the stream.
pub open spec fn pin_target(si: Si, m: Seq<(Seq<char>, Seq<char>)>) -> Option<Seq<char>>
    decreases m.len(),
{
    if m.len() == 0 {
        None
    } else if matches_key_spec(si, m[0].0) {
        Some(m[0].1)
    } else {
        pin_target(si, m.drop_first())
    }
}

/// Moves of pinned streams onto their buses.
pub open spec fn pin_moves(inputs: Seq<Si>, m: Seq<(Seq<char>, Seq<char>)>) -> Seq<(u32, Seq<char>)>
    decreases inputs.len(),
{
    if inputs.len() == 0 {
        Seq::empty()
    } else {
        let r = pin_moves(inputs.drop_last(), m);
        let si = inputs.last();
        match pin_target(si, m) {
            Some(bus) => if !anon_spec(si) && si.sink@ != bus {
                r.push((si.index, bus))
            } else {
                r
            },
            None => r,
        }
    }
}

/// A BusChain or shadow sink name.
pub open spec fn is_buschain_sink(s: Seq<char>) -> bool {
    has_prefix(s, "buschain_"@) || has_prefix(s, "shadow_"@)
}

/// The stream is reclaimed to the preferred sink `pref`.
pub open spec fn reclaims(si: Si, m: Seq<(Seq<char>, Seq<char>)>, pref: Seq<char>) -> bool {
    let on_hold = si.sink@ == "buschain_hold"@;
    let unlinked = si.sink@.len() == 0;
    &&& !(si.internal && !on_hold && !unlinked)
    &&& !anon_spec(si)
    &&& pin_target(si, m) is None
    &&& si.sink@ != pref
    &&& (on_hold || is_buschain_sink(si.sink@) || unlinked || is_buschain_sink(pref))
}

/// Moves of unassigned user streams onto the preferred sink.
pub open spec fn reclaim_moves(inputs: Seq<Si>, m: Seq<(Seq<char>, Seq<char>)>, pref: Seq<char>) -> Seq<(u32, Seq<char>)>
    decreases inputs.len(),
{
    if inputs.len() == 0 {
        Seq::empty()
    } else {
        let r = reclaim_moves(inputs.drop_last(), m, pref);
        let si = inputs.last();
        if reclaims(si, m, pref) {
            r.push((si.index, pref))
        } else {
            r
        }
    }
}

/// The preferred sink, when reclaiming applies: set, not empty, owned by the
/// session, and listed.
pub open spec fn reclaim_target(pins: PlaybackPins, sinks: Seq<(u32, Seq<char>)>) -> Option<Seq<char>> {
    match nonempty(pins.preferred_default) {
        Some(p) => if pins.owns_system_default && sink_listed(sinks, p) {
            Some(p)
        } else {
            None
        },
        None => None,
    }
}

/// Every move placement makes, in order.
pub open spec fn playback_plan_spec(pins: PlaybackPins, sinks: Seq<(u32, Seq<char>)>, listing: Seq<char>, inputs: Seq<Si>) -> Seq<(u32, Seq<char>)> {
    let m = key_buses(pins_view(pins.bus_playback@), sinks, listing);
    pin_moves(inputs, m) + match reclaim_target(pins, sinks) {
        Some(p) => reclaim_moves(inputs, m, p),
        None => Seq::empty(),
    }
}

/// A stream pinned to a bus is never reclaimed onto the preferred default.
pub proof fn law_pinned_streams_are_not_reclaimed(si: Si, m: Seq<(Seq<char>, Seq<char>)>, pref: Seq<char>)
    requires
        pin_target(si, m) is Some,
    ensures
        !reclaims(si, m, pref),
{
}

/// Without ownership of the system default, placement only moves pinned
/// streams.
pub proof fn law_reclaim_needs_ownership(pins: PlaybackPins, sinks: Seq<(u32, Seq<char>)>, listing: Seq<char>, inputs: Seq<Si>)
    requires
        !pins.owns_system_default,
    ensures
        playback_plan_spec(pins, sinks, listing, inputs) == pin_moves(
            inputs,
            key_buses(pins_view(pins.bus_playback@), sinks, listing),
        ),
{
    let m = key_buses(pins_view(pins.bus_playback@), sinks, listing);
    assert(pin_moves(inputs, m) + Seq::<(u32, Seq<char>)>::empty() =~= pin_moves(inputs, m));
}

/// Some stream of `inputs` has index `idx` and does not sit on `target`.
pub open spec fn moves_off(inputs: Seq<Si>, idx: u32, target: Seq<char>) -> bool {
    exists|j: int|
        0 <= j < inputs.len() && (#[trigger] inputs[j]).index == idx && inputs[j].sink@ != target
            && !anon_spec(inputs[j])
}

proof fn lemma_pin_moves_off(inputs: Seq<Si>, m: Seq<(Seq<char>, Seq<char>)>)
    ensures
        forall|k: int| 0 <= k < pin_moves(inputs, m).len() ==> moves_off(inputs, #[trigger] pin_moves(inputs, m)[k].0, pin_moves(inputs, m)[k].1),
    decreases inputs.len(),
{
    if inputs.len() > 0 {
        let init = inputs.drop_last();
        lemma_pin_moves_off(init, m);
        let r = pin_moves(init, m);
        assert forall|k: int| 0 <= k < pin_moves(inputs, m).len() implies moves_off(inputs, #[trigger] pin_moves(inputs, m)[k].0, pin_moves(inputs, m)[k].1) by {
            if k < r.len() {
                assert(pin_moves(inputs, m)[k] == r[k]);
                let j = choose|j: int| 0 <= j < init.len() && (#[trigger] init[j]).index == r[k].0 && init[j].sink@ != r[k].1 && !anon_spec(init[j]);
                assert(inputs[j] == init[j]);
            } else {
                assert(inputs[inputs.len() - 1] == inputs.last());
            }
        }
    }
}

proof fn lemma_reclaim_moves_off(inputs: Seq<Si>, m: Seq<(Seq<char>, Seq<char>)>, pref: Seq<char>)
    ensures
        forall|k: int| 0 <= k < reclaim_moves(inputs, m, pref).len() ==> moves_off(inputs, #[trigger] reclaim_moves(inputs, m, pref)[k].0, reclaim_moves(inputs, m, pref)[k].1),
    decreases inputs.len(),
{
    if inputs.len() > 0 {
        let init = inputs.drop_last();
        lemma_reclaim_moves_off(init, m, pref);
        let r = reclaim_moves(init, m, pref);
        assert forall|k: int| 0 <= k < reclaim_moves(inputs, m, pref).len() implies moves_off(inputs, #[trigger] reclaim_moves(inputs, m, pref)[k].0, reclaim_moves(inputs, m, pref)[k].1) by {
            if k < r.len() {
                assert(reclaim_moves(inputs, m, pref)[k] == r[k]);
                let j = choose|j: int| 0 <= j < init.len() && (#[trigger] init[j]).index == r[k].0 && init[j].sink@ != r[k].1 && !anon_spec(init[j]);
                assert(inputs[j] == init[j]);
            } else {
                assert(inputs[inputs.len() - 1] == inputs.last());
            }
        }
    }
}

/// Every move placement asks for takes some listed stream off the sink it
/// sits on (no move targets a stream's current sink), and that stream is
/// never an anonymous system sound (such as `System Sounds`, in any case).
pub proof fn law_moves_change_sinks(pins: PlaybackPins, sinks: Seq<(u32, Seq<char>)>, listing: Seq<char>, inputs: Seq<Si>)
    ensures
        forall|k: int|
            0 <= k < playback_plan_spec(pins, sinks, listing, inputs).len() ==> moves_off(
                inputs,
                #[trigger] playback_plan_spec(pins, sinks, listing, inputs)[k].0,
                playback_plan_spec(pins, sinks, listing, inputs)[k].1,
            ),
{
    let m = key_buses(pins_view(pins.bus_playback@), sinks, listing);
    lemma_pin_moves_off(inputs, m);
    let a = pin_moves(inputs, m);
    let b = match reclaim_target(pins, sinks) {
        Some(p) => reclaim_moves(inputs, m, p),
        None => Seq::empty(),
    };
    match reclaim_target(pins, sinks) {
        Some(p) => lemma_reclaim_moves_off(inputs, m, p),
        None => {},
    }
    let plan = playback_plan_spec(pins, sinks, listing, inputs);
    assert(plan == a + b);
    assert forall|k: int| 0 <= k < plan.len() implies moves_off(inputs, #[trigger] plan[k].0, plan[k].1) by {
        if k < a.len() {
            assert(plan[k] == a[k]);
        } else {
            assert(plan[k] == b[k - a.len()]);
        }
    }
}

fn find_key(m: &Vec<(String, String)>, k: &str) -> (r: Option<usize>)
    ensures
        match r {
            Some(i) => first_key(crate::ordset::pairs_view(m@), k@) == Some(i as int) && i < m@.len(),
            None => first_key(crate::ordset::pairs_view(m@), k@) is None,
        },
{
    let ghost mv = crate::ordset::pairs_view(m@);
    let mut i: usize = 0;
    assert(mv.skip(0) =~= mv);
    while i < m.len()
        invariant
            i <= m.len(),
            mv == crate::ordset::pairs_view(m@),
            first_key(mv, k@) == (match first_key(mv.skip(i as int), k@) {
                Some(j) => Some(j + i),
                None => None::<int>,
            }),
        decreases m.len() - i,
    {
        assert(mv.skip(i as int)[0] == mv[i as int]);
        assert(mv.skip(i as int).drop_first() =~= mv.skip(i + 1));
        if str_eq(m[i].0.as_str(), k) {
            return Some(i);
        }
        i += 1;
    }
    None
}

fn set_key(m: &mut Vec<(String, String)>, k: &str, b: &str)
    ensures
        crate::ordset::pairs_view(final(m)@) == assoc_set(crate::ordset::pairs_view(old(m)@), k@, b@),
{
    match find_key(m, k) {
        Some(i) => {
            m.set(i, (own(k), own(b)));
            assert(crate::ordset::pairs_view(m@) =~= crate::ordset::pairs_view(old(m)@).update(i as int, (k@, b@)));
        },
        None => {
            m.push((own(k), own(b)));
            assert(crate::ordset::pairs_view(m@) =~= crate::ordset::pairs_view(old(m)@).push((k@, b@)));
        },
    }
}

fn build_key_buses(pins: &PlaybackPins, sinks: &Vec<(u32, String)>, listing: &str) -> (m: Vec<(String, String)>)
    ensures
        crate::ordset::pairs_view(m@) == key_buses(pins_view(pins.bus_playback@), rows_view(sinks@), listing@),
{
    let ghost pv = pins_view(pins.bus_playback@);
    let mut m: Vec<(String, String)> = Vec::new();
    let mut i: usize = 0;
    assert(crate::ordset::pairs_view(m@) =~= key_buses(pv.take(0), rows_view(sinks@), listing@));
    while i < pins.bus_playback.len()
        invariant
            i <= pins.bus_playback.len(),
            pv == pins_view(pins.bus_playback@),
            crate::ordset::pairs_view(m@) == key_buses(pv.take(i as int), rows_view(sinks@), listing@),
        decreases pins.bus_playback.len() - i,
    {
        assert(pv.take(i + 1).drop_last() =~= pv.take(i as int));
        assert(pv.take(i + 1).last() == pv[i as int]);
        let bus = pins.bus_playback[i].0.as_str();
        let keys = &pins.bus_playback[i].1;
        if has_row_named(sinks, bus) && pin_bus_is_ready(bus, listing, sinks) {
            let ghost kv = crate::ordset::strs_view(keys@);
            let ghost m0 = crate::ordset::pairs_view(m@);
            let mut j: usize = 0;
            assert(kv.take(0) =~= Seq::<Seq<char>>::empty());
            while j < keys.len()
                invariant
                    j <= keys.len(),
                    kv == crate::ordset::strs_view(keys@),
                    crate::ordset::pairs_view(m@) == pin_keys(m0, bus@, kv.take(j as int)),
                decreases keys.len() - j,
            {
                assert(kv.take(j + 1).drop_last() =~= kv.take(j as int));
                assert(kv.take(j + 1).last() == keys@[j as int]@);
                set_key(&mut m, keys[j].as_str(), bus);
                j += 1;
            }
            assert(kv.take(keys.len() as int) =~= kv);
        }
        i += 1;
    }
    assert(pv.take(pins.bus_playback.len() as int) =~= pv);
    m
}

fn find_pin_target(si: &Si, m: &Vec<(String, String)>) -> (r: Option<usize>)
    ensures
        match r {
            Some(i) => i < m@.len() && pin_target(*si, crate::ordset::pairs_view(m@)) == Some(m@[i as int].1@),
            None => pin_target(*si, crate::ordset::pairs_view(m@)) is None,
        },
{
    let ghost mv = crate::ordset::pairs_view(m@);
    let mut i: usize = 0;
    assert(mv.skip(0) =~= mv);
    while i < m.len()
        invariant
            i <= m.len(),
            mv == crate::ordset::pairs_view(m@),
            pin_target(*si, mv) == pin_target(*si, mv.skip(i as int)),
        decreases m.len() - i,
    {
        assert(mv.skip(i as int)[0] == mv[i as int]);
        assert(mv.skip(i as int).drop_first() =~= mv.skip(i + 1));
        if matches_key(si, m[i].0.as_str()) {
            return Some(i);
        }
        i += 1;
    }
    None
}

/// Where session placement moves streams: each pinned stream onto its bus
/// (pins count only for buses listed in `sinks` and ready per `listing`),
/// then, when the session owns a listed preferred default, unassigned user
/// streams onto it. The caller performs the moves and counts those that took.
pub fn playback_plan(pins: &PlaybackPins, sinks: &Vec<(u32, String)>, listing: &str, inputs: &Vec<Si>) -> (r: Vec<(u32, String)>)
    ensures
        rows_view(r@) == playback_plan_spec(*pins, rows_view(sinks@), listing@, inputs@),
{
    let m = build_key_buses(pins, sinks, listing);
    let ghost mv = crate::ordset::pairs_view(m@);
    let mut out: Vec<(u32, String)> = Vec::new();
    let mut i: usize = 0;
    assert(rows_view(out@) =~= pin_moves(inputs@.take(0), mv));
    while i < inputs.len()
        invariant
            i <= inputs.len(),
            mv == crate::ordset::pairs_view(m@),
            rows_view(out@) == pin_moves(inputs@.take(i as int), mv),
        decreases inputs.len() - i,
    {
        assert(inputs@.take(i + 1).drop_last() =~= inputs@.take(i as int));
        assert(inputs@.take(i + 1).last() == inputs@[i as int]);
        let si = &inputs[i];
        match find_pin_target(si, &m) {
            Some(k) => {
                if !is_anonymous_system_sound(si) && !str_eq(si.sink.as_str(), m[k].1.as_str()) {
                    out.push((si.index, own(m[k].1.as_str())));
                }
            },
            None => {},
        }
        assert(rows_view(out@) =~= pin_moves(inputs@.take(i + 1), mv));
        i += 1;
    }
    assert(inputs@.take(inputs.len() as int) =~= inputs@);
    let ghost first = rows_view(out@);
    let pref = match &pins.preferred_default {
        Some(p) => if p.as_str().is_empty() {
            assert(rows_view(out@) =~= first + Seq::<(u32, Seq<char>)>::empty());
            return out;
        } else {
            p.as_str()
        },
        None => {
            assert(rows_view(out@) =~= first + Seq::<(u32, Seq<char>)>::empty());
            return out;
        },
    };
    if !pins.owns_system_default || !has_row_named(sinks, pref) {
        assert(rows_view(out@) =~= first + Seq::<(u32, Seq<char>)>::empty());
        return out;
    }
    let pref_bc = starts_with(pref, "buschain_") || starts_with(pref, "shadow_");
    let mut j: usize = 0;
    assert(rows_view(out@) =~= first + reclaim_moves(inputs@.take(0), mv, pref@));
    while j < inputs.len()
        invariant
            j <= inputs.len(),
            mv == crate::ordset::pairs_view(m@),
            pref_bc == is_buschain_sink(pref@),
            rows_view(out@) == first + reclaim_moves(inputs@.take(j as int), mv, pref@),
        decreases inputs.len() - j,
    {
        assert(inputs@.take(j + 1).drop_last() =~= inputs@.take(j as int));
        assert(inputs@.take(j + 1).last() == inputs@[j as int]);
        let si = &inputs[j];
        let sink = si.sink.as_str();
        let on_hold = str_eq(sink, "buschain_hold");
        let unlinked = sink.is_empty();
        let take = if si.internal && !on_hold && !unlinked {
            false
        } else if is_anonymous_system_sound(si) {
            false
        } else if find_pin_target(si, &m).is_some() {
            false
        } else if str_eq(sink, pref) {
            false
        } else {
            on_hold || starts_with(sink, "buschain_") || starts_with(sink, "shadow_") || unlinked || pref_bc
        };
        assert(take == reclaims(*si, mv, pref@));
        let ghost before = rows_view(out@);
        let ghost rm = reclaim_moves(inputs@.take(j as int), mv, pref@);
        assert(before == first + rm);
        if take {
            out.push((si.index, own(pref)));
            assert(rows_view(out@) =~= before.push((si.index, pref@)));
            assert(reclaim_moves(inputs@.take(j + 1), mv, pref@) == rm.push((si.index, pref@)));
        } else {
            assert(reclaim_moves(inputs@.take(j + 1), mv, pref@) == rm);
        }
        assert(rows_view(out@) =~= first + reclaim_moves(inputs@.take(j + 1), mv, pref@));
        j += 1;
    }
    assert(inputs@.take(inputs.len() as int) =~= inputs@);
    out
}


/// Why a placement pass could not run.
#[derive(Debug, PartialEq, Eq)]
pub enum PlacementError {
    /// No native stream list and `pactl list sink-inputs` failed.
    SinkInputsUnavailable,
}

/// The streams a placement pass saw and the moves it asks for.
#[derive(Debug)]
pub struct PlacementPass {
    pub inputs: Vec<Si>,
    /// (sink-input index, target sink); the caller performs them and counts
    /// those that took.
    pub moves: Vec<(u32, String)>,
}

/// The native registry is up and lists some stream.
pub open spec fn streams_listed(native: Option<&[PlaybackStreamInfo]>) -> bool {
    match native {
        Some(st) => st@.len() > 0,
        None => false,
    }
}

/// `items` are the native streams `st`, one for one.
pub open spec fn natives_match(items: Seq<Si>, st: Seq<PlaybackStreamInfo>) -> bool {
    &&& items.len() == st.len()
    &&& forall|k: int| 0 <= k < items.len() ==> native_si(#[trigger] items[k], st[k])
}

/// One session placement pass: pinned apps onto their buses, unassigned user
/// apps reclaimed to the preferred default. The streams come from the native
/// registry when its plane is up and lists any (`native`, which also sees
/// Internal-hosted streams), else from `pactl list sink-inputs`
/// (`pactl_inputs`, none when the command failed).
pub fn enforce_desired_playback(
    pins: &PlaybackPins,
    sinks: &Vec<(u32, String)>,
    listing: &str,
    native: Option<&[PlaybackStreamInfo]>,
    pactl_inputs: Option<&str>,
) -> (r: Result<PlacementPass, PlacementError>)
    ensures
        match r {
            Ok(p) => rows_view(p.moves@) == playback_plan_spec(*pins, rows_view(sinks@), listing@, p.inputs@) && (
            if streams_listed(native) {
                natives_match(p.inputs@, native.unwrap()@)
            } else {
                pactl_inputs matches Some(t) && items_match(
                    p.inputs@,
                    sink_input_blocks(crate::text::lines_spec(t@)),
                    rows_view(sinks@),
                )
            }),
            Err(e) => e == PlacementError::SinkInputsUnavailable && !streams_listed(native) && pactl_inputs is None,
        },
{
    let from_native = match native {
        Some(st) => list_sink_inputs_native(st),
        None => Vec::new(),
    };
    let inputs = if from_native.len() > 0 {
        from_native
    } else {
        match pactl_inputs {
            Some(t) => list_sink_inputs(t, sinks),
            None => return Err(PlacementError::SinkInputsUnavailable),
        }
    };
    let moves = playback_plan(pins, sinks, listing, &inputs);
    Ok(PlacementPass { inputs, moves })
}

proof fn lemma_first_key_range(m: Seq<(Seq<char>, Seq<char>)>, k: Seq<char>)
    ensures
        first_key(m, k) matches Some(i) ==> 0 <= i < m.len(),
    decreases m.len(),
{
    if m.len() > 0 && m[0].0 != k {
        lemma_first_key_range(m.drop_first(), k);
    }
}

/// Every bus in the table is a listed sink.
pub open spec fn buses_listed(m: Seq<(Seq<char>, Seq<char>)>, sinks: Seq<(u32, Seq<char>)>) -> bool {
    forall|i: int| 0 <= i < m.len() ==> sink_listed(sinks, #[trigger] m[i].1)
}

proof fn lemma_pin_keys_listed(m: Seq<(Seq<char>, Seq<char>)>, bus: Seq<char>, keys: Seq<Seq<char>>, sinks: Seq<(u32, Seq<char>)>)
    requires
        buses_listed(m, sinks),
        sink_listed(sinks, bus),
    ensures
        buses_listed(pin_keys(m, bus, keys), sinks),
    decreases keys.len(),
{
    if keys.len() > 0 {
        lemma_pin_keys_listed(m, bus, keys.drop_last(), sinks);
        let p = pin_keys(m, bus, keys.drop_last());
        lemma_first_key_range(p, keys.last());
        let q = assoc_set(p, keys.last(), bus);
        assert forall|i: int| 0 <= i < q.len() implies sink_listed(sinks, #[trigger] q[i].1) by {
            match first_key(p, keys.last()) {
                Some(j) => {
                    if i != j {
                        assert(q[i] == p[i]);
                    }
                },
                None => {
                    if i < p.len() {
                        assert(q[i] == p[i]);
                    }
                },
            }
        }
    }
}

proof fn lemma_key_buses_listed(pins: Seq<(Seq<char>, Seq<Seq<char>>)>, sinks: Seq<(u32, Seq<char>)>, listing: Seq<char>)
    ensures
        buses_listed(key_buses(pins, sinks, listing), sinks),
    decreases pins.len(),
{
    if pins.len() > 0 {
        lemma_key_buses_listed(pins.drop_last(), sinks, listing);
        let m = key_buses(pins.drop_last(), sinks, listing);
        let (bus, keys) = pins.last();
        if sink_listed(sinks, bus) && pin_ready_spec(bus, listing, sinks) {
            lemma_pin_keys_listed(m, bus, keys, sinks);
        }
    }
}

proof fn lemma_pin_target_from(si: Si, m: Seq<(Seq<char>, Seq<char>)>, sinks: Seq<(u32, Seq<char>)>)
    requires
        buses_listed(m, sinks),
    ensures
        pin_target(si, m) matches Some(b) ==> sink_listed(sinks, b),
    decreases m.len(),
{
    if m.len() > 0 {
        assert(sink_listed(sinks, m[0].1));
        let t = m.drop_first();
        assert forall|i: int| 0 <= i < t.len() implies sink_listed(sinks, #[trigger] t[i].1) by {
            assert(t[i] == m[i + 1]);
        }
        lemma_pin_target_from(si, t, sinks);
    }
}

proof fn lemma_pin_moves_listed(inputs: Seq<Si>, m: Seq<(Seq<char>, Seq<char>)>, sinks: Seq<(u32, Seq<char>)>)
    requires
        buses_listed(m, sinks),
    ensures
        forall|k: int| 0 <= k < pin_moves(inputs, m).len() ==> sink_listed(sinks, #[trigger] pin_moves(inputs, m)[k].1),
    decreases inputs.len(),
{
    if inputs.len() > 0 {
        lemma_pin_moves_listed(inputs.drop_last(), m, sinks);
        lemma_pin_target_from(inputs.last(), m, sinks);
        let r = pin_moves(inputs.drop_last(), m);
        let all = pin_moves(inputs, m);
        assert forall|k: int| 0 <= k < all.len() implies sink_listed(sinks, #[trigger] all[k].1) by {
            if k < r.len() {
                assert(all[k] == r[k]);
            }
        }
    }
}

proof fn lemma_reclaim_moves_to(inputs: Seq<Si>, m: Seq<(Seq<char>, Seq<char>)>, pref: Seq<char>)
    ensures
        forall|k: int| 0 <= k < reclaim_moves(inputs, m, pref).len() ==> (#[trigger] reclaim_moves(inputs, m, pref)[k]).1 == pref,
    decreases inputs.len(),
{
    if inputs.len() > 0 {
        lemma_reclaim_moves_to(inputs.drop_last(), m, pref);
        let r = reclaim_moves(inputs.drop_last(), m, pref);
        let all = reclaim_moves(inputs, m, pref);
        assert forall|k: int| 0 <= k < all.len() implies (#[trigger] all[k]).1 == pref by {
            if k < r.len() {
                assert(all[k] == r[k]);
            }
        }
    }
}

/// A placement pass as a whole: every move it asks for takes a listed
/// stream that is not an anonymous system sound (such as `System Sounds`,
/// in any case) off the sink it sits on, onto a sink of the sink list (a
/// pinned stream onto its listed bus, a reclaimed one onto the listed
/// preferred default); with no preferred default, an empty one, or without
/// ownership of the system default, only pinned streams move. (The count a
/// pass reports is `count_succeeded` of the moves' outcomes.)
pub proof fn law_placement_pass(pins: PlaybackPins, sinks: Seq<(u32, Seq<char>)>, listing: Seq<char>, inputs: Seq<Si>)
    ensures
        forall|k: int|
            0 <= k < playback_plan_spec(pins, sinks, listing, inputs).len() ==> moves_off(
                inputs,
                (#[trigger] playback_plan_spec(pins, sinks, listing, inputs)[k]).0,
                playback_plan_spec(pins, sinks, listing, inputs)[k].1,
            ) && sink_listed(sinks, playback_plan_spec(pins, sinks, listing, inputs)[k].1),
        reclaim_target(pins, sinks) is None ==> playback_plan_spec(pins, sinks, listing, inputs) == pin_moves(
            inputs,
            key_buses(pins_view(pins.bus_playback@), sinks, listing),
        ),
{
    law_moves_change_sinks(pins, sinks, listing, inputs);
    let m = key_buses(pins_view(pins.bus_playback@), sinks, listing);
    lemma_key_buses_listed(pins_view(pins.bus_playback@), sinks, listing);
    lemma_pin_moves_listed(inputs, m, sinks);
    let a = pin_moves(inputs, m);
    let plan = playback_plan_spec(pins, sinks, listing, inputs);
    match reclaim_target(pins, sinks) {
        Some(p) => {
            lemma_reclaim_moves_to(inputs, m, p);
            let b = reclaim_moves(inputs, m, p);
            assert(plan == a + b);
            assert forall|k: int| 0 <= k < plan.len() implies sink_listed(sinks, (#[trigger] plan[k]).1) by {
                if k < a.len() {
                    assert(plan[k] == a[k]);
                } else {
                    assert(plan[k] == b[k - a.len()]);
                }
            }
        },
        None => {
            assert(plan =~= a);
        },
    }
}

proof fn lemma_pin_moves_witness(inputs: Seq<Si>, m: Seq<(Seq<char>, Seq<char>)>)
    ensures
        forall|k: int|
            0 <= k < pin_moves(inputs, m).len() ==> exists|j: int|
                0 <= j < inputs.len() && (#[trigger] inputs[j]).index == (#[trigger] pin_moves(inputs, m)[k]).0
                    && pin_target(inputs[j], m) == Some(pin_moves(inputs, m)[k].1),
    decreases inputs.len(),
{
    if inputs.len() > 0 {
        let init = inputs.drop_last();
        lemma_pin_moves_witness(init, m);
        let r = pin_moves(init, m);
        let all = pin_moves(inputs, m);
        assert forall|k: int| 0 <= k < all.len() implies exists|j: int|
            0 <= j < inputs.len() && (#[trigger] inputs[j]).index == (#[trigger] all[k]).0 && pin_target(inputs[j], m) == Some(all[k].1) by {
            if k < r.len() {
                assert(all[k] == r[k]);
                let j = choose|j: int| 0 <= j < init.len() && (#[trigger] init[j]).index == (#[trigger] r[k]).0 && pin_target(init[j], m) == Some(r[k].1);
                assert(inputs[j] == init[j]);
            } else {
                let j = inputs.len() - 1;
                assert(inputs[j] == inputs.last());
            }
        }
    }
}

proof fn lemma_reclaim_witness(inputs: Seq<Si>, m: Seq<(Seq<char>, Seq<char>)>, pref: Seq<char>)
    ensures
        forall|k: int|
            0 <= k < reclaim_moves(inputs, m, pref).len() ==> exists|j: int|
                0 <= j < inputs.len() && (#[trigger] inputs[j]).index == (#[trigger] reclaim_moves(inputs, m, pref)[k]).0
                    && reclaims(inputs[j], m, pref),
    decreases inputs.len(),
{
    if inputs.len() > 0 {
        let init = inputs.drop_last();
        lemma_reclaim_witness(init, m, pref);
        let r = reclaim_moves(init, m, pref);
        let all = reclaim_moves(inputs, m, pref);
        assert forall|k: int| 0 <= k < all.len() implies exists|j: int|
            0 <= j < inputs.len() && (#[trigger] inputs[j]).index == (#[trigger] all[k]).0 && reclaims(inputs[j], m, pref) by {
            if k < r.len() {
                assert(all[k] == r[k]);
                let j = choose|j: int| 0 <= j < init.len() && (#[trigger] init[j]).index == (#[trigger] r[k]).0 && reclaims(init[j], m, pref);
                assert(inputs[j] == init[j]);
            } else {
                let j = inputs.len() - 1;
                assert(inputs[j] == inputs.last());
            }
        }
    }
}

/// BusChain's own streams stay where they are unless pinned: every move of
/// the plan is of some listed stream which, when it is internal and sits on
/// a sink other than the hold, is pinned to the very bus it moves to (an
/// internal FX stream is never reclaimed onto the default).
pub proof fn law_internal_streams_move_only_when_pinned(
    pins: PlaybackPins,
    sinks: Seq<(u32, Seq<char>)>,
    listing: Seq<char>,
    inputs: Seq<Si>,
)
    ensures
        forall|k: int|
            0 <= k < playback_plan_spec(pins, sinks, listing, inputs).len() ==> exists|j: int|
                0 <= j < inputs.len() && (#[trigger] inputs[j]).index == (#[trigger] playback_plan_spec(
                    pins,
                    sinks,
                    listing,
                    inputs,
                )[k]).0 && ((inputs[j].internal && inputs[j].sink@ != "buschain_hold"@ && inputs[j].sink@.len() > 0)
                    ==> pin_target(inputs[j], key_buses(pins_view(pins.bus_playback@), sinks, listing)) == Some(
                    playback_plan_spec(pins, sinks, listing, inputs)[k].1,
                )),
{
    let m = key_buses(pins_view(pins.bus_playback@), sinks, listing);
    lemma_pin_moves_witness(inputs, m);
    let a = pin_moves(inputs, m);
    let plan = playback_plan_spec(pins, sinks, listing, inputs);
    match reclaim_target(pins, sinks) {
        Some(p) => {
            lemma_reclaim_witness(inputs, m, p);
            let b = reclaim_moves(inputs, m, p);
            assert(plan == a + b);
            assert forall|k: int| 0 <= k < plan.len() implies exists|j: int|
                0 <= j < inputs.len() && (#[trigger] inputs[j]).index == (#[trigger] plan[k]).0 && ((inputs[j].internal
                    && inputs[j].sink@ != "buschain_hold"@ && inputs[j].sink@.len() > 0) ==> pin_target(inputs[j], m) == Some(
                    plan[k].1,
                )) by {
                if k < a.len() {
                    assert(plan[k] == a[k]);
                    let j = choose|j: int| 0 <= j < inputs.len() && (#[trigger] inputs[j]).index == (#[trigger] a[k]).0 && pin_target(inputs[j], m) == Some(a[k].1);
                    assert(inputs[j].index == plan[k].0);
                } else {
                    assert(plan[k] == b[k - a.len()]);
                    let j = choose|j: int| 0 <= j < inputs.len() && (#[trigger] inputs[j]).index == (#[trigger] b[k - a.len()]).0 && reclaims(inputs[j], m, p);
                    assert(inputs[j].index == plan[k].0);
                }
            }
        },
        None => {
            assert(plan =~= a);
            assert forall|k: int| 0 <= k < plan.len() implies exists|j: int|
                0 <= j < inputs.len() && (#[trigger] inputs[j]).index == (#[trigger] plan[k]).0 && ((inputs[j].internal
                    && inputs[j].sink@ != "buschain_hold"@ && inputs[j].sink@.len() > 0) ==> pin_target(inputs[j], m) == Some(
                    plan[k].1,
                )) by {
                assert(plan[k] == a[k]);
                let j = choose|j: int| 0 <= j < inputs.len() && (#[trigger] inputs[j]).index == (#[trigger] a[k]).0 && pin_target(inputs[j], m) == Some(a[k].1);
                assert(inputs[j].index == plan[k].0);
            }
        },
    }
}

} // verus!
