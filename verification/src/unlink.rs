//! Which live links and Pulse loopback modules to tear down, decided from
//! `pw-link -l` and `pactl list short modules` output.
use vstd::prelude::*;

use crate::link::{arrow_parts, lemma_filter_take_step, port_on_node, port_on_node_spec, pw_node, tree_child, trimmed_lines};
use crate::ordset::strs_view;
use crate::text::{
    concat, contains, has_infix, has_prefix, lines, lines_spec, opt_view, own, split_once_char,
    starts_with, str_eq, strip_prefix, strip_prefix_spec, tokens, tokens_spec, trim, trim_spec,
    without_suffix,
};

verus! {

// ---------------------------------------------------------------------------
// Peer policies
// ---------------------------------------------------------------------------

/// `peer` is `name` or `name.<something>`.
pub open spec fn same_or_dotted(peer: Seq<char>, name: Seq<char>) -> bool {
    peer == name || has_prefix(peer, name + "."@)
}

fn same_or_dotted_exec(peer: &str, name: &str) -> (r: bool)
    ensures
        r == same_or_dotted(peer@, name@),
{
    let d = concat(name, ".");
    str_eq(peer, name) || starts_with(peer, d.as_str())
}

/// Some name of `names` is `peer` or its dotted parent.
pub open spec fn any_same_or_dotted(peer: Seq<char>, names: Seq<Seq<char>>) -> bool {
    exists|i: int| 0 <= i < names.len() && same_or_dotted(peer, #[trigger] names[i])
}

fn any_same_or_dotted_exec(peer: &str, names: &[String]) -> (r: bool)
    ensures
        r == any_same_or_dotted(peer@, strs_view(names@)),
{
    let mut i: usize = 0;
    while i < names.len()
        invariant
            i <= names.len(),
            forall|j: int| 0 <= j < i ==> !same_or_dotted(peer@, #[trigger] strs_view(names@)[j]),
        decreases names.len() - i,
    {
        if same_or_dotted_exec(peer, names[i].as_str()) {
            assert(strs_view(names@)[i as int] == names@[i as int]@);
            return true;
        }
        assert(strs_view(names@)[i as int] == names@[i as int]@);
        i += 1;
    }
    false
}

/// Capture peers that may stay linked into a track's playback ports: internal
/// mix / FX / meters always; loopback helper nodes never; rate bridges only when
/// desired; otherwise only the allowed capture sources.
pub open spec fn capture_peer_allowed_spec(
    peer: Seq<char>,
    sources: Seq<Seq<char>>,
    bridges: Seq<Seq<char>>,
) -> bool {
    if has_prefix(peer, "buschain_track_"@) || has_prefix(peer, "buschain_master"@) || has_prefix(
        peer,
        "buschain_post_"@,
    ) || has_prefix(peer, "buschain_fx_"@) || peer == "buschain_hold"@ || has_prefix(
        peer,
        "meter-"@,
    ) {
        true
    } else if has_prefix(peer, "output.loopback"@) || has_prefix(peer, "input.loopback"@) {
        false
    } else if has_prefix(peer, "buschain_rs_"@) || has_prefix(peer, "shadow_rs_"@) {
        any_same_or_dotted(peer, bridges)
    } else {
        any_same_or_dotted(peer, sources)
    }
}

pub fn capture_peer_allowed(peer: &str, allow_sources: &[String], allow_bridges: &[String]) -> (r:
    bool)
    ensures
        r == capture_peer_allowed_spec(peer@, strs_view(allow_sources@), strs_view(allow_bridges@)),
{
    if starts_with(peer, "buschain_track_") || starts_with(peer, "buschain_master") || starts_with(
        peer,
        "buschain_post_",
    ) || starts_with(peer, "buschain_fx_") || str_eq(peer, "buschain_hold") || starts_with(
        peer,
        "meter-",
    ) {
        return true;
    }
    if starts_with(peer, "output.loopback") || starts_with(peer, "input.loopback") {
        return false;
    }
    if starts_with(peer, "buschain_rs_") || starts_with(peer, "shadow_rs_") {
        return any_same_or_dotted_exec(peer, allow_bridges);
    }
    any_same_or_dotted_exec(peer, allow_sources)
}

/// The input port belongs to one of the allowed sink nodes (node prefix only).
pub open spec fn port_targets_allowed_spec(in_p: Seq<char>, sinks: Seq<Seq<char>>) -> bool {
    exists|i: int| 0 <= i < sinks.len() && port_on_node_spec(in_p, #[trigger] sinks[i])
}

pub fn port_targets_allowed(in_p: &str, allow_sinks: &[String]) -> (r: bool)
    ensures
        r == port_targets_allowed_spec(in_p@, strs_view(allow_sinks@)),
{
    let mut i: usize = 0;
    while i < allow_sinks.len()
        invariant
            i <= allow_sinks.len(),
            forall|j: int|
                0 <= j < i ==> !port_on_node_spec(in_p@, #[trigger] strs_view(allow_sinks@)[j]),
        decreases allow_sinks.len() - i,
    {
        assert(strs_view(allow_sinks@)[i as int] == allow_sinks@[i as int]@);
        if port_on_node(in_p, allow_sinks[i].as_str()) {
            return true;
        }
        i += 1;
    }
    false
}

/// A link from a source into `in_p` is dropped unless it feeds the keepalive
/// hold sink, a Pulse meter, or an allowed sink.
pub open spec fn should_disconnect(in_p: Seq<char>, sinks: Seq<Seq<char>>) -> bool {
    !(has_prefix(in_p, "buschain_hold:"@) || in_p == "buschain_hold"@) && !has_prefix(
        in_p,
        "meter-"@,
    ) && !port_targets_allowed_spec(in_p, sinks)
}

fn should_disconnect_exec(in_p: &str, allow_sinks: &[String]) -> (r: bool)
    ensures
        r == should_disconnect(in_p@, strs_view(allow_sinks@)),
{
    !(starts_with(in_p, "buschain_hold:") || str_eq(in_p, "buschain_hold")) && !starts_with(
        in_p,
        "meter-",
    ) && !port_targets_allowed(in_p, allow_sinks)
}

// ---------------------------------------------------------------------------
// Links out of a source
// ---------------------------------------------------------------------------

/// Links `(out, in)` from `src_node` to drop, read from trimmed `pw-link -l` lines.
pub open spec fn source_unlinks(
    ls: Seq<Seq<char>>,
    src: Seq<char>,
    sinks: Seq<Seq<char>>,
    cur: Option<Seq<char>>,
) -> Seq<(Seq<char>, Seq<char>)>
    decreases ls.len(),
{
    if ls.len() == 0 {
        Seq::empty()
    } else {
        let (found, next) = source_step(ls[0], src, sinks, cur);
        found + source_unlinks(ls.drop_first(), src, sinks, next)
    }
}

/// One trimmed line: the links it shows from `src` that must go, and the tree head after it.
#[verifier::opaque]
pub open spec fn source_step(
    t: Seq<char>,
    src: Seq<char>,
    sinks: Seq<Seq<char>>,
    cur: Option<Seq<char>>,
) -> (Seq<(Seq<char>, Seq<char>)>, Option<Seq<char>>) {
    if has_infix(t, "->"@) && !tree_child(t) {
        match arrow_parts(t) {
            Some((o, i)) => if port_on_node_spec(o, src) && should_disconnect(i, sinks) {
                (seq![(o, i)], cur)
            } else {
                (Seq::empty(), cur)
            },
            None => (Seq::empty(), cur),
        }
    } else if !tree_child(t) && t.contains(':') {
        (Seq::empty(), Some(t))
    } else {
        match cur {
            Some(o) => if !port_on_node_spec(o, src) {
                (Seq::empty(), cur)
            } else {
                match strip_prefix_spec(t, "|->"@) {
                    Some(r) => if should_disconnect(trim_spec(r), sinks) {
                        (seq![(o, trim_spec(r))], cur)
                    } else {
                        (Seq::empty(), cur)
                    },
                    None => (Seq::empty(), cur),
                }
            },
            None => (Seq::empty(), cur),
        }
    }
}

/// A link `(out, in)` that cutting `src` from all but `sinks` may drop.
pub open spec fn droppable(p: (Seq<char>, Seq<char>), src: Seq<char>, sinks: Seq<Seq<char>>) -> bool {
    port_on_node_spec(p.0, src) && should_disconnect(p.1, sinks)
}

/// Cutting a source from all but its allowed sinks drops only links out of
/// that source, and never its feed into the keepalive hold, a Pulse meter or
/// an allowed sink.
pub proof fn law_source_unlinks_spare_hold_and_allowed(
    ls: Seq<Seq<char>>,
    src: Seq<char>,
    sinks: Seq<Seq<char>>,
    cur: Option<Seq<char>>,
)
    ensures
        forall|k: int|
            0 <= k < source_unlinks(ls, src, sinks, cur).len() ==> droppable(
                #[trigger] source_unlinks(ls, src, sinks, cur)[k],
                src,
                sinks,
            ),
    decreases ls.len(),
{
    if ls.len() > 0 {
        reveal(source_step);
        let (found, next) = source_step(ls[0], src, sinks, cur);
        law_source_unlinks_spare_hold_and_allowed(ls.drop_first(), src, sinks, next);
        let rest = source_unlinks(ls.drop_first(), src, sinks, next);
        assert forall|k: int| 0 <= k < found.len() implies droppable(#[trigger] found[k], src, sinks) by {
        }
        let all = source_unlinks(ls, src, sinks, cur);
        assert(all == found + rest);
        assert forall|k: int| 0 <= k < all.len() implies droppable(#[trigger] all[k], src, sinks) by {
            if k < found.len() {
                assert(all[k] == found[k]);
            } else {
                assert(all[k] == rest[k - found.len()]);
            }
        }
    }
}

pub open spec fn pairs_of(v: Seq<(String, String)>) -> Seq<(Seq<char>, Seq<char>)> {
    v.map_values(|p: (String, String)| (p.0@, p.1@))
}

fn source_step_exec(t: &str, src: &str, allow_sinks: &[String], cur: Option<String>) -> (r: (
    Option<(String, String)>,
    Option<String>,
))
    ensures
        source_step(t@, src@, strs_view(allow_sinks@), opt_view(cur)) == (
            match r.0 {
                Some((a, b)) => seq![(a@, b@)],
                None => Seq::<(Seq<char>, Seq<char>)>::empty(),
            },
            opt_view(r.1),
        ),
{
    proof {
        reveal(source_step);
        crate::link::lemma_colon(t@);
    }
    let child = starts_with(t, "|->") || starts_with(t, "|<-");
    if contains(t, "->") && !child {
        match crate::link::arrow_parts_exec(t) {
            Some((o, i)) => if port_on_node(o.as_str(), src) && should_disconnect_exec(
                i.as_str(),
                allow_sinks,
            ) {
                (Some((o, i)), cur)
            } else {
                (None, cur)
            },
            None => (None, cur),
        }
    } else if !child && contains(t, ":") {
        (None, Some(own(t)))
    } else {
        match cur {
            Some(o) => if !port_on_node(o.as_str(), src) {
                (None, Some(o))
            } else {
                match strip_prefix(t, "|->") {
                    Some(r) => {
                        let i = trim(r.as_str());
                        if should_disconnect_exec(i.as_str(), allow_sinks) {
                            let o2 = o.clone();
                            (Some((o2, i)), Some(o))
                        } else {
                            (None, Some(o))
                        }
                    },
                    None => (None, Some(o)),
                }
            },
            None => (None, None),
        }
    }
}

/// The links `unlink_from_source_except` disconnects for `source`, from the
/// `pw-link -l` listing (none when the listing could not be had; the reply
/// counts those whose disconnect took). The owned-hop table forgets the hops
/// out of the source except into allowed sinks or the hold.
pub fn unlink_from_source_except(
    owned: &mut crate::modules::OwnedLinks,
    source: &str,
    links: Option<&str>,
    allow_sinks: &[String],
) -> (r: Vec<(String, String)>)
    ensures
        links is None ==> r@.len() == 0 && crate::modules::owned_view(*final(owned)) == crate::modules::owned_view(
            *old(owned),
        ),
        links matches Some(l) ==> pairs_of(r@) == source_unlinks(
            trimmed_lines(l@),
            without_suffix(source@, ".monitor"@),
            strs_view(allow_sinks@),
            None,
        ) && crate::modules::owned_view(*final(owned)) == crate::modules::owned_view(*old(owned)).filter(
            |p: (Seq<char>, Seq<char>)|
                crate::modules::hop_kept(p, without_suffix(source@, ".monitor"@), strs_view(allow_sinks@)),
        ),
{
    match links {
        Some(l) => {
            let node = pw_node(source);
            let r = unlink_source_lines(l, node.as_str(), allow_sinks);
            owned.keep_allowed_from(node.as_str(), allow_sinks);
            r
        },
        None => Vec::new(),
    }
}

/// Links out of `src_node` to disconnect: every `out → in` in `pw-link -l`
/// (either form) whose input is not the hold sink, a meter, or an allowed sink.
pub fn unlink_source_lines(links: &str, src_node: &str, allow_sinks: &[String]) -> (r: Vec<
    (String, String),
>)
    ensures
        pairs_of(r@) == source_unlinks(
            trimmed_lines(links@),
            src_node@,
            strs_view(allow_sinks@),
            None,
        ),
{
    let ls = lines(links);
    let ghost tl = trimmed_lines(links@);
    let ghost sv = strs_view(allow_sinks@);
    let mut out: Vec<(String, String)> = Vec::new();
    let mut cur: Option<String> = None;
    let mut i: usize = 0;
    assert(tl.skip(0) =~= tl);
    while i < ls.len()
        invariant
            i <= ls.len(),
            ls@.map_values(|t: String| t@) == lines_spec(links@),
            tl == trimmed_lines(links@),
            tl.len() == ls.len(),
            sv == strs_view(allow_sinks@),
            source_unlinks(tl, src_node@, sv, None) == pairs_of(out@) + source_unlinks(
                tl.skip(i as int),
                src_node@,
                sv,
                opt_view(cur),
            ),
        decreases ls.len() - i,
    {
        let t = trim(ls[i].as_str());
        assert(t@ == tl[i as int]);
        assert(tl.skip(i as int)[0] == tl[i as int]);
        assert(tl.skip(i as int).drop_first() =~= tl.skip(i + 1));
        let (found, next) = source_step_exec(t.as_str(), src_node, allow_sinks, cur);
        let ghost before = pairs_of(out@);
        match found {
            Some(p) => {
                out.push(p);
                assert(pairs_of(out@) =~= before + seq![(p.0@, p.1@)]);
            },
            None => {},
        }
        assert(before + (source_step(tl[i as int], src_node@, sv, opt_view(cur)).0 + source_unlinks(
            tl.skip(i + 1),
            src_node@,
            sv,
            opt_view(next),
        )) =~= pairs_of(out@) + source_unlinks(tl.skip(i + 1), src_node@, sv, opt_view(next)));
        cur = next;
        i += 1;
    }
    assert(tl.skip(i as int).len() == 0);
    assert(pairs_of(out@) + Seq::<(Seq<char>, Seq<char>)>::empty() =~= pairs_of(out@));
    out
}

// ---------------------------------------------------------------------------
// Capture links into a sink
// ---------------------------------------------------------------------------

/// Node part of a port (`node:port` → `node`).
pub open spec fn port_node(port: Seq<char>) -> Seq<char> {
    match crate::probe::first_occ(port, ":"@) {
        Some(i) => port.subrange(0, i),
        None => port,
    }
}

/// A capture link `out → inn` into `sink`'s playback/input ports from a peer
/// that is not allowed.
pub open spec fn capture_link_to_drop(
    out: Seq<char>,
    inn: Seq<char>,
    sink_node: Seq<char>,
    sources: Seq<Seq<char>>,
    bridges: Seq<Seq<char>>,
) -> bool {
    port_on_node_spec(inn, sink_node) && (has_infix(inn, ":playback_"@) || has_infix(
        inn,
        ":input_"@,
    )) && !capture_peer_allowed_spec(port_node(out), sources, bridges)
}

/// One trimmed line of `pw-link -l` for capture pruning.
#[verifier::opaque]
pub open spec fn capture_step(
    t: Seq<char>,
    sink_node: Seq<char>,
    sources: Seq<Seq<char>>,
    bridges: Seq<Seq<char>>,
    cur: Option<Seq<char>>,
) -> (Seq<(Seq<char>, Seq<char>)>, Option<Seq<char>>) {
    if t.len() == 0 {
        (Seq::empty(), cur)
    } else if has_prefix(t, "|<-"@) {
        let out = trim_spec(strip_prefix_spec(t, "|<-"@)->0);
        match cur {
            Some(inn) => if capture_link_to_drop(out, inn, sink_node, sources, bridges) {
                (seq![(out, inn)], cur)
            } else {
                (Seq::empty(), cur)
            },
            None => (Seq::empty(), cur),
        }
    } else if has_prefix(t, "|->"@) {
        let inn = trim_spec(strip_prefix_spec(t, "|->"@)->0);
        match cur {
            Some(out) => if capture_link_to_drop(out, inn, sink_node, sources, bridges) {
                (seq![(out, inn)], cur)
            } else {
                (Seq::empty(), cur)
            },
            None => (Seq::empty(), cur),
        }
    } else if has_prefix(t, "|"@) {
        (Seq::empty(), cur)
    } else if t.contains(':') {
        (Seq::empty(), Some(t))
    } else {
        (Seq::empty(), cur)
    }
}

pub open spec fn capture_unlinks(
    ls: Seq<Seq<char>>,
    sink_node: Seq<char>,
    sources: Seq<Seq<char>>,
    bridges: Seq<Seq<char>>,
    cur: Option<Seq<char>>,
) -> Seq<(Seq<char>, Seq<char>)>
    decreases ls.len(),
{
    if ls.len() == 0 {
        Seq::empty()
    } else {
        let (found, next) = capture_step(ls[0], sink_node, sources, bridges, cur);
        found + capture_unlinks(ls.drop_first(), sink_node, sources, bridges, next)
    }
}

/// Pruning capture into a sink drops only links into its playback / input
/// ports, and never one from internal mix, FX, the hold, a meter, an allowed
/// capture source or a desired rate bridge.
pub proof fn law_capture_prune_spares_allowed_peers(
    ls: Seq<Seq<char>>,
    sink_node: Seq<char>,
    sources: Seq<Seq<char>>,
    bridges: Seq<Seq<char>>,
    cur: Option<Seq<char>>,
)
    ensures
        forall|k: int|
            0 <= k < capture_unlinks(ls, sink_node, sources, bridges, cur).len() ==> ({
                let p = #[trigger] capture_unlinks(ls, sink_node, sources, bridges, cur)[k];
                capture_link_to_drop(p.0, p.1, sink_node, sources, bridges)
            }),
    decreases ls.len(),
{
    if ls.len() > 0 {
        reveal(capture_step);
        let (found, next) = capture_step(ls[0], sink_node, sources, bridges, cur);
        law_capture_prune_spares_allowed_peers(ls.drop_first(), sink_node, sources, bridges, next);
        let rest = capture_unlinks(ls.drop_first(), sink_node, sources, bridges, next);
        let all = capture_unlinks(ls, sink_node, sources, bridges, cur);
        assert(all == found + rest);
        assert forall|k: int| 0 <= k < all.len() implies ({
            let p = #[trigger] all[k];
            capture_link_to_drop(p.0, p.1, sink_node, sources, bridges)
        }) by {
            if k < found.len() {
                assert(all[k] == found[k]);
            } else {
                assert(all[k] == rest[k - found.len()]);
            }
        }
    }
}

fn port_node_exec(port: &str) -> (r: String)
    ensures
        r@ == port_node(port@),
{
    proof {
        reveal_strlit(":");
        assert(":"@ =~= seq![':']);
    }
    let x = crate::text::to_chars(port);
    let pat = crate::text::to_chars(":");
    let f = crate::text::find_from(&x, &pat, 0);
    proof {
        crate::link::lemma_first_occ_exec(x@, pat@, f);
    }
    match f {
        Some(i) => crate::text::from_chars_range(&x, 0, i),
        None => own(port),
    }
}

fn capture_step_exec(
    t: &str,
    sink_node: &str,
    allow_sources: &[String],
    allow_bridges: &[String],
    cur: Option<String>,
) -> (r: (Option<(String, String)>, Option<String>))
    ensures
        capture_step(t@, sink_node@, strs_view(allow_sources@), strs_view(allow_bridges@), opt_view(cur)) == (
            match r.0 {
                Some((a, b)) => seq![(a@, b@)],
                None => Seq::<(Seq<char>, Seq<char>)>::empty(),
            },
            opt_view(r.1),
        ),
{
    proof {
        reveal(capture_step);
        crate::link::lemma_colon(t@);
    }
    if t.is_empty() {
        return (None, cur);
    }
    match strip_prefix(t, "|<-") {
        Some(rest) => {
            let out = trim(rest.as_str());
            return match cur {
                Some(inn) => {
                    if port_on_node(inn.as_str(), sink_node) && (contains(inn.as_str(), ":playback_")
                        || contains(inn.as_str(), ":input_")) && !capture_peer_allowed(
                        port_node_exec(out.as_str()).as_str(),
                        allow_sources,
                        allow_bridges,
                    ) {
                        let i2 = inn.clone();
                        (Some((out, i2)), Some(inn))
                    } else {
                        (None, Some(inn))
                    }
                },
                None => (None, None),
            };
        },
        None => {},
    }
    match strip_prefix(t, "|->") {
        Some(rest) => {
            let inn = trim(rest.as_str());
            return match cur {
                Some(out) => {
                    if port_on_node(inn.as_str(), sink_node) && (contains(inn.as_str(), ":playback_")
                        || contains(inn.as_str(), ":input_")) && !capture_peer_allowed(
                        port_node_exec(out.as_str()).as_str(),
                        allow_sources,
                        allow_bridges,
                    ) {
                        let o2 = out.clone();
                        (Some((o2, inn)), Some(out))
                    } else {
                        (None, Some(out))
                    }
                },
                None => (None, None),
            };
        },
        None => {},
    }
    if starts_with(t, "|") {
        return (None, cur);
    }
    if contains(t, ":") {
        (None, Some(own(t)))
    } else {
        (None, cur)
    }
}

/// Links into `sink`'s playback ports from peers that are neither allowed
/// capture sources, internal mix, nor desired rate bridges.
pub fn unlink_capture_into_sink_except_with_bridges(
    links: &str,
    sink: &str,
    allow_sources: &[String],
    allow_bridges: &[String],
) -> (r: Vec<(String, String)>)
    ensures
        pairs_of(r@) == capture_unlinks(
            trimmed_lines(links@),
            without_suffix(sink@, ".monitor"@),
            strs_view(allow_sources@),
            strs_view(allow_bridges@),
            None,
        ),
{
    let snk = pw_node(sink);
    let ls = lines(links);
    let ghost tl = trimmed_lines(links@);
    let ghost so = strs_view(allow_sources@);
    let ghost br = strs_view(allow_bridges@);
    let mut out: Vec<(String, String)> = Vec::new();
    let mut cur: Option<String> = None;
    let mut i: usize = 0;
    assert(tl.skip(0) =~= tl);
    while i < ls.len()
        invariant
            i <= ls.len(),
            ls@.map_values(|t: String| t@) == lines_spec(links@),
            tl == trimmed_lines(links@),
            tl.len() == ls.len(),
            so == strs_view(allow_sources@),
            br == strs_view(allow_bridges@),
            capture_unlinks(tl, snk@, so, br, None) == pairs_of(out@) + capture_unlinks(
                tl.skip(i as int),
                snk@,
                so,
                br,
                opt_view(cur),
            ),
        decreases ls.len() - i,
    {
        let t = trim(ls[i].as_str());
        assert(t@ == tl[i as int]);
        assert(tl.skip(i as int)[0] == tl[i as int]);
        assert(tl.skip(i as int).drop_first() =~= tl.skip(i + 1));
        let (found, next) = capture_step_exec(t.as_str(), snk.as_str(), allow_sources, allow_bridges, cur);
        let ghost before = pairs_of(out@);
        match found {
            Some(p) => {
                out.push(p);
                assert(pairs_of(out@) =~= before + seq![(p.0@, p.1@)]);
            },
            None => {},
        }
        assert(before + (capture_step(tl[i as int], snk@, so, br, opt_view(cur)).0 + capture_unlinks(
            tl.skip(i + 1),
            snk@,
            so,
            br,
            opt_view(next),
        )) =~= pairs_of(out@) + capture_unlinks(tl.skip(i + 1), snk@, so, br, opt_view(next)));
        cur = next;
        i += 1;
    }
    assert(tl.skip(i as int).len() == 0);
    assert(pairs_of(out@) + Seq::<(Seq<char>, Seq<char>)>::empty() =~= pairs_of(out@));
    out
}

/// Like [`unlink_capture_into_sink_except_with_bridges`] with no desired bridges.
pub fn unlink_capture_into_sink_except(links: &str, sink: &str, allow_sources: &[String]) -> (r:
    Vec<(String, String)>)
    ensures
        pairs_of(r@) == capture_unlinks(
            trimmed_lines(links@),
            without_suffix(sink@, ".monitor"@),
            strs_view(allow_sources@),
            Seq::empty(),
            None,
        ),
{
    let none: Vec<String> = Vec::new();
    assert(strs_view(none@) =~= Seq::<Seq<char>>::empty());
    unlink_capture_into_sink_except_with_bridges(links, sink, allow_sources, &none)
}

} // verus!
