//! PipeWire links for BusChain hops, decided from `pw-link` listings.
//!
//! Pulse uses `bus.monitor` source names; PipeWire ports are
//! `{bus}:monitor_FL/FR → {dest}:playback_FL/FR`. The caller runs `pw-link -o`,
//! `pw-link -i`, `pw-link -l` and `pactl list short modules`; these functions
//! decide which ports pair up, whether a hop is live, and what to disconnect.
use vstd::prelude::*;

use crate::ordset::strs_view;
use crate::probe::first_occ;
use crate::text::{opt_view, 
    chars_contain, concat, contains, drop_suffix, ends_with, find_from, from_chars_range,
    has_infix, has_prefix, has_suffix, lines, lines_spec, lowercase, occurs_at, own, split_char,
    split_once_char, split_spec, starts_with, str_eq, strip_prefix, strip_prefix_spec, to_chars,
    to_lowercase, tokens, tokens_spec, trim, trim_spec, without_suffix,
};

verus! {

/// Strip the Pulse `.monitor` suffix → PipeWire node name.
pub fn pw_node(endpoint: &str) -> (r: String)
    ensures
        r@ == without_suffix(endpoint@, ".monitor"@),
{
    drop_suffix(endpoint, ".monitor")
}

pub fn is_monitor_source(source: &str) -> (r: bool)
    ensures
        r == has_suffix(source@, ".monitor"@),
{
    ends_with(source, ".monitor")
}

/// `port` is `node` itself or one of its `node:…` ports (not a longer sibling).
pub open spec fn port_on_node_spec(port: Seq<char>, node: Seq<char>) -> bool {
    port == node || has_prefix(port, node + ":"@)
}

pub fn port_on_node(port: &str, node: &str) -> (r: bool)
    ensures
        r == port_on_node_spec(port@, node@),
{
    let pre = concat(node, ":");
    str_eq(port, node) || starts_with(port, pre.as_str())
}

/// Trimmed lines of a listing.
pub open spec fn trimmed_lines(text: Seq<char>) -> Seq<Seq<char>> {
    lines_spec(text).map_values(|l: Seq<char>| trim_spec(l))
}

/// Ports of `node` in a `pw-link -o` / `-i` listing, in listing order.
pub open spec fn ports_for_node_spec(listing: Seq<char>, node: Seq<char>) -> Seq<Seq<char>> {
    trimmed_lines(listing).filter(
        |l: Seq<char>| l.len() > 0 && (has_prefix(l, node + ":"@) || l == node),
    )
}

pub fn ports_for_node(listing: &str, node: &str) -> (r: Vec<String>)
    ensures
        r@.map_values(|t: String| t@) == ports_for_node_spec(listing@, node@),
{
    let ls = lines(listing);
    let pre = concat(node, ":");
    let ghost lv = ls@.map_values(|t: String| t@);
    let ghost tl = lv.map_values(|l: Seq<char>| trim_spec(l));
    let ghost pred = |l: Seq<char>| l.len() > 0 && (has_prefix(l, node@ + ":"@) || l == node@);
    let mut out: Vec<String> = Vec::new();
    let mut i: usize = 0;
    while i < ls.len()
        invariant
            i <= ls.len(),
            lv == ls@.map_values(|t: String| t@),
            lv == lines_spec(listing@),
            tl == lv.map_values(|l: Seq<char>| trim_spec(l)),
            pre@ == node@ + ":"@,
            pred == (|l: Seq<char>| l.len() > 0 && (has_prefix(l, node@ + ":"@) || l == node@)),
            out@.map_values(|t: String| t@) == tl.take(i as int).filter(pred),
        decreases ls.len() - i,
    {
        let t = trim(ls[i].as_str());
        assert(t@ == tl[i as int]);
        let keep = !t.as_str().is_empty() && (starts_with(t.as_str(), pre.as_str()) || str_eq(
            t.as_str(),
            node,
        ));
        proof {
            lemma_filter_take_step(tl, pred, i as int);
        }
        if keep {
            let ghost old_out = out@;
            out.push(t);
            assert(out@.map_values(|t: String| t@) =~= old_out.map_values(|t: String| t@).push(
                tl[i as int],
            ));
        }
        i += 1;
    }
    assert(tl.take(ls.len() as int) =~= tl);
    out
}

/// One step of filtering a growing prefix.
pub proof fn lemma_filter_take_step(s: Seq<Seq<char>>, pred: spec_fn(Seq<char>) -> bool, i: int)
    requires
        0 <= i < s.len(),
    ensures
        s.take(i + 1).filter(pred) == (if pred(s[i]) {
            s.take(i).filter(pred).push(s[i])
        } else {
            s.take(i).filter(pred)
        }),
{
    reveal_with_fuel(Seq::<Seq<char>>::filter, 1);
    assert(s.take(i + 1).drop_last() =~= s.take(i));
}

// ---------------------------------------------------------------------------
// Choosing the left / right port
// ---------------------------------------------------------------------------

/// Port kept as a candidate for the wanted class (monitor outputs vs playback inputs).
pub open spec fn port_class_ok(p: Seq<char>, prefer_monitor: bool) -> bool {
    lower_class_ok(lowercase(p), prefer_monitor)
}

/// The class test on a lowercased port name: with monitors preferred, any
/// port but a playback / input one that is not a monitor; otherwise any
/// port that is not a monitor.
pub open spec fn lower_class_ok(pl: Seq<char>, prefer_monitor: bool) -> bool {
    if prefer_monitor {
        !(!has_infix(pl, "monitor"@) && (has_infix(pl, "playback"@) || has_infix(pl, "input"@)))
    } else {
        !has_infix(pl, "monitor"@)
    }
}

/// `lower_class_ok` on a lowercased port name.
pub fn lowered_class_ok(pl: &str, prefer_monitor: bool) -> (r: bool)
    ensures
        r == lower_class_ok(pl@, prefer_monitor),
{
    if prefer_monitor {
        !(!contains(pl, "monitor") && (contains(pl, "playback") || contains(pl, "input")))
    } else {
        !contains(pl, "monitor")
    }
}

/// A lowercased port name that says mono.
pub open spec fn lower_mono(pl: Seq<char>) -> bool {
    has_infix(pl, "mono"@)
}

/// A lowercased port name that says front-left (`fl`, `front-left`, `_0`, or
/// ending in `:0`).
pub open spec fn lower_left(pl: Seq<char>) -> bool {
    has_infix(pl, "fl"@) || has_infix(pl, "front-left"@) || has_infix(pl, "_0"@) || has_suffix(pl, ":0"@)
}

/// A lowercased port name that says front-right (`fr`, `front-right`, `_1`,
/// or ending in `:1`).
pub open spec fn lower_right(pl: Seq<char>) -> bool {
    has_infix(pl, "fr"@) || has_infix(pl, "front-right"@) || has_infix(pl, "_1"@) || has_suffix(pl, ":1"@)
}

/// `lower_mono` on a lowercased port name.
pub fn lowered_mono(pl: &str) -> (r: bool)
    ensures
        r == lower_mono(pl@),
{
    contains(pl, "mono")
}

/// `lower_left` on a lowercased port name.
pub fn lowered_left(pl: &str) -> (r: bool)
    ensures
        r == lower_left(pl@),
{
    contains(pl, "fl") || contains(pl, "front-left") || contains(pl, "_0") || ends_with(pl, ":0")
}

/// `lower_right` on a lowercased port name.
pub fn lowered_right(pl: &str) -> (r: bool)
    ensures
        r == lower_right(pl@),
{
    contains(pl, "fr") || contains(pl, "front-right") || contains(pl, "_1") || ends_with(pl, ":1")
}

/// Ports of the wanted class, or all ports when none is of that class.
pub open spec fn lr_candidates(ports: Seq<Seq<char>>, prefer_monitor: bool) -> Seq<Seq<char>> {
    let c = ports.filter(|p: Seq<char>| port_class_ok(p, prefer_monitor));
    if c.len() == 0 {
        ports
    } else {
        c
    }
}

/// The port says mono.
pub open spec fn is_mono(p: Seq<char>) -> bool {
    lower_mono(lowercase(p))
}

/// The port says front-left.
pub open spec fn looks_left(p: Seq<char>) -> bool {
    lower_left(lowercase(p))
}

/// The port says front-right.
pub open spec fn looks_right(p: Seq<char>) -> bool {
    lower_right(lowercase(p))
}

/// First left-looking and first right-looking port among `c[..k]`; a port that
/// looks left never counts as right.
pub open spec fn lr_scan(c: Seq<Seq<char>>, k: nat) -> (Option<Seq<char>>, Option<Seq<char>>)
    decreases k,
{
    if k == 0 {
        (None, None)
    } else {
        let (fl, fr) = lr_scan(c, (k - 1) as nat);
        let p = c[k - 1];
        if is_mono(p) {
            (fl, fr)
        } else if looks_left(p) && fl is None {
            (Some(p), fr)
        } else if !(looks_left(p) && fl is None) && looks_right(p) && fr is None {
            (fl, Some(p))
        } else {
            (fl, fr)
        }
    }
}

/// The (left, right) pair `pick_lr` chooses.
pub open spec fn pick_lr_spec(ports: Seq<Seq<char>>, prefer_monitor: bool) -> Option<
    (Seq<char>, Seq<char>),
> {
    let c = lr_candidates(ports, prefer_monitor);
    match first_mono(c) {
        Some(m) => Some((m, m)),
        None => if c.len() == 1 {
            Some((c[0], c[0]))
        } else {
            let (fl, fr) = lr_scan(c, c.len());
            if fl is None || fr is None {
                if c.len() >= 2 {
                    Some((c[0], c[1]))
                } else {
                    None
                }
            } else {
                Some((fl->0, fr->0))
            }
        },
    }
}

/// First mono port, if any.
pub open spec fn first_mono(c: Seq<Seq<char>>) -> Option<Seq<char>>
    decreases c.len(),
{
    if c.len() == 0 {
        None
    } else if is_mono(c[0]) {
        Some(c[0])
    } else {
        first_mono(c.drop_first())
    }
}

/// What a filter keeps comes from the filtered sequence.
pub proof fn lemma_filter_from(s: Seq<Seq<char>>, pred: spec_fn(Seq<char>) -> bool)
    ensures
        forall|i: int| 0 <= i < s.filter(pred).len() ==> s.contains(#[trigger] s.filter(pred)[i]),
    decreases s.len(),
{
    reveal_with_fuel(Seq::<Seq<char>>::filter, 1);
    if s.len() > 0 {
        lemma_filter_from(s.drop_last(), pred);
        let f = s.filter(pred);
        let g = s.drop_last().filter(pred);
        assert forall|i: int| 0 <= i < f.len() implies s.contains(#[trigger] f[i]) by {
            if i < g.len() {
                assert(f[i] == g[i]);
                let k = choose|k: int| 0 <= k < s.drop_last().len() && s.drop_last()[k] == g[i];
                assert(s[k] == g[i]);
            } else {
                assert(f[i] == s.last());
                assert(s[s.len() - 1] == s.last());
            }
        }
    }
}

proof fn lemma_first_mono_in(c: Seq<Seq<char>>)
    ensures
        first_mono(c) matches Some(m) ==> c.contains(m),
    decreases c.len(),
{
    if c.len() > 0 && !is_mono(c[0]) {
        lemma_first_mono_in(c.drop_first());
        match first_mono(c.drop_first()) {
            Some(m) => {
                let k = choose|k: int| 0 <= k < c.drop_first().len() && c.drop_first()[k] == m;
                assert(c[k + 1] == m);
            },
            None => {},
        }
    }
    if c.len() > 0 && is_mono(c[0]) {
        assert(c[0] == c[0]);
    }
}

proof fn lemma_lr_scan_in(c: Seq<Seq<char>>, k: nat)
    requires
        k <= c.len(),
    ensures
        lr_scan(c, k).0 matches Some(x) ==> c.contains(x),
        lr_scan(c, k).1 matches Some(x) ==> c.contains(x),
    decreases k,
{
    if k > 0 {
        lemma_lr_scan_in(c, (k - 1) as nat);
        assert(c[k - 1] == c[k - 1]);
    }
}

/// The stereo pick takes both sides from the ports it is given, and picks
/// nothing only when it is given none; the first mono candidate feeds both
/// sides, and so does a lone candidate (candidates being the ports of the
/// wanted class, or all ports when none is of that class).
pub proof fn law_pick_lr_from_ports(ports: Seq<Seq<char>>, prefer_monitor: bool)
    ensures
        pick_lr_spec(ports, prefer_monitor) is None <==> ports.len() == 0,
        pick_lr_spec(ports, prefer_monitor) matches Some((a, b)) ==> ports.contains(a) && ports.contains(b),
        first_mono(lr_candidates(ports, prefer_monitor)) matches Some(m) ==> pick_lr_spec(ports, prefer_monitor)
            == Some((m, m)),
        (first_mono(lr_candidates(ports, prefer_monitor)) is None && lr_candidates(ports, prefer_monitor).len()
            == 1) ==> pick_lr_spec(ports, prefer_monitor) == Some((
            lr_candidates(ports, prefer_monitor)[0],
            lr_candidates(ports, prefer_monitor)[0],
        )),
{
    let pred = |p: Seq<char>| port_class_ok(p, prefer_monitor);
    let c = lr_candidates(ports, prefer_monitor);
    lemma_filter_from(ports, pred);
    assert forall|x: Seq<char>| c.contains(x) implies ports.contains(x) by {
        let k = choose|k: int| 0 <= k < c.len() && c[k] == x;
        if ports.filter(pred).len() != 0 {
            assert(c == ports.filter(pred));
            assert(ports.contains(ports.filter(pred)[k]));
        }
    }
    lemma_first_mono_in(c);
    lemma_lr_scan_in(c, c.len());
    if c.len() > 0 {
        assert(c.contains(c[0]));
        if c.len() >= 2 {
            assert(c.contains(c[1]));
        }
    }
}

fn port_class_ok_exec(p: &str, prefer_monitor: bool) -> (r: bool)
    ensures
        r == port_class_ok(p@, prefer_monitor),
{
    let pl = to_lowercase(p);
    lowered_class_ok(pl.as_str(), prefer_monitor)
}

/// Choose the left and right port of a stereo hop (a mono port feeds both).
pub fn pick_lr(ports: &Vec<String>, prefer_monitor: bool) -> (r: Option<(String, String)>)
    ensures
        match r {
            Some((a, b)) => pick_lr_spec(ports@.map_values(|t: String| t@), prefer_monitor)
                == Some((a@, b@)),
            None => pick_lr_spec(ports@.map_values(|t: String| t@), prefer_monitor) is None,
        },
{
    let ghost pv = ports@.map_values(|t: String| t@);
    let ghost pred = |p: Seq<char>| port_class_ok(p, prefer_monitor);
    let mut cands: Vec<String> = Vec::new();
    let mut i: usize = 0;
    while i < ports.len()
        invariant
            i <= ports.len(),
            pv == ports@.map_values(|t: String| t@),
            pred == (|p: Seq<char>| port_class_ok(p, prefer_monitor)),
            cands@.map_values(|t: String| t@) == pv.take(i as int).filter(pred),
        decreases ports.len() - i,
    {
        proof {
            lemma_filter_take_step(pv, pred, i as int);
        }
        if port_class_ok_exec(ports[i].as_str(), prefer_monitor) {
            let ghost old = cands@;
            cands.push(ports[i].clone());
            assert(cands@.map_values(|t: String| t@) =~= old.map_values(|t: String| t@).push(
                pv[i as int],
            ));
        }
        i += 1;
    }
    assert(pv.take(ports.len() as int) =~= pv);
    let c: &Vec<String> = if cands.len() == 0 {
        ports
    } else {
        &cands
    };
    let ghost cv = c@.map_values(|t: String| t@);
    assert(cv == lr_candidates(pv, prefer_monitor));
    // A mono port (e.g. a single-channel mic) feeds both sides.
    let mut j: usize = 0;
    assert(cv.skip(0) =~= cv);
    while j < c.len()
        invariant
            j <= c.len(),
            cv == c@.map_values(|t: String| t@),
            pv == ports@.map_values(|t: String| t@),
            cv == lr_candidates(pv, prefer_monitor),
            first_mono(cv) == first_mono(cv.skip(j as int)),
        decreases c.len() - j,
    {
        assert(cv.skip(j as int)[0] == cv[j as int]);
        assert(cv.skip(j as int).drop_first() =~= cv.skip(j + 1));
        let pl = to_lowercase(c[j].as_str());
        if lowered_mono(pl.as_str()) {
            assert(is_mono(cv[j as int]));
            assert(first_mono(cv.skip(j as int)) == Some(cv[j as int]));
            let m = c[j].clone();
            return Some((m.clone(), m));
        }
        j += 1;
    }
    assert(cv.skip(j as int).len() == 0);
    if c.len() == 1 {
        return Some((c[0].clone(), c[0].clone()));
    }
    let mut fl: Option<String> = None;
    let mut fr: Option<String> = None;
    let mut k: usize = 0;
    while k < c.len()
        invariant
            k <= c.len(),
            cv == c@.map_values(|t: String| t@),
            pv == ports@.map_values(|t: String| t@),
            cv == lr_candidates(pv, prefer_monitor),
            first_mono(cv) is None,
            cv.len() != 1,
            lr_scan(cv, k as nat) == (
                match fl {
                    Some(x) => Some(x@),
                    None => None::<Seq<char>>,
                },
                match fr {
                    Some(x) => Some(x@),
                    None => None::<Seq<char>>,
                },
            ),
        decreases c.len() - k,
    {
        let pl = to_lowercase(c[k].as_str());
        let s = pl.as_str();
        if !lowered_mono(s) {
            let is_fl = lowered_left(s);
            let is_fr = lowered_right(s);
            if is_fl && fl.is_none() {
                fl = Some(c[k].clone());
            } else if is_fr && fr.is_none() {
                fr = Some(c[k].clone());
            }
        }
        k += 1;
    }
    match (fl, fr) {
        (Some(a), Some(b)) => Some((a, b)),
        _ => if c.len() >= 2 {
            Some((c[0].clone(), c[1].clone()))
        } else {
            None
        },
    }
}

// ---------------------------------------------------------------------------
// Stereo port pairs and liveness
// ---------------------------------------------------------------------------

/// Why no stereo port pairs could be built for a hop.
#[derive(Debug, Clone, Copy, PartialEq, Eq)]
pub enum PortPairError {
    /// The source node has no output ports in `pw-link -o`.
    NoOutputPorts,
    /// The sink node has no input ports in `pw-link -i`.
    NoInputPorts,
    /// No left/right output pair could be chosen.
    NoOutputPair,
    /// No left/right input pair could be chosen.
    NoInputPair,
}

/// Port pairs `[(out_L, in_L), (out_R, in_R)]` for Pulse `source` → `sink`.
pub open spec fn port_pairs_spec(
    outs: Seq<char>,
    ins: Seq<char>,
    source: Seq<char>,
    sink: Seq<char>,
) -> Result<Seq<(Seq<char>, Seq<char>)>, PortPairError> {
    let src_ports = ports_for_node_spec(outs, without_suffix(source, ".monitor"@));
    let dst_ports = ports_for_node_spec(ins, without_suffix(sink, ".monitor"@));
    if src_ports.len() == 0 {
        Err(PortPairError::NoOutputPorts)
    } else if dst_ports.len() == 0 {
        Err(PortPairError::NoInputPorts)
    } else {
        match pick_lr_spec(src_ports, has_suffix(source, ".monitor"@)) {
            None => Err(PortPairError::NoOutputPair),
            Some((s_fl, s_fr)) => match pick_lr_spec(dst_ports, false) {
                None => Err(PortPairError::NoInputPair),
                Some((d_fl, d_fr)) => Ok(seq![(s_fl, d_fl), (s_fr, d_fr)]),
            },
        }
    }
}

pub open spec fn pairs_view(v: Seq<(String, String)>) -> Seq<(Seq<char>, Seq<char>)> {
    v.map_values(|p: (String, String)| (p.0@, p.1@))
}

/// Build stereo port pairs for `source` → `sink` from `pw-link -o` / `-i` listings.
pub fn port_pairs(outs: &str, ins: &str, source: &str, sink: &str) -> (r: Result<
    Vec<(String, String)>,
    PortPairError,
>)
    ensures
        match r {
            Ok(v) => port_pairs_spec(outs@, ins@, source@, sink@) == Ok::<
                Seq<(Seq<char>, Seq<char>)>,
                PortPairError,
            >(pairs_view(v@)),
            Err(e) => port_pairs_spec(outs@, ins@, source@, sink@) == Err::<
                Seq<(Seq<char>, Seq<char>)>,
                PortPairError,
            >(e),
        },
{
    let src_node = pw_node(source);
    let dst_node = pw_node(sink);
    let src_ports = ports_for_node(outs, src_node.as_str());
    let dst_ports = ports_for_node(ins, dst_node.as_str());
    if src_ports.len() == 0 {
        return Err(PortPairError::NoOutputPorts);
    }
    if dst_ports.len() == 0 {
        return Err(PortPairError::NoInputPorts);
    }
    let prefer = is_monitor_source(source);
    match pick_lr(&src_ports, prefer) {
        None => Err(PortPairError::NoOutputPair),
        Some((s_fl, s_fr)) => match pick_lr(&dst_ports, false) {
            None => Err(PortPairError::NoInputPair),
            Some((d_fl, d_fr)) => {
                let mut v: Vec<(String, String)> = Vec::new();
                v.push((s_fl, d_fl));
                v.push((s_fr, d_fr));
                assert(pairs_view(v@) =~= seq![(s_fl@, d_fl@), (s_fr@, d_fr@)]);
                Ok(v)
            },
        },
    }
}

/// `t` splits on `->` into exactly two trimmed pieces.
pub open spec fn arrow_parts(t: Seq<char>) -> Option<(Seq<char>, Seq<char>)> {
    match first_occ(t, "->"@) {
        Some(i) => {
            let rest = t.subrange(i + 2, t.len() as int);
            if first_occ(rest, "->"@) is None {
                Some((trim_spec(t.subrange(0, i)), trim_spec(rest)))
            } else {
                None
            }
        },
        None => None,
    }
}

/// `out`/`in` name the wanted ports exactly, or contain them (decorated names).
pub open spec fn ports_match(out: Seq<char>, inp: Seq<char>, out_p: Seq<char>, in_p: Seq<char>) -> bool {
    (out == out_p && inp == in_p) || (has_infix(out, out_p) && has_infix(inp, in_p))
}

pub open spec fn tree_child(t: Seq<char>) -> bool {
    has_prefix(t, "|->"@) || has_prefix(t, "|<-"@)
}

/// Whether the trimmed `pw-link -l` lines `ls` show `out_p → in_p`, in either the
/// `out -> in` form or the tree form (`out` then `|-> in`), with `cur` the port
/// heading the current tree block.
pub open spec fn linked_from(
    ls: Seq<Seq<char>>,
    out_p: Seq<char>,
    in_p: Seq<char>,
    cur: Option<Seq<char>>,
) -> bool
    decreases ls.len(),
{
    if ls.len() == 0 {
        false
    } else {
        let (hit, next) = line_step(ls[0], out_p, in_p, cur);
        hit || linked_from(ls.drop_first(), out_p, in_p, next)
    }
}

fn ports_match_exec(out: &str, inp: &str, out_p: &str, in_p: &str) -> (r: bool)
    ensures
        r == ports_match(out@, inp@, out_p@, in_p@),
{
    (str_eq(out, out_p) && str_eq(inp, in_p)) || (contains(out, out_p) && contains(inp, in_p))
}

pub proof fn lemma_first_occ_exec(s: Seq<char>, p: Seq<char>, r: Option<usize>)
    requires
        match r {
            Some(i) => occurs_at(s, p, i as int) && forall|j: int| 0 <= j < i ==> !occurs_at(s, p, j),
            None => forall|j: int| 0 <= j ==> !occurs_at(s, p, j),
        },
    ensures
        first_occ(s, p) == (match r {
            Some(i) => Some(i as int),
            None => None::<int>,
        }),
{
    match r {
        Some(i) => {
            let k = choose|k: int|
                #[trigger] occurs_at(s, p, k) && forall|j: int| 0 <= j < k ==> !occurs_at(s, p, j);
            assert(k == i as int) by {
                if k < i {
                    assert(!occurs_at(s, p, k));
                }
                if k > i {
                    assert(!occurs_at(s, p, i as int));
                }
            }
        },
        None => {
            assert forall|k: int| !occurs_at(s, p, k) by {
                if k < 0 {
                }
            }
        },
    }
}

/// Split on `->` into exactly two trimmed pieces.
pub(crate) fn arrow_parts_exec(t: &str) -> (r: Option<(String, String)>)
    ensures
        match r {
            Some((a, b)) => arrow_parts(t@) == Some((a@, b@)),
            None => arrow_parts(t@) is None,
        },
{
    let x = to_chars(t);
    let pat = to_chars("->");
    proof {
        reveal_strlit("->");
    }
    let f = find_from(&x, &pat, 0);
    proof {
        lemma_first_occ_exec(x@, pat@, f);
    }
    match f {
        None => None,
        Some(i) => {
            assert(x@.len() == x.len());
            let rest = from_chars_range(&x, i + 2, x.len());
            let rc = to_chars(rest.as_str());
            let g = find_from(&rc, &pat, 0);
            proof {
                lemma_first_occ_exec(rc@, pat@, g);
            }
            match g {
                Some(_) => None,
                None => {
                    let a = from_chars_range(&x, 0, i);
                    Some((trim(a.as_str()), trim(rest.as_str())))
                },
            }
        },
    }
}

/// One trimmed listing line: whether it shows the pair (as `out -> in`, or as
/// `|-> in` under the tree head `out`), and the tree head after it (a port line
/// starts a new block).
#[verifier::opaque]
pub open spec fn line_step(
    t: Seq<char>,
    out_p: Seq<char>,
    in_p: Seq<char>,
    cur: Option<Seq<char>>,
) -> (bool, Option<Seq<char>>) {
    if has_infix(t, "->"@) && !tree_child(t) {
        match arrow_parts(t) {
            Some((a, b)) => (ports_match(a, b, out_p, in_p), cur),
            None => (false, cur),
        }
    } else if !tree_child(t) && t.contains(':') {
        (false, Some(t))
    } else {
        match cur {
            Some(out) => match strip_prefix_spec(t, "|->"@) {
                Some(r) => (ports_match(out, trim_spec(r), out_p, in_p), cur),
                None => (false, cur),
            },
            None => (false, cur),
        }
    }
}

pub proof fn lemma_colon(t: Seq<char>)
    ensures
        t.contains(':') == has_infix(t, ":"@),
{
    reveal_strlit(":");
    assert(":"@ =~= seq![':']);
    if t.contains(':') {
        let k = choose|k: int| 0 <= k < t.len() && t[k] == ':';
        assert(occurs_at(t, ":"@, k)) by {
            assert(t.subrange(k, k + 1) =~= seq![':']);
        }
    }
    if has_infix(t, ":"@) {
        let k = choose|k: int| occurs_at(t, ":"@, k);
        assert(t.subrange(k, k + 1)[0] == ':');
        assert(t[k] == ':');
    }
}

fn line_step_exec(t: &str, out_p: &str, in_p: &str, cur: Option<String>) -> (r: (bool, Option<String>))
    ensures
        line_step(t@, out_p@, in_p@, opt_view(cur)) == (r.0, opt_view(r.1)),
{
    proof {
        lemma_colon(t@);
        reveal(line_step);
    }
    let child = starts_with(t, "|->") || starts_with(t, "|<-");
    if contains(t, "->") && !child {
        match arrow_parts_exec(t) {
            Some((a, b)) => (ports_match_exec(a.as_str(), b.as_str(), out_p, in_p), cur),
            None => (false, cur),
        }
    } else if !child && contains(t, ":") {
        (false, Some(own(t)))
    } else {
        match cur {
            Some(out) => match strip_prefix(t, "|->") {
                Some(r) => {
                    let inp = trim(r.as_str());
                    let hit = ports_match_exec(out.as_str(), inp.as_str(), out_p, in_p);
                    (hit, Some(out))
                },
                None => (false, Some(out)),
            },
            None => (false, None),
        }
    }
}

/// Whether a `pw-link -l` listing shows `out_p → in_p`.
pub fn pair_linked_in_listing(links: &str, out_p: &str, in_p: &str) -> (r: bool)
    ensures
        r == linked_from(trimmed_lines(links@), out_p@, in_p@, None),
{
    let ls = lines(links);
    let ghost tl = trimmed_lines(links@);
    let mut cur: Option<String> = None;
    let mut i: usize = 0;
    assert(tl.skip(0) =~= tl);
    while i < ls.len()
        invariant
            i <= ls.len(),
            ls@.map_values(|t: String| t@) == lines_spec(links@),
            tl == trimmed_lines(links@),
            tl.len() == ls.len(),
            linked_from(tl, out_p@, in_p@, None) == linked_from(
                tl.skip(i as int),
                out_p@,
                in_p@,
                opt_view(cur),
            ),
        decreases ls.len() - i,
    {
        let t = trim(ls[i].as_str());
        assert(t@ == tl[i as int]);
        assert(tl.skip(i as int)[0] == tl[i as int]);
        assert(tl.skip(i as int).drop_first() =~= tl.skip(i + 1));
        let (hit, next) = line_step_exec(t.as_str(), out_p, in_p, cur);
        if hit {
            return true;
        }
        cur = next;
        i += 1;
    }
    assert(tl.skip(i as int).len() == 0);
    false
}

/// A hop is live when its stereo pairs resolve and every pair shows in `pw-link -l`.
pub open spec fn link_is_live_spec(
    outs: Seq<char>,
    ins: Seq<char>,
    links: Seq<char>,
    source: Seq<char>,
    sink: Seq<char>,
) -> bool {
    match port_pairs_spec(outs, ins, source, sink) {
        Ok(pairs) => forall|k: int|
            0 <= k < pairs.len() ==> linked_from(
                trimmed_lines(links),
                #[trigger] pairs[k].0,
                pairs[k].1,
                None,
            ),
        Err(_) => false,
    }
}

/// Whether the hop `source → sink` is live according to the three listings.
pub fn link_is_live(outs: &str, ins: &str, links: &str, source: &str, sink: &str) -> (r: bool)
    ensures
        r == link_is_live_spec(outs@, ins@, links@, source@, sink@),
{
    match port_pairs(outs, ins, source, sink) {
        Err(_) => false,
        Ok(pairs) => {
            let ghost pv = pairs_view(pairs@);
            let mut k: usize = 0;
            while k < pairs.len()
                invariant
                    k <= pairs.len(),
                    pv == pairs_view(pairs@),
                    port_pairs_spec(outs@, ins@, source@, sink@) == Ok::<
                        Seq<(Seq<char>, Seq<char>)>,
                        PortPairError,
                    >(pv),
                    forall|j: int|
                        0 <= j < k ==> linked_from(
                            trimmed_lines(links@),
                            #[trigger] pv[j].0,
                            pv[j].1,
                            None,
                        ),
                decreases pairs.len() - k,
            {
                if !pair_linked_in_listing(links, pairs[k].0.as_str(), pairs[k].1.as_str()) {
                    assert(pv[k as int] == (pairs@[k as int].0@, pairs@[k as int].1@));
                    assert(!linked_from(trimmed_lines(links@), pv[k as int].0, pv[k as int].1, None));
                    assert(!link_is_live_spec(outs@, ins@, links@, source@, sink@)) by {
                        let pairs = port_pairs_spec(outs@, ins@, source@, sink@)->Ok_0;
                        assert(pairs == pv);
                        assert(!linked_from(trimmed_lines(links@), pairs[k as int].0, pairs[k as int].1, None));
                    }
                    return false;
                }
                assert(pv[k as int] == (pairs@[k as int].0@, pairs@[k as int].1@));
                k += 1;
            }
            true
        },
    }
}

/// What a CLI unlink of a hop does: the Pulse loopback modules to unload and
/// the port pairs to disconnect with `pw-link -d`.
#[derive(Debug)]
pub struct CliUnlink {
    pub unload_modules: Vec<String>,
    pub disconnect: Vec<(String, String)>,
}

/// Unlink the hop `source → sink` through the CLI: when BusChain owns the
/// hop, its loopback modules in the `pactl list short modules` listing are
/// unloaded; every stereo port pair of the hop (from the `pw-link -o` / `-i`
/// listings; none when the ports cannot be paired) is disconnected; and the
/// hop is no longer owned.
pub fn unlink(
    owned: &mut crate::modules::OwnedLinks,
    modules: &str,
    outs: &str,
    ins: &str,
    source: &str,
    sink: &str,
) -> (r: CliUnlink)
    ensures
        strs_view(r.unload_modules@) == (if crate::modules::owned_view(*old(owned)).contains((source@, sink@)) {
            crate::modules::chosen(lines_spec(modules@), crate::modules::hop_pick(source@, sink@))
        } else {
            Seq::<Seq<char>>::empty()
        }),
        pairs_view(r.disconnect@) == match port_pairs_spec(outs@, ins@, source@, sink@) {
            Ok(v) => v,
            Err(_) => Seq::<(Seq<char>, Seq<char>)>::empty(),
        },
        crate::modules::owned_view(*final(owned)) == crate::modules::owned_view(*old(owned)).remove(
            (source@, sink@),
        ),
{
    let unload_modules = crate::modules::unload_legacy_loopback(owned, modules, source, sink);
    let disconnect = match port_pairs(outs, ins, source, sink) {
        Ok(v) => v,
        Err(_) => {
            let e: Vec<(String, String)> = Vec::new();
            assert(pairs_view(e@) =~= Seq::<(Seq<char>, Seq<char>)>::empty());
            e
        },
    };
    owned.remove(source, sink);
    proof {
        let o = crate::modules::owned_view(*old(owned));
        if !o.contains((source@, sink@)) {
            assert(strs_view(unload_modules@) =~= Seq::<Seq<char>>::empty());
            assert(o.remove((source@, sink@)) =~= o);
        } else {
            assert(o.remove((source@, sink@)).remove((source@, sink@)) =~= o.remove((source@, sink@)));
        }
    }
    CliUnlink { unload_modules, disconnect }
}

} // verus!
