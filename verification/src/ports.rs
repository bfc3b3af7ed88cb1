//! Resolve Pulse-style endpoints to PipeWire port id pairs from the registry
//! snapshot.
use vstd::prelude::*;

use crate::graph::{GraphView, PortDir, PortRec};
use crate::link::{is_monitor_source, pw_node};
use crate::text::{
    concat, concat3, contains, ends_with, eq_ignore_ascii_case, eq_ignore_case, has_infix,
    has_suffix, lowercase, to_lowercase, without_suffix,
};

verus! {

/// `ch:name`, lowercased.
pub open spec fn channel_label(ch: Seq<char>, name: Seq<char>) -> Seq<char> {
    lowercase(ch + ":"@ + name)
}

/// The port carries the front-left channel.
pub open spec fn channel_is_fl_spec(ch: Seq<char>, name: Seq<char>) -> bool {
    crate::link::lower_left(channel_label(ch, name)) || eq_ignore_ascii_case(ch, "FL"@)
}

/// The port carries the front-right channel.
pub open spec fn channel_is_fr_spec(ch: Seq<char>, name: Seq<char>) -> bool {
    crate::link::lower_right(channel_label(ch, name)) || eq_ignore_ascii_case(ch, "FR"@)
}

fn channel_is_fl(ch: &str, name: &str) -> (r: bool)
    ensures
        r == channel_is_fl_spec(ch@, name@),
{
    let pl = to_lowercase(concat3(ch, ":", name).as_str());
    crate::link::lowered_left(pl.as_str()) || eq_ignore_case(ch, "FL")
}

fn channel_is_fr(ch: &str, name: &str) -> (r: bool)
    ensures
        r == channel_is_fr_spec(ch@, name@),
{
    let pl = to_lowercase(concat3(ch, ":", name).as_str());
    crate::link::lowered_right(pl.as_str()) || eq_ignore_case(ch, "FR")
}

/// The port is skipped when picking: a playback/input port when monitors are
/// preferred, a monitor port otherwise.
pub open spec fn skipped(p: PortRec, prefer_monitor: bool) -> bool {
    !crate::link::lower_class_ok(lowercase(p.name@), prefer_monitor)
}

/// Indices of the first left and first right port among the first `k`
/// ports, a port counting as right only when it is not taken as left.
pub open spec fn lr_scan(ps: Seq<PortRec>, prefer_monitor: bool, k: nat) -> (Option<int>, Option<int>)
    decreases k,
{
    if k == 0 {
        (None, None)
    } else {
        let (fl, fr) = lr_scan(ps, prefer_monitor, (k - 1) as nat);
        let p = ps[k - 1];
        if skipped(p, prefer_monitor) {
            (fl, fr)
        } else if channel_is_fl_spec(p.channel@, p.name@) && fl is None {
            (Some(k - 1), fr)
        } else if channel_is_fr_spec(p.channel@, p.name@) && fr is None {
            (fl, Some(k - 1))
        } else {
            (fl, fr)
        }
    }
}

/// The left/right pick: the scan's ports, or the first two ports when the
/// scan misses a side.
pub open spec fn pick_lr_spec(ps: Seq<PortRec>, prefer_monitor: bool) -> Option<(int, int)> {
    let (fl, fr) = lr_scan(ps, prefer_monitor, ps.len());
    if fl is None || fr is None {
        if ps.len() >= 2 {
            Some((0, 1))
        } else {
            None
        }
    } else {
        Some((fl->0, fr->0))
    }
}

fn pick_lr(ports: &Vec<&PortRec>, prefer_monitor: bool) -> (r: Option<(usize, usize)>)
    ensures
        match (r, pick_lr_spec(ports@.map_values(|p: &PortRec| *p), prefer_monitor)) {
            (Some((a, b)), Some((x, y))) => a == x && b == y,
            (None, None) => true,
            _ => false,
        },
{
    let ghost ps = ports@.map_values(|p: &PortRec| *p);
    let mut fl: Option<usize> = None;
    let mut fr: Option<usize> = None;
    let mut i: usize = 0;
    while i < ports.len()
        invariant
            i <= ports.len(),
            ps == ports@.map_values(|p: &PortRec| *p),
            ({
                let (a, b) = lr_scan(ps, prefer_monitor, i as nat);
                &&& (match fl {
                    Some(x) => a == Some(x as int),
                    None => a is None,
                })
                &&& (match fr {
                    Some(x) => b == Some(x as int),
                    None => b is None,
                })
                &&& (fl matches Some(x) ==> x < i)
                &&& (fr matches Some(x) ==> x < i)
            }),
        decreases ports.len() - i,
    {
        let p = ports[i];
        assert(ps[i as int] == *p);
        let pl = to_lowercase(p.name.as_str());
        let skip = !crate::link::lowered_class_ok(pl.as_str(), prefer_monitor);
        if !skip {
            if channel_is_fl(p.channel.as_str(), p.name.as_str()) && fl.is_none() {
                fl = Some(i);
            } else if channel_is_fr(p.channel.as_str(), p.name.as_str()) && fr.is_none() {
                fr = Some(i);
            }
        }
        i += 1;
    }
    match (fl, fr) {
        (Some(a), Some(b)) => Some((a, b)),
        _ => {
            if ports.len() >= 2 {
                Some((0, 1))
            } else {
                None
            }
        },
    }
}

/// Why no port pair could be resolved.
#[derive(Debug)]
pub enum PortPairError {
    /// No registry node for the endpoint.
    NoNode { node: String, endpoint: String },
    /// The source node has no output ports.
    NoOutputPorts(String),
    /// The sink node has no input ports.
    NoInputPorts(String),
    /// No left/right outputs could be picked on the source node.
    NoOutputPair(String),
    /// No left/right inputs could be picked on the sink node.
    NoInputPair(String),
}

impl PortPairError {
    /// The error text.
    pub fn message(&self) -> (r: String)
        ensures
            r@ == match self {
                PortPairError::NoNode { node, endpoint } => "no PW node `"@ + node@ + "` (from `"@
                    + endpoint@ + "`)"@,
                PortPairError::NoOutputPorts(n) => "no PW output ports for node `"@ + n@ + "`"@,
                PortPairError::NoInputPorts(n) => "no PW input ports for node `"@ + n@ + "`"@,
                PortPairError::NoOutputPair(n) => "could not pick L/R outputs on `"@ + n@ + "`"@,
                PortPairError::NoInputPair(n) => "could not pick L/R inputs on `"@ + n@ + "`"@,
            },
    {
        match self {
            PortPairError::NoNode { node, endpoint } => {
                let a = concat3("no PW node `", node.as_str(), "` (from `");
                concat3(a.as_str(), endpoint.as_str(), "`)")
            },
            PortPairError::NoOutputPorts(n) => concat3("no PW output ports for node `", n.as_str(), "`"),
            PortPairError::NoInputPorts(n) => concat3("no PW input ports for node `", n.as_str(), "`"),
            PortPairError::NoOutputPair(n) => concat3("could not pick L/R outputs on `", n.as_str(), "`"),
            PortPairError::NoInputPair(n) => concat3("could not pick L/R inputs on `", n.as_str(), "`"),
        }
    }
}

/// Ports going out (or of unknown direction).
pub open spec fn out_ports(ps: Seq<PortRec>) -> Seq<PortRec>
    decreases ps.len(),
{
    if ps.len() == 0 {
        ps
    } else {
        let r = out_ports(ps.drop_last());
        if ps.last().direction == PortDir::Out || ps.last().direction == PortDir::Unknown {
            r.push(ps.last())
        } else {
            r
        }
    }
}

/// Ports coming in (or of unknown direction).
pub open spec fn in_ports(ps: Seq<PortRec>) -> Seq<PortRec>
    decreases ps.len(),
{
    if ps.len() == 0 {
        ps
    } else {
        let r = in_ports(ps.drop_last());
        if ps.last().direction == PortDir::In || ps.last().direction == PortDir::Unknown {
            r.push(ps.last())
        } else {
            r
        }
    }
}

fn filter_dir<'a>(ports: &Vec<&'a PortRec>, outgoing: bool) -> (r: Vec<&'a PortRec>)
    ensures
        r@.map_values(|p: &PortRec| *p) == (if outgoing {
            out_ports(ports@.map_values(|p: &PortRec| *p))
        } else {
            in_ports(ports@.map_values(|p: &PortRec| *p))
        }),
{
    let ghost ps = ports@.map_values(|p: &PortRec| *p);
    let mut r: Vec<&PortRec> = Vec::new();
    let mut i: usize = 0;
    assert(ps.take(0) =~= Seq::<PortRec>::empty());
    assert(r@.map_values(|p: &PortRec| *p) =~= Seq::<PortRec>::empty());
    while i < ports.len()
        invariant
            i <= ports.len(),
            ps == ports@.map_values(|p: &PortRec| *p),
            r@.map_values(|p: &PortRec| *p) == (if outgoing {
                out_ports(ps.take(i as int))
            } else {
                in_ports(ps.take(i as int))
            }),
        decreases ports.len() - i,
    {
        let p = ports[i];
        assert(ps.take(i + 1).drop_last() =~= ps.take(i as int));
        assert(ps.take(i + 1).last() == *p);
        let keep = if outgoing {
            p.direction == PortDir::Out || p.direction == PortDir::Unknown
        } else {
            p.direction == PortDir::In || p.direction == PortDir::Unknown
        };
        if keep {
            r.push(p);
        }
        assert(r@.map_values(|p: &PortRec| *p) =~= (if outgoing {
            out_ports(ps.take(i + 1))
        } else {
            in_ports(ps.take(i + 1))
        }));
        i += 1;
    }
    assert(ps.take(ports.len() as int) =~= ps);
    r
}

/// What `port_id_pairs` answers, stated over the registry snapshot.
pub open spec fn port_id_pairs_spec(view: GraphView, source: Seq<char>, sink: Seq<char>) -> Result<
    Seq<(u32, u32)>,
    PortPairKind,
> {
    let src_name = without_suffix(source, ".monitor"@);
    let dst_name = without_suffix(sink, ".monitor"@);
    if !view.nodes_by_name@.contains_key(src_name) {
        Err(PortPairKind::NoSourceNode)
    } else if !view.nodes_by_name@.contains_key(dst_name) {
        Err(PortPairKind::NoSinkNode)
    } else {
        let sp = out_ports(view.ports_of_spec(view.nodes_by_name@[src_name]));
        let dp = in_ports(view.ports_of_spec(view.nodes_by_name@[dst_name]));
        if sp.len() == 0 {
            Err(PortPairKind::NoOutputPorts)
        } else if dp.len() == 0 {
            Err(PortPairKind::NoInputPorts)
        } else {
            let prefer = has_suffix(source, ".monitor"@) || exists|i: int|
                0 <= i < sp.len() && has_infix(#[trigger] sp[i].name@, "monitor"@);
            match pick_lr_spec(sp, prefer) {
                None => Err(PortPairKind::NoOutputPair),
                Some((sl, sr)) => match pick_lr_spec(dp, false) {
                    None => Err(PortPairKind::NoInputPair),
                    Some((dl, dr)) => Ok(seq![(sp[sl].id, dp[dl].id), (sp[sr].id, dp[dr].id)]),
                },
            }
        }
    }
}

/// The kind of a `PortPairError`.
#[derive(PartialEq, Eq, Structural)]
pub enum PortPairKind {
    NoSourceNode,
    NoSinkNode,
    NoOutputPorts,
    NoInputPorts,
    NoOutputPair,
    NoInputPair,
}

/// The kind of an error, with the names it carries.
pub open spec fn error_matches(e: PortPairError, k: PortPairKind, source: Seq<char>, sink: Seq<char>) -> bool {
    let src_name = without_suffix(source, ".monitor"@);
    let dst_name = without_suffix(sink, ".monitor"@);
    match k {
        PortPairKind::NoSourceNode => e matches PortPairError::NoNode { node, endpoint } && node@ == src_name
            && endpoint@ == source,
        PortPairKind::NoSinkNode => e matches PortPairError::NoNode { node, endpoint } && node@ == dst_name
            && endpoint@ == sink,
        PortPairKind::NoOutputPorts => e matches PortPairError::NoOutputPorts(n) && n@ == src_name,
        PortPairKind::NoInputPorts => e matches PortPairError::NoInputPorts(n) && n@ == dst_name,
        PortPairKind::NoOutputPair => e matches PortPairError::NoOutputPair(n) && n@ == src_name,
        PortPairKind::NoInputPair => e matches PortPairError::NoInputPair(n) && n@ == dst_name,
    }
}

/// Stereo `(out_port_id, in_port_id)` pairs for Pulse `source` → `sink`.
pub fn port_id_pairs(view: &GraphView, source: &str, sink: &str) -> (r: Result<Vec<(u32, u32)>, PortPairError>)
    requires
        view.wf(),
    ensures
        match (r, port_id_pairs_spec(*view, source@, sink@)) {
            (Ok(v), Ok(s)) => v@ == s,
            (Err(e), Err(k)) => error_matches(e, k, source@, sink@),
            _ => false,
        },
{
    let src_name = pw_node(source);
    let dst_name = pw_node(sink);
    let src_id = match view.node_id(src_name.as_str()) {
        Some(id) => id,
        None => return Err(PortPairError::NoNode { node: src_name, endpoint: crate::text::own(source) }),
    };
    let dst_id = match view.node_id(dst_name.as_str()) {
        Some(id) => id,
        None => return Err(PortPairError::NoNode { node: dst_name, endpoint: crate::text::own(sink) }),
    };
    let all_src = view.ports_of(src_id);
    let all_dst = view.ports_of(dst_id);
    let src_ports = filter_dir(&all_src, true);
    let dst_ports = filter_dir(&all_dst, false);
    let ghost sp = src_ports@.map_values(|p: &PortRec| *p);
    let ghost dp = dst_ports@.map_values(|p: &PortRec| *p);
    if src_ports.len() == 0 {
        return Err(PortPairError::NoOutputPorts(src_name));
    }
    if dst_ports.len() == 0 {
        return Err(PortPairError::NoInputPorts(dst_name));
    }
    let mut any_monitor = false;
    let mut i: usize = 0;
    while i < src_ports.len()
        invariant
            i <= src_ports.len(),
            sp == src_ports@.map_values(|p: &PortRec| *p),
            any_monitor == exists|j: int| 0 <= j < i && has_infix(#[trigger] sp[j].name@, "monitor"@),
        decreases src_ports.len() - i,
    {
        assert(sp[i as int] == *src_ports@[i as int]);
        any_monitor = any_monitor || contains(src_ports[i].name.as_str(), "monitor");
        i += 1;
    }
    let prefer = is_monitor_source(source) || any_monitor;
    let (sl, sr) = match pick_lr(&src_ports, prefer) {
        Some(x) => x,
        None => return Err(PortPairError::NoOutputPair(src_name)),
    };
    let (dl, dr) = match pick_lr(&dst_ports, false) {
        Some(x) => x,
        None => return Err(PortPairError::NoInputPair(dst_name)),
    };
    proof {
        lemma_pick_in_range(sp, prefer);
        lemma_pick_in_range(dp, false);
    }
    assert(sp[sl as int] == *src_ports@[sl as int]);
    assert(sp[sr as int] == *src_ports@[sr as int]);
    assert(dp[dl as int] == *dst_ports@[dl as int]);
    assert(dp[dr as int] == *dst_ports@[dr as int]);
    let v = vec![(src_ports[sl].id, dst_ports[dl].id), (src_ports[sr].id, dst_ports[dr].id)];
    assert(v@ =~= seq![(sp[sl as int].id, dp[dl as int].id), (sp[sr as int].id, dp[dr as int].id)]);
    Ok(v)
}

proof fn lemma_scan_in_range(ps: Seq<PortRec>, prefer_monitor: bool, k: nat)
    requires
        k <= ps.len(),
    ensures
        lr_scan(ps, prefer_monitor, k).0 matches Some(x) ==> 0 <= x < k,
        lr_scan(ps, prefer_monitor, k).1 matches Some(x) ==> 0 <= x < k,
    decreases k,
{
    if k > 0 {
        lemma_scan_in_range(ps, prefer_monitor, (k - 1) as nat);
    }
}

proof fn lemma_pick_in_range(ps: Seq<PortRec>, prefer_monitor: bool)
    ensures
        pick_lr_spec(ps, prefer_monitor) matches Some((a, b)) ==> 0 <= a < ps.len() && 0 <= b < ps.len(),
{
    lemma_scan_in_range(ps, prefer_monitor, ps.len());
}

/// Both stereo links of `source` → `sink` are in the registry.
pub open spec fn link_is_live_spec(view: GraphView, source: Seq<char>, sink: Seq<char>) -> bool {
    match port_id_pairs_spec(view, source, sink) {
        Ok(pairs) => forall|k: int| 0 <= k < pairs.len() ==> view.links_by_ports@.contains_key(
            #[trigger] pairs[k],
        ),
        Err(_) => false,
    }
}

/// Whether the stereo links of `source` → `sink` are all live.
pub fn link_is_live(view: &GraphView, source: &str, sink: &str) -> (r: bool)
    requires
        view.wf(),
    ensures
        r == link_is_live_spec(*view, source@, sink@),
{
    let pairs = match port_id_pairs(view, source, sink) {
        Ok(p) => p,
        Err(_) => return false,
    };
    let ghost spec = port_id_pairs_spec(*view, source@, sink@);
    assert(spec == Ok::<Seq<(u32, u32)>, PortPairKind>(pairs@));
    let mut i: usize = 0;
    while i < pairs.len()
        invariant
            i <= pairs.len(),
            view.wf(),
            spec == port_id_pairs_spec(*view, source@, sink@),
            spec == Ok::<Seq<(u32, u32)>, PortPairKind>(pairs@),
            forall|k: int| 0 <= k < i ==> view.links_by_ports@.contains_key(#[trigger] pairs@[k]),
        decreases pairs.len() - i,
    {
        if !view.link_exists(pairs[i].0, pairs[i].1) {
            assert(pairs@[i as int] == (pairs[i as int].0, pairs[i as int].1));
            assert(!view.links_by_ports@.contains_key(pairs@[i as int]));
            assert(!(forall|k: int| 0 <= k < pairs@.len() ==> view.links_by_ports@.contains_key(#[trigger] pairs@[k])));
            assert(port_id_pairs_spec(*view, source@, sink@) is Ok);
            assert(port_id_pairs_spec(*view, source@, sink@)->Ok_0 == pairs@);
            assert(!link_is_live_spec(*view, source@, sink@));
            return false;
        }
        i += 1;
    }
    true
}

} // verus!
