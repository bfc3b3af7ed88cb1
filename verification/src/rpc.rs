//! What the control plane's requests decide on the registry snapshot: which
//! global a destroy removes, which metadata a default-sink change or a stream
//! retarget writes. The PipeWire thread performs the writes they return.
use vstd::prelude::*;

use crate::contract::ClockProps;
use crate::domain::{NodeRole, NodeSpec};
use crate::graph::{GraphView, LinkRec, NodeRec, PortRec, StreamProps};
use crate::session::{feeds, links_between, stream_ids_scan, stream_ids_on_sink};
use crate::probe::{lemma_first_occ, segment_after};
use crate::text::{has_prefix, str_eq, without_suffix, lemma_first_char, occurs_at, concat3, opt_view, own, push_char, to_chars, u32_to_string, decimal};

verus! {

/// A fresh, empty registry view (the engine shares one behind a lock).
pub fn new_shared() -> (r: GraphView)
    ensures
        r.wf(),
        r.generation == 0,
        r.nodes_by_id@ == Map::<u32, NodeRec>::empty(),
        r.nodes_by_name@ == Map::<Seq<char>, u32>::empty(),
        r.ports_by_id@ == Map::<u32, PortRec>::empty(),
        r.links_by_id@ == Map::<u32, LinkRec>::empty(),
        r.links_by_ports@ == Map::<(u32, u32), u32>::empty(),
        r.stream_props_by_id@ == Map::<u32, StreamProps>::empty(),
        r.default_audio_sink is None,
{
    GraphView::default()
}

/// The message of a request naming a node the registry does not know.
pub open spec fn missing_node_msg(name: Seq<char>) -> Seq<char> {
    "node `"@ + name + "` not in registry"@
}

/// The global a `destroy_node(name)` request removes: the id of the node
/// named `name`, or the error when the registry does not know it.
pub fn destroy_node(g: &GraphView, name: &str) -> (r: Result<u32, String>)
    requires
        g.wf(),
    ensures
        match r {
            Ok(id) => g.nodes_by_name@.contains_key(name@) && id == g.nodes_by_name@[name@],
            Err(e) => !g.nodes_by_name@.contains_key(name@) && e@ == missing_node_msg(name@),
        },
{
    match g.node_id(name) {
        Some(id) => Ok(id),
        None => Err(concat3("node `", name, "` not in registry")),
    }
}

/// `s` without its `"` characters.
pub open spec fn drop_quotes(s: Seq<char>) -> Seq<char>
    decreases s.len(),
{
    if s.len() == 0 {
        s
    } else if s.last() == '"' {
        drop_quotes(s.drop_last())
    } else {
        drop_quotes(s.drop_last()).push(s.last())
    }
}

/// The `default.audio.sink` metadata value naming `name`.
pub open spec fn default_sink_json(name: Seq<char>) -> Seq<char> {
    "{\"name\":\""@ + drop_quotes(name) + "\"}"@
}

proof fn lemma_drop_quotes(s: Seq<char>)
    ensures
        !drop_quotes(s).contains('"'),
    decreases s.len(),
{
    if s.len() > 0 {
        lemma_drop_quotes(s.drop_last());
        let t = drop_quotes(s.drop_last());
        if s.last() != '"' {
            assert forall|i: int| 0 <= i < t.push(s.last()).len() implies t.push(s.last())[i] != '"' by {
                if i < t.len() {
                    assert(t.push(s.last())[i] == t[i]);
                }
            }
        }
    }
}

/// The default-sink value written for `name` reads back, by the loose
/// reading of a metadata value, as `name` without its quotes. (When that is
/// the word `name` itself, the value holds a second `"name"` that cuts the
/// loose reading short, so that input is left out.)
pub proof fn law_default_sink_value_reads_back(name: Seq<char>)
    requires
        drop_quotes(name) != "name"@,
    ensures
        crate::session::loose_name(default_sink_json(name)) == Some(drop_quotes(name)),
{
    reveal_strlit("\"name\"");
    reveal_strlit("{\"name\":\"");
    reveal_strlit("\"}");
    reveal_strlit("name");
    reveal(segment_after);
    let x = drop_quotes(name);
    let n = x.len() as int;
    lemma_drop_quotes(name);
    let pat = "\"name\""@;
    let v = default_sink_json(name);
    assert(v.len() == n + 11);
    assert(v.subrange(1, 7) =~= pat);
    assert(occurs_at(v, pat, 1));
    assert(!occurs_at(v, pat, 0)) by {
        if occurs_at(v, pat, 0) {
            assert(v.subrange(0, 6)[0] == v[0]);
        }
    }
    lemma_first_occ(v, pat, Some(1usize), 0);
    let rest = v.subrange(7, v.len() as int);
    assert(rest =~= seq![':', '"'] + x + seq!['"', '}']);
    assert forall|k: int| 0 <= k < rest.len() && rest[k] == '"' implies k == 1 || k == n + 2 by {
        if 2 <= k < n + 2 {
            assert(rest[k] == x[k - 2]);
            assert(x.contains(rest[k]));
        }
    }
    assert forall|j: int| 0 <= j implies !occurs_at(rest, pat, j) by {
        if occurs_at(rest, pat, j) {
            assert(rest.subrange(j, j + 6)[0] == rest[j]);
            assert(rest.subrange(j, j + 6)[5] == rest[j + 5]);
            assert(rest[j] == '"');
            assert(rest[j + 5] == '"');
            assert(j == 1);
            assert(n == 4);
            assert(x =~= "name"@) by {
                assert forall|i: int| 0 <= i < 4 implies x[i] == "name"@[i] by {
                    assert(rest[i + 2] == x[i]);
                    assert(rest.subrange(j, j + 6)[i + 1] == rest[i + 2]);
                }
            }
        }
    }
    lemma_first_occ(rest, pat, None, 0);
    assert(segment_after(v, pat) == Some(rest));
    let b = x + seq!['"', '}'];
    assert(rest =~= seq![':'].push('"') + b);
    lemma_first_char(rest, '"', seq![':'], b);
    let tail = rest.subrange(2, rest.len() as int);
    assert(tail =~= b);
    assert(tail =~= x.push('"') + seq!['}']);
    lemma_first_char(tail, '"', x, seq!['}']);
}

/// Everything of the snapshot but the cached default sink is as in `b`.
pub open spec fn same_but_default(a: GraphView, b: GraphView) -> bool {
    &&& a.generation == b.generation
    &&& a.nodes_by_id@ == b.nodes_by_id@
    &&& a.nodes_by_name@ == b.nodes_by_name@
    &&& a.ports_by_id@ == b.ports_by_id@
    &&& a.ports_by_node@ == b.ports_by_node@
    &&& a.links_by_id@ == b.links_by_id@
    &&& a.links_by_ports@ == b.links_by_ports@
    &&& a.stream_props_by_id@ == b.stream_props_by_id@
    &&& a.link_factory == b.link_factory
}

/// What a default-sink change leaves behind: with session metadata bound, the
/// value written and a cache that names the new sink; without it, nothing.
pub open spec fn default_sink_set(
    before: GraphView,
    after: GraphView,
    metadata_bound: bool,
    name: Seq<char>,
    written: Option<Seq<char>>,
) -> bool {
    if metadata_bound {
        &&& written == Some(default_sink_json(name))
        &&& opt_view(after.default_audio_sink) == Some(name)
        &&& same_but_default(after, before)
    } else {
        &&& written is None
        &&& after == before
    }
}

/// Make `name` the default sink. With session metadata bound, returns the
/// value to write under `default.audio.sink` (subject 0, type
/// `Spa:String:JSON`) and caches `name` as the default (optimistically: the
/// caller verifies through Pulse); without metadata nothing is due.
pub fn set_default_sink(g: &mut GraphView, metadata_bound: bool, name: &str) -> (r: Option<String>)
    ensures
        default_sink_set(*old(g), *final(g), metadata_bound, name@, opt_view(r)),
        old(g).wf() ==> final(g).wf(),
{
    if !metadata_bound {
        return None;
    }
    let x = to_chars(name);
    let mut json = own("{\"name\":\"");
    let ghost head = json@;
    let mut i: usize = 0;
    while i < x.len()
        invariant
            i <= x.len(),
            x@ == name@,
            json@ == head + drop_quotes(name@.take(i as int)),
        decreases x.len() - i,
    {
        assert(name@.take(i + 1).drop_last() =~= name@.take(i as int));
        assert(name@.take(i + 1).last() == x@[i as int]);
        if x[i] != '"' {
            push_char(&mut json, x[i]);
        }
        i += 1;
    }
    assert(name@.take(x.len() as int) =~= name@);
    push_char(&mut json, '"');
    push_char(&mut json, '}');
    proof {
        reveal_strlit("\"}");
    }
    assert(json@ =~= default_sink_json(name@));
    g.default_audio_sink = Some(own(name));
    Some(json)
}

/// After a default-sink change with session metadata bound, the cached
/// default sink (what `default_sink_name` answers) is the sink that was set.
pub proof fn law_default_sink_cached(before: GraphView, after: GraphView, name: Seq<char>, written: Option<Seq<char>>)
    requires
        default_sink_set(before, after, true, name, written),
    ensures
        opt_view(after.default_audio_sink) == Some(name),
        written == Some(default_sink_json(name)),
{
}

/// The metadata writes that pin stream `stream_id` onto the sink `sink_name`
/// (id `sink_id`): `target.object` names the sink (it resolves by name or
/// serial, never by id), the legacy `target.node` carries its id. Each entry
/// is (subject, key, type, value).
pub fn target_writes(stream_id: u32, sink_id: u32, sink_name: &str) -> (r: Vec<(u32, String, String, String)>)
    ensures
        r@.len() == 2,
        r@[0].0 == stream_id && r@[0].1@ == "target.object"@ && r@[0].2@ == "Spa:String"@ && r@[0].3@
            == sink_name@,
        r@[1].0 == stream_id && r@[1].1@ == "target.node"@ && r@[1].2@ == "Spa:Id"@ && r@[1].3@
            == decimal(sink_id as nat),
{
    let mut out: Vec<(u32, String, String, String)> = Vec::new();
    out.push((stream_id, own("target.object"), own("Spa:String"), own(sink_name)));
    out.push((stream_id, own("target.node"), own("Spa:Id"), u32_to_string(sink_id)));
    out
}

/// The message of a retarget onto a sink the registry does not know.
pub open spec fn missing_target_msg(name: Seq<char>) -> Seq<char> {
    "retarget: sink `"@ + name + "` not in registry"@
}

/// The streams feeding `sink` by the registry's links (none when the sink is
/// unknown), as `stream_ids_on_sink` lists them.
pub open spec fn streams_on(g: GraphView, sink: Seq<char>) -> Seq<u32> {
    if g.nodes_by_name@.contains_key(sink) {
        stream_ids_scan(g.links_by_id.entries(), g.nodes_by_id@, g.nodes_by_name@[sink], g.links_by_id.entries().len())
    } else {
        Seq::empty()
    }
}

/// Move every stream feeding `from_sink` onto `to_sink`: the target sink's id
/// and the streams to pin onto it (each by `target_writes`; none when no
/// session metadata is bound, as no write can land). The reply counts them.
pub fn retarget_streams(g: &GraphView, metadata_bound: bool, from_sink: &str, to_sink: &str) -> (r: Result<
    (u32, Vec<u32>),
    String,
>)
    requires
        g.wf(),
    ensures
        match r {
            Ok((to_id, streams)) => g.nodes_by_name@.contains_key(to_sink@) && to_id == g.nodes_by_name@[to_sink@]
                && streams@ == (if metadata_bound {
                streams_on(*g, from_sink@)
            } else {
                Seq::empty()
            }),
            Err(e) => !g.nodes_by_name@.contains_key(to_sink@) && e@ == missing_target_msg(to_sink@),
        },
{
    let to_id = match g.node_id(to_sink) {
        Some(id) => id,
        None => return Err(concat3("retarget: sink `", to_sink, "` not in registry")),
    };
    if !metadata_bound {
        return Ok((to_id, Vec::new()));
    }
    Ok((to_id, stream_ids_on_sink(g, from_sink)))
}

/// What a retarget of one stream by serial comes to.
#[derive(Debug, PartialEq, Eq)]
pub enum SerialRetarget {
    /// No stream carries the serial (reply `false`).
    NoStream,
    /// The stream already feeds the target; rewriting `target.*` would make
    /// some clients stall (reply `true`).
    AlreadyLinked,
    /// Pin the stream by `target_writes` (reply: whether metadata is bound).
    Pin { stream_id: u32, sink_id: u32 },
}

/// Some registry node carries `serial` and has record id `stream_id`.
pub open spec fn serial_node(g: GraphView, serial: u32, stream_id: u32) -> bool {
    exists|id: u32|
        #![trigger g.nodes_by_id@[id]]
        g.nodes_by_id@.contains_key(id) && g.nodes_by_id@[id].serial == Some(serial) && g.nodes_by_id@[id].id
            == stream_id
}

/// Retarget the stream whose `object.serial` is `serial` onto `to_sink`.
pub fn retarget_stream_serial(g: &GraphView, serial: u32, to_sink: &str) -> (r: Result<SerialRetarget, String>)
    requires
        g.wf(),
    ensures
        match r {
            Err(e) => !g.nodes_by_name@.contains_key(to_sink@) && e@ == missing_target_msg(to_sink@),
            Ok(SerialRetarget::NoStream) => g.nodes_by_name@.contains_key(to_sink@) && forall|id: u32|
                #[trigger] g.nodes_by_id@.contains_key(id) ==> g.nodes_by_id@[id].serial != Some(serial),
            Ok(SerialRetarget::AlreadyLinked) => g.nodes_by_name@.contains_key(to_sink@) && exists|sid: u32|
                serial_node(*g, serial, sid) && #[trigger] feeds(*g, sid, g.nodes_by_name@[to_sink@]),
            Ok(SerialRetarget::Pin { stream_id, sink_id }) => g.nodes_by_name@.contains_key(to_sink@) && sink_id
                == g.nodes_by_name@[to_sink@] && serial_node(*g, serial, stream_id) && !feeds(*g, stream_id, sink_id),
        },
{
    let to_id = match g.node_id(to_sink) {
        Some(id) => id,
        None => return Err(concat3("retarget: sink `", to_sink, "` not in registry")),
    };
    let stream = match g.node_by_serial(serial) {
        Some(n) => n,
        None => return Ok(SerialRetarget::NoStream),
    };
    let sid = stream.id;
    proof {
        let id0 = choose|id: u32| #![trigger g.nodes_by_id@[id]] g.nodes_by_id@.contains_key(id) && g.nodes_by_id@[id] == *stream;
        assert(g.nodes_by_id@[id0].serial == Some(serial));
        assert(serial_node(*g, serial, sid));
    }
    if links_between(g, sid, to_id) {
        return Ok(SerialRetarget::AlreadyLinked);
    }
    Ok(SerialRetarget::Pin { stream_id: sid, sink_id: to_id })
}


/// One link to create for a hop: between the two nodes' port pair,
/// replacing the live link of that pair when there is one.
#[derive(Debug, PartialEq, Eq)]
pub struct LinkCreate {
    /// The live link of the same port pair, destroyed first.
    pub replace: Option<u32>,
    pub out_node: u32,
    pub out_port: u32,
    pub in_node: u32,
    pub in_port: u32,
}

/// What a native link request comes to.
#[derive(Debug)]
pub enum NativeLinkPlan {
    /// The stereo links are already live.
    Live,
    /// Create these links with the registry's link factory.
    Create { factory: String, links: Vec<LinkCreate> },
}

/// Why a native link request cannot proceed.
#[derive(Debug)]
pub enum NativeLinkError {
    /// The registry has not shown a link factory yet.
    NoFactory,
    /// No stereo port pairs for the hop.
    Ports(crate::ports::PortPairError),
}

/// The link of pair `p` between `src` and `dst`, replacing the live one.
pub open spec fn planned_link(g: GraphView, p: (u32, u32), src: u32, dst: u32) -> LinkCreate {
    LinkCreate {
        replace: if g.links_by_ports@.contains_key(p) {
            Some(g.links_by_ports@[p])
        } else {
            None
        },
        out_node: src,
        out_port: p.0,
        in_node: dst,
        in_port: p.1,
    }
}

/// Plan the stereo links `source → sink` in the registry: nothing when they
/// are live; otherwise one link per port pair (each replacing a stale link of
/// its pair), once the registry has shown its link factory.
pub fn ensure_link_plan(g: &GraphView, source: &str, sink: &str) -> (r: Result<NativeLinkPlan, NativeLinkError>)
    requires
        g.wf(),
    ensures
        crate::ports::link_is_live_spec(*g, source@, sink@) ==> r matches Ok(NativeLinkPlan::Live),
        !crate::ports::link_is_live_spec(*g, source@, sink@) ==> match g.link_factory {
            None => r matches Err(NativeLinkError::NoFactory),
            Some(f) => match crate::ports::port_id_pairs_spec(*g, source@, sink@) {
                Err(k) => r matches Err(NativeLinkError::Ports(e)) && crate::ports::error_matches(e, k, source@, sink@),
                Ok(pairs) => r matches Ok(NativeLinkPlan::Create { factory, links }) && factory@ == f@
                    && links@.len() == pairs.len() && forall|k: int|
                    0 <= k < pairs.len() ==> #[trigger] links@[k] == planned_link(
                        *g,
                        pairs[k],
                        g.nodes_by_name@[without_suffix(source@, ".monitor"@)],
                        g.nodes_by_name@[without_suffix(sink@, ".monitor"@)],
                    ),
            },
        },
{
    if crate::ports::link_is_live(g, source, sink) {
        return Ok(NativeLinkPlan::Live);
    }
    let factory = match &g.link_factory {
        Some(f) => own(f.as_str()),
        None => return Err(NativeLinkError::NoFactory),
    };
    let pairs = match crate::ports::port_id_pairs(g, source, sink) {
        Ok(p) => p,
        Err(e) => return Err(NativeLinkError::Ports(e)),
    };
    let src_name = crate::link::pw_node(source);
    let dst_name = crate::link::pw_node(sink);
    let src = match g.node_id(src_name.as_str()) {
        Some(id) => id,
        None => {
            proof {
                assert(false);
            }
            return Err(NativeLinkError::NoFactory);
        },
    };
    let dst = match g.node_id(dst_name.as_str()) {
        Some(id) => id,
        None => {
            proof {
                assert(false);
            }
            return Err(NativeLinkError::NoFactory);
        },
    };
    let mut links: Vec<LinkCreate> = Vec::new();
    let mut i: usize = 0;
    while i < pairs.len()
        invariant
            i <= pairs.len(),
            g.wf(),
            links@.len() == i,
            forall|k: int| 0 <= k < i ==> #[trigger] links@[k] == planned_link(*g, pairs@[k], src, dst),
        decreases pairs.len() - i,
    {
        let p = pairs[i];
        let replace = match g.links_by_ports.get(&p) {
            Some(id) => Some(*id),
            None => None,
        };
        links.push(LinkCreate { replace, out_node: src, out_port: p.0, in_node: dst, in_port: p.1 });
        i += 1;
    }
    Ok(NativeLinkPlan::Create { factory, links })
}

/// The props a planned link is created with.
pub open spec fn create_props(c: LinkCreate) -> Seq<(Seq<char>, Seq<char>)> {
    seq![
        ("link.output.node"@, decimal(c.out_node as nat)),
        ("link.output.port"@, decimal(c.out_port as nat)),
        ("link.input.node"@, decimal(c.in_node as nat)),
        ("link.input.port"@, decimal(c.in_port as nat)),
        ("object.linger"@, "false"@),
    ]
}

/// The props to create a planned link with (the link does not linger).
pub fn link_create_props(c: &LinkCreate) -> (r: Vec<(String, String)>)
    ensures
        crate::ordset::pairs_view(r@) == create_props(*c),
{
    let mut v: Vec<(String, String)> = Vec::new();
    v.push((own("link.output.node"), u32_to_string(c.out_node)));
    v.push((own("link.output.port"), u32_to_string(c.out_port)));
    v.push((own("link.input.node"), u32_to_string(c.in_node)));
    v.push((own("link.input.port"), u32_to_string(c.in_port)));
    v.push((own("object.linger"), own("false")));
    assert(crate::ordset::pairs_view(v@) =~= create_props(*c));
    v
}

/// A link created from a plan shows up in the registry as that link: the
/// record read from its props joins the planned nodes and ports.
pub proof fn law_created_link_reads_back(c: LinkCreate, id: u32, rec: LinkRec)
    requires
        crate::globals::link_rec_ok(rec, id, create_props(c)),
    ensures
        rec == (LinkRec { id, out_node: c.out_node, out_port: c.out_port, in_node: c.in_node, in_port: c.in_port }),
{
    reveal_strlit("link.output.node");
    reveal_strlit("link.output.port");
    reveal_strlit("link.input.node");
    reveal_strlit("link.input.port");
    let ps = create_props(c);
    crate::text::lemma_parse_decimal(c.out_node);
    crate::text::lemma_parse_decimal(c.out_port);
    crate::text::lemma_parse_decimal(c.in_node);
    crate::text::lemma_parse_decimal(c.in_port);
    assert("link.output.port"@[12] != "link.output.node"@[12]);
    assert("link.input.port"@[11] != "link.input.node"@[11]);
    assert("link.input.node"@.len() != "link.output.node"@.len());
    assert("link.input.port"@.len() != "link.output.node"@.len());
    assert("link.input.port"@.len() != "link.output.port"@.len());
    assert("link.input.node"@.len() != "link.output.port"@.len());
    assert(ps.drop_first().drop_first().drop_first()[0] == ps[3]);
    assert(crate::globals::prop_spec(ps, "link.output.node"@) == Some(decimal(c.out_node as nat)));
    let p1 = ps.drop_first();
    let p2 = p1.drop_first();
    let p3 = p2.drop_first();
    assert(p1[0] == ps[1] && p2[0] == ps[2] && p3[0] == ps[3]);
    assert(crate::globals::prop_spec(p1, "link.output.port"@) == Some(decimal(c.out_port as nat)));
    assert(crate::globals::prop_spec(ps, "link.output.port"@) == Some(decimal(c.out_port as nat)));
    assert(crate::globals::prop_spec(p2, "link.input.node"@) == Some(decimal(c.in_node as nat)));
    assert(crate::globals::prop_spec(p1, "link.input.node"@) == Some(decimal(c.in_node as nat)));
    assert(crate::globals::prop_spec(ps, "link.input.node"@) == Some(decimal(c.in_node as nat)));
    assert(crate::globals::prop_spec(p3, "link.input.port"@) == Some(decimal(c.in_port as nat)));
    assert(crate::globals::prop_spec(p2, "link.input.port"@) == Some(decimal(c.in_port as nat)));
    assert(crate::globals::prop_spec(p1, "link.input.port"@) == Some(decimal(c.in_port as nat)));
    assert(crate::globals::prop_spec(ps, "link.input.port"@) == Some(decimal(c.in_port as nat)));
}


/// What a native null-sink request comes to.
#[derive(Debug, PartialEq, Eq)]
pub enum NullSinkPlan {
    /// The sink is up with the wanted class and its ports: done.
    Ready,
    /// Right class, ports not in the registry yet: answer after one sync.
    AwaitPorts,
    /// No such node: create it (props of `null_sink_props`).
    Create,
    /// Wrong or portless class: pin its streams onto the hold sink (when the
    /// hold is known), destroy node `destroy`, create the sink anew, then pin
    /// the parked streams onto the new node.
    Recreate { destroy: u32, parked: Vec<u32>, hold: Option<u32> },
}

/// The class the sink should carry: public or internal.
pub open spec fn wanted_class(spec: NodeSpec) -> Seq<char> {
    if spec.pulse_export {
        "Audio/Sink"@
    } else {
        "Audio/Sink/Internal"@
    }
}

/// An existing node's class is usable: exactly the wanted one (never the
/// portless `BusChain/Internal` or another `BusChain/` class).
pub open spec fn class_ok(have: Seq<char>, want: Seq<char>) -> bool {
    let broken = have == "BusChain/Internal"@ || (has_prefix(have, "BusChain/"@) && have != want);
    !broken && have == want
}

/// Bring up the null-sink of `spec` in the registry.
pub fn ensure_null_sink_plan(g: &GraphView, spec: &NodeSpec) -> (r: NullSinkPlan)
    requires
        g.wf(),
    ensures
        ({
            let name = spec.name.0@;
            let known = g.nodes_by_name@.contains_key(name) && g.nodes_by_id@.contains_key(g.nodes_by_name@[name]);
            if !known {
                r == NullSinkPlan::Create
            } else {
                let n = g.nodes_by_id@[g.nodes_by_name@[name]];
                let ok = class_ok(n.media_class@, wanted_class(*spec));
                let ready = crate::graph::sink_ports_ready(g.ports_of_spec(g.nodes_by_name@[name]));
                if ok && ready {
                    r == NullSinkPlan::Ready
                } else if ok {
                    r == NullSinkPlan::AwaitPorts
                } else {
                    r matches NullSinkPlan::Recreate { destroy, parked, hold } && destroy == g.nodes_by_name@[name]
                        && parked@ == streams_on(*g, name) && hold == (if g.nodes_by_name@.contains_key(
                        "buschain_hold"@,
                    ) {
                        Some(g.nodes_by_name@["buschain_hold"@])
                    } else {
                        None::<u32>
                    })
                }
            }
        }),
{
    proof {
        reveal_strlit("Audio/Sink");
        reveal_strlit("Audio/Sink/Internal");
    }
    let name = spec.name.as_str();
    let n = match g.node(name) {
        Some(n) => n,
        None => return NullSinkPlan::Create,
    };
    let want = spec.media_class();
    let have = n.media_class.as_str();
    let broken = str_eq(have, "BusChain/Internal") || (crate::text::starts_with(have, "BusChain/") && !str_eq(
        have,
        want,
    ));
    let ok = !broken && str_eq(have, want);
    let ready = g.null_sink_ready(name);
    if ok && ready {
        return NullSinkPlan::Ready;
    }
    if ok {
        return NullSinkPlan::AwaitPorts;
    }
    let parked = stream_ids_on_sink(g, name);
    let hold = g.node_id("buschain_hold");
    let destroy = match g.node_id(name) {
        Some(id) => id,
        None => {
            proof {
                assert(false);
            }
            0
        },
    };
    NullSinkPlan::Recreate { destroy, parked, hold }
}

/// The props the adapter creates a null-sink with: a stereo FL/FR virtual
/// node at the clock (rate, latency, forced quantum, its lock), not
/// lingering after BusChain's client, with the wanted class and description,
/// and monitor channel volumes for app and post buses.
pub open spec fn null_sink_props_spec(spec: NodeSpec, clock: ClockProps) -> Seq<(Seq<char>, Seq<char>)> {
    seq![
        ("factory.name"@, "support.null-audio-sink"@),
        ("node.name"@, spec.name.0@),
        ("node.description"@, spec.description@),
        ("media.class"@, wanted_class(spec)),
        ("audio.channels"@, "2"@),
        ("audio.position"@, "FL,FR"@),
        ("audio.rate"@, decimal(clock.sample_rate as nat)),
        ("node.latency"@, clock.node_latency@),
        ("node.force-quantum"@, decimal(clock.quantum as nat)),
        ("node.lock-quantum"@, crate::null_sink::lock_text(clock.soft_quantum)),
        ("node.virtual"@, "true"@),
        ("media.name"@, "buschain-control"@),
        ("object.linger"@, "false"@),
        ("session.suspend-timeout-seconds"@, decimal(clock.suspend_timeout as nat)),
        ("device.description"@, spec.description@),
        ("buschain.pulse.export"@, if spec.pulse_export { "true"@ } else { "false"@ }),
        ("monitor.channel-volumes"@, if crate::null_sink::is_app_bus(spec.role) || spec.role == NodeRole::PostBus {
            "true"@
        } else {
            "false"@
        }),
    ]
}

/// The props of `null_sink_props_spec`.
pub fn null_sink_props(spec: &NodeSpec, clock: &ClockProps) -> (r: Vec<(String, String)>)
    ensures
        crate::ordset::pairs_view(r@) == null_sink_props_spec(*spec, *clock),
{
    proof {
        reveal_strlit("Audio/Sink");
        reveal_strlit("Audio/Sink/Internal");
    }
    let monitor_vols = match spec.role {
        NodeRole::TrackBus | NodeRole::MasterBus | NodeRole::PostBus => true,
        _ => false,
    };
    let mut v: Vec<(String, String)> = Vec::new();
    v.push((own("factory.name"), own("support.null-audio-sink")));
    v.push((own("node.name"), own(spec.name.as_str())));
    v.push((own("node.description"), own(spec.description.as_str())));
    v.push((own("media.class"), own(spec.media_class())));
    v.push((own("audio.channels"), own("2")));
    v.push((own("audio.position"), own("FL,FR")));
    v.push((own("audio.rate"), u32_to_string(clock.sample_rate)));
    v.push((own("node.latency"), own(clock.node_latency.as_str())));
    v.push((own("node.force-quantum"), u32_to_string(clock.quantum)));
    v.push((own("node.lock-quantum"), own(if clock.soft_quantum { "false" } else { "true" })));
    v.push((own("node.virtual"), own("true")));
    v.push((own("media.name"), own("buschain-control")));
    v.push((own("object.linger"), own("false")));
    v.push((own("session.suspend-timeout-seconds"), u32_to_string(clock.suspend_timeout)));
    v.push((own("device.description"), own(spec.description.as_str())));
    v.push((own("buschain.pulse.export"), own(if spec.pulse_export { "true" } else { "false" })));
    v.push((own("monitor.channel-volumes"), own(if monitor_vols { "true" } else { "false" })));
    assert(crate::ordset::pairs_view(v@) =~= null_sink_props_spec(*spec, *clock));
    v
}

/// A null-sink created from these props shows up in the registry as the
/// requested sink: the node record read from them carries its name, class,
/// description and the clock's rate.
pub proof fn law_created_sink_reads_back(spec: NodeSpec, clock: ClockProps, id: u32, rec: NodeRec)
    requires
        crate::globals::node_rec_ok(rec, id, null_sink_props_spec(spec, clock)),
    ensures
        rec.id == id,
        rec.name@ == spec.name.0@,
        rec.media_class@ == wanted_class(spec),
        rec.description@ == spec.description@,
        rec.rate == Some(clock.sample_rate),
{
    reveal_strlit("factory.name");
    reveal_strlit("node.name");
    reveal_strlit("node.description");
    reveal_strlit("media.class");
    reveal_strlit("audio.channels");
    reveal_strlit("audio.position");
    reveal_strlit("audio.rate");
    let ps = null_sink_props_spec(spec, clock);
    let p1 = ps.drop_first();
    let p2 = p1.drop_first();
    let p3 = p2.drop_first();
    let p4 = p3.drop_first();
    let p5 = p4.drop_first();
    let p6 = p5.drop_first();
    assert(p1[0] == ps[1] && p2[0] == ps[2] && p3[0] == ps[3] && p4[0] == ps[4] && p5[0] == ps[5] && p6[0] == ps[6]);
    assert("factory.name"@.len() != "node.name"@.len());
    assert("factory.name"@.len() != "node.description"@.len());
    assert("node.name"@.len() != "node.description"@.len());
    assert(crate::globals::prop_spec(p1, "node.name"@) == Some(spec.name.0@));
    assert(crate::globals::prop_spec(ps, "node.name"@) == Some(spec.name.0@));
    assert(crate::globals::prop_spec(p2, "node.description"@) == Some(spec.description@));
    assert(crate::globals::prop_spec(p1, "node.description"@) == Some(spec.description@));
    assert(crate::globals::prop_spec(ps, "node.description"@) == Some(spec.description@));
    assert(crate::globals::prop_spec(p3, "media.class"@) == Some(wanted_class(spec)));
    assert(crate::globals::prop_spec(p2, "media.class"@) == Some(wanted_class(spec)));
    assert(crate::globals::prop_spec(p1, "media.class"@) == Some(wanted_class(spec)));
    assert(crate::globals::prop_spec(ps, "media.class"@) == Some(wanted_class(spec)));
    let rate = decimal(clock.sample_rate as nat);
    assert("audio.position"@.len() != "audio.rate"@.len());
    assert("audio.channels"@.len() != "audio.rate"@.len());
    assert("media.class"@.len() != "audio.rate"@.len());
    assert("node.description"@.len() != "audio.rate"@.len());
    assert("node.name"@.len() != "audio.rate"@.len());
    assert("factory.name"@.len() != "audio.rate"@.len());
    assert(crate::globals::prop_spec(p6, "audio.rate"@) == Some(rate));
    assert(crate::globals::prop_spec(p5, "audio.rate"@) == Some(rate));
    assert(crate::globals::prop_spec(p4, "audio.rate"@) == Some(rate));
    assert(crate::globals::prop_spec(p3, "audio.rate"@) == Some(rate));
    assert(crate::globals::prop_spec(p2, "audio.rate"@) == Some(rate));
    assert(crate::globals::prop_spec(p1, "audio.rate"@) == Some(rate));
    assert(crate::globals::prop_spec(ps, "audio.rate"@) == Some(rate));
    crate::text::lemma_parse_decimal(clock.sample_rate);
}


/// The first description entry (`device.description` or `node.description`).
pub open spec fn description_entry(es: Seq<(Seq<char>, Seq<char>)>) -> Option<Seq<char>>
    decreases es.len(),
{
    if es.len() == 0 {
        None
    } else if es[0].0 == "device.description"@ || es[0].0 == "node.description"@ {
        Some(es[0].1)
    } else {
        description_entry(es.drop_first())
    }
}

fn description_of(entries: &Vec<(String, String)>) -> (r: Option<String>)
    ensures
        opt_view(r) == description_entry(crate::ordset::pairs_view(entries@)),
{
    let ghost ev = crate::ordset::pairs_view(entries@);
    let mut i: usize = 0;
    assert(ev.skip(0) =~= ev);
    while i < entries.len()
        invariant
            i <= entries.len(),
            ev == crate::ordset::pairs_view(entries@),
            description_entry(ev) == description_entry(ev.skip(i as int)),
        decreases entries.len() - i,
    {
        assert(ev.skip(i as int)[0] == ev[i as int]);
        assert(ev.skip(i as int).drop_first() =~= ev.skip(i + 1));
        let k = entries[i].0.as_str();
        if str_eq(k, "device.description") || str_eq(k, "node.description") {
            return Some(own(entries[i].1.as_str()));
        }
        i += 1;
    }
    None
}

/// A `set_node_props` request: only a description maps onto node Props
/// (its SPA `device` string); without one nothing is due. With one, the
/// node to set it on (by name, `.monitor` ignored) and the text, or the
/// error when the registry does not know the node.
pub fn set_node_props(g: &GraphView, name: &str, entries: &Vec<(String, String)>) -> (r: Result<
    Option<(u32, String)>,
    String,
>)
    requires
        g.wf(),
    ensures
        match description_entry(crate::ordset::pairs_view(entries@)) {
            None => r == Ok::<Option<(u32, String)>, String>(None),
            Some(d) => {
                let node = without_suffix(name@, ".monitor"@);
                if g.nodes_by_name@.contains_key(node) {
                    r matches Ok(Some((id, text))) && id == g.nodes_by_name@[node] && text@ == d
                } else {
                    r matches Err(e) && e@ == missing_node_msg(name@)
                }
            },
        },
{
    let found = description_of(entries);
    let desc = match found {
        Some(d) => d,
        None => return Ok(None),
    };
    let node = crate::link::pw_node(name);
    match g.node_id(node.as_str()) {
        Some(id) => Ok(Some((id, desc))),
        None => Err(concat3("node `", name, "` not in registry")),
    }
}

} // verus!
