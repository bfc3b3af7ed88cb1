//! Live registry snapshot of the PipeWire graph: nodes, ports, links and the
//! indices kept beside them, as the native control plane sees them.
use vstd::prelude::*;

use crate::ordset::{
    insert_sorted_pair, insert_sorted_str, insert_sorted_u32, pair_keys, pairs_view, sorted_strs,
    sorted_u32, strs_view,
};
use crate::table::{entries_map, keys_unique, lemma_entry, lemma_key, key_index, Table};
use crate::text::{contains, ends_with, has_infix, has_prefix, has_suffix, lowercase, own, starts_with, str_eq, to_lowercase};

verus! {

/// Direction of a port.
#[derive(Debug, Clone, Copy, PartialEq, Eq, Structural)]
pub enum PortDir {
    In,
    Out,
    Unknown,
}

/// A node of the registry.
#[derive(Debug)]
pub struct NodeRec {
    pub id: u32,
    pub name: String,
    pub media_class: String,
    pub description: String,
    pub rate: Option<u32>,
    /// PipeWire `object.serial`: matches a Pulse sink-input or sink index.
    pub serial: Option<u32>,
}

/// Application props captured for `Stream/Output/Audio` nodes.
#[derive(Debug)]
pub struct StreamProps {
    pub app_name: Option<String>,
    pub binary: Option<String>,
    pub app_id: Option<String>,
    pub media_name: Option<String>,
    pub icon_name: Option<String>,
    /// `media.role`: anonymous event / notify streams stay out of reclaim.
    pub media_role: Option<String>,
    pub node_virtual: bool,
}

impl Default for StreamProps {
    fn default() -> (p: Self)
        ensures
            p.app_name is None,
            p.binary is None,
            p.app_id is None,
            p.media_name is None,
            p.icon_name is None,
            p.media_role is None,
            !p.node_virtual,
    {
        StreamProps {
            app_name: None,
            binary: None,
            app_id: None,
            media_name: None,
            icon_name: None,
            media_role: None,
            node_virtual: false,
        }
    }
}

/// A port of the registry.
#[derive(Debug)]
pub struct PortRec {
    pub id: u32,
    pub node_id: u32,
    pub name: String,
    pub direction: PortDir,
    pub channel: String,
}

/// A link of the registry.
#[derive(Debug, Clone, Copy, PartialEq, Eq, Structural)]
pub struct LinkRec {
    pub id: u32,
    pub out_node: u32,
    pub out_port: u32,
    pub in_node: u32,
    pub in_port: u32,
}

/// `generation + 1`, wrapping at `u64::MAX`.
pub open spec fn next_generation(g: u64) -> u64 {
    if g == u64::MAX {
        0
    } else {
        (g + 1) as u64
    }
}

/// The registry snapshot.
#[derive(Debug)]
pub struct GraphView {
    pub generation: u64,
    pub nodes_by_id: Table<u32, NodeRec>,
    pub nodes_by_name: Table<String, u32>,
    pub ports_by_id: Table<u32, PortRec>,
    /// node id -> its port ids, strictly increasing.
    pub ports_by_node: Table<u32, Vec<u32>>,
    pub links_by_id: Table<u32, LinkRec>,
    /// (out_port_id, in_port_id) -> link global id
    pub links_by_ports: Table<(u32, u32), u32>,
    /// node id -> application props (Stream/Output/Audio only).
    pub stream_props_by_id: Table<u32, StreamProps>,
    pub link_factory: Option<String>,
    /// Cached `default.audio.sink` name from Metadata.
    pub default_audio_sink: Option<String>,
}

/// `s` without the occurrences of `x`.
pub open spec fn drop_value(s: Seq<u32>, x: u32) -> Seq<u32>
    decreases s.len(),
{
    if s.len() == 0 {
        s
    } else {
        let t = drop_value(s.drop_last(), x);
        if s.last() == x {
            t
        } else {
            t.push(s.last())
        }
    }
}

proof fn lemma_drop_value(s: Seq<u32>, x: u32)
    ensures
        drop_value(s, x).to_set() == s.to_set().remove(x),
        sorted_u32(s) ==> sorted_u32(drop_value(s, x)),
    decreases s.len(),
{
    if s.len() == 0 {
        assert(s.to_set() =~= Set::<u32>::empty());
        assert(drop_value(s, x).to_set() =~= s.to_set().remove(x));
    } else {
        let p = s.drop_last();
        let e = s.last();
        lemma_drop_value(p, x);
        assert(s =~= p.push(e));
        p.lemma_push_to_set_commute(e);
        let t = drop_value(p, x);
        if e == x {
            assert(drop_value(s, x).to_set() =~= s.to_set().remove(x));
        } else {
            t.lemma_push_to_set_commute(e);
            assert(drop_value(s, x).to_set() =~= s.to_set().remove(x));
        }
        if sorted_u32(s) {
            assert(sorted_u32(p));
            if e != x {
                assert forall|a: int, b: int| 0 <= a < b < t.push(e).len() implies t.push(e)[a] < t.push(e)[b] by {
                    if b == t.len() {
                        assert(t.to_set().contains(t[a]));
                        assert(p.to_set().contains(t[a]));
                        let k = choose|k: int| 0 <= k < p.len() && p[k] == t[a];
                        assert(s[k] == p[k]);
                        assert(s[s.len() - 1] == e);
                    }
                }
            }
        }
    }
}

/// Port lists of the node index are strictly increasing.
pub open spec fn port_lists_sorted(m: Map<u32, Vec<u32>>) -> bool {
    forall|n: u32| #[trigger] m.contains_key(n) ==> sorted_u32(m[n]@)
}

/// Every port id a node lists is a recorded port.
pub open spec fn listed_ports_recorded(lists: Map<u32, Vec<u32>>, ports: Map<u32, PortRec>) -> bool {
    forall|n: u32, p: u32|
        #![trigger lists[n]@.contains(p)]
        lists.contains_key(n) && lists[n]@.contains(p) ==> ports.contains_key(p)
}

/// Names after dropping node `id`: its name entry goes only if it still
/// points at `id`.
pub open spec fn names_after_remove(
    names: Map<Seq<char>, u32>,
    nodes: Map<u32, NodeRec>,
    id: u32,
) -> Map<Seq<char>, u32> {
    if nodes.contains_key(id) && names.contains_key(nodes[id].name@) && names[nodes[id].name@] == id {
        names.remove(nodes[id].name@)
    } else {
        names
    }
}

/// A sink as the mixer lists it: exact `Audio/Sink`, any `*/Sink`, or one of
/// BusChain's own nodes.
pub open spec fn is_sink_node(n: NodeRec) -> bool {
    n.media_class@ == "Audio/Sink"@ || has_suffix(n.media_class@, "/Sink"@) || has_prefix(
        n.name@,
        "buschain_"@,
    )
}

/// A sink that Pulse exports (exact `Audio/Sink`).
pub open spec fn is_pulse_sink(n: NodeRec) -> bool {
    n.media_class@ == "Audio/Sink"@
}

/// The sink filter: Pulse-exported only, or every sink.
pub open spec fn sink_filter(pulse_only: bool, n: NodeRec) -> bool {
    if pulse_only {
        is_pulse_sink(n)
    } else {
        is_sink_node(n)
    }
}

/// Names of the nodes that pass the sink filter.
pub open spec fn sink_name_set(nodes: Map<u32, NodeRec>, pulse_only: bool) -> Set<Seq<char>> {
    Set::new(
        |x: Seq<char>|
            exists|id: u32|
                #![trigger nodes[id]]
                nodes.contains_key(id) && sink_filter(pulse_only, nodes[id]) && nodes[id].name@ == x,
    )
}

/// A filter on media classes.
pub enum ClassFilter {
    /// `Audio/Source`, any `*/Source`, or any class holding `Source`.
    SourceLike,
    /// Any class holding the text.
    Containing(String),
}

/// Whether a node passes a class filter.
pub open spec fn class_match(f: ClassFilter, n: NodeRec) -> bool {
    match f {
        ClassFilter::SourceLike => n.media_class@ == "Audio/Source"@ || has_suffix(
            n.media_class@,
            "/Source"@,
        ) || has_infix(n.media_class@, "Source"@),
        ClassFilter::Containing(s) => has_infix(n.media_class@, s@),
    }
}

/// Names of the nodes that pass a class filter.
pub open spec fn class_name_set(nodes: Map<u32, NodeRec>, f: ClassFilter) -> Set<Seq<char>> {
    Set::new(
        |x: Seq<char>|
            exists|id: u32|
                #![trigger nodes[id]]
                nodes.contains_key(id) && class_match(f, nodes[id]) && nodes[id].name@ == x,
    )
}

/// `(name, description)` of some node that passes a class filter.
pub open spec fn is_class_pair(nodes: Map<u32, NodeRec>, f: ClassFilter, p: (Seq<char>, Seq<char>)) -> bool {
    exists|id: u32|
        #![trigger nodes[id]]
        nodes.contains_key(id) && class_match(f, nodes[id]) && nodes[id].name@ == p.0
            && nodes[id].description@ == p.1
}

/// Names of the nodes whose media class holds `c`.
pub open spec fn device_name_set(nodes: Map<u32, NodeRec>, c: Seq<char>) -> Set<Seq<char>> {
    Set::new(
        |x: Seq<char>|
            exists|id: u32|
                #![trigger nodes[id]]
                nodes.contains_key(id) && has_infix(nodes[id].media_class@, c) && nodes[id].name@ == x,
    )
}

/// `(name, description)` of some node whose media class holds `c`.
pub open spec fn is_device_pair(nodes: Map<u32, NodeRec>, c: Seq<char>, p: (Seq<char>, Seq<char>)) -> bool {
    exists|id: u32|
        #![trigger nodes[id]]
        nodes.contains_key(id) && has_infix(nodes[id].media_class@, c) && nodes[id].name@ == p.0
            && nodes[id].description@ == p.1
}

/// Ports listed under `ids`, in order, skipping ids without a port record.
pub open spec fn ports_list(ids: Seq<u32>, pm: Map<u32, PortRec>) -> Seq<PortRec>
    decreases ids.len(),
{
    if ids.len() == 0 {
        Seq::empty()
    } else {
        let r = ports_list(ids.drop_last(), pm);
        if pm.contains_key(ids.last()) {
            r.push(pm[ids.last()])
        } else {
            r
        }
    }
}

/// An input port named for playback or input.
pub open spec fn is_playback_port(p: PortRec) -> bool {
    p.direction == PortDir::In && lower_playback_name(lowercase(p.name@))
}

/// A lowercased port name that says playback or input.
pub open spec fn lower_playback_name(pl: Seq<char>) -> bool {
    has_infix(pl, "playback"@) || has_infix(pl, "input"@)
}

/// A lowercased port name that says monitor.
pub open spec fn lower_monitor_name(pl: Seq<char>) -> bool {
    has_infix(pl, "monitor"@)
}

/// `lower_playback_name` on a lowercased port name.
pub fn lowered_playback_name(pl: &str) -> (r: bool)
    ensures
        r == lower_playback_name(pl@),
{
    contains(pl, "playback") || contains(pl, "input")
}

/// `lower_monitor_name` on a lowercased port name.
pub fn lowered_monitor_name(pl: &str) -> (r: bool)
    ensures
        r == lower_monitor_name(pl@),
{
    contains(pl, "monitor")
}

/// An output port named for monitoring.
pub open spec fn is_monitor_port(p: PortRec) -> bool {
    p.direction == PortDir::Out && lower_monitor_name(lowercase(p.name@))
}

/// Some port goes in `d`.
pub open spec fn has_dir(ps: Seq<PortRec>, d: PortDir) -> bool {
    exists|i: int| 0 <= i < ps.len() && #[trigger] ps[i].direction == d
}

/// A null sink is ready with a playback and a monitor port; a duplex filter
/// with at least one input and one output port (two ports or more).
pub open spec fn sink_ports_ready(ps: Seq<PortRec>) -> bool {
    ((exists|i: int| 0 <= i < ps.len() && #[trigger] is_playback_port(ps[i])) && (exists|i: int|
        0 <= i < ps.len() && #[trigger] is_monitor_port(ps[i]))) || (has_dir(ps, PortDir::In)
        && has_dir(ps, PortDir::Out) && ps.len() >= 2)
}

fn without_port(list: &Vec<u32>, id: u32) -> (r: Vec<u32>)
    ensures
        r@ == drop_value(list@, id),
{
    let mut r: Vec<u32> = Vec::new();
    let mut i: usize = 0;
    while i < list.len()
        invariant
            i <= list.len(),
            r@ == drop_value(list@.take(i as int), id),
        decreases list.len() - i,
    {
        assert(list@.take(i + 1).drop_last() =~= list@.take(i as int));
        if list[i] != id {
            r.push(list[i]);
        }
        i += 1;
    }
    assert(list@.take(list.len() as int) =~= list@);
    r
}

/// Whether some of the first `i` entries holds key `n`.
pub open spec fn prefix_has_key<V>(s: Seq<(u32, V)>, i: int, n: u32) -> bool {
    exists|j: int| 0 <= j < i && #[trigger] s[j].0 == n
}

fn drop_port_everywhere(t: &Table<u32, Vec<u32>>, id: u32) -> (r: Table<u32, Vec<u32>>)
    requires
        t.wf(),
        port_lists_sorted(t@),
    ensures
        r.wf(),
        port_lists_sorted(r@),
        r@.dom() == t@.dom(),
        forall|n: u32| #[trigger] t@.contains_key(n) ==> r@[n]@ == drop_value(t@[n]@, id),
{
    let mut r: Table<u32, Vec<u32>> = Table::new();
    let ghost es = t.entries();
    proof {
        t.lemma_entries();
    }
    let mut i: usize = 0;
    while i < t.count()
        invariant
            i <= es.len(),
            es == t.entries(),
            keys_unique(es),
            t@ == entries_map(es),
            port_lists_sorted(t@),
            r.wf(),
            forall|n: u32| #[trigger] r@.contains_key(n) == prefix_has_key(es, i as int, n),
            forall|j: int| 0 <= j < i ==> r@[#[trigger] es[j].0]@ == drop_value(es[j].1@, id),
        decreases es.len() - i,
    {
        let k = *t.key_at(i);
        let l = without_port(t.value_at(i), id);
        r.insert(k, l);
        proof {
            assert forall|n: u32| #[trigger] r@.contains_key(n) == prefix_has_key(es, i + 1, n) by {
                if n == k {
                    assert(es[i as int].0 == n);
                }
                if prefix_has_key(es, i + 1, n) && n != k {
                    let j = choose|j: int| 0 <= j < i + 1 && #[trigger] es[j].0 == n;
                    assert(j < i);
                }
            }
            assert forall|j: int| 0 <= j < i + 1 implies r@[#[trigger] es[j].0]@ == drop_value(es[j].1@, id) by {
                if j < i {
                    assert(es[j].0 != es[i as int].0);
                }
            }
        }
        i += 1;
    }
    proof {
        assert forall|n: u32| #[trigger] t@.contains_key(n) implies r@.contains_key(n) && r@[n]@ == drop_value(t@[n]@, id) by {
            lemma_key(es, n);
            let j = key_index(es, n);
            assert(es[j].0 == n);
            assert(prefix_has_key(es, es.len() as int, n));
        }
        assert forall|n: u32| r@.contains_key(n) implies #[trigger] t@.contains_key(n) by {
            let j = choose|j: int| 0 <= j < es.len() && #[trigger] es[j].0 == n;
            lemma_entry(es, j);
        }
        assert(r@.dom() =~= t@.dom());
        assert forall|n: u32| #[trigger] r@.contains_key(n) implies sorted_u32(r@[n]@) by {
            lemma_drop_value(t@[n]@, id);
        }
    }
    r
}

impl Default for GraphView {
    fn default() -> (g: Self)
        ensures
            g.wf(),
            g.generation == 0,
            g.nodes_by_id@ == Map::<u32, NodeRec>::empty(),
            g.nodes_by_name@ == Map::<Seq<char>, u32>::empty(),
            g.ports_by_id@ == Map::<u32, PortRec>::empty(),
            g.ports_by_node@ == Map::<u32, Vec<u32>>::empty(),
            g.links_by_id@ == Map::<u32, LinkRec>::empty(),
            g.links_by_ports@ == Map::<(u32, u32), u32>::empty(),
            g.stream_props_by_id@ == Map::<u32, StreamProps>::empty(),
            g.link_factory is None,
            g.default_audio_sink is None,
    {
        GraphView {
            generation: 0,
            nodes_by_id: Table::new(),
            nodes_by_name: Table::new(),
            ports_by_id: Table::new(),
            ports_by_node: Table::new(),
            links_by_id: Table::new(),
            links_by_ports: Table::new(),
            stream_props_by_id: Table::new(),
            link_factory: None,
            default_audio_sink: None,
        }
    }
}

impl GraphView {
    /// The tables have distinct keys, the port lists are sorted, and every
    /// listed port is recorded.
    pub open spec fn wf(&self) -> bool {
        &&& self.nodes_by_id.wf()
        &&& self.nodes_by_name.wf()
        &&& self.ports_by_id.wf()
        &&& self.ports_by_node.wf()
        &&& self.links_by_id.wf()
        &&& self.links_by_ports.wf()
        &&& self.stream_props_by_id.wf()
        &&& port_lists_sorted(self.ports_by_node@)
        &&& listed_ports_recorded(self.ports_by_node@, self.ports_by_id@)
    }

    /// Everything but the generation is as in `other`.
    pub open spec fn same_tables(&self, other: &GraphView) -> bool {
        &&& self.nodes_by_id@ == other.nodes_by_id@
        &&& self.nodes_by_name@ == other.nodes_by_name@
        &&& self.ports_by_id@ == other.ports_by_id@
        &&& self.ports_by_node@ == other.ports_by_node@
        &&& self.links_by_id@ == other.links_by_id@
        &&& self.links_by_ports@ == other.links_by_ports@
        &&& self.stream_props_by_id@ == other.stream_props_by_id@
        &&& self.link_factory == other.link_factory
        &&& self.default_audio_sink == other.default_audio_sink
    }

    /// Advance the generation counter (wrapping).
    pub fn bump(&mut self)
        ensures
            final(self).generation == next_generation(old(self).generation),
            final(self).same_tables(old(self)),
            old(self).wf() ==> final(self).wf(),
    {
        self.generation = self.generation.wrapping_add(1);
    }

    /// Wipe the registry cache (daemon died, control plane reconnect).
    pub fn clear(&mut self)
        ensures
            final(self).wf(),
            final(self).generation == 1,
            final(self).nodes_by_id@ == Map::<u32, NodeRec>::empty(),
            final(self).nodes_by_name@ == Map::<Seq<char>, u32>::empty(),
            final(self).ports_by_id@ == Map::<u32, PortRec>::empty(),
            final(self).ports_by_node@ == Map::<u32, Vec<u32>>::empty(),
            final(self).links_by_id@ == Map::<u32, LinkRec>::empty(),
            final(self).links_by_ports@ == Map::<(u32, u32), u32>::empty(),
            final(self).stream_props_by_id@ == Map::<u32, StreamProps>::empty(),
            final(self).link_factory is None,
            final(self).default_audio_sink is None,
    {
        *self = Self::default();
        self.bump();
    }

    /// Id of the node named `name`.
    pub fn node_id(&self, name: &str) -> (r: Option<u32>)
        requires
            self.wf(),
        ensures
            r == (if self.nodes_by_name@.contains_key(name@) {
                Some(self.nodes_by_name@[name@])
            } else {
                None::<u32>
            }),
    {
        let key = own(name);
        match self.nodes_by_name.get(&key) {
            Some(id) => Some(*id),
            None => None,
        }
    }

    /// The node named `name`.
    pub fn node(&self, name: &str) -> (r: Option<&NodeRec>)
        requires
            self.wf(),
        ensures
            match r {
                Some(n) => self.nodes_by_name@.contains_key(name@)
                    && self.nodes_by_id@.contains_key(self.nodes_by_name@[name@])
                    && *n == self.nodes_by_id@[self.nodes_by_name@[name@]],
                None => !(self.nodes_by_name@.contains_key(name@)
                    && self.nodes_by_id@.contains_key(self.nodes_by_name@[name@])),
            },
    {
        let id = match self.node_id(name) {
            Some(id) => id,
            None => return None,
        };
        self.nodes_by_id.get(&id)
    }

    /// Whether a link joins `out_port` to `in_port`.
    pub fn link_exists(&self, out_port: u32, in_port: u32) -> (r: bool)
        requires
            self.wf(),
        ensures
            r == self.links_by_ports@.contains_key((out_port, in_port)),
    {
        self.links_by_ports.contains_key(&(out_port, in_port))
    }

    /// Whether `id` is a known node, link or port.
    pub fn has_global(&self, id: u32) -> (r: bool)
        requires
            self.wf(),
        ensures
            r == (self.nodes_by_id@.contains_key(id) || self.links_by_id@.contains_key(id)
                || self.ports_by_id@.contains_key(id)),
    {
        self.nodes_by_id.contains_key(&id) || self.links_by_id.contains_key(&id)
            || self.ports_by_id.contains_key(&id)
    }

    /// Record a node (and its name, when it has one).
    pub fn insert_node(&mut self, rec: NodeRec)
        requires
            old(self).wf(),
        ensures
            final(self).wf(),
            final(self).generation == next_generation(old(self).generation),
            final(self).nodes_by_id@ == old(self).nodes_by_id@.insert(rec.id, rec),
            final(self).nodes_by_name@ == (if rec.name@.len() > 0 {
                old(self).nodes_by_name@.insert(rec.name@, rec.id)
            } else {
                old(self).nodes_by_name@
            }),
            final(self).ports_by_id@ == old(self).ports_by_id@,
            final(self).ports_by_node@ == old(self).ports_by_node@,
            final(self).links_by_id@ == old(self).links_by_id@,
            final(self).links_by_ports@ == old(self).links_by_ports@,
            final(self).stream_props_by_id@ == old(self).stream_props_by_id@,
            final(self).link_factory == old(self).link_factory,
            final(self).default_audio_sink == old(self).default_audio_sink,
    {
        if !rec.name.as_str().is_empty() {
            self.nodes_by_name.insert(own(rec.name.as_str()), rec.id);
        }
        let id = rec.id;
        self.nodes_by_id.insert(id, rec);
        self.bump();
    }

    /// Record the application props of a stream node.
    pub fn insert_stream_props(&mut self, node_id: u32, props: StreamProps)
        requires
            old(self).wf(),
        ensures
            final(self).wf(),
            final(self).generation == next_generation(old(self).generation),
            final(self).stream_props_by_id@ == old(self).stream_props_by_id@.insert(node_id, props),
            final(self).nodes_by_id@ == old(self).nodes_by_id@,
            final(self).nodes_by_name@ == old(self).nodes_by_name@,
            final(self).ports_by_id@ == old(self).ports_by_id@,
            final(self).ports_by_node@ == old(self).ports_by_node@,
            final(self).links_by_id@ == old(self).links_by_id@,
            final(self).links_by_ports@ == old(self).links_by_ports@,
            final(self).link_factory == old(self).link_factory,
            final(self).default_audio_sink == old(self).default_audio_sink,
    {
        self.stream_props_by_id.insert(node_id, props);
        self.bump();
    }

    /// Record a link and its port-pair index entry.
    pub fn insert_link(&mut self, rec: LinkRec)
        requires
            old(self).wf(),
        ensures
            final(self).wf(),
            final(self).generation == next_generation(old(self).generation),
            final(self).links_by_id@ == old(self).links_by_id@.insert(rec.id, rec),
            final(self).links_by_ports@ == old(self).links_by_ports@.insert((rec.out_port, rec.in_port), rec.id),
            final(self).nodes_by_id@ == old(self).nodes_by_id@,
            final(self).nodes_by_name@ == old(self).nodes_by_name@,
            final(self).ports_by_id@ == old(self).ports_by_id@,
            final(self).ports_by_node@ == old(self).ports_by_node@,
            final(self).stream_props_by_id@ == old(self).stream_props_by_id@,
            final(self).link_factory == old(self).link_factory,
            final(self).default_audio_sink == old(self).default_audio_sink,
    {
        self.links_by_ports.insert((rec.out_port, rec.in_port), rec.id);
        self.links_by_id.insert(rec.id, rec);
        self.bump();
    }

    /// Record a port and add it to its node's sorted port list.
    pub fn insert_port(&mut self, rec: PortRec)
        requires
            old(self).wf(),
        ensures
            final(self).wf(),
            final(self).generation == next_generation(old(self).generation),
            final(self).ports_by_id@ == old(self).ports_by_id@.insert(rec.id, rec),
            final(self).ports_by_node@.dom() == old(self).ports_by_node@.dom().insert(rec.node_id),
            forall|n: u32| n != rec.node_id && #[trigger] old(self).ports_by_node@.contains_key(n)
                ==> final(self).ports_by_node@[n] == old(self).ports_by_node@[n],
            final(self).ports_by_node@[rec.node_id]@.to_set() == (if old(self).ports_by_node@.contains_key(rec.node_id) {
                old(self).ports_by_node@[rec.node_id]@.to_set()
            } else {
                Set::<u32>::empty()
            }).insert(rec.id),
            final(self).nodes_by_id@ == old(self).nodes_by_id@,
            final(self).nodes_by_name@ == old(self).nodes_by_name@,
            final(self).links_by_id@ == old(self).links_by_id@,
            final(self).links_by_ports@ == old(self).links_by_ports@,
            final(self).stream_props_by_id@ == old(self).stream_props_by_id@,
            final(self).link_factory == old(self).link_factory,
            final(self).default_audio_sink == old(self).default_audio_sink,
    {
        let ghost nid = rec.node_id;
        let ghost pid = rec.id;
        let mut list: Vec<u32> = match self.ports_by_node.remove(&rec.node_id) {
            Some(l) => l,
            None => Vec::new(),
        };
        assert(list@.to_set() =~= (if old(self).ports_by_node@.contains_key(rec.node_id) {
            old(self).ports_by_node@[rec.node_id]@.to_set()
        } else {
            Set::<u32>::empty()
        }));
        insert_sorted_u32(&mut list, rec.id);
        self.ports_by_node.insert(rec.node_id, list);
        let id = rec.id;
        self.ports_by_id.insert(id, rec);
        self.bump();
        assert(self.ports_by_node@.dom() =~= old(self).ports_by_node@.dom().insert(nid));
        proof {
            let lists = self.ports_by_node@;
            let ports = self.ports_by_id@;
            assert forall|n: u32, p: u32| lists.contains_key(n) && #[trigger] lists[n]@.contains(p) implies ports.contains_key(p) by {
                if n == nid {
                    assert(lists[n]@.to_set().contains(p));
                    if p != pid {
                        assert(old(self).ports_by_node@.contains_key(nid));
                        assert(old(self).ports_by_node@[nid]@.to_set().contains(p));
                        assert(old(self).ports_by_node@[nid]@.contains(p));
                    }
                } else {
                    assert(old(self).ports_by_node@.contains_key(n));
                    assert(old(self).ports_by_node@[n]@.contains(p));
                }
            }
        }
    }
    /// Forget global `id`, whichever of node, port or link it is, with the
    /// index entries that point at it.
    pub fn remove_global(&mut self, id: u32)
        requires
            old(self).wf(),
        ensures
            final(self).wf(),
            final(self).generation == next_generation(old(self).generation),
            final(self).nodes_by_id@ == old(self).nodes_by_id@.remove(id),
            final(self).nodes_by_name@ == names_after_remove(
                old(self).nodes_by_name@,
                old(self).nodes_by_id@,
                id,
            ),
            final(self).stream_props_by_id@ == old(self).stream_props_by_id@.remove(id),
            final(self).ports_by_id@ == old(self).ports_by_id@.remove(id),
            final(self).ports_by_node@.dom() == old(self).ports_by_node@.dom(),
            forall|n: u32| #[trigger] old(self).ports_by_node@.contains_key(n) ==> final(self).ports_by_node@[n]@
                == (if old(self).ports_by_id@.contains_key(id) {
                    drop_value(old(self).ports_by_node@[n]@, id)
                } else {
                    old(self).ports_by_node@[n]@
                }),
            final(self).links_by_id@ == old(self).links_by_id@.remove(id),
            final(self).links_by_ports@ == (if old(self).links_by_id@.contains_key(id) {
                old(self).links_by_ports@.remove(
                    (old(self).links_by_id@[id].out_port, old(self).links_by_id@[id].in_port),
                )
            } else {
                old(self).links_by_ports@
            }),
    {
        match self.nodes_by_id.remove(&id) {
            Some(n) => {
                let points_here = match self.nodes_by_name.get(&n.name) {
                    Some(x) => *x == id,
                    None => false,
                };
                if points_here {
                    let _ = self.nodes_by_name.remove(&n.name);
                }
            },
            None => {},
        }
        let _ = self.stream_props_by_id.remove(&id);
        if self.ports_by_id.remove(&id).is_some() {
            let lists = drop_port_everywhere(&self.ports_by_node, id);
            self.ports_by_node = lists;
        }
        proof {
            let lists = self.ports_by_node@;
            let ports = self.ports_by_id@;
            assert forall|n: u32, p: u32| lists.contains_key(n) && #[trigger] lists[n]@.contains(p) implies ports.contains_key(p) by {
                assert(old(self).ports_by_node@.contains_key(n));
                if old(self).ports_by_id@.contains_key(id) {
                    lemma_drop_value(old(self).ports_by_node@[n]@, id);
                    assert(lists[n]@.to_set().contains(p));
                    assert(old(self).ports_by_node@[n]@.to_set().contains(p));
                    assert(old(self).ports_by_node@[n]@.contains(p));
                    assert(p != id);
                } else {
                    assert(old(self).ports_by_node@[n]@.contains(p));
                }
            }
        }
        match self.links_by_id.remove(&id) {
            Some(link) => {
                let _ = self.links_by_ports.remove(&(link.out_port, link.in_port));
            },
            None => {},
        }
        self.bump();
    }

    fn sink_list(&self, pulse_only: bool) -> (r: Vec<String>)
        requires
            self.wf(),
        ensures
            sorted_strs(strs_view(r@)),
            strs_view(r@).to_set() == sink_name_set(self.nodes_by_id@, pulse_only),
    {
        let ghost es = self.nodes_by_id.entries();
        proof {
            self.nodes_by_id.lemma_entries();
        }
        let mut v: Vec<String> = Vec::new();
        let mut i: usize = 0;
        assert(strs_view(v@).to_set() =~= Set::<Seq<char>>::empty());
        while i < self.nodes_by_id.count()
            invariant
                i <= es.len(),
                es == self.nodes_by_id.entries(),
                sorted_strs(strs_view(v@)),
                forall|x: Seq<char>| #[trigger] strs_view(v@).to_set().contains(x) == exists|j: int|
                    0 <= j < i && sink_filter(pulse_only, #[trigger] es[j].1) && es[j].1.name@ == x,
            decreases es.len() - i,
        {
            let n = self.nodes_by_id.value_at(i);
            let pass = if pulse_only {
                str_eq(n.media_class.as_str(), "Audio/Sink")
            } else {
                str_eq(n.media_class.as_str(), "Audio/Sink") || ends_with(n.media_class.as_str(), "/Sink")
                    || starts_with(n.name.as_str(), "buschain_")
            };
            let ghost before = strs_view(v@).to_set();
            if pass {
                insert_sorted_str(&mut v, own(n.name.as_str()));
            }
            proof {
                assert forall|x: Seq<char>| #[trigger] strs_view(v@).to_set().contains(x) == exists|j: int|
                    0 <= j < i + 1 && sink_filter(pulse_only, #[trigger] es[j].1) && es[j].1.name@ == x by {
                    if exists|j: int| 0 <= j < i + 1 && sink_filter(pulse_only, #[trigger] es[j].1) && es[j].1.name@ == x {
                        let j = choose|j: int| 0 <= j < i + 1 && sink_filter(pulse_only, #[trigger] es[j].1) && es[j].1.name@ == x;
                        if j < i {
                            assert(before.contains(x));
                        }
                    }
                    if before.contains(x) {
                        let j = choose|j: int| 0 <= j < i && sink_filter(pulse_only, #[trigger] es[j].1) && es[j].1.name@ == x;
                        assert(0 <= j < i + 1 && sink_filter(pulse_only, es[j].1) && es[j].1.name@ == x);
                    }
                    if pass && x == n.name@ {
                        assert(0 <= i < i + 1 && sink_filter(pulse_only, es[i as int].1) && es[i as int].1.name@ == x);
                    }
                }
            }
            i += 1;
        }
        proof {
            let nodes = self.nodes_by_id@;
            assert forall|x: Seq<char>| #[trigger] strs_view(v@).to_set().contains(x) == sink_name_set(nodes, pulse_only).contains(x) by {
                if strs_view(v@).to_set().contains(x) {
                    let j = choose|j: int| 0 <= j < es.len() && sink_filter(pulse_only, #[trigger] es[j].1) && es[j].1.name@ == x;
                    lemma_entry(es, j);
                    assert(nodes[es[j].0] == es[j].1);
                }
                if sink_name_set(nodes, pulse_only).contains(x) {
                    let id = choose|id: u32| #![trigger nodes[id]] nodes.contains_key(id) && sink_filter(pulse_only, nodes[id]) && nodes[id].name@ == x;
                    lemma_key(es, id);
                    let j = key_index(es, id);
                    assert(0 <= j < es.len() && sink_filter(pulse_only, es[j].1) && es[j].1.name@ == x);
                }
            }
            assert(strs_view(v@).to_set() =~= sink_name_set(nodes, pulse_only));
        }
        v
    }

    /// Names of all sinks (exact `Audio/Sink`, any `*/Sink`, BusChain's own
    /// nodes), sorted, without duplicates.
    pub fn sink_names(&self) -> (r: Vec<String>)
        requires
            self.wf(),
        ensures
            sorted_strs(strs_view(r@)),
            strs_view(r@).to_set() == sink_name_set(self.nodes_by_id@, false),
    {
        self.sink_list(false)
    }

    /// Names of the Pulse-exported sinks (exact `Audio/Sink`), sorted, without
    /// duplicates.
    pub fn pulse_sink_names(&self) -> (r: Vec<String>)
        requires
            self.wf(),
        ensures
            sorted_strs(strs_view(r@)),
            strs_view(r@).to_set() == sink_name_set(self.nodes_by_id@, true),
    {
        self.sink_list(true)
    }

    /// Some node whose `object.serial` is `serial`.
    pub fn node_by_serial(&self, serial: u32) -> (r: Option<&NodeRec>)
        requires
            self.wf(),
        ensures
            match r {
                Some(n) => n.serial == Some(serial) && exists|id: u32|
                    #![trigger self.nodes_by_id@[id]]
                    self.nodes_by_id@.contains_key(id) && self.nodes_by_id@[id] == *n,
                None => forall|id: u32| #[trigger] self.nodes_by_id@.contains_key(id)
                    ==> self.nodes_by_id@[id].serial != Some(serial),
            },
    {
        let ghost es = self.nodes_by_id.entries();
        proof {
            self.nodes_by_id.lemma_entries();
        }
        let mut i: usize = 0;
        while i < self.nodes_by_id.count()
            invariant
                i <= es.len(),
                es == self.nodes_by_id.entries(),
                keys_unique(es),
                self.nodes_by_id@ == entries_map(es),
                forall|j: int| 0 <= j < i ==> (#[trigger] es[j]).1.serial != Some(serial),
            decreases es.len() - i,
        {
            let n = self.nodes_by_id.value_at(i);
            if n.serial == Some(serial) {
                proof {
                    lemma_entry(es, i as int);
                    assert(self.nodes_by_id@[es[i as int].0] == *n);
                }
                return Some(n);
            }
            i += 1;
        }
        proof {
            assert forall|id: u32| #[trigger] self.nodes_by_id@.contains_key(id) implies self.nodes_by_id@[id].serial != Some(serial) by {
                lemma_key(es, id);
                let j = key_index(es, id);
                assert(es[j].1.serial != Some(serial));
            }
        }
        None
    }

    fn class_pairs(&self, f: &ClassFilter) -> (r: Vec<(String, String)>)
        requires
            self.wf(),
        ensures
            sorted_strs(pair_keys(r@)),
            pair_keys(r@).to_set() == class_name_set(self.nodes_by_id@, *f),
            forall|k: int| 0 <= k < r@.len() ==> is_class_pair(self.nodes_by_id@, *f, #[trigger] pairs_view(r@)[k]),
    {
        let ghost es = self.nodes_by_id.entries();
        let ghost nodes = self.nodes_by_id@;
        proof {
            self.nodes_by_id.lemma_entries();
        }
        let mut v: Vec<(String, String)> = Vec::new();
        let mut i: usize = 0;
        assert(pair_keys(v@).to_set() =~= Set::<Seq<char>>::empty());
        while i < self.nodes_by_id.count()
            invariant
                i <= es.len(),
                es == self.nodes_by_id.entries(),
                nodes == self.nodes_by_id@,
                nodes == entries_map(es),
                keys_unique(es),
                sorted_strs(pair_keys(v@)),
                forall|x: Seq<char>| #[trigger] pair_keys(v@).to_set().contains(x) == exists|j: int|
                    0 <= j < i && class_match(*f, #[trigger] es[j].1) && es[j].1.name@ == x,
                forall|k: int| 0 <= k < v@.len() ==> is_class_pair(nodes, *f, #[trigger] pairs_view(v@)[k]),
            decreases es.len() - i,
        {
            let n = self.nodes_by_id.value_at(i);
            let pass = match f {
                ClassFilter::SourceLike => str_eq(n.media_class.as_str(), "Audio/Source") || ends_with(
                    n.media_class.as_str(),
                    "/Source",
                ) || contains(n.media_class.as_str(), "Source"),
                ClassFilter::Containing(c) => contains(n.media_class.as_str(), c.as_str()),
            };
            let ghost before = pair_keys(v@).to_set();
            let ghost pbefore = pairs_view(v@);
            if pass {
                proof {
                    lemma_entry(es, i as int);
                    assert(nodes[es[i as int].0] == *n);
                }
                insert_sorted_pair(&mut v, own(n.name.as_str()), own(n.description.as_str()));
                proof {
                    assert forall|k: int| 0 <= k < v@.len() implies is_class_pair(nodes, *f, #[trigger] pairs_view(v@)[k]) by {
                        if pairs_view(v@)[k] != (n.name@, n.description@) {
                            let q = choose|q: int| 0 <= q < pbefore.len() && pbefore[q] == pairs_view(v@)[k];
                            assert(is_class_pair(nodes, *f, pbefore[q]));
                        } else {
                            assert(nodes.contains_key(es[i as int].0) && class_match(*f, nodes[es[i as int].0]));
                        }
                    }
                }
            }
            proof {
                assert forall|x: Seq<char>| #[trigger] pair_keys(v@).to_set().contains(x) == exists|j: int|
                    0 <= j < i + 1 && class_match(*f, #[trigger] es[j].1) && es[j].1.name@ == x by {
                    if exists|j: int| 0 <= j < i + 1 && class_match(*f, #[trigger] es[j].1) && es[j].1.name@ == x {
                        let j = choose|j: int| 0 <= j < i + 1 && class_match(*f, #[trigger] es[j].1) && es[j].1.name@ == x;
                        if j < i {
                            assert(before.contains(x));
                        }
                    }
                    if before.contains(x) {
                        let j = choose|j: int| 0 <= j < i && class_match(*f, #[trigger] es[j].1) && es[j].1.name@ == x;
                        assert(0 <= j < i + 1 && class_match(*f, es[j].1) && es[j].1.name@ == x);
                    }
                    if pass && x == n.name@ {
                        assert(0 <= i < i + 1 && class_match(*f, es[i as int].1) && es[i as int].1.name@ == x);
                    }
                }
            }
            i += 1;
        }
        proof {
            assert forall|x: Seq<char>| #[trigger] pair_keys(v@).to_set().contains(x) == class_name_set(nodes, *f).contains(x) by {
                if pair_keys(v@).to_set().contains(x) {
                    let j = choose|j: int| 0 <= j < es.len() && class_match(*f, #[trigger] es[j].1) && es[j].1.name@ == x;
                    lemma_entry(es, j);
                    assert(nodes[es[j].0] == es[j].1);
                }
                if class_name_set(nodes, *f).contains(x) {
                    let id = choose|id: u32| #![trigger nodes[id]] nodes.contains_key(id) && class_match(*f, nodes[id]) && nodes[id].name@ == x;
                    lemma_key(es, id);
                    let j = key_index(es, id);
                    assert(0 <= j < es.len() && class_match(*f, es[j].1) && es[j].1.name@ == x);
                }
            }
            assert(pair_keys(v@).to_set() =~= class_name_set(nodes, *f));
        }
        v
    }

    /// `(name, description)` of the source nodes, sorted by name, one per name.
    pub fn source_names(&self) -> (r: Vec<(String, String)>)
        requires
            self.wf(),
        ensures
            sorted_strs(pair_keys(r@)),
            pair_keys(r@).to_set() == class_name_set(self.nodes_by_id@, ClassFilter::SourceLike),
            forall|k: int| 0 <= k < r@.len() ==> is_class_pair(
                self.nodes_by_id@,
                ClassFilter::SourceLike,
                #[trigger] pairs_view(r@)[k],
            ),
    {
        self.class_pairs(&ClassFilter::SourceLike)
    }

    /// `(name, description)` of the nodes whose media class holds
    /// `class_substr`, sorted by name, one per name.
    pub fn devices_of_class(&self, class_substr: &str) -> (r: Vec<(String, String)>)
        requires
            self.wf(),
        ensures
            sorted_strs(pair_keys(r@)),
            pair_keys(r@).to_set() == device_name_set(self.nodes_by_id@, class_substr@),
            forall|k: int| 0 <= k < r@.len() ==> is_device_pair(
                self.nodes_by_id@,
                class_substr@,
                #[trigger] pairs_view(r@)[k],
            ),
    {
        let f = ClassFilter::Containing(own(class_substr));
        let r = self.class_pairs(&f);
        proof {
            assert(pair_keys(r@).to_set() =~= device_name_set(self.nodes_by_id@, class_substr@));
            assert forall|k: int| 0 <= k < r@.len() implies is_device_pair(
                self.nodes_by_id@,
                class_substr@,
                #[trigger] pairs_view(r@)[k],
            ) by {
                assert(is_class_pair(self.nodes_by_id@, f, pairs_view(r@)[k]));
            }
        }
        r
    }

    /// The port records of `node_id`, in port id order.
    pub open spec fn ports_of_spec(&self, node_id: u32) -> Seq<PortRec> {
        if self.ports_by_node@.contains_key(node_id) {
            ports_list(self.ports_by_node@[node_id]@, self.ports_by_id@)
        } else {
            Seq::empty()
        }
    }

    /// The ports of `node_id`, in port id order.
    pub fn ports_of(&self, node_id: u32) -> (r: Vec<&PortRec>)
        requires
            self.wf(),
        ensures
            r@.map_values(|p: &PortRec| *p) == self.ports_of_spec(node_id),
    {
        let mut r: Vec<&PortRec> = Vec::new();
        match self.ports_by_node.get(&node_id) {
            None => {
                assert(r@.map_values(|p: &PortRec| *p) =~= Seq::<PortRec>::empty());
            },
            Some(ids) => {
                let mut i: usize = 0;
                assert(r@.map_values(|p: &PortRec| *p) =~= ports_list(ids@.take(0), self.ports_by_id@));
                while i < ids.len()
                    invariant
                        i <= ids.len(),
                        self.wf(),
                        r@.map_values(|p: &PortRec| *p) == ports_list(ids@.take(i as int), self.ports_by_id@),
                    decreases ids.len() - i,
                {
                    assert(ids@.take(i + 1).drop_last() =~= ids@.take(i as int));
                    match self.ports_by_id.get(&ids[i]) {
                        Some(p) => {
                            r.push(p);
                        },
                        None => {},
                    }
                    assert(r@.map_values(|p: &PortRec| *p) =~= ports_list(ids@.take(i + 1), self.ports_by_id@));
                    i += 1;
                }
                assert(ids@.take(ids.len() as int) =~= ids@);
            },
        }
        r
    }

    /// True when the node has at least one playback (in) and one monitor (out)
    /// port, or (duplex filters) an input and an output port among two or more.
    pub fn null_sink_ready(&self, name: &str) -> (r: bool)
        requires
            self.wf(),
        ensures
            r == (self.nodes_by_name@.contains_key(name@) && sink_ports_ready(
                self.ports_of_spec(self.nodes_by_name@[name@]),
            )),
    {
        let id = match self.node_id(name) {
            Some(id) => id,
            None => return false,
        };
        let ports = self.ports_of(id);
        let ghost ps = ports@.map_values(|p: &PortRec| *p);
        let mut has_play = false;
        let mut has_mon = false;
        let mut has_in = false;
        let mut has_out = false;
        let mut i: usize = 0;
        while i < ports.len()
            invariant
                i <= ports.len(),
                ps == ports@.map_values(|p: &PortRec| *p),
                has_play == exists|j: int| 0 <= j < i && #[trigger] is_playback_port(ps[j]),
                has_mon == exists|j: int| 0 <= j < i && #[trigger] is_monitor_port(ps[j]),
                has_in == exists|j: int| 0 <= j < i && #[trigger] ps[j].direction == PortDir::In,
                has_out == exists|j: int| 0 <= j < i && #[trigger] ps[j].direction == PortDir::Out,
            decreases ports.len() - i,
        {
            let p = ports[i];
            assert(ps[i as int] == *p);
            let lower = to_lowercase(p.name.as_str());
            let is_in = p.direction == PortDir::In;
            let is_out = p.direction == PortDir::Out;
            let play = is_in && lowered_playback_name(lower.as_str());
            let mon = is_out && lowered_monitor_name(lower.as_str());
            assert(play == is_playback_port(ps[i as int]));
            assert(mon == is_monitor_port(ps[i as int]));
            has_play = has_play || play;
            has_mon = has_mon || mon;
            has_in = has_in || is_in;
            has_out = has_out || is_out;
            i += 1;
        }
        (has_play && has_mon) || (has_in && has_out && ports.len() >= 2)
    }
}

} // verus!
