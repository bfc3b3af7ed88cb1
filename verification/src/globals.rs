//! What a registry global contributes to the registry snapshot: the node,
//! port and link records read from its props, the link factory, and when to
//! bind the `default` metadata (whose `default.audio.sink` the snapshot
//! caches). The caller turns the global's props dictionary into pairs.
use vstd::prelude::*;
use vstd::string::StringSliceAdditionalSpecFns;

use crate::graph::{GraphView, LinkRec, NodeRec, PortDir, PortRec, StreamProps};
use crate::ordset::pairs_view;
use crate::json::json_str_member;
use crate::session::{loose_name, parse_default_sink_json};
use crate::text::{opt_view, own, parse_u32, parse_u32_spec, str_eq};

verus! {

/// Kind of a registry global.
#[derive(Debug, Clone, Copy, PartialEq, Eq, Structural)]
pub enum GlobalKind {
    Node,
    Port,
    Link,
    Factory,
    Metadata,
    Other,
}

/// The value of `key` (the first entry with that key).
pub open spec fn prop_spec(ps: Seq<(Seq<char>, Seq<char>)>, key: Seq<char>) -> Option<Seq<char>>
    decreases ps.len(),
{
    if ps.len() == 0 {
        None
    } else if ps[0].0 == key {
        Some(ps[0].1)
    } else {
        prop_spec(ps.drop_first(), key)
    }
}

/// The value, or the empty text.
pub open spec fn or_empty(o: Option<Seq<char>>) -> Seq<char> {
    match o {
        Some(s) => s,
        None => Seq::empty(),
    }
}

/// The value parsed as `u32`, when present and numeric.
pub open spec fn parsed(o: Option<Seq<char>>) -> Option<u32> {
    match o {
        Some(s) => parse_u32_spec(s),
        None => None,
    }
}

/// The value when present and not empty.
pub open spec fn nonempty_prop(ps: Seq<(Seq<char>, Seq<char>)>, key: Seq<char>) -> Option<Seq<char>> {
    match prop_spec(ps, key) {
        Some(v) => if v.len() > 0 {
            Some(v)
        } else {
            None
        },
        None => None,
    }
}

fn prop(props: &Vec<(String, String)>, key: &str) -> (r: Option<String>)
    ensures
        opt_view(r) == prop_spec(pairs_view(props@), key@),
{
    let ghost pv = pairs_view(props@);
    let mut i: usize = 0;
    assert(pv.skip(0) =~= pv);
    while i < props.len()
        invariant
            i <= props.len(),
            pv == pairs_view(props@),
            prop_spec(pv, key@) == prop_spec(pv.skip(i as int), key@),
        decreases props.len() - i,
    {
        assert(pv.skip(i as int)[0] == pv[i as int]);
        assert(pv.skip(i as int).drop_first() =~= pv.skip(i + 1));
        if str_eq(props[i].0.as_str(), key) {
            return Some(own(props[i].1.as_str()));
        }
        i += 1;
    }
    None
}

fn prop_or_empty(props: &Vec<(String, String)>, key: &str) -> (r: String)
    ensures
        r@ == or_empty(prop_spec(pairs_view(props@), key@)),
{
    match prop(props, key) {
        Some(v) => v,
        None => String::new(),
    }
}

fn prop_u32(props: &Vec<(String, String)>, key: &str) -> (r: Option<u32>)
    ensures
        r == parsed(prop_spec(pairs_view(props@), key@)),
{
    match prop(props, key) {
        Some(v) => parse_u32(v.as_str()),
        None => None,
    }
}

fn prop_nonempty(props: &Vec<(String, String)>, key: &str) -> (r: Option<String>)
    ensures
        opt_view(r) == nonempty_prop(pairs_view(props@), key@),
{
    match prop(props, key) {
        Some(v) => if v.as_str().unicode_len() > 0 {
            Some(v)
        } else {
            None
        },
        None => None,
    }
}

/// The node record of global `id`: name, media class, description (or the
/// device description), `audio.rate` and `object.serial` when numeric.
pub open spec fn node_rec_ok(r: NodeRec, id: u32, ps: Seq<(Seq<char>, Seq<char>)>) -> bool {
    &&& r.id == id
    &&& r.name@ == or_empty(prop_spec(ps, "node.name"@))
    &&& r.media_class@ == or_empty(prop_spec(ps, "media.class"@))
    &&& r.description@ == or_empty(
        match prop_spec(ps, "node.description"@) {
            Some(d) => Some(d),
            None => prop_spec(ps, "device.description"@),
        },
    )
    &&& r.rate == parsed(prop_spec(ps, "audio.rate"@))
    &&& r.serial == parsed(prop_spec(ps, "object.serial"@))
}

/// The node record of global `id` read from its props.
pub fn node_record(id: u32, props: &Vec<(String, String)>) -> (r: NodeRec)
    ensures
        node_rec_ok(r, id, pairs_view(props@)),
{
    let description = match prop(props, "node.description") {
        Some(d) => d,
        None => prop_or_empty(props, "device.description"),
    };
    NodeRec {
        id,
        name: prop_or_empty(props, "node.name"),
        media_class: prop_or_empty(props, "media.class"),
        description,
        rate: prop_u32(props, "audio.rate"),
        serial: prop_u32(props, "object.serial"),
    }
}

/// The application props of a playback stream (empty values count as absent).
pub open spec fn stream_props_ok(sp: StreamProps, ps: Seq<(Seq<char>, Seq<char>)>) -> bool {
    &&& opt_view(sp.app_name) == nonempty_prop(ps, "application.name"@)
    &&& opt_view(sp.binary) == nonempty_prop(ps, "application.process.binary"@)
    &&& opt_view(sp.app_id) == nonempty_prop(ps, "application.id"@)
    &&& opt_view(sp.media_name) == nonempty_prop(ps, "media.name"@)
    &&& opt_view(sp.icon_name) == nonempty_prop(ps, "application.icon_name"@)
    &&& opt_view(sp.media_role) == nonempty_prop(ps, "media.role"@)
    &&& sp.node_virtual == (prop_spec(ps, "node.virtual"@) == Some("true"@))
}

/// The application props of a stream node read from its props.
pub fn stream_record(props: &Vec<(String, String)>) -> (r: StreamProps)
    ensures
        stream_props_ok(r, pairs_view(props@)),
{
    let virt = match prop(props, "node.virtual") {
        Some(v) => str_eq(v.as_str(), "true"),
        None => false,
    };
    StreamProps {
        app_name: prop_nonempty(props, "application.name"),
        binary: prop_nonempty(props, "application.process.binary"),
        app_id: prop_nonempty(props, "application.id"),
        media_name: prop_nonempty(props, "media.name"),
        icon_name: prop_nonempty(props, "application.icon_name"),
        media_role: prop_nonempty(props, "media.role"),
        node_virtual: virt,
    }
}

/// The port record of global `id`: its node (0 when unknown), name,
/// direction (`in` / `out`, else unknown) and channel.
pub open spec fn port_rec_ok(r: PortRec, id: u32, ps: Seq<(Seq<char>, Seq<char>)>) -> bool {
    &&& r.id == id
    &&& r.node_id == match parsed(prop_spec(ps, "node.id"@)) {
        Some(n) => n,
        None => 0,
    }
    &&& r.name@ == or_empty(prop_spec(ps, "port.name"@))
    &&& r.direction == (if prop_spec(ps, "port.direction"@) == Some("in"@) {
        PortDir::In
    } else if prop_spec(ps, "port.direction"@) == Some("out"@) {
        PortDir::Out
    } else {
        PortDir::Unknown
    })
    &&& r.channel@ == or_empty(prop_spec(ps, "audio.channel"@))
}

/// The port record of global `id` read from its props.
pub fn port_record(id: u32, props: &Vec<(String, String)>) -> (r: PortRec)
    ensures
        port_rec_ok(r, id, pairs_view(props@)),
{
    let node_id = match prop_u32(props, "node.id") {
        Some(n) => n,
        None => 0,
    };
    let direction = match prop(props, "port.direction") {
        Some(d) => if str_eq(d.as_str(), "in") {
            PortDir::In
        } else if str_eq(d.as_str(), "out") {
            PortDir::Out
        } else {
            PortDir::Unknown
        },
        None => PortDir::Unknown,
    };
    PortRec {
        id,
        node_id,
        name: prop_or_empty(props, "port.name"),
        direction,
        channel: prop_or_empty(props, "audio.channel"),
    }
}

/// A numeric prop, 0 when absent or not numeric.
pub open spec fn id_prop(ps: Seq<(Seq<char>, Seq<char>)>, key: Seq<char>) -> u32 {
    match parsed(prop_spec(ps, key)) {
        Some(n) => n,
        None => 0,
    }
}

/// The link record of global `id`: its output and input node and port.
pub open spec fn link_rec_ok(r: LinkRec, id: u32, ps: Seq<(Seq<char>, Seq<char>)>) -> bool {
    &&& r.id == id
    &&& r.out_node == id_prop(ps, "link.output.node"@)
    &&& r.out_port == id_prop(ps, "link.output.port"@)
    &&& r.in_node == id_prop(ps, "link.input.node"@)
    &&& r.in_port == id_prop(ps, "link.input.port"@)
}

fn id_of(props: &Vec<(String, String)>, key: &str) -> (r: u32)
    ensures
        r == id_prop(pairs_view(props@), key@),
{
    match prop_u32(props, key) {
        Some(n) => n,
        None => 0,
    }
}

/// The link record of global `id` read from its props.
pub fn link_record(id: u32, props: &Vec<(String, String)>) -> (r: LinkRec)
    ensures
        link_rec_ok(r, id, pairs_view(props@)),
{
    LinkRec {
        id,
        out_node: id_of(props, "link.output.node"),
        out_port: id_of(props, "link.output.port"),
        in_node: id_of(props, "link.input.node"),
        in_port: id_of(props, "link.input.port"),
    }
}

/// What the caller does after a global was seen.
#[derive(Debug, PartialEq, Eq)]
pub enum GlobalOutcome {
    /// Nothing to record.
    Ignored,
    /// The snapshot took it in.
    Recorded,
    /// Bind this `default` metadata and feed its properties to
    /// `on_metadata_property`.
    BindMetadata,
}

/// The snapshot tables other than these are unchanged.
pub open spec fn links_ports_same(a: GraphView, b: GraphView) -> bool {
    &&& a.ports_by_id@ == b.ports_by_id@
    &&& a.ports_by_node@ == b.ports_by_node@
    &&& a.links_by_id@ == b.links_by_id@
    &&& a.links_by_ports@ == b.links_by_ports@
}

pub open spec fn nodes_same(a: GraphView, b: GraphView) -> bool {
    &&& a.nodes_by_id@ == b.nodes_by_id@
    &&& a.nodes_by_name@ == b.nodes_by_name@
    &&& a.stream_props_by_id@ == b.stream_props_by_id@
}

pub open spec fn meta_same(a: GraphView, b: GraphView) -> bool {
    &&& a.link_factory == b.link_factory
    &&& a.default_audio_sink == b.default_audio_sink
}

/// The factory that creates links, when the global is one.
pub open spec fn link_factory_name(ps: Seq<(Seq<char>, Seq<char>)>) -> Option<Seq<char>> {
    if prop_spec(ps, "factory.type.name"@) == Some("PipeWire:Interface:Link"@) {
        prop_spec(ps, "factory.name"@)
    } else {
        None
    }
}

/// Take in the registry global `id` of `kind` with `props` (none: the
/// global carries no props and is skipped). Nodes (with the application
/// props of playback streams), ports and links are recorded; the link
/// factory's name is kept; the `default` metadata is bound once.
pub fn on_global(
    view: &mut GraphView,
    id: u32,
    kind: GlobalKind,
    props: Option<&Vec<(String, String)>>,
    metadata_bound: bool,
) -> (r: GlobalOutcome)
    requires
        old(view).wf(),
    ensures
        final(view).wf(),
        match props {
            None => r == GlobalOutcome::Ignored && *final(view) == *old(view),
            Some(p) => {
                let ps = pairs_view(p@);
                match kind {
                    GlobalKind::Node => {
                        let rec = final(view).nodes_by_id@[id];
                        let stream = or_empty(prop_spec(ps, "media.class"@)) == "Stream/Output/Audio"@;
                        &&& r == GlobalOutcome::Recorded
                        &&& node_rec_ok(rec, id, ps)
                        &&& final(view).nodes_by_id@ == old(view).nodes_by_id@.insert(id, rec)
                        &&& final(view).nodes_by_name@ == (if rec.name@.len() > 0 {
                            old(view).nodes_by_name@.insert(rec.name@, id)
                        } else {
                            old(view).nodes_by_name@
                        })
                        &&& (if stream {
                            &&& final(view).stream_props_by_id@ == old(view).stream_props_by_id@.insert(
                                id,
                                final(view).stream_props_by_id@[id],
                            )
                            &&& stream_props_ok(final(view).stream_props_by_id@[id], ps)
                        } else {
                            final(view).stream_props_by_id@ == old(view).stream_props_by_id@
                        })
                        &&& links_ports_same(*final(view), *old(view))
                        &&& meta_same(*final(view), *old(view))
                    },
                    GlobalKind::Port => {
                        let rec = final(view).ports_by_id@[id];
                        &&& r == GlobalOutcome::Recorded
                        &&& port_rec_ok(rec, id, ps)
                        &&& final(view).ports_by_id@ == old(view).ports_by_id@.insert(id, rec)
                        &&& final(view).ports_by_node@.dom() == old(view).ports_by_node@.dom().insert(rec.node_id)
                        &&& final(view).ports_by_node@[rec.node_id]@.to_set() == (if old(
                            view,
                        ).ports_by_node@.contains_key(rec.node_id) {
                            old(view).ports_by_node@[rec.node_id]@.to_set()
                        } else {
                            Set::<u32>::empty()
                        }).insert(id)
                        &&& nodes_same(*final(view), *old(view))
                        &&& final(view).links_by_id@ == old(view).links_by_id@
                        &&& meta_same(*final(view), *old(view))
                    },
                    GlobalKind::Link => {
                        let rec = final(view).links_by_id@[id];
                        &&& r == GlobalOutcome::Recorded
                        &&& link_rec_ok(rec, id, ps)
                        &&& final(view).links_by_id@ == old(view).links_by_id@.insert(id, rec)
                        &&& final(view).links_by_ports@ == old(view).links_by_ports@.insert(
                            (rec.out_port, rec.in_port),
                            id,
                        )
                        &&& nodes_same(*final(view), *old(view))
                        &&& final(view).ports_by_id@ == old(view).ports_by_id@
                        &&& final(view).ports_by_node@ == old(view).ports_by_node@
                        &&& meta_same(*final(view), *old(view))
                    },
                    GlobalKind::Factory => {
                        &&& nodes_same(*final(view), *old(view))
                        &&& links_ports_same(*final(view), *old(view))
                        &&& final(view).generation == old(view).generation
                        &&& final(view).default_audio_sink == old(view).default_audio_sink
                        &&& match link_factory_name(ps) {
                            Some(n) => r == GlobalOutcome::Recorded && opt_view(final(view).link_factory) == Some(n),
                            None => r == GlobalOutcome::Ignored && final(view).link_factory == old(
                                view,
                            ).link_factory,
                        }
                    },
                    GlobalKind::Metadata => {
                        &&& *final(view) == *old(view)
                        &&& r == (if or_empty(prop_spec(ps, "metadata.name"@)) == "default"@ && !metadata_bound {
                            GlobalOutcome::BindMetadata
                        } else {
                            GlobalOutcome::Ignored
                        })
                    },
                    GlobalKind::Other => r == GlobalOutcome::Ignored && *final(view) == *old(view),
                }
            },
        },
{
    let p = match props {
        Some(p) => p,
        None => return GlobalOutcome::Ignored,
    };
    match kind {
        GlobalKind::Node => {
            let rec = node_record(id, p);
            let stream = str_eq(rec.media_class.as_str(), "Stream/Output/Audio");
            view.insert_node(rec);
            if stream {
                let sp = stream_record(p);
                view.insert_stream_props(id, sp);
            }
            GlobalOutcome::Recorded
        },
        GlobalKind::Port => {
            view.insert_port(port_record(id, p));
            GlobalOutcome::Recorded
        },
        GlobalKind::Link => {
            view.insert_link(link_record(id, p));
            GlobalOutcome::Recorded
        },
        GlobalKind::Factory => {
            let is_link = match prop(p, "factory.type.name") {
                Some(t) => str_eq(t.as_str(), "PipeWire:Interface:Link"),
                None => false,
            };
            if !is_link {
                return GlobalOutcome::Ignored;
            }
            match prop(p, "factory.name") {
                Some(n) => {
                    view.link_factory = Some(n);
                    GlobalOutcome::Recorded
                },
                None => GlobalOutcome::Ignored,
            }
        },
        GlobalKind::Metadata => {
            let name = prop_or_empty(p, "metadata.name");
            if str_eq(name.as_str(), "default") && !metadata_bound {
                GlobalOutcome::BindMetadata
            } else {
                GlobalOutcome::Ignored
            }
        },
        GlobalKind::Other => GlobalOutcome::Ignored,
    }
}

/// The metadata key is `default.audio.sink`.
pub open spec fn sink_key(key: Option<&str>) -> bool {
    match key {
        Some(k) => k@ == "default.audio.sink"@,
        None => false,
    }
}

/// A property change of the bound `default` metadata: `default.audio.sink`
/// sets the cached default sink to the name its value holds (none when the
/// value is removed or holds no name); other keys change nothing.
pub fn on_metadata_property(view: &mut GraphView, key: Option<&str>, value: Option<&str>)
    ensures
        final(view).generation == old(view).generation,
        nodes_same(*final(view), *old(view)),
        links_ports_same(*final(view), *old(view)),
        final(view).link_factory == old(view).link_factory,
        sink_key(key) ==> opt_view(final(view).default_audio_sink) == match value {
            Some(v) => match json_str_member(v.spec_bytes(), "name"@) {
                Some(n) => Some(n),
                None => loose_name(v@),
            },
            None => None,
        },
        !sink_key(key) ==> final(view).default_audio_sink == old(view).default_audio_sink,
{
    let is_default = match key {
        Some(k) => str_eq(k, "default.audio.sink"),
        None => false,
    };
    if !is_default {
        return;
    }
    view.default_audio_sink = match value {
        Some(v) => parse_default_sink_json(v),
        None => None,
    };
}

} // verus!
