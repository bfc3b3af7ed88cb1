//! Decisions of the native control plane: when an RPC timeout kills the plane,
//! and what the registry snapshot answers to the engine's queries.
use vstd::prelude::*;
use vstd::string::StringSliceAdditionalSpecFns;

use crate::domain::{DeviceNode, GraphSnapshot};
use crate::graph::{class_name_set, is_class_pair, sink_name_set, ClassFilter, GraphView, LinkRec, NodeRec, StreamProps};
use crate::link::pw_node;
use crate::ordset::{pair_keys, pairs_view, sorted_strs, strs_view};
use crate::table::{entries_map, keys_unique, lemma_entry, lemma_key, key_index};
use crate::text::{has_infix, has_prefix, has_suffix, opt_view, own, starts_with, str_eq, ends_with, without_suffix};

verus! {

/// Consecutive RPC timeouts that mark the plane dead (one 800 ms miss is
/// normal during clock migration or node churn).
pub const RPC_TIMEOUT_DEATH: u32 = 8;

/// Whether a timeout should mark the control plane dead.
pub fn timeout_kills_plane(consecutive: u32, mutation_in_flight: bool) -> (r: bool)
    ensures
        r == (!mutation_in_flight && consecutive >= RPC_TIMEOUT_DEATH),
{
    !mutation_in_flight && consecutive >= RPC_TIMEOUT_DEATH
}

/// Count of consecutive RPC timeouts.
pub struct RpcTimeouts {
    pub consecutive: u32,
}

impl RpcTimeouts {
    /// No timeout seen yet.
    pub fn new() -> (r: Self)
        ensures
            r.consecutive == 0,
    {
        RpcTimeouts { consecutive: 0 }
    }

    /// A reply arrived: the streak ends.
    pub fn note_rpc_ok(&mut self)
        ensures
            final(self).consecutive == 0,
    {
        self.consecutive = 0;
    }

    /// A reply timed out: no timeout is fatal while a clock mutation is in
    /// flight (and the streak is left as it was); otherwise the streak grows
    /// and is fatal once it reaches `RPC_TIMEOUT_DEATH`.
    pub fn rpc_timeout_is_fatal(&mut self, mutation_in_flight: bool) -> (r: bool)
        requires
            old(self).consecutive < u32::MAX,
        ensures
            mutation_in_flight ==> !r && final(self).consecutive == old(self).consecutive,
            !mutation_in_flight ==> final(self).consecutive == old(self).consecutive + 1
                && r == (final(self).consecutive >= RPC_TIMEOUT_DEATH),
    {
        if mutation_in_flight {
            return false;
        }
        self.consecutive = self.consecutive + 1;
        timeout_kills_plane(self.consecutive, false)
    }
}

/// Liveness of the control plane.
pub struct PlaneState {
    pub dead: bool,
    /// Bumps on each successful reconnect.
    pub generation: u64,
}

impl PlaneState {
    /// A fresh plane: alive, generation 0.
    pub fn new() -> (r: Self)
        ensures
            !r.dead,
            r.generation == 0,
    {
        PlaneState { dead: false, generation: 0 }
    }

    /// True after core death or mainloop exit until a reconnect succeeds.
    pub fn plane_is_dead(&self) -> (r: bool)
        ensures
            r == self.dead,
    {
        self.dead
    }

    /// Control-plane generation.
    pub fn plane_generation(&self) -> (r: u64)
        ensures
            r == self.generation,
    {
        self.generation
    }

    /// The registry view callers may read: none while the plane is dead
    /// (`plane` is the started plane's view, none when no plane runs).
    pub fn shared_view<'a>(&self, plane: Option<&'a GraphView>) -> (r: Option<&'a GraphView>)
        ensures
            r == (if self.dead {
                None
            } else {
                plane
            }),
    {
        if self.dead {
            return None;
        }
        plane
    }

    /// The plane is alive and its registry sync reported ready (`plane` is
    /// the started plane's ready flag, none when no plane runs).
    pub fn is_ready(&self, plane: Option<bool>) -> (r: bool)
        ensures
            r == (!self.dead && plane == Some(true)),
    {
        if self.dead {
            return false;
        }
        match plane {
            Some(ready) => ready,
            None => false,
        }
    }

    /// Mark the plane dead and wipe the registry cache.
    pub fn mark_dead(&mut self, view: &mut GraphView)
        ensures
            final(self).dead,
            final(self).generation == old(self).generation,
            final(view).wf(),
            final(view).nodes_by_id@ == Map::<u32, NodeRec>::empty(),
            final(view).links_by_id@ == Map::<u32, LinkRec>::empty(),
    {
        self.dead = true;
        view.clear();
    }

    /// The outcome of a reconnect: a plane whose registry sync became ready
    /// is alive with the next generation; otherwise the plane stays dead.
    pub fn finish_reconnect(&mut self, ready: bool) -> (r: bool)
        ensures
            r == ready,
            ready ==> !final(self).dead && final(self).generation == (if old(self).generation == u64::MAX {
                0
            } else {
                (old(self).generation + 1) as u64
            }),
            !ready ==> final(self).dead && final(self).generation == old(self).generation,
    {
        if !ready {
            self.dead = true;
            return false;
        }
        self.dead = false;
        self.generation = self.generation.wrapping_add(1);
        true
    }

    /// What a request for the plane finds: a dead plane refuses; a running
    /// plane (`plane` is its ready flag) is used once ready and refused while
    /// still syncing; with no plane running one is started.
    pub fn start_decision(&self, plane: Option<bool>) -> (r: PlaneStart)
        ensures
            r == (if self.dead {
                PlaneStart::Dead
            } else {
                match plane {
                    Some(true) => PlaneStart::Ready,
                    Some(false) => PlaneStart::Syncing,
                    None => PlaneStart::Start,
                }
            }),
    {
        if self.dead {
            return PlaneStart::Dead;
        }
        match plane {
            Some(true) => PlaneStart::Ready,
            Some(false) => PlaneStart::Syncing,
            None => PlaneStart::Start,
        }
    }

    /// A freshly started plane is installed only when no other plane got in
    /// first (`plane_present`); installing bumps the generation.
    pub fn install_started(&mut self, plane_present: bool) -> (installed: bool)
        ensures
            installed == !plane_present,
            final(self).dead == old(self).dead,
            final(self).generation == (if installed {
                if old(self).generation == u64::MAX {
                    0
                } else {
                    (old(self).generation + 1) as u64
                }
            } else {
                old(self).generation
            }),
    {
        if plane_present {
            return false;
        }
        self.generation = self.generation.wrapping_add(1);
        true
    }
}

/// What a request for the control plane finds.
#[derive(PartialEq, Eq, Structural, Debug, Clone, Copy)]
pub enum PlaneStart {
    /// The plane is dead and awaits a reconnect.
    Dead,
    /// The plane is up and its registry is synced.
    Ready,
    /// The plane is starting and not synced yet.
    Syncing,
    /// No plane runs: start one.
    Start,
}

/// Linux `ENOENT`: a destroy that reached an object already gone.
pub const ERRNO_NOENT: i32 = 2;

/// Linux `EPIPE`: the daemon's socket closed.
pub const ERRNO_PIPE: i32 = 32;

/// Linux `ECONNRESET`: the daemon reset the connection.
pub const ERRNO_CONNRESET: i32 = 104;

/// What an error event of the core means for the plane.
#[derive(PartialEq, Eq, Structural, Debug, Clone, Copy)]
pub enum CoreErrorVerdict {
    /// Not about the core, or a stale destroy: nothing to do.
    Ignore,
    /// Worth a log line; the plane lives on.
    Report,
    /// The connection is gone: the plane is dead.
    Fatal,
}

/// The verdict on a core error event (`res` is the negated errno).
pub open spec fn core_error_spec(from_core: bool, res: int, msg: Seq<char>) -> CoreErrorVerdict {
    if !from_core || res == -ERRNO_NOENT || has_infix(msg, "unknown resource"@) {
        CoreErrorVerdict::Ignore
    } else if res == -ERRNO_PIPE || res == -ERRNO_CONNRESET || has_infix(msg, "connection"@)
        || has_infix(msg, "core gone"@) {
        CoreErrorVerdict::Fatal
    } else {
        CoreErrorVerdict::Report
    }
}

/// Classify an error event of the core: events of other objects and stale
/// destroys (`ENOENT`, "unknown resource") are ignored; a broken pipe, a
/// reset connection, or a message about the connection or a gone core is
/// fatal; anything else is reported.
pub fn core_error_verdict(from_core: bool, res: i32, message: &str) -> (r: CoreErrorVerdict)
    ensures
        r == core_error_spec(from_core, res as int, message@),
{
    if !from_core || res == -ERRNO_NOENT || crate::text::contains(message, "unknown resource") {
        return CoreErrorVerdict::Ignore;
    }
    if res == -ERRNO_PIPE || res == -ERRNO_CONNRESET || crate::text::contains(message, "connection")
        || crate::text::contains(message, "core gone") {
        return CoreErrorVerdict::Fatal;
    }
    CoreErrorVerdict::Report
}

/// What a `done` event of the core settles.
#[derive(PartialEq, Eq, Structural, Debug, Clone, Copy)]
pub struct DoneOutcome {
    /// The initial registry sync finished: the plane is ready.
    pub ready: bool,
    /// The sync that a queued follow-up waits on finished: run it now.
    pub run_follow_up: bool,
    /// The sync still awaited afterwards.
    pub awaited: Option<i32>,
}

/// What a `done` event with sequence `seq` settles: only events of the core
/// count; the initial sync (`initial`) marks the plane ready, and the awaited
/// sync (`awaited`) releases its follow-up and is no longer awaited.
pub open spec fn done_spec(from_core: bool, seq: i32, initial: i32, awaited: Option<i32>) -> DoneOutcome {
    let fire = from_core && awaited == Some(seq);
    DoneOutcome {
        ready: from_core && seq == initial,
        run_follow_up: fire,
        awaited: if fire {
            None
        } else {
            awaited
        },
    }
}

/// Handle a `done` event of the core connection.
pub fn on_core_done(from_core: bool, seq: i32, initial: i32, awaited: Option<i32>) -> (r: DoneOutcome)
    ensures
        r == done_spec(from_core, seq, initial, awaited),
{
    if !from_core {
        return DoneOutcome { ready: false, run_follow_up: false, awaited };
    }
    let ready = seq == initial;
    match awaited {
        Some(want) => {
            if want == seq {
                DoneOutcome { ready, run_follow_up: true, awaited: None }
            } else {
                DoneOutcome { ready, run_follow_up: false, awaited }
            }
        },
        None => DoneOutcome { ready, run_follow_up: false, awaited },
    }
}

/// A follow-up runs at most once: after a `done` event released it, the same
/// event seen again (or any later one) releases nothing until a new sync is
/// awaited.
pub proof fn law_follow_up_runs_once(from_core: bool, seq: i32, initial: i32, awaited: Option<i32>, later: i32)
    ensures
        !done_spec(from_core, later, initial, done_spec(from_core, seq, initial, awaited).awaited).run_follow_up
            || !done_spec(from_core, seq, initial, awaited).run_follow_up,
{
}

/// Cached `default.audio.sink` name (none without a registry view).
pub fn default_sink_name(view: Option<&GraphView>) -> (r: Option<String>)
    ensures
        opt_view(r) == match view {
            Some(g) => opt_view(g.default_audio_sink),
            None => None,
        },
{
    match view {
        Some(g) => match &g.default_audio_sink {
            Some(s) => Some(own(s.as_str())),
            None => None,
        },
        None => None,
    }
}

/// Source devices of the registry (none without a view).
pub fn list_source_devices(view: Option<&GraphView>) -> (r: Vec<(String, String)>)
    requires
        view matches Some(g) ==> g.wf(),
    ensures
        view is None ==> r@.len() == 0,
        view matches Some(g) ==> crate::ordset::sorted_strs(crate::ordset::pair_keys(r@))
            && crate::ordset::pair_keys(r@).to_set() == crate::graph::class_name_set(
            g.nodes_by_id@,
            crate::graph::ClassFilter::SourceLike,
        ),
{
    match view {
        Some(g) => g.source_names(),
        None => Vec::new(),
    }
}

/// MIDI nodes of the registry (none without a view).
pub fn list_midi_nodes(view: Option<&GraphView>) -> (r: Vec<(String, String)>)
    requires
        view matches Some(g) ==> g.wf(),
    ensures
        view is None ==> r@.len() == 0,
        view matches Some(g) ==> crate::ordset::sorted_strs(crate::ordset::pair_keys(r@))
            && crate::ordset::pair_keys(r@).to_set() == crate::graph::device_name_set(
            g.nodes_by_id@,
            "Midi"@,
        ),
{
    match view {
        Some(g) => g.devices_of_class("Midi"),
        None => Vec::new(),
    }
}

/// Whether a node of that name is in the registry.
pub fn sink_exists(view: Option<&GraphView>, name: &str) -> (r: bool)
    requires
        view matches Some(g) ==> g.wf(),
    ensures
        r == match view {
            Some(g) => g.nodes_by_name@.contains_key(name@) && g.nodes_by_id@.contains_key(
                g.nodes_by_name@[name@],
            ),
            None => false,
        },
{
    match view {
        Some(g) => g.node(name).is_some(),
        None => false,
    }
}

/// Registry id of the node named `name`.
pub fn find_node_id(view: Option<&GraphView>, name: &str) -> (r: Option<u32>)
    requires
        view matches Some(g) ==> g.wf(),
    ensures
        r == match view {
            Some(g) => if g.nodes_by_name@.contains_key(name@) {
                Some(g.nodes_by_name@[name@])
            } else {
                None::<u32>
            },
            None => None::<u32>,
        },
{
    match view {
        Some(g) => g.node_id(name),
        None => None,
    }
}

/// Sink names of the registry (none without a view).
pub fn list_sink_names(view: Option<&GraphView>) -> (r: Vec<String>)
    requires
        view matches Some(g) ==> g.wf(),
    ensures
        view is None ==> r@.len() == 0,
        view matches Some(g) ==> crate::ordset::sorted_strs(strs_view(r@)) && strs_view(r@).to_set()
            == crate::graph::sink_name_set(g.nodes_by_id@, false),
{
    match view {
        Some(g) => g.sink_names(),
        None => Vec::new(),
    }
}

/// The registry's description of `name`, or the name itself when the node
/// is unknown.
pub open spec fn description_or_name(g: GraphView, name: Seq<char>) -> Seq<char> {
    if g.nodes_by_name@.contains_key(name) && g.nodes_by_id@.contains_key(g.nodes_by_name@[name]) {
        g.nodes_by_id@[g.nodes_by_name@[name]].description@
    } else {
        name
    }
}

/// Names of a device list.
pub open spec fn device_names(v: Seq<DeviceNode>) -> Seq<Seq<char>> {
    v.map_values(|d: DeviceNode| d.name@)
}

/// The devices the native backend reports from a ready registry: every sink
/// with its description (its name when it has none on record) and every
/// source device; none when the registry knows neither sinks nor sources, so
/// that the caller asks `pactl` instead.
pub fn native_snapshot(view: &GraphView) -> (r: Option<GraphSnapshot>)
    requires
        view.wf(),
    ensures
        match r {
            None => sink_name_set(view.nodes_by_id@, false).is_empty() && class_name_set(
                view.nodes_by_id@,
                ClassFilter::SourceLike,
            ).is_empty(),
            Some(snap) => {
                &&& sorted_strs(device_names(snap.sinks@))
                &&& device_names(snap.sinks@).to_set() == sink_name_set(view.nodes_by_id@, false)
                &&& forall|i: int|
                    0 <= i < snap.sinks@.len() ==> #[trigger] snap.sinks@[i].description@
                        == description_or_name(*view, snap.sinks@[i].name@)
                &&& sorted_strs(device_names(snap.sources@))
                &&& device_names(snap.sources@).to_set() == class_name_set(
                    view.nodes_by_id@,
                    ClassFilter::SourceLike,
                )
                &&& forall|i: int|
                    0 <= i < snap.sources@.len() ==> is_class_pair(
                        view.nodes_by_id@,
                        ClassFilter::SourceLike,
                        (#[trigger] snap.sources@[i].name@, snap.sources@[i].description@),
                    )
                &&& (snap.sinks@.len() > 0 || snap.sources@.len() > 0)
            },
        },
{
    let names = view.sink_names();
    let mut sinks: Vec<DeviceNode> = Vec::new();
    let mut i: usize = 0;
    while i < names.len()
        invariant
            i <= names.len(),
            view.wf(),
            sinks.len() == i,
            forall|j: int| 0 <= j < i ==> #[trigger] sinks@[j].name@ == names@[j]@,
            forall|j: int|
                0 <= j < i ==> #[trigger] sinks@[j].description@ == description_or_name(
                    *view,
                    sinks@[j].name@,
                ),
        decreases names.len() - i,
    {
        let name = own(names[i].as_str());
        let description = match view.node(name.as_str()) {
            Some(n) => own(n.description.as_str()),
            None => own(name.as_str()),
        };
        sinks.push(DeviceNode { name, description });
        i += 1;
    }
    assert(device_names(sinks@) =~= strs_view(names@));
    let pairs = view.source_names();
    let mut sources: Vec<DeviceNode> = Vec::new();
    let mut k: usize = 0;
    while k < pairs.len()
        invariant
            k <= pairs.len(),
            sources.len() == k,
            forall|j: int|
                0 <= j < k ==> #[trigger] sources@[j].name@ == pairs@[j].0@ && sources@[j].description@
                    == pairs@[j].1@,
            forall|j: int|
                0 <= j < pairs@.len() ==> is_class_pair(
                    view.nodes_by_id@,
                    ClassFilter::SourceLike,
                    #[trigger] pairs_view(pairs@)[j],
                ),
        decreases pairs.len() - k,
    {
        sources.push(DeviceNode { name: own(pairs[k].0.as_str()), description: own(pairs[k].1.as_str()) });
        k += 1;
    }
    assert(device_names(sources@) =~= pair_keys(pairs@));
    if sinks.len() == 0 && sources.len() == 0 {
        assert(strs_view(names@).to_set() =~= Set::<Seq<char>>::empty());
        assert(pair_keys(pairs@).to_set() =~= Set::<Seq<char>>::empty());
        return None;
    }
    let snap = GraphSnapshot { sinks, sources };
    assert(sorted_strs(device_names(snap.sinks@)));
    assert(device_names(snap.sinks@).to_set() == sink_name_set(view.nodes_by_id@, false));
    assert(sorted_strs(device_names(snap.sources@)));
    assert(device_names(snap.sources@).to_set() == class_name_set(view.nodes_by_id@, ClassFilter::SourceLike));
    assert forall|i: int| 0 <= i < snap.sources@.len() implies is_class_pair(
        view.nodes_by_id@,
        ClassFilter::SourceLike,
        (#[trigger] snap.sources@[i].name@, snap.sources@[i].description@),
    ) by {
        assert(pairs_view(pairs@)[i] == (snap.sources@[i].name@, snap.sources@[i].description@));
    }
    Some(snap)
}

/// Registry change counter (none without a view).
pub fn graph_generation(view: Option<&GraphView>) -> (r: Option<u64>)
    ensures
        r == match view {
            Some(g) => Some(g.generation),
            None => None::<u64>,
        },
{
    match view {
        Some(g) => Some(g.generation),
        None => None,
    }
}

/// Remember a node id learned elsewhere: id 0 and ids already known are
/// ignored; otherwise a bare node record with that name is added.
pub fn cache_node_id(view: &mut GraphView, name: &str, id: u32)
    requires
        old(view).wf(),
    ensures
        final(view).wf(),
        (id == 0 || old(view).nodes_by_id@.contains_key(id)) ==> *final(view) == *old(view),
        (id != 0 && !old(view).nodes_by_id@.contains_key(id)) ==> {
            &&& final(view).nodes_by_id@.dom() == old(view).nodes_by_id@.dom().insert(id)
            &&& final(view).nodes_by_id@[id].id == id
            &&& final(view).nodes_by_id@[id].name@ == name@
            &&& final(view).nodes_by_id@[id].media_class@.len() == 0
            &&& final(view).nodes_by_id@[id].description@.len() == 0
            &&& final(view).nodes_by_id@[id].rate is None
            &&& final(view).nodes_by_id@[id].serial is None
            &&& final(view).nodes_by_name@ == (if name@.len() > 0 {
                old(view).nodes_by_name@.insert(name@, id)
            } else {
                old(view).nodes_by_name@
            })
        },
{
    if id == 0 {
        return;
    }
    if view.nodes_by_id.contains_key(&id) {
        return;
    }
    view.insert_node(
        NodeRec {
            id,
            name: own(name),
            media_class: String::new(),
            description: String::new(),
            rate: None,
            serial: None,
        },
    );
}

/// One live playback stream of the registry (Apps discovery).
#[derive(Debug)]
pub struct PlaybackStreamInfo {
    /// PipeWire `object.serial`: equals the Pulse sink-input index.
    pub serial: u32,
    pub node_name: String,
    /// Sink node the stream currently feeds (via links); empty while settling.
    pub sink: String,
    pub app_name: Option<String>,
    pub binary: Option<String>,
    pub app_id: Option<String>,
    pub media_name: Option<String>,
    pub icon_name: Option<String>,
    pub media_role: Option<String>,
    pub node_virtual: bool,
}

/// An application playback stream with a serial.
pub open spec fn is_playback_stream(n: NodeRec) -> bool {
    n.media_class@ == "Stream/Output/Audio"@ && n.serial is Some
}

/// The sink a stream feeds, scanning the first `k` link entries: the first
/// peer, replaced once by the first `Audio/Sink*` peer that follows; with
/// whether that sink is an `Audio/Sink*` node.
pub open spec fn sink_scan(ls: Seq<(u32, LinkRec)>, nodes: Map<u32, NodeRec>, nid: u32, k: nat) -> (
    Seq<char>,
    bool,
)
    decreases k,
{
    if k == 0 {
        (Seq::empty(), false)
    } else {
        let (s, a) = sink_scan(ls, nodes, nid, (k - 1) as nat);
        let l = ls[k - 1].1;
        if l.out_node != nid || !nodes.contains_key(l.in_node) {
            (s, a)
        } else {
            let peer = nodes[l.in_node];
            let is_audio = has_prefix(peer.media_class@, "Audio/Sink"@);
            if s.len() == 0 || (is_audio && !a) {
                (peer.name@, is_audio)
            } else {
                (s, a)
            }
        }
    }
}

fn stream_sink(g: &GraphView, nid: u32) -> (r: String)
    requires
        g.wf(),
    ensures
        r@ == sink_scan(g.links_by_id.entries(), g.nodes_by_id@, nid, g.links_by_id.entries().len()).0,
{
    let ghost ls = g.links_by_id.entries();
    let mut sink = String::new();
    let mut sink_is_audio = false;
    let mut i: usize = 0;
    while i < g.links_by_id.count()
        invariant
            i <= ls.len(),
            ls == g.links_by_id.entries(),
            g.wf(),
            (sink@, sink_is_audio) == sink_scan(ls, g.nodes_by_id@, nid, i as nat),
        decreases ls.len() - i,
    {
        let l = g.links_by_id.value_at(i);
        if l.out_node == nid {
            match g.nodes_by_id.get(&l.in_node) {
                Some(peer) => {
                    let is_audio = starts_with(peer.media_class.as_str(), "Audio/Sink");
                    if sink.as_str().is_empty() || (is_audio && !sink_is_audio) {
                        sink = own(peer.name.as_str());
                        sink_is_audio = is_audio;
                    }
                },
                None => {},
            }
        }
        i += 1;
    }
    sink
}

/// The serial of the node entry at `j`.
pub open spec fn serial_at(es: Seq<(u32, NodeRec)>, j: int) -> u32 {
    es[j].1.serial->0
}

/// Where a stream with serial `s` goes in an order sorted by serial: after
/// every entry whose serial is not above `s`.
pub open spec fn first_greater(order: Seq<int>, es: Seq<(u32, NodeRec)>, s: u32) -> int
    decreases order.len(),
{
    if order.len() == 0 {
        0
    } else if serial_at(es, order[0]) > s {
        0
    } else {
        1 + first_greater(order.drop_first(), es, s)
    }
}

/// Entry indices of the playback streams among the first `k` node entries,
/// stably sorted by serial.
pub open spec fn stream_order(es: Seq<(u32, NodeRec)>, k: nat) -> Seq<int>
    decreases k,
{
    if k == 0 {
        Seq::empty()
    } else {
        let o = stream_order(es, (k - 1) as nat);
        if is_playback_stream(es[k - 1].1) {
            o.insert(first_greater(o, es, serial_at(es, k - 1)), k - 1)
        } else {
            o
        }
    }
}

proof fn lemma_first_greater(order: Seq<int>, es: Seq<(u32, NodeRec)>, s: u32)
    ensures
        0 <= first_greater(order, es, s) <= order.len(),
        forall|q: int| 0 <= q < first_greater(order, es, s) ==> serial_at(es, #[trigger] order[q]) <= s,
    decreases order.len(),
{
    if order.len() > 0 && serial_at(es, order[0]) <= s {
        lemma_first_greater(order.drop_first(), es, s);
        assert forall|q: int| 0 <= q < first_greater(order, es, s) implies serial_at(es, #[trigger] order[q]) <= s by {
            if q > 0 {
                assert(order[q] == order.drop_first()[q - 1]);
            }
        }
    }
}

proof fn lemma_stream_order(es: Seq<(u32, NodeRec)>, k: nat)
    requires
        k <= es.len(),
    ensures
        forall|q: int| 0 <= q < stream_order(es, k).len() ==> 0 <= #[trigger] stream_order(es, k)[q] < k
            && is_playback_stream(es[stream_order(es, k)[q]].1),
        forall|a: int, b: int| 0 <= a < b < stream_order(es, k).len() ==> serial_at(es, #[trigger] stream_order(es, k)[a])
            <= serial_at(es, #[trigger] stream_order(es, k)[b]),
    decreases k,
{
    if k > 0 {
        lemma_stream_order(es, (k - 1) as nat);
        let o = stream_order(es, (k - 1) as nat);
        if is_playback_stream(es[k - 1].1) {
            let sv = serial_at(es, k - 1);
            let p = first_greater(o, es, sv);
            lemma_first_greater(o, es, sv);
            lemma_first_greater_rest(o, es, sv);
            let n = o.insert(p, k - 1);
            assert forall|q: int| 0 <= q < n.len() implies 0 <= #[trigger] n[q] < k && is_playback_stream(es[n[q]].1) by {
                if q < p {
                    assert(n[q] == o[q]);
                } else if q > p {
                    assert(n[q] == o[q - 1]);
                }
            }
            assert forall|a: int, b: int| 0 <= a < b < n.len() implies serial_at(es, #[trigger] n[a]) <= serial_at(es, #[trigger] n[b]) by {
                if a < p && b < p {
                    assert(n[a] == o[a] && n[b] == o[b]);
                } else if a < p && b == p {
                    assert(n[a] == o[a]);
                } else if a < p && b > p {
                    assert(n[a] == o[a] && n[b] == o[b - 1]);
                } else if a == p {
                    assert(n[b] == o[b - 1]);
                } else {
                    assert(n[a] == o[a - 1] && n[b] == o[b - 1]);
                }
            }
        }
    }
}

proof fn lemma_first_greater_rest(order: Seq<int>, es: Seq<(u32, NodeRec)>, s: u32)
    requires
        forall|a: int, b: int| 0 <= a < b < order.len() ==> serial_at(es, #[trigger] order[a]) <= serial_at(es, #[trigger] order[b]),
    ensures
        forall|q: int| first_greater(order, es, s) <= q < order.len() ==> serial_at(es, #[trigger] order[q]) > s,
    decreases order.len(),
{
    if order.len() > 0 {
        if serial_at(es, order[0]) > s {
            assert forall|q: int| 0 <= q < order.len() implies serial_at(es, #[trigger] order[q]) > s by {
                if q > 0 {
                    assert(serial_at(es, order[0]) <= serial_at(es, order[q]));
                }
            }
        } else {
            let t = order.drop_first();
            assert forall|a: int, b: int| 0 <= a < b < t.len() implies serial_at(es, #[trigger] t[a]) <= serial_at(es, #[trigger] t[b]) by {
                assert(t[a] == order[a + 1] && t[b] == order[b + 1]);
            }
            lemma_first_greater_rest(t, es, s);
            assert(first_greater(order, es, s) == 1 + first_greater(t, es, s));
            assert forall|q: int| first_greater(order, es, s) <= q < order.len() implies serial_at(es, #[trigger] order[q]) > s by {
                assert(order[q] == t[q - 1]);
            }
        }
    }
}

proof fn lemma_stream_order_exact(es: Seq<(u32, NodeRec)>, k: nat)
    requires
        k <= es.len(),
    ensures
        forall|j: int| 0 <= j < k ==> (is_playback_stream(es[j].1) <==> stream_order(es, k).contains(j)),
        forall|q: int| 0 <= q < stream_order(es, k).len() ==> 0 <= #[trigger] stream_order(es, k)[q] < k,
        forall|a: int, b: int|
            0 <= a < b < stream_order(es, k).len() ==> #[trigger] stream_order(es, k)[a] != #[trigger] stream_order(
                es,
                k,
            )[b],
    decreases k,
{
    lemma_stream_order(es, k);
    if k > 0 {
        lemma_stream_order_exact(es, (k - 1) as nat);
        let o = stream_order(es, (k - 1) as nat);
        if is_playback_stream(es[k - 1].1) {
            let sv = serial_at(es, k - 1);
            let p = first_greater(o, es, sv);
            lemma_first_greater(o, es, sv);
            let n = o.insert(p, k - 1);
            assert(stream_order(es, k) == n);
            assert forall|j: int| 0 <= j < k implies (is_playback_stream(es[j].1) <==> n.contains(j)) by {
                if n.contains(j) {
                    let q = choose|q: int| 0 <= q < n.len() && n[q] == j;
                    if q < p {
                        assert(n[q] == o[q]);
                    } else if q > p {
                        assert(n[q] == o[q - 1]);
                    }
                }
                if j < k - 1 && is_playback_stream(es[j].1) {
                    assert(o.contains(j));
                    let q = choose|q: int| 0 <= q < o.len() && o[q] == j;
                    assert(0 <= q < o.len() && o[q] == j);
                    if q < p {
                        assert(n[q] == o[q]);
                    } else {
                        assert(n[q + 1] == o[q]);
                    }
                }
                if j == k - 1 {
                    assert(n[p] == k - 1);
                }
            }
            assert forall|q: int| 0 <= q < n.len() implies 0 <= #[trigger] n[q] < k by {
                if q < p {
                    assert(n[q] == o[q]);
                } else if q > p {
                    assert(n[q] == o[q - 1]);
                }
            }
            assert forall|a: int, b: int| 0 <= a < b < n.len() implies #[trigger] n[a] != #[trigger] n[b] by {
                if a < p && b < p {
                    assert(n[a] == o[a] && n[b] == o[b]);
                } else if a < p && b == p {
                    assert(n[a] == o[a]);
                } else if a < p && b > p {
                    assert(n[a] == o[a] && n[b] == o[b - 1]);
                } else if a == p {
                    assert(n[b] == o[b - 1]);
                } else {
                    assert(n[a] == o[a - 1] && n[b] == o[b - 1]);
                }
            }
        } else {
            assert forall|j: int| 0 <= j < k implies (is_playback_stream(es[j].1) <==> o.contains(j)) by {
                if j == k - 1 && o.contains(j) {
                    let q = choose|q: int| 0 <= q < o.len() && o[q] == j;
                }
            }
        }
    }
}

/// The streams listed from a registry snapshot are its playback streams
/// (output audio streams with a serial), each exactly once, sorted by
/// serial: the order `list_playback_streams` follows holds every such node
/// entry once and nothing else.
pub proof fn law_each_stream_listed_once(es: Seq<(u32, NodeRec)>)
    ensures
        forall|j: int|
            0 <= j < es.len() ==> (is_playback_stream(es[j].1) <==> stream_order(es, es.len()).contains(j)),
        forall|q: int|
            0 <= q < stream_order(es, es.len()).len() ==> 0 <= #[trigger] stream_order(es, es.len())[q] < es.len()
                && is_playback_stream(es[stream_order(es, es.len())[q]].1),
        forall|a: int, b: int|
            0 <= a < b < stream_order(es, es.len()).len() ==> #[trigger] stream_order(es, es.len())[a]
                != #[trigger] stream_order(es, es.len())[b] && serial_at(es, stream_order(es, es.len())[a])
                <= serial_at(es, stream_order(es, es.len())[b]),
{
    lemma_stream_order_exact(es, es.len());
    lemma_stream_order(es, es.len());
}

/// Optional text fields match.
pub open spec fn same_opt(a: Option<String>, b: Option<String>) -> bool {
    opt_view(a) == opt_view(b)
}

/// `info` describes the node entry at `j`: its serial and name, the sink it
/// feeds, and its application props (none recorded: all empty).
pub open spec fn info_of(info: PlaybackStreamInfo, g: GraphView, j: int) -> bool {
    let n = g.nodes_by_id.entries()[j].1;
    &&& info.serial == n.serial->0
    &&& info.node_name@ == n.name@
    &&& info.sink@ == sink_scan(g.links_by_id.entries(), g.nodes_by_id@, n.id, g.links_by_id.entries().len()).0
    &&& if g.stream_props_by_id@.contains_key(n.id) {
        let p = g.stream_props_by_id@[n.id];
        &&& same_opt(info.app_name, p.app_name)
        &&& same_opt(info.binary, p.binary)
        &&& same_opt(info.app_id, p.app_id)
        &&& same_opt(info.media_name, p.media_name)
        &&& same_opt(info.icon_name, p.icon_name)
        &&& same_opt(info.media_role, p.media_role)
        &&& info.node_virtual == p.node_virtual
    } else {
        &&& info.app_name is None
        &&& info.binary is None
        &&& info.app_id is None
        &&& info.media_name is None
        &&& info.icon_name is None
        &&& info.media_role is None
        &&& !info.node_virtual
    }
}

fn copy_opt(o: &Option<String>) -> (r: Option<String>)
    ensures
        opt_view(r) == opt_view(*o),
{
    match o {
        Some(s) => Some(own(s.as_str())),
        None => None,
    }
}

fn stream_info(g: &GraphView, j: usize) -> (r: PlaybackStreamInfo)
    requires
        g.wf(),
        j < g.nodes_by_id.entries().len(),
        is_playback_stream(g.nodes_by_id.entries()[j as int].1),
    ensures
        info_of(r, *g, j as int),
{
    let n = g.nodes_by_id.value_at(j);
    let serial = match n.serial {
        Some(s) => s,
        None => 0,
    };
    let sink = stream_sink(g, n.id);
    match g.stream_props_by_id.get(&n.id) {
        Some(p) => PlaybackStreamInfo {
            serial,
            node_name: own(n.name.as_str()),
            sink,
            app_name: copy_opt(&p.app_name),
            binary: copy_opt(&p.binary),
            app_id: copy_opt(&p.app_id),
            media_name: copy_opt(&p.media_name),
            icon_name: copy_opt(&p.icon_name),
            media_role: copy_opt(&p.media_role),
            node_virtual: p.node_virtual,
        },
        None => {
            let d = StreamProps::default();
            PlaybackStreamInfo {
                serial,
                node_name: own(n.name.as_str()),
                sink,
                app_name: d.app_name,
                binary: d.binary,
                app_id: d.app_id,
                media_name: d.media_name,
                icon_name: d.icon_name,
                media_role: d.media_role,
                node_virtual: d.node_virtual,
            }
        },
    }
}

fn serial_not_above(g: &GraphView, j: usize, sv: u32) -> (r: bool)
    requires
        j < g.nodes_by_id.entries().len(),
        is_playback_stream(g.nodes_by_id.entries()[j as int].1),
    ensures
        r == (serial_at(g.nodes_by_id.entries(), j as int) <= sv),
{
    match g.nodes_by_id.value_at(j).serial {
        Some(x) => x <= sv,
        None => true,
    }
}

/// `Stream/Output/Audio` nodes with their app props and current sink,
/// sorted by serial (none without a view).
pub fn list_playback_streams(view: Option<&GraphView>) -> (r: Vec<PlaybackStreamInfo>)
    requires
        view matches Some(g) ==> g.wf(),
    ensures
        view is None ==> r@.len() == 0,
        view matches Some(g) ==> {
            let order = stream_order(g.nodes_by_id.entries(), g.nodes_by_id.entries().len());
            &&& r@.len() == order.len()
            &&& forall|k: int| 0 <= k < r@.len() ==> info_of(#[trigger] r@[k], *g, order[k])
            &&& forall|a: int, b: int| 0 <= a < b < r@.len() ==> #[trigger] r@[a].serial <= #[trigger] r@[b].serial
        },
{
    let g = match view {
        Some(g) => g,
        None => return Vec::new(),
    };
    let ghost es = g.nodes_by_id.entries();
    let mut order: Vec<usize> = Vec::new();
    let mut i: usize = 0;
    while i < g.nodes_by_id.count()
        invariant
            i <= es.len(),
            es == g.nodes_by_id.entries(),
            order@.map_values(|x: usize| x as int) == stream_order(es, i as nat),
        decreases es.len() - i,
    {
        let n = g.nodes_by_id.value_at(i);
        let is_stream = str_eq(n.media_class.as_str(), "Stream/Output/Audio") && n.serial.is_some();
        if is_stream {
            let sv = match n.serial {
                Some(x) => x,
                None => 0,
            };
            let ghost o = order@.map_values(|x: usize| x as int);
            proof {
                lemma_stream_order(es, i as nat);
            }
            let mut p: usize = 0;
            assert(o.skip(0) =~= o);
            while p < order.len() && serial_not_above(g, order[p], sv)
                invariant
                    p <= order.len(),
                    o == order@.map_values(|x: usize| x as int),
                    o == stream_order(es, i as nat),
                    i < es.len(),
                    es == g.nodes_by_id.entries(),
                    forall|q: int| 0 <= q < o.len() ==> 0 <= #[trigger] o[q] < i && is_playback_stream(es[o[q]].1),
                    first_greater(o, es, sv) == p + first_greater(o.skip(p as int), es, sv),
                decreases order.len() - p,
            {
                assert(o.skip(p as int)[0] == o[p as int]);
                assert(o.skip(p as int).drop_first() =~= o.skip(p + 1));
                p += 1;
            }
            proof {
                if p < order.len() {
                    assert(o.skip(p as int)[0] == o[p as int]);
                }
            }
            order.insert(p, i);
            assert(order@.map_values(|x: usize| x as int) =~= o.insert(p as int, i as int));
        }
        i += 1;
    }
    proof {
        lemma_stream_order(es, es.len());
    }
    let ghost o = order@.map_values(|x: usize| x as int);
    let mut out: Vec<PlaybackStreamInfo> = Vec::new();
    let mut k: usize = 0;
    while k < order.len()
        invariant
            k <= order.len(),
            g.wf(),
            es == g.nodes_by_id.entries(),
            o == order@.map_values(|x: usize| x as int),
            o == stream_order(es, es.len()),
            forall|q: int| 0 <= q < o.len() ==> 0 <= #[trigger] o[q] < es.len() && is_playback_stream(es[o[q]].1),
            out@.len() == k,
            forall|q: int| 0 <= q < k ==> info_of(#[trigger] out@[q], *g, o[q]),
        decreases order.len() - k,
    {
        assert(o[k as int] == order@[k as int] as int);
        let info = stream_info(g, order[k]);
        out.push(info);
        k += 1;
    }
    proof {
        assert forall|a: int, b: int| 0 <= a < b < out@.len() implies #[trigger] out@[a].serial <= #[trigger] out@[b].serial by {
            assert(info_of(out@[a], *g, o[a]));
            assert(info_of(out@[b], *g, o[b]));
            assert(serial_at(es, o[a]) <= serial_at(es, o[b]));
        }
    }
    out
}

/// Some link runs from node `from` into node `to`.
pub open spec fn feeds(g: GraphView, from: u32, to: u32) -> bool {
    exists|lid: u32|
        #![trigger g.links_by_id@[lid]]
        g.links_by_id@.contains_key(lid) && g.links_by_id@[lid].out_node == from && g.links_by_id@[lid].in_node
            == to
}

/// At most one node carries this serial.
pub open spec fn serial_unique(g: GraphView, serial: u32) -> bool {
    forall|a: u32, b: u32|
        #![trigger g.nodes_by_id@[a], g.nodes_by_id@[b]]
        g.nodes_by_id@.contains_key(a) && g.nodes_by_id@.contains_key(b) && g.nodes_by_id@[a].serial == Some(
            serial,
        ) && g.nodes_by_id@[b].serial == Some(serial) ==> a == b
}

/// The stream with this serial already feeds `sink` (by its registry entry).
pub open spec fn targets_spec(g: GraphView, serial: u32, sink: Seq<char>) -> bool {
    exists|id: u32|
        #![trigger g.nodes_by_id@[id]]
        g.nodes_by_id@.contains_key(id) && g.nodes_by_id@[id].serial == Some(serial)
            && g.nodes_by_name@.contains_key(sink) && feeds(g, g.nodes_by_id@[id].id, g.nodes_by_name@[sink])
}

pub(crate) fn links_between(g: &GraphView, from: u32, to: u32) -> (r: bool)
    requires
        g.wf(),
    ensures
        r == feeds(*g, from, to),
{
    let ghost ls = g.links_by_id.entries();
    proof {
        g.links_by_id.lemma_entries();
    }
    let mut i: usize = 0;
    while i < g.links_by_id.count()
        invariant
            i <= ls.len(),
            ls == g.links_by_id.entries(),
            keys_unique(ls),
            g.links_by_id@ == entries_map(ls),
            forall|j: int| 0 <= j < i ==> !((#[trigger] ls[j]).1.out_node == from && ls[j].1.in_node == to),
        decreases ls.len() - i,
    {
        let l = g.links_by_id.value_at(i);
        if l.out_node == from && l.in_node == to {
            proof {
                lemma_entry(ls, i as int);
                assert(g.links_by_id@[ls[i as int].0] == ls[i as int].1);
            }
            return true;
        }
        i += 1;
    }
    proof {
        if feeds(*g, from, to) {
            let lid = choose|lid: u32|
                #![trigger g.links_by_id@[lid]]
                g.links_by_id@.contains_key(lid) && g.links_by_id@[lid].out_node == from
                    && g.links_by_id@[lid].in_node == to;
            lemma_key(ls, lid);
            let j = key_index(ls, lid);
            assert(ls[j].1.out_node == from);
        }
    }
    false
}

/// True when the stream with `object.serial` `serial` is already linked into
/// `sink` (false without a view).
pub fn stream_targets_sink(view: Option<&GraphView>, serial: u32, sink: &str) -> (r: bool)
    requires
        view matches Some(g) ==> g.wf(),
    ensures
        view is None ==> !r,
        view matches Some(g) ==> (r ==> targets_spec(*g, serial, sink@)),
        view matches Some(g) ==> (serial_unique(*g, serial) ==> r == targets_spec(*g, serial, sink@)),
{
    let g = match view {
        Some(g) => g,
        None => return false,
    };
    let stream = match g.node_by_serial(serial) {
        Some(n) => n,
        None => return false,
    };
    let sink_id = match g.node_id(sink) {
        Some(id) => id,
        None => return false,
    };
    let r = links_between(g, stream.id, sink_id);
    proof {
        let id0 = choose|id: u32| #![trigger g.nodes_by_id@[id]] g.nodes_by_id@.contains_key(id) && g.nodes_by_id@[id] == *stream;
        if r {
            assert(g.nodes_by_id@.contains_key(id0) && g.nodes_by_id@[id0].serial == Some(serial));
        }
        if serial_unique(*g, serial) && targets_spec(*g, serial, sink@) {
            let id = choose|id: u32|
                #![trigger g.nodes_by_id@[id]]
                g.nodes_by_id@.contains_key(id) && g.nodes_by_id@[id].serial == Some(serial)
                    && g.nodes_by_name@.contains_key(sink@) && feeds(*g, g.nodes_by_id@[id].id, g.nodes_by_name@[sink@]);
            assert(id == id0);
        }
    }
    r
}

/// A stream node by media class (`Stream/Output/Audio` or any `*/Output/Audio`).
pub open spec fn is_output_stream(n: NodeRec) -> bool {
    n.media_class@ == "Stream/Output/Audio"@ || has_suffix(n.media_class@, "/Output/Audio"@)
}

/// Ids of the stream nodes feeding `sink_id`, scanning the first `k` link
/// entries, each once, in the order first met.
pub open spec fn stream_ids_scan(ls: Seq<(u32, LinkRec)>, nodes: Map<u32, NodeRec>, sink_id: u32, k: nat) -> Seq<u32>
    decreases k,
{
    if k == 0 {
        Seq::empty()
    } else {
        let out = stream_ids_scan(ls, nodes, sink_id, (k - 1) as nat);
        let l = ls[k - 1].1;
        if l.in_node == sink_id && nodes.contains_key(l.out_node) && is_output_stream(nodes[l.out_node])
            && !out.contains(nodes[l.out_node].id) {
            out.push(nodes[l.out_node].id)
        } else {
            out
        }
    }
}

/// Stream nodes currently feeding `sink_name` (none when it is unknown).
pub fn stream_ids_on_sink(g: &GraphView, sink_name: &str) -> (r: Vec<u32>)
    requires
        g.wf(),
    ensures
        r@ == (if g.nodes_by_name@.contains_key(sink_name@) {
            stream_ids_scan(
                g.links_by_id.entries(),
                g.nodes_by_id@,
                g.nodes_by_name@[sink_name@],
                g.links_by_id.entries().len(),
            )
        } else {
            Seq::empty()
        }),
{
    let sink_id = match g.node_id(sink_name) {
        Some(id) => id,
        None => return Vec::new(),
    };
    let ghost ls = g.links_by_id.entries();
    let mut out: Vec<u32> = Vec::new();
    let mut i: usize = 0;
    while i < g.links_by_id.count()
        invariant
            i <= ls.len(),
            ls == g.links_by_id.entries(),
            g.wf(),
            out@ == stream_ids_scan(ls, g.nodes_by_id@, sink_id, i as nat),
        decreases ls.len() - i,
    {
        let l = g.links_by_id.value_at(i);
        if l.in_node == sink_id {
            match g.nodes_by_id.get(&l.out_node) {
                Some(src) => {
                    if str_eq(src.media_class.as_str(), "Stream/Output/Audio") || ends_with(
                        src.media_class.as_str(),
                        "/Output/Audio",
                    ) {
                        if !crate::ordset::contains_u32(out.as_slice(), src.id) {
                            out.push(src.id);
                        }
                    }
                },
                None => {},
            }
        }
        i += 1;
    }
    out
}

/// Link ids of the port pairs, skipping pairs with no link.
pub open spec fn pair_link_ids(pairs: Seq<(u32, u32)>, idx: Map<(u32, u32), u32>) -> Seq<u32>
    decreases pairs.len(),
{
    if pairs.len() == 0 {
        Seq::empty()
    } else {
        let r = pair_link_ids(pairs.drop_last(), idx);
        if idx.contains_key(pairs.last()) {
            r.push(idx[pairs.last()])
        } else {
            r
        }
    }
}

/// Number of pairs with a link.
pub open spec fn linked_count(pairs: Seq<(u32, u32)>, idx: Map<(u32, u32), u32>) -> nat
    decreases pairs.len(),
{
    if pairs.len() == 0 {
        0
    } else {
        linked_count(pairs.drop_last(), idx) + if idx.contains_key(pairs.last()) {
            1nat
        } else {
            0nat
        }
    }
}

/// `id` is the link of one of the pairs.
pub open spec fn link_of_some_pair(pairs: Seq<(u32, u32)>, idx: Map<(u32, u32), u32>, id: u32) -> bool {
    exists|i: int| 0 <= i < pairs.len() && idx.contains_key(#[trigger] pairs[i]) && idx[pairs[i]] == id
}

/// Unlinking a hop destroys the link of every one of its port pairs that
/// has one (both channels of a stereo hop) and nothing else: each linked
/// pair's link id is in the plan, each id of the plan is the link of one of
/// the pairs, and there is one id per linked pair. `unlink_plan` answers
/// `pair_link_ids` of the hop's stereo port pairs.
pub proof fn law_unlink_takes_every_linked_pair(pairs: Seq<(u32, u32)>, idx: Map<(u32, u32), u32>)
    ensures
        forall|i: int|
            0 <= i < pairs.len() && idx.contains_key(#[trigger] pairs[i]) ==> pair_link_ids(pairs, idx).contains(
                idx[pairs[i]],
            ),
        forall|k: int|
            0 <= k < pair_link_ids(pairs, idx).len() ==> link_of_some_pair(pairs, idx, #[trigger] pair_link_ids(pairs, idx)[k]),
        pair_link_ids(pairs, idx).len() == linked_count(pairs, idx),
    decreases pairs.len(),
{
    if pairs.len() > 0 {
        let init = pairs.drop_last();
        law_unlink_takes_every_linked_pair(init, idx);
        let r = pair_link_ids(init, idx);
        let all = pair_link_ids(pairs, idx);
        assert forall|i: int| 0 <= i < pairs.len() && idx.contains_key(#[trigger] pairs[i]) implies all.contains(idx[pairs[i]]) by {
            if i < init.len() {
                assert(pairs[i] == init[i]);
                assert(r.contains(idx[init[i]]));
                let k = choose|k: int| 0 <= k < r.len() && r[k] == idx[init[i]];
                assert(all[k] == r[k]);
            } else {
                assert(pairs[i] == pairs.last());
                assert(all[all.len() - 1] == idx[pairs.last()]);
            }
        }
        assert forall|k: int| 0 <= k < all.len() implies link_of_some_pair(pairs, idx, #[trigger] all[k]) by {
            if k < r.len() {
                assert(all[k] == r[k]);
                assert(link_of_some_pair(init, idx, r[k]));
                let i = choose|i: int| 0 <= i < init.len() && idx.contains_key(#[trigger] init[i]) && idx[init[i]] == r[k];
                assert(pairs[i] == init[i]);
            } else {
                let i = pairs.len() - 1;
                assert(pairs[i] == pairs.last());
                assert(idx.contains_key(pairs[i]) && all[k] == idx[pairs[i]]);
            }
        }
    }
}

/// The links to destroy to unlink `source` → `sink`: the ids of the live
/// links of its stereo port pairs (none when the pairs cannot be resolved).
pub fn unlink_plan(g: &GraphView, source: &str, sink: &str) -> (r: Vec<u32>)
    requires
        g.wf(),
    ensures
        r@ == match crate::ports::port_id_pairs_spec(*g, source@, sink@) {
            Ok(ps) => pair_link_ids(ps, g.links_by_ports@),
            Err(_) => Seq::empty(),
        },
{
    let pairs = match crate::ports::port_id_pairs(g, source, sink) {
        Ok(p) => p,
        Err(_) => return Vec::new(),
    };
    let mut ids: Vec<u32> = Vec::new();
    let mut i: usize = 0;
    while i < pairs.len()
        invariant
            i <= pairs.len(),
            g.wf(),
            ids@ == pair_link_ids(pairs@.take(i as int), g.links_by_ports@),
        decreases pairs.len() - i,
    {
        assert(pairs@.take(i + 1).drop_last() =~= pairs@.take(i as int));
        assert(pairs@.take(i + 1).last() == pairs@[i as int]);
        match g.links_by_ports.get(&pairs[i]) {
            Some(id) => ids.push(*id),
            None => {},
        }
        i += 1;
    }
    assert(pairs@.take(pairs.len() as int) =~= pairs@);
    ids
}

/// Capture nodes that a feed strip never unlinks: the hold sink, meters,
/// dry-meter taps and system virtual-input captures.
pub open spec fn protected_peer(name: Seq<char>) -> bool {
    name == "buschain_hold"@ || has_prefix(name, "meter-"@) || has_prefix(name, "buschain_mtr_"@)
        || has_prefix(name, "buschain_vin_"@) || has_prefix(name, "input.buschain_vin_"@)
}

/// The peer (node name, port name) is one of the allowed sinks.
pub open spec fn peer_allowed(node: Seq<char>, port: Seq<char>, allow: Seq<Seq<char>>) -> bool {
    exists|k: int|
        0 <= k < allow.len() && ({
            let sn = without_suffix(#[trigger] allow[k], ".monitor"@);
            node == sn || crate::link::port_on_node_spec(node + ":"@ + port, sn) || node == allow[k]
        })
}

/// Link ids to destroy, scanning the first `k` link entries: links out of
/// `src_id` into a known port of a known node that is neither protected nor
/// allowed.
pub open spec fn unlink_except_scan(g: GraphView, src_id: u32, allow: Seq<Seq<char>>, k: nat) -> Seq<u32>
    decreases k,
{
    if k == 0 {
        Seq::empty()
    } else {
        let out = unlink_except_scan(g, src_id, allow, (k - 1) as nat);
        let l = g.links_by_id.entries()[k - 1].1;
        if l.out_node == src_id && g.ports_by_id@.contains_key(l.in_port) && g.nodes_by_id@.contains_key(
            l.in_node,
        ) && !protected_peer(g.nodes_by_id@[l.in_node].name@) && !peer_allowed(
            g.nodes_by_id@[l.in_node].name@,
            g.ports_by_id@[l.in_port].name@,
            allow,
        ) {
            out.push(l.id)
        } else {
            out
        }
    }
}

/// A link the native cut may destroy: out of `src_id`, into a known port of
/// a known node that is neither protected nor allowed.
pub open spec fn killable(g: GraphView, l: LinkRec, src_id: u32, allow: Seq<Seq<char>>) -> bool {
    &&& l.out_node == src_id
    &&& g.ports_by_id@.contains_key(l.in_port)
    &&& g.nodes_by_id@.contains_key(l.in_node)
    &&& !protected_peer(g.nodes_by_id@[l.in_node].name@)
    &&& !peer_allowed(g.nodes_by_id@[l.in_node].name@, g.ports_by_id@[l.in_port].name@, allow)
}

/// The native cut of a source destroys only its own links, and never those
/// into the keepalive hold, meters, dry-meter taps, virtual-input captures or
/// an allowed sink: each id it lists is that of such a killable link entry.
pub proof fn law_native_cut_spares_protected(g: GraphView, src_id: u32, allow: Seq<Seq<char>>, k: nat)
    requires
        k <= g.links_by_id.entries().len(),
    ensures
        forall|j: int|
            0 <= j < unlink_except_scan(g, src_id, allow, k).len() ==> exists|e: int|
                0 <= e < k && (#[trigger] g.links_by_id.entries()[e]).1.id == #[trigger] unlink_except_scan(
                    g,
                    src_id,
                    allow,
                    k,
                )[j] && killable(g, g.links_by_id.entries()[e].1, src_id, allow),
    decreases k,
{
    if k > 0 {
        law_native_cut_spares_protected(g, src_id, allow, (k - 1) as nat);
        let prev = unlink_except_scan(g, src_id, allow, (k - 1) as nat);
        let cur = unlink_except_scan(g, src_id, allow, k);
        let es = g.links_by_id.entries();
        assert forall|j: int| 0 <= j < cur.len() implies exists|e: int|
            0 <= e < k && (#[trigger] es[e]).1.id == #[trigger] cur[j] && killable(g, es[e].1, src_id, allow) by {
            if j < prev.len() {
                assert(cur[j] == prev[j]);
                let e = choose|e: int| 0 <= e < k - 1 && (#[trigger] es[e]).1.id == prev[j] && killable(g, es[e].1, src_id, allow);
                assert(0 <= e < k);
            } else {
                assert(es[k - 1].1.id == cur[j]);
                assert(killable(g, es[k - 1].1, src_id, allow));
            }
        }
    }
}

fn is_protected_peer(name: &str) -> (r: bool)
    ensures
        r == protected_peer(name@),
{
    str_eq(name, "buschain_hold") || starts_with(name, "meter-") || starts_with(name, "buschain_mtr_")
        || starts_with(name, "buschain_vin_") || starts_with(name, "input.buschain_vin_")
}

fn is_peer_allowed(node: &str, port: &str, allow_sinks: &[String]) -> (r: bool)
    ensures
        r == peer_allowed(node@, port@, strs_view(allow_sinks@)),
{
    let full = crate::text::concat3(node, ":", port);
    let mut k: usize = 0;
    while k < allow_sinks.len()
        invariant
            k <= allow_sinks.len(),
            full@ == node@ + ":"@ + port@,
            forall|q: int| 0 <= q < k ==> !({
                let sn = without_suffix(#[trigger] strs_view(allow_sinks@)[q], ".monitor"@);
                node@ == sn || crate::link::port_on_node_spec(node@ + ":"@ + port@, sn) || node@ == strs_view(allow_sinks@)[q]
            }),
        decreases allow_sinks.len() - k,
    {
        let s = allow_sinks[k].as_str();
        let sn = pw_node(s);
        assert(strs_view(allow_sinks@)[k as int] == s@);
        if str_eq(node, sn.as_str()) || crate::link::port_on_node(full.as_str(), sn.as_str()) || str_eq(node, s) {
            return true;
        }
        k += 1;
    }
    false
}

/// The links to destroy to cut `source` from every sink but `allow_sinks`
/// (none when the source node is unknown).
pub fn unlink_except_plan(g: &GraphView, source: &str, allow_sinks: &[String]) -> (r: Vec<u32>)
    requires
        g.wf(),
    ensures
        r@ == (if g.nodes_by_name@.contains_key(without_suffix(source@, ".monitor"@)) {
            unlink_except_scan(
                *g,
                g.nodes_by_name@[without_suffix(source@, ".monitor"@)],
                strs_view(allow_sinks@),
                g.links_by_id.entries().len(),
            )
        } else {
            Seq::empty()
        }),
{
    let src_node = pw_node(source);
    let src_id = match g.node_id(src_node.as_str()) {
        Some(id) => id,
        None => return Vec::new(),
    };
    let ghost ls = g.links_by_id.entries();
    let mut kill: Vec<u32> = Vec::new();
    let mut i: usize = 0;
    while i < g.links_by_id.count()
        invariant
            i <= ls.len(),
            ls == g.links_by_id.entries(),
            g.wf(),
            kill@ == unlink_except_scan(*g, src_id, strs_view(allow_sinks@), i as nat),
        decreases ls.len() - i,
    {
        let l = g.links_by_id.value_at(i);
        if l.out_node == src_id {
            match g.ports_by_id.get(&l.in_port) {
                Some(in_port) => match g.nodes_by_id.get(&l.in_node) {
                    Some(in_node) => {
                        if !is_protected_peer(in_node.name.as_str()) && !is_peer_allowed(
                            in_node.name.as_str(),
                            in_port.name.as_str(),
                            allow_sinks,
                        ) {
                            kill.push(l.id);
                        }
                    },
                    None => {},
                },
                None => {},
            }
        }
        i += 1;
    }
    kill
}

/// The links an `unlink_from_source_except` request destroys (none without a
/// registry view); the reply counts them.
pub fn unlink_from_source_except(view: Option<&GraphView>, source: &str, allow_sinks: &[String]) -> (r: Vec<u32>)
    requires
        view matches Some(g) ==> g.wf(),
    ensures
        view is None ==> r@.len() == 0,
        view matches Some(g) ==> r@ == (if g.nodes_by_name@.contains_key(without_suffix(source@, ".monitor"@)) {
            unlink_except_scan(
                *g,
                g.nodes_by_name@[without_suffix(source@, ".monitor"@)],
                strs_view(allow_sinks@),
                g.links_by_id.entries().len(),
            )
        } else {
            Seq::empty()
        }),
{
    match view {
        Some(g) => unlink_except_plan(g, source, allow_sinks),
        None => Vec::new(),
    }
}

/// The loose reading of a metadata value: the first quoted text after the
/// first `"name"` (and before any second one).
pub open spec fn loose_name(value: Seq<char>) -> Option<Seq<char>> {
    match crate::probe::segment_after(value, "\"name\""@) {
        Some(rest) => match crate::text::first_char(rest, '"') {
            Some(a) => {
                let tail = rest.subrange(a + 1, rest.len() as int);
                match crate::text::first_char(tail, '"') {
                    Some(b) => Some(tail.subrange(0, b)),
                    None => None,
                }
            },
            None => None,
        },
        None => None,
    }
}

/// Default sink name from a metadata value, given what the JSON reading
/// found: that name, else the loose reading.
pub fn default_sink_from(json: Option<String>, value: &str) -> (r: Option<String>)
    ensures
        opt_view(r) == match opt_view(json) {
            Some(n) => Some(n),
            None => loose_name(value@),
        },
{
    if json.is_some() {
        return json;
    }
    let rest = match crate::probe::split_segment(value, "\"name\"") {
        Some(r) => r,
        None => return None,
    };
    match crate::text::split_once_char(rest.as_str(), '"') {
        Some((a, tail)) => {
            proof {
                crate::text::lemma_first_char(rest@, '"', a@, tail@);
            }
            match crate::text::split_once_char(tail.as_str(), '"') {
                Some((name, b)) => {
                    proof {
                        crate::text::lemma_first_char(tail@, '"', name@, b@);
                    }
                    Some(name)
                },
                None => {
                    assert(crate::text::first_char(tail@, '"') is None);
                    None
                },
            }
        },
        None => {
            assert(crate::text::first_char(rest@, '"') is None);
            None
        },
    }
}

/// Default sink name from a `default.audio.sink` metadata value
/// (WirePlumber writes `{"name":"..."}`).
pub fn parse_default_sink_json(value: &str) -> (r: Option<String>)
    ensures
        opt_view(r) == match crate::json::json_str_member(value.spec_bytes(), "name"@) {
            Some(n) => Some(n),
            None => loose_name(value@),
        },
{
    let json = crate::json::json_str_field(value, "name");
    default_sink_from(json, value)
}

} // verus!
