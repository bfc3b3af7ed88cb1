use buschain::graph::{GraphView, LinkRec, NodeRec, StreamProps};
use buschain::session::{
    default_sink_from, list_playback_streams, parse_default_sink_json, stream_ids_on_sink,
    stream_targets_sink, timeout_kills_plane, unlink_except_plan, PlaneState, RpcTimeouts,
    RPC_TIMEOUT_DEATH, core_error_verdict, native_snapshot, PlaneStart, on_core_done, CoreErrorVerdict,
};

#[test]
fn single_rpc_timeout_is_not_fatal_during_clock_mutation() {
    assert!(!timeout_kills_plane(1, true));
    assert!(!timeout_kills_plane(RPC_TIMEOUT_DEATH, true));
}

#[test]
fn sustained_rpc_timeouts_are_fatal_when_idle() {
    assert!(!timeout_kills_plane(1, false));
    assert!(!timeout_kills_plane(RPC_TIMEOUT_DEATH - 1, false));
    assert!(timeout_kills_plane(RPC_TIMEOUT_DEATH, false));
}

#[test]
fn timeout_streak_counts_and_resets() {
    let mut t = RpcTimeouts::new();
    for _ in 0..7 {
        assert!(!t.rpc_timeout_is_fatal(false));
    }
    assert!(!t.rpc_timeout_is_fatal(true));
    assert_eq!(t.consecutive, 7);
    assert!(t.rpc_timeout_is_fatal(false));
    t.note_rpc_ok();
    assert_eq!(t.consecutive, 0);
}

#[test]
fn plane_dies_and_reconnects() {
    let mut p = PlaneState::new();
    let mut g = GraphView::default();
    g.insert_node(node(1, "x", "Audio/Sink", None));
    p.mark_dead(&mut g);
    assert!(p.plane_is_dead());
    assert!(g.node("x").is_none());
    assert!(!p.finish_reconnect(false));
    assert!(p.plane_is_dead());
    assert!(p.finish_reconnect(true));
    assert!(!p.plane_is_dead());
    assert_eq!(p.plane_generation(), 1);
}

fn node(id: u32, name: &str, class: &str, serial: Option<u32>) -> NodeRec {
    NodeRec {
        id,
        name: name.into(),
        media_class: class.into(),
        description: String::new(),
        rate: None,
        serial,
    }
}

fn link(id: u32, out_node: u32, in_node: u32) -> LinkRec {
    LinkRec { id, out_node, out_port: id * 2, in_node, in_port: id * 2 + 1 }
}

#[test]
fn playback_streams_sorted_by_serial_with_sinks() {
    let mut g = GraphView::default();
    g.insert_node(node(1, "hw", "Audio/Sink", None));
    g.insert_node(node(2, "filter", "Audio/Sink/Internal", None));
    g.insert_node(node(10, "firefox", "Stream/Output/Audio", Some(77)));
    g.insert_node(node(11, "mpv", "Stream/Output/Audio", Some(5)));
    g.insert_node(node(12, "nosn", "Stream/Output/Audio", None));
    g.insert_link(link(100, 10, 2));
    g.insert_link(link(101, 10, 1));
    let mut props = StreamProps::default();
    props.app_name = Some("Firefox".into());
    g.insert_stream_props(10, props);
    let v = list_playback_streams(Some(&g));
    assert_eq!(v.len(), 2);
    assert_eq!(v[0].serial, 5);
    assert_eq!(v[0].sink, "");
    assert_eq!(v[1].serial, 77);
    assert_eq!(v[1].node_name, "firefox");
    assert_eq!(v[1].sink, "filter");
    assert_eq!(v[1].app_name.as_deref(), Some("Firefox"));
    assert!(list_playback_streams(None).is_empty());
}

#[test]
fn stream_targets_and_ids_on_sink() {
    let mut g = GraphView::default();
    g.insert_node(node(1, "bus", "Audio/Sink", None));
    g.insert_node(node(10, "app", "Stream/Output/Audio", Some(9)));
    g.insert_link(link(100, 10, 1));
    assert!(stream_targets_sink(Some(&g), 9, "bus"));
    assert!(!stream_targets_sink(Some(&g), 8, "bus"));
    assert!(!stream_targets_sink(None, 9, "bus"));
    assert_eq!(stream_ids_on_sink(&g, "bus"), vec![10]);
    assert!(stream_ids_on_sink(&g, "nope").is_empty());
}

#[test]
fn unlink_except_keeps_allowed_and_protected_peers() {
    let mut g = GraphView::default();
    g.insert_node(node(1, "mic", "Audio/Source", None));
    g.insert_node(node(2, "buschain_hold", "Audio/Sink", None));
    g.insert_node(node(3, "buschain_track_a", "Audio/Sink", None));
    g.insert_node(node(4, "buschain_track_b", "Audio/Sink", None));
    for (pid, nid) in [(5u32, 2u32), (7, 3), (9, 4)] {
        g.insert_port(buschain::graph::PortRec {
            id: pid,
            node_id: nid,
            name: "playback_FL".into(),
            direction: buschain::graph::PortDir::In,
            channel: "FL".into(),
        });
    }
    g.insert_link(LinkRec { id: 50, out_node: 1, out_port: 1, in_node: 2, in_port: 5 });
    g.insert_link(LinkRec { id: 51, out_node: 1, out_port: 1, in_node: 3, in_port: 7 });
    g.insert_link(LinkRec { id: 52, out_node: 1, out_port: 1, in_node: 4, in_port: 9 });
    let kill = unlink_except_plan(&g, "mic", &["buschain_track_a".to_string()]);
    assert_eq!(kill, vec![52]);
}

#[test]
fn default_sink_metadata() {
    assert_eq!(
        parse_default_sink_json("{\"name\":\"alsa_output.usb\"}").as_deref(),
        Some("alsa_output.usb")
    );
    assert_eq!(
        default_sink_from(None, "name = \"loose\"  \"name\" : \"foo\" ").as_deref(),
        Some("foo")
    );
    assert_eq!(parse_default_sink_json("garbage"), None);
    assert_eq!(parse_default_sink_json("{\"name\":\"a\\\"b\"}").as_deref(), Some("a\"b"));
    assert_eq!(
        default_sink_from(Some("json".into()), "{\"name\":\"x\"}").as_deref(),
        Some("json")
    );
}

#[test]
fn core_errors_classified() {
    assert_eq!(core_error_verdict(false, -32, "connection lost"), CoreErrorVerdict::Ignore);
    assert_eq!(core_error_verdict(true, -2, "no such object"), CoreErrorVerdict::Ignore);
    assert_eq!(core_error_verdict(true, -22, "unknown resource 41"), CoreErrorVerdict::Ignore);
    assert_eq!(core_error_verdict(true, -32, "broken"), CoreErrorVerdict::Fatal);
    assert_eq!(core_error_verdict(true, -104, ""), CoreErrorVerdict::Fatal);
    assert_eq!(core_error_verdict(true, -5, "connection error"), CoreErrorVerdict::Fatal);
    assert_eq!(core_error_verdict(true, -5, "core gone"), CoreErrorVerdict::Fatal);
    assert_eq!(core_error_verdict(true, -22, "invalid argument"), CoreErrorVerdict::Report);
}

#[test]
fn core_done_settles_syncs() {
    let a = on_core_done(true, 7, 7, Some(9));
    assert!(a.ready && !a.run_follow_up && a.awaited == Some(9));
    let b = on_core_done(true, 9, 7, Some(9));
    assert!(!b.ready && b.run_follow_up && b.awaited.is_none());
    let c = on_core_done(false, 9, 9, Some(9));
    assert!(!c.ready && !c.run_follow_up && c.awaited == Some(9));
}

#[test]
fn native_snapshot_lists_sinks_and_sources() {
    let mut g = GraphView::default();
    assert!(native_snapshot(&g).is_none());
    let mut hw = node(1, "hw_out", "Audio/Sink", None);
    hw.description = "Speakers".into();
    g.insert_node(hw);
    g.insert_node(node(2, "bus_a", "Audio/Sink", None));
    let mut mic = node(3, "mic", "Audio/Source", None);
    mic.description = "Microphone".into();
    g.insert_node(mic);
    let snap = native_snapshot(&g).expect("devices");
    let sinks: Vec<(String, String)> =
        snap.sinks.iter().map(|d| (d.name.clone(), d.description.clone())).collect();
    assert_eq!(
        sinks,
        vec![("bus_a".to_string(), String::new()), ("hw_out".to_string(), "Speakers".to_string())]
    );
    assert_eq!(snap.sources.len(), 1);
    assert_eq!(snap.sources[0].name, "mic");
    assert_eq!(snap.sources[0].description, "Microphone");
}

#[test]
fn plane_start_decisions() {
    let mut p = PlaneState::new();
    assert_eq!(p.start_decision(None), PlaneStart::Start);
    assert_eq!(p.start_decision(Some(false)), PlaneStart::Syncing);
    assert_eq!(p.start_decision(Some(true)), PlaneStart::Ready);
    assert!(p.install_started(false));
    assert_eq!(p.plane_generation(), 1);
    assert!(!p.install_started(true));
    assert_eq!(p.plane_generation(), 1);
    let mut g = GraphView::default();
    p.mark_dead(&mut g);
    assert_eq!(p.start_decision(Some(true)), PlaneStart::Dead);
}
