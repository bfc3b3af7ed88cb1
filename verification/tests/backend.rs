use buschain::backend::{after_pactl_set, set_default_sink, SinkSwitch};
use buschain::backend::ladspa_search_path;
use buschain::backend::{
    allow_pulse_capture_fallback, cache_node_id, capture_hop_verified, default_sink_from_info,
    ensure_link, ensure_link_force, filter_chain_clock_for_sink, filter_chain_clock_props,
    find_node_id_by_name, finish_node_id_probe, gate_bus_monitor, list_devices, move_sink_inputs,
    node_props_body, teardown_rate_bridges, FilterChainRuntime, LinkNext, MovePlan, NativeLink,
    NodeIdCache, NodeIdQuery, NODE_ID_TTL_MS,
};
use buschain::clock::GraphClock;
use buschain::graph::GraphView;

fn clock() -> GraphClock {
    GraphClock {
        sample_rate: 48_000,
        quantum: 256,
        soft_quantum: false,
        force_suspend_timeout_zero: false,
        bound_device: String::new(),
    }
}

#[test]
fn gate_commands() {
    let on = gate_bus_monitor("buschain_track_a", true);
    assert_eq!(on[0], vec!["set-source-mute", "buschain_track_a.monitor", "1"]);
    assert_eq!(on[1], vec!["set-source-volume", "buschain_track_a.monitor", "0%"]);
    let off = gate_bus_monitor("b", false);
    assert_eq!(off[1], vec!["set-source-volume", "b.monitor", "100%"]);
}

#[test]
fn link_decisions() {
    assert!(matches!(ensure_link("a", "b", NativeLink::Linked { live: true }, false), LinkNext::Done));
    match ensure_link("a", "b", NativeLink::Linked { live: false }, false) {
        LinkNext::Fail(m) => assert_eq!(m, "native ensure ok but hop not live a→b"),
        _ => panic!("expected failure"),
    }
    match ensure_link_force("a", "b", NativeLink::Linked { live: false }, false) {
        LinkNext::Fail(m) => assert_eq!(m, "native force-ensure ok but hop not live a→b"),
        _ => panic!("expected failure"),
    }
    assert!(matches!(ensure_link("a", "b", NativeLink::Linked { live: false }, true), LinkNext::UseCli));
    assert!(matches!(ensure_link("a", "buschain_fx_x", NativeLink::Failed, true), LinkNext::NativeError));
    assert!(matches!(ensure_link("a", "b", NativeLink::Failed, false), LinkNext::NativeError));
    assert!(matches!(ensure_link("a", "b", NativeLink::Failed, true), LinkNext::UseCli));
    assert!(matches!(ensure_link("a", "b", NativeLink::NotReady, false), LinkNext::UseCli));
    assert!(allow_pulse_capture_fallback(&Some("YES".into())));
    assert!(!allow_pulse_capture_fallback(&Some("Yes".into())));
    assert!(!allow_pulse_capture_fallback(&None));
}

#[test]
fn chain_clock_fragment() {
    let frag = filter_chain_clock_props(&clock());
    assert_eq!(
        frag,
        "\n        audio.rate            = 48000\n        node.rate             = 1/48000\n        node.latency          = 256/48000\n        node.lock-quantum     = true\n        node.force-quantum    = 256"
    );
    let (aligned, f2) = filter_chain_clock_for_sink(&clock(), Some(96_000));
    assert_eq!(aligned.sample_rate, 96_000);
    assert!(f2.contains("node.rate             = 1/96000"));
    let (same, _) = filter_chain_clock_for_sink(&clock(), Some(0));
    assert_eq!(same.sample_rate, 48_000);
}

#[test]
fn capture_hop_without_registry_links_is_not_live() {
    let g = GraphView::default();
    assert!(!capture_hop_verified(&g, "mic", "bus", &vec![("mic".into(), "buschain_rs_x".into())]));
}

#[test]
fn props_body_and_devices() {
    assert_eq!(node_props_body(&vec![]), None);
    assert_eq!(
        node_props_body(&vec![("a".into(), "1".into()), ("b".into(), "x\"y".into())]).as_deref(),
        Some("{ a = \"1\" b = \"x\\\"y\" }")
    );
    let devs = list_devices("1\tsink_a\tmodule\ts16le 2ch\tRUNNING\n2\tsink_b\n3\n");
    assert_eq!(devs, vec![("sink_a".to_string(), "s16le 2ch".to_string()), ("sink_b".to_string(), "sink_b".to_string())]);
    assert_eq!(
        default_sink_from_info("Server Name: x\nDefault Sink: buschain_master\nDefault Source: y\n").as_deref(),
        Some("buschain_master")
    );
    assert_eq!(default_sink_from_info("Default Sink:   \n"), None);
    let b = teardown_rate_bridges(&vec![
        ("buschain_rs_1".into(), String::new()),
        ("hw".into(), String::new()),
        ("shadow_rs_2".into(), String::new()),
    ]);
    assert_eq!(b, vec!["buschain_rs_1", "shadow_rs_2"]);
}

#[test]
fn node_id_cache_ttl() {
    let mut c = NodeIdCache::new();
    assert_eq!(find_node_id_by_name(&c, "n", 0, Some(5)), NodeIdQuery::Found(5));
    assert_eq!(find_node_id_by_name(&c, "n", 0, None), NodeIdQuery::Probe(None));
    cache_node_id(&mut c, "n", 0, 0);
    assert_eq!(find_node_id_by_name(&c, "n", 0, None), NodeIdQuery::Probe(None));
    cache_node_id(&mut c, "n", 7, 1_000);
    assert_eq!(find_node_id_by_name(&c, "n", 1_000 + NODE_ID_TTL_MS - 1, None), NodeIdQuery::Found(7));
    assert_eq!(find_node_id_by_name(&c, "n", 1_000 + NODE_ID_TTL_MS, None), NodeIdQuery::Probe(Some(7)));
    assert_eq!(finish_node_id_probe(&mut c, "n", 50_000, Some(7), None, true), Some(7));
    assert_eq!(finish_node_id_probe(&mut c, "n", 50_000, Some(7), None, false), None);
    assert_eq!(finish_node_id_probe(&mut c, "n", 50_000, Some(7), Some(9), false), Some(9));
    assert_eq!(find_node_id_by_name(&c, "n", 50_001, None), NodeIdQuery::Found(9));
}

#[test]
fn move_plan() {
    let sinks = "1\tfrom\tx\n2\tto\ty\n";
    let inputs = "10\t1\tc\n11\t2\tc\n12\t1\tc\n";
    assert!(matches!(move_sink_inputs(Some(3), sinks, inputs, "from", "to"), MovePlan::Moved(3)));
    match move_sink_inputs(Some(0), sinks, inputs, "from", "to") {
        MovePlan::Pulse(v) => assert_eq!(v, vec!["10", "12"]),
        _ => panic!("expected pulse moves"),
    }
    assert!(matches!(move_sink_inputs(None, sinks, inputs, "from", "nowhere"), MovePlan::Moved(0)));
}

#[test]
fn filter_chain_runtime_is_inert() {
    let mut r = FilterChainRuntime::new();
    r.stop_all();
    r.stop_one("x");
    assert!(!r.owns_live("x"));
    assert!(!r.spawn_in_backoff("x"));
}

#[test]
fn cli_default_sink_switch() {
    assert_eq!(set_default_sink("hw", Some("hw")), SinkSwitch::Done(true));
    assert_eq!(set_default_sink("hw", Some("other")), SinkSwitch::SetWithPactl);
    assert_eq!(set_default_sink("hw", None), SinkSwitch::SetWithPactl);
    assert_eq!(after_pactl_set("hw", true, Some("hw"), None), SinkSwitch::Done(true));
    let listing = "40\tbuschain_master\tPipeWire\ts32le\n52\thw\tPipeWire\ts32le\n";
    assert_eq!(
        after_pactl_set("hw", true, Some("other"), Some(listing)),
        SinkSwitch::Fallback(vec![
            vec!["set-default".to_string(), "1".to_string()],
            vec!["set-default".to_string(), "52".to_string()],
        ])
    );
    assert_eq!(after_pactl_set("gone", false, None, Some(listing)), SinkSwitch::Fallback(vec![]));
    assert_eq!(after_pactl_set("hw", false, Some("hw"), None), SinkSwitch::Fallback(vec![]));
}

#[test]
fn ladspa_path_sorted_unique() {
    let dirs = vec!["/usr/lib/ladspa".to_string(), "/home/u/.local/lib/ladspa".to_string(), "/usr/lib/ladspa".to_string()];
    assert_eq!(ladspa_search_path(&dirs), "/home/u/.local/lib/ladspa:/usr/lib/ladspa");
    assert_eq!(ladspa_search_path(&vec![]), "");
}
