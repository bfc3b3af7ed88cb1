use buschain::rpc::{ensure_null_sink_plan, null_sink_props, NullSinkPlan};
use buschain::contract::ClockProps;
use buschain::domain::{NodeName, NodeRole, NodeSpec};
use buschain::rpc::{ensure_link_plan, link_create_props, LinkCreate, NativeLinkError, NativeLinkPlan};
use buschain::graph::{GraphView, LinkRec, NodeRec, PortDir, PortRec};
use buschain::ports::{link_is_live, port_id_pairs};

fn node(id: u32, name: &str, class: &str) -> NodeRec {
    NodeRec {
        id,
        name: name.into(),
        media_class: class.into(),
        description: String::new(),
        rate: None,
        serial: None,
    }
}

fn port(id: u32, node_id: u32, name: &str, direction: PortDir, channel: &str) -> PortRec {
    PortRec {
        id,
        node_id,
        name: name.into(),
        direction,
        channel: channel.into(),
    }
}

fn stereo_bus(view: &mut GraphView, id: u32, name: &str) {
    view.insert_node(node(id, name, "Audio/Sink"));
    view.insert_port(port(id * 10, id, "monitor_FL", PortDir::Out, "FL"));
    view.insert_port(port(id * 10 + 1, id, "monitor_FR", PortDir::Out, "FR"));
    view.insert_port(port(id * 10 + 2, id, "playback_FL", PortDir::In, "FL"));
    view.insert_port(port(id * 10 + 3, id, "playback_FR", PortDir::In, "FR"));
}

#[test]
fn null_sink_ready_needs_monitor_and_playback() {
    let mut g = GraphView::default();
    g.insert_node(NodeRec {
        id: 1,
        name: "buschain_post_x".into(),
        media_class: "Audio/Sink".into(),
        description: String::new(),
        rate: Some(48_000),
        serial: None,
    });
    assert!(!g.null_sink_ready("buschain_post_x"));
    g.insert_port(PortRec {
        id: 10,
        node_id: 1,
        name: "playback_FL".into(),
        direction: PortDir::In,
        channel: "FL".into(),
    });
    g.insert_port(PortRec {
        id: 11,
        node_id: 1,
        name: "monitor_FL".into(),
        direction: PortDir::Out,
        channel: "FL".into(),
    });
    assert!(g.null_sink_ready("buschain_post_x"));
}

#[test]
fn pulse_monitor_maps_to_monitor_ports() {
    let mut g = GraphView::default();
    stereo_bus(&mut g, 1, "buschain_track_a");
    stereo_bus(&mut g, 2, "buschain_fx_a");
    let pairs = port_id_pairs(&g, "buschain_track_a.monitor", "buschain_fx_a").unwrap();
    assert_eq!(pairs, vec![(10, 22), (11, 23)]);
    g.insert_link(LinkRec {
        id: 99,
        out_node: 1,
        out_port: 10,
        in_node: 2,
        in_port: 22,
    });
    g.insert_link(LinkRec {
        id: 100,
        out_node: 1,
        out_port: 11,
        in_node: 2,
        in_port: 23,
    });
    assert!(link_is_live(&g, "buschain_track_a.monitor", "buschain_fx_a"));
}

#[test]
fn port_pairs_report_missing_nodes_and_ports() {
    let mut g = GraphView::default();
    let e = port_id_pairs(&g, "nowhere.monitor", "sink").unwrap_err();
    assert_eq!(e.message(), "no PW node `nowhere` (from `nowhere.monitor`)");
    g.insert_node(node(1, "src", "Audio/Source"));
    g.insert_node(node(2, "dst", "Audio/Sink"));
    let e = port_id_pairs(&g, "src", "dst").unwrap_err();
    assert_eq!(e.message(), "no PW output ports for node `src`");
    g.insert_port(port(10, 1, "capture_FL", PortDir::Out, "FL"));
    let e = port_id_pairs(&g, "src", "dst").unwrap_err();
    assert_eq!(e.message(), "no PW input ports for node `dst`");
    g.insert_port(port(20, 2, "playback_FL", PortDir::In, "FL"));
    let e = port_id_pairs(&g, "src", "dst").unwrap_err();
    assert_eq!(e.message(), "could not pick L/R outputs on `src`");
    assert!(!link_is_live(&g, "src", "dst"));
}

#[test]
fn remove_global_drops_indices() {
    let mut g = GraphView::default();
    stereo_bus(&mut g, 1, "buschain_track_a");
    stereo_bus(&mut g, 2, "buschain_fx_a");
    g.insert_link(LinkRec { id: 99, out_node: 1, out_port: 10, in_node: 2, in_port: 22 });
    assert!(g.link_exists(10, 22));
    assert!(g.has_global(99));
    let before = g.generation;
    g.remove_global(99);
    assert!(!g.link_exists(10, 22));
    assert!(!g.has_global(99));
    assert_eq!(g.generation, before + 1);
    g.remove_global(10);
    assert_eq!(g.ports_of(1).iter().map(|p| p.id).collect::<Vec<_>>(), vec![11, 12, 13]);
    g.remove_global(1);
    assert_eq!(g.node_id("buschain_track_a"), None);
    assert!(g.node("buschain_track_a").is_none());
}

#[test]
fn sink_and_source_lists_are_sorted_and_unique() {
    let mut g = GraphView::default();
    g.insert_node(node(3, "zeta", "Audio/Sink"));
    g.insert_node(node(1, "alpha", "Audio/Sink/Internal"));
    g.insert_node(node(2, "buschain_x", "Stream/Output/Audio"));
    g.insert_node(node(4, "alpha", "Audio/Sink"));
    g.insert_node(node(5, "mic", "Audio/Source"));
    g.insert_node(node(6, "keys", "Midi/Bridge"));
    assert_eq!(g.sink_names(), vec!["alpha", "buschain_x", "zeta"]);
    assert_eq!(g.pulse_sink_names(), vec!["alpha", "zeta"]);
    let src: Vec<String> = g.source_names().into_iter().map(|(n, _)| n).collect();
    assert_eq!(src, vec!["mic"]);
    let midi: Vec<String> = g.devices_of_class("Midi").into_iter().map(|(n, _)| n).collect();
    assert_eq!(midi, vec!["keys"]);
}

#[test]
fn node_by_serial_and_clear() {
    let mut g = GraphView::default();
    let mut n = node(7, "app", "Stream/Output/Audio");
    n.serial = Some(42);
    g.insert_node(n);
    assert_eq!(g.node_by_serial(42).map(|n| n.id), Some(7));
    assert!(g.node_by_serial(43).is_none());
    g.clear();
    assert_eq!(g.generation, 1);
    assert!(g.node_by_serial(42).is_none());
}

#[test]
fn generation_wraps() {
    let mut g = GraphView::default();
    g.generation = u64::MAX;
    g.bump();
    assert_eq!(g.generation, 0);
}

#[test]
fn native_link_plan_replaces_stale_pairs() {
    let mut g = GraphView::default();
    stereo_bus(&mut g, 1, "buschain_master");
    stereo_bus(&mut g, 2, "alsa_output.hw");
    assert!(matches!(ensure_link_plan(&g, "buschain_master.monitor", "alsa_output.hw"), Err(NativeLinkError::NoFactory)));
    g.link_factory = Some("link-factory".into());
    g.insert_link(LinkRec { id: 90, out_node: 1, out_port: 10, in_node: 2, in_port: 22 });
    match ensure_link_plan(&g, "buschain_master.monitor", "alsa_output.hw") {
        Ok(NativeLinkPlan::Create { factory, links }) => {
            assert_eq!(factory, "link-factory");
            assert_eq!(
                links,
                vec![
                    LinkCreate { replace: Some(90), out_node: 1, out_port: 10, in_node: 2, in_port: 22 },
                    LinkCreate { replace: None, out_node: 1, out_port: 11, in_node: 2, in_port: 23 },
                ]
            );
            let props = link_create_props(&links[1]);
            assert_eq!(props[1], ("link.output.port".to_string(), "11".to_string()));
            assert_eq!(props[4], ("object.linger".to_string(), "false".to_string()));
        }
        other => panic!("unexpected {other:?}"),
    }
    g.insert_link(LinkRec { id: 91, out_node: 1, out_port: 11, in_node: 2, in_port: 23 });
    assert!(matches!(ensure_link_plan(&g, "buschain_master.monitor", "alsa_output.hw"), Ok(NativeLinkPlan::Live)));
    assert!(matches!(ensure_link_plan(&g, "nobody", "alsa_output.hw"), Err(NativeLinkError::Ports(_))));
}

fn bus_spec(name: &str, export: bool) -> NodeSpec {
    NodeSpec { name: NodeName::new(name), description: "Bus".into(), role: NodeRole::TrackBus, start_muted: true, pulse_export: export }
}

#[test]
fn native_null_sink_plan() {
    let mut g = GraphView::default();
    assert_eq!(ensure_null_sink_plan(&g, &bus_spec("buschain_track_1", false)), NullSinkPlan::Create);
    g.insert_node(node(5, "buschain_track_1", "Audio/Sink/Internal"));
    assert_eq!(ensure_null_sink_plan(&g, &bus_spec("buschain_track_1", false)), NullSinkPlan::AwaitPorts);
    g.insert_port(port(50, 5, "monitor_FL", PortDir::Out, "FL"));
    g.insert_port(port(51, 5, "playback_FL", PortDir::In, "FL"));
    assert_eq!(ensure_null_sink_plan(&g, &bus_spec("buschain_track_1", false)), NullSinkPlan::Ready);
    g.insert_node(node(9, "buschain_hold", "Audio/Sink/Internal"));
    g.insert_node(NodeRec { id: 20, name: "app".into(), media_class: "Stream/Output/Audio".into(), description: String::new(), rate: None, serial: Some(3) });
    g.insert_link(LinkRec { id: 70, out_node: 20, out_port: 200, in_node: 5, in_port: 51 });
    assert_eq!(
        ensure_null_sink_plan(&g, &bus_spec("buschain_track_1", true)),
        NullSinkPlan::Recreate { destroy: 5, parked: vec![20], hold: Some(9) }
    );
    let clock = ClockProps { sample_rate: 96_000, quantum: 512, soft_quantum: true, suspend_timeout: 0, node_latency: "512/96000".into() };
    let props = null_sink_props(&bus_spec("buschain_track_1", true), &clock);
    assert_eq!(props.len(), 17);
    assert_eq!(props[3], ("media.class".to_string(), "Audio/Sink".to_string()));
    assert_eq!(props[6], ("audio.rate".to_string(), "96000".to_string()));
    assert_eq!(props[9], ("node.lock-quantum".to_string(), "false".to_string()));
    assert_eq!(props[16], ("monitor.channel-volumes".to_string(), "true".to_string()));
}
