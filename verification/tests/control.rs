use buschain::route::{route_next, RouteRun};
use buschain::rpc::set_node_props;
use buschain::graph::PortDir;
use buschain::globals::{on_global, on_metadata_property, GlobalKind, GlobalOutcome};
use buschain::recovery::recover_desktop_audio;
use buschain::graph::{GraphView, LinkRec, NodeRec};
use buschain::linker::{ensure_link, ensure_link_force, LinkAction, LinkStage};
use buschain::route::{
    effective_rate, ensure_clocked_route, ensure_clocked_route_force, wants_rate_bridge, RouteStep,
};
use buschain::rpc::{
    destroy_node, new_shared, retarget_stream_serial, retarget_streams, set_default_sink,
    target_writes, SerialRetarget,
};
use buschain::session::{default_sink_from, default_sink_name, unlink_from_source_except, PlaneState};

fn node(id: u32, name: &str, class: &str, serial: Option<u32>) -> NodeRec {
    NodeRec {
        id,
        name: name.into(),
        media_class: class.into(),
        description: String::new(),
        rate: None,
        serial,
    }
}

fn link(id: u32, out_node: u32, in_node: u32) -> LinkRec {
    LinkRec { id, out_node, out_port: id * 2, in_node, in_port: id * 2 + 1 }
}

fn graph() -> GraphView {
    let mut g = new_shared();
    g.insert_node(node(1, "hw", "Audio/Sink", None));
    g.insert_node(node(2, "buschain_master", "Audio/Sink", None));
    g.insert_node(node(10, "firefox", "Stream/Output/Audio", Some(77)));
    g.insert_node(node(11, "mpv", "Stream/Output/Audio", Some(5)));
    g.insert_link(link(100, 10, 1));
    g.insert_link(link(101, 11, 1));
    g.insert_link(link(102, 11, 2));
    g
}

#[test]
fn new_shared_view_is_empty() {
    let g = new_shared();
    assert_eq!(g.generation, 0);
    assert!(g.node("hw").is_none());
    assert_eq!(default_sink_name(Some(&g)), None);
}

#[test]
fn destroy_node_resolves_the_name() {
    let g = graph();
    assert_eq!(destroy_node(&g, "hw"), Ok(1));
    assert_eq!(destroy_node(&g, "gone"), Err("node `gone` not in registry".to_string()));
}

#[test]
fn default_sink_write_is_cached_and_reads_back() {
    let mut g = graph();
    let v = set_default_sink(&mut g, true, "buschain_master");
    assert_eq!(v.as_deref(), Some("{\"name\":\"buschain_master\"}"));
    assert_eq!(default_sink_name(Some(&g)).as_deref(), Some("buschain_master"));
    let back = default_sink_from(None, v.as_deref().unwrap());
    assert_eq!(back.as_deref(), Some("buschain_master"));
}

#[test]
fn default_sink_value_drops_quotes() {
    let mut g = graph();
    let v = set_default_sink(&mut g, true, "we\"ird");
    assert_eq!(v.as_deref(), Some("{\"name\":\"weird\"}"));
    assert_eq!(default_sink_name(Some(&g)).as_deref(), Some("we\"ird"));
}

#[test]
fn default_sink_without_metadata_writes_nothing() {
    let mut g = graph();
    assert_eq!(set_default_sink(&mut g, false, "hw"), None);
    assert_eq!(default_sink_name(Some(&g)), None);
}

#[test]
fn target_writes_name_the_sink_and_its_id() {
    let w = target_writes(10, 42, "buschain_master");
    assert_eq!(w.len(), 2);
    assert_eq!(w[0], (10, "target.object".into(), "Spa:String".into(), "buschain_master".into()));
    assert_eq!(w[1], (10, "target.node".into(), "Spa:Id".into(), "42".into()));
}

#[test]
fn retarget_streams_moves_every_stream_on_the_sink() {
    let g = graph();
    assert_eq!(retarget_streams(&g, true, "hw", "buschain_master"), Ok((2, vec![10, 11])));
    assert_eq!(retarget_streams(&g, false, "hw", "buschain_master"), Ok((2, vec![])));
    assert_eq!(retarget_streams(&g, true, "nobody", "buschain_master"), Ok((2, vec![])));
    assert_eq!(
        retarget_streams(&g, true, "hw", "gone"),
        Err("retarget: sink `gone` not in registry".to_string())
    );
}

#[test]
fn retarget_by_serial_skips_linked_streams() {
    let g = graph();
    assert_eq!(retarget_stream_serial(&g, 5, "buschain_master"), Ok(SerialRetarget::AlreadyLinked));
    assert_eq!(
        retarget_stream_serial(&g, 77, "buschain_master"),
        Ok(SerialRetarget::Pin { stream_id: 10, sink_id: 2 })
    );
    assert_eq!(retarget_stream_serial(&g, 9, "buschain_master"), Ok(SerialRetarget::NoStream));
    assert!(retarget_stream_serial(&g, 77, "gone").is_err());
}

#[test]
fn plane_view_hidden_while_dead() {
    let g = graph();
    let mut p = PlaneState::new();
    assert!(p.shared_view(Some(&g)).is_some());
    assert!(p.shared_view(None).is_none());
    assert!(p.is_ready(Some(true)));
    assert!(!p.is_ready(Some(false)));
    assert!(!p.is_ready(None));
    let mut h = graph();
    p.mark_dead(&mut h);
    assert!(p.shared_view(Some(&g)).is_none());
    assert!(!p.is_ready(Some(true)));
}

#[test]
fn native_unlink_except_without_view_does_nothing() {
    assert!(unlink_from_source_except(None, "hw.monitor", &[]).is_empty());
}

#[test]
fn effective_rate_follows_the_node_kind() {
    assert_eq!(effective_rate("buschain_master", 48_000, Some(44_100), None, None), 44_100);
    assert_eq!(effective_rate("buschain_master", 48_000, None, Some(96_000), None), 48_000);
    assert_eq!(effective_rate("buschain_rs_x", 48_000, Some(44_100), None, None), 48_000);
    assert_eq!(effective_rate("alsa_input.mic", 48_000, Some(44_100), Some(96_000), None), 96_000);
    assert_eq!(effective_rate("alsa_input.mic", 48_000, None, None, Some(32_000)), 32_000);
    assert_eq!(effective_rate("alsa_input.mic", 48_000, None, None, None), 0);
}

#[test]
fn bridges_only_inbound_with_differing_rates() {
    assert!(wants_rate_bridge("alsa_input.mic", "buschain_track_1", 44_100, 48_000));
    assert!(!wants_rate_bridge("alsa_input.mic", "buschain_track_1", 48_000, 48_000));
    assert!(!wants_rate_bridge("alsa_input.mic", "buschain_track_1", 0, 48_000));
    assert!(!wants_rate_bridge("buschain_master.monitor", "alsa_output.hw", 48_000, 44_100));
    assert!(!wants_rate_bridge("buschain_master.monitor", "buschain_track_1", 44_100, 48_000));
}

#[test]
fn direct_route_prunes_stale_bridge_hops() {
    let routes = vec![
        ("mic".to_string(), "buschain_rs_a".to_string()),
        ("other".to_string(), "buschain_rs_b".to_string()),
    ];
    let bridges = vec!["buschain_rs_a".to_string(), "buschain_rs_b".to_string()];
    let steps = ensure_clocked_route("mic", "buschain_track_1", 48_000, 48_000, "buschain_rs_c", &bridges, &routes, true);
    assert_eq!(
        steps,
        vec![
            RouteStep::Unlink("buschain_rs_a.monitor".into(), "buschain_track_1".into()),
            RouteStep::Unlink("mic".into(), "buschain_rs_a".into()),
            RouteStep::ForgetRoute("mic".into(), "buschain_rs_a".into()),
            RouteStep::ForgetRoute("buschain_rs_a.monitor".into(), "buschain_track_1".into()),
            RouteStep::UnlinkExcept("mic".into(), vec!["buschain_track_1".into(), "buschain_hold".into()]),
            RouteStep::Link("mic".into(), "buschain_track_1".into(), false),
            RouteStep::RecordRoute("mic".into(), "buschain_track_1".into(), true),
        ]
    );
}

#[test]
fn bridged_route_goes_through_the_bridge() {
    let steps = ensure_clocked_route_force("mic", "buschain_track_1", 44_100, 48_000, "buschain_rs_m", &[], &[], false);
    assert_eq!(
        steps,
        vec![
            RouteStep::Unlink("mic".into(), "buschain_track_1".into()),
            RouteStep::ForgetRoute("mic".into(), "buschain_track_1".into()),
            RouteStep::EnsureBridge {
                src_rate: 44_100,
                dst_rate: 48_000,
                description: "BusChainControl_RateBridge_44100_to_48000".into()
            },
            RouteStep::Unlink("mic".into(), "buschain_rs_m".into()),
            RouteStep::Unlink("buschain_rs_m.monitor".into(), "buschain_track_1".into()),
            RouteStep::Link("mic".into(), "buschain_rs_m".into(), true),
            RouteStep::Link("buschain_rs_m.monitor".into(), "buschain_track_1".into(), true),
            RouteStep::RecordRoute("mic".into(), "buschain_rs_m".into(), false),
            RouteStep::RecordRoute("buschain_rs_m.monitor".into(), "buschain_track_1".into(), false),
        ]
    );
}

#[test]
fn link_with_registry_up_needs_a_registry_live_hop() {
    let (mut l, a) = ensure_link("mic", "buschain_track_1", true, false);
    assert_eq!(a, LinkAction::Check);
    assert_eq!(l.checked(false, true, true), LinkAction::Clear { unlink: false });
    assert_eq!(l.tried(Ok(())), LinkAction::RecordThenVerify);
    assert_eq!(l.verified(false), LinkAction::Try { pause: false });
    assert_eq!(l.tried(Err("pw-link mic → x: busy".into())), LinkAction::Fail("pw-link mic → x: busy".into()));
    assert_eq!(l.stage, LinkStage::Finished);
}

#[test]
fn link_already_live_succeeds_at_once() {
    let (mut l, _) = ensure_link("mic", "buschain_track_1", true, false);
    assert_eq!(l.checked(true, false, false), LinkAction::Succeed { record: true, invalidate: false });
    let (mut c, _) = ensure_link("mic", "buschain_track_1", false, false);
    assert_eq!(c.checked(false, true, false), LinkAction::Succeed { record: true, invalidate: false });
}

#[test]
fn link_cold_path_falls_back_to_pulse() {
    let (mut l, a) = ensure_link_force("mic", "buschain_track_1", false, false);
    assert_eq!(a, LinkAction::Clear { unlink: true });
    assert_eq!(l.tried(Err("e1".into())), LinkAction::Try { pause: true });
    assert_eq!(l.tried(Err("e2".into())), LinkAction::LoadLoopback { reason: "e2".into() });
    assert_eq!(l.loaded(Err("no module".into())), LinkAction::Fail("e2; pulse fallback: no module".into()));
}

#[test]
fn link_fx_hops_never_use_pulse() {
    let (mut l, _) = ensure_link_force("buschain_fx_master.monitor", "hw", false, true);
    l.tried(Err("e1".into()));
    assert_eq!(l.tried(Err("e2".into())), LinkAction::Fail("e2".into()));
}

#[test]
fn link_verified_hop_is_done() {
    let (mut l, _) = ensure_link("mic", "buschain_track_1", true, false);
    l.checked(false, false, false);
    l.tried(Ok(()));
    assert_eq!(l.verified(true), LinkAction::Succeed { record: false, invalidate: false });
    let (mut c, _) = ensure_link("mic", "buschain_track_1", false, false);
    assert_eq!(c.checked(false, false, false), LinkAction::Clear { unlink: false });
    assert_eq!(c.tried(Ok(())), LinkAction::Succeed { record: true, invalidate: true });
}

#[test]
fn link_unverified_twice_reports_not_live() {
    let (mut l, _) = ensure_link("mic", "bus", true, true);
    l.checked(false, false, false);
    l.tried(Ok(()));
    l.verified(false);
    l.tried(Ok(()));
    assert_eq!(
        l.verified(false),
        LinkAction::LoadLoopback { reason: "pw-link reported ok but hop not live mic→bus".into() }
    );
    assert_eq!(l.loaded(Ok(())), LinkAction::Succeed { record: true, invalidate: false });
}

fn props(kv: &[(&str, &str)]) -> Vec<(String, String)> {
    kv.iter().map(|(k, v)| (k.to_string(), v.to_string())).collect()
}

#[test]
fn registry_globals_fill_the_snapshot() {
    let mut g = new_shared();
    let node_props = props(&[
        ("node.name", "firefox"),
        ("media.class", "Stream/Output/Audio"),
        ("device.description", "Firefox"),
        ("audio.rate", "48000"),
        ("object.serial", "77"),
        ("application.name", "Firefox"),
        ("application.id", ""),
        ("node.virtual", "true"),
    ]);
    assert_eq!(on_global(&mut g, 10, GlobalKind::Node, Some(&node_props), false), GlobalOutcome::Recorded);
    let n = g.node("firefox").unwrap();
    assert_eq!((n.id, n.description.as_str(), n.rate, n.serial), (10, "Firefox", Some(48_000), Some(77)));
    let sp = g.stream_props_by_id.get(&10).unwrap();
    assert_eq!(sp.app_name.as_deref(), Some("Firefox"));
    assert_eq!(sp.app_id, None);
    assert!(sp.node_virtual);
    let port_props = props(&[("node.id", "10"), ("port.name", "output_FL"), ("port.direction", "out"), ("audio.channel", "FL")]);
    on_global(&mut g, 11, GlobalKind::Port, Some(&port_props), false);
    let p = g.ports_by_id.get(&11).unwrap();
    assert_eq!((p.node_id, p.name.as_str(), p.direction, p.channel.as_str()), (10, "output_FL", PortDir::Out, "FL"));
    let link_props = props(&[("link.output.node", "10"), ("link.output.port", "11"), ("link.input.node", "x"), ("link.input.port", "21")]);
    on_global(&mut g, 30, GlobalKind::Link, Some(&link_props), false);
    let l = *g.links_by_id.get(&30).unwrap();
    assert_eq!((l.out_node, l.out_port, l.in_node, l.in_port), (10, 11, 0, 21));
    assert!(g.link_exists(11, 21));
    let f = props(&[("factory.type.name", "PipeWire:Interface:Link"), ("factory.name", "link-factory")]);
    assert_eq!(on_global(&mut g, 5, GlobalKind::Factory, Some(&f), false), GlobalOutcome::Recorded);
    assert_eq!(g.link_factory.as_deref(), Some("link-factory"));
    let m = props(&[("metadata.name", "default")]);
    assert_eq!(on_global(&mut g, 6, GlobalKind::Metadata, Some(&m), false), GlobalOutcome::BindMetadata);
    assert_eq!(on_global(&mut g, 6, GlobalKind::Metadata, Some(&m), true), GlobalOutcome::Ignored);
    assert_eq!(on_global(&mut g, 7, GlobalKind::Node, None, false), GlobalOutcome::Ignored);
    on_metadata_property(&mut g, Some("default.audio.sink"), Some("{\"name\":\"hw\"}"));
    assert_eq!(default_sink_name(Some(&g)).as_deref(), Some("hw"));
    on_metadata_property(&mut g, Some("other"), None);
    assert_eq!(default_sink_name(Some(&g)).as_deref(), Some("hw"));
    on_metadata_property(&mut g, Some("default.audio.sink"), None);
    assert_eq!(default_sink_name(Some(&g)), None);
}

#[test]
fn desktop_recovery_plan() {
    let sinks = "1\tbuschain_master\tPipeWire\n2\tshadow_old\tx\n3\talsa_output.usb\tx\n4\talsa_output.pci\tx\n";
    let sources = "1\talsa_output.usb.monitor\tx\n2\tbuschain_vin_1\tx\n3\talsa_input.mic\tx\n";
    let inputs = "12\t1\tfoo\n13\t3\tbar\n";
    let modules = "5\tmodule-null-sink\tsink_name=buschain_master\n6\tmodule-loopback\tsource=a sink=b\n7\tmodule-remap-source\tsource_name=buschain_vin_1\n8\tmodule-echo\tbuschain_x\n";
    let p = recover_desktop_audio(sinks, sources, Some(inputs), Some(modules)).unwrap();
    assert_eq!(p.hw_sink, "alsa_output.usb");
    assert_eq!(p.hw_source.as_deref(), Some("alsa_input.mic"));
    assert_eq!(p.move_inputs, vec!["12".to_string(), "13".to_string()]);
    assert_eq!(p.unload_modules, vec!["5".to_string(), "7".to_string()]);
    let q = recover_desktop_audio(sinks, "1\tx.monitor\n", None, None).unwrap();
    assert_eq!(q.hw_source, None);
    assert!(q.move_inputs.is_empty() && q.unload_modules.is_empty());
    assert!(recover_desktop_audio("1\tbuschain_master\n", sources, None, None).is_none());
}

#[test]
fn node_props_only_push_descriptions() {
    let g = graph();
    let e = props(&[("audio.rate", "48000"), ("node.description", "Main Out"), ("device.description", "x")]);
    assert_eq!(set_node_props(&g, "hw.monitor", &e), Ok(Some((1, "Main Out".to_string()))));
    assert_eq!(set_node_props(&g, "hw", &props(&[("audio.rate", "1")])), Ok(None));
    assert_eq!(set_node_props(&g, "gone", &e), Err("node `gone` not in registry".to_string()));
}

#[test]
fn link_success_always_records_the_hop() {
    let (mut l, _) = ensure_link("mic", "buschain_track_1", true, false);
    assert!(!l.recorded);
    l.checked(false, false, false);
    assert!(!l.recorded);
    assert_eq!(l.tried(Ok(())), LinkAction::RecordThenVerify);
    assert!(l.recorded);
    assert_eq!(l.verified(true), LinkAction::Succeed { record: false, invalidate: false });
    assert!(l.recorded);
    let (mut p, _) = ensure_link_force("mic", "buschain_track_1", false, false);
    p.tried(Err("e1".into()));
    p.tried(Err("e2".into()));
    assert!(!p.recorded);
    assert_eq!(p.loaded(Ok(())), LinkAction::Succeed { record: true, invalidate: false });
    assert!(p.recorded);
}

#[test]
fn route_runner_stops_at_failed_hop() {
    let steps = ensure_clocked_route("buschain_master.monitor", "hw", 48_000, 48_000, "rs", &[], &[], true);
    assert_eq!(steps.len(), 3);
    assert!(matches!(route_next(&steps, &vec![]), RouteRun::Perform(0)));
    assert!(matches!(route_next(&steps, &vec![Err("busy".into())]), RouteRun::Perform(1)));
    match route_next(&steps, &vec![Err("busy".into()), Err("no ports".into())]) {
        RouteRun::Done(Err(e)) => assert_eq!(e, "no ports"),
        other => panic!("{other:?}"),
    }
    assert!(matches!(route_next(&steps, &vec![Ok(()), Ok(())]), RouteRun::Perform(2)));
    assert!(matches!(route_next(&steps, &vec![Ok(()), Ok(()), Ok(())]), RouteRun::Done(Ok(()))));
}
