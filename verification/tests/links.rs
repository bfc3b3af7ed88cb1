use buschain::link::{lowered_class_ok, lowered_left, lowered_mono, lowered_right};
use buschain::link::{
    is_monitor_source, link_is_live, pair_linked_in_listing, pick_lr, port_on_node, port_pairs,
    ports_for_node, pw_node, PortPairError,
};
use buschain::modules::{
    load_pulse_loopback_args, LOOPBACK_APPEAR_POLLS,
    loopback_modules_for, parse_module_row, pulse_loopback_exists, pulse_loopback_owned,
    teardown_buschain_links, unload_legacy_from_source_except, unload_legacy_loopback,
    unload_legacy_loopback_force, unload_legacy_loopbacks_into_sink_except,
    unload_orphan_hw_to_rs_loopbacks, OwnedLinks,
};
use buschain::unlink::{
    capture_peer_allowed, port_targets_allowed, unlink_capture_into_sink_except,
    unlink_capture_into_sink_except_with_bridges, unlink_from_source_except, unlink_source_lines,
};

const OUTS: &str = "buschain_master:monitor_FL\nbuschain_master:monitor_FR\nalsa_input.mic:capture_MONO\nbuschain_master_x:monitor_FL\n";
const INS: &str = "alsa_output.hw:playback_FL\nalsa_output.hw:playback_FR\nbuschain_track_1:playback_FL\nbuschain_track_1:playback_FR\n";

fn s(v: &str) -> String {
    v.to_string()
}

#[test]
fn node_names_and_ports() {
    assert_eq!(pw_node("buschain_master.monitor"), "buschain_master");
    assert_eq!(pw_node("alsa_input.mic"), "alsa_input.mic");
    assert!(is_monitor_source("x.monitor"));
    assert!(!is_monitor_source("x"));
    assert!(port_on_node("buschain_fx_a:input_FL", "buschain_fx_a"));
    assert!(port_on_node("buschain_fx_a", "buschain_fx_a"));
    assert!(!port_on_node("buschain_fx_a_out:input_FL", "buschain_fx_a"));
    assert_eq!(
        ports_for_node(OUTS, "buschain_master"),
        vec![s("buschain_master:monitor_FL"), s("buschain_master:monitor_FR")]
    );
}

#[test]
fn left_right_ports() {
    let stereo = vec![s("n:playback_FR"), s("n:playback_FL")];
    assert_eq!(pick_lr(&stereo, false), Some((s("n:playback_FL"), s("n:playback_FR"))));
    let mono = vec![s("mic:capture_MONO"), s("mic:capture_AUX")];
    assert_eq!(pick_lr(&mono, false), Some((s("mic:capture_MONO"), s("mic:capture_MONO"))));
    let single = vec![s("n:out")];
    assert_eq!(pick_lr(&single, false), Some((s("n:out"), s("n:out"))));
    let unnamed = vec![s("n:a"), s("n:b"), s("n:c")];
    assert_eq!(pick_lr(&unnamed, false), Some((s("n:a"), s("n:b"))));
    let mixed = vec![s("n:monitor_FL"), s("n:monitor_FR"), s("n:playback_FL"), s("n:playback_FR")];
    assert_eq!(pick_lr(&mixed, true), Some((s("n:monitor_FL"), s("n:monitor_FR"))));
    assert_eq!(pick_lr(&mixed, false), Some((s("n:playback_FL"), s("n:playback_FR"))));
    assert_eq!(pick_lr(&vec![], false), None);
}

#[test]
fn stereo_port_pairs() {
    assert_eq!(
        port_pairs(OUTS, INS, "buschain_master.monitor", "alsa_output.hw"),
        Ok(vec![
            (s("buschain_master:monitor_FL"), s("alsa_output.hw:playback_FL")),
            (s("buschain_master:monitor_FR"), s("alsa_output.hw:playback_FR")),
        ])
    );
    assert_eq!(
        port_pairs(OUTS, INS, "alsa_input.mic", "buschain_track_1"),
        Ok(vec![
            (s("alsa_input.mic:capture_MONO"), s("buschain_track_1:playback_FL")),
            (s("alsa_input.mic:capture_MONO"), s("buschain_track_1:playback_FR")),
        ])
    );
    assert_eq!(port_pairs(OUTS, INS, "nobody", "alsa_output.hw"), Err(PortPairError::NoOutputPorts));
    assert_eq!(port_pairs(OUTS, INS, "alsa_input.mic", "nobody"), Err(PortPairError::NoInputPorts));
}

#[test]
fn liveness_from_listing_forms() {
    let tree = "buschain_master:monitor_FL\n  |-> alsa_output.hw:playback_FL\nbuschain_master:monitor_FR\n  |-> alsa_output.hw:playback_FR\n";
    assert!(pair_linked_in_listing(tree, "buschain_master:monitor_FL", "alsa_output.hw:playback_FL"));
    assert!(!pair_linked_in_listing(tree, "buschain_master:monitor_FL", "alsa_output.hw:playback_FR"));
    let flat = "buschain_master:monitor_FL -> alsa_output.hw:playback_FL\n";
    assert!(pair_linked_in_listing(flat, "buschain_master:monitor_FL", "alsa_output.hw:playback_FL"));
    assert!(link_is_live(OUTS, INS, tree, "buschain_master.monitor", "alsa_output.hw"));
    assert!(!link_is_live(OUTS, INS, flat, "buschain_master.monitor", "alsa_output.hw"));
    assert!(!link_is_live(OUTS, INS, tree, "nobody", "alsa_output.hw"));
}

#[test]
fn source_unlinks_keep_hold_meters_and_allowed() {
    let links = "alsa_input.mic:capture_MONO\n  |-> buschain_track_1:playback_FL\n  |-> buschain_hold:playback_FL\n  |-> meter-7:input_MONO\n  |-> alsa_output.hw:playback_FL\nalsa_input.mic:capture_MONO -> other:playback_FR\nelse:out -> x:in\n";
    let allow = vec![s("buschain_track_1")];
    let v = unlink_source_lines(links, "alsa_input.mic", &allow);
    assert_eq!(
        v,
        vec![
            (s("alsa_input.mic:capture_MONO"), s("alsa_output.hw:playback_FL")),
            (s("alsa_input.mic:capture_MONO"), s("other:playback_FR")),
        ]
    );
    assert!(port_targets_allowed("buschain_track_1:playback_FL", &allow));
    assert!(!port_targets_allowed("buschain_track_10:playback_FL", &allow));
}

#[test]
fn cli_unlink_except_prunes_owned_hops() {
    let mut owned = OwnedLinks::new();
    owned.insert("alsa_input.mic", "buschain_track_1");
    owned.insert("alsa_input.mic", "buschain_track_2");
    owned.insert("alsa_input.mic", "buschain_hold");
    owned.insert("other", "buschain_track_2");
    let links = "alsa_input.mic:capture_MONO -> buschain_track_2:playback_FL\n";
    let allow = vec![s("buschain_track_1")];
    let v = unlink_from_source_except(&mut owned, "alsa_input.mic", Some(links), &allow);
    assert_eq!(v, vec![(s("alsa_input.mic:capture_MONO"), s("buschain_track_2:playback_FL"))]);
    assert!(owned.contains("alsa_input.mic", "buschain_track_1"));
    assert!(owned.contains("alsa_input.mic", "buschain_hold"));
    assert!(!owned.contains("alsa_input.mic", "buschain_track_2"));
    assert!(owned.contains("other", "buschain_track_2"));
    assert!(unlink_from_source_except(&mut owned, "alsa_input.mic", None, &allow).is_empty());
}

#[test]
fn capture_peers() {
    let srcs = vec![s("alsa_input.mic")];
    let bridges = vec![s("buschain_rs_a")];
    assert!(capture_peer_allowed("buschain_master", &srcs, &bridges));
    assert!(capture_peer_allowed("meter-3", &srcs, &bridges));
    assert!(!capture_peer_allowed("output.loopback-1", &srcs, &bridges));
    assert!(capture_peer_allowed("buschain_rs_a", &srcs, &bridges));
    assert!(!capture_peer_allowed("buschain_rs_b", &srcs, &bridges));
    assert!(capture_peer_allowed("alsa_input.mic", &srcs, &bridges));
    assert!(!capture_peer_allowed("alsa_input.webcam", &srcs, &bridges));
}

#[test]
fn capture_unlinks_into_sink() {
    let links = "buschain_track_1:playback_FL\n  |<- alsa_input.mic:capture_MONO\n  |<- alsa_input.webcam:capture_FL\n  |<- buschain_rs_a:monitor_FL\nalsa_input.cam2:capture_FR\n  |-> buschain_track_1:playback_FR\n";
    let srcs = vec![s("alsa_input.mic")];
    assert_eq!(
        unlink_capture_into_sink_except(links, "buschain_track_1", &srcs),
        vec![
            (s("alsa_input.webcam:capture_FL"), s("buschain_track_1:playback_FL")),
            (s("buschain_rs_a:monitor_FL"), s("buschain_track_1:playback_FL")),
            (s("alsa_input.cam2:capture_FR"), s("buschain_track_1:playback_FR")),
        ]
    );
    let bridges = vec![s("buschain_rs_a")];
    assert_eq!(
        unlink_capture_into_sink_except_with_bridges(links, "buschain_track_1", &srcs, &bridges).len(),
        2
    );
}

const MODULES: &str = "10\tmodule-loopback\tsource=alsa_input.mic sink=buschain_rs_a latency_msec=5\n11\tmodule-loopback\tsource=alsa_input.cam sink=buschain_track_1 media.name=buschain-control\n12\tmodule-null-sink\tsink_name=buschain_master\n13\tmodule-loopback\tsource=buschain_master.monitor sink=buschain_hold\nbroken\n";

#[test]
fn module_rows() {
    let r = parse_module_row("10\tmodule-loopback\tsource=a sink=b").unwrap();
    assert_eq!((r.index.as_str(), r.name.as_str(), r.args.as_str()), ("10", "module-loopback", "source=a sink=b"));
    let r = parse_module_row("7\tmodule-x").unwrap();
    assert_eq!(r.args, "");
    assert!(parse_module_row("nothing").is_none());
}

#[test]
fn loopback_selection() {
    assert_eq!(unload_orphan_hw_to_rs_loopbacks(MODULES, &[]), vec![s("10")]);
    assert!(unload_orphan_hw_to_rs_loopbacks(MODULES, &[s("alsa_input.mic")]).is_empty());
    assert_eq!(unload_legacy_loopbacks_into_sink_except(MODULES, "buschain_track_1", &[]), vec![s("11")]);
    assert!(unload_legacy_loopbacks_into_sink_except(MODULES, "buschain_track_1", &[s("alsa_input.cam")]).is_empty());
    assert!(unload_legacy_from_source_except(MODULES, "buschain_master.monitor", &[]).is_empty());
    assert_eq!(unload_legacy_from_source_except(MODULES, "alsa_input.mic", &[]), vec![s("10")]);
    assert!(unload_legacy_from_source_except(MODULES, "alsa_input.mic", &[s("buschain_rs_a")]).is_empty());
    assert_eq!(loopback_modules_for(MODULES, "alsa_input.cam", "buschain_track_1"), vec![s("11")]);
    assert!(pulse_loopback_exists(MODULES, "alsa_input.mic", "buschain_rs_a"));
    assert!(!pulse_loopback_exists(MODULES, "alsa_input.mic", "buschain_track_1"));
}

#[test]
fn owned_loopbacks() {
    let mut owned = OwnedLinks::new();
    assert!(unload_legacy_loopback(&mut owned, MODULES, "alsa_input.mic", "buschain_rs_a").is_empty());
    owned.insert("alsa_input.mic", "buschain_rs_a");
    assert!(pulse_loopback_owned(&owned, "alsa_input.mic", "buschain_rs_a"));
    assert_eq!(unload_legacy_loopback(&mut owned, MODULES, "alsa_input.mic", "buschain_rs_a"), vec![s("10")]);
    assert!(!pulse_loopback_owned(&owned, "alsa_input.mic", "buschain_rs_a"));
    assert_eq!(unload_legacy_loopback_force(&mut owned, MODULES, "alsa_input.cam", "buschain_track_1"), vec![s("11")]);
    owned.insert("a", "b");
    owned.remove("a", "b");
    assert!(!owned.contains("a", "b"));
}

#[test]
fn teardown_drains_owned_and_buschain_loopbacks() {
    let mut owned = OwnedLinks::new();
    owned.insert("x.monitor", "buschain_master");
    let (hops, mods) = teardown_buschain_links(&mut owned, Some(MODULES));
    assert_eq!(hops, vec![(s("x.monitor"), s("buschain_master"))]);
    assert_eq!(mods, vec![s("10"), s("11"), s("13")]);
    assert!(!owned.contains("x.monitor", "buschain_master"));
    let (hops, mods) = teardown_buschain_links(&mut owned, None);
    assert!(hops.is_empty() && mods.is_empty());
}

#[test]
fn loopback_load_arguments() {
    let a = load_pulse_loopback_args("mic", "buschain_rs_voice");
    assert_eq!(
        a,
        vec![
            "load-module", "module-loopback", "source=mic", "sink=buschain_rs_voice",
            "latency_msec=5", "source_dont_move=true", "sink_dont_move=true", "channels=2",
            "channel_map=front-left,front-right", "media.name=buschain-control",
        ]
        .into_iter()
        .map(String::from)
        .collect::<Vec<_>>()
    );
    assert_eq!(LOOPBACK_APPEAR_POLLS, 20);
}

#[test]
fn lowered_port_name_rules() {
    assert!(lowered_class_ok("capture_fl", false));
    assert!(!lowered_class_ok("monitor_fl", false));
    assert!(!lowered_class_ok("playback_fl", true));
    assert!(lowered_class_ok("monitor_fl", true));
    assert!(lowered_mono("capture_mono"));
    assert!(lowered_left("out:0") && lowered_left("front-left"));
    assert!(lowered_right("out_1") && !lowered_right("out_0"));
    assert!(buschain::graph::lowered_playback_name("playback_fl"));
    assert!(buschain::graph::lowered_monitor_name("monitor_fr"));
    assert!(buschain::null_sink::lowered_stereo_map("channel map: front-left,front-right"));
    assert!(!buschain::null_sink::lowered_stereo_map("channel map: mono"));
}

#[test]
fn cli_unlink_unloads_owned_loopbacks_and_disconnects() {
    let mut owned = OwnedLinks::new();
    owned.insert("alsa_input.mic", "buschain_rs_a");
    let u = buschain::link::unlink(&mut owned, MODULES, OUTS, INS, "alsa_input.mic", "buschain_rs_a");
    assert_eq!(u.unload_modules, vec![s("10")]);
    assert!(!pulse_loopback_owned(&owned, "alsa_input.mic", "buschain_rs_a"));
    let v = buschain::link::unlink(&mut owned, MODULES, OUTS, INS, "alsa_input.mic", "buschain_track_1");
    assert!(v.unload_modules.is_empty());
    assert_eq!(v.disconnect.len(), 2);
}
