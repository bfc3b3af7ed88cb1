use buschain::ui::{clear_solos, default_sink_status, master_hw_label, output_row_detail, output_rows};
use buschain::vinput::{ensure_virtual_input, VinStart};
use buschain::null_sink::{migrate_recreate_null_sink, Migration};
use buschain::null_sink::{
    clock_props_body, create_null_sink, description_body, ensure_null_sink, list_sink_input_indices_on,
    null_sink_module, sanitize_desc, sink_index_for_name, sink_is_stereo_fl_fr, EnsureAction,
};
use buschain::contract::ClockProps;
use buschain::domain::{NodeName, NodeRole, NodeSpec};
use buschain::ui::{
    format_short_name, include_sink, include_source, is_internal_helper, keys_same_app,
    plugin_label, plugin_menu_group, pretty_app_key, reorder_insert_at, sink_title, source_title,
    tracks_favorites_first, PluginFormat, TrackInfo, UiRuntime, VizMode,
};
use buschain::vinput::{
    is_virtual_input_feed, is_virtual_input_source, module_args_source_name, names_for_bus,
    push_virtual_input_description, remap_hears_feed_in_listing, remap_source_args,
    teardown_virtual_input,
};

#[test]
fn viz_mode_switch_is_idempotent() {
    let mut r = UiRuntime::new_live();
    assert!(r.is_live());
    assert!(r.enter_idle());
    assert!(!r.enter_idle());
    assert_eq!(r.mode(), VizMode::Idle);
    assert!(r.enter_live());
    assert!(!r.enter_live());
    assert!(!UiRuntime::new_idle().is_live());
}

#[test]
fn app_keys_and_reorder() {
    assert_eq!(pretty_app_key("bin:firefox"), "firefox");
    assert_eq!(pretty_app_key("plain"), "plain");
    assert!(keys_same_app("bin:Firefox", "name:firefox"));
    assert!(!keys_same_app("bin:a", "bin:b"));
    let mut v = vec![1, 2, 3, 4];
    assert!(reorder_insert_at(&mut v, 0, 3));
    assert_eq!(v, vec![2, 3, 1, 4]);
    assert!(!reorder_insert_at(&mut v, 1, 2));
    assert!(!reorder_insert_at(&mut v, 9, 0));
    assert!(reorder_insert_at(&mut v, 3, 0));
    assert_eq!(v, vec![4, 2, 3, 1]);
    assert!(reorder_insert_at(&mut v, 0, 99));
    assert_eq!(v, vec![2, 3, 1, 4]);
}

#[test]
fn plugin_menus() {
    assert_eq!(plugin_menu_group("sc4_Compressor", PluginFormat::Ladspa), "Dynamics");
    assert_eq!(plugin_menu_group("EQ10", PluginFormat::Ladspa), "EQ & Tone");
    assert_eq!(plugin_menu_group("noise_gate", PluginFormat::Ladspa), "Dynamics");
    assert_eq!(plugin_menu_group("rnnoise", PluginFormat::Ladspa), "Cleanup");
    assert_eq!(plugin_menu_group("reverb", PluginFormat::Ladspa), "LADSPA");
    assert_eq!(plugin_menu_group("x", PluginFormat::Clap), "CLAP");
    assert_eq!(format_short_name(PluginFormat::Vst3), "VST3");
    let cat = vec![("id1".to_string(), "Nice".to_string())];
    assert_eq!(plugin_label(&cat, "id1"), "Nice");
    assert_eq!(plugin_label(&cat, "id2"), "id2");
}

fn track(name: &str, sink: &str, vin: &str, master: bool, vo: bool, vi: bool) -> TrackInfo {
    TrackInfo {
        name: name.into(),
        expected_sink_name: sink.into(),
        expected_virtual_input_name: vin.into(),
        is_master: master,
        virtual_output: vo,
        virtual_input: vi,
    }
}

#[test]
fn pickers() {
    let tracks = vec![
        track("Master", "buschain_master", "", true, false, false),
        track("Voice", "buschain_track_v", "buschain_vin_v", false, false, true),
    ];
    assert!(is_internal_helper("buschain_fx_a"));
    assert!(include_sink("buschain_master", &tracks));
    assert!(!include_sink("buschain_track_v", &tracks));
    assert!(include_sink("alsa_output.usb", &tracks));
    assert!(include_source("buschain_vin_v", &tracks));
    assert!(!include_source("buschain_track_v.monitor", &tracks));
    assert!(!include_source("buschain_other", &tracks));
    assert_eq!(sink_title(&tracks, "buschain_master", "desc"), "Master");
    assert_eq!(sink_title(&tracks, "buschain_track_v", "desc"), "Voice");
    assert_eq!(sink_title(&tracks, "hw", "HW"), "HW");
    assert_eq!(source_title(&tracks, "buschain_vin_v", "d"), "Voice");
    let order = tracks_favorites_first(&vec!["a".into(), "b".into(), "c".into()], &vec!["c".into()]);
    assert_eq!(order, vec![2, 0, 1]);
}

#[test]
fn virtual_inputs() {
    assert_eq!(
        names_for_bus("buschain_track_x"),
        Some(("buschain_vin_x".to_string(), "buschain_vinf_x".to_string()))
    );
    assert_eq!(names_for_bus("buschain_track_"), None);
    assert_eq!(names_for_bus("buschain_master"), None);
    assert!(is_virtual_input_source("buschain_vin_x"));
    assert!(is_virtual_input_feed("buschain_vinf_x"));
    assert!(module_args_source_name("master=a source_name=buschain_vin_x rate=1", "buschain_vin_x"));
    assert!(!module_args_source_name("source_name=buschain_vin_xy", "buschain_vin_x"));
    let args = remap_source_args("buschain_vin_x", "buschain_vinf_x", "My Mic");
    assert_eq!(args[3], "master=buschain_vinf_x.monitor");
    assert_eq!(args[6], "source_properties=device.description=My_Mic media.name=buschain-control node.virtual=true");
    let modules = "5\tmodule-remap-source\tsource_name=buschain_vin_x master=m\n6\tmodule-null-sink\tsink_name=buschain_vinf_x\n7\tmodule-remap-source\tsource_name=buschain_vin_x\n";
    let t = teardown_virtual_input("buschain_track_x", modules).unwrap();
    assert_eq!(t.remap_modules, vec!["5", "7"]);
    assert_eq!(t.feed, "buschain_vinf_x");
    assert!(teardown_virtual_input("hw", modules).is_none());
    assert_eq!(null_sink_module(modules, "buschain_vinf_x").as_deref(), Some("6"));
    let (vin, body) = push_virtual_input_description("buschain_track_x", "A \"b\"", true).unwrap();
    assert_eq!(vin, "buschain_vin_x");
    assert_eq!(body, "{ device.description = \"A_\\\"b\\\"\" }");
    assert!(push_virtual_input_description("buschain_track_x", "d", false).is_none());
    let listing = "buschain_vinf_x:monitor_FL\n  |-> input.buschain_vin_x:input_FL\nother:out\n";
    assert!(remap_hears_feed_in_listing(listing, "buschain_vinf_x", "buschain_vin_x"));
    assert!(!remap_hears_feed_in_listing("other:out\n  |-> input.buschain_vin_x:x\n", "buschain_vinf_x", "buschain_vin_x"));
}

fn props() -> ClockProps {
    ClockProps {
        sample_rate: 48_000,
        quantum: 256,
        soft_quantum: false,
        suspend_timeout: 5,
        node_latency: "256/48000".into(),
    }
}

#[test]
fn null_sink_commands() {
    let spec = NodeSpec {
        name: NodeName::new("buschain_track_a"),
        description: "Track A=1".into(),
        role: NodeRole::TrackBus,
        start_muted: false,
        pulse_export: true,
    };
    let cmds = create_null_sink(&spec, &props());
    assert_eq!(cmds.len(), 3);
    assert_eq!(cmds[0][2], "sink_name=buschain_track_a");
    assert_eq!(cmds[0][3], "rate=48000");
    assert_eq!(
        cmds[0][6],
        "sink_properties=device.description=Track_A_1 media.name=buschain-control session.suspend-timeout-seconds=5 node.virtual=true node.latency=256/48000 audio.rate=48000 node.force-quantum=256 node.lock-quantum=true"
    );
    assert_eq!(cmds[1], vec!["set-sink-mute", "buschain_track_a", "1"]);
    assert_eq!(cmds[2], vec!["set-sink-volume", "buschain_track_a", "0%"]);
    assert_eq!(sanitize_desc("a b=c"), "a_b_c");
    assert_eq!(ensure_null_sink(&spec, &props(), false, None, true), EnsureAction::Create);
    assert_eq!(ensure_null_sink(&spec, &props(), true, Some(44_100), false), EnsureAction::Keep);
    let helper = NodeSpec { role: NodeRole::PostBus, ..spec };
    assert_eq!(ensure_null_sink(&helper, &props(), true, Some(48_000), true), EnsureAction::Keep);
    assert_eq!(ensure_null_sink(&helper, &props(), true, Some(44_100), true), EnsureAction::Recreate);
    assert_eq!(
        clock_props_body(&props()),
        "{ node.latency = \"256/48000\" audio.rate = 48000 node.force-quantum = 256 node.lock-quantum = true }"
    );
    assert_eq!(description_body("x y"), "{ device.description = \"x_y\" }");
    assert_eq!(sink_index_for_name("4\tbus\n", "bus").as_deref(), Some("4"));
    assert_eq!(list_sink_input_indices_on("1\t4\n2\t5\n3\t4\n", "4"), vec!["1", "3"]);
    let sinks = "Sink #1\n\tName: bus\n\tChannel Map: front-left,front-right\n";
    assert!(sink_is_stereo_fl_fr(sinks, "bus"));
    let mono = "Sink #1\n\tName: bus\n\tchannel map: mono\n";
    assert!(!sink_is_stereo_fl_fr(mono, "bus"));
}

#[test]
fn virtual_input_bring_up() {
    let p = ensure_virtual_input("buschain_track_3", "Vocals", true, true).unwrap();
    assert_eq!((p.vin.as_str(), p.feed.as_str()), ("buschain_vin_3", "buschain_vinf_3"));
    assert_eq!(p.feed_spec.description, "Vocals_VinFeed");
    assert_eq!(p.start, VinStart::Describe);
    assert_eq!(p.remap_args[3], "master=buschain_vinf_3.monitor");
    assert_eq!(ensure_virtual_input("buschain_track_3", "V", true, false).unwrap().start, VinStart::Reload);
    assert_eq!(ensure_virtual_input("buschain_track_3", "V", false, true).unwrap().start, VinStart::Load);
    assert_eq!(
        ensure_virtual_input("buschain_master", "V", false, false).unwrap_err(),
        "virtual input only for buschain_track_* (got buschain_master)"
    );
}

#[test]
fn bus_migration_parks_streams() {
    let spec = NodeSpec {
        name: NodeName::new("buschain_track_1"),
        description: "Track".into(),
        role: NodeRole::TrackBus,
        start_muted: true,
        pulse_export: true,
    };
    let clock = props();
    let inputs = vec!["12".to_string(), "13".to_string()];
    assert!(matches!(migrate_recreate_null_sink(&spec, &clock, false, None, true, &inputs), Migration::Create));
    assert!(matches!(migrate_recreate_null_sink(&spec, &clock, true, Some(48_000), true, &inputs), Migration::PushClock));
    match migrate_recreate_null_sink(&spec, &clock, true, Some(44_100), false, &inputs) {
        Migration::Recreate { hold, park, unmute } => {
            let h = hold.unwrap();
            assert_eq!(h.name.as_str(), "buschain_hold");
            assert!(h.start_muted);
            assert_eq!(park, inputs);
            assert!(unmute);
        }
        other => panic!("unexpected {other:?}"),
    }
    match migrate_recreate_null_sink(&spec, &clock, true, None, true, &vec![]) {
        Migration::Recreate { hold, park, .. } => assert!(hold.is_none() && park.is_empty()),
        other => panic!("unexpected {other:?}"),
    }
}

fn sink(name: &str, desc: &str) -> (String, String) {
    (name.to_string(), desc.to_string())
}

#[test]
fn output_tab_rows() {
    let sinks = vec![
        sink("alsa_output.hw", "Speakers"),
        sink("buschain_fx_master", "fx"),
        sink("buschain_mid_x", "mid"),
        sink("shadow_old", "old"),
        sink("other", "ShadowAudio_Leftover"),
        sink("buschain_track_1", "Track_1"),
        sink("buschain_track_2", "Track_2"),
    ];
    let tracks = vec![
        track("Master", "buschain_master", "", true, false, false),
        track("Voice Chat", "buschain_track_1", "", false, true, false),
        track("Game", "buschain_track_2", "", false, false, false),
        track("New Bus", "buschain_track_3", "", false, true, false),
    ];
    let rows = output_rows(&sinks, &tracks, false);
    assert_eq!(
        rows,
        vec![
            ("alsa_output.hw".to_string(), "Speakers".to_string(), false),
            ("buschain_track_1".to_string(), "Track_1".to_string(), false),
            ("buschain_master".to_string(), "BusChainControl_Master".to_string(), true),
            ("buschain_track_3".to_string(), "BusChainControl_New_Bus".to_string(), true),
        ]
    );
    let all = output_rows(&sinks, &tracks, true);
    assert_eq!(all.len(), 9);
    assert!(!all[6].2 && all[7].2 && all[8].2);

    let d = output_row_detail("buschain_track_1", "Track_1", &tracks);
    assert_eq!(d.label, "BusChainControl_Voice_Chat");
    assert!(d.app_bus && d.helper && !d.can_set_master && d.can_default && !d.can_mute);
    let g = output_row_detail("buschain_track_2", "Track_2", &tracks);
    assert!(!g.can_default);
    let h = output_row_detail("alsa_output.hw", "Speakers", &tracks);
    assert_eq!(h.label, "Speakers");
    assert!(!h.app_bus && !h.helper && h.can_set_master && h.can_default && h.can_mute);
    let f = output_row_detail("buschain_hold", "hold", &tracks);
    assert!(!f.can_default && f.helper);

    assert_eq!(master_hw_label(Some("alsa_output.hw"), Some("")), "Master HW → alsa_output.hw");
    assert_eq!(master_hw_label(Some("alsa_output.hw"), Some("Speakers")), "Master HW → Speakers");
    assert_eq!(master_hw_label(None, None), "Master HW → (none)");
    assert_eq!(default_sink_status(Some("a"), Some("a")), "ok");
    assert_eq!(default_sink_status(Some("a"), Some("b")), "applying…");
    assert_eq!(default_sink_status(Some("a"), None), "applying…");
    assert_eq!(default_sink_status(None, Some("b")), "");
}

#[test]
fn leftover_solos_are_cleared() {
    let mut s = vec![false, true, false];
    assert!(clear_solos(&mut s));
    assert_eq!(s, vec![false, false, false]);
    assert!(!clear_solos(&mut s));
    let mut e: Vec<bool> = Vec::new();
    assert!(!clear_solos(&mut e));
}
