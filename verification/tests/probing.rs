use buschain::domain::{
    bus_suffix, fx_name_for_bus, inserts_signature, normalize_ladspa_label, post_name_for_bus,
    ChainSpec, DeviceNode, InsertFormat, InsertSlot, NodeName,
};
use buschain::master::DumpNode;
use buschain::probe::{
    clear_graph_force_clock, device_rates_card, invalidate_clock_probe_caches, is_buschain_helper,
    merge_device_rates, pactl_running_rate, parse_momentary_rate, pick_hw_sink,
    probe_endpoint_caps, probe_master_hw_from_sinks, probe_rates_alsa_card, probe_rates_pw,
    probe_pw_format_rate, probe_sink_running_rate, probe_source_running_rate, probe_true_device_rates,
    set_graph_force_clock, snap_common_rate, split_segment, store_device_rates, true_device_rates,
    ClockProbeCaches, DEVICE_RATES_TTL_MS,
};

fn dev(name: &str) -> DeviceNode {
    DeviceNode { name: name.into(), description: format!("{name} desc") }
}

fn dnode(name: &str, card: Option<u32>, rates: Vec<u32>) -> DumpNode {
    DumpNode {
        id: None,
        has_props: true,
        name: Some(name.into()),
        state: None,
        driver_id: None,
        priority_driver: None,
        card_name: None,
        card_name_alt: None,
        split_name: None,
        alsa_card: card,
        alsa_card_prop: card,
        api_alsa_card_prop: None,
        enum_rates: rates,
        format_rate: None,
    }
}

#[test]
fn helper_sinks_are_never_master_hw() {
    assert!(is_buschain_helper("buschain_fx_master"));
    assert!(is_buschain_helper("buschain_hold"));
    assert!(!is_buschain_helper("buschain_master"));
    let sinks = vec![dev("buschain_master"), dev("auto_null"), dev("alsa_output.usb"), dev("alsa_output.pci")];
    assert_eq!(pick_hw_sink(&sinks, None), Some(2));
    assert_eq!(pick_hw_sink(&sinks, Some("alsa_output.pci")), Some(3));
    assert_eq!(pick_hw_sink(&sinks, Some("buschain_fx_x")), Some(2));
    assert_eq!(pick_hw_sink(&[dev("buschain_master")], None), None);
}

#[test]
fn master_hw_caps_put_running_rate_first() {
    let sinks = vec![dev("alsa_output.usb")];
    let caps = probe_master_hw_from_sinks(&sinks, None, vec![44_100, 48_000, 96_000], Some(48_000));
    assert_eq!(caps.sink_name, "alsa_output.usb");
    assert_eq!(caps.preferred_rate, 48_000);
    assert_eq!(caps.rates, vec![48_000, 44_100, 96_000]);
    assert_eq!((caps.min_quantum, caps.max_quantum), (64, 2048));
    let none = probe_master_hw_from_sinks(&[], None, vec![], None);
    assert_eq!(none.description, "(no hardware sink)");
    assert_eq!(none.preferred_rate, 48_000);
    assert_eq!(none.preferred_quantum, 256);
    let bare = probe_master_hw_from_sinks(&sinks, None, vec![], None);
    assert_eq!(bare.rates, vec![48_000]);
}

#[test]
fn usb_rates_snap_to_common() {
    assert_eq!(snap_common_rate(95_999), 96_000);
    assert_eq!(snap_common_rate(44_101), 44_100);
    assert_eq!(snap_common_rate(8_000), 8_000);
    assert_eq!(split_segment("a Momentary freq = 1 Momentary freq = 2", "Momentary freq").as_deref(), Some(" = 1 "));
    assert_eq!(parse_momentary_rate("Status: Running\n  Momentary freq = 95999 Hz (0x5.fff)\n"), Some(96_000));
    assert_eq!(parse_momentary_rate("Status: Stop\n"), None);
}

#[test]
fn pactl_rates_by_name() {
    let text = "1\talsa_output.usb\tPipeWire\ts32le 2ch 96000Hz\tRUNNING\n2\tbuschain_master\tPipeWire\tfloat32le 2ch 48000Hz\tIDLE\n3\tmic.monitor\tPipeWire\ts16le 1ch 44100Hz\tIDLE\n";
    assert_eq!(pactl_running_rate(text, "alsa_output.usb"), Some(96_000));
    assert_eq!(pactl_running_rate(text, "nope"), None);
    assert_eq!(probe_source_running_rate("mic", text), Some(44_100));
    assert_eq!(
        probe_sink_running_rate("alsa_output.usb", Some("Momentary freq = 44100 Hz\n"), Some(48_000), Some(text)),
        Some(44_100)
    );
    assert_eq!(probe_sink_running_rate("alsa_output.usb", None, Some(48_000), Some(text)), Some(48_000));
    assert_eq!(probe_sink_running_rate("buschain_master", Some("Momentary freq = 44100 Hz\n"), Some(96_000), Some(text)), Some(48_000));
    assert_eq!(probe_sink_running_rate("buschain_x", None, Some(96_000), None), Some(96_000));
    let caps = probe_endpoint_caps("mic.monitor", None, None, &[32_000]);
    assert_eq!((caps.name.as_str(), caps.rate, caps.channels), ("mic", Some(32_000), Some(2)));
}

#[test]
fn merged_rates_sorted_in_range() {
    assert_eq!(merge_device_rates(&[96_000, 4_000, 48_000, 96_000, 500_000, 44_100]), vec![44_100, 48_000, 96_000]);
    let w = set_graph_force_clock(96_000, 512);
    assert_eq!(w, vec![("clock.force-rate".to_string(), "96000".to_string()), ("clock.force-quantum".to_string(), "512".to_string())]);
    assert_eq!(clear_graph_force_clock()[0].1, "0");
}

#[test]
fn alsa_stream_rates() {
    let text = "USB Audio\n  Status: Stop\nPlayback:\n  Interface 1\n    Rates: 44100, 48000, 96000\n    Rates: 192000 384000 768000\nCapture:\n    Rates: 4000\n";
    assert_eq!(probe_rates_alsa_card(text), vec![44_100, 48_000, 96_000, 192_000, 384_000]);
    assert!(probe_rates_alsa_card("no rates here\n").is_empty());
}

#[test]
fn true_rates_from_node_card_and_alsa() {
    let dump = vec![
        dnode("alsa_output.usb", Some(2), vec![48_000, 96_000]),
        dnode("alsa_output.usb_sibling", Some(2), vec![192_000]),
        dnode("alsa_output.other", Some(3), vec![22_050]),
        dnode("unrelated", None, vec![11_025]),
    ];
    assert_eq!(device_rates_card(Some(&dump), "alsa_output.usb"), Some(2));
    assert_eq!(device_rates_card(None, "alsa_output.usb"), None);
    assert_eq!(
        true_device_rates(Some(&dump), "alsa_output.usb", &[44_100, 1_000_000]),
        vec![44_100, 48_000, 96_000, 192_000]
    );
    assert_eq!(true_device_rates(Some(&dump), "unrelated", &[44_100]), vec![11_025]);
    assert!(true_device_rates(None, "alsa_output.usb", &[44_100]).is_empty());
}

#[test]
fn device_rate_cache_ttl() {
    let mut c = ClockProbeCaches::new();
    assert_eq!(probe_true_device_rates(&c, "hw", 0), None);
    let r = store_device_rates(&mut c, "hw", 1_000, vec![48_000]);
    assert_eq!(r, vec![48_000]);
    assert_eq!(probe_true_device_rates(&c, "hw", 1_000 + DEVICE_RATES_TTL_MS - 1), Some(vec![48_000]));
    assert_eq!(probe_rates_pw(&c, "hw", 1_000 + DEVICE_RATES_TTL_MS), None);
    assert_eq!(probe_true_device_rates(&c, "other", 1_000), None);
    c.pw_dump.complete(1_000, Some("[]".into()), false);
    invalidate_clock_probe_caches(&mut c);
    assert_eq!(probe_true_device_rates(&c, "hw", 1_000), None);
    assert!(c.pw_dump.fresh(1_000).is_none());
}

fn slot(id: u128, key: &str, sc: Option<&str>) -> InsertSlot {
    InsertSlot {
        slot_id: id,
        plugin_key: key.into(),
        plugin_so: String::new(),
        format: InsertFormat::Ladspa,
        sidechain_from: sc.map(str::to_string),
    }
}

#[test]
fn chain_names_and_signature() {
    assert_eq!(bus_suffix("buschain_master"), "master");
    assert_eq!(bus_suffix("buschain_track_7"), "7");
    assert_eq!(fx_name_for_bus("buschain_track_7"), "buschain_fx_7");
    assert_eq!(post_name_for_bus("buschain_master"), "buschain_post_master");
    assert_eq!(normalize_ladspa_label("ladspa: shadow_eq "), "buschain_eq");
    let spec = ChainSpec {
        bus: NodeName::new("buschain_track_7"),
        inserts: vec![slot(0xabc, "ladspa:shadow_comp", None), slot(u128::MAX, "clap.eq", Some("buschain_track_2"))],
        dest: "buschain_master".into(),
    };
    let w = spec.wire_plan();
    assert_eq!(w.fx_sink.as_str(), "buschain_fx_7");
    assert_eq!(w.post_sink.as_str(), "buschain_post_7");
    assert_eq!(w.dest, "buschain_master");
    assert_eq!(w.bus_monitor(), "buschain_track_7.monitor");
    assert_eq!(
        spec.signature(),
        "stereo2|00000000000000000000000000000abc:buschain_comp:sc=-|ffffffffffffffffffffffffffffffff:clap.eq:sc=buschain_track_2"
    );
    assert_eq!(inserts_signature(&[]), "stereo2|");
}

#[test]
fn format_rate_of_first_reporting_node() {
    let a = dnode("alsa_output.usb", None, vec![]);
    let mut b = dnode("alsa_output.usb", None, vec![]);
    b.format_rate = Some(96_000);
    let mut c = dnode("other", None, vec![]);
    c.format_rate = Some(44_100);
    let dump = vec![a, b, c];
    assert_eq!(probe_pw_format_rate(Some(&dump), "alsa_output.usb"), Some(96_000));
    assert_eq!(probe_pw_format_rate(Some(&dump), "missing"), None);
    assert_eq!(probe_pw_format_rate(None, "other"), None);
}
