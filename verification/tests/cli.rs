use buschain::cli::{
    find_node_id_by_name_uncached, invalidate_probe_caches, pactl_short_sinks,
    pactl_short_sinks_fetched, pw_link_listing, pw_link_listing_fetched, sink_has_input, sink_index,
    Probe, ProbeCaches, SHORT_SINKS_TTL_MS,
};

#[test]
fn short_sinks_cache_fails_open() {
    let mut c = ProbeCaches::new();
    assert!(matches!(pactl_short_sinks(&c, 0), Probe::Fetch));
    assert_eq!(pactl_short_sinks_fetched(&mut c, 0, Some("L".into())).as_deref(), Some("L"));
    match pactl_short_sinks(&c, SHORT_SINKS_TTL_MS - 1) {
        Probe::Cached(t) => assert_eq!(t, "L"),
        Probe::Fetch => panic!("expected cached"),
    }
    assert!(matches!(pactl_short_sinks(&c, SHORT_SINKS_TTL_MS), Probe::Fetch));
    assert_eq!(pactl_short_sinks_fetched(&mut c, 500, None).as_deref(), Some("L"));
    assert_eq!(pw_link_listing_fetched(&mut c, 0, None), None);
    invalidate_probe_caches(&mut c);
    assert!(matches!(pactl_short_sinks(&c, 0), Probe::Fetch));
    assert!(matches!(pw_link_listing(&c, 0), Probe::Fetch));
}

#[test]
fn sink_listings() {
    let sinks = "3\talsa_out\tmod\n7\tbuschain_master\tmod\n";
    assert_eq!(sink_index(sinks, "buschain_master"), Some(7));
    assert_eq!(sink_index(sinks, "nope"), None);
    assert_eq!(sink_index("x\tbuschain_master\n", "buschain_master"), None);
    assert!(sink_has_input(sinks, "40\t7\tclient\n", "buschain_master"));
    assert!(!sink_has_input(sinks, "40\t3\tclient\n", "buschain_master"));
}

#[test]
fn node_id_from_pw_cli() {
    let text = "\tid 31, type PipeWire:Interface:Node/3\n \t\tnode.name = \"alsa_output.usb\"\n\tid 32, type x\n\t\tnode.name = \"buschain_fx_a\"\n";
    assert_eq!(find_node_id_by_name_uncached(text, "buschain_fx_a"), Some(32));
    assert_eq!(find_node_id_by_name_uncached(text, "alsa_output.usb"), Some(31));
    assert_eq!(find_node_id_by_name_uncached(text, "missing"), None);
}
