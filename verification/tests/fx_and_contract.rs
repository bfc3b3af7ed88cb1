use buschain::contract::{ApplyReport, ClockProps};
use buschain::clock::GraphClock;
use buschain::fx::{
    any_gen_live, canonical_fx, canonical_post, enabled, is_rebuilding, is_staging_name, log,
    mark_rebuilding, span, staging_pair, BusyState, RebuildGuard, SETTLE_MS,
};

#[test]
fn fx_names_are_canonical() {
    let (fx, post) = staging_pair("buschain_track_a");
    assert_eq!(fx, canonical_fx("buschain_track_a"));
    assert_eq!(post, canonical_post("buschain_track_a"));
    assert!(fx.starts_with("buschain_fx_"));
    assert!(post.starts_with("buschain_post_"));
    assert!(is_staging_name("buschain_fx_a__stg"));
    assert!(!is_staging_name("buschain_fx_a"));
    assert!(any_gen_live(false, true));
    assert!(any_gen_live(true, false));
    assert!(!any_gen_live(false, false));
}

#[test]
fn rebuild_gate_holds_through_settle() {
    let mut s = BusyState::new();
    mark_rebuilding(&mut s, "fx", true, 1_000);
    assert!(is_rebuilding(&mut s, "fx", 5_000));
    mark_rebuilding(&mut s, "fx", false, 2_000);
    assert!(is_rebuilding(&mut s, "fx", 2_000 + SETTLE_MS - 1));
    assert!(!is_rebuilding(&mut s, "fx", 2_000 + SETTLE_MS));
    assert!(!is_rebuilding(&mut s, "other", 0));
    let g = RebuildGuard::enter(&mut s, "fx2", 10);
    assert!(is_rebuilding(&mut s, "fx2", 10_000));
    g.leave(&mut s, 100);
    assert!(is_rebuilding(&mut s, "fx2", 150));
    assert!(!is_rebuilding(&mut s, "fx2", 220));
}

#[test]
fn trace_lines() {
    assert!(enabled(&Some("1".into())));
    assert!(!enabled(&Some("0".into())));
    assert!(!enabled(&Some("false".into())));
    assert!(!enabled(&Some(String::new())));
    assert!(!enabled(&None));
    assert_eq!(log(true, "respawn", "ok", 12).as_deref(), Some("[buschain-fx-trace] respawn 12ms ok"));
    assert_eq!(log(false, "respawn", "ok", 12), None);
    let s = span("knob", 100);
    assert_eq!(s.end_ok(true, 130).as_deref(), Some("[buschain-fx-trace] knob 30ms ok"));
    let s = span("knob", 100);
    assert_eq!(s.dropped(true, 90).as_deref(), Some("[buschain-fx-trace] knob 0ms dropped"));
}

#[test]
fn apply_report_joins_with_dots() {
    let mut r = ApplyReport::default();
    assert_eq!(r.join(), "");
    r.push("a");
    assert_eq!(r.join(), "a");
    r.push("b");
    r.push("c");
    assert_eq!(r.join(), "a · b · c");
}

#[test]
fn clock_props_from_graph_clock() {
    let c = GraphClock {
        sample_rate: 48_000,
        quantum: 256,
        soft_quantum: true,
        force_suspend_timeout_zero: true,
        bound_device: String::new(),
    };
    let p = ClockProps::from_graph_clock(&c);
    assert_eq!(p.node_latency, "256/48000");
    assert_eq!(p.suspend_timeout, 0);
    assert!(p.soft_quantum);
}
