use buschain::json::{
    alsa_path_of, collect_rate_value, dump_node, hw_card_id, hw_card_index, json_i64, json_u32,
    parse_pw_dump, JsonValue,
};
use buschain::probe::{force_clock_next, ForceClockStep};

const DUMP: &str = r#"[
  {"id": 31, "type": "PipeWire:Interface:Node", "info": {
     "state": "running",
     "props": {"node.name": "alsa_output.usb-Focusrite", "alsa.card": "2",
               "api.alsa.card.name": "Scarlett 2i4 USB", "priority.driver": 1000,
               "node.driver-id": "-1", "api.alsa.path": "hw:2,0"},
     "params": {
       "EnumFormat": [{"rate": {"default": 48000, "min": 44100, "max": 96000}},
                      {"rate": [192000, 500000, "88200"]}],
       "Format": [{"rate": 3}, {"rate": 96000}]
     }}},
  {"id": 40, "info": {"props": {"node.name": "usb_in", "api.alsa.path": "hw:USB,0"}}},
  {"type": "PipeWire:Interface:Link"}
]"#;

#[test]
fn pw_dump_nodes_read_like_the_engine() {
    let objs = parse_pw_dump(DUMP.as_bytes()).expect("array");
    assert_eq!(objs.len(), 3);
    let n = dump_node(&objs[0], None);
    assert_eq!(n.id, Some(31));
    assert!(n.has_props);
    assert_eq!(n.name.as_deref(), Some("alsa_output.usb-Focusrite"));
    assert_eq!(n.state.as_deref(), Some("running"));
    assert_eq!(n.priority_driver, Some(1000));
    assert_eq!(n.driver_id, Some(-1));
    assert_eq!(n.card_name.as_deref(), Some("Scarlett 2i4 USB"));
    assert_eq!(n.alsa_card_prop, Some(2));
    assert_eq!(n.alsa_card, Some(2));
    assert_eq!(n.enum_rates, vec![44_100, 48_000, 88_200, 96_000, 192_000]);
    assert_eq!(n.format_rate, Some(96_000));

    assert_eq!(alsa_path_of(&objs[1]).as_deref(), Some("hw:USB,0"));
    let m = dump_node(&objs[1], Some(5));
    assert_eq!(m.alsa_card, Some(5));
    assert_eq!(m.alsa_card_prop, None);
    assert!(m.enum_rates.is_empty());
    let l = dump_node(&objs[2], Some(5));
    assert!(!l.has_props);
    assert_eq!(l.alsa_card, None);
    assert_eq!(l.id, None);

    assert!(parse_pw_dump(b"{\"a\": 1}").is_none());
    assert!(parse_pw_dump(b"not json").is_none());
}

#[test]
fn rate_values_and_integers() {
    let mut out = Vec::new();
    collect_rate_value(&JsonValue::UInt(7_000), &mut out);
    collect_rate_value(&JsonValue::Str("44100".into()), &mut out);
    collect_rate_value(
        &JsonValue::Obj(vec![
            ("max".into(), JsonValue::UInt(50_000)),
            ("min".into(), JsonValue::UInt(40_000)),
        ]),
        &mut out,
    );
    assert_eq!(out, vec![40_000, 44_100, 48_000, 50_000]);
    assert_eq!(json_u32(&JsonValue::Int(-1)), Some(u32::MAX));
    assert_eq!(json_u32(&JsonValue::UInt(1 << 32 | 5)), Some(5));
    assert_eq!(json_u32(&JsonValue::Str("+12".into())), Some(12));
    assert_eq!(json_u32(&JsonValue::Float), None);
    assert_eq!(json_i64(&JsonValue::UInt(u64::MAX)), None);
    assert_eq!(json_i64(&JsonValue::Str("-9223372036854775808".into())), Some(i64::MIN));
    assert_eq!(json_i64(&JsonValue::Str("-".into())), None);
}

#[test]
fn alsa_paths() {
    assert_eq!(hw_card_index("hw:3,0"), Some(3));
    assert_eq!(hw_card_index("hw:USB,0"), None);
    assert_eq!(hw_card_id("hw:USB,0").as_deref(), Some("USB"));
    assert_eq!(hw_card_id("hw:7").as_deref(), Some("7"));
    assert_eq!(hw_card_id("plughw:1,0"), None);
}

#[test]
fn force_clock_writes_quantum_only_after_rate() {
    match force_clock_next(96_000, 256, &vec![]) {
        ForceClockStep::Run(k, v) => assert_eq!((k.as_str(), v.as_str()), ("clock.force-rate", "96000")),
        other => panic!("{other:?}"),
    }
    match force_clock_next(96_000, 256, &vec![Err("boom".to_string())]) {
        ForceClockStep::Done(Err(e)) => assert_eq!(e, "boom"),
        other => panic!("{other:?}"),
    }
    match force_clock_next(96_000, 256, &vec![Ok(())]) {
        ForceClockStep::Run(k, v) => assert_eq!((k.as_str(), v.as_str()), ("clock.force-quantum", "256")),
        other => panic!("{other:?}"),
    }
    assert!(matches!(force_clock_next(96_000, 256, &vec![Ok(()), Ok(())]), ForceClockStep::Done(Ok(()))));
    assert!(matches!(
        force_clock_next(0, 0, &vec![Ok(()), Err("q".into())]),
        ForceClockStep::Done(Err(_))
    ));
}
