use buschain::master::{
    alsa_card_name, graph_clock_owner, ClockMasterPolicy, ClockOwner, DumpNode, GraphDriver,
    RuleAction, clock_owner_needs_dump,
};

#[test]
fn render_ranks_master_outputs_above_input_cards() {
    let mut p = ClockMasterPolicy {
        master_hw_card: Some("Scarlett 2i4 USB".into()),
        input_cards: Vec::new(),
    };
    p.insert_input_card("USB Audio CODEC");
    p.insert_input_card("Scarlett 2i4 USB");
    let body = p.render();
    assert!(body.starts_with('#'));
    assert!(body.contains("monitor.alsa.rules = ["));
    assert!(body.contains(
        "{ api.alsa.card.name = \"Scarlett 2i4 USB\"  node.name = \"~alsa_output.*\" }"
    ));
    assert!(body.contains("priority.driver = 5000"));
    assert!(body.contains(
        "{ api.alsa.card.name = \"USB Audio CODEC\"  node.name = \"~alsa_input.*\" }"
    ));
    assert!(body.contains(
        "{ api.alsa.card.name = \"Scarlett 2i4 USB\"  node.name = \"~alsa_input.*\" }"
    ));
    assert_eq!(body.matches("priority.driver = 100").count(), 2);
    assert!(body.trim_end().ends_with(']'));
}

#[test]
fn render_escapes_quotes_in_card_names() {
    let p = ClockMasterPolicy {
        master_hw_card: Some("Card \"Pro\"".into()),
        input_cards: Vec::new(),
    };
    assert!(p.render().contains("api.alsa.card.name = \"Card \\\"Pro\\\"\""));
}

#[test]
fn empty_policy_has_no_rules() {
    let p = ClockMasterPolicy::default();
    assert!(p.is_empty());
    let body = p.render();
    assert!(body.contains("monitor.alsa.rules = [\n]"));
}

#[test]
fn cannot_run_natively_only_when_rates_known() {
    let mut d = GraphDriver {
        id: 1,
        name: "x".into(),
        priority: 0,
        card_name: None,
        native_rates: vec![],
    };
    assert!(!d.cannot_run_natively(96_000));
    d.native_rates = vec![44_100, 48_000];
    assert!(d.cannot_run_natively(96_000));
    assert!(!d.cannot_run_natively(48_000));
}

fn dump_node(id: u32, name: &str) -> DumpNode {
    DumpNode {
        id: Some(id),
        has_props: true,
        name: Some(name.into()),
        state: None,
        driver_id: None,
        priority_driver: None,
        card_name: None,
        card_name_alt: None,
        split_name: None,
        alsa_card: None,
        alsa_card_prop: None,
        api_alsa_card_prop: None,
        enum_rates: vec![],
        format_rate: None,
    }
}

#[test]
fn clock_owner_follows_the_driver() {
    let mut hw = dump_node(30, "alsa_output.usb");
    hw.state = Some("running".into());
    hw.driver_id = Some(40);
    hw.card_name = Some("Scarlett".into());
    let mut mic = dump_node(40, "alsa_input.codec");
    mic.priority_driver = Some(2109);
    mic.card_name = Some("CODEC".into());
    mic.enum_rates = vec![44_100, 48_000];
    let dump = vec![hw, mic];
    match graph_clock_owner(Some(&dump), "alsa_output.usb.monitor") {
        ClockOwner::Foreign(d) => {
            assert_eq!(d.id, 40);
            assert_eq!(d.name, "alsa_input.codec");
            assert_eq!(d.priority, 2109);
            assert_eq!(d.native_rates, vec![44_100, 48_000]);
        }
        other => panic!("unexpected {other:?}"),
    }
    assert!(matches!(graph_clock_owner(None, "alsa_output.usb"), ClockOwner::Unknown));
    assert!(matches!(graph_clock_owner(Some(&dump), ""), ClockOwner::Unknown));
    assert_eq!(alsa_card_name(Some(&dump), "alsa_input.codec").as_deref(), Some("CODEC"));
    let mut same = dump_node(30, "alsa_output.usb");
    same.state = Some("running".into());
    same.driver_id = Some(30);
    let dump2 = vec![same];
    assert!(matches!(graph_clock_owner(Some(&dump2), "alsa_output.usb"), ClockOwner::MasterHw(_)));
}

#[test]
fn policy_from_graph_keeps_alsa_inputs_only() {
    let mut hw = dump_node(30, "alsa_output.usb");
    hw.card_name = Some("Scarlett".into());
    let mut mic = dump_node(40, "alsa_input.codec");
    mic.card_name_alt = Some("CODEC".into());
    let dump = vec![hw, mic];
    let p = ClockMasterPolicy::from_graph(
        Some(&dump),
        "alsa_output.usb",
        &["alsa_input.codec".to_string(), "bluez_input.x".to_string()],
    )
    .unwrap();
    assert_eq!(p.master_hw_card.as_deref(), Some("Scarlett"));
    assert_eq!(p.input_cards, vec!["CODEC".to_string()]);
    assert!(ClockMasterPolicy::from_graph(None, "x", &[]).is_none());
}

#[test]
fn rule_file_removed_kept_or_written() {
    let empty = ClockMasterPolicy { master_hw_card: None, input_cards: Vec::new() };
    assert!(matches!(empty.rule_action(Some("anything")), RuleAction::Remove));
    assert!(matches!(empty.rule_action(None), RuleAction::Remove));
    let p = ClockMasterPolicy { master_hw_card: Some("Card".into()), input_cards: Vec::new() };
    let body = p.render();
    assert!(matches!(p.rule_action(Some(body.as_str())), RuleAction::Keep));
    match p.rule_action(Some("old")) {
        RuleAction::Write(b) => assert_eq!(b, body),
        other => panic!("{other:?}"),
    }
    assert!(matches!(p.rule_action(None), RuleAction::Write(_)));
}

#[test]
fn empty_master_name_needs_no_dump() {
    assert!(!clock_owner_needs_dump(""));
    assert!(!clock_owner_needs_dump(".monitor"));
    assert!(clock_owner_needs_dump("alsa_output.usb.monitor"));
}
