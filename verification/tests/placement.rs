use buschain::playback::{
    binary_is_generic, has_app_identity, is_anonymous_system_sound, list_short_sinks,
    list_sink_inputs, looks_like_stream_label, matches_key, name_is_generic, pin_bus_is_ready,
    playback_plan, si_app_key, PlaybackPins, Si, enforce_desired_playback, PlacementError,
};
use buschain::session::PlaybackStreamInfo;

fn si(index: u32, sink: &str, app: &str) -> Si {
    Si {
        index,
        sink: sink.into(),
        application: app.into(),
        binary: None,
        app_id: None,
        node_name: None,
        media_role: None,
        internal: false,
    }
}

#[test]
fn app_identity_rules() {
    assert!(binary_is_generic("Electron"));
    assert!(!binary_is_generic("firefox"));
    assert!(name_is_generic("Playback"));
    assert!(looks_like_stream_label("Stream 12"));
    assert!(looks_like_stream_label(" 42 "));
    assert!(!looks_like_stream_label(""));
    assert!(!looks_like_stream_label("Spotify"));
    assert!(has_app_identity("Spotify", &None, &None));
    assert!(!has_app_identity("Stream 3", &Some("python3".into()), &None));
    assert!(has_app_identity("", &None, &Some("org.app".into())));
    let mut s = si(1, "hw", "System Sounds");
    assert!(is_anonymous_system_sound(&s));
    s.application = "Stream 5".into();
    s.media_role = Some("Notification".into());
    assert!(is_anonymous_system_sound(&s));
    s.binary = Some("discord".into());
    assert!(!is_anonymous_system_sound(&s));
}

#[test]
fn app_keys_and_tokens() {
    let mut s = si(9, "hw", "Firefox");
    assert_eq!(si_app_key(&s), "name:Firefox");
    s.binary = Some("firefox".into());
    assert_eq!(si_app_key(&s), "bin:firefox");
    s.binary = Some("electron".into());
    s.app_id = Some("com.slack".into());
    assert_eq!(si_app_key(&s), "id:com.slack");
    let bare = si(4, "hw", "");
    assert_eq!(si_app_key(&bare), "stream:4");
    assert!(matches_key(&s, "bin:electron"));
    assert!(matches_key(&s, "name:FIREFOX"));
    assert!(matches_key(&s, "stream:9"));
    assert!(matches_key(&s, "9"));
    assert!(matches_key(&s, "firefox"));
    assert!(!matches_key(&s, ""));
    assert!(!matches_key(&s, "node:x"));
}

#[test]
fn short_sinks_merge_registry() {
    let v = list_short_sinks("1\thw\tx\nbad\tskip\n2\tbuschain_master\n", &Some(vec![
        "buschain_master".into(),
        "buschain_track_a".into(),
        "other".into(),
    ]));
    assert_eq!(v, vec![(1, "hw".to_string()), (2, "buschain_master".to_string()), (0, "buschain_track_a".to_string())]);
    assert!(pin_bus_is_ready("hw", "1\thw\n", &v));
    assert!(!pin_bus_is_ready("buschain_track_a", "1\thw\n", &v));
    assert!(pin_bus_is_ready("buschain_master", "", &v));
}

#[test]
fn sink_inputs_parse() {
    let text = "Sink Input #12\n\tDriver: PipeWire\n\tSink: 2\n\tProperties:\n\t\tapplication.name = \"Firefox\"\n\t\tapplication.process.binary = \"firefox\"\n\t\tmedia.name = \"Playback\"\nSink Input #13\n\tSink: 1\n\t\tmedia.name = \"buschain-control\"\n\t\tnode.name = \"buschain_fx_a\"\n";
    let sinks = vec![(1, "hw".to_string()), (2, "buschain_master".to_string())];
    let v = list_sink_inputs(text, &sinks);
    assert_eq!(v.len(), 2);
    assert_eq!(v[0].index, 12);
    assert_eq!(v[0].sink, "buschain_master");
    assert_eq!(v[0].application, "Firefox");
    assert_eq!(v[0].binary.as_deref(), Some("firefox"));
    assert!(!v[0].internal);
    assert_eq!(v[1].index, 13);
    assert_eq!(v[1].sink, "hw");
    assert_eq!(v[1].application, "Stream 13");
    assert!(v[1].internal);
}

#[test]
fn plan_moves_pins_then_reclaims() {
    let sinks = vec![(1, "hw".to_string()), (2, "buschain_track_a".to_string()), (3, "buschain_master".to_string())];
    let listing = "1\thw\n2\tbuschain_track_a\n3\tbuschain_master\n";
    let mut pinned = si(20, "hw", "Spotify");
    pinned.binary = Some("spotify".into());
    let loose = si(21, "buschain_hold", "Firefox");
    let stays = si(22, "hw", "mpv");
    let pins = PlaybackPins {
        bus_playback: vec![("buschain_track_a".into(), vec!["bin:spotify".into()])],
        preferred_default: Some("buschain_master".into()),
        owns_system_default: true,
    };
    let plan = playback_plan(&pins, &sinks, listing, &vec![pinned, loose, stays]);
    assert_eq!(
        plan,
        vec![(20, "buschain_track_a".to_string()), (21, "buschain_master".to_string()), (22, "buschain_master".to_string())]
    );
    let no_default = PlaybackPins { bus_playback: vec![], preferred_default: Some(String::new()), owns_system_default: true };
    assert!(playback_plan(&no_default, &sinks, listing, &vec![si(1, "hw", "x")]).is_empty());
}

fn stream(serial: u32, sink: &str, app: &str) -> PlaybackStreamInfo {
    PlaybackStreamInfo {
        serial,
        node_name: format!("node{serial}"),
        sink: sink.into(),
        app_name: Some(app.into()),
        binary: None,
        app_id: None,
        media_name: None,
        icon_name: None,
        media_role: None,
        node_virtual: false,
    }
}

#[test]
fn placement_pass_prefers_native_streams() {
    let sinks = vec![(1, "hw".to_string()), (3, "buschain_master".to_string())];
    let listing = "1\thw\n3\tbuschain_master\n";
    let pins = PlaybackPins {
        bus_playback: vec![],
        preferred_default: Some("buschain_master".into()),
        owns_system_default: true,
    };
    let native = vec![stream(40, "hw", "Firefox")];
    let pass = enforce_desired_playback(&pins, &sinks, listing, Some(&native), None).unwrap();
    assert_eq!(pass.inputs.len(), 1);
    assert_eq!(pass.inputs[0].index, 40);
    assert_eq!(pass.moves, vec![(40, "buschain_master".to_string())]);
    let empty: Vec<PlaybackStreamInfo> = vec![];
    assert_eq!(
        enforce_desired_playback(&pins, &sinks, listing, Some(&empty), None).unwrap_err(),
        PlacementError::SinkInputsUnavailable
    );
    let text = "Sink Input #12\n\tSink: 1\n\tProperties:\n\t\tapplication.name = \"Firefox\"\n";
    let pass = enforce_desired_playback(&pins, &sinks, listing, None, Some(text)).unwrap();
    assert_eq!(pass.inputs[0].index, 12);
    assert_eq!(pass.moves, vec![(12, "buschain_master".to_string())]);
}
