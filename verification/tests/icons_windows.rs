use buschain::icons::{icon_file_candidates, icon_roots, ICON_CANDIDATES};
use buschain::windows::{address_in_block, client_addresses_of_pid};

#[test]
fn icon_candidates_in_search_order() {
    let c = icon_file_candidates("Org_App");
    assert_eq!(c.len(), ICON_CANDIDATES);
    assert_eq!(c[0], ("hicolor/24x24/apps".to_string(), "Org_App.png".to_string()));
    assert_eq!(c[1], ("hicolor/24x24/apps".to_string(), "Org-App.png".to_string()));
    assert_eq!(c[2], ("hicolor/24x24/apps".to_string(), "org_app.png".to_string()));
    assert_eq!(c[3].0, "hicolor/24x24/applications");
    assert_eq!(c[6].0, "hicolor/22x22/apps");
    assert_eq!(c[36].0, "Adwaita/24x24/apps");
    assert_eq!(c[179], ("Papirus/64x64/applications".to_string(), "org_app.png".to_string()));
}

#[test]
fn icon_roots_follow_xdg_then_home() {
    let r = icon_roots(Some("/usr/local/share::/opt/x/"), Some("/home/u"));
    assert_eq!(
        r,
        vec![
            "/usr/local/share/icons".to_string(),
            "/opt/x/icons".to_string(),
            "/home/u/.local/share/icons".to_string(),
            "/run/current-system/sw/share/icons".to_string(),
            "/usr/share/icons".to_string(),
        ]
    );
    let bare = icon_roots(None, None);
    assert_eq!(bare, vec!["/run/current-system/sw/share/icons".to_string(), "/usr/share/icons".to_string()]);
}

#[test]
fn hyprland_addresses_of_own_pid() {
    let listing = r#"[{
    "address": "0x55aa",
    "pid": 4242,
    "class": "buschain-vst3"
},{
    "address": "0x77bb",
    "pid": 17
},{"address":"0x99cc","pid":4242}]"#;
    assert_eq!(
        client_addresses_of_pid(listing, 4242),
        vec!["0x55aa".to_string(), "0x99cc".to_string()]
    );
    assert!(client_addresses_of_pid(listing, 5).is_empty());
    assert_eq!(address_in_block(r#" "pid": 1, "title": "x" "#), None);
    assert_eq!(address_in_block(r#""address":   "0xab" , "#), Some("0xab".to_string()));
}

#[test]
fn float_rounds_back_off_then_stop() {
    assert_eq!(buschain::windows::float_retry_delay(0), Some(80));
    assert_eq!(buschain::windows::float_retry_delay(1), Some(200));
    assert_eq!(buschain::windows::float_retry_delay(2), Some(500));
    assert_eq!(buschain::windows::float_retry_delay(3), None);
    assert_eq!(buschain::windows::editor_float_class(), "class:^(buschain-vst3)$");
}
