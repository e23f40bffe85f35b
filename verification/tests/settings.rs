use signaling::bridge::{on_request, BridgeDirective, Request, Response};
use signaling::config::Config;
use signaling::settings::{
    PartialRtcSettings, PartialSettings, PartialSignalingSettings, SettingsManager,
};

fn empty_partial() -> PartialSettings {
    PartialSettings {
        signaling: PartialSignalingSettings {
            server: None,
            id: None,
            secret: None,
        },
        rtc: PartialRtcSettings {
            credential: None,
            username: None,
            urls: None,
        },
    }
}

#[test]
fn manager_starts_empty() {
    let mgr = SettingsManager::new();
    let s = mgr.get();
    assert_eq!(s.signaling.server, "");
    assert_eq!(s.signaling.id, "");
    assert_eq!(s.signaling.secret, "");
    assert_eq!(s.rtc.credential, None);
    assert_eq!(s.rtc.username, None);
    assert_eq!(s.rtc.urls, None);
}

#[test]
fn partial_update_changes_only_present_fields() {
    let mut mgr = SettingsManager::new();
    let mut p = empty_partial();
    p.signaling.server = Some("wss://relay.example".to_string());
    p.signaling.id = Some("me".to_string());
    mgr.set(p);

    let mut p2 = empty_partial();
    p2.signaling.secret = Some("test".to_string());
    p2.rtc.urls = Some(Some(vec!["stun:stun.example:3478".to_string()]));
    mgr.set(p2);

    let s = mgr.get();
    assert_eq!(s.signaling.server, "wss://relay.example");
    assert_eq!(s.signaling.id, "me");
    assert_eq!(s.signaling.secret, "test");
    assert_eq!(s.rtc.urls, Some(vec!["stun:stun.example:3478".to_string()]));
    assert_eq!(s.rtc.credential, None);
}

#[test]
fn partial_update_can_clear_an_optional_field() {
    let mut mgr = SettingsManager::new();
    let mut p = empty_partial();
    p.rtc.credential = Some(Some("cred".to_string()));
    mgr.set(p);
    assert_eq!(mgr.get().rtc.credential, Some("cred".to_string()));

    let mut p2 = empty_partial();
    p2.rtc.credential = Some(None);
    mgr.set(p2);
    assert_eq!(mgr.get().rtc.credential, None);
}

#[test]
fn bridge_set_then_get_reflects_the_update() {
    let mut mgr = SettingsManager::new();
    let mut p = empty_partial();
    p.signaling.id = Some("me".to_string());
    assert_eq!(on_request(&mut mgr, Request::SetSettings(p)), BridgeDirective::Done);
    match on_request(&mut mgr, Request::GetSettings) {
        BridgeDirective::Reply(Response::GetSettings(s)) => {
            assert_eq!(s.signaling.id, "me");
            assert_eq!(s.signaling.server, "");
        }
        other => panic!("unexpected directive: {:?}", other),
    }
}

#[test]
fn bridge_connect_signaling_is_handed_to_the_embedding() {
    let mut mgr = SettingsManager::new();
    assert_eq!(
        on_request(&mut mgr, Request::ConnectSignaling),
        BridgeDirective::ConnectSignaling
    );
}

#[test]
fn bridge_start_carries_the_connectivity_settings() {
    let mut mgr = SettingsManager::new();
    let mut p = empty_partial();
    p.rtc.username = Some(Some("user".to_string()));
    mgr.set(p);
    match on_request(
        &mut mgr,
        Request::Start {
            id: "B".to_string(),
        },
    ) {
        BridgeDirective::StartSession { id, rtc } => {
            assert_eq!(id, "B");
            assert_eq!(rtc.username, Some("user".to_string()));
            assert_eq!(rtc.credential, None);
        }
        other => panic!("unexpected directive: {:?}", other),
    }
}

#[test]
fn config_defaults_to_the_bundled_page() {
    assert_eq!(Config::new().url, "webview://index.html");
}
