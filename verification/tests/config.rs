use r5r_launcher::config::local_version::{normalize_community_version, parse_build_version};
use r5r_launcher::config::remote::{
    channel_folder_name, channel_name_matches, channel_key_header, folder_from_upper,
    replace_url_host, select_channel, version_url, Channel, RemoteConfig,
};
use r5r_launcher::config::settings::{migrated_mirror_domain, migrated_schema, UpdateStrategy};
use r5r_launcher::error::AppError;

#[test]
fn parses_live_build_version() {
    assert_eq!(
        parse_build_version("R5R-v2.6.42\r\n", "2.6.51-live"),
        Some("2.6.42-live".to_string())
    );
}

#[test]
fn preserves_an_existing_channel_suffix() {
    assert_eq!(
        parse_build_version("r5r-v2.6.42-live", "2.6.51-live"),
        Some("2.6.42-live".to_string())
    );
}

#[test]
fn rejects_an_unrelated_build_marker() {
    assert_eq!(parse_build_version("2.6.42", "2.6.51-live"), None);
}

#[test]
fn normalizes_dashboard_version_for_patch_matching() {
    assert_eq!(
        normalize_community_version("v2.6.51", "2.6.51-live"),
        Some("2.6.51-live".to_string())
    );
}

#[test]
fn live_api_name_uses_the_live_disk_folder() {
    assert_eq!(channel_folder_name("live_game"), "LIVE");
    assert_eq!(channel_folder_name("LIVE"), "LIVE");
}

#[test]
fn remote_channel_keeps_flags_when_using_a_mirror_host() {
    let remote = Channel {
        name: "live".into(),
        game_url: "https://cdn.r5r.org/launcher/live_game".into(),
        enabled: false,
        requires_key: true,
        allow_updates: false,
        ..Default::default()
    };
    let channel = Channel::from_remote(&remote, "LIVE", Some("mirror.example:8443"), "secret".into());
    assert_eq!(channel.game_url, "https://mirror.example:8443/launcher/live_game");
    assert!(!channel.enabled);
    assert!(channel.requires_key);
    assert!(!channel.allow_updates);
    assert_eq!(channel.key, "secret");
}

#[test]
fn other_channels_keep_their_upper_case_name_as_folder() {
    assert_eq!(channel_folder_name("ptu"), "PTU");
    assert_eq!(folder_from_upper("LIVE_GAME"), "LIVE");
    assert_eq!(folder_from_upper("STABLE"), "STABLE");
}

#[test]
fn mirror_host_with_scheme_and_trailing_slash() {
    assert_eq!(
        replace_url_host("https://cdn.r5r.org/launcher/live_game", "  http://mirror.example/ "),
        Some("http://mirror.example/launcher/live_game".to_string())
    );
    assert_eq!(replace_url_host("not a url", "mirror.example"), None);
}

#[test]
fn blank_mirror_keeps_the_remote_url() {
    let remote = Channel { name: "live".into(), game_url: "https://cdn.r5r.org/x".into(), ..Default::default() };
    let c = Channel::from_remote(&remote, "LIVE", Some("   "), String::new());
    assert_eq!(c.game_url, "https://cdn.r5r.org/x");
    let c = Channel::from_remote(&remote, "LIVE", None, String::new());
    assert_eq!(c.game_url, "https://cdn.r5r.org/x");
}

#[test]
fn channel_names_match_ignoring_case_and_live_aliases() {
    assert!(channel_name_matches("live", "LIVE"));
    assert!(channel_name_matches("live", "live_game"));
    assert!(channel_name_matches("Ptu", "PTU"));
    assert!(!channel_name_matches("ptu", "LIVE"));
}

fn config_with(channel: Channel, allow_updates: bool) -> RemoteConfig {
    RemoteConfig { allow_updates, channels: vec![channel], ..Default::default() }
}

#[test]
fn select_channel_outcomes() {
    let base = Channel {
        name: "live".into(),
        game_url: "https://cdn.r5r.org/launcher/live_game".into(),
        enabled: true,
        requires_key: false,
        allow_updates: true,
        ..Default::default()
    };
    let ok = select_channel(&config_with(base.clone(), false), "LIVE", None, String::new()).unwrap();
    assert_eq!(ok.name, "LIVE");
    assert!(!ok.allow_updates);

    match select_channel(&config_with(base.clone(), true), "PTU", None, String::new()) {
        Err(AppError::Manifest(m)) => assert_eq!(m, "官方配置中不存在频道 PTU"),
        other => panic!("unexpected {:?}", other.map(|c| c.name)),
    }
    let disabled = Channel { enabled: false, ..base.clone() };
    match select_channel(&config_with(disabled, true), "LIVE", None, String::new()) {
        Err(AppError::Manifest(m)) => assert_eq!(m, "官方配置已禁用频道 LIVE"),
        other => panic!("unexpected {:?}", other.map(|c| c.name)),
    }
    let keyed = Channel { requires_key: true, ..base };
    match select_channel(&config_with(keyed, true), "LIVE", None, "  ".into()) {
        Err(AppError::Settings(m)) => assert_eq!(m, "频道 LIVE 需要访问密钥，请先在设置中配置"),
        other => panic!("unexpected {:?}", other.map(|c| c.name)),
    }
}

#[test]
fn version_url_and_key_header() {
    let c = Channel {
        game_url: "https://cdn.r5r.org/launcher/live_game//".into(),
        requires_key: true,
        key: "k".into(),
        ..Default::default()
    };
    assert_eq!(version_url(&c), "https://cdn.r5r.org/launcher/live_game/version.txt");
    assert_eq!(channel_key_header(&c), Some("k".to_string()));
    let open = Channel { requires_key: false, ..c };
    assert_eq!(channel_key_header(&open), None);
}

#[test]
fn settings_migration() {
    assert_eq!(migrated_schema(0), 1);
    assert_eq!(migrated_schema(3), 3);
    assert_eq!(migrated_mirror_domain("https://mirror.example/launcher"), "mirror.example");
    assert_eq!(migrated_mirror_domain("cdn-r5r-org.sleep0.de"), "cdn-r5r-org.sleep0.de");
    assert_eq!(UpdateStrategy::default(), UpdateStrategy::Verify);
}

#[test]
fn folder_names_are_ascii_upper_and_settle() {
    for name in ["live", "Live_Game", "ptu", "dev-01", "LIVE"] {
        let f = channel_folder_name(name);
        assert_eq!(channel_folder_name(&f), f);
        assert!(f == "LIVE" || f == name.to_ascii_uppercase());
    }
}

