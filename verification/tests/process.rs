use r5r_launcher::detect::strip_launcher_suffix;
use r5r_launcher::error::AppError;
use r5r_launcher::process::{ea_step, is_ea_process, is_login_marker, EaStage, EaStep};
use r5r_launcher::telemetry::{usage_open_url, valid_installation_id};

#[test]
fn derives_usage_endpoint_from_dashboard_config_url() {
    assert_eq!(
        usage_open_url("https://r5.sleep0.de/api/v1/r5/launcher/config"),
        Some("https://r5.sleep0.de/api/v1/r5/launcher/usage/open".to_string())
    );
    assert_eq!(usage_open_url("https://example.com/other"), None);
}

#[test]
fn usage_endpoint_drops_query_fragment_and_trailing_slash() {
    assert_eq!(
        usage_open_url("https://host.example/x/launcher/config/?a=1#top"),
        Some("https://host.example/x/launcher/usage/open".to_string())
    );
    assert_eq!(usage_open_url("not a url"), None);
}

#[test]
fn launcher_folder_shortcut_points_at_the_folder_above() {
    assert_eq!(strip_launcher_suffix(r"D:\Games\R5R Launcher\"), r"D:\Games");
    assert_eq!(strip_launcher_suffix("D:/Games/r5r launcher"), r"D:\Games");
    assert_eq!(strip_launcher_suffix(r"D:\Games\R5R Library"), r"D:\Games\R5R Library");
    assert_eq!(strip_launcher_suffix("R5R Launcher"), "");
}

#[test]
fn ea_app_process_and_login_marker() {
    assert!(is_ea_process("EADesktop.exe"));
    assert!(!is_ea_process("EADesktop"));
    assert!(is_login_marker("user_123.ini", true, 10));
    assert!(!is_login_marker("user_123.ini", true, 0));
    assert!(!is_login_marker("user_123.ini", false, 10));
    assert!(!is_login_marker("users.ini", true, 10));
}

fn fail_text(s: EaStep) -> String {
    match s {
        EaStep::Fail(AppError::Other(m)) => m,
        other => panic!("expected a failure, got {:?}", other),
    }
}

#[test]
fn ea_app_wait_steps() {
    assert!(matches!(ea_step(EaStage::Check, false, false, false), EaStep::Start(EaStage::AwaitProcess)));
    assert!(matches!(ea_step(EaStage::Check, true, false, false), EaStep::Nudge(EaStage::AwaitLogin)));
    assert!(matches!(ea_step(EaStage::Check, true, true, false), EaStep::Ready));
    assert!(matches!(ea_step(EaStage::AwaitProcess, false, false, false), EaStep::Poll(EaStage::AwaitProcess)));
    assert!(matches!(ea_step(EaStage::AwaitProcess, true, false, true), EaStep::Poll(EaStage::AwaitLogin)));
    assert_eq!(
        fail_text(ea_step(EaStage::AwaitProcess, false, false, true)),
        "EA App 已尝试启动，但进程没有出现。请手动打开 EA App 后重试。"
    );
    assert!(matches!(ea_step(EaStage::AwaitLogin, true, true, true), EaStep::Ready));
    assert_eq!(
        fail_text(ea_step(EaStage::AwaitLogin, true, false, true)),
        "EA App 已打开，但尚未检测到登录用户。请先在 EA App 完成登录后再启动游戏。"
    );
}

#[test]
fn installation_id_must_be_uuid_v4() {
    assert!(valid_installation_id("6315aa5c-cb67-457f-8c70-8ac64215678e"));
    assert!(!valid_installation_id("6ba7b810-9dad-11d1-80b4-00c04fd430c8"));
    assert!(!valid_installation_id("not-a-uuid"));
    assert!(!valid_installation_id(""));
}

#[test]
fn job_ids_are_version_4_uuids() {
    let id = r5r_launcher::events::new_job_id();
    assert_eq!(id.len(), 36);
    assert!(valid_installation_id(&id));
}

