use r5r_launcher::accelerator::{accelerator_signature, match_accelerators, DetectedAccelerator};
use r5r_launcher::diagnostics::{
    summarize_processes,
    check_report_destination, classify_process, is_crash_text, is_minidump, is_relevant_game_log, missing_crash_files,
};

#[test]
fn classifies_common_injected_applications() {
    assert_eq!(classify_process("MSIAfterburner.exe").map(|rule| rule.name), Some("MSI Afterburner"));
    assert_eq!(classify_process("obs64.exe").map(|rule| rule.category), Some("直播/录屏"));
    assert_eq!(classify_process("explorer.exe").map(|rule| rule.name), None);
}

#[test]
fn recognizes_sdk_crash_and_session_logs() {
    assert!(is_relevant_game_log("apex_crash.txt"));
    assert!(is_relevant_game_log("apex_crash_20260728_120000.txt"));
    assert!(is_relevant_game_log("minidump.dmp"));
    assert!(is_relevant_game_log("warning.log"));
    assert!(!is_relevant_game_log("unrelated.bin"));
}

#[test]
fn first_matching_rule_wins() {
    assert_eq!(classify_process("Steam.exe").map(|r| r.name), Some("Steam 游戏内覆盖"));
    assert_eq!(classify_process("Discord.exe").map(|r| r.category), Some("悬浮层/性能监控"));
}

#[test]
fn accelerators_are_reported_once_each() {
    let procs = vec![
        (1, "NetEase_UU_Helper.exe".to_string()),
        (2, "uuwebview.exe".to_string()),
        (3, "".to_string()),
        (4, "xunyou.exe".to_string()),
        (5, "notepad.exe".to_string()),
    ];
    let found = match_accelerators(&procs);
    assert_eq!(found.len(), 2);
    assert_eq!(found[0].name, "UU加速器");
    assert_eq!(found[0].process_name, "netease_uu_helper.exe");
    assert_eq!(found[0].pid, 1);
    assert_eq!(found[1].name, "迅游加速器");
}

#[test]
fn report_destination_must_be_a_zip() {
    assert!(check_report_destination(Some("ZIP")).is_ok());
    match check_report_destination(Some("7z")) {
        Err(r5r_launcher::error::AppError::InvalidPath(m)) => assert_eq!(m, "诊断包保存路径必须以 .zip 结尾"),
        other => panic!("unexpected {:?}", other),
    }
    assert!(check_report_destination(None).is_err());
}

#[test]
fn crash_files_are_recognized_and_missing_ones_listed() {
    assert!(is_crash_text("Apex_Crash_20260728.TXT"));
    assert!(!is_crash_text("apex_crash.log"));
    assert!(is_minidump("minidump_1.dmp"));
    assert!(!is_minidump("dump.dmp"));
    assert_eq!(missing_crash_files(false, false), vec!["apex_crash.txt", "minidump.dmp"]);
    assert_eq!(missing_crash_files(true, false), vec!["minidump.dmp"]);
    assert!(missing_crash_files(true, true).is_empty());
}

#[test]
fn process_summary_orders_and_dedupes() {
    let procs = vec![
        (30, "explorer.exe".to_string()),
        (12, "  MSIAfterburner.exe ".to_string()),
        (7, "   ".to_string()),
        (5, "Zeta.exe".to_string()),
        (11, "msiafterburner.exe".to_string()),
        (40, "obs64.exe".to_string()),
        (2, "alpha.exe".to_string()),
    ];
    let (listed, risky) = summarize_processes(&procs);
    let names: Vec<(u32, &str)> = listed.iter().map(|p| (p.pid, p.name.as_str())).collect();
    assert_eq!(
        names,
        vec![
            (11, "msiafterburner.exe"),
            (12, "MSIAfterburner.exe"),
            (40, "obs64.exe"),
            (2, "alpha.exe"),
            (30, "explorer.exe"),
            (5, "Zeta.exe"),
        ]
    );
    assert!(listed[0].risk.is_some() && listed[2].risk.is_some() && listed[3].risk.is_none());
    let found: Vec<(&str, u32)> = risky.iter().map(|a| (a.name.as_str(), a.pid)).collect();
    assert_eq!(risky.len(), 2);
    assert!(found.contains(&("MSI Afterburner", 12)));
    assert!(risky.iter().all(|a| a.process_name != "msiafterburner.exe"));
    let mut sorted = risky.clone();
    sorted.sort_by(|a, b| a.category.cmp(&b.category).then_with(|| a.name.cmp(&b.name)).then_with(|| a.pid.cmp(&b.pid)));
    assert_eq!(sorted, risky);
}

#[test]
fn accelerator_signature_is_the_sorted_names() {
    let d = |n: &str| DetectedAccelerator { name: n.to_string(), process_name: n.to_lowercase(), pid: 1 };
    let found = vec![d("UU"), d("LeiGod"), d("Biubiu"), d("UU")];
    assert_eq!(accelerator_signature(&found), vec!["Biubiu", "LeiGod", "UU", "UU"]);
    assert!(accelerator_signature(&Vec::new()).is_empty());
}

