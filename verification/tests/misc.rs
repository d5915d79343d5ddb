use r5r_launcher::config::paths::{install_dir, looks_like_channel_dir};
use r5r_launcher::commands::{derive_library_root, install_path_problems, probe_url, update_status, validate_install_path};
use r5r_launcher::dashboard::{check_patch_digest, check_patch_size, find_patch, patch_wanted, unwrap_envelope, DashboardConfig, PatchEntry};
use r5r_launcher::detect::{dedupe, merge_hits, DetectSource, DetectedInstall};
use r5r_launcher::error::AppError;
use r5r_launcher::events::{new_job_id, InstallPhase, ProgressEvent};
use r5r_launcher::install::{after_task, metadata_domain, remote_version, update_step, TaskEnd, UpdateStep};
use r5r_launcher::launch_options::{
    compose_args, conflict_warning, conflict_warnings, resolution_warning, OptionArgs, ResolvedOption, ConflictEntry, ConflictOption, WarningSeverity,
};

fn hit(path: &str) -> DetectedInstall {
    DetectedInstall { source: DetectSource::LibraryScan, path: path.into(), channel: None, version: None, has_game: true }
}

#[test]
fn duplicate_findings_fold_together() {
    let v = dedupe(vec![hit(r"D:\R5R Library\LIVE"), hit("d:/r5r library/live"), hit(r"E:\x")]);
    assert_eq!(v.len(), 2);
    assert_eq!(v[0].path, r"D:\R5R Library\LIVE");
    let merged = merge_hits(vec![], vec![hit("a")], vec![hit("b")]);
    assert_eq!(merged.len(), 2);
    let merged = merge_hits(vec![hit("r")], vec![hit("a")], vec![]);
    assert_eq!(merged[0].path, "r");
}

#[test]
fn install_path_checks() {
    let (e, w) = install_path_problems("  ");
    assert_eq!(e, ["路径不能为空"]);
    assert!(w.is_empty());
    let (e, w) = install_path_problems(r"C:\Program Files\游戏");
    assert_eq!(e.len(), 1);
    assert_eq!(w.len(), 1);
    let (e, w) = install_path_problems(r"D:\Program Files\R5");
    assert!(e.is_empty() && w.is_empty());
    let v = validate_install_path("D:/x".into(), vec![], vec![], Some(r"D:\x".into()));
    assert!(v.ok);
    assert_eq!(v.normalized, r"D:\x");
}

#[test]
fn update_status_and_probe() {
    let s = update_status(Some("1".into()), "2".into());
    assert!(s.has_update);
    let s = update_status(Some("2".into()), "2".into());
    assert!(!s.has_update);
    let s = update_status(Some(String::new()), "2".into());
    assert!(s.has_update && s.local_version.is_none());
    assert_eq!(probe_url(Some(" m.example/ "), "s"), "https://m.example/launcher/live_game/checksums.json");
    assert_eq!(probe_url(Some(" "), ""), "https://cdn.r5r.org/launcher/live_game/checksums.json");
    assert_eq!(probe_url(None, "s.example"), "https://s.example/launcher/live_game/checksums.json");
}

#[test]
fn library_root_from_components() {
    let c: Vec<String> = ["D:", "Games", "R5R Library", "LIVE"].iter().map(|s| s.to_string()).collect();
    assert_eq!(derive_library_root(&c), Some((2, "LIVE".to_string())));
    let c: Vec<String> = ["R5R Library", "LIVE"].iter().map(|s| s.to_string()).collect();
    assert_eq!(derive_library_root(&c), None);
}

#[test]
fn dashboard_envelope_and_patches() {
    assert!(unwrap_envelope("0000", "", Some(DashboardConfig::default())).is_ok());
    match unwrap_envelope("1001", "bad", None) {
        Err(AppError::Http(m)) => assert_eq!(m, "数据面板错误 code=1001 msg=bad"),
        _ => panic!(),
    }
    let ps = vec![
        PatchEntry { from_version: "1".into(), to_version: "2".into(), url: "".into(), ..Default::default() },
        PatchEntry { from_version: "1".into(), to_version: "2".into(), url: "u".into(), size: 3, checksum: "AB".into() },
    ];
    assert_eq!(find_patch(&ps, "1", "2"), Some(1));
    assert_eq!(find_patch(&ps, "2", "3"), None);
    assert!(!patch_wanted("1", "1"));
    assert!(check_patch_size(&ps[1], 3).is_ok());
    assert!(check_patch_size(&ps[1], 4).is_err());
    assert!(check_patch_digest(&ps[1], "ab".into()).is_ok());
    assert!(check_patch_digest(&ps[1], "cd".into()).is_err());
}

#[test]
fn install_run_decisions() {
    assert_eq!(metadata_domain("  m.example "), (true, "m.example".to_string()));
    assert_eq!(metadata_domain(""), (false, "cdn.r5r.org".to_string()));
    assert_eq!(update_step(Some("2.6.51-live"), "2.6.51-live", true), UpdateStep::UpToDate);
    assert_eq!(update_step(Some("2.6.51-live"), "2.6.50-live", true), UpdateStep::TryPatch);
    assert_eq!(update_step(Some("2.6.51-live"), "", true), UpdateStep::FullCheck);
    assert_eq!(remote_version("2.6.51-live", true, Some("v2.6.51")).unwrap(), Some("2.6.51-live".to_string()));
    assert!(remote_version("2.6.51-live", true, Some("v2.6.52")).is_err());
    assert_eq!(remote_version("", false, None).unwrap(), None);
    assert_eq!(after_task(true, false, false, false), TaskEnd::StartNext);
    assert_eq!(after_task(false, false, false, false), TaskEnd::FailRun);
    assert_eq!(after_task(false, false, true, true), TaskEnd::Idle);
}

#[test]
fn launch_warnings_and_events() {
    assert!(resolution_warning(1920, 1080).is_none());
    let w = resolution_warning(1234, 567).unwrap();
    assert!(w.message_zh.contains("1234x567"));
    let c = conflict_warning("no_render_on_input_thread", "B", "fps_max", "A");
    assert_eq!(c.related_option_ids, ["fps_max", "no_render_on_input_thread"]);
    assert_eq!(c.message_zh, "「B」与「A」可能冲突，建议只启用其中一个。");
    let e = ProgressEvent::empty("j".into(), InstallPhase::Preparing);
    assert_eq!(e.file_count, 0);
    assert_eq!(new_job_id().len(), 36);
    assert_ne!(new_job_id(), new_job_id());
}

#[test]
fn channel_folder_sits_under_the_library_folder() {
    let parts = |v: &[&str]| v.iter().map(|s| s.to_string()).collect::<Vec<String>>();
    assert!(looks_like_channel_dir(&parts(&["D:\\", "Games", "r5r library", "LIVE"])));
    assert!(!looks_like_channel_dir(&parts(&["D:\\", "R5R Library"])));
    assert!(!looks_like_channel_dir(&parts(&["LIVE"])));
}

#[test]
fn install_dir_is_library_then_upper_channel() {
    let root = vec!["C:".to_string(), "Games".to_string()];
    let d = install_dir(&root, "live");
    assert_eq!(d, vec!["C:", "Games", "R5R Library", "LIVE"]);
    assert!(looks_like_channel_dir(&d));
    let e = install_dir(&Vec::new(), "Public Test");
    assert_eq!(e, vec!["R5R Library", "PUBLIC TEST"]);
    assert!(looks_like_channel_dir(&e));
}

fn opt(id: &str, label: &str, enabled: bool) -> ConflictOption {
    ConflictOption { id: id.to_string(), label: label.to_string(), enabled }
}

#[test]
fn each_conflicting_pair_is_warned_once() {
    let entries = vec![
        ConflictEntry { option: opt("novid", "跳过动画", true), conflicts_with: vec![opt("dev", "开发者", true)] },
        ConflictEntry { option: opt("dev", "开发者", true), conflicts_with: vec![opt("novid", "跳过动画", true)] },
        ConflictEntry { option: opt("fps", "帧率", false), conflicts_with: vec![opt("novid", "跳过动画", true)] },
        ConflictEntry { option: opt("hdr", "HDR", true), conflicts_with: vec![opt("fps", "帧率", false)] },
    ];
    let w = conflict_warnings(&entries);
    assert_eq!(w.len(), 1);
    assert_eq!(w[0].severity, WarningSeverity::Caution);
    assert_eq!(w[0].related_option_ids, vec!["dev".to_string(), "novid".to_string()]);
    assert_eq!(w[0].message_zh, "「跳过动画」与「开发者」可能冲突，建议只启用其中一个。");
    assert!(conflict_warnings(&Vec::new()).is_empty());
}

fn sv(v: &[&str]) -> Vec<String> {
    v.iter().map(|s| s.to_string()).collect()
}

#[test]
fn launch_args_follow_the_enabled_options_in_order() {
    let on = |args| ResolvedOption { enabled: true, args };
    let options = vec![
        on(OptionArgs::Fixed(sv(&["-novid", "-nosplash"]))),
        ResolvedOption { enabled: false, args: OptionArgs::Fixed(sv(&["-dev"])) },
        on(OptionArgs::Flag { flag: "+fps_max".into(), value: Some("144".into()) }),
        on(OptionArgs::Flag { flag: "+cl_fovScale".into(), value: None }),
        on(OptionArgs::Pair { x_flag: "-w".into(), y_flag: "-h".into(), value: Some(("1920".into(), "1080".into())) }),
        on(OptionArgs::Choice {
            choices: vec![("dx11".into(), sv(&["-dx11"])), ("dx12".into(), sv(&["-dx12", "-x"]))],
            value: Some("dx12".into()),
        }),
        on(OptionArgs::Choice { choices: vec![("a".into(), sv(&["-a"]))], value: Some("b".into()) }),
        on(OptionArgs::Text { flag: "+exec".into(), value: Some("".into()) }),
        on(OptionArgs::Text { flag: "+name".into(), value: Some("x".into()) }),
    ];
    assert_eq!(
        compose_args(&options),
        sv(&["-novid", "-nosplash", "+fps_max", "144", "-w", "1920", "-h", "1080", "-dx12", "-x", "+name", "x"])
    );
}

