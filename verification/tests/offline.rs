use r5r_launcher::error::AppError;
use r5r_launcher::offline::{
    channel_from_entry_name, detect_directory, preflight_zip, single_channel_in, zip_entry_keep, PickStep,
};

fn invalid(r: Result<(), AppError>) -> String {
    match r {
        Err(AppError::InvalidPath(m)) => m,
        _ => panic!("expected invalid path"),
    }
}

#[test]
fn kept_entries_and_channel_anchor() {
    assert!(zip_entry_keep("R5R Library/LIVE/r5apex.exe"));
    assert!(zip_entry_keep("r5r launcher/x"));
    assert!(!zip_entry_keep("README.md"));
    assert!(!zip_entry_keep("R5R Libraryé/x"));
    assert!(zip_entry_keep("R5R Library/é"));
    assert_eq!(channel_from_entry_name("R5R Library/LIVE/r5apex.exe"), Some("LIVE".to_string()));
    assert_eq!(channel_from_entry_name("r5r library/ptu/R5Apex.EXE"), Some("ptu".to_string()));
    assert_eq!(channel_from_entry_name("R5R Library/LIVE/paks/ui.rpak"), None);
}

#[test]
fn preflight_rejects_tiny_file() {
    let m = invalid(preflight_zip(10, b"PK\x03\x04", "tiny", "tiny.zip", false, false));
    assert_eq!(m, "文件过小（10 字节），无法构成有效的 zip。请确认下载是否完整。");
}

#[test]
fn preflight_rejects_7z_magic() {
    let m = invalid(preflight_zip(64, &[0x37, 0x7a, 0xbc, 0xaf], "fake", "fake.zip", false, false));
    assert!(m.contains("7z"));
}

#[test]
fn preflight_rejects_rar_magic() {
    let m = invalid(preflight_zip(64, b"Rar!", "fake", "fake.zip", false, false));
    assert!(m.contains("RAR"));
}

#[test]
fn preflight_flags_z01_split_companion() {
    let m = invalid(preflight_zip(64, b"PK\x03\x04", "pack", "pack.zip", true, false));
    assert!(m.contains("pack.z01"), "got {}", m);
}

#[test]
fn preflight_flags_dot_001_split_companion() {
    let m = invalid(preflight_zip(64, b"PK\x03\x04", "pack", "pack.zip", false, true));
    assert!(m.contains("pack.zip.001"), "got {}", m);
}

#[test]
fn preflight_passes_for_real_zip_signature() {
    assert!(preflight_zip(64, b"PK\x03\x04", "ok", "ok.zip", false, false).is_ok());
    assert!(preflight_zip(64, b"PK", "ok", "ok.zip", false, false).is_ok());
}

#[test]
fn preflight_names_other_headers() {
    let m = invalid(preflight_zip(64, &[0x4d, 0x5a, 0, 0], "a", "a.zip", false, false));
    assert!(m.contains("Windows 可执行文件"));
    let m = invalid(preflight_zip(64, &[0x00, 0x1f, 0xab, 0xff], "a", "a.zip", false, false));
    assert!(m.contains("00 1f ab ff"), "got {}", m);
}

#[test]
fn directory_steps() {
    match detect_directory("D:/x", false, false, None) {
        Err(AppError::InvalidPath(m)) => assert_eq!(m, "D:/x 不是一个目录"),
        _ => panic!(),
    }
    assert!(matches!(detect_directory("d", true, true, Some("LIVE".into())), Ok(PickStep::Channel(c)) if c == "LIVE"));
    assert!(matches!(detect_directory("d", true, true, None), Ok(PickStep::Channel(c)) if c == "LIVE"));
    assert!(matches!(detect_directory("d", true, false, Some("r5r library".into())), Ok(PickStep::ScanLibrary)));
    assert!(matches!(detect_directory("d", true, false, Some("Games".into())), Ok(PickStep::FindLibrary)));
}

#[test]
fn ambiguous_multiple_channels_rejected() {
    match single_channel_in(vec!["LIVE".into(), "STABLE".into()]) {
        Err(AppError::InvalidPath(m)) => assert_eq!(m, "目录中存在多个频道：LIVE, STABLE。请只保留一个或单独导入。"),
        _ => panic!(),
    }
    assert_eq!(single_channel_in(vec!["LIVE".into()]).unwrap(), "LIVE");
    assert!(single_channel_in(vec![]).is_err());
}

#[test]
fn picked_dir_is_channel() {
    match detect_directory("/tmp/x/LIVE", true, true, Some("LIVE".to_string())) {
        Ok(PickStep::Channel(c)) => assert_eq!(c, "LIVE"),
        other => panic!("unexpected {:?}", other),
    }
}

#[test]
fn picked_dir_is_r5r_library() {
    assert!(matches!(
        detect_directory("/tmp/x/R5R Library", true, false, Some("R5R Library".to_string())),
        Ok(PickStep::ScanLibrary)
    ));
    assert_eq!(single_channel_in(vec!["LIVE".to_string()]).unwrap(), "LIVE");
}

#[test]
fn picked_dir_contains_r5r_library() {
    assert!(matches!(
        detect_directory("/tmp/x", true, false, Some("x".to_string())),
        Ok(PickStep::FindLibrary)
    ));
    assert_eq!(single_channel_in(vec!["LIVE".to_string()]).unwrap(), "LIVE");
}
