use r5r_launcher::updater::{installer_file_name, is_newer, update_helper_script, utf16le_bom, vbs_escape};

#[test]
fn version_comparison() {
    assert!(is_newer("0.4.0", "0.5.0"));
    assert!(is_newer("0.4.0", "1.0.0"));
    assert!(is_newer("0.4.0", "0.4.1"));
    assert!(!is_newer("0.4.0", "0.4.0"));
    assert!(!is_newer("0.5.0", "0.4.0"));
    assert!(is_newer("v0.4.0", "v0.5.0"));
}

#[test]
fn installer_name_comes_from_the_url() {
    assert_eq!(installer_file_name("https://x.example/dl/setup-1.2.exe"), "setup-1.2.exe");
    assert_eq!(installer_file_name("https://x.example/dl/latest"), "R5R-CN-Launcher-setup.exe");
}

#[test]
fn helper_script_quotes_paths_and_is_utf16() {
    assert_eq!(vbs_escape("a\"b").into_iter().collect::<String>(), "a\"\"b");
    let s = update_helper_script(r"C:\t\setup.exe", r"C:\app\l.exe");
    assert!(s.contains("sh.Run \"\"\"C:\\t\\setup.exe\"\" /S\", 0, True"));
    assert!(s.ends_with("sh.Run \"\"\"C:\\app\\l.exe\"\"\", 1, False\r\n"));
    assert_eq!(utf16le_bom("A"), vec![0xFF, 0xFE, 0x41, 0x00]);
    assert_eq!(utf16le_bom("😀"), vec![0xFF, 0xFE, 0x3D, 0xD8, 0x00, 0xDE]);
}
