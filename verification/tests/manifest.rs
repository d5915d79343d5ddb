use r5r_launcher::error::AppError;
use r5r_launcher::manifest::{
    install_candidates, is_language_match, is_user_generated, manifest_url, needs_download, total_size, ManifestEntry,
};

#[test]
fn detects_user_generated_paths() {
    assert!(is_user_generated(r"platform\cfg\user\autoexec.cfg"));
    assert!(is_user_generated(r"platform/cfg/user/autoexec.cfg"));
    assert!(is_user_generated(r"PLATFORM\Screenshots\foo.png"));
    assert!(is_user_generated(r"platform\logs\client.log"));
    assert!(!is_user_generated(r"platform\paks\client_default.bnk"));
    assert!(!is_user_generated(r"r5apex.exe"));
}

#[test]
fn empty_language_always_matches() {
    let e = ManifestEntry { language: "".into(), ..Default::default() };
    assert!(is_language_match(&e, &["schinese"]));
    assert!(is_language_match(&e, &[]));
}

#[test]
fn matches_chosen_language_only() {
    let e = ManifestEntry { language: "schinese".into(), ..Default::default() };
    assert!(is_language_match(&e, &["schinese"]));
    assert!(!is_language_match(&e, &["english"]));
}

#[test]
fn candidates_skip_user_files_other_languages_and_hd_textures() {
    let files = vec![
        ManifestEntry { path: "r5apex.exe".into(), size: 10, ..Default::default() },
        ManifestEntry { path: r"platform\cfg\user\a.cfg".into(), ..Default::default() },
        ManifestEntry { path: "audio_en".into(), language: "english".into(), ..Default::default() },
        ManifestEntry { path: "audio_cn".into(), language: "schinese".into(), size: 5, ..Default::default() },
        ManifestEntry { path: "tex.opt.starpak".into(), optional: true, ..Default::default() },
    ];
    assert_eq!(install_candidates(&files, false, &["schinese"]), vec![0, 3]);
    assert_eq!(install_candidates(&files, true, &["schinese"]), vec![0, 3, 4]);
    assert_eq!(total_size(&files, &vec![0, 3]), Some(15));
}

#[test]
fn download_needed_only_for_missing_or_mismatched_files() {
    assert!(needs_download(false, "ab", "ab"));
    assert!(!needs_download(true, "", "whatever"));
    assert!(!needs_download(true, "ABcd", "abCD"));
    assert!(needs_download(true, "abcd", "abce"));
}

#[test]
fn user_generated_ignores_case_and_separators() {
    let paths = [r"platform\cfg\user\autoexec.cfg", "Platform/Logs/a.log", r"platform\paks\x.rpak", "r5apex.exe"];
    for p in paths.iter() {
        let upper = p.to_ascii_uppercase();
        let slashed = p.replace('\\', "/");
        let backslashed = p.replace('/', "\\");
        assert_eq!(is_user_generated(p), is_user_generated(&upper));
        assert_eq!(is_user_generated(p), is_user_generated(&slashed));
        assert_eq!(is_user_generated(p), is_user_generated(&backslashed));
    }
}

#[test]
fn manifest_url_appends_trimmed_version() {
    let u = manifest_url("https://cdn.example.com/live/", Some(" 2.6.51 ")).unwrap();
    assert_eq!(u, "https://cdn.example.com/live/checksums.json?version=2.6.51");
}

#[test]
fn manifest_url_without_or_with_blank_version() {
    let a = manifest_url("https://cdn.example.com/live//", None).unwrap();
    assert_eq!(a, "https://cdn.example.com/live/checksums.json");
    let b = manifest_url("https://cdn.example.com/live", Some("   ")).unwrap();
    assert_eq!(b, "https://cdn.example.com/live/checksums.json");
}

#[test]
fn manifest_url_refuses_unparsable_base() {
    match manifest_url("not a url", Some("1.0")) {
        Err(AppError::Manifest(m)) => assert!(m.starts_with("checksums.json URL 无效: "), "{m}"),
        other => panic!("unexpected {other:?}"),
    }
}
