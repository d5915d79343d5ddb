use r5r_launcher::config_sync::backup::{
    backup_folder_name, check_backup_id, newest_backup, ConfigBackupRecord, check_restored_digest, manual_backup_label, nothing_to_back_up, restore_slot,
    slots_to_clear,
};
use r5r_launcher::config_sync::content::{canonical_content, parse_content, selected_content_entries};
use r5r_launcher::config_sync::fields::{field_definitions, FIELD_COUNT};
use r5r_launcher::config_sync::line::{parse_line, LineError};
use r5r_launcher::config_sync::preview::{
    analyze_target_snapshot, check_preview_current, finish_preview, generate_config_content_from_snapshot,
    prepare_targets, unique_games, PreviewStatus,
};
use r5r_launcher::config_sync::rewrite::rewrite_config_text;
use r5r_launcher::config_sync::swap::{rollback_step, RollbackStep};
use r5r_launcher::config_sync::scan::{decode_config_file, snapshot_from_texts, GameConfigSnapshot};
use r5r_launcher::config_sync::{ConfigGame, ConfigSection};
use r5r_launcher::error::AppError;

fn other_msg<T>(r: Result<T, AppError>) -> String {
    match r {
        Err(AppError::Other(m)) => m,
        Err(e) => panic!("unexpected error kind {}", e.kind()),
        Ok(_) => panic!("expected an error"),
    }
}

fn snapshot(files: &[(&str, &str)]) -> GameConfigSnapshot {
    let mut inputs = Vec::new();
    for (rel, text) in files {
        let (fp, t) = decode_config_file(format!("root/{}", rel), text.as_bytes().to_vec()).unwrap();
        inputs.push((rel.to_string(), fp, t));
    }
    snapshot_from_texts(ConfigGame::Apex, "root".to_string(), inputs)
}

#[test]
fn strict_content_rejects_unknown_and_duplicate_keys() {
    assert!(parse_content("fps_max \"144\"").is_err());
    assert!(parse_content("mouse_sensitivity \"1\"\nmouse_sensitivity \"2\"").is_err());
}

#[test]
fn selected_content_keeps_only_individually_selected_fields() {
    let entries = selected_content_entries(
        "mouse_sensitivity \"1.2\"\ncl_fovScale \"1.55\"",
        &["cl_fovScale".to_string()],
    )
    .unwrap();
    assert_eq!(entries.len(), 1);
    assert_eq!(entries[0].key, "cl_fovScale");
}

#[test]
fn rewrite_changes_only_existing_values_and_preserves_format() {
    let content = "\u{feff}mouse_sensitivity   \"0.83\" // keep\r\nunknown \"x\"\r\nmouse_sensitivity \"9\"; quit\r\n";
    let entries = parse_content("mouse_sensitivity \"1.25\"\nmouse_zoomed_sensitivity_scalar_0 \"1.1\"").unwrap();
    let rewritten = rewrite_config_text(content, &entries).unwrap();
    assert_eq!(
        rewritten,
        "\u{feff}mouse_sensitivity   \"1.25\" // keep\r\nunknown \"x\"\r\nmouse_sensitivity \"9\"; quit\r\n"
    );
    assert!(!rewritten.contains("mouse_zoomed_sensitivity_scalar_0"));
}

#[test]
fn scanner_finds_fields_across_both_config_files() {
    let snap = snapshot(&[
        ("local/settings.cfg", "mouse_sensitivity \"0.83\"\n"),
        ("profile/profile.cfg", "gamepad_aim_speed \"2\"\ncl_fovScale \"1.55\"\n"),
    ]);
    let value = |key: &str| snap.entries.iter().find(|e| e.key == key).and_then(|e| e.value.clone());
    assert_eq!(value("mouse_sensitivity"), Some("0.83".to_string()));
    assert_eq!(value("gamepad_aim_speed"), Some("2".to_string()));
    assert!(snap.detected);
    assert_eq!(snap.entries.len(), FIELD_COUNT);
}

#[test]
fn scanner_marks_duplicate_different_values_as_conflict() {
    let snap = snapshot(&[
        ("local/settings.cfg", "mouse_sensitivity \"0.8\"\n"),
        ("profile/profile.cfg", "mouse_sensitivity \"1.2\"\n"),
    ]);
    let entry = snap.entries.iter().find(|e| e.key == "mouse_sensitivity").unwrap();
    assert!(entry.conflict);
    assert_eq!(entry.values, ["0.8", "1.2"]);
    assert_eq!(entry.locations, ["local/settings.cfg", "profile/profile.cfg"]);
    assert!(generate_config_content_from_snapshot(ConfigGame::Apex, vec!["mouse_sensitivity".to_string()], snap.clone()).is_err());

    let desired = parse_content("mouse_sensitivity \"1.25\"").unwrap();
    let preview = analyze_target_snapshot(ConfigGame::Apex, &desired, snap).unwrap();
    assert_eq!(preview.replace_count, 1);
    assert_eq!(preview.conflict_count, 1);
}

#[test]
fn rewrite_skips_missing_fields_and_replaces_all_existing_duplicates() {
    let entries = parse_content("mouse_sensitivity \"1.25\"\nmouse_zoomed_sensitivity_scalar_0 \"1.1\"").unwrap();
    let settings = rewrite_config_text("mouse_sensitivity \"0.8\"\nmouse_sensitivity \"1.0\"\n", &entries);
    let profile = rewrite_config_text("cl_fovScale \"1.4\"\n", &entries);
    assert_eq!(settings, Some("mouse_sensitivity \"1.25\"\nmouse_sensitivity \"1.25\"\n".to_string()));
    assert_eq!(profile, None);
}

#[test]
fn definitions_list_every_setting_once_in_order() {
    let defs = field_definitions();
    assert_eq!(defs.len(), 50);
    assert_eq!(defs[0].key, "mouse_sensitivity");
    assert_eq!(defs[2].label, "ADS 鼠标灵敏度加成（默认 / 1x 光学缩放 / 瞄具）");
    assert_eq!(defs[3].label, "2x 光学缩放 ADS 鼠标灵敏度加成");
    assert_eq!(defs[10].key, "cl_fovScale");
    assert_eq!(defs[10].section, ConfigSection::Fov);
    assert_eq!(defs[20].label, "1x 光学缩放 / 瞄具 ADS 灵敏度加成");
    assert_eq!(defs[49].key, "gamepad_trigger_threshold");
    for (i, a) in defs.iter().enumerate() {
        for b in defs.iter().skip(i + 1) {
            assert_ne!(a.key, b.key);
        }
    }
}

#[test]
fn line_parsing_positions_and_errors() {
    let line: Vec<char> = "\u{feff}  key.a_1\t \"v\" // c\n".chars().collect();
    let p = parse_line(&line, false).unwrap().unwrap();
    assert_eq!(p.key.iter().collect::<String>(), "key.a_1");
    assert_eq!(p.value.iter().collect::<String>(), "v");
    assert_eq!((p.value_start, p.value_end), (13, 14));
    let err = |s: &str, strict: bool| parse_line(&s.chars().collect::<Vec<_>>(), strict).err();
    assert_eq!(err("// c", true), Some(LineError::Comment));
    assert!(parse_line(&"# c".chars().collect::<Vec<_>>(), false).unwrap().is_none());
    assert_eq!(err("key", true), Some(LineError::MissingValue));
    assert_eq!(err("k-y \"1\"", true), Some(LineError::InvalidKey));
    assert_eq!(err("key 1", true), Some(LineError::Unquoted));
    assert_eq!(err("key \"1", true), Some(LineError::Unterminated));
    assert_eq!(err("key \"1\" x", true), Some(LineError::TrailingContent));
    assert_eq!(err("key \"1\" x", false), Some(LineError::TrailingCommand));
    assert!(parse_line(&" \t\r\n".chars().collect::<Vec<_>>(), true).unwrap().is_none());
}

#[test]
fn content_errors_name_the_line() {
    assert_eq!(other_msg(parse_content("mouse_sensitivity \"1\"\nfps_max \"1\"")), "第 2 行包含不允许的配置项 fps_max");
    assert_eq!(other_msg(parse_content("mouse_sensitivity \"abc\"")), "第 1 行的值不是有限数字");
    assert_eq!(other_msg(parse_content("mouse_sensitivity \"1e309\"")), "第 1 行的值不是有限数字");
    assert_eq!(other_msg(parse_content("\n\nmouse_sensitivity 1")), "第 3 行：配置值必须使用双引号");
    assert_eq!(other_msg(parse_content("mouse_sensitivity \"1\"\nmouse_sensitivity \"2\"")), "配置项 mouse_sensitivity 重复");
    assert_eq!(other_msg(parse_content("\n  \n")), "配置内容为空");
    let big = "mouse_sensitivity \"1\"\n".repeat(1000);
    assert_eq!(other_msg(parse_content(&big)), "配置内容超过 16 KiB");
}

#[test]
fn content_comes_out_in_the_ui_order_and_reads_back() {
    let entries = parse_content("cl_fovScale \"1.55\"\r\nmouse_sensitivity \"-2.5e3\"\n").unwrap();
    assert_eq!(entries[0].key, "mouse_sensitivity");
    assert_eq!(entries[0].definition.section, ConfigSection::MouseKeyboard);
    assert_eq!(entries[1].key, "cl_fovScale");
    let text = canonical_content(&entries);
    assert_eq!(text, "mouse_sensitivity \"-2.5e3\"\ncl_fovScale \"1.55\"");
    let again = parse_content(&text).unwrap();
    assert_eq!(canonical_content(&again), text);
}

#[test]
fn finite_numbers_reach_up_to_the_double_limit() {
    assert!(parse_content("mouse_sensitivity \"1.7976931348623157e308\"").is_ok());
    assert!(parse_content("mouse_sensitivity \"1.8e308\"").is_err());
    assert!(parse_content("mouse_sensitivity \".5\"").is_ok());
    assert!(parse_content("mouse_sensitivity \"5.\"").is_ok());
    assert!(parse_content("mouse_sensitivity \".\"").is_err());
    assert!(parse_content("mouse_sensitivity \"inf\"").is_err());
    assert!(parse_content("mouse_sensitivity \"0e99999\"").is_ok());
}

#[test]
fn selection_errors() {
    let content = "mouse_sensitivity \"1.2\"";
    assert_eq!(other_msg(selected_content_entries(content, &[])), "请至少选择一个配置项");
    assert_eq!(other_msg(selected_content_entries(content, &["cl_fovScale".to_string()])), "所选配置项不在档案内容中");
    assert_eq!(
        other_msg(selected_content_entries(content, &["mouse_sensitivity".to_string(), "cl_fovScale".to_string()])),
        "部分所选配置项不在档案内容中"
    );
}

#[test]
fn generating_a_profile_from_a_game() {
    let snap = snapshot(&[("local/settings.cfg", "cl_fovScale \"1.55\"\nmouse_sensitivity \"2\"\n")]);
    let g = generate_config_content_from_snapshot(
        ConfigGame::Apex,
        vec!["cl_fovScale".into(), "mouse_sensitivity".into(), "gamepad_aim_speed".into()],
        snap.clone(),
    )
    .unwrap();
    assert_eq!(g.content, "mouse_sensitivity \"2\"\ncl_fovScale \"1.55\"");
    assert_eq!(g.keys, ["mouse_sensitivity", "cl_fovScale"]);
    assert!(g.has_mouse && g.has_fov && !g.has_controller);
    assert_eq!(
        other_msg(generate_config_content_from_snapshot(ConfigGame::Apex, vec!["gamepad_aim_speed".into()], snap)),
        "没有可生成的配置项"
    );
    let empty = snapshot(&[]);
    match generate_config_content_from_snapshot(ConfigGame::R5, vec![], empty) {
        Err(AppError::NotFound(m)) => assert_eq!(m, "未检测到 Apex_fnf 配置"),
        _ => panic!("expected not found"),
    }
}

#[test]
fn preview_counts_and_staleness() {
    let snap = snapshot(&[("local/settings.cfg", "mouse_sensitivity \"1.25\"\ncl_fovScale \"1\"\n")]);
    let entries = parse_content("mouse_sensitivity \"1.25\"\ncl_fovScale \"1.5\"\ngamepad_aim_speed \"3\"").unwrap();
    let t = analyze_target_snapshot(ConfigGame::Apex, &entries, snap.clone()).unwrap();
    assert_eq!((t.replace_count, t.unchanged_count, t.missing_count, t.conflict_count), (1, 1, 1, 0));
    assert_eq!(t.items[0].status, PreviewStatus::Unchanged);
    assert_eq!(t.items[1].status, PreviewStatus::Replace);
    assert_eq!(t.items[2].status, PreviewStatus::Missing);

    let p = finish_preview(&entries, vec![t.clone()]);
    assert_eq!(p.content_sha256.len(), 64);
    assert_eq!(p.selected_keys, ["mouse_sensitivity", "cl_fovScale", "gamepad_aim_speed"]);
    assert!(check_preview_current(&p, &p.clone()).is_ok());

    let changed = snapshot(&[("local/settings.cfg", "mouse_sensitivity \"9\"\n")]);
    let t2 = analyze_target_snapshot(ConfigGame::Apex, &entries, changed).unwrap();
    let p2 = finish_preview(&entries, vec![t2]);
    assert_eq!(other_msg(check_preview_current(&p2, &p)), "Apex 配置文件已变化，请重新预览");
    let other_entries = parse_content("mouse_sensitivity \"2\"").unwrap();
    let p3 = finish_preview(&other_entries, vec![t]);
    assert_eq!(other_msg(check_preview_current(&p3, &p)), "配置内容或目标已变化，请重新预览");
}

#[test]
fn targets_and_backups() {
    assert_eq!(unique_games(vec![ConfigGame::R5, ConfigGame::Apex, ConfigGame::R5]), vec![ConfigGame::R5, ConfigGame::Apex]);
    assert_eq!(other_msg(prepare_targets(vec![])), "请至少选择一个目标游戏");
    assert_eq!(manual_backup_label("  "), "手动备份");
    assert_eq!(manual_backup_label(" mine "), "mine");
    assert_eq!(backup_folder_name(17, "abc"), "17-abc");
    match nothing_to_back_up(ConfigGame::Apex) {
        AppError::NotFound(m) => assert_eq!(m, "Apex 没有可备份的配置文件"),
        _ => panic!(),
    }
}

#[test]
fn invalid_utf8_is_refused_and_fingerprints_are_exact() {
    match decode_config_file("p".into(), vec![0xff, 0xfe]) {
        Err(AppError::Other(m)) => assert_eq!(m, "配置文件不是有效 UTF-8：p"),
        _ => panic!(),
    }
    let (fp, text) = decode_config_file("p".into(), b"abc".to_vec()).unwrap();
    assert_eq!(text, "abc");
    assert_eq!(fp.size, 3);
    assert_eq!(fp.sha256, "ba7816bf8f01cfea414140de5dae2223b00361a396177a9cb410ff61f20015ad");
}

#[test]
fn applying_the_same_profile_twice_changes_nothing_the_second_time() {
    let entries = parse_content("mouse_sensitivity \"1.25\"\ncl_fovScale \"1.4\"").unwrap();
    let original = "\u{feff}mouse_sensitivity   \"0.83\" // keep\r\ncl_fovScale\t\"1\"\nunknown \"x\"\r\nmouse_sensitivity \"9\"; quit\r\n";
    let first = rewrite_config_text(original, &entries).unwrap();
    assert_eq!(
        first,
        "\u{feff}mouse_sensitivity   \"1.25\" // keep\r\ncl_fovScale\t\"1.4\"\nunknown \"x\"\r\nmouse_sensitivity \"9\"; quit\r\n"
    );
    assert_eq!(rewrite_config_text(&first, &entries), None);
}

#[test]
fn backup_id_must_be_a_uuid() {
    assert!(check_backup_id("6315aa5c-cb67-457f-8c70-8ac64215678e").is_ok());
    assert!(check_backup_id("6ba7b810-9dad-11d1-80b4-00c04fd430c8").is_ok());
    match check_backup_id("../etc") {
        Err(AppError::InvalidPath(m)) => assert_eq!(m, "备份 ID 无效"),
        other => panic!("unexpected {other:?}"),
    }
    assert!(matches!(check_backup_id(""), Err(AppError::InvalidPath(_))));
}

fn comps(parts: &[&str]) -> Option<Vec<String>> {
    Some(parts.iter().map(|p| p.to_string()).collect())
}

#[test]
fn restore_slot_accepts_only_the_two_config_files_once() {
    assert_eq!(restore_slot(&comps(&["local", "settings.cfg"]), &vec![]).unwrap(), 0);
    assert_eq!(restore_slot(&comps(&["profile", "profile.cfg"]), &vec![0]).unwrap(), 1);
    match restore_slot(&None, &vec![]) {
        Err(AppError::InvalidPath(m)) => assert_eq!(m, "备份文件路径无效"),
        other => panic!("unexpected {other:?}"),
    }
    match restore_slot(&comps(&["local", "videoconfig.txt"]), &vec![]) {
        Err(AppError::InvalidPath(m)) => assert_eq!(m, "备份包含不允许恢复的文件"),
        other => panic!("unexpected {other:?}"),
    }
    match restore_slot(&comps(&["Local", "settings.cfg"]), &vec![]) {
        Err(AppError::InvalidPath(m)) => assert_eq!(m, "备份包含不允许恢复的文件"),
        other => panic!("unexpected {other:?}"),
    }
    match restore_slot(&comps(&["local", "settings.cfg"]), &vec![0]) {
        Err(AppError::InvalidPath(m)) => assert_eq!(m, "备份包含重复文件"),
        other => panic!("unexpected {other:?}"),
    }
}

#[test]
fn restored_bytes_must_match_their_digest() {
    let abc = "ba7816bf8f01cfea414140de5dae2223b00361a396177a9cb410ff61f20015ad";
    assert!(check_restored_digest(b"abc", abc, "local/settings.cfg").is_ok());
    match check_restored_digest(b"abd", abc, "local/settings.cfg") {
        Err(AppError::Other(m)) => assert_eq!(m, "备份文件校验失败：local/settings.cfg"),
        other => panic!("unexpected {other:?}"),
    }
}

#[test]
fn restore_removes_the_files_the_backup_lacks() {
    assert_eq!(slots_to_clear(&vec![]), vec![0, 1]);
    assert_eq!(slots_to_clear(&vec![1]), vec![0]);
    assert_eq!(slots_to_clear(&vec![0]), vec![1]);
    assert_eq!(slots_to_clear(&vec![1, 0]), Vec::<usize>::new());
    for taken in [vec![], vec![0], vec![1], vec![0, 1], vec![1, 0]] {
        let mut all = taken.clone();
        all.extend(slots_to_clear(&taken));
        all.sort();
        assert_eq!(all, vec![0, 1]);
    }
}

fn key_values(r: Result<Vec<r5r_launcher::config_sync::content::ContentEntry>, AppError>) -> Vec<(String, String)> {
    r.unwrap().into_iter().map(|e| (e.key, e.value)).collect()
}

#[test]
fn profile_reads_the_same_whatever_the_line_order() {
    let a = "mouse_sensitivity \"1.2\"\ncl_fovScale \"1.55\"\n";
    let b = "\ncl_fovScale \"1.55\"\n\nmouse_sensitivity \"1.2\"";
    assert_eq!(key_values(parse_content(a)), key_values(parse_content(b)));
    assert_eq!(
        key_values(parse_content(a)),
        vec![("mouse_sensitivity".to_string(), "1.2".to_string()), ("cl_fovScale".to_string(), "1.55".to_string())]
    );
}

#[test]
fn selection_ignores_lines_for_keys_not_picked() {
    let picked = ["cl_fovScale".to_string()];
    let a = selected_content_entries("cl_fovScale \"1.55\"", &picked);
    let b = selected_content_entries("mouse_sensitivity \"1.2\"\ncl_fovScale \"1.55\"", &picked);
    assert_eq!(key_values(a), key_values(b));
}

fn step(remove_target: bool, restore_rollback: bool, remove_temp: bool) -> RollbackStep {
    RollbackStep { remove_target, restore_rollback, remove_temp }
}

#[test]
fn rollback_undoes_each_stage_of_a_swap() {
    // never started: only the temporary copy goes
    assert_eq!(rollback_step(false, false, false, true, true), step(false, false, true));
    // old file moved aside, new one moved in: put the old one back
    assert_eq!(rollback_step(true, true, true, true, false), step(true, true, false));
    // old file moved aside, new one not yet in place
    assert_eq!(rollback_step(true, true, true, false, true), step(false, true, true));
    // no old file, new one moved in: remove it
    assert_eq!(rollback_step(true, false, false, true, false), step(true, false, false));
    // old file could not be moved aside: leave it
    assert_eq!(rollback_step(true, false, true, true, true), step(false, false, true));
}

#[test]
fn scanned_locations_are_the_files_read_each_once() {
    let snap = snapshot(&[
        ("local/settings.cfg", "mouse_sensitivity \"1\"\nmouse_sensitivity \"2\"\nmouse_sensitivity \"1\""),
        ("profile/profile.cfg", "mouse_sensitivity \"2\""),
    ]);
    let e = snap.entries.iter().find(|e| e.key == "mouse_sensitivity").unwrap();
    assert_eq!(e.values, vec!["1".to_string(), "2".to_string()]);
    assert_eq!(e.locations, vec!["local/settings.cfg".to_string(), "profile/profile.cfg".to_string()]);
    assert!(e.conflict);
    for entry in &snap.entries {
        for loc in &entry.locations {
            assert!(loc == "local/settings.cfg" || loc == "profile/profile.cfg");
        }
    }
}

fn record(id: &str, at: u64) -> ConfigBackupRecord {
    ConfigBackupRecord {
        id: id.to_string(),
        game: ConfigGame::Apex,
        created_at_ms: at,
        label: String::new(),
        operation_source: "manual".to_string(),
        files: Vec::new(),
        total_size: 0,
    }
}

#[test]
fn newest_backup_is_the_first_latest() {
    assert_eq!(newest_backup(&Vec::new()), None);
    let bs = vec![record("a", 5), record("b", 9), record("c", 9), record("d", 1)];
    let i = newest_backup(&bs).unwrap();
    assert_eq!(bs[i].id, "b");
    assert!(bs.iter().all(|b| b.created_at_ms <= bs[i].created_at_ms));
}

