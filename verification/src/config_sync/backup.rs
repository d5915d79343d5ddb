//! Backups of a game's config files: their records and labels, and the
//! results an apply reports.

use super::preview::{ConfigApplyPreview, TargetApplyPreview};
use super::scan::GameConfigSnapshot;
use super::{folder_name_spec, ConfigGame};
use crate::error::AppError;
use crate::digest::{hash_bytes, hex_spec, sha256};
use crate::text::{chars_of, concat, decimal, decimal_of, string_of, trim, trim_ws};
use vstd::prelude::*;

verus! {

/// Both games' config snapshots.
#[derive(Debug, Clone)]
pub struct ConfigComparison {
    pub apex: GameConfigSnapshot,
    pub r5: GameConfigSnapshot,
}

/// A request to apply a profile, with the preview the user confirmed.
#[derive(Debug, Clone)]
pub struct ApplyConfigRequest {
    pub content: String,
    pub selected_keys: Vec<String>,
    pub target_games: Vec<ConfigGame>,
    pub expected_preview: ConfigApplyPreview,
    pub source_label: String,
}

/// What applying a profile did to one game.
#[derive(Debug, Clone)]
pub struct ApplyTargetResult {
    pub game: ConfigGame,
    pub replaced: usize,
    pub unchanged: usize,
    pub missing: usize,
    pub backup_id: Option<String>,
}

/// What applying a profile did.
#[derive(Debug, Clone)]
pub struct ConfigApplyResult {
    pub targets: Vec<ApplyTargetResult>,
}

/// One file kept in a backup.
#[derive(Debug, Clone)]
pub struct BackupFileRecord {
    pub relative_path: String,
    pub sha256: String,
    pub size: u64,
}

/// A backup of a game's config files.
#[derive(Debug, Clone)]
pub struct ConfigBackupRecord {
    pub id: String,
    pub game: ConfigGame,
    pub created_at_ms: u64,
    pub label: String,
    pub operation_source: String,
    pub files: Vec<BackupFileRecord>,
    pub total_size: u64,
}

/// A manual backup's label: the user's, trimmed, or a default when blank.
pub fn manual_backup_label(label: &str) -> (r: String)
    ensures
        trim(label@).len() == 0 ==> r@ == "手动备份"@,
        trim(label@).len() > 0 ==> r@ == trim(label@),
{
    let c = chars_of(label);
    let t = trim_ws(&c);
    if t.len() == 0 {
        crate::text::string_from_str("手动备份")
    } else {
        string_of(&t)
    }
}

fn joined(head: &str, tail: &[char]) -> (r: String)
    ensures
        r@ == head@ + tail@,
{
    let h = chars_of(head);
    let m = concat(&h, tail);
    string_of(&m)
}

/// The label and source of the backup taken before an apply.
pub fn apply_backup_names(source_label: &str) -> (r: (String, String))
    ensures
        r.0@ == "应用前自动备份："@ + trim(source_label@),
        r.1@ == "apply:"@ + trim(source_label@),
{
    let c = chars_of(source_label);
    let t = trim_ws(&c);
    (joined("应用前自动备份：", &t), joined("apply:", &t))
}

/// The label and source of the backup taken before a restore.
pub fn restore_backup_names(record: &ConfigBackupRecord) -> (r: (String, String))
    ensures
        r.0@ == "恢复前自动备份："@ + record.label@,
        r.1@ == "restore:"@ + record.id@,
{
    let l = chars_of(record.label.as_str());
    let i = chars_of(record.id.as_str());
    (joined("恢复前自动备份：", &l), joined("restore:", &i))
}

/// The folder a backup is kept in: `<created_at_ms>-<id>`.
pub fn backup_folder_name(created_at_ms: u64, id: &str) -> (r: String)
    ensures
        r@ == decimal(created_at_ms as nat) + "-"@ + id@,
{
    let n = decimal_of(created_at_ms);
    let d = chars_of("-");
    let i = chars_of(id);
    let nd = concat(&n, &d);
    let all = concat(&nd, &i);
    string_of(&all)
}

/// The error when a game has no config file to back up.
pub fn nothing_to_back_up(game: ConfigGame) -> (e: AppError)
    ensures
        e matches AppError::NotFound(m) && m@ == folder_name_spec(game) + " 没有可备份的配置文件"@,
{
    let f = chars_of(game.folder_name());
    let t = chars_of(" 没有可备份的配置文件");
    let m = concat(&f, &t);
    AppError::NotFound(string_of(&m))
}

/// The newest backup: the first of those with the latest time, as a
/// stable sort from newest to oldest puts it.
pub open spec fn newest_spec(times: Seq<u64>) -> Option<int>
    decreases times.len(),
{
    if times.len() == 0 {
        None
    } else {
        match newest_spec(times.drop_last()) {
            None => Some(0),
            Some(i) => if times.last() > times[i] {
                Some(times.len() - 1)
            } else {
                Some(i)
            },
        }
    }
}

/// The newest backup is the latest one: there is one exactly when there
/// are backups, no backup is later, and every earlier-listed backup is
/// strictly older (the first of the latest is picked).
pub proof fn law_newest_is_latest(times: Seq<u64>)
    ensures
        newest_spec(times) is Some <==> times.len() > 0,
        newest_spec(times) matches Some(i) ==> 0 <= i < times.len() && (forall|j: int|
            0 <= j < times.len() ==> #[trigger] times[j] <= times[i]) && (forall|j: int|
            0 <= j < i ==> #[trigger] times[j] < times[i]),
    decreases times.len(),
{
    if times.len() > 0 {
        let init = times.drop_last();
        law_newest_is_latest(init);
        match newest_spec(init) {
            None => {},
            Some(i) => {
                assert(forall|j: int| 0 <= j < init.len() ==> init[j] == times[j]);
            },
        }
    }
}

pub fn newest_backup(records: &Vec<ConfigBackupRecord>) -> (r: Option<usize>)
    ensures
        match newest_spec(records@.map_values(|b: ConfigBackupRecord| b.created_at_ms)) {
            Some(i) => r == Some(i as usize),
            None => r is None,
        },
{
    let ghost times = records@.map_values(|b: ConfigBackupRecord| b.created_at_ms);
    let mut best: Option<usize> = None;
    let mut i: usize = 0;
    assert(times.take(0) =~= Seq::<u64>::empty());
    while i < records.len()
        invariant
            i <= records@.len(),
            times == records@.map_values(|b: ConfigBackupRecord| b.created_at_ms),
            match newest_spec(times.take(i as int)) {
                Some(k) => best == Some(k as usize) && 0 <= k < i,
                None => best is None && i == 0,
            },
        decreases records.len() - i,
    {
        assert(times.take(i + 1).drop_last() =~= times.take(i as int));
        assert(times.take(i + 1).last() == records@[i as int].created_at_ms);
        match best {
            None => {
                best = Some(i);
            },
            Some(b) => {
                assert(times.take(i as int)[b as int] == records@[b as int].created_at_ms);
                assert(times.take(i + 1)[b as int] == records@[b as int].created_at_ms);
                if records[i].created_at_ms > records[b].created_at_ms {
                    best = Some(i);
                }
            },
        }
        i = i + 1;
    }
    assert(times.take(records@.len() as int) =~= times);
    best
}

/// What an apply reports for each target: its counts, and the backup taken
/// before writing, if one was.
pub fn apply_results(targets: Vec<TargetApplyPreview>, backups: &Vec<(ConfigGame, String)>) -> (r: ConfigApplyResult)
    ensures
        r.targets@.len() == targets@.len(),
        forall|j: int| 0 <= j < targets@.len() ==> {
            let t = #[trigger] r.targets@[j];
            &&& t.game == targets@[j].game
            &&& t.replaced == targets@[j].replace_count
            &&& t.unchanged == targets@[j].unchanged_count
            &&& t.missing == targets@[j].missing_count
            &&& match t.backup_id {
                Some(id) => exists|k: int| 0 <= k < backups@.len() && backups@[k].0 == t.game && backups@[k].1@ == id@,
                None => forall|k: int| 0 <= k < backups@.len() ==> backups@[k].0 != t.game,
            }
        },
{
    let mut out: Vec<ApplyTargetResult> = Vec::new();
    let mut j: usize = 0;
    while j < targets.len()
        invariant
            j <= targets@.len(),
            out@.len() == j,
            forall|x: int| 0 <= x < j ==> {
                let t = #[trigger] out@[x];
                &&& t.game == targets@[x].game
                &&& t.replaced == targets@[x].replace_count
                &&& t.unchanged == targets@[x].unchanged_count
                &&& t.missing == targets@[x].missing_count
                &&& match t.backup_id {
                    Some(id) => exists|k: int| 0 <= k < backups@.len() && backups@[k].0 == t.game && backups@[k].1@ == id@,
                    None => forall|k: int| 0 <= k < backups@.len() ==> backups@[k].0 != t.game,
                }
            },
        decreases targets.len() - j,
    {
        let g = targets[j].game;
        let mut id: Option<String> = None;
        let mut k: usize = 0;
        while k < backups.len()
            invariant
                k <= backups@.len(),
                id is None ==> forall|y: int| 0 <= y < k ==> backups@[y].0 != g,
                id matches Some(s) ==> exists|y: int| 0 <= y < backups@.len() && backups@[y].0 == g && backups@[y].1@ == s@,
            decreases backups.len() - k,
        {
            if id.is_none() && backups[k].0 == g {
                id = Some(backups[k].1.clone());
            }
            k = k + 1;
        }
        let ghost prev = out@;
        out.push(ApplyTargetResult {
            game: g,
            replaced: targets[j].replace_count,
            unchanged: targets[j].unchanged_count,
            missing: targets[j].missing_count,
            backup_id: id,
        });
        assert(forall|x: int| 0 <= x < j ==> out@[x] == prev[x]);
        j = j + 1;
    }
    ConfigApplyResult { targets: out }
}

/// A backup is named by a UUID; any other id is refused before the
/// backups are searched.
pub fn check_backup_id(backup_id: &str) -> (r: Result<(), AppError>)
    ensures
        crate::events::uuid_version(backup_id@) is Some ==> r is Ok,
        crate::events::uuid_version(backup_id@) is None ==> (r matches Err(AppError::InvalidPath(m))
            && m@ == "备份 ID 无效"@),
{
    match crate::events::uuid_version_of(backup_id) {
        Some(_) => Ok(()),
        None => Err(AppError::InvalidPath(crate::text::string_from_str("备份 ID 无效"))),
    }
}

/// The config file (0: settings, 1: profile) that a backed-up path
/// restores, given the path's components; `None` for any other path.
pub open spec fn restore_slot_spec(c: Seq<Seq<char>>) -> Option<usize> {
    if c == seq!["local"@, "settings.cfg"@] {
        Some(0usize)
    } else if c == seq!["profile"@, "profile.cfg"@] {
        Some(1usize)
    } else {
        None
    }
}

/// Whether the components are exactly `first/second`.
fn is_path_of(c: &Vec<String>, first: &str, second: &str) -> (b: bool)
    ensures
        b == (crate::commands::component_views(c@) == seq![first@, second@]),
{
    if c.len() != 2 {
        proof {
            assert(crate::commands::component_views(c@).len() == c@.len());
        }
        return false;
    }
    let a0 = chars_of(c[0].as_str());
    let a1 = chars_of(c[1].as_str());
    let f = chars_of(first);
    let g = chars_of(second);
    let r = crate::text::seq_eq(&a0, &f) && crate::text::seq_eq(&a1, &g);
    proof {
        let v = crate::commands::component_views(c@);
        if r {
            assert(v =~= seq![first@, second@]);
        } else if v == seq![first@, second@] {
            assert(v[0] == first@);
            assert(v[1] == second@);
        }
    }
    r
}

/// Which config file a backed-up file restores.  A path that is not plain
/// (`None`: rooted, or with a `.`/`..` step), a path other than the two
/// config files, and a config file an earlier file of the backup already
/// restores (`taken`) are each refused.
pub fn restore_slot(components: &Option<Vec<String>>, taken: &Vec<usize>) -> (r: Result<
    usize,
    AppError,
>)
    ensures
        match components {
            None => r matches Err(AppError::InvalidPath(m)) && m@ == "备份文件路径无效"@,
            Some(c) => match restore_slot_spec(crate::commands::component_views(c@)) {
                None => r matches Err(AppError::InvalidPath(m)) && m@ == "备份包含不允许恢复的文件"@,
                Some(k) => if taken@.contains(k) {
                    r matches Err(AppError::InvalidPath(m)) && m@ == "备份包含重复文件"@
                } else {
                    r == Ok::<usize, AppError>(k)
                },
            },
        },
{
    let c = match components {
        None => {
            return Err(AppError::InvalidPath(crate::text::string_from_str("备份文件路径无效")));
        },
        Some(c) => c,
    };
    let k: usize = if is_path_of(c, "local", "settings.cfg") {
        0
    } else if is_path_of(c, "profile", "profile.cfg") {
        1
    } else {
        return Err(
            AppError::InvalidPath(crate::text::string_from_str("备份包含不允许恢复的文件")),
        );
    };
    if holds(taken, k) {
        return Err(AppError::InvalidPath(crate::text::string_from_str("备份包含重复文件")));
    }
    Ok(k)
}

/// A restored file must hash to the digest its backup recorded; else the
/// restore stops, naming the file's recorded path.
pub fn check_restored_digest(bytes: &[u8], expected: &str, relative_path: &str) -> (r: Result<
    (),
    AppError,
>)
    ensures
        hex_spec(sha256(bytes@)) == expected@ ==> r is Ok,
        hex_spec(sha256(bytes@)) != expected@ ==> (r matches Err(AppError::Other(m)) && m@
            == "备份文件校验失败："@ + relative_path@),
{
    let h = hash_bytes(bytes);
    let hc = chars_of(h.as_str());
    let ec = chars_of(expected);
    if crate::text::seq_eq(&hc, &ec) {
        Ok(())
    } else {
        Err(AppError::Other(crate::text::join_str("备份文件校验失败：", relative_path)))
    }
}

/// The config files (0: settings, 1: profile) that a restore removes:
/// those the backup does not hold, settings first.
pub open spec fn clear_spec(taken: Seq<usize>) -> Seq<usize> {
    (if taken.contains(0usize) { Seq::empty() } else { seq![0usize] }) + (if taken.contains(
        1usize,
    ) {
        Seq::empty()
    } else {
        seq![1usize]
    })
}

/// Whether `k` is among `taken`.
fn holds(taken: &Vec<usize>, k: usize) -> (b: bool)
    ensures
        b == taken@.contains(k),
{
    let mut i: usize = 0;
    while i < taken.len()
        invariant
            i <= taken@.len(),
            forall|j: int| 0 <= j < i ==> taken@[j] != k,
        decreases taken.len() - i,
    {
        if taken[i] == k {
            assert(taken@[i as int] == k);
            return true;
        }
        i = i + 1;
    }
    false
}

/// The config files that a restore removes, given those it rewrites.
pub fn slots_to_clear(taken: &Vec<usize>) -> (r: Vec<usize>)
    ensures
        r@ == clear_spec(taken@),
{
    let mut out: Vec<usize> = Vec::new();
    if !holds(taken, 0) {
        out.push(0);
    }
    if !holds(taken, 1) {
        out.push(1);
    }
    assert(out@ =~= clear_spec(taken@));
    out
}

/// A restore rewrites or removes each config file exactly once: the files
/// the backup restores (each config file at most once, as `restore_slot`
/// keeps them) and the files removed are, together, the two config files,
/// neither listed twice.
pub proof fn law_restore_touches_each_file_once(taken: Seq<usize>)
    requires
        forall|j: int| 0 <= j < taken.len() ==> #[trigger] taken[j] < 2,
        forall|i: int, j: int| 0 <= i < j < taken.len() ==> taken[i] != taken[j],
    ensures
        forall|k: usize| k < 2 ==> (taken.contains(k) <==> !clear_spec(taken).contains(k)),
        forall|j: int| 0 <= j < clear_spec(taken).len() ==> #[trigger] clear_spec(taken)[j] < 2,
        forall|i: int, j: int|
            0 <= i < j < clear_spec(taken).len() ==> clear_spec(taken)[i] != clear_spec(taken)[j],
{
    let c = clear_spec(taken);
    assert forall|k: usize| k < 2 implies (taken.contains(k) <==> !c.contains(k)) by {
        if c.contains(k) {
            let j = choose|j: int| 0 <= j < c.len() && c[j] == k;
            if k == 0 {
                assert(!taken.contains(0usize));
            } else {
                assert(!taken.contains(1usize));
            }
        } else {
            if k == 0 && !taken.contains(0usize) {
                assert(c[0] == 0usize);
            }
            if k == 1 && !taken.contains(1usize) {
                assert(c[c.len() - 1] == 1usize);
            }
        }
    }
}

} // verus!
