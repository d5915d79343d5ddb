//! The decisions of an install, update or repair run.  The application
//! performs the network and disk work between them.

use crate::config::local_version::{community_version_spec, normalize_community_version, opt_view};
use crate::config::settings::{PerChannelState, UpdateStrategy, OFFICIAL_DOMAIN};
use crate::error::AppError;
use crate::text::{chars_of, concat, eq_ic, eq_ignore_case, seq_eq, string_of, trim, trim_ws};
use vstd::prelude::*;

verus! {

/// What a run does.
#[derive(Debug, Clone, Copy, PartialEq, Eq, Structural)]
pub enum InstallMode {
    /// Fresh install: write anything missing or wrong.
    Install,
    /// Only fetch what changed; nothing when the version is current.
    Update,
    /// As `Update`, but always checks every file.
    Repair,
}

/// At most this many files are hashed at once.
pub const MAX_SCAN_CONCURRENCY: u32 = 8;

/// Where a run reads metadata from: the mirror when one is configured
/// (trimmed), else the official CDN; and whether a mirror is configured.
pub fn metadata_domain(mirror_domain: &str) -> (r: (bool, String))
    ensures
        r.0 == (trim(mirror_domain@).len() > 0),
        r.0 ==> r.1@ == trim(mirror_domain@),
        !r.0 ==> r.1@ == OFFICIAL_DOMAIN@,
{
    let m = chars_of(mirror_domain);
    let t = trim_ws(&m);
    if t.len() > 0 {
        (true, string_of(&t))
    } else {
        (false, crate::text::string_from_str(OFFICIAL_DOMAIN))
    }
}

/// An update needs the channel to allow updates.
pub fn check_update_allowed(mode: InstallMode, allow_updates: bool, channel_name: &str) -> (r: Result<(), AppError>)
    ensures
        mode == InstallMode::Update && !allow_updates ==> (r matches Err(AppError::Manifest(m)) && m@
            == "官方配置当前不允许更新频道 "@ + channel_name@),
        !(mode == InstallMode::Update && !allow_updates) ==> r is Ok,
{
    if mode == InstallMode::Update && !allow_updates {
        let a = chars_of("官方配置当前不允许更新频道 ");
        let b = chars_of(channel_name);
        let m = concat(&a, &b);
        return Err(AppError::Manifest(string_of(&m)));
    }
    Ok(())
}

/// Whether a run is an update by patch archive.
pub fn is_patch_update(mode: InstallMode, strategy: UpdateStrategy) -> (r: bool)
    ensures
        r == (mode == InstallMode::Update && strategy == UpdateStrategy::Patch),
{
    mode == InstallMode::Update && strategy == UpdateStrategy::Patch
}

/// The community version the dashboard gives must not be blank.
pub fn check_community_version(version: String) -> (r: Result<String, AppError>)
    ensures
        trim(version@).len() == 0 ==> (r matches Err(AppError::Manifest(m)) && m@ == "社区服版本号为空"@),
        trim(version@).len() > 0 ==> (r matches Ok(v) && v@ == version@),
{
    let c = chars_of(version.as_str());
    let t = trim_ws(&c);
    if t.len() == 0 {
        return Err(AppError::Manifest(crate::text::string_from_str("社区服版本号为空")));
    }
    Ok(version)
}

/// The version a run installs: none when the manifest has none; for a patch
/// update the community version in the manifest's shape (the manifest's own
/// when that shape is empty), which must equal the manifest's.
pub open spec fn remote_version_spec(manifest_version: Seq<char>, patch: bool, community: Option<Seq<char>>) -> Result<Option<Seq<char>>, Seq<char>> {
    if manifest_version.len() == 0 {
        Ok(None)
    } else if patch {
        let rv = match community {
            Some(c) => match community_version_spec(c, manifest_version) {
                Some(v) => v,
                None => manifest_version,
            },
            None => manifest_version,
        };
        if rv != manifest_version {
            Err("社区版本 "@ + rv + " 与 checksums.json 版本 "@ + manifest_version + " 不一致，请先同步目标清单"@)
        } else {
            Ok(Some(rv))
        }
    } else {
        Ok(Some(manifest_version))
    }
}

pub fn remote_version(manifest_version: &str, patch: bool, community: Option<&str>) -> (r: Result<Option<String>, AppError>)
    ensures
        match remote_version_spec(manifest_version@, patch, match community {
            Some(c) => Some(c@),
            None => None,
        }) {
            Ok(v) => r matches Ok(o) && opt_view(o) == v,
            Err(m) => r matches Err(AppError::Manifest(t)) && t@ == m,
        },
{
    let mv = chars_of(manifest_version);
    if mv.len() == 0 {
        return Ok(None);
    }
    if !patch {
        return Ok(Some(string_of(&mv)));
    }
    let rv = match community {
        Some(c) => match normalize_community_version(c, manifest_version) {
            Some(v) => v,
            None => string_of(&mv),
        },
        None => string_of(&mv),
    };
    let rc = chars_of(rv.as_str());
    if !seq_eq(&rc, &mv) {
        let a = chars_of("社区版本 ");
        let b = chars_of(" 与 checksums.json 版本 ");
        let c = chars_of(" 不一致，请先同步目标清单");
        let mut m = concat(&a, &rc);
        m = concat(&m, &b);
        m = concat(&m, &mv);
        m = concat(&m, &c);
        return Err(AppError::Manifest(string_of(&m)));
    }
    Ok(Some(rv))
}

/// What an update does once the local version is known.
#[derive(Debug, Clone, Copy, PartialEq, Eq, Structural)]
pub enum UpdateStep {
    /// The local version is the remote one: nothing to do.
    UpToDate,
    /// Try a patch archive from the local version first.
    TryPatch,
    /// Check every file.
    FullCheck,
}

/// The next step of an update: done when the installed version is known
/// and is the remote one; a patch attempt for patch updates from a known
/// version; else a full check.
pub open spec fn update_step_spec(remote: Option<Seq<char>>, local: Seq<char>, patch: bool) -> UpdateStep {
    match remote {
        None => UpdateStep::FullCheck,
        Some(rv) => if local.len() > 0 && local == rv {
            UpdateStep::UpToDate
        } else if patch && local.len() > 0 {
            UpdateStep::TryPatch
        } else {
            UpdateStep::FullCheck
        },
    }
}

pub fn update_step(remote: Option<&str>, local: &str, patch: bool) -> (r: UpdateStep)
    ensures
        r == update_step_spec(match remote {
            Some(v) => Some(v@),
            None => None,
        }, local@, patch),
{
    match remote {
        None => UpdateStep::FullCheck,
        Some(rv) => {
            let l = chars_of(local);
            let r = chars_of(rv);
            if l.len() > 0 && seq_eq(&l, &r) {
                UpdateStep::UpToDate
            } else if patch && l.len() > 0 {
                UpdateStep::TryPatch
            } else {
                UpdateStep::FullCheck
            }
        },
    }
}

/// The installed version: what the game's build file says, else the saved
/// one.
pub fn local_version_choice(from_build: Option<String>, saved: String) -> (r: String)
    ensures
        r@ == match from_build {
            Some(v) => v@,
            None => saved@,
        },
{
    match from_build {
        Some(v) => v,
        None => saved,
    }
}

/// How many files are hashed at once.
pub fn scan_concurrency(concurrent_downloads: u32) -> (r: u32)
    ensures
        r == if concurrent_downloads < MAX_SCAN_CONCURRENCY {
            concurrent_downloads
        } else {
            MAX_SCAN_CONCURRENCY
        },
{
    if concurrent_downloads < MAX_SCAN_CONCURRENCY {
        concurrent_downloads
    } else {
        MAX_SCAN_CONCURRENCY
    }
}

/// The domain game files come from, as the dashboard gives it: trimmed,
/// and never blank.
pub fn download_domain(domain: &str) -> (r: Result<String, AppError>)
    ensures
        trim(domain@).len() == 0 ==> (r matches Err(AppError::Http(m)) && m@ == "数据面板响应中的 download_domain 为空"@),
        trim(domain@).len() > 0 ==> (r matches Ok(d) && d@ == trim(domain@)),
{
    let c = chars_of(domain);
    let t = trim_ws(&c);
    if t.len() == 0 {
        return Err(AppError::http("数据面板响应中的 download_domain 为空"));
    }
    Ok(string_of(&t))
}

/// A downloaded file must have the checksum its manifest entry gives, if
/// any (hex compared ignoring ASCII case).
pub fn check_file_digest(path: &str, checksum: &str, actual: String) -> (r: Result<(), AppError>)
    ensures
        checksum@.len() > 0 && !eq_ic(actual@, checksum@) ==> (r matches Err(
            AppError::Verification { path: p, expected, actual: got },
        ) && p@ == path@ && expected@ == checksum@ && got@ == actual@),
        !(checksum@.len() > 0 && !eq_ic(actual@, checksum@)) ==> r is Ok,
{
    let c = chars_of(checksum);
    let a = chars_of(actual.as_str());
    if c.len() > 0 && !eq_ignore_case(&a, &c) {
        return Err(AppError::Verification {
            path: crate::text::string_from_str(path),
            expected: string_of(&c),
            actual,
        });
    }
    Ok(())
}

/// A channel's record after a completed run: installed, at the remote
/// version when one is known.
pub fn record_install(state: PerChannelState, remote_version: Option<String>) -> (r: PerChannelState)
    ensures
        r.installed,
        r.version@ == match remote_version {
            Some(v) => v@,
            None => state.version@,
        },
        r.key == state.key,
        r.installed_languages == state.installed_languages,
{
    let mut s = state;
    match remote_version {
        Some(v) => {
            s.version = v;
        },
        None => {},
    }
    s.installed = true;
    s
}

/// What the download loop does when a task ends.
#[derive(Debug, Clone, Copy, PartialEq, Eq, Structural)]
pub enum TaskEnd {
    /// Start the next file, if any is left.
    StartNext,
    /// Nothing: the run is winding down.
    Idle,
    /// Keep this error as the run's failure and cancel the others.
    FailRun,
}

/// The loop's response to a task that ended (`ok`, or `cancelled`, or with
/// another error), given whether the run is cancelled and already failed.
pub fn after_task(ok: bool, cancelled_error: bool, run_cancelled: bool, failed: bool) -> (r: TaskEnd)
    ensures
        ok ==> r == (if !run_cancelled && !failed {
            TaskEnd::StartNext
        } else {
            TaskEnd::Idle
        }),
        !ok && cancelled_error ==> r == TaskEnd::Idle,
        !ok && !cancelled_error ==> r == (if !failed {
            TaskEnd::FailRun
        } else {
            TaskEnd::Idle
        }),
{
    if ok {
        if !run_cancelled && !failed {
            TaskEnd::StartNext
        } else {
            TaskEnd::Idle
        }
    } else if cancelled_error {
        TaskEnd::Idle
    } else if !failed {
        TaskEnd::FailRun
    } else {
        TaskEnd::Idle
    }
}

/// An update stops as up to date exactly when the remote version is known
/// and the installed version is known and equal to it, whatever the update
/// strategy; a patch is tried only by the patch strategy, from a known
/// installed version that differs from a known remote one; every other
/// case checks every file.
pub proof fn law_update_step(remote: Option<Seq<char>>, local: Seq<char>, patch: bool)
    ensures
        (remote matches Some(rv) && local.len() > 0 && local == rv) ==> update_step_spec(
            remote,
            local,
            patch,
        ) is UpToDate,
        update_step_spec(remote, local, patch) is UpToDate ==> (remote matches Some(rv) && local.len()
            > 0 && local == rv),
        (update_step_spec(remote, local, true) is UpToDate) == (update_step_spec(
            remote,
            local,
            false,
        ) is UpToDate),
        update_step_spec(remote, local, patch) is TryPatch <==> patch && local.len() > 0 && (
        remote matches Some(rv) && local != rv),
        remote is None ==> update_step_spec(remote, local, patch) is FullCheck,
{
}

/// The version a run records is always the manifest's own: a manifest
/// without a version records none; otherwise, when the run goes on, it is
/// the manifest's version, and a full (not patch) run always goes on.
pub proof fn law_remote_version_is_the_manifests(
    manifest_version: Seq<char>,
    patch: bool,
    community: Option<Seq<char>>,
)
    ensures
        manifest_version.len() == 0 ==> remote_version_spec(manifest_version, patch, community)
            == Ok::<Option<Seq<char>>, Seq<char>>(None),
        manifest_version.len() > 0 && remote_version_spec(manifest_version, patch, community) is Ok
            ==> remote_version_spec(manifest_version, patch, community)->Ok_0 == Some(
            manifest_version,
        ),
        manifest_version.len() > 0 && !patch ==> remote_version_spec(manifest_version, patch, community)
            == Ok::<Option<Seq<char>>, Seq<char>>(Some(manifest_version)),
        community is None ==> remote_version_spec(manifest_version, patch, community) is Ok,
{
}

} // verus!
