//! The community dashboard: launcher metadata, announcements, rules and
//! patch archives.

use crate::error::AppError;
use crate::text::{chars_of, concat, eq_ic, eq_ignore_case, seq_eq, string_of};
use vstd::prelude::*;

verus! {

pub const DEFAULT_DASHBOARD_API_URL: &'static str = "https://r5.sleep0.de/api/v1/r5/launcher/config";

/// The dashboard's configuration.
#[derive(Debug, Clone, Default)]
pub struct DashboardConfig {
    pub offline_package_url: String,
    pub docs_url: String,
    pub launcher_version: String,
    pub launcher_update_url: String,
    pub force_update: bool,
    pub game_version: String,
    pub patches: Vec<PatchEntry>,
    pub announcement: Announcement,
    pub rules: Vec<RuleEntry>,
}

/// A patch archive from one game version to the next.
#[derive(Debug, Clone, Default)]
pub struct PatchEntry {
    pub from_version: String,
    pub to_version: String,
    pub url: String,
    /// The archive's size in bytes; zero when not given.
    pub size: u64,
    /// The archive's SHA-256 in hex; empty when not given.
    pub checksum: String,
}

#[derive(Debug, Clone, Default)]
pub struct Announcement {
    pub title: String,
    pub content: String,
}

#[derive(Debug, Clone, Default)]
pub struct RuleEntry {
    pub icon: String,
    pub text: String,
}

/// Refuse an empty dashboard address.
pub fn check_dashboard_url(url: &str) -> (r: Result<(), AppError>)
    ensures
        url@.len() == 0 ==> (r matches Err(AppError::Settings(m)) && m@ == "尚未配置数据面板 API 地址"@),
        url@.len() > 0 ==> r is Ok,
{
    if url.unicode_len() == 0 {
        Err(AppError::settings("尚未配置数据面板 API 地址"))
    } else {
        Ok(())
    }
}

/// The configuration inside the dashboard's `{code, data, msg}` reply:
/// `code` must be `0000` and `data` present.
pub fn unwrap_envelope(code: &str, msg: &str, data: Option<DashboardConfig>) -> (r: Result<DashboardConfig, AppError>)
    ensures
        code@ != "0000"@ ==> (r matches Err(AppError::Http(m)) && m@ == "数据面板错误 code="@ + code@ + " msg="@ + msg@),
        code@ == "0000"@ && data is None ==> (r matches Err(AppError::Http(m)) && m@ == "数据面板响应缺少 data 字段"@),
        code@ == "0000"@ && data is Some ==> r == Ok::<DashboardConfig, AppError>(data->0),
{
    let c = chars_of(code);
    let ok = chars_of("0000");
    if !seq_eq(&c, &ok) {
        let a = chars_of("数据面板错误 code=");
        let b = chars_of(" msg=");
        let m = chars_of(msg);
        let ac = concat(&a, &c);
        let acb = concat(&ac, &b);
        let all = concat(&acb, &m);
        return Err(AppError::Http(string_of(&all)));
    }
    match data {
        Some(d) => Ok(d),
        None => Err(AppError::http("数据面板响应缺少 data 字段")),
    }
}

/// A patch only applies between two known, different versions.
pub fn patch_wanted(from_version: &str, to_version: &str) -> (r: bool)
    ensures
        r == (from_version@.len() > 0 && to_version@.len() > 0 && from_version@ != to_version@),
{
    let f = chars_of(from_version);
    let t = chars_of(to_version);
    f.len() > 0 && t.len() > 0 && !seq_eq(&f, &t)
}

/// Whether `p` is the patch from `from` to `to`, with an address.
pub open spec fn patch_fits(p: PatchEntry, from: Seq<char>, to: Seq<char>) -> bool {
    p.from_version@ == from && p.to_version@ == to && p.url@.len() > 0
}

/// The first patch from `from` to `to` that has an address.
pub open spec fn find_patch_spec(ps: Seq<PatchEntry>, from: Seq<char>, to: Seq<char>) -> Option<int>
    decreases ps.len(),
{
    if ps.len() == 0 {
        None
    } else {
        match find_patch_spec(ps.drop_last(), from, to) {
            Some(i) => Some(i),
            None => if patch_fits(ps.last(), from, to) {
                Some(ps.len() - 1)
            } else {
                None
            },
        }
    }
}

proof fn lemma_find_patch_prefix(ps: Seq<PatchEntry>, from: Seq<char>, to: Seq<char>, n: int)
    requires
        0 <= n <= ps.len(),
        find_patch_spec(ps.take(n), from, to) is Some,
    ensures
        find_patch_spec(ps, from, to) == find_patch_spec(ps.take(n), from, to),
    decreases ps.len() - n,
{
    if n < ps.len() {
        assert(ps.take(n + 1).drop_last() =~= ps.take(n));
        lemma_find_patch_prefix(ps, from, to, n + 1);
    } else {
        assert(ps.take(n) =~= ps);
    }
}

/// The position of the single-hop patch from `from_version` to
/// `to_version`.
pub fn find_patch(patches: &Vec<PatchEntry>, from_version: &str, to_version: &str) -> (r: Option<usize>)
    ensures
        match r {
            Some(i) => find_patch_spec(patches@, from_version@, to_version@) == Some(i as int) && i < patches@.len(),
            None => find_patch_spec(patches@, from_version@, to_version@) is None,
        },
{
    let f = chars_of(from_version);
    let t = chars_of(to_version);
    let mut i: usize = 0;
    assert(patches@.take(0) =~= Seq::<PatchEntry>::empty());
    while i < patches.len()
        invariant
            i <= patches@.len(),
            f@ == from_version@,
            t@ == to_version@,
            find_patch_spec(patches@.take(i as int), from_version@, to_version@) is None,
        decreases patches.len() - i,
    {
        assert(patches@.take(i + 1).drop_last() =~= patches@.take(i as int));
        let p = &patches[i];
        let pf = chars_of(p.from_version.as_str());
        let pt = chars_of(p.to_version.as_str());
        if seq_eq(&pf, &f) && seq_eq(&pt, &t) && p.url.as_str().unicode_len() > 0 {
            proof {
                lemma_find_patch_prefix(patches@, from_version@, to_version@, i + 1);
            }
            return Some(i);
        }
        i = i + 1;
    }
    assert(patches@.take(patches@.len() as int) =~= patches@);
    None
}

/// Whether applying a patch went ahead, or the full check must run instead.
#[derive(Debug, Clone, Copy, PartialEq, Eq, Structural)]
pub enum PatchOutcome {
    Applied,
    NotApplicable,
}

/// A downloaded patch archive matches the size its entry gives, if any.
pub fn check_patch_size(patch: &PatchEntry, actual_size: u64) -> (r: Result<(), AppError>)
    ensures
        patch.size > 0 && actual_size != patch.size ==> (r matches Err(
            AppError::Verification { path, expected, actual },
        ) && path@ == patch.url@ && expected@ == crate::text::decimal(patch.size as nat) && actual@
            == crate::text::decimal(actual_size as nat)),
        !(patch.size > 0 && actual_size != patch.size) ==> r is Ok,
{
    if patch.size > 0 && actual_size != patch.size {
        let e = crate::text::decimal_of(patch.size);
        let a = crate::text::decimal_of(actual_size);
        return Err(AppError::Verification {
            path: patch.url.clone(),
            expected: string_of(&e),
            actual: string_of(&a),
        });
    }
    Ok(())
}

/// A downloaded patch archive has the digest its entry gives, if any
/// (hex compared ignoring ASCII case).
pub fn check_patch_digest(patch: &PatchEntry, actual: String) -> (r: Result<(), AppError>)
    ensures
        patch.checksum@.len() > 0 && !eq_ic(actual@, patch.checksum@) ==> (r matches Err(
            AppError::Verification { path, expected, actual: got },
        ) && path@ == patch.url@ && expected@ == patch.checksum@ && got@ == actual@),
        !(patch.checksum@.len() > 0 && !eq_ic(actual@, patch.checksum@)) ==> r is Ok,
{
    let a = chars_of(actual.as_str());
    let c = chars_of(patch.checksum.as_str());
    if c.len() > 0 && !eq_ignore_case(&a, &c) {
        return Err(AppError::Verification {
            path: patch.url.clone(),
            expected: patch.checksum.clone(),
            actual,
        });
    }
    Ok(())
}

} // verus!
