//! What the UI's commands decide and report, apart from the work they
//! hand to the system.

use crate::config::settings::OFFICIAL_DOMAIN;
use crate::error::AppError;
use crate::text::{
    chars_of, concat, contains, contains_seq, eq_ic, eq_ignore_case, eq_pred, lower_seq, seq_eq,
    starts_with, starts_with_seq, string_of, to_ascii_lower, trim, trim_end_by, trim_end_in,
    trim_ws,
};
use vstd::prelude::*;

verus! {

/// The result of adopting an install found on this machine.
#[derive(Debug, Clone)]
pub struct AdoptResult {
    pub adopted: bool,
    pub channel_dir: Option<String>,
    pub library_root: Option<String>,
}

/// Whether an update is available.
#[derive(Debug, Clone)]
pub struct UpdateStatus {
    pub has_update: bool,
    pub local_version: Option<String>,
    pub remote_version: String,
}

/// The result of a TCP connect to a game server.
#[derive(Debug, Clone)]
pub struct PingResult {
    pub ok: bool,
    pub latency_ms: Option<u64>,
    pub error: Option<String>,
}

/// The result of a request through the configured proxy.
#[derive(Debug, Clone)]
pub struct ProxyTestResult {
    pub ok: bool,
    pub status: Option<u16>,
    pub latency_ms: u64,
    pub error: Option<String>,
}

/// What is wrong or risky about an install location.
#[derive(Debug, Clone)]
pub struct PathValidation {
    pub ok: bool,
    pub normalized: String,
    pub errors: Vec<String>,
    pub warnings: Vec<String>,
}

/// The launcher's version.
#[derive(Debug, Clone)]
pub struct VersionInfo {
    pub current: String,
}

pub open spec fn is_ascii_seq(s: Seq<char>) -> bool {
    forall|i: int| 0 <= i < s.len() ==> (#[trigger] s[i]) as u32 <= 0x7f
}

pub open spec fn empty_path_text() -> Seq<char> {
    "路径不能为空"@
}

pub open spec fn non_ascii_text() -> Seq<char> {
    "路径不能包含中文或非 ASCII 字符（游戏会拒绝从这种路径启动）"@
}

pub open spec fn program_files_text() -> Seq<char> {
    "安装在 C 盘 Program Files 下需要管理员权限，建议改用其他位置"@
}

/// Whether a path is under the system `Program Files` (on drive C).
pub open spec fn in_system_program_files(path: Seq<char>) -> bool {
    let lower = lower_seq(path);
    (starts_with(lower, "c:\\"@) || starts_with(lower, "c:/"@)) && (contains_seq(
        lower,
        "\\program files"@,
    ) || contains_seq(lower, "/program files"@))
}

/// The problems of an install location: errors (blank; not ASCII, which
/// the game refuses to start from) and warnings (under the system Program
/// Files, which needs administrator rights).
pub fn install_path_problems(path: &str) -> (r: (Vec<String>, Vec<String>))
    ensures
        r.0@.len() == (if trim(path@).len() == 0 { 1int } else { 0int }) + (if !is_ascii_seq(path@) { 1int } else { 0int }),
        trim(path@).len() == 0 ==> r.0@[0]@ == empty_path_text(),
        !is_ascii_seq(path@) ==> r.0@[r.0@.len() - 1]@ == non_ascii_text(),
        r.1@.len() == (if in_system_program_files(path@) { 1int } else { 0int }),
        in_system_program_files(path@) ==> r.1@[0]@ == program_files_text(),
{
    let mut errors: Vec<String> = Vec::new();
    let mut warnings: Vec<String> = Vec::new();
    let c = chars_of(path);
    let t = trim_ws(&c);
    if t.len() == 0 {
        errors.push(crate::text::string_from_str("路径不能为空"));
    }
    let mut ascii = true;
    let mut i: usize = 0;
    while i < c.len()
        invariant
            i <= c@.len(),
            ascii == forall|j: int| 0 <= j < i ==> (#[trigger] c@[j]) as u32 <= 0x7f,
        decreases c.len() - i,
    {
        if (c[i] as u32) > 0x7f {
            ascii = false;
        }
        i = i + 1;
    }
    if !ascii {
        errors.push(crate::text::string_from_str("路径不能包含中文或非 ASCII 字符（游戏会拒绝从这种路径启动）"));
    }
    let lower = to_ascii_lower(&c);
    let c1 = chars_of("c:\\");
    let c2 = chars_of("c:/");
    let p1 = chars_of("\\program files");
    let p2 = chars_of("/program files");
    if (starts_with_seq(&lower, &c1) || starts_with_seq(&lower, &c2)) && (contains(&lower, &p1)
        || contains(&lower, &p2)) {
        warnings.push(crate::text::string_from_str("安装在 C 盘 Program Files 下需要管理员权限，建议改用其他位置"));
    }
    (errors, warnings)
}

/// The check of an install location: `resolved` is its canonical form,
/// when it has no errors, exists and resolves.
pub fn validate_install_path(
    path: String,
    errors: Vec<String>,
    warnings: Vec<String>,
    resolved: Option<String>,
) -> (v: PathValidation)
    ensures
        v.ok == (errors@.len() == 0),
        v.normalized@ == match resolved {
            Some(r) => if errors@.len() == 0 {
                r@
            } else {
                path@
            },
            None => path@,
        },
        v.errors == errors,
        v.warnings == warnings,
{
    let ok = errors.len() == 0;
    let normalized = match resolved {
        Some(r) => if ok {
            r
        } else {
            path
        },
        None => path,
    };
    PathValidation { ok, normalized, errors, warnings }
}

/// Whether an update is available: always when no version is recorded.
pub fn update_status(saved_version: Option<String>, remote_version: String) -> (s: UpdateStatus)
    ensures
        s.remote_version == remote_version,
        match saved_version {
            Some(v) => if v@.len() > 0 {
                s.local_version == Some(v) && s.has_update == (v@ != remote_version@)
            } else {
                s.local_version is None && s.has_update
            },
            None => s.local_version is None && s.has_update,
        },
{
    let local = match saved_version {
        Some(v) => if v.as_str().unicode_len() > 0 {
            Some(v)
        } else {
            None
        },
        None => None,
    };
    let has_update = match &local {
        Some(lv) => {
            let a = chars_of(lv.as_str());
            let b = chars_of(remote_version.as_str());
            !seq_eq(&a, &b)
        },
        None => true,
    };
    UpdateStatus { has_update, local_version: local, remote_version }
}

/// The domain a proxy test reaches: the one being typed, else the saved
/// mirror, else the official CDN (each trimmed, blanks skipped).
pub open spec fn probe_domain_spec(typed: Option<Seq<char>>, saved: Seq<char>) -> Seq<char> {
    match typed {
        Some(t) if trim(t).len() > 0 => trim(t),
        _ => if trim(saved).len() > 0 {
            trim(saved)
        } else {
            OFFICIAL_DOMAIN@
        },
    }
}

/// The URL a proxy test requests.
pub fn probe_url(typed: Option<&str>, saved: &str) -> (u: String)
    ensures
        u@ == "https://"@ + trim_end_by(probe_domain_spec(match typed {
            Some(t) => Some(t@),
            None => None,
        }, saved@), eq_pred('/')) + "/launcher/live_game/checksums.json"@,
{
    let typed_trim = match typed {
        Some(t) => {
            let c = chars_of(t);
            trim_ws(&c)
        },
        None => Vec::new(),
    };
    let saved_c = chars_of(saved);
    let saved_trim = trim_ws(&saved_c);
    let domain = if typed.is_some() && typed_trim.len() > 0 {
        typed_trim
    } else if saved_trim.len() > 0 {
        saved_trim
    } else {
        chars_of(OFFICIAL_DOMAIN)
    };
    let slash = vec!['/'];
    assert(crate::text::in_set(slash@) =~= eq_pred('/')) by {
        assert(slash@ =~= seq!['/']);
        assert forall|c: char| #[trigger] crate::text::in_set(slash@)(c) == eq_pred('/')(c) by {
            if c == '/' {
                assert(slash@[0] == c);
            }
        }
    }
    let d = trim_end_in(&domain, &slash);
    let head = chars_of("https://");
    let tail = chars_of("/launcher/live_game/checksums.json");
    let hd = concat(&head, &d);
    let all = concat(&hd, &tail);
    string_of(&all)
}

/// A ping needs a host and a port.
pub fn ping_target_ok(host: &str, port: u16) -> (r: bool)
    ensures
        r == (trim(host@).len() > 0 && port != 0),
{
    let c = chars_of(host);
    let t = trim_ws(&c);
    t.len() > 0 && port != 0
}

/// Where `R5R Library` stands among a detected path's components: the last
/// component that is `R5R Library` (ignoring ASCII case), provided a channel
/// folder follows it and something precedes it; with that channel's name.
pub open spec fn library_split_spec(components: Seq<Seq<char>>) -> Option<(int, Seq<char>)>
    decreases components.len(),
{
    if components.len() == 0 {
        None
    } else {
        let i = components.len() - 1;
        if eq_ic(components[i], "R5R Library"@) {
            None
        } else {
            library_split_from(components, i - 1)
        }
    }
}

/// The search from position `i` down.
pub open spec fn library_split_from(components: Seq<Seq<char>>, i: int) -> Option<(int, Seq<char>)>
    decreases i + 1,
{
    if i < 0 {
        None
    } else if eq_ic(components[i], "R5R Library"@) {
        if i + 1 < components.len() && i > 0 {
            Some((i, components[i + 1]))
        } else {
            None
        }
    } else {
        library_split_from(components, i - 1)
    }
}

pub open spec fn component_views(v: Seq<String>) -> Seq<Seq<char>> {
    v.map_values(|x: String| x@)
}

/// The library root's components (those before `R5R Library`) and the
/// channel of a detected channel folder, given its path's components.
pub fn derive_library_root(components: &Vec<String>) -> (r: Option<(usize, String)>)
    ensures
        match library_split_spec(component_views(components@)) {
            Some((i, ch)) => r matches Some((j, c)) && j == i && c@ == ch,
            None => r is None,
        },
{
    let n = components.len();
    if n == 0 {
        return None;
    }
    let lib = chars_of("R5R Library");
    let last = chars_of(components[n - 1].as_str());
    if eq_ignore_case(&last, &lib) {
        return None;
    }
    let ghost cv = component_views(components@);
    let mut i: usize = n - 1;
    while i > 0
        invariant
            0 <= i < n,
            n == components@.len(),
            cv == component_views(components@),
            lib@ == "R5R Library"@,
            library_split_spec(cv) == library_split_from(cv, i - 1),
        decreases i,
    {
        let k = i - 1;
        let c = chars_of(components[k].as_str());
        assert(cv[k as int] == c@);
        if eq_ignore_case(&c, &lib) {
            if k + 1 < n && k > 0 {
                return Some((k, components[k + 1].clone()));
            } else {
                return None;
            }
        }
        i = k;
    }
    None
}

} // verus!
