//! Workaround for the `LeaveMatch` matchmaking bug of one game release:
//! the menu script's `ClientCommand( "LeaveMatch" )` call is swapped for
//! `ClientCommand( "disconnect" )`, and can be swapped back.

use crate::error::AppError;
use crate::text::{
    chars_of, concat, contains_seq, lemma_count_matches_step, lemma_count_none,
    lemma_count_pos_first, lemma_count_skip_to, lemma_count_zero_no_match, lemma_replace_first_at, count_matches, count_occurrences, decimal, decimal_of,
    eq_ic, eq_ignore_case, in_set, lower_seq, matches_at, one_char, replace_first,
    replace_first_seq, slice_of, string_from_str, string_of, to_ascii_lower, trim,
    trim_start_by, trim_start_in, trim_ws,
};
use vstd::prelude::*;

verus! {

pub const AFFECTED_GAME_VERSION: &'static str = "2.6.51-live";

pub const SCRIPT_RELATIVE_PATH: &'static str = "platform/scripts/vscripts/ui/menu_matchmaking_utility.nut";

pub const BACKUP_EXTENSION: &'static str = "nut.r5r-cn-launcher.bak";

/// Where the script stands.
#[derive(Debug, Clone, Copy, PartialEq, Eq)]
pub enum MatchmakingFixState {
    NotApplicable,
    Unfixed,
    Fixed,
    FileMissing,
    UnexpectedContent,
}

/// What the UI shows about the fix.
#[derive(Debug, Clone)]
pub struct MatchmakingFixStatus {
    pub state: MatchmakingFixState,
    pub game_version: Option<String>,
    pub affected_version: &'static str,
    pub file_path: Option<String>,
    pub can_fix: bool,
    pub can_restore: bool,
}

/// The call that the affected release gets wrong.
pub open spec fn leave_cmd() -> Seq<char> {
    seq![
        'C', 'l', 'i', 'e', 'n', 't', 'C', 'o', 'm', 'm', 'a', 'n', 'd', '(', ' ', '"', 'L',
        'e', 'a', 'v', 'e', 'M', 'a', 't', 'c', 'h', '"', ' ', ')',
    ]
}

/// The call that replaces it.
pub open spec fn disconnect_cmd() -> Seq<char> {
    seq![
        'C', 'l', 'i', 'e', 'n', 't', 'C', 'o', 'm', 'm', 'a', 'n', 'd', '(', ' ', '"', 'd',
        'i', 's', 'c', 'o', 'n', 'n', 'e', 'c', 't', '"', ' ', ')',
    ]
}

fn leave_chars() -> (v: Vec<char>)
    ensures
        v@ == leave_cmd(),
{
    let v = chars_of("ClientCommand( \"LeaveMatch\" )");
    proof {
        reveal_strlit("ClientCommand( \"LeaveMatch\" )");
    }
    assert(v@ =~= leave_cmd());
    v
}

fn disconnect_chars() -> (v: Vec<char>)
    ensures
        v@ == disconnect_cmd(),
{
    let v = chars_of("ClientCommand( \"disconnect\" )");
    proof {
        reveal_strlit("ClientCommand( \"disconnect\" )");
    }
    assert(v@ =~= disconnect_cmd());
    v
}

/// `"live"` for the LIVE channel under either of its names, else `"other"`.
pub open spec fn canonical_channel_spec(channel: Seq<char>) -> Seq<char> {
    if eq_ic(channel, "LIVE"@) || eq_ic(channel, "live_game"@) {
        "live"@
    } else {
        "other"@
    }
}

pub fn canonical_channel(channel: &str) -> (r: &'static str)
    ensures
        r@ == canonical_channel_spec(channel@),
{
    let c = chars_of(channel);
    let live = chars_of("LIVE");
    let live_game = chars_of("live_game");
    if eq_ignore_case(&c, &live) || eq_ignore_case(&c, &live_game) {
        "live"
    } else {
        "other"
    }
}

/// The fix applies to the LIVE channel at the affected version only.
pub open spec fn is_affected_version_spec(version: Option<Seq<char>>, channel: Seq<char>) -> bool {
    canonical_channel_spec(channel) == "live"@ && match version {
        Some(v) => eq_ic(v, "2.6.51-live"@),
        None => false,
    }
}

pub fn is_affected_version(version: Option<&str>, channel: &str) -> (b: bool)
    ensures
        b == is_affected_version_spec(
            match version {
                Some(v) => Some(v@),
                None => None,
            },
            channel@,
        ),
{
    let canon = canonical_channel(channel);
    let canon_c = chars_of(canon);
    let live = chars_of("live");
    if !crate::text::seq_eq(&canon_c, &live) {
        return false;
    }
    match version {
        Some(v) => {
            let vc = chars_of(v);
            let affected = chars_of(AFFECTED_GAME_VERSION);
            eq_ignore_case(&vc, &affected)
        },
        None => false,
    }
}

/// `prefix` followed by the rest of `s`, when `s` starts with `prefix`.
pub open spec fn strip_prefix_spec(s: Seq<char>, prefix: Seq<char>) -> Option<Seq<char>> {
    if prefix.len() <= s.len() && s.take(prefix.len() as int) == prefix {
        Some(s.skip(prefix.len() as int))
    } else {
        None
    }
}

/// The game version a `build.txt` holding `contents` stands for, in the
/// lowercase `x.y.z-channel` shape.
pub open spec fn script_build_version_spec(contents: Seq<char>, channel: Seq<char>) -> Option<
    Seq<char>,
> {
    let raw = trim_start_by(trim(contents), in_set(seq!['\u{feff}']));
    let rest = match strip_prefix_spec(raw, "R5R-v"@) {
        Some(r) => Some(r),
        None => strip_prefix_spec(raw, "r5r-v"@),
    };
    match rest {
        None => None,
        Some(r) => {
            let version = trim(r);
            if version.len() == 0 {
                None
            } else if version.contains('-') {
                Some(lower_seq(version))
            } else {
                Some(lower_seq(version) + "-"@ + canonical_channel_spec(channel))
            }
        },
    }
}

fn strip_prefix_chars(s: &[char], prefix: &[char]) -> (r: Option<Vec<char>>)
    ensures
        match strip_prefix_spec(s@, prefix@) {
            Some(x) => r matches Some(v) && v@ == x,
            None => r is None,
        },
{
    if crate::text::starts_with_seq(s, prefix) {
        let v = slice_of(s, prefix.len(), s.len());
        assert(v@ =~= s@.skip(prefix@.len() as int));
        Some(v)
    } else {
        None
    }
}

pub open spec fn opt_view(o: Option<String>) -> Option<Seq<char>> {
    match o {
        Some(s) => Some(s@),
        None => None,
    }
}

/// Version of the installed game from its `build.txt`.
pub fn parse_build_version(contents: &str, channel: &str) -> (r: Option<String>)
    ensures
        opt_view(r) == script_build_version_spec(contents@, channel@),
{
    let c = chars_of(contents);
    let t = trim_ws(&c);
    let bom = one_char('\u{feff}');
    let raw = trim_start_in(&t, &bom);
    let upper = chars_of("R5R-v");
    let lower = chars_of("r5r-v");
    let rest = match strip_prefix_chars(&raw, &upper) {
        Some(r) => r,
        None => match strip_prefix_chars(&raw, &lower) {
            Some(r) => r,
            None => {
                return None;
            },
        },
    };
    let version = trim_ws(&rest);
    if version.len() == 0 {
        return None;
    }
    let lowered = to_ascii_lower(&version);
    if crate::text::set_has(&version, '-') {
        return Some(string_of(&lowered));
    }
    let canon = chars_of(canonical_channel(channel));
    let dash = one_char('-');
    proof {
        reveal_strlit("-");
        assert(dash@ =~= "-"@);
    }
    let a = concat(&lowered, &dash);
    let b = concat(&a, &canon);
    Some(string_of(&b))
}

/// The installed version: from `build.txt` when it can be read and parsed,
/// else the version saved in the settings when that is not blank.
pub open spec fn installed_version_spec(
    build_txt: Option<Seq<char>>,
    saved: Option<Seq<char>>,
    channel: Seq<char>,
) -> Option<Seq<char>> {
    let from_build = match build_txt {
        Some(c) => script_build_version_spec(c, channel),
        None => None,
    };
    match from_build {
        Some(v) => Some(v),
        None => match saved {
            Some(s) => if trim(s).len() > 0 {
                Some(trim(s))
            } else {
                None
            },
            None => None,
        },
    }
}

pub open spec fn opt_str_view(o: Option<&str>) -> Option<Seq<char>> {
    match o {
        Some(s) => Some(s@),
        None => None,
    }
}

pub fn installed_version(build_txt: Option<&str>, saved: Option<&str>, channel: &str) -> (r: Option<
    String,
>)
    ensures
        opt_view(r) == installed_version_spec(opt_str_view(build_txt), opt_str_view(saved), channel@),
{
    if let Some(c) = build_txt {
        if let Some(v) = parse_build_version(c, channel) {
            return Some(v);
        }
    }
    match saved {
        Some(s) => {
            let sc = chars_of(s);
            let t = trim_ws(&sc);
            if t.len() > 0 {
                Some(string_of(&t))
            } else {
                None
            }
        },
        None => None,
    }
}

pub fn status(
    state: MatchmakingFixState,
    game_version: Option<String>,
    file_path: Option<String>,
    can_fix: bool,
    can_restore: bool,
) -> (s: MatchmakingFixStatus)
    ensures
        s.state == state,
        s.game_version == game_version,
        s.affected_version@ == "2.6.51-live"@,
        s.file_path == file_path,
        s.can_fix == can_fix,
        s.can_restore == can_restore,
{
    MatchmakingFixStatus {
        state,
        game_version,
        affected_version: AFFECTED_GAME_VERSION,
        file_path,
        can_fix,
        can_restore,
    }
}

/// State of the script given its contents (`None` when it cannot be read)
/// and whether this launcher's backup of it exists: the state, whether the
/// fix can be applied, and whether it can be undone.
pub open spec fn script_state_spec(contents: Option<Seq<char>>, backup_exists: bool) -> (
    MatchmakingFixState,
    bool,
    bool,
) {
    match contents {
        None => (MatchmakingFixState::FileMissing, false, false),
        Some(c) => if count_matches(c, leave_cmd()) == 1 {
            (MatchmakingFixState::Unfixed, true, false)
        } else if count_matches(c, disconnect_cmd()) == 1 {
            (MatchmakingFixState::Fixed, false, backup_exists)
        } else {
            (MatchmakingFixState::UnexpectedContent, false, false)
        },
    }
}

/// The status of a script of the affected release.
pub fn inspect_script(
    contents: Option<&str>,
    backup_exists: bool,
    game_version: Option<String>,
    file_path: Option<String>,
) -> (s: MatchmakingFixStatus)
    ensures
        (s.state, s.can_fix, s.can_restore) == script_state_spec(
            opt_str_view(contents),
            backup_exists,
        ),
        s.game_version == game_version,
        s.file_path == file_path,
        s.affected_version@ == "2.6.51-live"@,
{
    match contents {
        None => status(MatchmakingFixState::FileMissing, game_version, file_path, false, false),
        Some(text) => {
            let c = chars_of(text);
            let leave = leave_chars();
            let disc = disconnect_chars();
            if count_occurrences(&c, &leave) == 1 {
                status(MatchmakingFixState::Unfixed, game_version, file_path, true, false)
            } else if count_occurrences(&c, &disc) == 1 {
                status(MatchmakingFixState::Fixed, game_version, file_path, false, backup_exists)
            } else {
                status(
                    MatchmakingFixState::UnexpectedContent,
                    game_version,
                    file_path,
                    false,
                    false,
                )
            }
        },
    }
}

/// The patched script, when it holds exactly one `LeaveMatch` call.
pub open spec fn apply_fix_spec(s: Seq<char>) -> Option<Seq<char>> {
    if count_matches(s, leave_cmd()) == 1 {
        Some(replace_first(s, leave_cmd(), disconnect_cmd()))
    } else {
        None
    }
}

/// The restored script, when it holds exactly one `disconnect` call.
pub open spec fn restore_fix_spec(s: Seq<char>) -> Option<Seq<char>> {
    if count_matches(s, disconnect_cmd()) == 1 {
        Some(replace_first(s, disconnect_cmd(), leave_cmd()))
    } else {
        None
    }
}

/// Why the fix was refused, given how many `LeaveMatch` calls were found.
pub open spec fn apply_refusal(n: nat) -> Seq<char> {
    if n == 0 {
        "未找到需要修复的 LeaveMatch 调用，文件可能已修复或已被修改"@
    } else {
        "发现 "@ + decimal(n) + " 处 LeaveMatch 调用，为避免误改已停止修复"@
    }
}

/// Why the restore was refused, given how many `disconnect` calls were found.
pub open spec fn restore_refusal(n: nat) -> Seq<char> {
    if n == 0 {
        "当前文件中未找到本修复写入的 disconnect 调用，未执行复原"@
    } else {
        "发现 "@ + decimal(n) + " 处 disconnect 调用，为避免误改已停止复原"@
    }
}

fn refusal(n: usize, none_found: &str, before: &str, after: &str) -> (e: AppError)
    ensures
        e matches AppError::Other(m) && m@ == (if n == 0 {
            none_found@
        } else {
            before@ + decimal(n as nat) + after@
        }),
{
    if n == 0 {
        AppError::other(none_found)
    } else {
        let d = decimal_of(n as u64);
        let a = chars_of(before);
        let b = chars_of(after);
        let x = concat(&a, &d);
        let y = concat(&x, &b);
        AppError::Other(string_of(&y))
    }
}

/// Swap the script's single `LeaveMatch` call for `disconnect`.
pub fn apply_fix_content(original: &str) -> (r: Result<String, AppError>)
    ensures
        match r {
            Ok(t) => apply_fix_spec(original@) == Some(t@),
            Err(e) => apply_fix_spec(original@) is None && (e matches AppError::Other(m) && m@
                == apply_refusal(count_matches(original@, leave_cmd()))),
        },
{
    let c = chars_of(original);
    let leave = leave_chars();
    let disc = disconnect_chars();
    let n = count_occurrences(&c, &leave);
    if n != 1 {
        return Err(
            refusal(
                n,
                "未找到需要修复的 LeaveMatch 调用，文件可能已修复或已被修改",
                "发现 ",
                " 处 LeaveMatch 调用，为避免误改已停止修复",
            ),
        );
    }
    let patched = replace_first_seq(&c, &leave, &disc);
    Ok(string_of(&patched))
}

/// Swap the script's single `disconnect` call back to `LeaveMatch`,
/// leaving every other edit in place.
pub fn restore_fix_content(current: &str) -> (r: Result<String, AppError>)
    ensures
        match r {
            Ok(t) => restore_fix_spec(current@) == Some(t@),
            Err(e) => restore_fix_spec(current@) is None && (e matches AppError::Other(m) && m@
                == restore_refusal(count_matches(current@, disconnect_cmd()))),
        },
{
    let c = chars_of(current);
    let leave = leave_chars();
    let disc = disconnect_chars();
    let n = count_occurrences(&c, &disc);
    if n != 1 {
        return Err(
            refusal(
                n,
                "当前文件中未找到本修复写入的 disconnect 调用，未执行复原",
                "发现 ",
                " 处 disconnect 调用，为避免误改已停止复原",
            ),
        );
    }
    let restored = replace_first_seq(&c, &disc, &leave);
    Ok(string_of(&restored))
}

/// The only `)` of the `disconnect` call is its last character, so no
/// proper prefix of the call is also a suffix of it.
proof fn lemma_disconnect_close_paren()
    ensures
        disconnect_cmd().len() == 29,
        disconnect_cmd()[28] == ')',
        forall|i: int| 0 <= i < 28 ==> #[trigger] disconnect_cmd()[i] != ')',
{
}

/// Restoring undoes applying: a script that holds exactly one `LeaveMatch`
/// call and no `disconnect` call can be fixed, the fixed script holds
/// exactly one `disconnect` call so it can be restored, and restoring it
/// gives back the original script character for character.
pub proof fn law_restore_undoes_apply(s: Seq<char>)
    requires
        count_matches(s, leave_cmd()) == 1,
        !contains_seq(s, disconnect_cmd()),
    ensures
        apply_fix_spec(s) is Some,
        restore_fix_spec(apply_fix_spec(s)->0) == Some(s),
{
    let a = leave_cmd();
    let b = disconnect_cmd();
    assert(a.len() == 29);
    lemma_disconnect_close_paren();
    let k = lemma_count_pos_first(s, a);
    lemma_replace_first_at(s, a, b, k);
    let t = replace_first(s, a, b);
    assert(t == s.take(k) + b + s.skip(k + 29));
    assert(t.len() == s.len());
    assert(t.subrange(k, k + 29) =~= b);
    assert(matches_at(t, b, k));
    assert forall|j: int| 0 <= j < k implies !#[trigger] matches_at(t, b, j) by {
        if j + 29 <= k {
            assert(t.subrange(j, j + 29) =~= s.subrange(j, j + 29));
            assert(!matches_at(s, b, j));
        } else if matches_at(t, b, j) {
            assert(t[j + 28] == b[j + 28 - k]);
            assert(t.subrange(j, j + 29)[28] == t[j + 28]);
        }
    }
    // exactly one `disconnect` call in the patched script
    assert(t.skip(0) =~= t);
    lemma_count_skip_to(t, b, 0, k);
    lemma_count_matches_step(t, b, k);
    let post = s.skip(k + 29);
    assert(t.skip(k + 29) =~= post);
    assert forall|j: int| !#[trigger] matches_at(post, b, j) by {
        if 0 <= j && j + 29 <= post.len() {
            assert(post.subrange(j, j + 29) =~= s.subrange(k + 29 + j, k + 29 + j + 29));
            assert(!matches_at(s, b, k + 29 + j));
        }
    }
    lemma_count_none(post, b);
    assert(count_matches(t, b) == 1);
    // restoring puts the original call back in the same place
    lemma_replace_first_at(t, b, a, k);
    assert(t.take(k) =~= s.take(k));
    assert(t.skip(k + 29) =~= s.skip(k + 29));
    assert(s.subrange(k, k + 29) == a);
    assert(s.take(k) + a + s.skip(k + 29) =~= s);
}

/// The characters of the two calls that tell them apart.
proof fn lemma_call_letters()
    ensures
        leave_cmd().len() == 29,
        leave_cmd()[0] == 'C',
        leave_cmd()[13] == '(',
        leave_cmd()[16] == 'L',
        leave_cmd()[28] == ')',
        disconnect_cmd()[16] == 'd',
        forall|i: int| 14 <= i < 29 ==> #[trigger] disconnect_cmd()[i] != '(',
        forall|i: int| 16 <= i < 29 ==> #[trigger] disconnect_cmd()[i] != 'C',
{
}

/// Applying then restoring moves the script through the states the UI
/// shows: once fixed it reads `Fixed` (restorable exactly when the backup
/// exists), and once restored it reads `Unfixed` again, ready to be fixed.
pub proof fn law_apply_restore_states(s: Seq<char>, backup_exists: bool)
    requires
        count_matches(s, leave_cmd()) == 1,
        !contains_seq(s, disconnect_cmd()),
    ensures
        script_state_spec(Some(apply_fix_spec(s)->0), backup_exists) == (
            MatchmakingFixState::Fixed,
            false,
            backup_exists,
        ),
        script_state_spec(Some(restore_fix_spec(apply_fix_spec(s)->0)->0), backup_exists) == (
            MatchmakingFixState::Unfixed,
            true,
            false,
        ),
{
    law_restore_undoes_apply(s);
    let a = leave_cmd();
    let b = disconnect_cmd();
    lemma_call_letters();
    lemma_disconnect_close_paren();
    let k = lemma_count_pos_first(s, a);
    lemma_replace_first_at(s, a, b, k);
    let t = replace_first(s, a, b);
    assert(t == s.take(k) + b + s.skip(k + 29));
    // `s` holds no `LeaveMatch` call after its only one
    assert(s.skip(0) =~= s);
    lemma_count_skip_to(s, a, 0, k);
    lemma_count_matches_step(s, a, k);
    let post = s.skip(k + 29);
    lemma_count_zero_no_match(post, a);
    assert forall|j: int| !#[trigger] matches_at(t, a, j) by {
        if 0 <= j && j + 29 <= t.len() && matches_at(t, a, j) {
            let w = t.subrange(j, j + 29);
            assert(w == a);
            if j + 29 <= k {
                assert(w =~= s.subrange(j, j + 29));
                assert(matches_at(s, a, j));
            } else if j < k {
                assert(w[28] == t[j + 28]);
                assert(t[j + 28] == b[j + 28 - k]);
            } else if j == k {
                assert(w[16] == t[k + 16]);
                assert(t[k + 16] == b[16]);
            } else if j < k + 16 {
                assert(w[13] == t[j + 13]);
                assert(t[j + 13] == b[j + 13 - k]);
            } else if j < k + 29 {
                assert(w[0] == t[j]);
                assert(t[j] == b[j - k]);
            } else {
                assert(w =~= post.subrange(j - k - 29, j - k));
                assert(matches_at(post, a, j - k - 29));
            }
        }
    }
    lemma_count_none(t, a);
}

} // verus!
