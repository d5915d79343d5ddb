//! What applying a profile would change, and building a profile from a game.

use super::content::{
    canonical_content, canonical_spec, contains_text, entries_are, entry_is,
    law_selection_ignores_other_lines, line_sets, parse_content_spec, selected_spec,
    setting_line, string_views, ContentEntry,
};
use crate::text::lines_of;
use crate::digest::{hash_bytes, hex_spec, sha256};
use vstd::utf8::encode_utf8;
use super::fields::FieldDefinition;
use super::scan::{
    copy_fingerprint, same_fingerprint, ConfigEntryState, ConfigFileFingerprint,
    GameConfigSnapshot,
};
use super::{folder_name_spec, ConfigGame, ConfigSection};
use crate::error::AppError;
use crate::text::{chars_of, concat, seq_eq, string_of};
use vstd::prelude::*;

verus! {

/// What applying a setting would do to a game's files.
#[derive(Debug, Clone, Copy, PartialEq, Eq, Structural)]
pub enum PreviewStatus {
    /// The files hold another value: it is replaced.
    Replace,
    /// The files already hold the value.
    Unchanged,
    /// The files do not hold the setting: it is left out.
    Missing,
}

/// One setting of the preview.
#[derive(Debug, Clone)]
pub struct ApplyPreviewItem {
    pub key: String,
    pub label: String,
    pub section: ConfigSection,
    pub desired: String,
    pub current_values: Vec<String>,
    pub status: PreviewStatus,
}

/// What applying a profile would change for one game.
#[derive(Debug, Clone)]
pub struct TargetApplyPreview {
    pub game: ConfigGame,
    pub files: Vec<ConfigFileFingerprint>,
    pub replace_count: usize,
    pub unchanged_count: usize,
    pub missing_count: usize,
    pub conflict_count: usize,
    pub items: Vec<ApplyPreviewItem>,
}

/// A profile built from one game's files.
#[derive(Debug, Clone)]
pub struct GeneratedConfigContent {
    pub source_game: ConfigGame,
    pub content: String,
    pub keys: Vec<String>,
    pub has_mouse: bool,
    pub has_controller: bool,
    pub has_fov: bool,
}

/// The position of the last state for `key` (a later state for a key
/// replaces an earlier one).
pub open spec fn state_index(states: Seq<ConfigEntryState>, key: Seq<char>) -> Option<int>
    decreases states.len(),
{
    if states.len() == 0 {
        None
    } else if states.last().key@ == key {
        Some(states.len() - 1)
    } else {
        state_index(states.drop_last(), key)
    }
}

/// Whether the files hold only `value` for a setting.
pub open spec fn all_equal(values: Seq<String>, value: Seq<char>) -> bool {
    forall|i: int| 0 <= i < values.len() ==> (#[trigger] values[i])@ == value
}

pub open spec fn status_spec(st: ConfigEntryState, value: Seq<char>) -> PreviewStatus {
    if !st.present {
        PreviewStatus::Missing
    } else if all_equal(st.values@, value) {
        PreviewStatus::Unchanged
    } else {
        PreviewStatus::Replace
    }
}

/// The counts (replace, unchanged, missing, conflicting replacements) over
/// the first `n` settings, or the key of the first setting the game does
/// not know.
pub open spec fn tally(ents: Seq<ContentEntry>, states: Seq<ConfigEntryState>, n: int) -> Result<
    (nat, nat, nat, nat),
    Seq<char>,
>
    decreases n,
{
    if n <= 0 {
        Ok((0, 0, 0, 0))
    } else {
        match tally(ents, states, n - 1) {
            Err(k) => Err(k),
            Ok((r, u, m, c)) => match state_index(states, ents[n - 1].key@) {
                None => Err(ents[n - 1].key@),
                Some(s) => match status_spec(states[s], ents[n - 1].value@) {
                    PreviewStatus::Missing => Ok((r, u, m + 1, c)),
                    PreviewStatus::Unchanged => Ok((r, u + 1, m, c)),
                    PreviewStatus::Replace => Ok(
                        (r + 1, u, m, if states[s].conflict {
                            c + 1
                        } else {
                            c
                        }),
                    ),
                },
            },
        }
    }
}

/// `item` previews setting `e` against the state `st`.
pub open spec fn item_is(item: ApplyPreviewItem, e: ContentEntry, st: ConfigEntryState) -> bool {
    &&& item.key@ == e.key@
    &&& item.label@ == e.definition.label@
    &&& item.section == e.definition.section
    &&& item.desired@ == e.value@
    &&& string_views(item.current_values@) == string_views(st.values@)
    &&& item.status == status_spec(st, e.value@)
}

/// `item` previews setting `e` against the game's state for its key.
pub open spec fn item_ok(item: ApplyPreviewItem, e: ContentEntry, states: Seq<ConfigEntryState>) -> bool {
    match state_index(states, e.key@) {
        Some(s) => item_is(item, e, states[s]),
        None => false,
    }
}

fn not_detected(game: ConfigGame) -> (e: AppError)
    ensures
        e matches AppError::NotFound(m) && m@ == "未检测到 "@ + folder_name_spec(game) + " 配置"@,
{
    let a = chars_of("未检测到 ");
    let b = chars_of(game.folder_name());
    let c = chars_of(" 配置");
    let ab = concat(&a, &b);
    let m = concat(&ab, &c);
    AppError::NotFound(string_of(&m))
}

fn copy_strings(v: &Vec<String>) -> (r: Vec<String>)
    ensures
        string_views(r@) == string_views(v@),
{
    let mut r: Vec<String> = Vec::new();
    let mut i: usize = 0;
    while i < v.len()
        invariant
            i <= v@.len(),
            r@.len() == i,
            forall|k: int| 0 <= k < i ==> (#[trigger] r@[k])@ == v@[k]@,
        decreases v.len() - i,
    {
        r.push(v[i].clone());
        i = i + 1;
    }
    assert(string_views(r@) =~= string_views(v@));
    r
}

/// The last state for `key`.
fn find_state(states: &Vec<ConfigEntryState>, key: &[char]) -> (r: Option<usize>)
    ensures
        match r {
            Some(i) => state_index(states@, key@) == Some(i as int),
            None => state_index(states@, key@) is None,
        },
{
    let mut i: usize = states.len();
    assert(states@.take(i as int) =~= states@);
    while i > 0
        invariant
            i <= states@.len(),
            state_index(states@, key@) == state_index(states@.take(i as int), key@),
        decreases i,
    {
        let k = chars_of(states[i - 1].key.as_str());
        assert(states@.take(i as int).drop_last() =~= states@.take(i - 1));
        if seq_eq(&k, key) {
            return Some(i - 1);
        }
        i = i - 1;
    }
    None
}

fn status_of(st: &ConfigEntryState, value: &[char]) -> (s: PreviewStatus)
    ensures
        s == status_spec(*st, value@),
{
    if !st.present {
        return PreviewStatus::Missing;
    }
    let mut i: usize = 0;
    while i < st.values.len()
        invariant
            i <= st.values@.len(),
            st.present,
            forall|k: int| 0 <= k < i ==> (#[trigger] st.values@[k])@ == value@,
        decreases st.values.len() - i,
    {
        let v = chars_of(st.values[i].as_str());
        if !seq_eq(&v, value) {
            assert(st.values@[i as int]@ != value@);
            return PreviewStatus::Replace;
        }
        i = i + 1;
    }
    PreviewStatus::Unchanged
}

/// What applying `entries` would change in the game's files, as `snapshot`
/// shows them.
#[verifier::rlimit(40)]
pub fn analyze_target_snapshot(
    game: ConfigGame,
    entries: &[ContentEntry],
    snapshot: GameConfigSnapshot,
) -> (r: Result<TargetApplyPreview, AppError>)
    ensures
        !snapshot.detected ==> (r matches Err(AppError::NotFound(m)) && m@ == "未检测到 "@
            + folder_name_spec(game) + " 配置"@),
        snapshot.detected ==> match tally(entries@, snapshot.entries@, entries@.len() as int) {
            Err(k) => r matches Err(AppError::Other(m)) && m@ == "未知配置项 "@ + k,
            Ok((rc, uc, mc, cc)) => r matches Ok(p) && p.game == game && p.replace_count == rc
                && p.unchanged_count == uc && p.missing_count == mc && p.conflict_count == cc
                && p.files@.len() == snapshot.files@.len() && (forall|j: int|
                0 <= j < p.files@.len() ==> same_fingerprint(
                #[trigger] p.files@[j],
                snapshot.files@[j],
            )) && p.items@.len() == entries@.len() && forall|j: int|
                0 <= j < entries@.len() ==> item_ok(#[trigger] p.items@[j], entries@[j], snapshot.entries@),
        },
{
    if !snapshot.detected {
        return Err(not_detected(game));
    }
    let mut items: Vec<ApplyPreviewItem> = Vec::new();
    let mut rc: usize = 0;
    let mut uc: usize = 0;
    let mut mc: usize = 0;
    let mut cc: usize = 0;
    let mut j: usize = 0;
    while j < entries.len()
        invariant
            j <= entries@.len(),
            snapshot.detected,
            tally(entries@, snapshot.entries@, j as int) == Ok::<(nat, nat, nat, nat), Seq<char>>(
                (rc as nat, uc as nat, mc as nat, cc as nat),
            ),
            rc <= j && uc <= j && mc <= j && cc <= j,
            items@.len() == j,
            forall|x: int| 0 <= x < j ==> item_ok(#[trigger] items@[x], entries@[x], snapshot.entries@),
        decreases entries.len() - j,
    {
        let e = &entries[j];
        let key = chars_of(e.key.as_str());
        let value = chars_of(e.value.as_str());
        match find_state(&snapshot.entries, &key) {
            None => {
                proof {
                    lemma_tally_err_sticks(entries@, snapshot.entries@, j + 1, entries@.len() as int, e.key@);
                }
                let head = chars_of("未知配置项 ");
                let m = concat(&head, &key);
                return Err(AppError::Other(string_of(&m)));
            },
            Some(s) => {
                proof {
                    lemma_state_index(snapshot.entries@, key@);
                }
                let st = &snapshot.entries[s];
                let status = status_of(st, &value);
                match status {
                    PreviewStatus::Missing => {
                        mc = mc + 1;
                    },
                    PreviewStatus::Unchanged => {
                        uc = uc + 1;
                    },
                    PreviewStatus::Replace => {
                        rc = rc + 1;
                        if st.conflict {
                            cc = cc + 1;
                        }
                    },
                }
                let item = ApplyPreviewItem {
                    key: e.key.clone(),
                    label: e.definition.label.clone(),
                    section: e.definition.section,
                    desired: e.value.clone(),
                    current_values: copy_strings(&st.values),
                    status,
                };
                assert(item_ok(item, entries@[j as int], snapshot.entries@));
                let ghost prev = items@;
                items.push(item);
                assert(forall|x: int| 0 <= x < j ==> items@[x] == prev[x]);
            },
        }
        j = j + 1;
    }
    let mut files: Vec<ConfigFileFingerprint> = Vec::new();
    let mut f: usize = 0;
    while f < snapshot.files.len()
        invariant
            f <= snapshot.files@.len(),
            files@.len() == f,
            forall|x: int| 0 <= x < f ==> same_fingerprint(#[trigger] files@[x], snapshot.files@[x]),
        decreases snapshot.files.len() - f,
    {
        files.push(copy_fingerprint(&snapshot.files[f]));
        f = f + 1;
    }
    Ok(TargetApplyPreview {
        game,
        files,
        replace_count: rc,
        unchanged_count: uc,
        missing_count: mc,
        conflict_count: cc,
        items,
    })
}

proof fn lemma_state_index(states: Seq<ConfigEntryState>, key: Seq<char>)
    ensures
        state_index(states, key) matches Some(i) ==> 0 <= i < states.len() && states[i].key@ == key,
    decreases states.len(),
{
    if states.len() > 0 && states.last().key@ != key {
        lemma_state_index(states.drop_last(), key);
    }
}

proof fn lemma_tally_err_sticks(
    ents: Seq<ContentEntry>,
    states: Seq<ConfigEntryState>,
    n: int,
    m: int,
    k: Seq<char>,
)
    requires
        0 <= n <= m,
        tally(ents, states, n) == Err::<(nat, nat, nat, nat), Seq<char>>(k),
    ensures
        tally(ents, states, m) == Err::<(nat, nat, nat, nat), Seq<char>>(k),
    decreases m - n,
{
    if n < m {
        lemma_tally_err_sticks(ents, states, n + 1, m, k);
    }
}

/// The states picked for a profile among the first `n`: those the user
/// selected that hold one value, or the key of the first selected one whose
/// files disagree.
pub open spec fn picked(states: Seq<ConfigEntryState>, sel: Seq<Seq<char>>, n: int) -> Result<
    Seq<ConfigEntryState>,
    Seq<char>,
>
    decreases n,
{
    if n <= 0 {
        Ok(Seq::empty())
    } else {
        match picked(states, sel, n - 1) {
            Err(k) => Err(k),
            Ok(p) => {
                let st = states[n - 1];
                if !sel.contains(st.key@) {
                    Ok(p)
                } else if st.conflict {
                    Err(st.key@)
                } else if st.value is None {
                    Ok(p)
                } else {
                    Ok(p.push(st))
                }
            },
        }
    }
}

/// The picked settings as config lines joined by line feeds.
pub open spec fn picked_text(p: Seq<ConfigEntryState>) -> Seq<char>
    decreases p.len(),
{
    if p.len() == 0 {
        Seq::empty()
    } else if p.len() == 1 {
        setting_line(p[0].key@, p[0].value->0@)
    } else {
        picked_text(p.drop_last()) + seq!['\n'] + setting_line(p.last().key@, p.last().value->0@)
    }
}

pub open spec fn has_section(p: Seq<ConfigEntryState>, s: ConfigSection) -> bool {
    exists|i: int| 0 <= i < p.len() && (#[trigger] p[i]).section == s
}

proof fn lemma_picked_err_sticks(states: Seq<ConfigEntryState>, sel: Seq<Seq<char>>, n: int, m: int, k: Seq<char>)
    requires
        0 <= n <= m,
        picked(states, sel, n) == Err::<Seq<ConfigEntryState>, Seq<char>>(k),
    ensures
        picked(states, sel, m) == Err::<Seq<ConfigEntryState>, Seq<char>>(k),
    decreases m - n,
{
    if n < m {
        lemma_picked_err_sticks(states, sel, n + 1, m, k);
    }
}

/// A profile holding the settings the user selected from one game's
/// files, as `snapshot` shows them.
#[verifier::rlimit(40)]
pub fn generate_config_content_from_snapshot(
    source_game: ConfigGame,
    selected_keys: Vec<String>,
    snapshot: GameConfigSnapshot,
) -> (r: Result<GeneratedConfigContent, AppError>)
    ensures
        !snapshot.detected ==> (r matches Err(AppError::NotFound(m)) && m@ == "未检测到 "@
            + folder_name_spec(source_game) + " 配置"@),
        snapshot.detected ==> match picked(
            snapshot.entries@,
            string_views(selected_keys@),
            snapshot.entries@.len() as int,
        ) {
            Err(k) => r matches Err(AppError::Other(m)) && m@ == "配置项 "@ + k
                + " 在来源文件中存在冲突值，无法生成档案"@,
            Ok(p) => if p.len() == 0 {
                r matches Err(AppError::Other(m)) && m@ == "没有可生成的配置项"@
            } else {
                r matches Ok(g) && g.source_game == source_game && g.content@ == picked_text(p)
                    && string_views(g.keys@) == p.map_values(|st: ConfigEntryState| st.key@)
                    && g.has_mouse == has_section(p, ConfigSection::MouseKeyboard)
                    && g.has_controller == has_section(p, ConfigSection::Controller)
                    && g.has_fov == has_section(p, ConfigSection::Fov)
            },
        },
{
    if !snapshot.detected {
        return Err(not_detected(source_game));
    }
    let ghost sel = string_views(selected_keys@);
    let ghost states = snapshot.entries@;
    let ghost mut p: Seq<ConfigEntryState> = Seq::empty();
    let mut text: Vec<char> = Vec::new();
    let mut keys: Vec<String> = Vec::new();
    let mut has_mouse = false;
    let mut has_controller = false;
    let mut has_fov = false;
    let mut i: usize = 0;
    while i < snapshot.entries.len()
        invariant
            i <= states.len(),
            states == snapshot.entries@,
            snapshot.detected,
            sel == string_views(selected_keys@),
            picked(states, sel, i as int) == Ok::<Seq<ConfigEntryState>, Seq<char>>(p),
            text@ == picked_text(p),
            string_views(keys@) == p.map_values(|st: ConfigEntryState| st.key@),
            has_mouse == has_section(p, ConfigSection::MouseKeyboard),
            has_controller == has_section(p, ConfigSection::Controller),
            has_fov == has_section(p, ConfigSection::Fov),
            forall|x: int| 0 <= x < p.len() ==> (#[trigger] p[x]).value is Some,
        decreases states.len() - i,
    {
        let st = &snapshot.entries[i];
        let key = chars_of(st.key.as_str());
        if contains_text(&selected_keys, &key) {
            if st.conflict {
                proof {
                    lemma_picked_err_sticks(states, sel, i + 1, states.len() as int, st.key@);
                }
                let a = chars_of("配置项 ");
                let b = chars_of(" 在来源文件中存在冲突值，无法生成档案");
                let ak = concat(&a, &key);
                let m = concat(&ak, &b);
                return Err(AppError::Other(string_of(&m)));
            }
            match &st.value {
                None => {},
                Some(v) => {
                    let vc = chars_of(v.as_str());
                    let ghost prev_text = text@;
                    let ghost prev_p = p;
                    assert(keys@.len() == string_views(keys@).len());
                    assert(keys@.len() == prev_p.len());
                    if keys.len() > 0 {
                        text.push('\n');
                    }
                    text = concat(&text, &key);
                    text.push(' ');
                    text.push('"');
                    text = concat(&text, &vc);
                    text.push('"');
                    proof {
                        p = p.push(*st);
                        assert(p.drop_last() =~= prev_p);
                        if prev_p.len() == 0 {
                            assert(text@ =~= setting_line(key@, vc@));
                        } else {
                            assert(text@ =~= prev_text + seq!['\n'] + setting_line(key@, vc@));
                        }
                    }
                    let ghost prev_keys = keys@;
                    keys.push(st.key.clone());
                    assert forall|x: int| 0 <= x < keys@.len() implies string_views(keys@)[x] == p.map_values(|st: ConfigEntryState| st.key@)[x] by {
                        if x < prev_keys.len() {
                            assert(keys@[x] == prev_keys[x]);
                            assert(string_views(prev_keys)[x] == prev_p.map_values(|st: ConfigEntryState| st.key@)[x]);
                            assert(p[x] == prev_p[x]);
                        }
                    }
                    assert(string_views(keys@) =~= p.map_values(|st: ConfigEntryState| st.key@));
                    match st.section {
                        ConfigSection::MouseKeyboard => {
                            has_mouse = true;
                        },
                        ConfigSection::Controller => {
                            has_controller = true;
                        },
                        ConfigSection::Fov => {
                            has_fov = true;
                        },
                    }
                    assert(p[p.len() - 1] == *st);
                    assert(has_mouse == has_section(p, ConfigSection::MouseKeyboard)) by {
                        assert forall|x: int| 0 <= x < prev_p.len() implies p[x] == prev_p[x] by {}
                    }
                    assert(has_controller == has_section(p, ConfigSection::Controller)) by {
                        assert forall|x: int| 0 <= x < prev_p.len() implies p[x] == prev_p[x] by {}
                    }
                    assert(has_fov == has_section(p, ConfigSection::Fov)) by {
                        assert forall|x: int| 0 <= x < prev_p.len() implies p[x] == prev_p[x] by {}
                    }
                },
            }
        }
        i = i + 1;
    }
    if keys.len() == 0 {
        return Err(AppError::other("没有可生成的配置项"));
    }
    Ok(GeneratedConfigContent {
        source_game,
        content: string_of(&text),
        keys,
        has_mouse,
        has_controller,
        has_fov,
    })
}

/// A preview of applying a profile to each target game.
#[derive(Debug, Clone)]
pub struct ConfigApplyPreview {
    pub content_sha256: String,
    pub selected_keys: Vec<String>,
    pub targets: Vec<TargetApplyPreview>,
}

/// `games` without repeats, first occurrences kept in order.
pub open spec fn unique_spec(games: Seq<ConfigGame>) -> Seq<ConfigGame>
    decreases games.len(),
{
    if games.len() == 0 {
        Seq::empty()
    } else {
        let r = unique_spec(games.drop_last());
        if r.contains(games.last()) {
            r
        } else {
            r.push(games.last())
        }
    }
}

/// `games` without repeats, first occurrences kept in order.
pub fn unique_games(games: Vec<ConfigGame>) -> (r: Vec<ConfigGame>)
    ensures
        r@ == unique_spec(games@),
{
    let mut r: Vec<ConfigGame> = Vec::new();
    let mut i: usize = 0;
    while i < games.len()
        invariant
            i <= games@.len(),
            r@ == unique_spec(games@.take(i as int)),
        decreases games.len() - i,
    {
        assert(games@.take(i + 1).drop_last() =~= games@.take(i as int));
        let g = games[i];
        let mut seen = false;
        let mut j: usize = 0;
        while j < r.len()
            invariant
                j <= r@.len(),
                seen == (exists|x: int| 0 <= x < j && r@[x] == g),
            decreases r.len() - j,
        {
            if r[j] == g {
                seen = true;
            }
            j = j + 1;
        }
        if !seen {
            r.push(g);
        }
        i = i + 1;
    }
    assert(games@.take(games@.len() as int) =~= games@);
    r
}

/// The target games of an apply: at least one, each once.
pub fn prepare_targets(target_games: Vec<ConfigGame>) -> (r: Result<Vec<ConfigGame>, AppError>)
    ensures
        target_games@.len() == 0 ==> (r matches Err(AppError::Other(m)) && m@ == "请至少选择一个目标游戏"@),
        target_games@.len() > 0 ==> (r matches Ok(v) && v@ == unique_spec(target_games@)),
{
    if target_games.len() == 0 {
        return Err(AppError::other("请至少选择一个目标游戏"));
    }
    Ok(unique_games(target_games))
}

/// The preview of applying `entries` to the targets previewed in
/// `targets`: the digest of the profile's canonical text and its keys.
pub fn finish_preview(entries: &[ContentEntry], targets: Vec<TargetApplyPreview>) -> (p: ConfigApplyPreview)
    ensures
        p.content_sha256@ == hex_spec(sha256(encode_utf8(canonical_spec(entries@)))),
        string_views(p.selected_keys@) == entries@.map_values(|e: ContentEntry| e.key@),
        p.targets@ == targets@,
{
    let text = canonical_content(entries);
    let digest = hash_bytes(text.as_str().as_bytes());
    let mut keys: Vec<String> = Vec::new();
    let mut i: usize = 0;
    while i < entries.len()
        invariant
            i <= entries@.len(),
            keys@.len() == i,
            forall|k: int| 0 <= k < i ==> (#[trigger] keys@[k])@ == entries@[k].key@,
        decreases entries.len() - i,
    {
        keys.push(entries[i].key.clone());
        i = i + 1;
    }
    assert(string_views(keys@) =~= entries@.map_values(|e: ContentEntry| e.key@));
    ConfigApplyPreview { content_sha256: digest, selected_keys: keys, targets }
}

pub open spec fn same_files(a: Seq<ConfigFileFingerprint>, b: Seq<ConfigFileFingerprint>) -> bool {
    a.len() == b.len() && forall|i: int| 0 <= i < a.len() ==> same_fingerprint(#[trigger] a[i], b[i])
}

/// The first target of `ts` for `game`.
pub open spec fn target_for(ts: Seq<TargetApplyPreview>, game: ConfigGame) -> Option<int>
    decreases ts.len(),
{
    if ts.len() == 0 {
        None
    } else {
        match target_for(ts.drop_last(), game) {
            Some(i) => Some(i),
            None => if ts.last().game == game {
                Some(ts.len() - 1)
            } else {
                None
            },
        }
    }
}

/// Why the first `n` fresh targets differ from what the user saw, if they do.
pub open spec fn target_fault(ft: Seq<TargetApplyPreview>, et: Seq<TargetApplyPreview>, n: int) -> Option<Seq<char>>
    decreases n,
{
    if n <= 0 {
        None
    } else {
        match target_fault(ft, et, n - 1) {
            Some(m) => Some(m),
            None => match target_for(et, ft[n - 1].game) {
                None => Some("预览中缺少目标游戏"@),
                Some(e) => if !same_files(et[e].files@, ft[n - 1].files@) {
                    Some(folder_name_spec(ft[n - 1].game) + " 配置文件已变化，请重新预览"@)
                } else {
                    None
                },
            },
        }
    }
}

/// Why a fresh preview differs from the one the user confirmed, if it does.
pub open spec fn preview_fault(fresh: ConfigApplyPreview, expected: ConfigApplyPreview) -> Option<Seq<char>> {
    if fresh.content_sha256@ != expected.content_sha256@ || string_views(fresh.selected_keys@)
        != string_views(expected.selected_keys@) || fresh.targets@.len() != expected.targets@.len() {
        Some("配置内容或目标已变化，请重新预览"@)
    } else {
        target_fault(fresh.targets@, expected.targets@, fresh.targets@.len() as int)
    }
}

fn same_strings(a: &Vec<String>, b: &Vec<String>) -> (r: bool)
    ensures
        r == (string_views(a@) == string_views(b@)),
{
    if a.len() != b.len() {
        assert(string_views(a@).len() != string_views(b@).len());
        return false;
    }
    let mut i: usize = 0;
    while i < a.len()
        invariant
            i <= a@.len(),
            a@.len() == b@.len(),
            forall|k: int| 0 <= k < i ==> (#[trigger] a@[k])@ == b@[k]@,
        decreases a.len() - i,
    {
        let x = chars_of(a[i].as_str());
        let y = chars_of(b[i].as_str());
        if !seq_eq(&x, &y) {
            assert(string_views(a@)[i as int] != string_views(b@)[i as int]);
            return false;
        }
        i = i + 1;
    }
    assert(string_views(a@) =~= string_views(b@));
    true
}

fn same_fingerprints(a: &Vec<ConfigFileFingerprint>, b: &Vec<ConfigFileFingerprint>) -> (r: bool)
    ensures
        r == same_files(a@, b@),
{
    if a.len() != b.len() {
        return false;
    }
    let mut i: usize = 0;
    while i < a.len()
        invariant
            i <= a@.len(),
            a@.len() == b@.len(),
            forall|k: int| 0 <= k < i ==> same_fingerprint(#[trigger] a@[k], b@[k]),
        decreases a.len() - i,
    {
        let p = chars_of(a[i].path.as_str());
        let q = chars_of(b[i].path.as_str());
        let h = chars_of(a[i].sha256.as_str());
        let g = chars_of(b[i].sha256.as_str());
        if !seq_eq(&p, &q) || !seq_eq(&h, &g) || a[i].size != b[i].size {
            assert(!same_fingerprint(a@[i as int], b@[i as int]));
            return false;
        }
        i = i + 1;
    }
    true
}

/// The first target for `game`.
fn find_target(ts: &Vec<TargetApplyPreview>, game: ConfigGame) -> (r: Option<usize>)
    ensures
        match r {
            Some(i) => target_for(ts@, game) == Some(i as int) && i < ts@.len(),
            None => target_for(ts@, game) is None,
        },
{
    let mut i: usize = 0;
    assert(ts@.take(0) =~= Seq::<TargetApplyPreview>::empty());
    while i < ts.len()
        invariant
            i <= ts@.len(),
            target_for(ts@.take(i as int), game) is None,
        decreases ts.len() - i,
    {
        assert(ts@.take(i + 1).drop_last() =~= ts@.take(i as int));
        if ts[i].game == game {
            proof {
                lemma_target_for_prefix(ts@, game, i + 1);
            }
            return Some(i);
        }
        i = i + 1;
    }
    assert(ts@.take(ts@.len() as int) =~= ts@);
    None
}

proof fn lemma_target_for_prefix(ts: Seq<TargetApplyPreview>, game: ConfigGame, n: int)
    requires
        0 <= n <= ts.len(),
        target_for(ts.take(n), game) is Some,
    ensures
        target_for(ts, game) == target_for(ts.take(n), game),
    decreases ts.len() - n,
{
    if n < ts.len() {
        assert(ts.take(n + 1).drop_last() =~= ts.take(n));
        lemma_target_for_prefix(ts, game, n + 1);
    } else {
        assert(ts.take(n) =~= ts);
    }
}

proof fn lemma_target_fault_sticks(ft: Seq<TargetApplyPreview>, et: Seq<TargetApplyPreview>, n: int, m: int)
    requires
        0 <= n <= m,
        target_fault(ft, et, n) is Some,
    ensures
        target_fault(ft, et, m) == target_fault(ft, et, n),
    decreases m - n,
{
    if n < m {
        lemma_target_fault_sticks(ft, et, n + 1, m);
    }
}

/// Refuse an apply whose fresh preview differs from the one the user
/// confirmed: other content or keys, other targets, or changed files.
pub fn check_preview_current(fresh: &ConfigApplyPreview, expected: &ConfigApplyPreview) -> (r: Result<(), AppError>)
    ensures
        match preview_fault(*fresh, *expected) {
            None => r is Ok,
            Some(m) => r matches Err(AppError::Other(t)) && t@ == m,
        },
{
    let a = chars_of(fresh.content_sha256.as_str());
    let b = chars_of(expected.content_sha256.as_str());
    if !seq_eq(&a, &b) || !same_strings(&fresh.selected_keys, &expected.selected_keys)
        || fresh.targets.len() != expected.targets.len() {
        return Err(AppError::other("配置内容或目标已变化，请重新预览"));
    }
    let mut i: usize = 0;
    while i < fresh.targets.len()
        invariant
            i <= fresh.targets@.len(),
            preview_fault(*fresh, *expected) == target_fault(fresh.targets@, expected.targets@, fresh.targets@.len() as int),
            target_fault(fresh.targets@, expected.targets@, i as int) is None,
        decreases fresh.targets.len() - i,
    {
        let t = &fresh.targets[i];
        match find_target(&expected.targets, t.game) {
            None => {
                proof {
                    lemma_target_fault_sticks(fresh.targets@, expected.targets@, i + 1, fresh.targets@.len() as int);
                }
                return Err(AppError::other("预览中缺少目标游戏"));
            },
            Some(e) => {
                if !same_fingerprints(&expected.targets[e].files, &t.files) {
                    proof {
                        lemma_target_fault_sticks(fresh.targets@, expected.targets@, i + 1, fresh.targets@.len() as int);
                    }
                    let f = chars_of(t.game.folder_name());
                    let tail = chars_of(" 配置文件已变化，请重新预览");
                    let m = concat(&f, &tail);
                    return Err(AppError::Other(string_of(&m)));
                }
            },
        }
        i = i + 1;
    }
    Ok(())
}

/// Every setting of a preview is counted once: replacements, unchanged and
/// missing settings add up to the settings applied, and the conflicting
/// replacements are among the replacements.
pub proof fn law_preview_counts(ents: Seq<ContentEntry>, states: Seq<ConfigEntryState>, n: int)
    requires
        0 <= n <= ents.len(),
        tally(ents, states, n) is Ok,
    ensures
        ({
            let (r, u, m, c) = tally(ents, states, n)->Ok_0;
            r + u + m == n && c <= r
        }),
    decreases n,
{
    if n > 0 {
        law_preview_counts(ents, states, n - 1);
    }
}

/// The target games of an apply hold each game once, and exactly the games
/// asked for.
pub proof fn law_unique_games(games: Seq<ConfigGame>)
    ensures
        forall|i: int, j: int|
            0 <= i < j < unique_spec(games).len() ==> unique_spec(games)[i] != unique_spec(games)[j],
        forall|g: ConfigGame| games.contains(g) <==> unique_spec(games).contains(g),
    decreases games.len(),
{
    if games.len() > 0 {
        let p = games.drop_last();
        law_unique_games(p);
        let r = unique_spec(p);
        assert forall|g: ConfigGame| games.contains(g) <==> unique_spec(games).contains(g) by {
            if games.contains(g) {
                let w = choose|w: int| 0 <= w < games.len() && games[w] == g;
                if w < games.len() - 1 {
                    assert(p[w] == g);
                    assert(p.contains(g));
                    let v = choose|v: int| 0 <= v < r.len() && r[v] == g;
                    if !r.contains(games.last()) {
                        assert(unique_spec(games)[v] == g);
                    }
                } else if !r.contains(games.last()) {
                    assert(unique_spec(games)[r.len() as int] == g);
                }
            }
            if unique_spec(games).contains(g) {
                let v = choose|v: int| 0 <= v < unique_spec(games).len() && unique_spec(games)[v] == g;
                if v < r.len() {
                    assert(r[v] == g);
                    assert(r.contains(g));
                    assert(p.contains(g) <==> r.contains(g));
                    assert(p.contains(g));
                    let w = choose|w: int| 0 <= w < p.len() && p[w] == g;
                    assert(games[w] == p[w]);
                } else {
                    assert(games[games.len() - 1] == g);
                }
            }
        }
    }
}

/// Two lists of settings that agree, place by place, on key, value and
/// definition.
pub open spec fn same_settings(e1: Seq<ContentEntry>, e2: Seq<ContentEntry>) -> bool {
    &&& e1.len() == e2.len()
    &&& forall|j: int|
        0 <= j < e1.len() ==> {
            &&& (#[trigger] e1[j]).key@ == e2[j].key@
            &&& e1[j].value@ == e2[j].value@
            &&& e1[j].definition.label@ == e2[j].definition.label@
            &&& e1[j].definition.section == e2[j].definition.section
        }
}

proof fn lemma_tally_same(
    e1: Seq<ContentEntry>,
    e2: Seq<ContentEntry>,
    states: Seq<ConfigEntryState>,
    n: int,
)
    requires
        same_settings(e1, e2),
        n <= e1.len(),
    ensures
        tally(e1, states, n) == tally(e2, states, n),
    decreases n,
{
    if n > 0 {
        lemma_tally_same(e1, e2, states, n - 1);
        assert(e1[n - 1].key@ == e2[n - 1].key@);
    }
}

proof fn lemma_canonical_same(e1: Seq<ContentEntry>, e2: Seq<ContentEntry>)
    requires
        same_settings(e1, e2),
    ensures
        canonical_spec(e1) == canonical_spec(e2),
    decreases e1.len(),
{
    if e1.len() > 1 {
        let d1 = e1.drop_last();
        let d2 = e2.drop_last();
        assert forall|j: int| 0 <= j < d1.len() implies (#[trigger] d1[j]).key@ == d2[j].key@ && d1[j].value@
            == d2[j].value@ && d1[j].definition.label@ == d2[j].definition.label@
            && d1[j].definition.section == d2[j].definition.section by {
            assert(d1[j] == e1[j]);
            assert(d2[j] == e2[j]);
        }
        lemma_canonical_same(d1, d2);
        assert(e1.last() == e1[e1.len() - 1]);
    } else if e1.len() == 1 {
        assert(e1[0].key@ == e2[0].key@);
    }
}

/// A preview depends only on the settings picked from the profile: two
/// profile texts that both read without fault and differ only in the order
/// of their lines and in lines for settings not picked give the same pick
/// or the same refusal; and picks with the same settings, previewed against
/// the same game state, give the same digest of the profile, the same keys,
/// the same counts and the same items.  (Asking for a game twice previews
/// it once: `law_unique_games`.)
pub proof fn law_preview_depends_on_selection(
    c1: Seq<char>,
    c2: Seq<char>,
    sel: Seq<Seq<char>>,
    e1: Seq<ContentEntry>,
    e2: Seq<ContentEntry>,
    states: Seq<ConfigEntryState>,
)
    requires
        parse_content_spec(c1) is Ok,
        parse_content_spec(c2) is Ok,
        forall|l: Seq<char>, k: Seq<char>, v: Seq<char>|
            #[trigger] line_sets(l, k, v) && sel.contains(k) ==> (lines_of(c1).contains(l)
                <==> lines_of(c2).contains(l)),
        selected_spec(c1, sel) is Ok ==> entries_are(e1, selected_spec(c1, sel)->Ok_0),
        selected_spec(c2, sel) is Ok ==> entries_are(e2, selected_spec(c2, sel)->Ok_0),
    ensures
        selected_spec(c1, sel) == selected_spec(c2, sel),
        selected_spec(c1, sel) is Ok ==> {
            &&& tally(e1, states, e1.len() as int) == tally(e2, states, e2.len() as int)
            &&& canonical_spec(e1) == canonical_spec(e2)
            &&& e1.map_values(|e: ContentEntry| e.key@) == e2.map_values(|e: ContentEntry| e.key@)
            &&& forall|j: int, item: ApplyPreviewItem|
                0 <= j < e1.len() ==> (#[trigger] item_ok(item, e1[j], states) <==> item_ok(
                    item,
                    e2[j],
                    states,
                ))
        },
{
    law_selection_ignores_other_lines(c1, c2, sel);
    if selected_spec(c1, sel) is Ok {
        let ts = selected_spec(c1, sel)->Ok_0;
        assert forall|j: int| 0 <= j < e1.len() implies (#[trigger] e1[j]).key@ == e2[j].key@
            && e1[j].value@ == e2[j].value@ && e1[j].definition.label@ == e2[j].definition.label@
            && e1[j].definition.section == e2[j].definition.section by {
            assert(entry_is(e1[j], ts[j]));
            assert(entry_is(e2[j], ts[j]));
        }
        lemma_tally_same(e1, e2, states, e1.len() as int);
        lemma_canonical_same(e1, e2);
        assert(e1.map_values(|e: ContentEntry| e.key@) =~= e2.map_values(|e: ContentEntry| e.key@));
    }
}

/// A setting previews as `Unchanged` only when the game's files already
/// hold the desired value everywhere they set it; when any file holds
/// another value it previews as `Replace`; and it is `Missing` exactly when
/// no file sets it.
pub proof fn law_status_unchanged_only_when_every_file_agrees(st: ConfigEntryState, value: Seq<char>)
    ensures
        status_spec(st, value) is Missing <==> !st.present,
        status_spec(st, value) is Unchanged <==> st.present && forall|i: int|
            0 <= i < st.values@.len() ==> (#[trigger] st.values@[i])@ == value,
        status_spec(st, value) is Replace <==> st.present && exists|i: int|
            0 <= i < st.values@.len() && (#[trigger] st.values@[i])@ != value,
{
}

/// How many of the first `n` settings preview with status `s`.
pub open spec fn count_status(
    ents: Seq<ContentEntry>,
    states: Seq<ConfigEntryState>,
    n: int,
    s: PreviewStatus,
) -> nat
    decreases n,
{
    if n <= 0 {
        0
    } else {
        count_status(ents, states, n - 1, s) + match state_index(states, ents[n - 1].key@) {
            Some(i) => if status_spec(states[i], ents[n - 1].value@) == s {
                1nat
            } else {
                0nat
            },
            None => 0nat,
        }
    }
}

/// How many of the first `n` settings would replace a value the files hold
/// in conflicting versions.
pub open spec fn count_conflicting_replace(
    ents: Seq<ContentEntry>,
    states: Seq<ConfigEntryState>,
    n: int,
) -> nat
    decreases n,
{
    if n <= 0 {
        0
    } else {
        count_conflicting_replace(ents, states, n - 1) + match state_index(states, ents[n - 1].key@) {
            Some(i) => if status_spec(states[i], ents[n - 1].value@) is Replace && states[i].conflict {
                1nat
            } else {
                0nat
            },
            None => 0nat,
        }
    }
}

/// A preview's counts are the counts of its items' statuses: the
/// replacements, the unchanged and the missing settings, and the
/// replacements of conflicting values; and it is refused exactly when some
/// setting is unknown to the game.
pub proof fn law_preview_counts_match_items(ents: Seq<ContentEntry>, states: Seq<ConfigEntryState>, n: int)
    requires
        0 <= n <= ents.len(),
    ensures
        tally(ents, states, n) is Err <==> exists|j: int|
            0 <= j < n && state_index(states, (#[trigger] ents[j]).key@) is None,
        tally(ents, states, n) is Ok ==> tally(ents, states, n)->Ok_0 == (
            count_status(ents, states, n, PreviewStatus::Replace),
            count_status(ents, states, n, PreviewStatus::Unchanged),
            count_status(ents, states, n, PreviewStatus::Missing),
            count_conflicting_replace(ents, states, n),
        ),
    decreases n,
{
    if n > 0 {
        law_preview_counts_match_items(ents, states, n - 1);
        if tally(ents, states, n - 1) is Err {
            let j = choose|j: int| 0 <= j < n - 1 && state_index(states, (#[trigger] ents[j]).key@) is None;
            assert(0 <= j < n);
        }
        if state_index(states, ents[n - 1].key@) is None {
            assert(state_index(states, ents[n - 1].key@) is None);
        }
    }
}

} // verus!
