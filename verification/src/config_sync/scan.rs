//! What the game's two config files hold of each setting.

use super::content::string_views;
use super::fields::{
    field_definitions, field_keys, field_labels, field_sections, is_field_table, FIELD_COUNT,
};
use super::line::{parse_line, parse_line_spec};
use super::ConfigGame;
use crate::digest::{hash_bytes, hex_spec, sha256};
use crate::error::AppError;
use crate::text::{chars_of, concat, lines_of, seq_eq, split_lines, string_of, views};
use vstd::prelude::*;
use vstd::utf8::{decode_utf8, valid_utf8};

verus! {

/// Where the game keeps its settings, relative to its config folder.
pub const SETTINGS_RELATIVE_PATH: &'static str = "local/settings.cfg";

/// Where the game keeps the player's profile, relative to its config folder.
pub const PROFILE_RELATIVE_PATH: &'static str = "profile/profile.cfg";

/// A config file as it was read: its path, SHA-256 and size.
#[derive(Debug, Clone, PartialEq, Eq)]
pub struct ConfigFileFingerprint {
    pub path: String,
    pub sha256: String,
    pub size: u64,
}

/// What the config files say of one setting.
#[derive(Debug, Clone)]
pub struct ConfigEntryState {
    pub key: String,
    pub label: String,
    pub section: super::ConfigSection,
    pub present: bool,
    pub value: Option<String>,
    pub values: Vec<String>,
    pub locations: Vec<String>,
    pub conflict: bool,
}

/// What one game's config files hold.
#[derive(Debug, Clone)]
pub struct GameConfigSnapshot {
    pub game: ConfigGame,
    pub detected: bool,
    pub root_path: String,
    pub files: Vec<ConfigFileFingerprint>,
    pub entries: Vec<ConfigEntryState>,
}

/// The settings lines of one file, in order: (file, key, value).
pub open spec fn file_occurrences(rel: Seq<char>, lines: Seq<Seq<char>>) -> Seq<
    (Seq<char>, Seq<char>, Seq<char>),
>
    decreases lines.len(),
{
    if lines.len() == 0 {
        Seq::empty()
    } else {
        let r = file_occurrences(rel, lines.drop_last());
        match parse_line_spec(lines.last(), false) {
            Ok(Some((k, v, _start))) => r.push((rel, k, v)),
            _ => r,
        }
    }
}

/// The settings lines of all files (given as (file, text)), file by file.
pub open spec fn all_occurrences(files: Seq<(Seq<char>, Seq<char>)>) -> Seq<
    (Seq<char>, Seq<char>, Seq<char>),
>
    decreases files.len(),
{
    if files.len() == 0 {
        Seq::empty()
    } else {
        all_occurrences(files.drop_last()) + file_occurrences(
            files.last().0,
            lines_of(files.last().1),
        )
    }
}

/// The distinct values given for `key`, in the order first seen.
pub open spec fn values_for(occ: Seq<(Seq<char>, Seq<char>, Seq<char>)>, key: Seq<char>) -> Seq<
    Seq<char>,
>
    decreases occ.len(),
{
    if occ.len() == 0 {
        Seq::empty()
    } else {
        let r = values_for(occ.drop_last(), key);
        if occ.last().1 == key && !r.contains(occ.last().2) {
            r.push(occ.last().2)
        } else {
            r
        }
    }
}

/// The distinct files that set `key`, in the order first seen.
pub open spec fn locations_for(occ: Seq<(Seq<char>, Seq<char>, Seq<char>)>, key: Seq<char>) -> Seq<
    Seq<char>,
>
    decreases occ.len(),
{
    if occ.len() == 0 {
        Seq::empty()
    } else {
        let r = locations_for(occ.drop_last(), key);
        if occ.last().1 == key && !r.contains(occ.last().0) {
            r.push(occ.last().0)
        } else {
            r
        }
    }
}

/// `e` is what the files (occurrences `occ`) say of setting number `i`.
pub open spec fn entry_state_is(
    e: ConfigEntryState,
    i: int,
    occ: Seq<(Seq<char>, Seq<char>, Seq<char>)>,
) -> bool {
    let vals = values_for(occ, field_keys()[i]);
    &&& e.key@ == field_keys()[i]
    &&& e.label@ == field_labels()[i]
    &&& e.section == field_sections()[i]
    &&& string_views(e.values@) == vals
    &&& string_views(e.locations@) == locations_for(occ, field_keys()[i])
    &&& e.present == (vals.len() > 0)
    &&& e.conflict == (vals.len() > 1)
    &&& match e.value {
        Some(v) => vals.len() == 1 && v@ == vals[0],
        None => vals.len() != 1,
    }
}

/// `String::from_utf8`: the text that `bytes` encode, if they are valid
/// UTF-8.
#[verifier::external_body]
fn utf8_text(bytes: Vec<u8>) -> (r: Option<String>)
    ensures
        match r {
            Some(s) => valid_utf8(bytes@) && s@ == decode_utf8(bytes@),
            None => !valid_utf8(bytes@),
        },
{
    String::from_utf8(bytes).ok()
}

/// A config file's fingerprint and text, from its bytes; `path` is how the
/// file is shown to the user.
pub fn decode_config_file(path: String, bytes: Vec<u8>) -> (r: Result<
    (ConfigFileFingerprint, String),
    AppError,
>)
    ensures
        match r {
            Ok((f, text)) => valid_utf8(bytes@) && text@ == decode_utf8(bytes@) && f.path@ == path@
                && f.sha256@ == hex_spec(sha256(bytes@)) && f.size == bytes@.len(),
            Err(e) => !valid_utf8(bytes@) && (e matches AppError::Other(m) && m@
                == "配置文件不是有效 UTF-8："@ + path@),
        },
{
    let sha = hash_bytes(&bytes);
    let size = bytes.len() as u64;
    let ghost b = bytes@;
    match utf8_text(bytes) {
        None => {
            let head = chars_of("配置文件不是有效 UTF-8：");
            let p = chars_of(path.as_str());
            let m = concat(&head, &p);
            Err(AppError::Other(string_of(&m)))
        },
        Some(text) => Ok((ConfigFileFingerprint { path, sha256: sha, size }, text)),
    }
}

/// Whether `v` holds `x`.
fn holds(v: &Vec<Vec<char>>, x: &[char]) -> (r: bool)
    ensures
        r == views(v@).contains(x@),
{
    let mut i: usize = 0;
    while i < v.len()
        invariant
            i <= v@.len(),
            forall|j: int| 0 <= j < i ==> v@[j]@ != x@,
        decreases v.len() - i,
    {
        if seq_eq(&v[i], x) {
            assert(views(v@)[i as int] == x@);
            return true;
        }
        i = i + 1;
    }
    proof {
        if views(v@).contains(x@) {
            let w = choose|w: int| 0 <= w < views(v@).len() && views(v@)[w] == x@;
            assert(v@[w]@ == x@);
        }
    }
    false
}

fn strings_of(v: &Vec<Vec<char>>) -> (r: Vec<String>)
    ensures
        string_views(r@) == views(v@),
{
    let mut r: Vec<String> = Vec::new();
    let mut i: usize = 0;
    while i < v.len()
        invariant
            i <= v@.len(),
            r@.len() == i,
            forall|k: int| 0 <= k < i ==> (#[trigger] r@[k])@ == v@[k]@,
        decreases v.len() - i,
    {
        r.push(string_of(&v[i]));
        i = i + 1;
    }
    assert(string_views(r@) =~= views(v@));
    r
}

/// The texts of the files read, as (relative path, text).
pub open spec fn file_texts(files: Seq<(String, ConfigFileFingerprint, String)>) -> Seq<(Seq<char>, Seq<char>)> {
    files.map_values(|f: (String, ConfigFileFingerprint, String)| (f.0@, f.2@))
}

/// `s` is the snapshot of `game` (folder `root`) from the files read.
pub open spec fn snapshot_of(
    s: GameConfigSnapshot,
    game: ConfigGame,
    root: Seq<char>,
    files: Seq<(String, ConfigFileFingerprint, String)>,
) -> bool {
    &&& s.game == game
    &&& s.root_path@ == root
    &&& s.detected == (files.len() > 0)
    &&& s.files@.len() == files.len()
    &&& forall|j: int| 0 <= j < files.len() ==> same_fingerprint(#[trigger] s.files@[j], files[j].1)
    &&& s.entries@.len() == FIELD_COUNT
    &&& forall|i: int|
        0 <= i < FIELD_COUNT ==> entry_state_is(
            #[trigger] s.entries@[i],
            i,
            all_occurrences(file_texts(files)),
        )
}

/// The snapshot of one game's config files.  `files` holds, in order, each
/// file that exists: its path relative to the config folder, its
/// fingerprint and its text.
#[verifier::rlimit(60)]
pub fn snapshot_from_texts(
    game: ConfigGame,
    root_path: String,
    files: Vec<(String, ConfigFileFingerprint, String)>,
) -> (s: GameConfigSnapshot)
    ensures
        s.game == game,
        s.root_path@ == root_path@,
        s.detected == (files@.len() > 0),
        s.files@.len() == files@.len(),
        forall|j: int| 0 <= j < files@.len() ==> same_fingerprint(#[trigger] s.files@[j], files@[j].1),
        s.entries@.len() == FIELD_COUNT,
        forall|i: int|
            0 <= i < FIELD_COUNT ==> entry_state_is(
                #[trigger] s.entries@[i],
                i,
                all_occurrences(files@.map_values(|f: (String, ConfigFileFingerprint, String)| (f.0@, f.2@))),
            ),
        snapshot_of(s, game, root_path@, files@),
{
    let ghost texts = files@.map_values(|f: (String, ConfigFileFingerprint, String)| (f.0@, f.2@));
    let mut rels: Vec<Vec<char>> = Vec::new();
    let mut keys: Vec<Vec<char>> = Vec::new();
    let mut vals: Vec<Vec<char>> = Vec::new();
    let ghost mut occ: Seq<(Seq<char>, Seq<char>, Seq<char>)> = Seq::empty();
    let mut fingerprints: Vec<ConfigFileFingerprint> = Vec::new();
    let mut f: usize = 0;
    assert(texts.take(0) =~= Seq::<(Seq<char>, Seq<char>)>::empty());
    while f < files.len()
        invariant
            f <= files@.len(),
            texts == files@.map_values(|f: (String, ConfigFileFingerprint, String)| (f.0@, f.2@)),
            occ == all_occurrences(texts.take(f as int)),
            occ.len() == rels@.len(),
            occ.len() == keys@.len(),
            occ.len() == vals@.len(),
            forall|j: int| 0 <= j < occ.len() ==> (#[trigger] occ[j]).0 == rels@[j]@ && occ[j].1 == keys@[j]@ && occ[j].2 == vals@[j]@,
            fingerprints@.len() == f,
            forall|j: int| 0 <= j < f ==> same_fingerprint(#[trigger] fingerprints@[j], files@[j].1),
        decreases files.len() - f,
    {
        assert(texts.take(f + 1).drop_last() =~= texts.take(f as int));
        let rel = chars_of(files[f].0.as_str());
        let text = chars_of(files[f].2.as_str());
        assert(texts.take(f + 1).last() == (rel@, text@));
        fingerprints.push(copy_fingerprint(&files[f].1));
        let lines = split_lines(&text);
        let ghost base = occ;
        let mut l: usize = 0;
        assert(views(lines@).take(0) =~= Seq::<Seq<char>>::empty());
        while l < lines.len()
            invariant
                l <= lines@.len(),
                views(lines@) == lines_of(text@),
                occ == base + file_occurrences(rel@, views(lines@).take(l as int)),
                occ.len() == rels@.len(),
                occ.len() == keys@.len(),
                occ.len() == vals@.len(),
                forall|j: int| 0 <= j < occ.len() ==> (#[trigger] occ[j]).0 == rels@[j]@ && occ[j].1 == keys@[j]@ && occ[j].2 == vals@[j]@,
            decreases lines.len() - l,
        {
            let ghost seen = views(lines@).take(l as int);
            assert(views(lines@).take(l + 1).drop_last() =~= seen);
            assert(views(lines@).take(l + 1).last() == lines@[l as int]@);
            match parse_line(&lines[l], false) {
                Ok(Some(p)) => {
                    proof {
                        occ = occ.push((rel@, p.key@, p.value@));
                        assert(base + file_occurrences(rel@, views(lines@).take(l + 1)) =~= occ);
                    }
                    rels.push(slice_of_all(&rel));
                    keys.push(p.key);
                    vals.push(p.value);
                },
                _ => {},
            }
            l = l + 1;
        }
        assert(views(lines@).take(lines@.len() as int) =~= views(lines@));
        f = f + 1;
    }
    assert(texts.take(files@.len() as int) =~= texts);
    let defs = field_definitions();
    let mut entries: Vec<ConfigEntryState> = Vec::new();
    let mut d: usize = 0;
    while d < FIELD_COUNT
        invariant
            d <= FIELD_COUNT,
            texts == files@.map_values(|f: (String, ConfigFileFingerprint, String)| (f.0@, f.2@)),
            occ == all_occurrences(texts),
            fingerprints@.len() == files@.len(),
            forall|j: int| 0 <= j < files@.len() ==> same_fingerprint(#[trigger] fingerprints@[j], files@[j].1),
            is_field_table(defs@),
            occ.len() == rels@.len(),
            occ.len() == keys@.len(),
            occ.len() == vals@.len(),
            forall|j: int| 0 <= j < occ.len() ==> (#[trigger] occ[j]).0 == rels@[j]@ && occ[j].1 == keys@[j]@ && occ[j].2 == vals@[j]@,
            entries@.len() == d,
            forall|i: int| 0 <= i < d ==> entry_state_is(#[trigger] entries@[i], i, occ),
        decreases FIELD_COUNT - d,
    {
        let key = chars_of(defs[d].key.as_str());
        let mut values: Vec<Vec<char>> = Vec::new();
        let mut locations: Vec<Vec<char>> = Vec::new();
        let mut j: usize = 0;
        assert(occ.take(0) =~= Seq::<(Seq<char>, Seq<char>, Seq<char>)>::empty());
        while j < keys.len()
            invariant
                j <= occ.len(),
                occ.len() == rels@.len(),
                occ.len() == keys@.len(),
                occ.len() == vals@.len(),
                forall|x: int| 0 <= x < occ.len() ==> (#[trigger] occ[x]).0 == rels@[x]@ && occ[x].1 == keys@[x]@ && occ[x].2 == vals@[x]@,
                views(values@) == values_for(occ.take(j as int), key@),
                views(locations@) == locations_for(occ.take(j as int), key@),
            decreases keys.len() - j,
        {
            assert(occ.take(j + 1).drop_last() =~= occ.take(j as int));
            assert(occ.take(j + 1).last() == occ[j as int]);
            if seq_eq(&keys[j], &key) {
                if !holds(&values, &vals[j]) {
                    let ghost pv = views(values@);
                    values.push(slice_of_all(&vals[j]));
                    assert(views(values@) =~= pv.push(vals@[j as int]@));
                }
                if !holds(&locations, &rels[j]) {
                    let ghost pl = views(locations@);
                    locations.push(slice_of_all(&rels[j]));
                    assert(views(locations@) =~= pl.push(rels@[j as int]@));
                }
            }
            j = j + 1;
        }
        assert(occ.take(occ.len() as int) =~= occ);
        let n = values.len();
        let value = if n == 1 {
            Some(string_of(&values[0]))
        } else {
            None
        };
        let e = ConfigEntryState {
            key: string_of(&key),
            label: defs[d].label.clone(),
            section: defs[d].section,
            present: n > 0,
            value,
            values: strings_of(&values),
            locations: strings_of(&locations),
            conflict: n > 1,
        };
        entries.push(e);
        d = d + 1;
    }
    GameConfigSnapshot { game, detected: files.len() > 0, root_path, files: fingerprints, entries }
}

/// Two fingerprints name the same path, digest and size.
pub open spec fn same_fingerprint(a: ConfigFileFingerprint, b: ConfigFileFingerprint) -> bool {
    a.path@ == b.path@ && a.sha256@ == b.sha256@ && a.size == b.size
}

pub fn copy_fingerprint(f: &ConfigFileFingerprint) -> (c: ConfigFileFingerprint)
    ensures
        same_fingerprint(c, *f),
{
    ConfigFileFingerprint { path: f.path.clone(), sha256: f.sha256.clone(), size: f.size }
}

/// A copy of `s`.
fn slice_of_all(s: &[char]) -> (r: Vec<char>)
    ensures
        r@ == s@,
{
    let r = crate::text::slice_of(s, 0, s.len());
    assert(s@.subrange(0, s@.len() as int) =~= s@);
    r
}

/// A setting's values are each listed once: no value of `values_for`
/// repeats (and likewise no file of `locations_for`).
pub proof fn law_values_listed_once(occ: Seq<(Seq<char>, Seq<char>, Seq<char>)>, key: Seq<char>)
    ensures
        forall|i: int, j: int|
            0 <= i < j < values_for(occ, key).len() ==> values_for(occ, key)[i] != values_for(
                occ,
                key,
            )[j],
        forall|i: int, j: int|
            0 <= i < j < locations_for(occ, key).len() ==> locations_for(occ, key)[i]
                != locations_for(occ, key)[j],
    decreases occ.len(),
{
    if occ.len() > 0 {
        law_values_listed_once(occ.drop_last(), key);
        let r = values_for(occ.drop_last(), key);
        let l = locations_for(occ.drop_last(), key);
        if occ.last().1 == key && !r.contains(occ.last().2) {
            assert forall|i: int| 0 <= i < r.len() implies r[i] != occ.last().2 by {}
        }
        if occ.last().1 == key && !l.contains(occ.last().0) {
            assert forall|i: int| 0 <= i < l.len() implies l[i] != occ.last().0 by {}
        }
    }
}

proof fn lemma_file_occurrences_name(rel: Seq<char>, lines: Seq<Seq<char>>)
    ensures
        forall|k: int| 0 <= k < file_occurrences(rel, lines).len() ==> (#[trigger] file_occurrences(rel, lines)[k]).0 == rel,
    decreases lines.len(),
{
    if lines.len() > 0 {
        lemma_file_occurrences_name(rel, lines.drop_last());
        let r = file_occurrences(rel, lines.drop_last());
        let f = file_occurrences(rel, lines);
        assert forall|k: int| 0 <= k < f.len() implies (#[trigger] f[k]).0 == rel by {
            if k < r.len() {
                assert(f[k] == r[k]);
            }
        }
    }
}

proof fn lemma_all_occurrences_names(files: Seq<(Seq<char>, Seq<char>)>)
    ensures
        forall|k: int| 0 <= k < all_occurrences(files).len() ==> files.map_values(
            |f: (Seq<char>, Seq<char>)| f.0,
        ).contains((#[trigger] all_occurrences(files)[k]).0),
    decreases files.len(),
{
    if files.len() > 0 {
        let init = files.drop_last();
        lemma_all_occurrences_names(init);
        let a = all_occurrences(init);
        let b = file_occurrences(files.last().0, lines_of(files.last().1));
        lemma_file_occurrences_name(files.last().0, lines_of(files.last().1));
        let names = files.map_values(|f: (Seq<char>, Seq<char>)| f.0);
        let init_names = init.map_values(|f: (Seq<char>, Seq<char>)| f.0);
        assert forall|k: int| 0 <= k < all_occurrences(files).len() implies names.contains(
            (#[trigger] all_occurrences(files)[k]).0,
        ) by {
            if k < a.len() {
                assert(all_occurrences(files)[k] == a[k]);
                assert(init_names.contains(a[k].0));
                let w = choose|w: int| 0 <= w < init_names.len() && init_names[w] == a[k].0;
                assert(names[w] == init_names[w]);
            } else {
                assert(all_occurrences(files)[k] == b[k - a.len()]);
                assert(names[files.len() - 1] == files.last().0);
            }
        }
    }
}

proof fn lemma_locations_seen(occ: Seq<(Seq<char>, Seq<char>, Seq<char>)>, key: Seq<char>)
    ensures
        forall|m: int| #![trigger locations_for(occ, key)[m]] 0 <= m < locations_for(occ, key).len() ==> exists|k: int| 0 <= k < occ.len()
            && (#[trigger] occ[k]).0 == locations_for(occ, key)[m],
    decreases occ.len(),
{
    if occ.len() > 0 {
        lemma_locations_seen(occ.drop_last(), key);
        let r = locations_for(occ.drop_last(), key);
        assert forall|m: int| #![trigger locations_for(occ, key)[m]] 0 <= m < locations_for(occ, key).len() implies exists|k: int| 0 <= k < occ.len()
            && (#[trigger] occ[k]).0 == locations_for(occ, key)[m] by {
            if m < r.len() {
                let k = choose|k: int| 0 <= k < occ.drop_last().len() && (#[trigger] occ.drop_last()[k]).0 == r[m];
                assert(occ[k] == occ.drop_last()[k]);
            } else {
                assert(occ[occ.len() - 1].0 == locations_for(occ, key)[m]);
            }
        }
    }
}

/// A setting's locations are among the files scanned: each one is the
/// name of a file given to the scan.
pub proof fn law_locations_within_files(files: Seq<(Seq<char>, Seq<char>)>, key: Seq<char>)
    ensures
        forall|m: int| 0 <= m < locations_for(all_occurrences(files), key).len() ==> files.map_values(
            |f: (Seq<char>, Seq<char>)| f.0,
        ).contains(#[trigger] locations_for(all_occurrences(files), key)[m]),
{
    let occ = all_occurrences(files);
    lemma_all_occurrences_names(files);
    lemma_locations_seen(occ, key);
    assert forall|m: int| 0 <= m < locations_for(occ, key).len() implies files.map_values(
        |f: (Seq<char>, Seq<char>)| f.0,
    ).contains(#[trigger] locations_for(occ, key)[m]) by {
        let k = choose|k: int| 0 <= k < occ.len() && (#[trigger] occ[k]).0 == locations_for(occ, key)[m];
        assert(files.map_values(|f: (Seq<char>, Seq<char>)| f.0).contains(occ[k].0));
    }
}

/// What a scan of a game's config files gives: the game, detected exactly
/// when a file was read, one entry per setting in the order of
/// `field_definitions`; each entry present exactly when a value was found,
/// in conflict exactly when more than one was, with its value when exactly
/// one was; its values and its locations each listed once, and each
/// location one of the files read (so, when only the two config files are
/// read, one of those two).
pub proof fn law_snapshot_shape(
    s: GameConfigSnapshot,
    game: ConfigGame,
    root: Seq<char>,
    files: Seq<(String, ConfigFileFingerprint, String)>,
)
    requires
        snapshot_of(s, game, root, files),
        forall|j: int|
            0 <= j < files.len() ==> (#[trigger] files[j]).0@ == SETTINGS_RELATIVE_PATH@
                || files[j].0@ == PROFILE_RELATIVE_PATH@,
    ensures
        s.game == game,
        s.detected == (files.len() > 0),
        s.entries@.len() == FIELD_COUNT,
        forall|i: int|
            0 <= i < FIELD_COUNT ==> {
                let e = #[trigger] s.entries@[i];
                &&& e.key@ == field_keys()[i]
                &&& e.present == (e.values@.len() > 0)
                &&& e.conflict == (e.values@.len() > 1)
                &&& (e.value matches Some(v) ==> e.values@.len() == 1 && v@ == e.values@[0]@)
                &&& (e.value is None ==> e.values@.len() != 1)
                &&& forall|a: int, b: int|
                    0 <= a < b < e.values@.len() ==> e.values@[a]@ != e.values@[b]@
                &&& forall|a: int, b: int|
                    0 <= a < b < e.locations@.len() ==> e.locations@[a]@ != e.locations@[b]@
                &&& forall|a: int|
                    0 <= a < e.locations@.len() ==> e.locations@[a]@ == SETTINGS_RELATIVE_PATH@
                        || e.locations@[a]@ == PROFILE_RELATIVE_PATH@
            },
{
    let texts = file_texts(files);
    let occ = all_occurrences(texts);
    let names = texts.map_values(|f: (Seq<char>, Seq<char>)| f.0);
    assert forall|i: int| 0 <= i < FIELD_COUNT implies {
        let e = #[trigger] s.entries@[i];
        &&& e.key@ == field_keys()[i]
        &&& e.present == (e.values@.len() > 0)
        &&& e.conflict == (e.values@.len() > 1)
        &&& (e.value matches Some(v) ==> e.values@.len() == 1 && v@ == e.values@[0]@)
        &&& (e.value is None ==> e.values@.len() != 1)
        &&& forall|a: int, b: int| 0 <= a < b < e.values@.len() ==> e.values@[a]@ != e.values@[b]@
        &&& forall|a: int, b: int|
            0 <= a < b < e.locations@.len() ==> e.locations@[a]@ != e.locations@[b]@
        &&& forall|a: int|
            0 <= a < e.locations@.len() ==> e.locations@[a]@ == SETTINGS_RELATIVE_PATH@
                || e.locations@[a]@ == PROFILE_RELATIVE_PATH@
    } by {
        let e = s.entries@[i];
        let key = field_keys()[i];
        assert(entry_state_is(e, i, occ));
        law_values_listed_once(occ, key);
        law_locations_within_files(texts, key);
        let vals = values_for(occ, key);
        let locs = locations_for(occ, key);
        assert(string_views(e.values@) == vals);
        assert(string_views(e.locations@) == locs);
        assert forall|a: int| 0 <= a < e.values@.len() implies e.values@[a]@ == vals[a] by {
            assert(string_views(e.values@)[a] == e.values@[a]@);
        }
        assert forall|a: int, b: int| 0 <= a < b < e.values@.len() implies e.values@[a]@
            != e.values@[b]@ by {
            assert(string_views(e.values@)[a] == e.values@[a]@);
            assert(string_views(e.values@)[b] == e.values@[b]@);
            assert(vals[a] != vals[b]);
        }
        assert forall|a: int, b: int| 0 <= a < b < e.locations@.len() implies e.locations@[a]@
            != e.locations@[b]@ by {
            assert(string_views(e.locations@)[a] == e.locations@[a]@);
            assert(string_views(e.locations@)[b] == e.locations@[b]@);
            assert(locs[a] != locs[b]);
        }
        assert forall|a: int| 0 <= a < e.locations@.len() implies e.locations@[a]@ == locs[a] by {
            assert(string_views(e.locations@)[a] == e.locations@[a]@);
        }
        assert forall|a: int| 0 <= a < e.locations@.len() implies e.locations@[a]@
            == SETTINGS_RELATIVE_PATH@ || e.locations@[a]@ == PROFILE_RELATIVE_PATH@ by {
            assert(locs[a] == e.locations@[a]@);
            assert(names.contains(locs[a]));
            let w = choose|w: int| 0 <= w < names.len() && names[w] == locs[a];
            assert(names[w] == texts[w].0);
            assert(texts[w].0 == files[w].0@);
        }
    }
}

} // verus!
