//! The game's `checksums.json` manifest and the rules that pick which of
//! its files the launcher installs.

use crate::error::AppError;
use crate::text::{
    chars_of, concat, contains, contains_seq, eq_ic, eq_ignore_case, in_set, lower_seq,
    replace_char, replace_char_seq, string_of, to_ascii_lower, trim, trim_end_by, trim_end_in,
    trim_ws, upper, upper_seq, lower,
};
use crate::url_text::{parse_url, url_parse_error, url_parsed, url_with_query_pair, with_query_pair};
use vstd::prelude::*;

verus! {

/// The whole manifest.
#[derive(Debug, Clone, Default)]
pub struct GameManifest {
    pub game_version: String,
    pub blog_slug: String,
    pub languages: Vec<String>,
    pub files: Vec<ManifestEntry>,
}

/// One file of the game.
#[derive(Debug, Clone, Default)]
pub struct ManifestEntry {
    pub path: String,
    pub size: u64,
    /// SHA-256 hex, lowercase.
    pub checksum: String,
    pub optional: bool,
    pub language: String,
    pub parts: Vec<FileChunk>,
}

/// One downloadable part of a large file.
#[derive(Debug, Clone, Default)]
pub struct FileChunk {
    pub path: String,
    pub checksum: String,
    pub size: u64,
}

/// A path in the user's own data (configs, screenshots, logs), which the
/// launcher never overwrites.
pub open spec fn is_user_generated_spec(path: Seq<char>) -> bool {
    let p = replace_char(lower_seq(path), '/', '\\');
    ||| contains_seq(p, "platform\\cfg\\user"@)
    ||| contains_seq(p, "platform\\screenshots"@)
    ||| contains_seq(p, "platform\\logs"@)
}

/// Some wanted language equals `language`, ignoring ASCII case.
pub open spec fn language_wanted(language: Seq<char>, wanted: Seq<&str>) -> bool {
    exists|i: int| 0 <= i < wanted.len() && eq_ic(#[trigger] wanted[i]@, language)
}

pub open spec fn is_language_match_spec(language: Seq<char>, wanted: Seq<&str>) -> bool {
    language.len() == 0 || language_wanted(language, wanted)
}

/// User-generated files we never overwrite. Both separators are checked
/// because the manifest can hold either.
pub fn is_user_generated(path: &str) -> (b: bool)
    ensures
        b == is_user_generated_spec(path@),
{
    let c = chars_of(path);
    let lowered = to_ascii_lower(&c);
    let p = replace_char_seq(&lowered, '/', '\\');
    let a = chars_of("platform\\cfg\\user");
    let b = chars_of("platform\\screenshots");
    let d = chars_of("platform\\logs");
    contains(&p, &a) || contains(&p, &b) || contains(&p, &d)
}

/// Whether this file is in one of the languages to install. Files with an
/// empty `language` belong to the base game and always match.
pub fn is_language_match(entry: &ManifestEntry, wanted: &[&str]) -> (b: bool)
    ensures
        b == is_language_match_spec(entry.language@, wanted@),
{
    let lang = chars_of(entry.language.as_str());
    if lang.len() == 0 {
        return true;
    }
    let mut i: usize = 0;
    while i < wanted.len()
        invariant
            i <= wanted.len(),
            lang@ == entry.language@,
            forall|j: int| 0 <= j < i ==> !eq_ic(#[trigger] wanted@[j]@, lang@),
        decreases wanted.len() - i,
    {
        let w = chars_of(wanted[i]);
        if eq_ignore_case(&w, &lang) {
            return true;
        }
        i = i + 1;
    }
    false
}

/// Whether the installer wants this entry: not user data, and either an
/// HD texture pack the user asked for, a base-game file, or a file in a
/// wanted language.
pub open spec fn entry_wanted(e: ManifestEntry, hd_textures: bool, wanted: Seq<&str>) -> bool {
    &&& !is_user_generated_spec(e.path@)
    &&& if e.optional {
        hd_textures && e.language@.len() == 0
    } else if e.language@.len() == 0 {
        true
    } else {
        is_language_match_spec(e.language@, wanted)
    }
}

/// Indices of the wanted entries among the first `n`, in order.
pub open spec fn wanted_indices(files: Seq<ManifestEntry>, hd_textures: bool, wanted: Seq<&str>, n: nat) -> Seq<usize>
    decreases n,
{
    if n == 0 {
        Seq::empty()
    } else {
        let r = wanted_indices(files, hd_textures, wanted, (n - 1) as nat);
        if entry_wanted(files[n - 1], hd_textures, wanted) {
            r.push((n - 1) as usize)
        } else {
            r
        }
    }
}

pub fn is_entry_wanted(e: &ManifestEntry, hd_textures: bool, wanted: &[&str]) -> (b: bool)
    ensures
        b == entry_wanted(*e, hd_textures, wanted@),
{
    if is_user_generated(e.path.as_str()) {
        return false;
    }
    let lang_empty = e.language.as_str().is_empty();
    if e.optional {
        hd_textures && lang_empty
    } else if lang_empty {
        true
    } else {
        is_language_match(e, wanted)
    }
}

/// The files an install or update must check: indices into `files` of the
/// wanted entries, in manifest order.
pub fn install_candidates(files: &Vec<ManifestEntry>, hd_textures: bool, wanted: &[&str]) -> (r:
    Vec<usize>)
    ensures
        r@ == wanted_indices(files@, hd_textures, wanted@, files@.len()),
{
    let mut r: Vec<usize> = Vec::new();
    let mut i: usize = 0;
    while i < files.len()
        invariant
            i <= files.len(),
            r@ == wanted_indices(files@, hd_textures, wanted@, i as nat),
        decreases files.len() - i,
    {
        if is_entry_wanted(&files[i], hd_textures, wanted) {
            r.push(i);
        }
        i = i + 1;
    }
    r
}

/// Whether a file found on disk must be downloaded again: it is missing,
/// or it has a checksum that its SHA-256 (`actual`) does not match,
/// ignoring ASCII case.  A file without a checksum is trusted as it is.
pub open spec fn needs_download_spec(exists: bool, checksum: Seq<char>, actual: Seq<char>) -> bool {
    if !exists {
        true
    } else if checksum.len() == 0 {
        false
    } else {
        !eq_ic(actual, checksum)
    }
}

pub fn needs_download(exists: bool, checksum: &str, actual: &str) -> (b: bool)
    ensures
        b == needs_download_spec(exists, checksum@, actual@),
{
    if !exists {
        return true;
    }
    let c = chars_of(checksum);
    if c.len() == 0 {
        return false;
    }
    let a = chars_of(actual);
    !eq_ignore_case(&a, &c)
}

/// Sum of the sizes of the chosen entries, or `None` where it does not fit.
pub open spec fn sizes_sum(files: Seq<ManifestEntry>, idx: Seq<usize>) -> int
    decreases idx.len(),
{
    if idx.len() == 0 {
        0
    } else {
        sizes_sum(files, idx.drop_last()) + files[idx.last() as int].size as int
    }
}

/// Total bytes to download for the planned entries.
pub fn total_size(files: &Vec<ManifestEntry>, plan: &Vec<usize>) -> (r: Option<u64>)
    requires
        forall|k: int| 0 <= k < plan@.len() ==> plan@[k] < files@.len(),
    ensures
        match r {
            Some(t) => t == sizes_sum(files@, plan@),
            None => sizes_sum(files@, plan@) > u64::MAX,
        },
{
    let mut t: u64 = 0;
    let mut k: usize = 0;
    while k < plan.len()
        invariant
            k <= plan.len(),
            forall|j: int| 0 <= j < plan@.len() ==> plan@[j] < files@.len(),
            t == sizes_sum(files@, plan@.take(k as int)),
        decreases plan.len() - k,
    {
        assert(plan@.take(k + 1).drop_last() =~= plan@.take(k as int));
        let s = files[plan[k]].size;
        if t > u64::MAX - s {
            proof {
                lemma_sizes_sum_mono(files@, plan@, (k + 1) as int);
            }
            return None;
        }
        t = t + s;
        k = k + 1;
    }
    assert(plan@.take(plan@.len() as int) =~= plan@);
    Some(t)
}

proof fn lemma_sizes_sum_mono(files: Seq<ManifestEntry>, idx: Seq<usize>, k: int)
    requires
        0 <= k <= idx.len(),
    ensures
        sizes_sum(files, idx.take(k)) <= sizes_sum(files, idx),
    decreases idx.len(),
{
    if k < idx.len() {
        lemma_sizes_sum_mono(files, idx.drop_last(), k);
        assert(idx.drop_last().take(k) =~= idx.take(k));
    } else {
        assert(idx.take(k) =~= idx);
    }
}

/// Where a channel's manifest is: its game URL without trailing `/`,
/// then `/checksums.json`.
pub open spec fn manifest_raw_url(game_url: Seq<char>) -> Seq<char> {
    trim_end_by(game_url, in_set(seq!['/'])) + "/checksums.json"@
}

/// The manifest's URL, parsed, asking for `version=<hint>` when a version
/// is wanted (the hint trimmed, and not blank).  A URL that does not parse
/// is refused with the parser's message.
pub fn manifest_url(game_url: &str, version_hint: Option<&str>) -> (r: Result<String, AppError>)
    ensures
        match url_parsed(manifest_raw_url(game_url@)) {
            None => r matches Err(AppError::Manifest(m)) && m@ == "checksums.json URL 无效: "@
                + url_parse_error(manifest_raw_url(game_url@)),
            Some(t) => r matches Ok(u) && u@ == (if version_hint matches Some(h) && trim(h@).len() > 0 {
                url_with_query_pair(t, "version"@, trim(version_hint->0@))
            } else {
                t
            }),
        },
{
    let g = chars_of(game_url);
    let slash = vec!['/'];
    assert(slash@ =~= seq!['/']);
    let base = trim_end_in(&g, &slash);
    let tail = chars_of("/checksums.json");
    let raw = string_of(&concat(&base, &tail));
    let parsed = match parse_url(raw.as_str()) {
        Ok(t) => t,
        Err(e) => {
            let head = chars_of("checksums.json URL 无效: ");
            let ec = chars_of(e.as_str());
            return Err(AppError::Manifest(string_of(&concat(&head, &ec))));
        },
    };
    match version_hint {
        Some(h) => {
            let hc = chars_of(h);
            let v = trim_ws(&hc);
            if v.len() > 0 {
                let vs = string_of(&v);
                return Ok(with_query_pair(parsed.as_str(), "version", vs.as_str()));
            }
            Ok(parsed)
        },
        None => Ok(parsed),
    }
}

/// The path as `is_user_generated` compares it.
pub open spec fn normalized_path(path: Seq<char>) -> Seq<char> {
    replace_char(lower_seq(path), '/', '\\')
}

proof fn lemma_lower_upper(c: char)
    ensures
        lower(upper(c)) == lower(c),
{
    if 'a' <= c && c <= 'z' {
        assert((((c as u32) - 32) as char) as u32 == (c as u32) - 32);
    }
}

/// Whether a path is the user's own data does not depend on letter case
/// or on which separator it uses.
pub proof fn law_user_generated_ignores_case_and_separators(path: Seq<char>)
    ensures
        is_user_generated_spec(upper_seq(path)) == is_user_generated_spec(path),
        is_user_generated_spec(lower_seq(path)) == is_user_generated_spec(path),
        is_user_generated_spec(replace_char(path, '\\', '/')) == is_user_generated_spec(path),
        is_user_generated_spec(replace_char(path, '/', '\\')) == is_user_generated_spec(path),
{
    assert(normalized_path(upper_seq(path)) =~= normalized_path(path)) by {
        assert forall|i: int| 0 <= i < path.len() implies normalized_path(upper_seq(path))[i]
            == normalized_path(path)[i] by {
            lemma_lower_upper(path[i]);
        }
    }
    assert(normalized_path(lower_seq(path)) =~= normalized_path(path)) by {
        assert forall|i: int| 0 <= i < path.len() implies normalized_path(lower_seq(path))[i]
            == normalized_path(path)[i] by {
            let c = path[i];
            if 'A' <= c && c <= 'Z' {
                assert((((c as u32) + 32) as char) as u32 == (c as u32) + 32);
            }
        }
    }
    assert(normalized_path(replace_char(path, '\\', '/')) =~= normalized_path(path));
    assert(normalized_path(replace_char(path, '/', '\\')) =~= normalized_path(path));
}

proof fn lemma_normalized_contains(p: Seq<char>, a: Seq<char>)
    requires
        contains_seq(lower_seq(p), a),
    ensures
        contains_seq(normalized_path(p), replace_char(a, '/', '\\')),
{
    let i = choose|i: int| crate::text::matches_at(lower_seq(p), a, i);
    let n = normalized_path(p);
    let b = replace_char(a, '/', '\\');
    assert(lower_seq(p).subrange(i, i + a.len()) == a);
    assert forall|k: int| 0 <= k < b.len() implies #[trigger] n.subrange(i, i + b.len())[k] == b[k] by {
        assert(lower_seq(p).subrange(i, i + a.len())[k] == a[k]);
    }
    assert(n.subrange(i, i + b.len()) =~= b);
    assert(crate::text::matches_at(n, b, i));
}

/// A path is the user's own data whenever it holds `platform/cfg/user`,
/// `platform/screenshots` or `platform/logs`, in any letter case and with
/// either separator.
pub proof fn law_user_data_paths(p: Seq<char>)
    ensures
        contains_seq(lower_seq(p), "platform/cfg/user"@) ==> is_user_generated_spec(p),
        contains_seq(lower_seq(p), "platform\\cfg\\user"@) ==> is_user_generated_spec(p),
        contains_seq(lower_seq(p), "platform/screenshots"@) ==> is_user_generated_spec(p),
        contains_seq(lower_seq(p), "platform\\screenshots"@) ==> is_user_generated_spec(p),
        contains_seq(lower_seq(p), "platform/logs"@) ==> is_user_generated_spec(p),
        contains_seq(lower_seq(p), "platform\\logs"@) ==> is_user_generated_spec(p),
{
    reveal_strlit("platform/cfg/user");
    reveal_strlit("platform\\cfg\\user");
    reveal_strlit("platform/screenshots");
    reveal_strlit("platform\\screenshots");
    reveal_strlit("platform/logs");
    reveal_strlit("platform\\logs");
    assert(replace_char("platform/cfg/user"@, '/', '\\') =~= "platform\\cfg\\user"@);
    assert(replace_char("platform\\cfg\\user"@, '/', '\\') =~= "platform\\cfg\\user"@);
    assert(replace_char("platform/screenshots"@, '/', '\\') =~= "platform\\screenshots"@);
    assert(replace_char("platform\\screenshots"@, '/', '\\') =~= "platform\\screenshots"@);
    assert(replace_char("platform/logs"@, '/', '\\') =~= "platform\\logs"@);
    assert(replace_char("platform\\logs"@, '/', '\\') =~= "platform\\logs"@);
    if contains_seq(lower_seq(p), "platform/cfg/user"@) {
        lemma_normalized_contains(p, "platform/cfg/user"@);
    }
    if contains_seq(lower_seq(p), "platform\\cfg\\user"@) {
        lemma_normalized_contains(p, "platform\\cfg\\user"@);
    }
    if contains_seq(lower_seq(p), "platform/screenshots"@) {
        lemma_normalized_contains(p, "platform/screenshots"@);
    }
    if contains_seq(lower_seq(p), "platform\\screenshots"@) {
        lemma_normalized_contains(p, "platform\\screenshots"@);
    }
    if contains_seq(lower_seq(p), "platform/logs"@) {
        lemma_normalized_contains(p, "platform/logs"@);
    }
    if contains_seq(lower_seq(p), "platform\\logs"@) {
        lemma_normalized_contains(p, "platform\\logs"@);
    }
}

proof fn lemma_wanted_indices(files: Seq<ManifestEntry>, hd: bool, wanted: Seq<&str>, n: nat)
    requires
        n <= files.len(),
        files.len() <= usize::MAX,
    ensures
        forall|k: int|
            0 <= k < wanted_indices(files, hd, wanted, n).len() ==> (#[trigger] wanted_indices(
                files,
                hd,
                wanted,
                n,
            )[k]) < n,
        forall|i: int|
            0 <= i < n ==> (wanted_indices(files, hd, wanted, n).contains(i as usize) <==> entry_wanted(
                #[trigger] files[i],
                hd,
                wanted,
            )),
    decreases n,
{
    if n > 0 {
        let m = (n - 1) as nat;
        lemma_wanted_indices(files, hd, wanted, m);
        let r = wanted_indices(files, hd, wanted, m);
        let w = wanted_indices(files, hd, wanted, n);
        assert(w == if entry_wanted(files[m as int], hd, wanted) {
            r.push(m as usize)
        } else {
            r
        });
        assert forall|i: int| 0 <= i < n implies (w.contains(i as usize) <==> entry_wanted(
            #[trigger] files[i],
            hd,
            wanted,
        )) by {
            if i < m {
                assert(0 <= i < m);
                assert(r.contains(i as usize) <==> entry_wanted(files[i], hd, wanted));
                if r.contains(i as usize) {
                    let k = choose|k: int| 0 <= k < r.len() && r[k] == i as usize;
                    assert(w[k] == r[k]);
                    assert(w.contains(i as usize));
                }
                if w.contains(i as usize) {
                    let k = choose|k: int| 0 <= k < w.len() && w[k] == i as usize;
                    if k < r.len() {
                        assert(w[k] == r[k]);
                        assert(r.contains(i as usize));
                    } else {
                        assert(w[k] == m as usize);
                    }
                }
            } else {
                if entry_wanted(files[i], hd, wanted) {
                    assert(w[w.len() - 1] == m as usize);
                    assert(w.contains(i as usize));
                } else if w.contains(i as usize) {
                    let k = choose|k: int| 0 <= k < w.len() && w[k] == i as usize;
                    assert(w[k] == r[k]);
                }
            }
        }
    }
}

/// What an install checks: never a file of the user's own data; every
/// base-game file (not optional, no language); an optional file (an HD
/// texture pack) exactly when HD textures are wanted and it has no
/// language; a file in a language exactly when that language is among the
/// wanted ones (ignoring ASCII case).  All in manifest order, as indices
/// into the manifest (a manifest fits in memory, so its indices fit in
/// `usize`).
pub proof fn law_install_candidates(files: Seq<ManifestEntry>, hd: bool, wanted: Seq<&str>)
    requires
        files.len() <= usize::MAX,
    ensures
        ({
            let c = wanted_indices(files, hd, wanted, files.len());
            &&& forall|k: int|
                0 <= k < c.len() ==> (#[trigger] c[k]) < files.len()
                    && !is_user_generated_spec(files[c[k] as int].path@)
            &&& forall|i: int|
                0 <= i < files.len() && is_user_generated_spec(#[trigger] files[i].path@)
                    ==> !c.contains(i as usize)
            &&& forall|i: int|
                0 <= i < files.len() && !is_user_generated_spec(#[trigger] files[i].path@)
                    ==> (c.contains(i as usize) <==> if files[i].optional {
                    hd && files[i].language@.len() == 0
                } else if files[i].language@.len() == 0 {
                    true
                } else {
                    exists|j: int| 0 <= j < wanted.len() && eq_ic(#[trigger] wanted[j]@, files[i].language@)
                })
        }),
{
    lemma_wanted_indices(files, hd, wanted, files.len());
    let c = wanted_indices(files, hd, wanted, files.len());
    assert forall|k: int| 0 <= k < c.len() implies (#[trigger] c[k]) < files.len()
        && !is_user_generated_spec(files[c[k] as int].path@) by {
        let i = c[k] as int;
        assert(c.contains(i as usize));
        assert(entry_wanted(files[i], hd, wanted));
    }
}

/// A file is downloaded again exactly when it is missing, or it has a
/// checksum that its digest does not match; the digest is compared
/// ignoring ASCII case, so a file whose digest is the checksum in either
/// case is kept.
pub proof fn law_needs_download(exists: bool, checksum: Seq<char>, actual: Seq<char>)
    ensures
        !exists ==> needs_download_spec(exists, checksum, actual),
        exists && checksum.len() == 0 ==> !needs_download_spec(exists, checksum, actual),
        exists && checksum.len() > 0 ==> (needs_download_spec(exists, checksum, actual) <==> lower_seq(
            actual,
        ) != lower_seq(checksum)),
        exists ==> !needs_download_spec(exists, checksum, checksum),
        exists ==> !needs_download_spec(exists, checksum, upper_seq(checksum)),
{
    assert(lower_seq(upper_seq(checksum)) =~= lower_seq(checksum)) by {
        assert forall|i: int| 0 <= i < checksum.len() implies lower_seq(upper_seq(checksum))[i]
            == lower_seq(checksum)[i] by {
            lemma_lower_upper(checksum[i]);
        }
    }
}

/// A file with no language is always wanted whatever the languages asked
/// for; otherwise its language is wanted exactly when one of the wanted
/// languages names it ignoring ASCII case.
pub proof fn law_language_match(language: Seq<char>, wanted: Seq<&str>)
    ensures
        language.len() == 0 ==> is_language_match_spec(language, wanted),
        language.len() > 0 ==> (is_language_match_spec(language, wanted) <==> exists|j: int|
            0 <= j < wanted.len() && lower_seq(#[trigger] wanted[j]@) == lower_seq(language)),
        is_language_match_spec(upper_seq(language), wanted) == is_language_match_spec(language, wanted),
{
    assert(lower_seq(upper_seq(language)) =~= lower_seq(language)) by {
        assert forall|i: int| 0 <= i < language.len() implies lower_seq(upper_seq(language))[i]
            == lower_seq(language)[i] by {
            lemma_lower_upper(language[i]);
        }
    }
    assert(upper_seq(language).len() == language.len());
}

} // verus!
