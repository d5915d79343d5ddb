//! Version strings read from the installed game and from the dashboard.

use crate::text::{
    any_ws, chars_of, concat, eq_ic, eq_ignore_case, eq_pred, first_index, has_ws, in_set,
    index_of_char, one_char, set_has, slice_of, string_of, trim, trim_start_by, trim_start_in,
    trim_ws,
};
use vstd::prelude::*;

verus! {

/// The part of a manifest version from its first `-` on (`"-live"` of
/// `"2.6.51-live"`), or nothing when it has no `-`.
pub open spec fn dash_suffix(v: Seq<char>) -> Seq<char> {
    v.skip(first_index(v, eq_pred('-')) as int)
}

/// `s.trim().trim_start_matches('\u{feff}')`.
pub open spec fn strip_marker(s: Seq<char>) -> Seq<char> {
    trim_start_by(trim(s), in_set(seq!['\u{feff}']))
}

/// The version that a `build.txt` holding `contents` stands for, given the
/// version of the remote manifest.
pub open spec fn build_version_spec(contents: Seq<char>, remote_version: Seq<char>) -> Option<
    Seq<char>,
> {
    let raw = strip_marker(contents);
    if raw.len() < 5 || !eq_ic(raw.take(5), "R5R-v"@) {
        None
    } else {
        let build = trim(raw.skip(5));
        if build.len() == 0 || has_ws(build) {
            None
        } else if build.contains('-') {
            Some(build)
        } else {
            Some(build + dash_suffix(remote_version))
        }
    }
}

/// The dashboard's display version in the manifest's shape.
pub open spec fn community_version_spec(community: Seq<char>, manifest: Seq<char>) -> Option<
    Seq<char>,
> {
    let trimmed = trim(community);
    let stripped = if trimmed.len() > 0 && (trimmed[0] == 'v' || trimmed[0] == 'V') {
        trimmed.drop_first()
    } else {
        trimmed
    };
    let version = trim(stripped);
    if version.len() == 0 {
        None
    } else if version.contains('-') {
        Some(version)
    } else {
        Some(version + dash_suffix(manifest))
    }
}

pub open spec fn opt_view(o: Option<String>) -> Option<Seq<char>> {
    match o {
        Some(s) => Some(s@),
        None => None,
    }
}

/// `dash_suffix` of `v`.
fn dash_suffix_of(v: &[char]) -> (r: Vec<char>)
    ensures
        r@ == dash_suffix(v@),
{
    let i = index_of_char(v, '-');
    proof {
        crate::text::lemma_first_index(v@, eq_pred('-'));
    }
    let r = slice_of(v, i, v.len());
    assert(r@ =~= v@.skip(i as int));
    r
}

/// Read the installed game's build marker and convert it to the version
/// shape used by checksums.json: `R5R-v2.6.42` becomes `2.6.42-live` when
/// the remote manifest is `2.6.51-live`.
pub fn parse_build_version(contents: &str, remote_version: &str) -> (r: Option<String>)
    ensures
        opt_view(r) == build_version_spec(contents@, remote_version@),
{
    let c = chars_of(contents);
    let t = trim_ws(&c);
    let bom = one_char('\u{feff}');
    let raw = trim_start_in(&t, &bom);
    assert(raw@ == strip_marker(contents@));
    if raw.len() < 5 {
        return None;
    }
    let head = slice_of(&raw, 0, 5);
    let prefix = chars_of("R5R-v");
    assert(head@ == raw@.take(5));
    if !eq_ignore_case(&head, &prefix) {
        return None;
    }
    let rest = slice_of(&raw, 5, raw.len());
    assert(rest@ == raw@.skip(5));
    let build = trim_ws(&rest);
    if build.len() == 0 || any_ws(&build) {
        return None;
    }
    if set_has(&build, '-') {
        return Some(string_of(&build));
    }
    let rv = chars_of(remote_version);
    let suffix = dash_suffix_of(&rv);
    let out = concat(&build, &suffix);
    Some(string_of(&out))
}

/// Convert the dashboard's display version (`v2.6.51`) into the manifest
/// and patch version shape (`2.6.51-live`), borrowing the channel suffix
/// from the manifest version.
pub fn normalize_community_version(community_version: &str, manifest_version: &str) -> (r: Option<
    String,
>)
    ensures
        opt_view(r) == community_version_spec(community_version@, manifest_version@),
{
    let c = chars_of(community_version);
    let trimmed = trim_ws(&c);
    let stripped = if trimmed.len() > 0 && (trimmed[0] == 'v' || trimmed[0] == 'V') {
        slice_of(&trimmed, 1, trimmed.len())
    } else {
        slice_of(&trimmed, 0, trimmed.len())
    };
    assert(stripped@ =~= (if trimmed@.len() > 0 && (trimmed@[0] == 'v' || trimmed@[0] == 'V') {
        trimmed@.drop_first()
    } else {
        trimmed@
    }));
    let version = trim_ws(&stripped);
    if version.len() == 0 {
        return None;
    }
    if set_has(&version, '-') {
        return Some(string_of(&version));
    }
    let mv = chars_of(manifest_version);
    let suffix = dash_suffix_of(&mv);
    let out = concat(&version, &suffix);
    Some(string_of(&out))
}

} // verus!
