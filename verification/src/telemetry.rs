//! The anonymous first-open report: where it is sent.

use crate::text::{chars_of, ends_with, ends_with_seq, in_set, slice_of, string_of, trim_end_by, trim_end_in};
use crate::url_text::{
    parse_url, path_of, text_opt, url_parsed, url_path, url_with_path, url_without_fragment,
    url_without_query, with_path, without_fragment, without_query,
};
use vstd::prelude::*;

verus! {

/// `s` without the suffix `suf`, if it ends with it.
pub open spec fn strip_suffix_spec(s: Seq<char>, suf: Seq<char>) -> Option<Seq<char>> {
    if ends_with(s, suf) {
        Some(s.take(s.len() - suf.len()))
    } else {
        None
    }
}

/// The usage endpoint beside a dashboard configuration URL: the URL's path
/// (trailing `/` dropped) must end in `/launcher/config`, which becomes
/// `/launcher/usage/open`; query and fragment are dropped.
pub open spec fn usage_url_spec(config_url: Seq<char>) -> Option<Seq<char>> {
    match url_parsed(config_url) {
        None => None,
        Some(t) => match strip_suffix_spec(
            trim_end_by(url_path(t), in_set(seq!['/'])),
            "/launcher/config"@,
        ) {
            None => None,
            Some(prefix) => match url_with_path(t, prefix + "/launcher/usage/open"@) {
                None => None,
                Some(u1) => match url_without_query(u1) {
                    None => None,
                    Some(u2) => url_without_fragment(u2),
                },
            },
        },
    }
}

/// Where the first-open report for the dashboard at `config_url` goes.
pub fn usage_open_url(config_url: &str) -> (r: Option<String>)
    ensures
        text_opt(r) == usage_url_spec(config_url@),
{
    let parsed = match parse_url(config_url) {
        Ok(t) => t,
        Err(_) => return None,
    };
    let path = chars_of(path_of(parsed.as_str()).as_str());
    let slash = vec!['/'];
    assert(slash@ =~= seq!['/']);
    let trimmed = trim_end_in(&path, &slash);
    let suffix = chars_of("/launcher/config");
    if !ends_with_seq(&trimmed, &suffix) {
        return None;
    }
    let prefix = slice_of(&trimmed, 0, trimmed.len() - suffix.len());
    let mut new_path = prefix;
    let tail = chars_of("/launcher/usage/open");
    let mut i: usize = 0;
    let ghost start = new_path@;
    while i < tail.len()
        invariant
            i <= tail@.len(),
            new_path@ == start + tail@.take(i as int),
        decreases tail.len() - i,
    {
        new_path.push(tail[i]);
        assert(tail@.take(i + 1) =~= tail@.take(i as int).push(tail@[i as int]));
        i = i + 1;
    }
    assert(tail@.take(tail@.len() as int) =~= tail@);
    let p = string_of(&new_path);
    let u1 = match with_path(parsed.as_str(), p.as_str()) {
        Some(u) => u,
        None => return None,
    };
    let u2 = match without_query(u1.as_str()) {
        Some(u) => u,
        None => return None,
    };
    without_fragment(u2.as_str())
}

/// An installation id is reported only when it is a version-4 UUID.
pub fn valid_installation_id(id: &str) -> (b: bool)
    ensures
        b == (crate::events::uuid_version(id@) == Some(4usize)),
{
    match crate::events::uuid_version_of(id) {
        Some(v) => v == 4,
        None => false,
    }
}

} // verus!
