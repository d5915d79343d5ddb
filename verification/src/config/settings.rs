//! The launcher's persisted settings: the parts that are plain values.

use crate::text::{chars_of, starts_with, starts_with_seq, string_of};
use crate::url_text::{host_of, text_opt, url_host};
use vstd::prelude::*;

verus! {

pub const SETTINGS_FILE: &'static str = "settings.json";

pub const CURRENT_SCHEMA: u32 = 1;

/// The default mirror CDN domain.
pub const DEFAULT_MIRROR_DOMAIN: &'static str = "cdn-r5r-org.sleep0.de";

/// The official CDN domain, the connectivity-test fallback.
pub const OFFICIAL_DOMAIN: &'static str = "cdn.r5r.org";

/// How many files download at once unless the user says otherwise.
pub const DEFAULT_CONCURRENCY: u32 = 4;

/// How an update resolves mismatched files: `Verify` re-downloads every
/// file whose digest differs; `Patch` applies a patch archive first.
#[derive(Debug, Clone, Copy, PartialEq, Eq, Structural)]
pub enum UpdateStrategy {
    Verify,
    Patch,
}

impl Default for UpdateStrategy {
    fn default() -> (s: Self)
        ensures
            s == UpdateStrategy::Verify,
    {
        UpdateStrategy::Verify
    }
}

/// What the launcher remembers of one channel.
#[derive(Debug, Clone, Default)]
pub struct PerChannelState {
    pub installed: bool,
    pub version: String,
    pub key: String,
    pub installed_languages: Vec<String>,
}

/// The schema version after loading: a missing (zero) version is the
/// current one.
pub fn migrated_schema(v: u32) -> (r: u32)
    ensures
        r == if v == 0 {
            CURRENT_SCHEMA
        } else {
            v
        },
{
    if v == 0 {
        CURRENT_SCHEMA
    } else {
        v
    }
}

/// The mirror domain after loading: an old full URL is cut down to its
/// host, when it parses and has one.
pub open spec fn migrated_domain_spec(domain: Seq<char>) -> Seq<char> {
    if starts_with(domain, "http://"@) || starts_with(domain, "https://"@) {
        match url_host(domain) {
            Some(h) => h,
            None => domain,
        }
    } else {
        domain
    }
}

pub fn migrated_mirror_domain(domain: &str) -> (r: String)
    ensures
        r@ == migrated_domain_spec(domain@),
{
    let d = chars_of(domain);
    let http = chars_of("http://");
    let https = chars_of("https://");
    if starts_with_seq(&d, &http) || starts_with_seq(&d, &https) {
        match host_of(domain) {
            Some(h) => h,
            None => string_of(&d),
        }
    } else {
        string_of(&d)
    }
}

/// The languages kept for a channel: those recorded, or Simplified
/// Chinese when none are.
pub fn languages_or_default(recorded: Vec<String>) -> (r: Vec<String>)
    ensures
        recorded@.len() > 0 ==> r@ == recorded@,
        recorded@.len() == 0 ==> r@.len() == 1 && r@[0]@ == "schinese"@,
{
    if recorded.len() > 0 {
        recorded
    } else {
        let mut v: Vec<String> = Vec::new();
        v.push(crate::text::string_from_str("schinese"));
        v
    }
}

/// The number of downloads run at once: the setting, but at least one.
pub fn normalized_download_concurrency(concurrent_downloads: u32) -> (r: u32)
    ensures
        r == if concurrent_downloads == 0 {
            1
        } else {
            concurrent_downloads
        },
{
    if concurrent_downloads == 0 {
        1
    } else {
        concurrent_downloads
    }
}

} // verus!
