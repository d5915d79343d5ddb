//! The official remote launcher configuration and the channels it offers.

use crate::error::AppError;
use crate::text::{
    ascii_only, chars_of, concat, eq_ic, eq_ignore_case, eq_pred, starts_with, starts_with_seq, string_of,
    trim, trim_end_by, trim_end_in, trim_ws, upper, upper_seq,
};
use crate::url_text::{
    host_of, parse_url, port_of, scheme_of, text_opt, url_host, url_parsed, url_port,
    url_scheme, url_with_host, url_with_port, url_with_scheme, with_host, with_port,
    with_scheme,
};
use vstd::prelude::*;

verus! {

/// One channel of the remote configuration.
#[derive(Debug, Clone, Default)]
pub struct Channel {
    pub name: String,
    pub game_url: String,
    pub dedi_url: String,
    pub enabled: bool,
    pub requires_key: bool,
    pub allow_updates: bool,
    /// The channel-key header value, when `requires_key`; empty otherwise.
    pub key: String,
}

/// The official `config.json`.
#[derive(Debug, Clone, Default)]
pub struct RemoteConfig {
    pub launcher_version: String,
    pub updater_version: String,
    pub force_updates: bool,
    pub allow_updates: bool,
    pub self_updater: String,
    pub background_video: String,
    pub channels: Vec<Channel>,
}

/// The only channel served.
pub const DEFAULT_CHANNEL: &'static str = "LIVE";

/// `str::to_uppercase` (full Unicode case mapping) of `s`.
pub uninterp spec fn uppercase(s: Seq<char>) -> Seq<char>;

/// `str::to_uppercase`: named, not restated; on ASCII text it is the ASCII
/// upper case (`a`..`z` to `A`..`Z`, every other character kept), as
/// Unicode's case mapping of those characters is.
#[verifier::external_body]
pub(crate) fn to_upper(s: &str) -> (r: String)
    ensures
        r@ == uppercase(s@),
        ascii_only(s@) ==> r@ == upper_seq(s@),
{
    s.to_uppercase()
}

/// The folder for a channel whose name, upper-cased, is `u`: `LIVE` and
/// its API name `LIVE_GAME` share the `LIVE` folder.
pub open spec fn folder_for_upper(u: Seq<char>) -> Seq<char> {
    if u == "LIVE"@ || u == "LIVE_GAME"@ {
        "LIVE"@
    } else {
        u
    }
}

/// The folder for a channel whose upper-cased name is `u`.
pub fn folder_from_upper(u: &str) -> (r: String)
    ensures
        r@ == folder_for_upper(u@),
{
    let live = chars_of("LIVE");
    let live_game = chars_of("LIVE_GAME");
    let c = chars_of(u);
    if crate::text::seq_eq(&c, &live) || crate::text::seq_eq(&c, &live_game) {
        string_of(&live)
    } else {
        string_of(&c)
    }
}

/// The folder on disk for a channel: its name upper-cased, with the API
/// name `live_game` mapped to `LIVE`.
pub fn channel_folder_name(channel_name: &str) -> (r: String)
    ensures
        r@ == folder_for_upper(uppercase(channel_name@)),
        ascii_only(channel_name@) ==> r@ == folder_for_upper(upper_seq(channel_name@)),
{
    let u = to_upper(channel_name);
    folder_from_upper(u.as_str())
}

/// An ASCII channel name's folder is itself an ASCII name whose folder is
/// itself: naming the folder of a folder changes nothing.
pub proof fn law_folder_name_settles(name: Seq<char>)
    requires
        ascii_only(name),
    ensures
        ascii_only(folder_for_upper(upper_seq(name))),
        folder_for_upper(upper_seq(folder_for_upper(upper_seq(name)))) == folder_for_upper(
            upper_seq(name),
        ),
{
    let u = upper_seq(name);
    assert forall|i: int| 0 <= i < u.len() implies (#[trigger] u[i] as u32) < 128 by {
        assert((name[i] as u32) < 128);
    }
    assert forall|i: int| 0 <= i < u.len() implies #[trigger] upper(u[i]) == u[i] by {}
    assert(upper_seq(u) =~= u);
    let live = "LIVE"@;
    assert(live == seq!['L', 'I', 'V', 'E']) by {
        reveal_strlit("LIVE");
    }
    assert(upper_seq(live) =~= live);
    assert(ascii_only(live));
}

/// `domain` as a mirror origin: trimmed, without trailing `/`.
pub open spec fn clean_domain(domain: Seq<char>) -> Seq<char> {
    trim_end_by(trim(domain), eq_pred('/'))
}

/// `source` moved to the scheme, host and port of the mirror `domain`
/// (`https://` when it names none), without trailing `/`; `None` when a
/// step fails.
pub open spec fn replace_host_spec(source: Seq<char>, domain: Seq<char>) -> Option<Seq<char>> {
    let d = clean_domain(domain);
    let origin = if starts_with(d, "http://"@) || starts_with(d, "https://"@) {
        url_parsed(d)
    } else {
        url_parsed("https://"@ + d)
    };
    match url_parsed(source) {
        None => None,
        Some(u) => match origin {
            None => None,
            Some(o) => match url_with_host(u, url_host(o)) {
                None => None,
                Some(u1) => match url_with_port(u1, url_port(o)) {
                    None => None,
                    Some(u2) => match url_with_scheme(u2, url_scheme(o)) {
                        None => None,
                        Some(u3) => Some(trim_end_by(u3, eq_pred('/'))),
                    },
                },
            },
        },
    }
}

/// `source` served from the mirror `domain` instead.
pub fn replace_url_host(source: &str, domain: &str) -> (r: Option<String>)
    ensures
        text_opt(r) == replace_host_spec(source@, domain@),
{
    let url = match parse_url(source) {
        Ok(t) => t,
        Err(_) => return None,
    };
    let dc = chars_of(domain);
    let t = trim_ws(&dc);
    let slash = vec!['/'];
    let d = trim_end_in(&t, &slash);
    assert(crate::text::in_set(slash@) == eq_pred('/')) by {
        assert(slash@ =~= seq!['/']);
        assert forall|c: char| #[trigger] crate::text::in_set(slash@)(c) == eq_pred('/')(c) by {
            assert(slash@.contains(c) ==> slash@[0] == c);
            if c == '/' {
                assert(slash@[0] == c);
            }
        }
        assert(crate::text::in_set(slash@) =~= eq_pred('/'));
    }
    let http = chars_of("http://");
    let https = chars_of("https://");
    let origin_text = if starts_with_seq(&d, &http) || starts_with_seq(&d, &https) {
        string_of(&d)
    } else {
        let full = concat(&https, &d);
        string_of(&full)
    };
    let origin = match parse_url(origin_text.as_str()) {
        Ok(t) => t,
        Err(_) => return None,
    };
    let host = host_of(origin.as_str());
    let port = port_of(origin.as_str());
    let scheme = scheme_of(origin.as_str());
    let u1 = match &host {
        Some(h) => with_host(url.as_str(), Some(h.as_str()))?,
        None => with_host(url.as_str(), None)?,
    };
    let u2 = with_port(u1.as_str(), port)?;
    let u3 = with_scheme(u2.as_str(), scheme.as_str())?;
    let c3 = chars_of(u3.as_str());
    let out = trim_end_in(&c3, &slash);
    Some(string_of(&out))
}

/// Whether `config_name` (from the remote configuration) is the channel
/// `requested_name`: equal ignoring ASCII case, and `LIVE` and `live_game`
/// are both the channel `live`.
pub open spec fn channel_matches_spec(config_name: Seq<char>, requested: Seq<char>) -> bool {
    ||| eq_ic(config_name, requested)
    ||| (eq_ic(requested, "LIVE"@) && eq_ic(config_name, "live"@))
    ||| (eq_ic(requested, "live_game"@) && eq_ic(config_name, "live"@))
}

pub fn channel_name_matches(config_name: &str, requested_name: &str) -> (r: bool)
    ensures
        r == channel_matches_spec(config_name@, requested_name@),
{
    let c = chars_of(config_name);
    let q = chars_of(requested_name);
    let live_upper = chars_of("LIVE");
    let live = chars_of("live");
    let live_game = chars_of("live_game");
    eq_ignore_case(&c, &q) || (eq_ignore_case(&q, &live_upper) && eq_ignore_case(&c, &live)) || (
    eq_ignore_case(&q, &live_game) && eq_ignore_case(&c, &live))
}

impl Channel {
    /// The folder on disk for this channel: `R5R Library/<NAME>/`.
    pub fn folder_name(&self) -> (r: String)
        ensures
            r@ == folder_for_upper(uppercase(self.name@)),
            ascii_only(self.name@) ==> r@ == folder_for_upper(upper_seq(self.name@)),
    {
        channel_folder_name(self.name.as_str())
    }

    /// The channel `requested_name` as the remote configuration describes
    /// it, served from the mirror `override_domain` when one is given (and
    /// the URL can be moved there), with the user's key.
    pub fn from_remote(
        remote: &Channel,
        requested_name: &str,
        override_domain: Option<&str>,
        key: String,
    ) -> (c: Channel)
        ensures
            c.name@ == requested_name@,
            c.game_url@ == match override_domain {
                Some(d) => if trim(d@).len() > 0 && replace_host_spec(remote.game_url@, d@) is Some {
                    replace_host_spec(remote.game_url@, d@)->0
                } else {
                    remote.game_url@
                },
                None => remote.game_url@,
            },
            c.dedi_url@ == remote.dedi_url@,
            c.enabled == remote.enabled,
            c.requires_key == remote.requires_key,
            c.allow_updates == remote.allow_updates,
            c.key@ == key@,
    {
        let mut game_url = remote.game_url.clone();
        match override_domain {
            Some(d) => {
                let dc = chars_of(d);
                let t = trim_ws(&dc);
                if t.len() > 0 {
                    match replace_url_host(remote.game_url.as_str(), d) {
                        Some(u) => {
                            game_url = u;
                        },
                        None => {},
                    }
                }
            },
            None => {},
        }
        Channel {
            name: crate::text::string_from_str(requested_name),
            game_url,
            dedi_url: remote.dedi_url.clone(),
            enabled: remote.enabled,
            requires_key: remote.requires_key,
            allow_updates: remote.allow_updates,
            key,
        }
    }
}

/// The first channel of `chs` that is `requested`.
pub open spec fn matching_channel(chs: Seq<Channel>, requested: Seq<char>) -> Option<int>
    decreases chs.len(),
{
    if chs.len() == 0 {
        None
    } else {
        match matching_channel(chs.drop_last(), requested) {
            Some(i) => Some(i),
            None => if channel_matches_spec(chs.last().name@, requested) {
                Some(chs.len() - 1)
            } else {
                None
            },
        }
    }
}

proof fn lemma_matching_prefix(chs: Seq<Channel>, requested: Seq<char>, n: int)
    requires
        0 <= n <= chs.len(),
        matching_channel(chs.take(n), requested) is Some,
    ensures
        matching_channel(chs, requested) == matching_channel(chs.take(n), requested),
    decreases chs.len() - n,
{
    if n < chs.len() {
        assert(chs.take(n + 1).drop_last() =~= chs.take(n));
        lemma_matching_prefix(chs, requested, n + 1);
    } else {
        assert(chs.take(n) =~= chs);
    }
}

fn joined(head: &str, name: &str) -> (m: String)
    ensures
        m@ == head@ + name@,
{
    let a = chars_of(head);
    let b = chars_of(name);
    let ab = concat(&a, &b);
    string_of(&ab)
}

/// The first channel that is `requested_name`.
fn find_channel(chs: &Vec<Channel>, requested_name: &str) -> (r: Option<usize>)
    ensures
        match r {
            Some(j) => matching_channel(chs@, requested_name@) == Some(j as int) && j < chs@.len(),
            None => matching_channel(chs@, requested_name@) is None,
        },
{
    let mut i: usize = 0;
    assert(chs@.take(0) =~= Seq::<Channel>::empty());
    while i < chs.len()
        invariant
            i <= chs@.len(),
            matching_channel(chs@.take(i as int), requested_name@) is None,
        decreases chs.len() - i,
    {
        assert(chs@.take(i + 1).drop_last() =~= chs@.take(i as int));
        if channel_name_matches(chs[i].name.as_str(), requested_name) {
            proof {
                lemma_matching_prefix(chs@, requested_name@, i + 1);
            }
            return Some(i);
        }
        i = i + 1;
    }
    assert(chs@.take(chs@.len() as int) =~= chs@);
    None
}

fn prefixed(head: &str, name: &str, tail: &str) -> (m: String)
    ensures
        m@ == head@ + name@ + tail@,
{
    let a = chars_of(head);
    let b = chars_of(name);
    let c = chars_of(tail);
    let ab = concat(&a, &b);
    let abc = concat(&ab, &c);
    string_of(&abc)
}

/// The channel to use, as the remote configuration describes it: the
/// first one that is `requested_name`, enabled, with a key when it needs
/// one; updates only where both the channel and the configuration allow
/// them.
pub fn select_channel(
    config: &RemoteConfig,
    requested_name: &str,
    mirror_domain: Option<&str>,
    key: String,
) -> (r: Result<Channel, AppError>)
    ensures
        match matching_channel(config.channels@, requested_name@) {
            None => r matches Err(AppError::Manifest(m)) && m@ == "官方配置中不存在频道 "@
                + requested_name@,
            Some(j) => {
                let remote = config.channels@[j];
                if !remote.enabled {
                    r matches Err(AppError::Manifest(m)) && m@ == "官方配置已禁用频道 "@
                        + requested_name@
                } else if remote.requires_key && trim(key@).len() == 0 {
                    r matches Err(AppError::Settings(m)) && m@ == "频道 "@ + requested_name@
                        + " 需要访问密钥，请先在设置中配置"@
                } else {
                    r matches Ok(c) && c.name@ == requested_name@ && c.dedi_url@ == remote.dedi_url@
                        && c.enabled && c.requires_key == remote.requires_key && c.allow_updates
                        == (remote.allow_updates && config.allow_updates) && c.key@ == key@
                        && c.game_url@ == match mirror_domain {
                        Some(d) => if trim(d@).len() > 0 && replace_host_spec(
                            remote.game_url@,
                            d@,
                        ) is Some {
                            replace_host_spec(remote.game_url@, d@)->0
                        } else {
                            remote.game_url@
                        },
                        None => remote.game_url@,
                    }
                }
            },
        },
{
    let j = match find_channel(&config.channels, requested_name) {
        Some(j) => j,
        None => {
            return Err(AppError::Manifest(joined("官方配置中不存在频道 ", requested_name)));
        },
    };
    let remote = &config.channels[j];
    let mut channel = Channel::from_remote(remote, requested_name, mirror_domain, key);
    channel.allow_updates = channel.allow_updates && config.allow_updates;
    if !channel.enabled {
        return Err(AppError::Manifest(joined("官方配置已禁用频道 ", requested_name)));
    }
    let kc = chars_of(channel.key.as_str());
    let kt = trim_ws(&kc);
    if channel.requires_key && kt.len() == 0 {
        return Err(AppError::Settings(prefixed("频道 ", requested_name, " 需要访问密钥，请先在设置中配置")));
    }
    Ok(channel)
}

/// Where a channel's `version.txt` is.
pub fn version_url(channel: &Channel) -> (r: String)
    ensures
        r@ == trim_end_by(channel.game_url@, eq_pred('/')) + "/version.txt"@,
{
    let u = chars_of(channel.game_url.as_str());
    let slash = vec!['/'];
    assert(crate::text::in_set(slash@) =~= eq_pred('/')) by {
        assert(slash@ =~= seq!['/']);
        assert forall|c: char| #[trigger] crate::text::in_set(slash@)(c) == eq_pred('/')(c) by {
            if c == '/' {
                assert(slash@[0] == c);
            }
        }
    }
    let t = trim_end_in(&u, &slash);
    let tail = chars_of("/version.txt");
    let full = concat(&t, &tail);
    string_of(&full)
}

/// The `channel-key` header to send for a channel, if any: its key, when
/// it needs one and has one.
pub fn channel_key_header(channel: &Channel) -> (r: Option<String>)
    ensures
        text_opt(r) == (if channel.requires_key && channel.key@.len() > 0 {
            Some(channel.key@)
        } else {
            None
        }),
{
    if channel.requires_key && channel.key.as_str().unicode_len() > 0 {
        Some(channel.key.clone())
    } else {
        None
    }
}

} // verus!
