//! Existing installs found on this machine: where they were found, and
//! folding duplicate findings together.

use crate::text::{
    chars_of, concat, eq_ic, eq_ignore_case, eq_pred, in_set, lemma_split_nonempty, lower_seq,
    replace_char, replace_char_seq, seq_eq, split_by, split_on_char, string_from_str, string_of,
    to_ascii_lower, trim_end_by, trim_end_in, views,
};
use vstd::prelude::*;

verus! {

/// Where an install was found.
#[derive(Debug, Clone, Copy, PartialEq, Eq, Structural, Hash)]
pub enum DetectSource {
    Shortcut,
    Registry,
    LibraryScan,
}

/// An install found on this machine.
#[derive(Debug, Clone)]
pub struct DetectedInstall {
    pub source: DetectSource,
    pub path: String,
    pub channel: Option<String>,
    pub version: Option<String>,
    /// Whether the game's executable is in `path`.
    pub has_game: bool,
}

/// The official launcher's LIVE install.
#[derive(Debug, Clone)]
pub struct OfficialInstall {
    pub channel_dir: String,
    pub channel_name: String,
    pub game_version: Option<String>,
    pub library_root: String,
}

/// The key by which two findings are the same install: the path in ASCII
/// lower case with `/` written as `\`.
pub open spec fn install_key(path: Seq<char>) -> Seq<char> {
    replace_char(lower_seq(path), '/', '\\')
}

/// The findings without repeats (by `install_key`), first ones kept.
pub open spec fn dedupe_spec(v: Seq<DetectedInstall>) -> Seq<DetectedInstall>
    decreases v.len(),
{
    if v.len() == 0 {
        Seq::empty()
    } else {
        let r = dedupe_spec(v.drop_last());
        if exists|i: int| 0 <= i < r.len() && install_key((#[trigger] r[i]).path@) == install_key(v.last().path@) {
            r
        } else {
            r.push(v.last())
        }
    }
}

fn key_of(path: &str) -> (k: Vec<char>)
    ensures
        k@ == install_key(path@),
{
    let c = chars_of(path);
    let l = to_ascii_lower(&c);
    replace_char_seq(&l, '/', '\\')
}

/// The findings without repeats, first ones kept.
pub fn dedupe(v: Vec<DetectedInstall>) -> (r: Vec<DetectedInstall>)
    ensures
        r@ == dedupe_spec(v@),
{
    let mut out: Vec<DetectedInstall> = Vec::new();
    let mut keys: Vec<Vec<char>> = Vec::new();
    let mut i: usize = 0;
    let n = v.len();
    let ghost all = v@;
    let mut rest = v;
    assert(all.take(0) =~= Seq::<DetectedInstall>::empty());
    assert(all.skip(0) =~= all);
    while i < n
        invariant
            i <= n,
            n == all.len(),
            rest@ == all.skip(i as int),
            out@ == dedupe_spec(all.take(i as int)),
            keys@.len() == out@.len(),
            forall|x: int| 0 <= x < out@.len() ==> (#[trigger] keys@[x])@ == install_key(out@[x].path@),
        decreases n - i,
    {
        assert(all.take(i + 1).drop_last() =~= all.take(i as int));
        let d = rest.remove(0);
        assert(d == all[i as int]);
        assert(rest@ =~= all.skip(i + 1));
        let k = key_of(d.path.as_str());
        let mut dup = false;
        let mut j: usize = 0;
        while j < keys.len()
            invariant
                j <= keys@.len(),
                keys@.len() == out@.len(),
                forall|x: int| 0 <= x < out@.len() ==> (#[trigger] keys@[x])@ == install_key(out@[x].path@),
                dup == exists|x: int| 0 <= x < j && install_key((#[trigger] out@[x]).path@) == k@,
            decreases keys.len() - j,
        {
            if seq_eq(&keys[j], &k) {
                dup = true;
            }
            j = j + 1;
        }
        if !dup {
            out.push(d);
            keys.push(k);
        }
        i = i + 1;
    }
    assert(all.take(n as int) =~= all);
    out
}

/// The findings to show: the uninstall registry's, or the Start Menu
/// shortcut's when the registry has none, then the library scan's.
pub fn merge_hits(
    registry: Vec<DetectedInstall>,
    shortcut: Vec<DetectedInstall>,
    scan: Vec<DetectedInstall>,
) -> (r: Vec<DetectedInstall>)
    ensures
        r@ == (if registry@.len() > 0 {
            registry@
        } else {
            shortcut@
        }) + scan@,
{
    let mut all = if registry.len() > 0 {
        registry
    } else {
        shortcut
    };
    let mut s = scan;
    all.append(&mut s);
    all
}

/// After folding, no two findings are the same install.
pub proof fn law_dedupe_distinct(v: Seq<DetectedInstall>)
    ensures
        forall|i: int, j: int|
            0 <= i < j < dedupe_spec(v).len() ==> install_key(dedupe_spec(v)[i].path@) != install_key(
                dedupe_spec(v)[j].path@,
            ),
    decreases v.len(),
{
    if v.len() > 0 {
        law_dedupe_distinct(v.drop_last());
    }
}

/// `parts` joined with `sep` between them.
pub open spec fn join_with(parts: Seq<Seq<char>>, sep: char) -> Seq<char>
    decreases parts.len(),
{
    if parts.len() == 0 {
        Seq::empty()
    } else if parts.len() == 1 {
        parts[0]
    } else {
        join_with(parts.drop_last(), sep) + seq![sep] + parts.last()
    }
}

/// The segments of a shortcut's folder: trailing separators dropped, split
/// at `\` and `/`.
pub open spec fn path_segments(p: Seq<char>) -> Seq<Seq<char>> {
    split_by(replace_char(trim_end_by(p, in_set(seq!['\\', '/'])), '/', '\\'), eq_pred('\\'))
}

/// A shortcut that points into the launcher's own folder (`R5R Launcher`,
/// ignoring ASCII case) stands for the folder above it, written with `\`;
/// any other folder is kept as it is.
pub open spec fn strip_launcher_spec(p: Seq<char>) -> Seq<char> {
    let segs = path_segments(p);
    if eq_ic(segs.last(), "R5R Launcher"@) {
        join_with(segs.drop_last(), '\\')
    } else {
        p
    }
}

pub fn strip_launcher_suffix(p: &str) -> (r: String)
    ensures
        r@ == strip_launcher_spec(p@),
{
    let chars = chars_of(p);
    let seps = vec!['\\', '/'];
    assert(seps@ =~= seq!['\\', '/']);
    let trimmed = trim_end_in(&chars, &seps);
    let unified = replace_char_seq(&trimmed, '/', '\\');
    let segs = split_on_char(&unified, '\\');
    proof {
        lemma_split_nonempty(unified@, eq_pred('\\'));
    }
    let ghost parts = views(segs@);
    assert(parts == path_segments(p@));
    let n = segs.len();
    let name = chars_of("R5R Launcher");
    assert(parts[n - 1] == segs@[n - 1]@);
    if eq_ignore_case(&segs[n - 1], &name) {
        let mut out: Vec<char> = Vec::new();
        let mut i: usize = 0;
        while i < n - 1
            invariant
                n == segs@.len(),
                n >= 1,
                i <= n - 1,
                parts == views(segs@),
                out@ == join_with(parts.take(i as int), '\\'),
            decreases n - 1 - i,
        {
            assert(parts.take(i + 1).drop_last() =~= parts.take(i as int));
            assert(parts.take(i + 1).last() == segs@[i as int]@);
            if i > 0 {
                out.push('\\');
            } else {
                assert(parts.take(1)[0] == segs@[0]@);
            }
            out = concat(&out, &segs[i]);
            i = i + 1;
        }
        assert(parts.take((n - 1) as int) =~= parts.drop_last());
        string_of(&out)
    } else {
        string_from_str(p)
    }
}

} // verus!
