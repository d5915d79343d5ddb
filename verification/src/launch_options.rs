//! Launch options: the checks on a selection that need no numbers with a
//! fraction (the catalog itself, which holds some, stays with the
//! application).

use crate::text::{chars_of, concat, decimal, string_of};
use vstd::prelude::*;

verus! {

/// A group of options in the UI.
#[derive(Debug, Clone, Copy)]
pub struct Category {
    pub id: &'static str,
    pub label_zh: &'static str,
}

/// One choice of an option that emits a whole argument sequence.
#[derive(Debug, Clone, Copy)]
pub struct EnumArgChoice {
    pub value: &'static str,
    pub label_zh: &'static str,
    pub args: &'static [&'static str],
}

/// How risky an option is.
#[derive(Debug, Clone, Copy, PartialEq, Eq, Structural)]
pub enum RiskLevel {
    /// No risk (serialised as `none`).
    Safe,
    Caution,
    Danger,
}

/// How serious a warning about a selection is.
#[derive(Debug, Clone, Copy, PartialEq, Eq, Structural)]
pub enum WarningSeverity {
    Info,
    Caution,
    Danger,
}

/// A warning about a selection of launch options.
#[derive(Debug, Clone)]
pub struct LaunchWarning {
    pub severity: WarningSeverity,
    pub message_zh: String,
    pub related_option_ids: Vec<String>,
}

/// The resolutions every display driver offers.
pub open spec fn safe_resolution_spec(w: i32, h: i32) -> bool {
    ||| (w == 1280 && h == 720)
    ||| (w == 1366 && h == 768)
    ||| (w == 1600 && h == 900)
    ||| (w == 1920 && h == 1080)
    ||| (w == 2560 && h == 1440)
    ||| (w == 3840 && h == 2160)
}

pub fn is_safe_resolution(w: i32, h: i32) -> (r: bool)
    ensures
        r == safe_resolution_spec(w, h),
{
    (w == 1280 && h == 720) || (w == 1366 && h == 768) || (w == 1600 && h == 900) || (w == 1920
        && h == 1080) || (w == 2560 && h == 1440) || (w == 3840 && h == 2160)
}

/// `n` in decimal, with a `-` when negative.
pub open spec fn signed_decimal(n: i32) -> Seq<char> {
    if n < 0 {
        seq!['-'] + decimal((-(n as int)) as nat)
    } else {
        decimal(n as nat)
    }
}

fn signed_decimal_of(n: i32) -> (r: Vec<char>)
    ensures
        r@ == signed_decimal(n),
{
    if n < 0 {
        let m: u64 = (-(n as i64)) as u64;
        let d = crate::text::decimal_of(m);
        let mut r = vec!['-'];
        r = concat(&r, &d);
        assert(r@ =~= seq!['-'] + decimal((-(n as int)) as nat));
        r
    } else {
        crate::text::decimal_of(n as u64)
    }
}

/// The warning for a resolution that is not a common native one, if it is
/// not.
pub fn resolution_warning(w: i32, h: i32) -> (r: Option<LaunchWarning>)
    ensures
        safe_resolution_spec(w, h) ==> r is None,
        !safe_resolution_spec(w, h) ==> (r matches Some(x) && x.severity == WarningSeverity::Caution
            && x.message_zh@ == signed_decimal(w) + "x"@ + signed_decimal(h)
            + " 不是常见原生分辨率，可能导致游戏无法启动；如需使用，请先在显卡驱动控制面板中添加自定义分辨率。"@
            && x.related_option_ids@.len() == 1 && x.related_option_ids@[0]@ == "resolution"@),
{
    if is_safe_resolution(w, h) {
        return None;
    }
    let a = signed_decimal_of(w);
    let x = chars_of("x");
    let b = signed_decimal_of(h);
    let tail = chars_of(" 不是常见原生分辨率，可能导致游戏无法启动；如需使用，请先在显卡驱动控制面板中添加自定义分辨率。");
    let mut m = concat(&a, &x);
    m = concat(&m, &b);
    m = concat(&m, &tail);
    let mut ids: Vec<String> = Vec::new();
    ids.push(crate::text::string_from_str("resolution"));
    Some(LaunchWarning { severity: WarningSeverity::Caution, message_zh: string_of(&m), related_option_ids: ids })
}

/// Whether `a` orders before or equal to `b` (by characters, which is how
/// strings order).
pub open spec fn text_le(a: Seq<char>, b: Seq<char>) -> bool
    decreases a.len(),
{
    if a.len() == 0 {
        true
    } else if b.len() == 0 {
        false
    } else if a[0] != b[0] {
        a[0] < b[0]
    } else {
        text_le(a.drop_first(), b.drop_first())
    }
}

pub fn text_le_exec(a: &[char], b: &[char]) -> (r: bool)
    ensures
        r == text_le(a@, b@),
{
    let mut i: usize = 0;
    assert(a@.skip(0) =~= a@);
    assert(b@.skip(0) =~= b@);
    while i < a.len() && i < b.len() && a[i] == b[i]
        invariant
            i <= a@.len(),
            i <= b@.len(),
            text_le(a@, b@) == text_le(a@.skip(i as int), b@.skip(i as int)),
        decreases a.len() - i,
    {
        assert(a@.skip(i as int).drop_first() =~= a@.skip(i + 1));
        assert(b@.skip(i as int).drop_first() =~= b@.skip(i + 1));
        i = i + 1;
    }
    assert(a@.skip(i as int).len() == a@.len() - i);
    if i < a.len() && i < b.len() {
        assert(a@.skip(i as int)[0] == a@[i as int]);
        assert(b@.skip(i as int)[0] == b@[i as int]);
    }
    if i == a.len() {
        true
    } else if i == b.len() {
        false
    } else {
        a[i] < b[i]
    }
}

/// The warning for two enabled options that conflict: the ids in order,
/// the message naming both by label.
pub fn conflict_warning(id_a: &str, label_a: &str, id_b: &str, label_b: &str) -> (r: LaunchWarning)
    ensures
        r.severity == WarningSeverity::Caution,
        r.message_zh@ == "「"@ + label_a@ + "」与「"@ + label_b@ + "」可能冲突，建议只启用其中一个。"@,
        r.related_option_ids@.len() == 2,
        text_le(id_a@, id_b@) ==> r.related_option_ids@[0]@ == id_a@ && r.related_option_ids@[1]@ == id_b@,
        !text_le(id_a@, id_b@) ==> r.related_option_ids@[0]@ == id_b@ && r.related_option_ids@[1]@ == id_a@,
{
    let a = chars_of(id_a);
    let b = chars_of(id_b);
    let mut ids: Vec<String> = Vec::new();
    if text_le_exec(&a, &b) {
        ids.push(string_of(&a));
        ids.push(string_of(&b));
    } else {
        ids.push(string_of(&b));
        ids.push(string_of(&a));
    }
    let p1 = chars_of("「");
    let p2 = chars_of("」与「");
    let p3 = chars_of("」可能冲突，建议只启用其中一个。");
    let la = chars_of(label_a);
    let lb = chars_of(label_b);
    let mut m = concat(&p1, &la);
    m = concat(&m, &p2);
    m = concat(&m, &lb);
    m = concat(&m, &p3);
    LaunchWarning { severity: WarningSeverity::Caution, message_zh: string_of(&m), related_option_ids: ids }
}

/// An option as a selection sees it: its id, its label, and whether the
/// selection enables it.
#[derive(Debug, Clone)]
pub struct ConflictOption {
    pub id: String,
    pub label: String,
    pub enabled: bool,
}

/// An option of the catalog, in catalog order, with the options it
/// conflicts with.
#[derive(Debug, Clone)]
pub struct ConflictEntry {
    pub option: ConflictOption,
    pub conflicts_with: Vec<ConflictOption>,
}

/// Two conflicting options: (id, label) of the one listing the conflict,
/// then (id, label) of the other.
pub type ConflictPair = (Seq<char>, Seq<char>, Seq<char>, Seq<char>);

/// The two ids of a conflict, in text order.
pub open spec fn pair_key(a: Seq<char>, b: Seq<char>) -> Seq<Seq<char>> {
    if text_le(a, b) {
        seq![a, b]
    } else {
        seq![b, a]
    }
}

/// The enabled conflicts among the first `m` that `e` lists, when `e`
/// itself is enabled.
pub open spec fn enabled_conflicts(e: ConflictEntry, m: int) -> Seq<ConflictPair>
    decreases m,
{
    if m <= 0 {
        Seq::empty()
    } else {
        let r = enabled_conflicts(e, m - 1);
        let o = e.conflicts_with@[m - 1];
        if e.option.enabled && o.enabled {
            r.push((e.option.id@, e.option.label@, o.id@, o.label@))
        } else {
            r
        }
    }
}

/// Every enabled conflict of the catalog, entry by entry.
pub open spec fn conflict_candidates(es: Seq<ConflictEntry>) -> Seq<ConflictPair>
    decreases es.len(),
{
    if es.len() == 0 {
        Seq::empty()
    } else {
        conflict_candidates(es.drop_last()) + enabled_conflicts(
            es.last(),
            es.last().conflicts_with@.len() as int,
        )
    }
}

/// The conflicts of `ps` whose pair of ids was not met before.
pub open spec fn first_of_each_pair(ps: Seq<ConflictPair>) -> Seq<ConflictPair>
    decreases ps.len(),
{
    if ps.len() == 0 {
        Seq::empty()
    } else {
        let r = first_of_each_pair(ps.drop_last());
        let q = ps.last();
        if exists|j: int|
            0 <= j < ps.len() - 1 && pair_key((#[trigger] ps[j]).0, ps[j].2) == pair_key(q.0, q.2) {
            r
        } else {
            r.push(q)
        }
    }
}

/// `w` is the warning about the conflict `q`.
pub open spec fn warning_is(w: LaunchWarning, q: ConflictPair) -> bool {
    &&& w.severity == WarningSeverity::Caution
    &&& w.message_zh@ == "「"@ + q.1 + "」与「"@ + q.3 + "」可能冲突，建议只启用其中一个。"@
    &&& w.related_option_ids@.len() == 2
    &&& w.related_option_ids@[0]@ == pair_key(q.0, q.2)[0]
    &&& w.related_option_ids@[1]@ == pair_key(q.0, q.2)[1]
}

pub open spec fn pair_view(q: (String, String, String, String)) -> ConflictPair {
    (q.0@, q.1@, q.2@, q.3@)
}

pub open spec fn pairs_view(v: Seq<(String, String, String, String)>) -> Seq<ConflictPair> {
    v.map_values(|q: (String, String, String, String)| pair_view(q))
}

/// The enabled conflicts of the catalog, as the selection enables them.
fn collect_conflicts(entries: &Vec<ConflictEntry>) -> (r: Vec<(String, String, String, String)>)
    ensures
        pairs_view(r@) == conflict_candidates(entries@),
{
    let mut out: Vec<(String, String, String, String)> = Vec::new();
    let mut i: usize = 0;
    while i < entries.len()
        invariant
            i <= entries@.len(),
            pairs_view(out@) == conflict_candidates(entries@.take(i as int)),
        decreases entries.len() - i,
    {
        let e = &entries[i];
        let ghost before = pairs_view(out@);
        let mut j: usize = 0;
        while j < e.conflicts_with.len()
            invariant
                j <= e.conflicts_with@.len(),
                *e == entries@[i as int],
                pairs_view(out@) == before + enabled_conflicts(*e, j as int),
            decreases e.conflicts_with.len() - j,
        {
            let o = &e.conflicts_with[j];
            if e.option.enabled && o.enabled {
                let q = (
                    crate::text::string_from_str(e.option.id.as_str()),
                    crate::text::string_from_str(e.option.label.as_str()),
                    crate::text::string_from_str(o.id.as_str()),
                    crate::text::string_from_str(o.label.as_str()),
                );
                let ghost prev = out@;
                out.push(q);
                assert(pairs_view(out@) =~= pairs_view(prev).push(pair_view(q)));
                assert(before + enabled_conflicts(*e, j as int).push(pair_view(q)) =~= before
                    + enabled_conflicts(*e, j + 1));
            } else {
                assert(enabled_conflicts(*e, j + 1) == enabled_conflicts(*e, j as int));
            }
            j = j + 1;
        }
        assert(entries@.take(i + 1).drop_last() =~= entries@.take(i as int));
        assert(entries@.take(i + 1).last() == entries@[i as int]);
        i = i + 1;
    }
    assert(entries@.take(entries@.len() as int) =~= entries@);
    out
}

/// The ids of a conflict in text order.
fn ordered_ids(a: &str, b: &str) -> (r: (Vec<char>, Vec<char>))
    ensures
        seq![r.0@, r.1@] == pair_key(a@, b@),
{
    let x = chars_of(a);
    let y = chars_of(b);
    if text_le_exec(&x, &y) {
        assert(seq![x@, y@] =~= pair_key(a@, b@));
        (x, y)
    } else {
        assert(seq![y@, x@] =~= pair_key(a@, b@));
        (y, x)
    }
}

/// Whether the conflicts `p` and `q` name the same two options.
fn same_pair(p: &(String, String, String, String), q: &(String, String, String, String)) -> (b: bool)
    ensures
        b == (pair_key(p.0@, p.2@) == pair_key(q.0@, q.2@)),
{
    let (p0, p1) = ordered_ids(p.0.as_str(), p.2.as_str());
    let (q0, q1) = ordered_ids(q.0.as_str(), q.2.as_str());
    let b = crate::text::seq_eq(&p0, &q0) && crate::text::seq_eq(&p1, &q1);
    proof {
        let kp = pair_key(p.0@, p.2@);
        let kq = pair_key(q.0@, q.2@);
        if b {
            assert(kp =~= kq);
        } else if kp == kq {
            assert(kp[0] == kq[0]);
            assert(kp[1] == kq[1]);
        }
    }
    b
}

/// The warnings on the conflicts of a selection: one for each two enabled
/// options that conflict, in catalog order, each pair of options once
/// (whichever of the two lists the conflict, and however often).
pub fn conflict_warnings(entries: &Vec<ConflictEntry>) -> (r: Vec<LaunchWarning>)
    ensures
        r@.len() == first_of_each_pair(conflict_candidates(entries@)).len(),
        forall|i: int|
            0 <= i < r@.len() ==> warning_is(
                #[trigger] r@[i],
                first_of_each_pair(conflict_candidates(entries@))[i],
            ),
{
    let cands = collect_conflicts(entries);
    let ghost ps = pairs_view(cands@);
    let mut out: Vec<LaunchWarning> = Vec::new();
    let mut k: usize = 0;
    while k < cands.len()
        invariant
            k <= cands@.len(),
            ps == pairs_view(cands@),
            out@.len() == first_of_each_pair(ps.take(k as int)).len(),
            forall|i: int|
                0 <= i < out@.len() ==> warning_is(
                    #[trigger] out@[i],
                    first_of_each_pair(ps.take(k as int))[i],
                ),
        decreases cands.len() - k,
    {
        let mut seen = false;
        let mut j: usize = 0;
        while j < k
            invariant
                j <= k < cands@.len(),
                ps == pairs_view(cands@),
                seen == (exists|m: int|
                    0 <= m < j && pair_key((#[trigger] ps[m]).0, ps[m].2) == pair_key(
                        ps[k as int].0,
                        ps[k as int].2,
                    )),
            decreases k - j,
        {
            let same = same_pair(&cands[j], &cands[k]);
            proof {
                assert(ps[j as int] == pair_view(cands@[j as int]));
                assert(ps[k as int] == pair_view(cands@[k as int]));
            }
            if same {
                seen = true;
            }
            j = j + 1;
        }
        let ghost t = ps.take(k + 1);
        let ghost f0 = first_of_each_pair(ps.take(k as int));
        assert(t.drop_last() =~= ps.take(k as int));
        assert(t.last() == ps[k as int]);
        assert(forall|m: int| 0 <= m < k ==> #[trigger] t[m] == ps[m]);
        assert(ps[k as int] == pair_view(cands@[k as int]));
        if !seen {
            let q = &cands[k];
            let w = conflict_warning(q.0.as_str(), q.1.as_str(), q.2.as_str(), q.3.as_str());
            proof {
                if exists|m: int|
                    0 <= m < t.len() - 1 && pair_key((#[trigger] t[m]).0, t[m].2) == pair_key(
                        t.last().0,
                        t.last().2,
                    ) {
                    let m = choose|m: int|
                        0 <= m < t.len() - 1 && pair_key((#[trigger] t[m]).0, t[m].2) == pair_key(
                            t.last().0,
                            t.last().2,
                        );
                    assert(t[m] == ps[m]);
                    assert(false);
                }
                assert(first_of_each_pair(t) == f0.push(t.last()));
                assert(warning_is(w, t.last()));
            }
            out.push(w);
        } else {
            proof {
                let m = choose|m: int|
                    0 <= m < k && pair_key((#[trigger] ps[m]).0, ps[m].2) == pair_key(
                        ps[k as int].0,
                        ps[k as int].2,
                    );
                assert(t[m] == ps[m]);
                assert(first_of_each_pair(t) == f0);
            }
        }
        k = k + 1;
    }
    assert(ps.take(cands@.len() as int) =~= ps);
    out
}

/// Each two conflicting options are warned about exactly once: no two
/// warnings name the same two options, and every enabled conflict has a
/// warning naming its two options.
pub proof fn law_each_conflict_warned_once(ps: Seq<ConflictPair>)
    ensures
        forall|i: int, j: int|
            0 <= i < j < first_of_each_pair(ps).len() ==> pair_key(
                (#[trigger] first_of_each_pair(ps)[i]).0,
                first_of_each_pair(ps)[i].2,
            ) != pair_key((#[trigger] first_of_each_pair(ps)[j]).0, first_of_each_pair(ps)[j].2),
        forall|m: int|
            0 <= m < ps.len() ==> exists|i: int|
                0 <= i < first_of_each_pair(ps).len() && pair_key(
                    (#[trigger] first_of_each_pair(ps)[i]).0,
                    first_of_each_pair(ps)[i].2,
                ) == pair_key((#[trigger] ps[m]).0, ps[m].2),
    decreases ps.len(),
{
    if ps.len() > 0 {
        let init = ps.drop_last();
        law_each_conflict_warned_once(init);
        let r = first_of_each_pair(init);
        let q = ps.last();
        let f = first_of_each_pair(ps);
        let met = exists|j: int|
            0 <= j < ps.len() - 1 && pair_key((#[trigger] ps[j]).0, ps[j].2) == pair_key(q.0, q.2);
        if met {
            assert(f == r);
            let j0 = choose|j: int|
                0 <= j < ps.len() - 1 && pair_key((#[trigger] ps[j]).0, ps[j].2) == pair_key(q.0, q.2);
            assert(init[j0] == ps[j0]);
            assert forall|m: int| 0 <= m < ps.len() implies exists|i: int|
                0 <= i < f.len() && pair_key((#[trigger] f[i]).0, f[i].2) == pair_key(
                    (#[trigger] ps[m]).0,
                    ps[m].2,
                ) by {
                if m < ps.len() - 1 {
                    assert(init[m] == ps[m]);
                } else {
                    assert(init[j0] == ps[j0]);
                }
            }
        } else {
            assert(f == r.push(q));
            assert forall|i: int, j: int|
                0 <= i < j < f.len() implies pair_key((#[trigger] f[i]).0, f[i].2) != pair_key(
                    (#[trigger] f[j]).0,
                    f[j].2,
                ) by {
                assert(f[i] == r[i]);
                if j < r.len() {
                    assert(f[j] == r[j]);
                } else if pair_key(f[i].0, f[i].2) == pair_key(q.0, q.2) {
                    // every kept conflict is one of the earlier ones
                    lemma_kept_are_candidates(init);
                    let m = choose|m: int| 0 <= m < init.len() && init[m] == r[i];
                    assert(ps[m] == init[m]);
                }
            }
            assert forall|m: int| 0 <= m < ps.len() implies exists|i: int|
                0 <= i < f.len() && pair_key((#[trigger] f[i]).0, f[i].2) == pair_key(
                    (#[trigger] ps[m]).0,
                    ps[m].2,
                ) by {
                if m < ps.len() - 1 {
                    assert(init[m] == ps[m]);
                    let i = choose|i: int|
                        0 <= i < r.len() && pair_key((#[trigger] r[i]).0, r[i].2) == pair_key(
                            init[m].0,
                            init[m].2,
                        );
                    assert(f[i] == r[i]);
                } else {
                    assert(f[f.len() - 1] == q);
                }
            }
        }
    }
}

proof fn lemma_kept_are_candidates(ps: Seq<ConflictPair>)
    ensures
        forall|i: int|
            0 <= i < first_of_each_pair(ps).len() ==> exists|m: int|
                0 <= m < ps.len() && ps[m] == #[trigger] first_of_each_pair(ps)[i],
    decreases ps.len(),
{
    if ps.len() > 0 {
        let init = ps.drop_last();
        lemma_kept_are_candidates(init);
        let r = first_of_each_pair(init);
        let f = first_of_each_pair(ps);
        assert forall|i: int| 0 <= i < f.len() implies exists|m: int|
            0 <= m < ps.len() && ps[m] == #[trigger] f[i] by {
            if i < r.len() {
                assert(f[i] == r[i]);
                let m = choose|m: int| 0 <= m < init.len() && init[m] == r[i];
                assert(ps[m] == init[m]);
            } else {
                assert(f[i] == ps[ps.len() - 1]);
            }
        }
    }
}

/// What an option puts on the command line, its value already written as
/// text for the option's kind (`None`: the selection's value is not of
/// that kind).
#[derive(Debug, Clone)]
pub enum OptionArgs {
    /// Fixed arguments.
    Fixed(Vec<String>),
    /// A flag followed by its value.
    Flag { flag: String, value: Option<String> },
    /// Two flags, each followed by its value (a width and a height).
    Pair { x_flag: String, y_flag: String, value: Option<(String, String)> },
    /// The arguments of the choice (name, arguments) the value names.
    Choice { choices: Vec<(String, Vec<String>)>, value: Option<String> },
    /// A flag followed by a free text, left out when the text is empty.
    Text { flag: String, value: Option<String> },
}

/// An option of the catalog as a selection resolves it: whether it is
/// enabled, and its arguments.
#[derive(Debug, Clone)]
pub struct ResolvedOption {
    pub enabled: bool,
    pub args: OptionArgs,
}

pub open spec fn texts(v: Seq<String>) -> Seq<Seq<char>> {
    v.map_values(|s: String| s@)
}

/// The arguments of the first choice named `value`, if any.
pub open spec fn choice_args(choices: Seq<(String, Vec<String>)>, value: Seq<char>) -> Seq<Seq<char>>
    decreases choices.len(),
{
    if choices.len() == 0 {
        Seq::empty()
    } else if choices[0].0@ == value {
        texts(choices[0].1@)
    } else {
        choice_args(choices.drop_first(), value)
    }
}

/// The arguments one option gives.
pub open spec fn option_args_spec(o: ResolvedOption) -> Seq<Seq<char>> {
    if !o.enabled {
        Seq::empty()
    } else {
        match o.args {
            OptionArgs::Fixed(a) => texts(a@),
            OptionArgs::Flag { flag, value } => match value {
                Some(v) => seq![flag@, v@],
                None => Seq::empty(),
            },
            OptionArgs::Pair { x_flag, y_flag, value } => match value {
                Some((w, h)) => seq![x_flag@, w@, y_flag@, h@],
                None => Seq::empty(),
            },
            OptionArgs::Choice { choices, value } => match value {
                Some(v) => choice_args(choices@, v@),
                None => Seq::empty(),
            },
            OptionArgs::Text { flag, value } => match value {
                Some(v) => if v@.len() > 0 {
                    seq![flag@, v@]
                } else {
                    Seq::empty()
                },
                None => Seq::empty(),
            },
        }
    }
}

/// The arguments of the options, one after the other.
pub open spec fn compose_spec(os: Seq<ResolvedOption>) -> Seq<Seq<char>>
    decreases os.len(),
{
    if os.len() == 0 {
        Seq::empty()
    } else {
        compose_spec(os.drop_last()) + option_args_spec(os.last())
    }
}

fn push_all(out: &mut Vec<String>, args: &Vec<String>)
    ensures
        texts(final(out)@) == texts(old(out)@) + texts(args@),
{
    let ghost start = texts(out@);
    let mut i: usize = 0;
    while i < args.len()
        invariant
            i <= args@.len(),
            texts(out@) == start + texts(args@.take(i as int)),
        decreases args.len() - i,
    {
        let ghost prev = out@;
        out.push(crate::text::string_from_str(args[i].as_str()));
        assert(texts(out@) =~= texts(prev).push(args@[i as int]@));
        assert(texts(args@.take(i + 1)) =~= texts(args@.take(i as int)).push(args@[i as int]@));
        i = i + 1;
    }
    assert(args@.take(args@.len() as int) =~= args@);
}

fn push_text(out: &mut Vec<String>, t: &str)
    ensures
        texts(final(out)@) == texts(old(out)@).push(t@),
{
    let ghost prev = out@;
    out.push(crate::text::string_from_str(t));
    assert(texts(out@) =~= texts(prev).push(t@));
}

/// The arguments a selection gives, option by option in catalog order.
pub fn compose_args(options: &Vec<ResolvedOption>) -> (r: Vec<String>)
    ensures
        texts(r@) == compose_spec(options@),
{
    let mut out: Vec<String> = Vec::new();
    let mut k: usize = 0;
    while k < options.len()
        invariant
            k <= options@.len(),
            texts(out@) == compose_spec(options@.take(k as int)),
        decreases options.len() - k,
    {
        let o = &options[k];
        let ghost before = texts(out@);
        assert(options@.take(k + 1).drop_last() =~= options@.take(k as int));
        assert(options@.take(k + 1).last() == options@[k as int]);
        if o.enabled {
            match &o.args {
                OptionArgs::Fixed(a) => {
                    push_all(&mut out, a);
                },
                OptionArgs::Flag { flag, value } => match value {
                    Some(v) => {
                        push_text(&mut out, flag.as_str());
                        push_text(&mut out, v.as_str());
                        assert(texts(out@) =~= before + seq![flag@, v@]);
                    },
                    None => {
                        assert(before + Seq::<Seq<char>>::empty() =~= before);
                    },
                },
                OptionArgs::Pair { x_flag, y_flag, value } => match value {
                    Some((w, h)) => {
                        push_text(&mut out, x_flag.as_str());
                        push_text(&mut out, w.as_str());
                        push_text(&mut out, y_flag.as_str());
                        push_text(&mut out, h.as_str());
                        assert(texts(out@) =~= before + seq![x_flag@, w@, y_flag@, h@]);
                    },
                    None => {
                        assert(before + Seq::<Seq<char>>::empty() =~= before);
                    },
                },
                OptionArgs::Choice { choices, value } => match value {
                    Some(v) => {
                        let vc = chars_of(v.as_str());
                        let mut i: usize = 0;
                        let mut done = false;
                        assert(choices@.skip(0) =~= choices@);
                        while i < choices.len() && !done
                            invariant
                                i <= choices@.len(),
                                vc@ == v@,
                                !done ==> texts(out@) == before && choice_args(choices@, v@)
                                    == choice_args(choices@.skip(i as int), v@),
                                done ==> texts(out@) == before + choice_args(choices@, v@),
                            decreases choices.len() - i + (if done { 0int } else { 1int }),
                        {
                            assert(choices@.skip(i as int)[0] == choices@[i as int]);
                            assert(choices@.skip(i as int).drop_first() =~= choices@.skip(i + 1));
                            if seq_eq_str(&choices[i].0, &vc) {
                                push_all(&mut out, &choices[i].1);
                                done = true;
                            } else {
                                i = i + 1;
                            }
                        }
                        if !done {
                            assert(choices@.skip(i as int).len() == 0);
                            assert(before + Seq::<Seq<char>>::empty() =~= before);
                        }
                    },
                    None => {
                        assert(before + Seq::<Seq<char>>::empty() =~= before);
                    },
                },
                OptionArgs::Text { flag, value } => match value {
                    Some(v) => {
                        if chars_of(v.as_str()).len() > 0 {
                            push_text(&mut out, flag.as_str());
                            push_text(&mut out, v.as_str());
                            assert(texts(out@) =~= before + seq![flag@, v@]);
                        } else {
                            assert(before + Seq::<Seq<char>>::empty() =~= before);
                        }
                    },
                    None => {
                        assert(before + Seq::<Seq<char>>::empty() =~= before);
                    },
                },
            }
        } else {
            assert(before + Seq::<Seq<char>>::empty() =~= before);
        }
        k = k + 1;
    }
    assert(options@.take(options@.len() as int) =~= options@);
    out
}

/// Whether `s` spells `c`.
fn seq_eq_str(s: &String, c: &Vec<char>) -> (b: bool)
    ensures
        b == (s@ == c@),
{
    let sc = chars_of(s.as_str());
    crate::text::seq_eq(&sc, c)
}

/// `text_le` orders all texts: any two compare, it is transitive, and two
/// texts each at or before the other are equal.
pub proof fn lemma_text_le_order(a: Seq<char>, b: Seq<char>, c: Seq<char>)
    ensures
        text_le(a, b) || text_le(b, a),
        text_le(a, b) && text_le(b, c) ==> text_le(a, c),
        text_le(a, b) && text_le(b, a) ==> a == b,
    decreases a.len(),
{
    if a.len() > 0 && b.len() > 0 {
        lemma_text_le_order(a.drop_first(), b.drop_first(), if c.len() > 0 {
            c.drop_first()
        } else {
            c
        });
        if text_le(a, b) && text_le(b, a) {
            assert(a[0] == b[0]);
            assert(a =~= seq![a[0]] + a.drop_first());
            assert(b =~= seq![b[0]] + b.drop_first());
        }
    } else if a.len() == 0 && b.len() == 0 {
        assert(a =~= b);
    }
}

/// A resolution is taken without warning exactly when it is one of the
/// common native ones: 1280x720, 1366x768, 1600x900, 1920x1080, 2560x1440
/// and 3840x2160.
pub proof fn law_common_resolutions(w: i32, h: i32)
    ensures
        safe_resolution_spec(w, h) <==> (w == 1280 && h == 720) || (w == 1366 && h == 768) || (w
            == 1600 && h == 900) || (w == 1920 && h == 1080) || (w == 2560 && h == 1440) || (w
            == 3840 && h == 2160),
        safe_resolution_spec(w, h) ==> 720 <= h <= 2160 && (w * 9 == h * 16 || (w == 1366 && h
            == 768)),
{
}

/// Composing works option by option: the arguments of two lists of options
/// are those of the first followed by those of the second, and a disabled
/// option gives none.
pub proof fn law_compose_by_option(a: Seq<ResolvedOption>, b: Seq<ResolvedOption>)
    ensures
        compose_spec(a + b) == compose_spec(a) + compose_spec(b),
        forall|o: ResolvedOption| !o.enabled ==> #[trigger] option_args_spec(o) == Seq::<Seq<char>>::empty(),
    decreases b.len(),
{
    if b.len() == 0 {
        assert(a + b =~= a);
        assert(compose_spec(a) + Seq::<Seq<char>>::empty() =~= compose_spec(a));
    } else {
        law_compose_by_option(a, b.drop_last());
        assert((a + b).drop_last() =~= a + b.drop_last());
        assert((a + b).last() == b.last());
        assert(compose_spec(a) + compose_spec(b.drop_last()) + option_args_spec(b.last())
            =~= compose_spec(a) + (compose_spec(b.drop_last()) + option_args_spec(b.last())));
    }
}

} // verus!
