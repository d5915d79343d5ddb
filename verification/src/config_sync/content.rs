//! Profile text: the settings a user pastes, or that a profile holds.
//!
//! Only known settings with finite numeric values are accepted, each at
//! most once; they come out in the order the UI lists them.

use super::fields::{
    copy_definition, field_definitions, field_index, field_keys, field_labels, field_sections,
    find_field, is_field_table, FieldDefinition, FIELD_COUNT,
};
use super::line::{line_error_text, parse_line, parse_line_spec, LineError};
use crate::error::AppError;
use crate::number::{finite_number_spec, is_finite_number};
use crate::text::{
    chars_of, concat, decimal, decimal_of, lines_of, seq_eq, split_lines, string_of, views,
};
use vstd::prelude::*;
use vstd::utf8::encode_utf8;

verus! {

/// The largest profile text accepted, in bytes.
pub const MAX_CONTENT_BYTES: usize = 16384;

/// One setting of a profile text.
#[derive(Debug, Clone)]
pub struct ContentEntry {
    pub key: String,
    pub value: String,
    pub definition: FieldDefinition,
}

/// Why a profile text is refused (line numbers count from 1).
pub enum ContentFault {
    TooLarge,
    Line(nat, LineError),
    UnknownKey(nat, Seq<char>),
    NotFinite(nat),
    Duplicate(Seq<char>),
    Empty,
}

/// The message for each refusal.
pub open spec fn content_fault_text(f: ContentFault) -> Seq<char> {
    match f {
        ContentFault::TooLarge => "配置内容超过 16 KiB"@,
        ContentFault::Line(n, e) => "第 "@ + decimal(n) + " 行："@ + line_error_text(e),
        ContentFault::UnknownKey(n, k) => "第 "@ + decimal(n) + " 行包含不允许的配置项 "@ + k,
        ContentFault::NotFinite(n) => "第 "@ + decimal(n) + " 行的值不是有限数字"@,
        ContentFault::Duplicate(k) => "配置项 "@ + k + " 重复"@,
        ContentFault::Empty => "配置内容为空"@,
    }
}

pub open spec fn entry_keys(acc: Seq<(Seq<char>, Seq<char>)>) -> Seq<Seq<char>> {
    acc.map_values(|e: (Seq<char>, Seq<char>)| e.0)
}

/// The settings read so far, after one more line (line number `n`).
pub open spec fn content_step(
    acc: Result<Seq<(Seq<char>, Seq<char>)>, ContentFault>,
    line: Seq<char>,
    n: nat,
) -> Result<Seq<(Seq<char>, Seq<char>)>, ContentFault> {
    match acc {
        Err(f) => Err(f),
        Ok(a) => match parse_line_spec(line, true) {
            Err(e) => Err(ContentFault::Line(n, e)),
            Ok(None) => Ok(a),
            Ok(Some((k, v, _start))) => {
                if field_index(k) is None {
                    Err(ContentFault::UnknownKey(n, k))
                } else if !finite_number_spec(v) {
                    Err(ContentFault::NotFinite(n))
                } else if entry_keys(a).contains(k) {
                    Err(ContentFault::Duplicate(k))
                } else {
                    Ok(a.push((k, v)))
                }
            },
        },
    }
}

/// The settings of `lines`, in the order they appear, or the first fault.
pub open spec fn scan_lines(lines: Seq<Seq<char>>) -> Result<
    Seq<(Seq<char>, Seq<char>)>,
    ContentFault,
>
    decreases lines.len(),
{
    if lines.len() == 0 {
        Ok(Seq::empty())
    } else {
        content_step(scan_lines(lines.drop_last()), lines.last(), lines.len())
    }
}

/// The value given for `k`, if any.
pub open spec fn lookup(acc: Seq<(Seq<char>, Seq<char>)>, k: Seq<char>) -> Option<Seq<char>>
    decreases acc.len(),
{
    if acc.len() == 0 {
        None
    } else if acc[0].0 == k {
        Some(acc[0].1)
    } else {
        lookup(acc.drop_first(), k)
    }
}

/// The settings of `acc` among the first `n` of the UI's list, in its
/// order, each with its position in the list.
pub open spec fn ordered_upto(acc: Seq<(Seq<char>, Seq<char>)>, n: int) -> Seq<
    (Seq<char>, Seq<char>, int),
>
    decreases n,
{
    if n <= 0 {
        Seq::empty()
    } else {
        let r = ordered_upto(acc, n - 1);
        match lookup(acc, field_keys()[n - 1]) {
            Some(v) => r.push((field_keys()[n - 1], v, n - 1)),
            None => r,
        }
    }
}

/// What a profile text holds: its settings in the UI's order, each with
/// its position in the list, or why it is refused.
pub open spec fn parse_content_spec(s: Seq<char>) -> Result<
    Seq<(Seq<char>, Seq<char>, int)>,
    ContentFault,
> {
    if encode_utf8(s).len() > MAX_CONTENT_BYTES {
        Err(ContentFault::TooLarge)
    } else {
        match scan_lines(lines_of(s)) {
            Err(f) => Err(f),
            Ok(acc) => if acc.len() == 0 {
                Err(ContentFault::Empty)
            } else {
                Ok(ordered_upto(acc, FIELD_COUNT as int))
            },
        }
    }
}

/// `e` is the setting `t` (key, value, position in the UI's list).
pub open spec fn entry_is(e: ContentEntry, t: (Seq<char>, Seq<char>, int)) -> bool {
    &&& e.key@ == t.0
    &&& e.value@ == t.1
    &&& 0 <= t.2 < FIELD_COUNT
    &&& e.definition.key@ == field_keys()[t.2]
    &&& e.definition.label@ == field_labels()[t.2]
    &&& e.definition.section == field_sections()[t.2]
}

pub open spec fn entries_are(v: Seq<ContentEntry>, ts: Seq<(Seq<char>, Seq<char>, int)>) -> bool {
    v.len() == ts.len() && forall|j: int| 0 <= j < v.len() ==> entry_is(#[trigger] v[j], ts[j])
}

proof fn lemma_scan_err_sticks(lines: Seq<Seq<char>>, n: int, f: ContentFault)
    requires
        0 <= n <= lines.len(),
        scan_lines(lines.take(n)) == Err::<Seq<(Seq<char>, Seq<char>)>, ContentFault>(f),
    ensures
        scan_lines(lines) == Err::<Seq<(Seq<char>, Seq<char>)>, ContentFault>(f),
    decreases lines.len() - n,
{
    if n < lines.len() {
        assert(lines.take(n + 1).drop_last() =~= lines.take(n));
        lemma_scan_err_sticks(lines, n + 1, f);
    } else {
        assert(lines.take(n) =~= lines);
    }
}

proof fn lemma_lookup_first(acc: Seq<(Seq<char>, Seq<char>)>, k: Seq<char>, j: int)
    requires
        0 <= j < acc.len(),
        acc[j].0 == k,
        forall|i: int| 0 <= i < j ==> acc[i].0 != k,
    ensures
        lookup(acc, k) == Some(acc[j].1),
    decreases j,
{
    if j > 0 {
        lemma_lookup_first(acc.drop_first(), k, j - 1);
    }
}

proof fn lemma_lookup_none(acc: Seq<(Seq<char>, Seq<char>)>, k: Seq<char>)
    requires
        forall|i: int| 0 <= i < acc.len() ==> acc[i].0 != k,
    ensures
        lookup(acc, k) is None,
    decreases acc.len(),
{
    if acc.len() > 0 {
        lemma_lookup_none(acc.drop_first(), k);
    }
}

/// The first position of `k` among `keys`.
fn position_of(keys: &Vec<Vec<char>>, k: &[char]) -> (r: Option<usize>)
    ensures
        match r {
            Some(j) => j < keys@.len() && keys@[j as int]@ == k@ && forall|i: int|
                0 <= i < j ==> keys@[i]@ != k@,
            None => forall|i: int| 0 <= i < keys@.len() ==> keys@[i]@ != k@,
        },
{
    let mut j: usize = 0;
    while j < keys.len()
        invariant
            j <= keys@.len(),
            forall|i: int| 0 <= i < j ==> keys@[i]@ != k@,
        decreases keys.len() - j,
    {
        if seq_eq(&keys[j], k) {
            return Some(j);
        }
        j = j + 1;
    }
    None
}

/// "第 n 行" followed by `tail`.
fn line_message(n: usize, tail: &[char]) -> (m: Vec<char>)
    ensures
        m@ == "第 "@ + decimal(n as nat) + tail@,
{
    let head = chars_of("第 ");
    let num = decimal_of(n as u64);
    let a = concat(&head, &num);
    concat(&a, tail)
}

fn fault_line(n: usize, e: LineError) -> (r: AppError)
    ensures
        r matches AppError::Other(m) && m@ == content_fault_text(ContentFault::Line(n as nat, e)),
{
    let mid = chars_of(" 行：");
    let msg = chars_of(e.message());
    let tail = concat(&mid, &msg);
    let m = line_message(n, &tail);
    assert(m@ =~= "第 "@ + decimal(n as nat) + " 行："@ + line_error_text(e));
    AppError::Other(string_of(&m))
}

fn fault_unknown(n: usize, k: &[char]) -> (r: AppError)
    ensures
        r matches AppError::Other(m) && m@ == content_fault_text(ContentFault::UnknownKey(n as nat, k@)),
{
    let mid = chars_of(" 行包含不允许的配置项 ");
    let tail = concat(&mid, k);
    let m = line_message(n, &tail);
    assert(m@ =~= "第 "@ + decimal(n as nat) + " 行包含不允许的配置项 "@ + k@);
    AppError::Other(string_of(&m))
}

fn fault_not_finite(n: usize) -> (r: AppError)
    ensures
        r matches AppError::Other(m) && m@ == content_fault_text(ContentFault::NotFinite(n as nat)),
{
    let tail = chars_of(" 行的值不是有限数字");
    let m = line_message(n, &tail);
    AppError::Other(string_of(&m))
}

fn fault_duplicate(k: &[char]) -> (r: AppError)
    ensures
        r matches AppError::Other(m) && m@ == content_fault_text(ContentFault::Duplicate(k@)),
{
    let head = chars_of("配置项 ");
    let tail = chars_of(" 重复");
    let a = concat(&head, k);
    let m = concat(&a, &tail);
    AppError::Other(string_of(&m))
}

/// Read a profile text.
#[verifier::rlimit(60)]
pub fn parse_content(content: &str) -> (r: Result<Vec<ContentEntry>, AppError>)
    ensures
        match parse_content_spec(content@) {
            Ok(es) => r matches Ok(v) && entries_are(v@, es),
            Err(f) => r matches Err(AppError::Other(m)) && m@ == content_fault_text(f),
        },
{
    if content.as_bytes().len() > MAX_CONTENT_BYTES {
        return Err(AppError::other("配置内容超过 16 KiB"));
    }
    let defs = field_definitions();
    let chars = chars_of(content);
    let lines = split_lines(&chars);
    let ghost all = views(lines@);
    let mut keys: Vec<Vec<char>> = Vec::new();
    let mut vals: Vec<Vec<char>> = Vec::new();
    let ghost mut acc: Seq<(Seq<char>, Seq<char>)> = Seq::empty();
    let mut i: usize = 0;
    assert(all.take(0) =~= Seq::<Seq<char>>::empty());
    while i < lines.len()
        invariant
            i <= lines@.len(),
            all == views(lines@),
            all == lines_of(content@),
            encode_utf8(content@).len() <= MAX_CONTENT_BYTES,
            is_field_table(defs@),
            scan_lines(all.take(i as int)) == Ok::<Seq<(Seq<char>, Seq<char>)>, ContentFault>(acc),
            acc.len() == keys@.len(),
            acc.len() == vals@.len(),
            forall|j: int| 0 <= j < acc.len() ==> (#[trigger] acc[j]).0 == keys@[j]@ && acc[j].1 == vals@[j]@,
        decreases lines@.len() - i,
    {
        let ghost before = acc;
        assert(all.take(i + 1).drop_last() =~= all.take(i as int));
        assert(all.take(i + 1).last() == lines@[i as int]@);
        let line = &lines[i];
        match parse_line(line, true) {
            Err(e) => {
                proof {
                    lemma_scan_err_sticks(all, i + 1, ContentFault::Line((i + 1) as nat, e));
                }
                return Err(fault_line(i + 1, e));
            },
            Ok(None) => {},
            Ok(Some(p)) => {
                if find_field(&defs, &p.key).is_none() {
                    proof {
                        lemma_scan_err_sticks(all, i + 1, ContentFault::UnknownKey((i + 1) as nat, p.key@));
                    }
                    return Err(fault_unknown(i + 1, &p.key));
                }
                let value_text = string_of(&p.value);
                if !is_finite_number(value_text.as_str()) {
                    proof {
                        lemma_scan_err_sticks(all, i + 1, ContentFault::NotFinite((i + 1) as nat));
                    }
                    return Err(fault_not_finite(i + 1));
                }
                match position_of(&keys, &p.key) {
                    Some(j) => {
                        assert(entry_keys(acc)[j as int] == p.key@);
                        proof {
                            lemma_scan_err_sticks(all, i + 1, ContentFault::Duplicate(p.key@));
                        }
                        return Err(fault_duplicate(&p.key));
                    },
                    None => {
                        assert(!entry_keys(acc).contains(p.key@)) by {
                            if entry_keys(acc).contains(p.key@) {
                                let w = choose|w: int| 0 <= w < entry_keys(acc).len() && entry_keys(acc)[w] == p.key@;
                                assert(keys@[w]@ == p.key@);
                            }
                        }
                    },
                }
                proof {
                    acc = acc.push((p.key@, p.value@));
                }
                keys.push(p.key);
                vals.push(p.value);
            },
        }
        i = i + 1;
    }
    assert(all.take(lines@.len() as int) =~= all);
    if keys.len() == 0 {
        return Err(AppError::other("配置内容为空"));
    }
    let mut out: Vec<ContentEntry> = Vec::new();
    let mut d: usize = 0;
    while d < FIELD_COUNT
        invariant
            d <= FIELD_COUNT,
            is_field_table(defs@),
            acc.len() == keys@.len(),
            acc.len() == vals@.len(),
            forall|j: int| 0 <= j < acc.len() ==> (#[trigger] acc[j]).0 == keys@[j]@ && acc[j].1 == vals@[j]@,
            entries_are(out@, ordered_upto(acc, d as int)),
        decreases FIELD_COUNT - d,
    {
        let k = chars_of(defs[d].key.as_str());
        match position_of(&keys, &k) {
            Some(j) => {
                proof {
                    lemma_lookup_first(acc, k@, j as int);
                }
                let e = ContentEntry {
                    key: string_of(&keys[j]),
                    value: string_of(&vals[j]),
                    definition: copy_definition(&defs[d]),
                };
                let ghost prev = out@;
                out.push(e);
                assert(forall|x: int| 0 <= x < prev.len() ==> out@[x] == prev[x]);
            },
            None => {
                proof {
                    lemma_lookup_none(acc, k@);
                }
            },
        }
        d = d + 1;
    }
    Ok(out)
}

pub open spec fn string_views(v: Seq<String>) -> Seq<Seq<char>> {
    v.map_values(|x: String| x@)
}

pub open spec fn keys_of(es: Seq<(Seq<char>, Seq<char>, int)>) -> Seq<Seq<char>> {
    es.map_values(|e: (Seq<char>, Seq<char>, int)| e.0)
}

/// The settings of `es` whose keys are among `sel`, in order.
pub open spec fn keep_selected(es: Seq<(Seq<char>, Seq<char>, int)>, sel: Seq<Seq<char>>) -> Seq<
    (Seq<char>, Seq<char>, int),
>
    decreases es.len(),
{
    if es.len() == 0 {
        Seq::empty()
    } else {
        let r = keep_selected(es.drop_last(), sel);
        if sel.contains(es.last().0) {
            r.push(es.last())
        } else {
            r
        }
    }
}

/// The settings of a profile text that the user picked, or why that fails:
/// the text's own faults first, then an empty pick, a pick that matches
/// nothing, and a pick of which part is not in the text.
pub open spec fn selected_spec(content: Seq<char>, sel: Seq<Seq<char>>) -> Result<
    Seq<(Seq<char>, Seq<char>, int)>,
    Seq<char>,
> {
    match parse_content_spec(content) {
        Err(f) => Err(content_fault_text(f)),
        Ok(es) => {
            let kept = keep_selected(es, sel);
            if sel.len() == 0 {
                Err("请至少选择一个配置项"@)
            } else if kept.len() == 0 {
                Err("所选配置项不在档案内容中"@)
            } else if exists|i: int| 0 <= i < sel.len() && !keys_of(es).contains(#[trigger] sel[i]) {
                Err("部分所选配置项不在档案内容中"@)
            } else {
                Ok(kept)
            }
        },
    }
}

/// Whether `k` is one of `list`.
pub fn contains_text(list: &[String], k: &[char]) -> (r: bool)
    ensures
        r == string_views(list@).contains(k@),
{
    let mut i: usize = 0;
    while i < list.len()
        invariant
            i <= list@.len(),
            forall|j: int| 0 <= j < i ==> list@[j]@ != k@,
        decreases list.len() - i,
    {
        let c = chars_of(list[i].as_str());
        if seq_eq(&c, k) {
            assert(string_views(list@)[i as int] == k@);
            return true;
        }
        i = i + 1;
    }
    proof {
        if string_views(list@).contains(k@) {
            let w = choose|w: int| 0 <= w < string_views(list@).len() && string_views(list@)[w] == k@;
            assert(list@[w]@ == k@);
        }
    }
    false
}

fn copy_entry(e: &ContentEntry) -> (c: ContentEntry)
    ensures
        c.key@ == e.key@,
        c.value@ == e.value@,
        c.definition.key@ == e.definition.key@,
        c.definition.label@ == e.definition.label@,
        c.definition.section == e.definition.section,
{
    ContentEntry { key: e.key.clone(), value: e.value.clone(), definition: copy_definition(&e.definition) }
}

/// The settings of a profile text that the user picked.
#[verifier::rlimit(40)]
pub fn selected_content_entries(content: &str, selected_keys: &[String]) -> (r: Result<
    Vec<ContentEntry>,
    AppError,
>)
    ensures
        match selected_spec(content@, string_views(selected_keys@)) {
            Ok(es) => r matches Ok(v) && entries_are(v@, es),
            Err(m) => r matches Err(AppError::Other(t)) && t@ == m,
        },
{
    let entries = parse_content(content)?;
    let ghost es = parse_content_spec(content@)->Ok_0;
    let ghost sel = string_views(selected_keys@);
    assert(parse_content_spec(content@) == Ok::<Seq<(Seq<char>, Seq<char>, int)>, ContentFault>(es));
    if selected_keys.len() == 0 {
        return Err(AppError::other("请至少选择一个配置项"));
    }
    let mut kept: Vec<ContentEntry> = Vec::new();
    let mut i: usize = 0;
    while i < entries.len()
        invariant
            i <= entries@.len(),
            entries_are(entries@, es),
            sel == string_views(selected_keys@),
            entries_are(kept@, keep_selected(es.take(i as int), sel)),
        decreases entries.len() - i,
    {
        assert(es.take(i + 1).drop_last() =~= es.take(i as int));
        assert(entry_is(entries@[i as int], es[i as int]));
        let k = chars_of(entries[i].key.as_str());
        if contains_text(selected_keys, &k) {
            let ghost prev = kept@;
            kept.push(copy_entry(&entries[i]));
            assert(forall|x: int| 0 <= x < prev.len() ==> kept@[x] == prev[x]);
        }
        i = i + 1;
    }
    assert(es.take(entries@.len() as int) =~= es);
    if kept.len() == 0 {
        return Err(AppError::other("所选配置项不在档案内容中"));
    }
    let mut j: usize = 0;
    while j < selected_keys.len()
        invariant
            j <= selected_keys@.len(),
            parse_content_spec(content@) == Ok::<Seq<(Seq<char>, Seq<char>, int)>, ContentFault>(es),
            entries_are(entries@, es),
            kept@.len() > 0,
            entries_are(kept@, keep_selected(es, sel)),
            sel == string_views(selected_keys@),
            forall|x: int| 0 <= x < j ==> keys_of(es).contains(#[trigger] sel[x]),
        decreases selected_keys.len() - j,
    {
        let mut found = false;
        let mut t: usize = 0;
        let want = chars_of(selected_keys[j].as_str());
        while t < entries.len()
            invariant
                t <= entries@.len(),
                j < selected_keys@.len(),
                parse_content_spec(content@) == Ok::<Seq<(Seq<char>, Seq<char>, int)>, ContentFault>(es),
                kept@.len() > 0,
                entries_are(kept@, keep_selected(es, sel)),
                entries_are(entries@, es),
                sel == string_views(selected_keys@),
                want@ == sel[j as int],
                found == (exists|y: int| 0 <= y < t && #[trigger] es[y].0 == want@),
            decreases entries.len() - t,
        {
            assert(entry_is(entries@[t as int], es[t as int]));
            let k = chars_of(entries[t].key.as_str());
            if seq_eq(&k, &want) {
                found = true;
            }
            t = t + 1;
        }
        if !found {
            proof {
                assert(!keys_of(es).contains(sel[j as int])) by {
                    if keys_of(es).contains(sel[j as int]) {
                        let w = choose|w: int| 0 <= w < keys_of(es).len() && keys_of(es)[w] == sel[j as int];
                        assert(es[w].0 == want@);
                    }
                }
                assert(0 <= j < sel.len() && !keys_of(es).contains(sel[j as int]));
            }
            return Err(AppError::other("部分所选配置项不在档案内容中"));
        }
        proof {
            let y = choose|y: int| 0 <= y < entries@.len() && #[trigger] es[y].0 == want@;
            assert(keys_of(es)[y] == sel[j as int]);
        }
        j = j + 1;
    }
    Ok(kept)
}

/// One setting as a config line: `key "value"`.
pub open spec fn setting_line(k: Seq<char>, v: Seq<char>) -> Seq<char> {
    k + seq![' ', '"'] + v + seq!['"']
}

/// The settings as config lines joined by line feeds.
pub open spec fn canonical_spec(v: Seq<ContentEntry>) -> Seq<char>
    decreases v.len(),
{
    if v.len() == 0 {
        Seq::empty()
    } else if v.len() == 1 {
        setting_line(v[0].key@, v[0].value@)
    } else {
        canonical_spec(v.drop_last()) + seq!['\n'] + setting_line(v.last().key@, v.last().value@)
    }
}

/// The settings as the text a profile stores: one `key "value"` line each.
pub fn canonical_content(entries: &[ContentEntry]) -> (r: String)
    ensures
        r@ == canonical_spec(entries@),
{
    let mut out: Vec<char> = Vec::new();
    let mut i: usize = 0;
    while i < entries.len()
        invariant
            i <= entries@.len(),
            out@ == canonical_spec(entries@.take(i as int)),
        decreases entries.len() - i,
    {
        assert(entries@.take(i + 1).drop_last() =~= entries@.take(i as int));
        let k = chars_of(entries[i].key.as_str());
        let v = chars_of(entries[i].value.as_str());
        let ghost prev = out@;
        if i > 0 {
            out.push('\n');
        }
        out = concat(&out, &k);
        out.push(' ');
        out.push('"');
        out = concat(&out, &v);
        out.push('"');
        if i == 0 {
            assert(entries@.take(1)[0] == entries@[0]);
            assert(out@ =~= setting_line(k@, v@));
        } else {
            assert(out@ =~= prev + seq!['\n'] + setting_line(k@, v@));
        }
        i = i + 1;
    }
    assert(entries@.take(entries@.len() as int) =~= entries@);
    string_of(&out)
}

proof fn lemma_ordered_upto(acc: Seq<(Seq<char>, Seq<char>)>, n: int)
    requires
        0 <= n <= FIELD_COUNT,
    ensures
        forall|i: int, j: int|
            0 <= i < j < ordered_upto(acc, n).len() ==> ordered_upto(acc, n)[i].2 < ordered_upto(
                acc,
                n,
            )[j].2,
        forall|i: int|
            0 <= i < ordered_upto(acc, n).len() ==> 0 <= (#[trigger] ordered_upto(acc, n)[i]).2 < n
                && ordered_upto(acc, n)[i].0 == field_keys()[ordered_upto(acc, n)[i].2],
    decreases n,
{
    if n > 0 {
        lemma_ordered_upto(acc, n - 1);
        let r = ordered_upto(acc, n - 1);
        match lookup(acc, field_keys()[n - 1]) {
            Some(v) => {
                let t = r.push((field_keys()[n - 1], v, n - 1));
                assert(ordered_upto(acc, n) == t);
                assert forall|i: int, j: int| 0 <= i < j < t.len() implies t[i].2 < t[j].2 by {
                    assert(t[i] == r[i]);
                    if j < r.len() {
                        assert(t[j] == r[j]);
                    }
                }
                assert forall|i: int| 0 <= i < t.len() implies 0 <= (#[trigger] t[i]).2 < n && t[i].0
                    == field_keys()[t[i].2] by {
                    if i < r.len() {
                        assert(t[i] == r[i]);
                    }
                }
            },
            None => {},
        }
    }
}

/// A profile's settings come out in the order the UI lists them, each
/// known setting at most once: their positions in the UI's list strictly
/// increase, and each key is the key of the setting at its position.
pub proof fn law_content_in_ui_order(s: Seq<char>)
    requires
        parse_content_spec(s) is Ok,
    ensures
        ({
            let es = parse_content_spec(s)->Ok_0;
            &&& forall|i: int, j: int| 0 <= i < j < es.len() ==> es[i].2 < es[j].2
            &&& forall|i: int|
                0 <= i < es.len() ==> 0 <= (#[trigger] es[i]).2 < FIELD_COUNT && es[i].0
                    == field_keys()[es[i].2]
        }),
{
    let acc = scan_lines(lines_of(s))->Ok_0;
    lemma_ordered_upto(acc, FIELD_COUNT as int);
}

/// Line `l` sets `k` to `v`.
pub open spec fn line_sets(l: Seq<char>, k: Seq<char>, v: Seq<char>) -> bool {
    parse_line_spec(l, true) matches Ok(Some((k2, v2, _))) && k2 == k && v2 == v
}

proof fn lemma_lookup_push(a: Seq<(Seq<char>, Seq<char>)>, x: (Seq<char>, Seq<char>), k: Seq<char>)
    ensures
        lookup(a.push(x), k) == (match lookup(a, k) {
            Some(v) => Some(v),
            None => if x.0 == k {
                Some(x.1)
            } else {
                None::<Seq<char>>
            },
        }),
    decreases a.len(),
{
    if a.len() == 0 {
        assert(a.push(x).drop_first() =~= Seq::<(Seq<char>, Seq<char>)>::empty());
    } else {
        assert(a.push(x).drop_first() =~= a.drop_first().push(x));
        lemma_lookup_push(a.drop_first(), x, k);
    }
}

/// A profile text that reads without fault sets each key on at most one
/// line, and the value read for a key is the one its line sets.
proof fn lemma_scan_lookup(lines: Seq<Seq<char>>)
    requires
        scan_lines(lines) is Ok,
    ensures
        forall|k: Seq<char>|
            #[trigger] lookup(scan_lines(lines)->Ok_0, k) is Some ==> exists|i: int|
                0 <= i < lines.len() && line_sets(
                    #[trigger] lines[i],
                    k,
                    lookup(scan_lines(lines)->Ok_0, k)->0,
                ),
        forall|i: int, k: Seq<char>, v: Seq<char>|
            0 <= i < lines.len() && #[trigger] line_sets(lines[i], k, v) ==> lookup(
                scan_lines(lines)->Ok_0,
                k,
            ) == Some(v),
    decreases lines.len(),
{
    if lines.len() > 0 {
        let init = lines.drop_last();
        let last = lines.last();
        let n = lines.len();
        if scan_lines(init) is Err {
            assert(scan_lines(lines) is Err);
        }
        lemma_scan_lookup(init);
        let a = scan_lines(init)->Ok_0;
        let acc = scan_lines(lines)->Ok_0;
        match parse_line_spec(last, true) {
            Ok(None) => {
                assert(acc == a);
                assert forall|k: Seq<char>| #[trigger] lookup(acc, k) is Some implies exists|i: int|
                    0 <= i < lines.len() && line_sets(#[trigger] lines[i], k, lookup(acc, k)->0) by {
                    let v = lookup(acc, k)->0;
                    let i = choose|i: int| 0 <= i < init.len() && line_sets(#[trigger] init[i], k, v);
                    assert(lines[i] == init[i]);
                }
                assert forall|i: int, k: Seq<char>, v: Seq<char>|
                    0 <= i < lines.len() && #[trigger] line_sets(lines[i], k, v) implies lookup(
                        acc,
                        k,
                    ) == Some(v) by {
                    if i < n - 1 {
                        assert(lines[i] == init[i]);
                    }
                }
            },
            Ok(Some((k0, v0, _))) => {
                assert(!entry_keys(a).contains(k0));
                assert(acc == a.push((k0, v0)));
                assert forall|j: int| 0 <= j < a.len() implies a[j].0 != k0 by {
                    assert(entry_keys(a)[j] == a[j].0);
                }
                lemma_lookup_none(a, k0);
                assert forall|k: Seq<char>| #[trigger] lookup(acc, k) is Some implies exists|i: int|
                    0 <= i < lines.len() && line_sets(#[trigger] lines[i], k, lookup(acc, k)->0) by {
                    let v = lookup(acc, k)->0;
                    lemma_lookup_push(a, (k0, v0), k);
                    if lookup(a, k) is Some {
                        let i = choose|i: int|
                            0 <= i < init.len() && line_sets(#[trigger] init[i], k, v);
                        assert(lines[i] == init[i]);
                    } else {
                        assert(line_sets(lines[n - 1], k, v));
                    }
                }
                assert forall|i: int, k: Seq<char>, v: Seq<char>|
                    0 <= i < lines.len() && #[trigger] line_sets(lines[i], k, v) implies lookup(
                        acc,
                        k,
                    ) == Some(v) by {
                    lemma_lookup_push(a, (k0, v0), k);
                    if i < n - 1 {
                        assert(lines[i] == init[i]);
                        assert(line_sets(init[i], k, v));
                    }
                }
            },
            Err(_) => {},
        }
    }
}

proof fn lemma_ordered_upto_same(a1: Seq<(Seq<char>, Seq<char>)>, a2: Seq<(Seq<char>, Seq<char>)>, n: int)
    requires
        n <= FIELD_COUNT,
        forall|i: int|
            0 <= i < FIELD_COUNT ==> lookup(a1, #[trigger] field_keys()[i]) == lookup(
                a2,
                field_keys()[i],
            ),
    ensures
        ordered_upto(a1, n) == ordered_upto(a2, n),
    decreases n,
{
    if n > 0 {
        lemma_ordered_upto_same(a1, a2, n - 1);
        assert(lookup(a1, field_keys()[n - 1]) == lookup(a2, field_keys()[n - 1]));
    }
}

proof fn lemma_keep_selected_same(
    a1: Seq<(Seq<char>, Seq<char>)>,
    a2: Seq<(Seq<char>, Seq<char>)>,
    sel: Seq<Seq<char>>,
    n: int,
)
    requires
        forall|k: Seq<char>| sel.contains(k) ==> #[trigger] lookup(a1, k) == lookup(a2, k),
    ensures
        keep_selected(ordered_upto(a1, n), sel) == keep_selected(ordered_upto(a2, n), sel),
        forall|k: Seq<char>|
            sel.contains(k) ==> (keys_of(ordered_upto(a1, n)).contains(k) <==> #[trigger] keys_of(
                ordered_upto(a2, n),
            ).contains(k)),
    decreases n,
{
    if n > 0 {
        lemma_keep_selected_same(a1, a2, sel, n - 1);
        let fk = field_keys()[n - 1];
        let r1 = ordered_upto(a1, n - 1);
        let r2 = ordered_upto(a2, n - 1);
        lemma_keep_push(r1, sel, (fk, lookup(a1, fk)->0, n - 1));
        lemma_keep_push(r2, sel, (fk, lookup(a2, fk)->0, n - 1));
        if sel.contains(fk) {
            assert(lookup(a1, fk) == lookup(a2, fk));
        }
        assert forall|k: Seq<char>|
            sel.contains(k) implies (keys_of(ordered_upto(a1, n)).contains(k) <==> #[trigger] keys_of(
                ordered_upto(a2, n),
            ).contains(k)) by {
            lemma_keys_push(r1, (fk, lookup(a1, fk)->0, n - 1), k);
            lemma_keys_push(r2, (fk, lookup(a2, fk)->0, n - 1), k);
            if k == fk {
                assert(lookup(a1, fk) == lookup(a2, fk));
            }
        }
    }
}

proof fn lemma_keep_push(r: Seq<(Seq<char>, Seq<char>, int)>, sel: Seq<Seq<char>>, x: (Seq<char>, Seq<char>, int))
    ensures
        keep_selected(r.push(x), sel) == (if sel.contains(x.0) {
            keep_selected(r, sel).push(x)
        } else {
            keep_selected(r, sel)
        }),
{
    assert(r.push(x).drop_last() =~= r);
}

proof fn lemma_keys_push(r: Seq<(Seq<char>, Seq<char>, int)>, x: (Seq<char>, Seq<char>, int), k: Seq<char>)
    ensures
        keys_of(r.push(x)).contains(k) <==> (keys_of(r).contains(k) || x.0 == k),
{
    let a = keys_of(r.push(x));
    assert(a =~= keys_of(r).push(x.0));
    if keys_of(r).contains(k) {
        let j = choose|j: int| 0 <= j < keys_of(r).len() && keys_of(r)[j] == k;
        assert(a[j] == k);
    }
    if x.0 == k {
        assert(a[a.len() - 1] == k);
    }
    if a.contains(k) {
        let j = choose|j: int| 0 <= j < a.len() && a[j] == k;
        if j < keys_of(r).len() {
            assert(keys_of(r)[j] == k);
        }
    }
}

/// What two profile texts that both read without fault set of the keys
/// `sel` is the same when each line found in one text but not the other
/// sets no key of `sel`.
proof fn lemma_same_selected_lookups(s1: Seq<char>, s2: Seq<char>, sel: Seq<Seq<char>>)
    requires
        scan_lines(lines_of(s1)) is Ok,
        scan_lines(lines_of(s2)) is Ok,
        forall|l: Seq<char>, k: Seq<char>, v: Seq<char>|
            #[trigger] line_sets(l, k, v) && sel.contains(k) ==> (lines_of(s1).contains(l)
                <==> lines_of(s2).contains(l)),
    ensures
        forall|k: Seq<char>|
            sel.contains(k) ==> #[trigger] lookup(scan_lines(lines_of(s1))->Ok_0, k) == lookup(
                scan_lines(lines_of(s2))->Ok_0,
                k,
            ),
{
    let l1 = lines_of(s1);
    let l2 = lines_of(s2);
    let a1 = scan_lines(l1)->Ok_0;
    let a2 = scan_lines(l2)->Ok_0;
    lemma_scan_lookup(l1);
    lemma_scan_lookup(l2);
    assert forall|k: Seq<char>| sel.contains(k) implies #[trigger] lookup(a1, k) == lookup(a2, k) by {
        if lookup(a1, k) is Some {
            let v = lookup(a1, k)->0;
            assert(lookup(a1, k) == Some(v));
            let i = choose|i: int| 0 <= i < l1.len() && line_sets(#[trigger] l1[i], k, v);
            assert(l1.contains(l1[i]));
            let j = choose|j: int| 0 <= j < l2.len() && l2[j] == l1[i];
            assert(line_sets(l2[j], k, v));
        } else if lookup(a2, k) is Some {
            let v = lookup(a2, k)->0;
            assert(lookup(a2, k) == Some(v));
            let i = choose|i: int| 0 <= i < l2.len() && line_sets(#[trigger] l2[i], k, v);
            assert(l2.contains(l2[i]));
            let j = choose|j: int| 0 <= j < l1.len() && l1[j] == l2[i];
            assert(line_sets(l1[j], k, v));
        }
    }
}

/// The order of a profile's lines does not matter: two texts that both
/// read without fault and hold the same lines, in any order and any number
/// of times, read as the same profile.
pub proof fn law_profile_ignores_line_order(s1: Seq<char>, s2: Seq<char>)
    requires
        parse_content_spec(s1) is Ok,
        parse_content_spec(s2) is Ok,
        forall|l: Seq<char>| #[trigger] lines_of(s1).contains(l) <==> lines_of(s2).contains(l),
    ensures
        parse_content_spec(s1) == parse_content_spec(s2),
{
    let all = Seq::new(FIELD_COUNT as nat, |i: int| field_keys()[i]);
    lemma_same_selected_lookups(s1, s2, all);
    let a1 = scan_lines(lines_of(s1))->Ok_0;
    let a2 = scan_lines(lines_of(s2))->Ok_0;
    assert forall|i: int| 0 <= i < FIELD_COUNT implies lookup(a1, #[trigger] field_keys()[i]) == lookup(
        a2,
        field_keys()[i],
    ) by {
        assert(all[i] == field_keys()[i]);
        assert(all.contains(field_keys()[i]));
    }
    lemma_ordered_upto_same(a1, a2, FIELD_COUNT as int);
}

/// The settings a user picks from a profile depend only on the lines that
/// set a picked key: two texts that both read without fault, and differ
/// only in lines that set no picked key (or in the order of lines), give
/// the same pick or the same refusal.
pub proof fn law_selection_ignores_other_lines(s1: Seq<char>, s2: Seq<char>, sel: Seq<Seq<char>>)
    requires
        parse_content_spec(s1) is Ok,
        parse_content_spec(s2) is Ok,
        forall|l: Seq<char>, k: Seq<char>, v: Seq<char>|
            #[trigger] line_sets(l, k, v) && sel.contains(k) ==> (lines_of(s1).contains(l)
                <==> lines_of(s2).contains(l)),
    ensures
        selected_spec(s1, sel) == selected_spec(s2, sel),
{
    lemma_same_selected_lookups(s1, s2, sel);
    let a1 = scan_lines(lines_of(s1))->Ok_0;
    let a2 = scan_lines(lines_of(s2))->Ok_0;
    let n = FIELD_COUNT as int;
    lemma_keep_selected_same(a1, a2, sel, n);
    let e1 = ordered_upto(a1, n);
    let e2 = ordered_upto(a2, n);
    assert((exists|i: int| 0 <= i < sel.len() && !keys_of(e1).contains(#[trigger] sel[i])) == (
    exists|i: int| 0 <= i < sel.len() && !keys_of(e2).contains(#[trigger] sel[i]))) by {
        assert forall|i: int| 0 <= i < sel.len() implies (keys_of(e1).contains(#[trigger] sel[i])
            <==> keys_of(e2).contains(sel[i])) by {
            assert(sel.contains(sel[i]));
        }
    }
}

} // verus!
