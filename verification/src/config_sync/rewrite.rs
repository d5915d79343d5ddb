//! Writing a profile's values into a config file's text.
//!
//! Only the value between the quotes of an existing setting line changes;
//! every other character of the file stays as it was.

use super::content::ContentEntry;
use super::line::{ascii_ws, blank, edge, is_key_char, parse_line, parse_line_spec};
use crate::text::{
    chars_of, concat, eq_pred, first_index, join_lines, lead_count, lemma_first_index,
    lemma_first_index_prefix, lemma_first_index_unique, lemma_lead_count_bound,
    lemma_lead_count_prefix, lemma_lines_of_join, lemma_lines_of_well_cut, lemma_trim_nonempty,
    line_shaped, lines_of, seq_eq, slice_of, split_lines, string_of, trim_by, views, well_cut,
};
use vstd::prelude::*;

verus! {

/// The value wanted for `key`: the last entry for it.
pub open spec fn desired_for(ents: Seq<ContentEntry>, key: Seq<char>) -> Option<Seq<char>>
    decreases ents.len(),
{
    if ents.len() == 0 {
        None
    } else if ents.last().key@ == key {
        Some(ents.last().value@)
    } else {
        desired_for(ents.drop_last(), key)
    }
}

/// One line with its value replaced, if it is a setting line for a wanted
/// key with another value; and whether it changed.
pub open spec fn rewrite_line(line: Seq<char>, ents: Seq<ContentEntry>) -> (Seq<char>, bool) {
    match parse_line_spec(line, false) {
        Ok(Some((k, v, start))) => match desired_for(ents, k) {
            Some(d) => if v != d {
                (line.take(start as int) + d + line.skip(start as int + v.len()), true)
            } else {
                (line, false)
            },
            None => (line, false),
        },
        _ => (line, false),
    }
}

/// The lines rewritten one by one and joined again, and whether any changed.
pub open spec fn rewrite_lines(lines: Seq<Seq<char>>, ents: Seq<ContentEntry>) -> (Seq<char>, bool)
    decreases lines.len(),
{
    if lines.len() == 0 {
        (Seq::empty(), false)
    } else {
        let (t, c) = rewrite_lines(lines.drop_last(), ents);
        let (l, d) = rewrite_line(lines.last(), ents);
        (t + l, c || d)
    }
}

/// The value wanted for `key`.
fn find_desired(ents: &[ContentEntry], key: &[char]) -> (r: Option<Vec<char>>)
    ensures
        match desired_for(ents@, key@) {
            Some(d) => r matches Some(v) && v@ == d,
            None => r is None,
        },
{
    let mut i: usize = ents.len();
    assert(ents@.take(i as int) =~= ents@);
    while i > 0
        invariant
            i <= ents@.len(),
            desired_for(ents@, key@) == desired_for(ents@.take(i as int), key@),
        decreases i,
    {
        assert(ents@.take(i as int).drop_last() =~= ents@.take(i - 1));
        let k = chars_of(ents[i - 1].key.as_str());
        if seq_eq(&k, key) {
            return Some(chars_of(ents[i - 1].value.as_str()));
        }
        i = i - 1;
    }
    None
}

/// `content` with the wanted values written in, if that changes anything.
#[verifier::rlimit(40)]
pub fn rewrite_config_text(content: &str, entries: &[ContentEntry]) -> (r: Option<String>)
    ensures
        match rewrite_lines(lines_of(content@), entries@) {
            (t, true) => r matches Some(s) && s@ == t,
            (_, false) => r is None,
        },
{
    let chars = chars_of(content);
    let lines = split_lines(&chars);
    let ghost all = views(lines@);
    let mut out: Vec<char> = Vec::new();
    let mut changed = false;
    let mut i: usize = 0;
    assert(all.take(0) =~= Seq::<Seq<char>>::empty());
    while i < lines.len()
        invariant
            i <= lines@.len(),
            all == views(lines@),
            rewrite_lines(all.take(i as int), entries@) == (out@, changed),
        decreases lines.len() - i,
    {
        assert(all.take(i + 1).drop_last() =~= all.take(i as int));
        let line = &lines[i];
        assert(all.take(i + 1).last() == line@);
        let ghost before = out@;
        let mut line_changed = false;
        match parse_line(line, false) {
            Ok(Some(p)) => {
                match find_desired(entries, &p.key) {
                    Some(d) => {
                        if !seq_eq(&p.value, &d) {
                            let head = slice_of(line, 0, p.value_start);
                            let tail = slice_of(line, p.value_end, line.len());
                            out = concat(&out, &head);
                            out = concat(&out, &d);
                            out = concat(&out, &tail);
                            line_changed = true;
                            assert(head@ =~= line@.take(p.value_start as int));
                            assert(tail@ =~= line@.skip(p.value_start as int + p.value@.len()));
                            assert(out@ =~= before + (line@.take(p.value_start as int) + d@
                                + line@.skip(p.value_start as int + p.value@.len())));
                        } else {
                            out = concat(&out, line);
                        }
                    },
                    None => {
                        out = concat(&out, line);
                    },
                }
            },
            _ => {
                out = concat(&out, line);
            },
        }
        changed = changed || line_changed;
        i = i + 1;
    }
    assert(all.take(lines@.len() as int) =~= all);
    if changed {
        Some(string_of(&out))
    } else {
        None
    }
}

/// A value that reads back as itself once written between quotes: no
/// double quote and no line feed in it.  Every value of a profile text is
/// such a value.
pub open spec fn plain_value(v: Seq<char>) -> bool {
    !v.contains('"') && !v.contains('\n')
}

pub open spec fn plain_entries(ents: Seq<ContentEntry>) -> bool {
    forall|i: int| 0 <= i < ents.len() ==> plain_value(#[trigger] ents[i].value@)
}

proof fn lemma_desired_plain(ents: Seq<ContentEntry>, key: Seq<char>)
    requires
        plain_entries(ents),
    ensures
        desired_for(ents, key) matches Some(d) ==> plain_value(d),
    decreases ents.len(),
{
    if ents.len() > 0 {
        assert(plain_value(ents[ents.len() - 1].value@));
        if ents.last().key@ != key {
            assert forall|i: int| 0 <= i < ents.drop_last().len() implies plain_value(
                #[trigger] ents.drop_last()[i].value@,
            ) by {
                assert(ents.drop_last()[i] == ents[i]);
            }
            lemma_desired_plain(ents.drop_last(), key);
        }
    }
}

proof fn lemma_key_char_not_edge(c: char)
    requires
        is_key_char(c),
    ensures
        !edge()(c),
        !blank()(c),
        !ascii_ws()(c),
        c != '/' && c != '#' && c != '"',
{
    let e = seq![' ', '\t', '\r', '\n'];
    let b = seq![' ', '\t'];
    assert(e[0] == ' ' && e[1] == '\t' && e[2] == '\r' && e[3] == '\n');
    assert(b[0] == ' ' && b[1] == '\t');
    assert(!e.contains(c));
    assert(!b.contains(c));
}

/// Where a setting line's value stands, and that writing another value
/// without double quotes there gives a line that reads back with that value
/// at the same place.
#[verifier::rlimit(100)]
#[verifier::spinoff_prover]
proof fn lemma_parse_with_value(
    line: Seq<char>,
    k: Seq<char>,
    v: Seq<char>,
    start: nat,
    d: Seq<char>,
)
    requires
        parse_line_spec(line, false) == Ok::<Option<(Seq<char>, Seq<char>, nat)>, super::line::LineError>(Some((k, v, start))),
        !d.contains('"'),
    ensures
        start + v.len() < line.len(),
        line[start + v.len() as int] == '"',
        line.subrange(start as int, start + v.len() as int) == v,
        parse_line_spec(line.take(start as int) + d + line.skip((start + v.len()) as int), false) == Ok::<
            Option<(Seq<char>, Seq<char>, nat)>,
            super::line::LineError,
        >(Some((k, d, start))),
{
    reveal_strlit("//");
    reveal_strlit("#");
    let bom = line.len() > 0 && line[0] == '\u{feff}';
    let b: int = if bom {
        1
    } else {
        0
    };
    let body = if bom {
        line.drop_first()
    } else {
        line
    };
    assert(body =~= line.skip(b));
    let leading = lead_count(body, blank());
    let trimmed = body.skip(leading as int);
    let key_end = first_index(trimmed, ascii_ws());
    let key = trimmed.take(key_end as int);
    let after_key = trimmed.skip(key_end as int);
    let ws = lead_count(after_key, blank());
    let quoted = after_key.skip(ws as int);
    let tail = quoted.drop_first();
    let closing = first_index(tail, eq_pred('"'));
    lemma_lead_count_bound(body, blank());
    lemma_first_index(trimmed, ascii_ws());
    lemma_lead_count_bound(after_key, blank());
    lemma_first_index(tail, eq_pred('"'));
    assert(k == key);
    assert(v == tail.take(closing as int));
    assert(start == b + leading + key_end + ws + 1);
    assert(tail =~= line.skip(start as int));
    assert(closing < tail.len());
    assert(tail[closing as int] == line[start + v.len() as int]);
    assert(line.subrange(start as int, start + v.len() as int) =~= v);
    assert(key_end >= 1);
    assert(is_key_char(key[0]));
    lemma_key_char_not_edge(key[0]);
    let rest = line.skip((start + v.len()) as int);
    let l2 = line.take(start as int) + d + rest;
    assert(l2.take(start as int) =~= line.take(start as int));
    assert(l2[0] == line[0]);
    let bom2 = l2.len() > 0 && l2[0] == '\u{feff}';
    assert(bom2 == bom);
    let body2 = if bom2 {
        l2.drop_first()
    } else {
        l2
    };
    assert(body2 =~= l2.skip(b));
    let m1: int = start - b;
    assert(body2.take(m1) =~= body.take(m1));
    assert(body[leading as int] == key[0]);
    lemma_lead_count_prefix(body, body2, blank(), m1);
    let trimmed2 = body2.skip(leading as int);
    let m2: int = m1 - leading;
    assert(trimmed2.take(m2) =~= trimmed.take(m2));
    lemma_first_index_prefix(trimmed, trimmed2, ascii_ws(), m2);
    assert(trimmed2[0] == trimmed[0]);
    lemma_trim_nonempty(trimmed2, edge());
    assert(trimmed2.take(2) =~= trimmed.take(2));
    assert(trimmed2.take(1) =~= trimmed.take(1));
    assert(trimmed2.take(key_end as int) =~= key);
    assert(first_index(trimmed2, ascii_ws()) == key_end);
    assert(lead_count(body2, blank()) == leading);
    let after_key2 = trimmed2.skip(key_end as int);
    let m3: int = ws as int + 1;
    assert(after_key2.take(m3) =~= after_key.take(m3));
    assert(after_key[ws as int] == '"');
    lemma_lead_count_prefix(after_key, after_key2, blank(), m3);
    let quoted2 = after_key2.skip(ws as int);
    assert(quoted2[0] == '"');
    let tail2 = quoted2.drop_first();
    assert(tail2 =~= d + rest);
    assert forall|j: int| 0 <= j < d.len() implies !eq_pred('"')(#[trigger] tail2[j]) by {
        assert(tail2[j] == d[j]);
    }
    assert(tail2[d.len() as int] == '"');
    lemma_first_index_unique(tail2, eq_pred('"'), d.len() as int);
    assert(tail2.take(d.len() as int) =~= d);
    assert(tail2.skip(d.len() as int + 1) =~= tail.skip(closing as int + 1));
    assert(lead_count(after_key2, blank()) == ws);
    assert(first_index(tail2, eq_pred('"')) == d.len());
    assert(trim_by(tail2.skip(d.len() as int + 1), edge()) == trim_by(tail.skip(closing as int + 1), edge()));
}

/// Lines of the rewritten text, one for each line of the old.
pub open spec fn rewritten(lines: Seq<Seq<char>>, ents: Seq<ContentEntry>) -> Seq<Seq<char>> {
    Seq::new(lines.len(), |i: int| rewrite_line(lines[i], ents).0)
}

proof fn lemma_rewrite_lines_join(lines: Seq<Seq<char>>, ents: Seq<ContentEntry>)
    ensures
        rewrite_lines(lines, ents).0 == join_lines(rewritten(lines, ents)),
    decreases lines.len(),
{
    if lines.len() == 0 {
        assert(rewritten(lines, ents) =~= Seq::<Seq<char>>::empty());
    } else {
        lemma_rewrite_lines_join(lines.drop_last(), ents);
        assert(rewritten(lines.drop_last(), ents) =~= rewritten(lines, ents).drop_last());
    }
}

proof fn lemma_rewrite_lines_unchanged(lines: Seq<Seq<char>>, ents: Seq<ContentEntry>)
    requires
        forall|i: int| 0 <= i < lines.len() ==> !(#[trigger] rewrite_line(lines[i], ents)).1,
    ensures
        !rewrite_lines(lines, ents).1,
    decreases lines.len(),
{
    if lines.len() > 0 {
        assert forall|i: int| 0 <= i < lines.drop_last().len() implies !(#[trigger] rewrite_line(
            lines.drop_last()[i],
            ents,
        )).1 by {
            assert(lines.drop_last()[i] == lines[i]);
        }
        lemma_rewrite_lines_unchanged(lines.drop_last(), ents);
        assert(!rewrite_line(lines[lines.len() - 1], ents).1);
    }
}

/// One line rewritten: it keeps its shape and its last character, and
/// rewriting it again changes nothing.
proof fn lemma_line_settles(line: Seq<char>, ents: Seq<ContentEntry>)
    requires
        plain_entries(ents),
        line_shaped(line),
    ensures
        line_shaped(rewrite_line(line, ents).0),
        rewrite_line(line, ents).0.last() == line.last(),
        !rewrite_line(rewrite_line(line, ents).0, ents).1,
{
    match parse_line_spec(line, false) {
        Ok(Some((k, v, start))) => match desired_for(ents, k) {
            Some(d) => {
                if v != d {
                    lemma_desired_plain(ents, k);
                    lemma_parse_with_value(line, k, v, start, d);
                    let head = line.take(start as int);
                    let rest = line.skip((start + v.len()) as int);
                    let l2 = head + d + rest;
                    assert(rest.len() > 0 && rest[0] == '"');
                    assert(l2.last() == line.last());
                    assert forall|j: int| 0 <= j < l2.len() - 1 implies #[trigger] l2[j] != '\n' by {
                        if j < start {
                            assert(l2[j] == line[j]);
                        } else if j < start + d.len() {
                            assert(l2[j] == d[j - start]);
                        } else {
                            assert(l2[j] == line[j - start - d.len() + start + v.len()]);
                        }
                    }
                }
            },
            None => {},
        },
        _ => {},
    }
}

/// Applying a profile twice: the second rewrite of a config file finds
/// nothing to change.  Every line the first rewrite wrote reads back with the
/// profile's value.  (Values must be plain, as every value read from a
/// profile text is.)
pub proof fn law_rewrite_settles(content: Seq<char>, ents: Seq<ContentEntry>)
    requires
        plain_entries(ents),
    ensures
        !rewrite_lines(lines_of(rewrite_lines(lines_of(content), ents).0), ents).1,
{
    let lines = lines_of(content);
    let out = rewritten(lines, ents);
    lemma_lines_of_well_cut(content);
    lemma_rewrite_lines_join(lines, ents);
    assert forall|i: int| 0 <= i < out.len() implies line_shaped(#[trigger] out[i]) && !rewrite_line(
        out[i],
        ents,
    ).1 && out[i].last() == lines[i].last() by {
        assert(line_shaped(lines[i]));
        lemma_line_settles(lines[i], ents);
    }
    assert(well_cut(out)) by {
        assert forall|i: int| 0 <= i < out.len() - 1 implies (#[trigger] out[i]).last() == '\n' by {
            assert(line_shaped(out[i]));
            assert(lines[i].last() == '\n');
        }
    }
    lemma_lines_of_join(out);
    lemma_rewrite_lines_unchanged(out, ents);
}

} // verus!
