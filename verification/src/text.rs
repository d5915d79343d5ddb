//! Character-level text helpers shared by the launcher's parsers.
//!
//! Every function here works on the `Seq<char>` view of a string, and every
//! exec function is proved against a spec function of the same name.

use vstd::prelude::*;

verus! {

/// `String::push` appends one character.
pub assume_specification[ String::push ](string: &mut String, ch: char)
    ensures
        final(string)@ == old(string)@.push(ch),
;

/// Unicode `White_Space`, the set that `char::is_whitespace` and `str::trim` use.
pub open spec fn is_ws(c: char) -> bool {
    ||| ('\t' <= c && c <= '\r')
    ||| c == ' '
    ||| c == '\u{85}'
    ||| c == '\u{a0}'
    ||| c == '\u{1680}'
    ||| ('\u{2000}' <= c && c <= '\u{200a}')
    ||| c == '\u{2028}'
    ||| c == '\u{2029}'
    ||| c == '\u{202f}'
    ||| c == '\u{205f}'
    ||| c == '\u{3000}'
}

pub open spec fn ws_pred() -> spec_fn(char) -> bool {
    |c: char| is_ws(c)
}

pub open spec fn eq_pred(c: char) -> spec_fn(char) -> bool {
    |x: char| x == c
}

pub open spec fn non_digit_pred() -> spec_fn(char) -> bool {
    |x: char| !is_digit(x)
}

pub open spec fn has_ws(s: Seq<char>) -> bool {
    exists|i: int| 0 <= i < s.len() && is_ws(#[trigger] s[i])
}

pub open spec fn in_set(set: Seq<char>) -> spec_fn(char) -> bool {
    |c: char| set.contains(c)
}

pub open spec fn is_digit(c: char) -> bool {
    '0' <= c && c <= '9'
}

/// Number of leading characters of `s` that satisfy `p`.
pub open spec fn lead_count(s: Seq<char>, p: spec_fn(char) -> bool) -> nat
    decreases s.len(),
{
    if s.len() > 0 && p(s[0]) {
        1 + lead_count(s.drop_first(), p)
    } else {
        0
    }
}

/// Number of trailing characters of `s` that satisfy `p`.
pub open spec fn trail_count(s: Seq<char>, p: spec_fn(char) -> bool) -> nat
    decreases s.len(),
{
    if s.len() > 0 && p(s.last()) {
        1 + trail_count(s.drop_last(), p)
    } else {
        0
    }
}

pub open spec fn trim_start_by(s: Seq<char>, p: spec_fn(char) -> bool) -> Seq<char> {
    s.skip(lead_count(s, p) as int)
}

pub open spec fn trim_end_by(s: Seq<char>, p: spec_fn(char) -> bool) -> Seq<char> {
    s.take(s.len() - trail_count(s, p))
}

pub open spec fn trim_by(s: Seq<char>, p: spec_fn(char) -> bool) -> Seq<char> {
    trim_end_by(trim_start_by(s, p), p)
}

/// `str::trim`.
pub open spec fn trim(s: Seq<char>) -> Seq<char> {
    trim_by(s, ws_pred())
}

/// `c.to_ascii_lowercase()`.
pub open spec fn lower(c: char) -> char {
    if 'A' <= c && c <= 'Z' {
        ((c as u32) + 32) as char
    } else {
        c
    }
}

/// `c.to_ascii_uppercase()`.
pub open spec fn upper(c: char) -> char {
    if 'a' <= c && c <= 'z' {
        ((c as u32) - 32) as char
    } else {
        c
    }
}

/// `s.to_ascii_uppercase()`.
pub open spec fn upper_seq(s: Seq<char>) -> Seq<char> {
    s.map_values(|c: char| upper(c))
}

/// Every character of `s` is ASCII.
pub open spec fn ascii_only(s: Seq<char>) -> bool {
    forall|i: int| 0 <= i < s.len() ==> (#[trigger] s[i] as u32) < 128
}

/// `s.to_ascii_lowercase()`.
pub open spec fn lower_seq(s: Seq<char>) -> Seq<char> {
    s.map_values(|c: char| lower(c))
}

/// `a.eq_ignore_ascii_case(b)`.
pub open spec fn eq_ic(a: Seq<char>, b: Seq<char>) -> bool {
    lower_seq(a) == lower_seq(b)
}

pub open spec fn starts_with(s: Seq<char>, p: Seq<char>) -> bool {
    p.len() <= s.len() && s.take(p.len() as int) == p
}

pub open spec fn ends_with(s: Seq<char>, p: Seq<char>) -> bool {
    p.len() <= s.len() && s.skip(s.len() - p.len()) == p
}

/// `t` occurs in `s` at index `i`.
pub open spec fn matches_at(s: Seq<char>, t: Seq<char>, i: int) -> bool {
    0 <= i && i + t.len() <= s.len() && s.subrange(i, i + t.len()) == t
}

pub open spec fn contains_seq(s: Seq<char>, t: Seq<char>) -> bool {
    exists|i: int| matches_at(s, t, i)
}

/// `s.matches(t).count()` for a non-empty `t`: occurrences found by a
/// left-to-right scan that resumes after each match.
pub open spec fn count_matches(s: Seq<char>, t: Seq<char>) -> nat
    decreases s.len(),
{
    if t.len() == 0 || s.len() < t.len() {
        0
    } else if s.take(t.len() as int) == t {
        1 + count_matches(s.skip(t.len() as int), t)
    } else {
        count_matches(s.drop_first(), t)
    }
}

/// `s.replacen(a, b, 1)` for a non-empty `a`.
pub open spec fn replace_first(s: Seq<char>, a: Seq<char>, b: Seq<char>) -> Seq<char>
    decreases s.len(),
{
    if a.len() == 0 || s.len() < a.len() {
        s
    } else if s.take(a.len() as int) == a {
        b + s.skip(a.len() as int)
    } else {
        seq![s[0]] + replace_first(s.drop_first(), a, b)
    }
}

/// Replace every `a` with `b` (`str::replace` with a character pattern).
pub open spec fn replace_char(s: Seq<char>, a: char, b: char) -> Seq<char> {
    s.map_values(|c: char| if c == a { b } else { c })
}

/// `s.split(p)`: the pieces between the characters that satisfy `p`.
pub open spec fn split_by(s: Seq<char>, p: spec_fn(char) -> bool) -> Seq<Seq<char>>
    decreases s.len(),
{
    if s.len() == 0 {
        seq![Seq::<char>::empty()]
    } else {
        let r = split_by(s.drop_last(), p);
        if p(s.last()) {
            r.push(Seq::<char>::empty())
        } else {
            r.update(r.len() - 1, r.last().push(s.last()))
        }
    }
}

pub proof fn lemma_split_nonempty(s: Seq<char>, p: spec_fn(char) -> bool)
    ensures
        split_by(s, p).len() >= 1,
    decreases s.len(),
{
    if s.len() > 0 {
        lemma_split_nonempty(s.drop_last(), p);
    }
}

/// `s.split_inclusive('\n')`: the lines of `s`, each with its line feed;
/// the last one has none if `s` does not end with one.  An empty text has no
/// lines.
pub open spec fn lines_of(s: Seq<char>) -> Seq<Seq<char>>
    decreases s.len(),
{
    if s.len() == 0 {
        Seq::empty()
    } else {
        let r = lines_of(s.drop_last());
        if r.len() == 0 || r.last().last() == '\n' {
            r.push(seq![s.last()])
        } else {
            r.update(r.len() - 1, r.last().push(s.last()))
        }
    }
}

/// Index of the first character of `s` that satisfies `p`, or `s.len()`.
pub open spec fn first_index(s: Seq<char>, p: spec_fn(char) -> bool) -> nat
    decreases s.len(),
{
    if s.len() == 0 {
        0
    } else if p(s[0]) {
        0
    } else {
        1 + first_index(s.drop_first(), p)
    }
}

/// Value of a sequence of decimal digits.
pub open spec fn digits_value(s: Seq<char>) -> nat
    decreases s.len(),
{
    if s.len() == 0 {
        0
    } else {
        digits_value(s.drop_last()) * 10 + ((s.last() as u32) - ('0' as u32)) as nat
    }
}

pub open spec fn all_digits(s: Seq<char>) -> bool {
    forall|i: int| 0 <= i < s.len() ==> is_digit(#[trigger] s[i])
}

/// What `str::parse` for an unsigned integer type whose maximum is `max`
/// returns: an optional `+`, then one or more ASCII digits, with the value
/// at most `max`.
pub open spec fn unsigned_body(s: Seq<char>) -> Seq<char> {
    if s.len() > 0 && s[0] == '+' {
        s.drop_first()
    } else {
        s
    }
}

pub open spec fn parse_unsigned(s: Seq<char>, max: nat) -> Option<nat> {
    let body = unsigned_body(s);
    if body.len() > 0 && all_digits(body) && digits_value(body) <= max {
        Some(digits_value(body))
    } else {
        None
    }
}

/// Decimal digits of `n` (`n.to_string()`).
pub open spec fn decimal(n: nat) -> Seq<char>
    decreases n,
{
    if n < 10 {
        seq![(('0' as u32) + n) as char]
    } else {
        decimal(n / 10).push((('0' as u32) + (n % 10)) as char)
    }
}

// ---------------------------------------------------------------------------
// Lemmas
// ---------------------------------------------------------------------------

pub proof fn lemma_lead_count_step(s: Seq<char>, p: spec_fn(char) -> bool, i: int)
    requires
        0 <= i < s.len(),
    ensures
        p(s[i]) ==> lead_count(s.skip(i), p) == 1 + lead_count(s.skip(i + 1), p),
        !p(s[i]) ==> lead_count(s.skip(i), p) == 0,
{
    assert(s.skip(i).drop_first() =~= s.skip(i + 1));
    assert(s.skip(i)[0] == s[i]);
}

pub proof fn lemma_lead_count_bound(s: Seq<char>, p: spec_fn(char) -> bool)
    ensures
        lead_count(s, p) <= s.len(),
        forall|j: int| 0 <= j < lead_count(s, p) ==> p(#[trigger] s[j]),
        lead_count(s, p) < s.len() ==> !p(s[lead_count(s, p) as int]),
    decreases s.len(),
{
    if s.len() > 0 && p(s[0]) {
        lemma_lead_count_bound(s.drop_first(), p);
        assert forall|j: int| 0 <= j < lead_count(s, p) implies p(#[trigger] s[j]) by {
            if j > 0 {
                assert(s[j] == s.drop_first()[j - 1]);
            }
        }
        if lead_count(s, p) < s.len() {
            assert(s[lead_count(s, p) as int] == s.drop_first()[lead_count(s.drop_first(), p) as int]);
        }
    }
}

pub proof fn lemma_trail_count_step(s: Seq<char>, p: spec_fn(char) -> bool, j: int)
    requires
        0 < j <= s.len(),
    ensures
        p(s[j - 1]) ==> trail_count(s.take(j), p) == 1 + trail_count(s.take(j - 1), p),
        !p(s[j - 1]) ==> trail_count(s.take(j), p) == 0,
{
    assert(s.take(j).drop_last() =~= s.take(j - 1));
    assert(s.take(j).last() == s[j - 1]);
}

pub proof fn lemma_trail_count_bound(s: Seq<char>, p: spec_fn(char) -> bool)
    ensures
        trail_count(s, p) <= s.len(),
    decreases s.len(),
{
    if s.len() > 0 && p(s.last()) {
        lemma_trail_count_bound(s.drop_last(), p);
    }
}

pub proof fn lemma_first_index(s: Seq<char>, p: spec_fn(char) -> bool)
    ensures
        first_index(s, p) <= s.len(),
        forall|j: int| 0 <= j < first_index(s, p) ==> !p(#[trigger] s[j]),
        first_index(s, p) < s.len() ==> p(s[first_index(s, p) as int]),
    decreases s.len(),
{
    if s.len() > 0 && !p(s[0]) {
        lemma_first_index(s.drop_first(), p);
        assert forall|j: int| 0 <= j < first_index(s, p) implies !p(#[trigger] s[j]) by {
            if j > 0 {
                assert(s[j] == s.drop_first()[j - 1]);
            }
        }
        if first_index(s, p) < s.len() {
            assert(s[first_index(s, p) as int] == s.drop_first()[first_index(s.drop_first(), p) as int]);
        }
    }
}

/// `first_index` is characterised by its two properties.
pub proof fn lemma_first_index_unique(s: Seq<char>, p: spec_fn(char) -> bool, k: int)
    requires
        0 <= k <= s.len(),
        forall|j: int| 0 <= j < k ==> !p(#[trigger] s[j]),
        k < s.len() ==> p(s[k]),
    ensures
        first_index(s, p) == k,
{
    lemma_first_index(s, p);
}

/// `lead_count` is characterised by its two properties.
pub proof fn lemma_lead_count_unique(s: Seq<char>, p: spec_fn(char) -> bool, k: int)
    requires
        0 <= k <= s.len(),
        forall|j: int| 0 <= j < k ==> p(#[trigger] s[j]),
        k < s.len() ==> !p(s[k]),
    ensures
        lead_count(s, p) == k,
{
    lemma_lead_count_bound(s, p);
}

/// Two texts that agree on their first `m` characters agree on how many
/// leading characters satisfy `p`, when that count is below `m`.
pub proof fn lemma_lead_count_prefix(s: Seq<char>, t: Seq<char>, p: spec_fn(char) -> bool, m: int)
    requires
        0 <= m <= s.len(),
        m <= t.len(),
        s.take(m) == t.take(m),
        lead_count(s, p) < m,
    ensures
        lead_count(t, p) == lead_count(s, p),
{
    lemma_lead_count_bound(s, p);
    let k = lead_count(s, p) as int;
    assert forall|j: int| 0 <= j < k implies p(#[trigger] t[j]) by {
        assert(s.take(m)[j] == s[j]);
        assert(t.take(m)[j] == t[j]);
        assert(p(s[j]));
    }
    assert(s.take(m)[k] == s[k]);
    assert(t.take(m)[k] == t[k]);
    lemma_lead_count_unique(t, p, k);
}

/// Two texts that agree on their first `m` characters agree on where the
/// first character satisfying `p` stands, when it stands below `m`.
pub proof fn lemma_first_index_prefix(s: Seq<char>, t: Seq<char>, p: spec_fn(char) -> bool, m: int)
    requires
        0 <= m <= s.len(),
        m <= t.len(),
        s.take(m) == t.take(m),
        first_index(s, p) < m,
    ensures
        first_index(t, p) == first_index(s, p),
{
    lemma_first_index(s, p);
    let k = first_index(s, p) as int;
    assert forall|j: int| 0 <= j < k implies !p(#[trigger] t[j]) by {
        assert(s.take(m)[j] == s[j]);
        assert(t.take(m)[j] == t[j]);
        assert(!p(s[j]));
    }
    assert(s.take(m)[k] == s[k]);
    assert(t.take(m)[k] == t[k]);
    lemma_first_index_unique(t, p, k);
}

/// A text whose first character does not satisfy `p` is not all `p`.
pub proof fn lemma_trail_count_lt(s: Seq<char>, p: spec_fn(char) -> bool)
    requires
        s.len() > 0,
        !p(s[0]),
    ensures
        trail_count(s, p) < s.len(),
    decreases s.len(),
{
    if p(s.last()) {
        assert(s.drop_last()[0] == s[0]);
        lemma_trail_count_lt(s.drop_last(), p);
    }
}

/// Trimming a text whose first character does not satisfy `p` leaves
/// something.
pub proof fn lemma_trim_nonempty(s: Seq<char>, p: spec_fn(char) -> bool)
    requires
        s.len() > 0,
        !p(s[0]),
    ensures
        trim_by(s, p).len() > 0,
{
    assert(lead_count(s, p) == 0);
    assert(s.skip(0) =~= s);
    lemma_trail_count_lt(s, p);
}

/// `lines` joined back into one text.
pub open spec fn join_lines(lines: Seq<Seq<char>>) -> Seq<char>
    decreases lines.len(),
{
    if lines.len() == 0 {
        Seq::empty()
    } else {
        join_lines(lines.drop_last()) + lines.last()
    }
}

/// A line as `lines_of` cuts one: not empty, and a line feed only as its
/// last character.
pub open spec fn line_shaped(l: Seq<char>) -> bool {
    l.len() > 0 && forall|j: int| 0 <= j < l.len() - 1 ==> #[trigger] l[j] != '\n'
}

/// Lines as `lines_of` cuts them: each line shaped, and every line but the
/// last ending with a line feed.
pub open spec fn well_cut(lines: Seq<Seq<char>>) -> bool {
    &&& forall|i: int| 0 <= i < lines.len() ==> line_shaped(#[trigger] lines[i])
    &&& forall|i: int| 0 <= i < lines.len() - 1 ==> (#[trigger] lines[i]).last() == '\n'
}

pub proof fn lemma_lines_of_last(s: Seq<char>)
    requires
        s.len() > 0,
    ensures
        lines_of(s).len() > 0,
        lines_of(s).last().len() > 0,
        lines_of(s).last().last() == s.last(),
{
}

/// Appending a shaped line to a text that is empty or ends a line adds
/// exactly that line.
pub proof fn lemma_lines_of_push_line(s: Seq<char>, l: Seq<char>)
    requires
        s.len() == 0 || s.last() == '\n',
        line_shaped(l),
    ensures
        lines_of(s + l) == lines_of(s).push(l),
    decreases l.len(),
{
    let t = s + l;
    assert(t.drop_last() =~= s + l.drop_last());
    assert(t.last() == l.last());
    if l.len() == 1 {
        assert(s + l.drop_last() =~= s);
        if s.len() > 0 {
            lemma_lines_of_last(s);
        }
        assert(seq![l.last()] =~= l);
    } else {
        assert(line_shaped(l.drop_last())) by {
            assert forall|j: int| 0 <= j < l.drop_last().len() - 1 implies #[trigger] l.drop_last()[j]
                != '\n' by {
                assert(l.drop_last()[j] == l[j]);
            }
        }
        lemma_lines_of_push_line(s, l.drop_last());
        let r = lines_of(s + l.drop_last());
        assert(r.last() == l.drop_last());
        assert(l.drop_last().last() == l[l.len() - 2]);
        assert(l.drop_last().push(l.last()) =~= l);
        assert(r.update(r.len() - 1, r.last().push(l.last())) =~= lines_of(s).push(l));
    }
}

pub proof fn lemma_join_last(lines: Seq<Seq<char>>)
    requires
        lines.len() > 0,
        lines.last().len() > 0,
    ensures
        join_lines(lines).len() > 0,
        join_lines(lines).last() == lines.last().last(),
{
    let j = join_lines(lines.drop_last());
    assert((j + lines.last()).last() == lines.last().last());
}

/// Cutting joined lines gives the lines back.
pub proof fn lemma_lines_of_join(lines: Seq<Seq<char>>)
    requires
        well_cut(lines),
    ensures
        lines_of(join_lines(lines)) == lines,
    decreases lines.len(),
{
    if lines.len() == 0 {
        assert(lines_of(Seq::<char>::empty()) =~= lines);
    } else {
        let init = lines.drop_last();
        assert(well_cut(init)) by {
            assert forall|i: int| 0 <= i < init.len() implies line_shaped(#[trigger] init[i]) by {
                assert(init[i] == lines[i]);
            }
            assert forall|i: int| 0 <= i < init.len() - 1 implies (#[trigger] init[i]).last()
                == '\n' by {
                assert(init[i] == lines[i]);
            }
        }
        lemma_lines_of_join(init);
        if init.len() > 0 {
            assert(init.last() == lines[lines.len() - 2]);
            assert(line_shaped(lines[lines.len() - 2]));
            lemma_join_last(init);
        }
        assert(line_shaped(lines[lines.len() - 1]));
        lemma_lines_of_push_line(join_lines(init), lines.last());
        assert(init.push(lines.last()) =~= lines);
    }
}

/// `lines_of` cuts well.
pub proof fn lemma_lines_of_well_cut(s: Seq<char>)
    ensures
        well_cut(lines_of(s)),
    decreases s.len(),
{
    if s.len() > 0 {
        lemma_lines_of_well_cut(s.drop_last());
        let r = lines_of(s.drop_last());
        let c = s.last();
        if r.len() == 0 || r.last().last() == '\n' {
            let n = r.push(seq![c]);
            assert forall|i: int| 0 <= i < n.len() implies line_shaped(#[trigger] n[i]) by {
                if i < r.len() {
                    assert(n[i] == r[i]);
                }
            }
            assert forall|i: int| 0 <= i < n.len() - 1 implies (#[trigger] n[i]).last() == '\n' by {
                assert(n[i] == r[i]);
                if i < r.len() - 1 {
                } else {
                    assert(i == r.len() - 1);
                }
            }
        } else {
            let last = r.last().push(c);
            let n = r.update(r.len() - 1, last);
            assert(line_shaped(r[r.len() - 1]));
            assert(line_shaped(last)) by {
                assert forall|j: int| 0 <= j < last.len() - 1 implies #[trigger] last[j] != '\n' by {
                    assert(last[j] == r.last()[j]);
                    if j < r.last().len() - 1 {
                    } else {
                        assert(j == r.last().len() - 1);
                    }
                }
            }
            assert forall|i: int| 0 <= i < n.len() implies line_shaped(#[trigger] n[i]) by {
                if i < r.len() - 1 {
                    assert(n[i] == r[i]);
                }
            }
            assert forall|i: int| 0 <= i < n.len() - 1 implies (#[trigger] n[i]).last() == '\n' by {
                assert(n[i] == r[i]);
            }
        }
    }
}

pub proof fn lemma_digits_value_push(s: Seq<char>, c: char)
    ensures
        digits_value(s.push(c)) == digits_value(s) * 10 + ((c as u32) - ('0' as u32)) as nat,
{
    assert(s.push(c).drop_last() =~= s);
}

pub proof fn lemma_count_matches_step(s: Seq<char>, t: Seq<char>, i: int)
    requires
        t.len() > 0,
        0 <= i,
        i + t.len() <= s.len(),
    ensures
        matches_at(s, t, i) ==> count_matches(s.skip(i), t) == 1 + count_matches(
            s.skip(i + t.len()),
            t,
        ),
        !matches_at(s, t, i) ==> count_matches(s.skip(i), t) == count_matches(s.skip(i + 1), t),
{
    assert(s.skip(i).take(t.len() as int) =~= s.subrange(i, i + t.len()));
    assert(s.skip(i).skip(t.len() as int) =~= s.skip(i + t.len()));
    assert(s.skip(i).drop_first() =~= s.skip(i + 1));
}

/// A positive count means a first occurrence exists.
pub proof fn lemma_count_pos_first(s: Seq<char>, t: Seq<char>) -> (k: int)
    requires
        t.len() > 0,
        count_matches(s, t) > 0,
    ensures
        matches_at(s, t, k),
        forall|j: int| 0 <= j < k ==> !#[trigger] matches_at(s, t, j),
    decreases s.len(),
{
    assert(s.take(t.len() as int) =~= s.subrange(0, t.len() as int));
    if s.take(t.len() as int) == t {
        0
    } else {
        let r = s.drop_first();
        let k1 = lemma_count_pos_first(r, t);
        assert(r.subrange(k1, k1 + t.len()) =~= s.subrange(k1 + 1, k1 + 1 + t.len()));
        assert forall|j: int| 0 <= j < k1 + 1 implies !#[trigger] matches_at(s, t, j) by {
            if j > 0 {
                assert(r.subrange(j - 1, j - 1 + t.len()) =~= s.subrange(j, j + t.len()));
                assert(!matches_at(r, t, j - 1));
            }
        }
        k1 + 1
    }
}

/// With no occurrence at all, the count is zero.
pub proof fn lemma_count_none(s: Seq<char>, t: Seq<char>)
    requires
        t.len() > 0,
        forall|j: int| !#[trigger] matches_at(s, t, j),
    ensures
        count_matches(s, t) == 0,
    decreases s.len(),
{
    if s.len() >= t.len() {
        assert(s.take(t.len() as int) =~= s.subrange(0, t.len() as int));
        assert(!matches_at(s, t, 0));
        let r = s.drop_first();
        assert forall|j: int| !#[trigger] matches_at(r, t, j) by {
            if 0 <= j && j + t.len() <= r.len() {
                assert(r.subrange(j, j + t.len()) =~= s.subrange(j + 1, j + 1 + t.len()));
                assert(!matches_at(s, t, j + 1));
            }
        }
        lemma_count_none(r, t);
    }
}

/// A count of zero means there is no occurrence anywhere.
pub proof fn lemma_count_zero_no_match(s: Seq<char>, t: Seq<char>)
    requires
        t.len() > 0,
        count_matches(s, t) == 0,
    ensures
        forall|j: int| !#[trigger] matches_at(s, t, j),
    decreases s.len(),
{
    if s.len() >= t.len() {
        assert(s.take(t.len() as int) =~= s.subrange(0, t.len() as int));
        let r = s.drop_first();
        lemma_count_zero_no_match(r, t);
        assert forall|j: int| !#[trigger] matches_at(s, t, j) by {
            if 1 <= j && j + t.len() <= s.len() {
                assert(r.subrange(j - 1, j - 1 + t.len()) =~= s.subrange(j, j + t.len()));
                assert(!matches_at(r, t, j - 1));
            }
        }
    }
}

/// Skipping positions where nothing matches leaves the count unchanged.
pub proof fn lemma_count_skip_to(s: Seq<char>, t: Seq<char>, i: int, k: int)
    requires
        t.len() > 0,
        0 <= i <= k,
        k + t.len() <= s.len(),
        forall|j: int| i <= j < k ==> !#[trigger] matches_at(s, t, j),
    ensures
        count_matches(s.skip(i), t) == count_matches(s.skip(k), t),
    decreases k - i,
{
    if i < k {
        lemma_count_matches_step(s, t, i);
        lemma_count_skip_to(s, t, i + 1, k);
    }
}

/// `replace_first` of a sequence whose first match is at `k`.
pub proof fn lemma_replace_first_at(s: Seq<char>, a: Seq<char>, b: Seq<char>, k: int)
    requires
        a.len() > 0,
        matches_at(s, a, k),
        forall|j: int| 0 <= j < k ==> !matches_at(s, a, j),
    ensures
        replace_first(s, a, b) == s.take(k) + b + s.skip(k + a.len()),
    decreases k,
{
    if k == 0 {
        assert(s.take(a.len() as int) =~= s.subrange(0, a.len() as int));
        assert(s.take(0) + b =~= b);
    } else {
        assert(s.take(a.len() as int) =~= s.subrange(0, a.len() as int));
        assert(!matches_at(s, a, 0));
        let t = s.drop_first();
        assert forall|j: int| 0 <= j < k - 1 implies !matches_at(t, a, j) by {
            assert(t.subrange(j, j + a.len()) =~= s.subrange(j + 1, j + 1 + a.len()));
            assert(!matches_at(s, a, j + 1));
        }
        assert(t.subrange(k - 1, k - 1 + a.len()) =~= s.subrange(k, k + a.len()));
        lemma_replace_first_at(t, a, b, k - 1);
        assert(seq![s[0]] + (t.take(k - 1) + b + t.skip(k - 1 + a.len())) =~= s.take(k) + b
            + s.skip(k + a.len()));
    }
}

/// `replace_first` of a sequence in which `a` does not occur.
pub proof fn lemma_replace_first_none(s: Seq<char>, a: Seq<char>, b: Seq<char>)
    requires
        a.len() > 0,
        forall|j: int| !matches_at(s, a, j),
    ensures
        replace_first(s, a, b) == s,
    decreases s.len(),
{
    if s.len() >= a.len() {
        assert(s.take(a.len() as int) =~= s.subrange(0, a.len() as int));
        assert(!matches_at(s, a, 0));
        let t = s.drop_first();
        assert forall|j: int| !matches_at(t, a, j) by {
            if 0 <= j && j + a.len() <= t.len() {
                assert(t.subrange(j, j + a.len()) =~= s.subrange(j + 1, j + 1 + a.len()));
                assert(!matches_at(s, a, j + 1));
            }
        }
        lemma_replace_first_none(t, a, b);
        assert(seq![s[0]] + t =~= s);
    }
}

// ---------------------------------------------------------------------------
// Executable helpers
// ---------------------------------------------------------------------------

/// The characters of `s`, in order.
pub fn chars_of(s: &str) -> (res: Vec<char>)
    ensures
        res@ == s@,
{
    let mut res: Vec<char> = Vec::new();
    for c in it: s.chars()
        invariant
            it.seq() == s@,
            res@ == it.seq().take(it.index() as int),
    {
        res.push(c);
    }
    res
}

/// A `String` holding exactly the characters of `s`.
pub fn string_of(s: &[char]) -> (res: String)
    ensures
        res@ == s@,
{
    let mut res = String::new();
    let mut i: usize = 0;
    while i < s.len()
        invariant
            i <= s.len(),
            res@ == s@.take(i as int),
        decreases s.len() - i,
    {
        res.push(s[i]);
        i = i + 1;
        assert(res@ =~= s@.take(i as int));
    }
    assert(s@.take(i as int) =~= s@);
    res
}

/// A `String` holding the characters of `s`.
pub fn string_from_str(s: &str) -> (res: String)
    ensures
        res@ == s@,
{
    s.to_owned()
}

/// `a` followed by `b`, as a `String`.
pub fn join_str(a: &str, b: &str) -> (res: String)
    ensures
        res@ == a@ + b@,
{
    let x = chars_of(a);
    let y = chars_of(b);
    let z = concat(&x, &y);
    string_of(&z)
}

/// `a`, `b` and `c` one after the other, as a `String`.
pub fn join3_str(a: &str, b: &str, c: &str) -> (res: String)
    ensures
        res@ == a@ + b@ + c@,
{
    let ab = join_str(a, b);
    join_str(ab.as_str(), c)
}

/// A one-character vector.
pub fn one_char(c: char) -> (v: Vec<char>)
    ensures
        v@ == seq![c],
{
    let mut v: Vec<char> = Vec::new();
    v.push(c);
    assert(v@ =~= seq![c]);
    v
}

/// Some character of `s` is Unicode whitespace.
pub fn any_ws(s: &[char]) -> (r: bool)
    ensures
        r == has_ws(s@),
{
    let mut i: usize = 0;
    while i < s.len()
        invariant
            i <= s.len(),
            forall|j: int| 0 <= j < i ==> !is_ws(#[trigger] s@[j]),
        decreases s.len() - i,
    {
        if is_ws_char(s[i]) {
            return true;
        }
        i = i + 1;
    }
    false
}

/// `s.split(c)`.
pub fn split_on_char(s: &[char], c: char) -> (res: Vec<Vec<char>>)
    ensures
        views(res@) == split_by(s@, eq_pred(c)),
{
    let mut done: Vec<Vec<char>> = Vec::new();
    let mut cur: Vec<char> = Vec::new();
    let mut i: usize = 0;
    assert(s@.take(0) =~= Seq::<char>::empty());
    assert(views(done@).push(cur@) =~= seq![Seq::<char>::empty()]);
    while i < s.len()
        invariant
            i <= s.len(),
            split_by(s@.take(i as int), eq_pred(c)) == views(done@).push(cur@),
        decreases s.len() - i,
    {
        let ghost prev = s@.take(i as int);
        assert(s@.take(i + 1).drop_last() =~= prev);
        assert(s@.take(i + 1).last() == s@[i as int]);
        if s[i] == c {
            let ghost old_done = views(done@);
            done.push(cur);
            cur = Vec::new();
            assert(views(done@) =~= old_done.push(cur_view_of_last(views(done@))));
            assert(views(done@).push(cur@) =~= split_by(s@.take(i + 1), eq_pred(c)));
        } else {
            let ghost r = views(done@).push(cur@);
            cur.push(s[i]);
            assert(r.update(r.len() - 1, r.last().push(s@[i as int])) =~= views(done@).push(
                cur@,
            ));
        }
        i = i + 1;
    }
    assert(s@.take(s@.len() as int) =~= s@);
    let ghost before = views(done@);
    let ghost last = cur@;
    done.push(cur);
    assert(views(done@) =~= before.push(last));
    done
}

/// `s.split_inclusive('\n')`.
pub fn split_lines(s: &[char]) -> (res: Vec<Vec<char>>)
    ensures
        views(res@) == lines_of(s@),
{
    let mut done: Vec<Vec<char>> = Vec::new();
    let mut cur: Vec<char> = Vec::new();
    let mut i: usize = 0;
    assert(s@.take(0) =~= Seq::<char>::empty());
    assert(views(done@) =~= Seq::<Seq<char>>::empty());
    while i < s.len()
        invariant
            i <= s.len(),
            lines_of(s@.take(i as int)) == (if cur@.len() == 0 {
                views(done@)
            } else {
                views(done@).push(cur@)
            }),
            cur@.len() > 0 ==> cur@.last() != '\n',
            done@.len() > 0 ==> done@.last()@.len() > 0 && done@.last()@.last() == '\n',
        decreases s.len() - i,
    {
        let ghost prev = s@.take(i as int);
        assert(s@.take(i + 1).drop_last() =~= prev);
        assert(s@.take(i + 1).last() == s@[i as int]);
        let ghost r = lines_of(prev);
        let ghost old_done = views(done@);
        let ghost old_cur = cur@;
        let c = s[i];
        let was_empty = cur.len() == 0;
        cur.push(c);
        if was_empty {
            assert(cur@ =~= seq![c]);
        } else {
            assert(r.last() == old_cur);
            assert(r.update(r.len() - 1, r.last().push(c)) =~= old_done.push(cur@));
        }
        if c == '\n' {
            let ghost full = cur@;
            done.push(cur);
            cur = Vec::new();
            assert(views(done@) =~= old_done.push(full));
        }
        i = i + 1;
    }
    assert(s@.take(s@.len() as int) =~= s@);
    if cur.len() > 0 {
        let ghost before = views(done@);
        let ghost last = cur@;
        done.push(cur);
        assert(views(done@) =~= before.push(last));
    }
    done
}

pub open spec fn cur_view_of_last(v: Seq<Seq<char>>) -> Seq<char> {
    v.last()
}

/// The character sequences held by a sequence of vectors.
pub open spec fn views(v: Seq<Vec<char>>) -> Seq<Seq<char>> {
    v.map_values(|x: Vec<char>| x@)
}

/// `s.split(|c| !c.is_ascii_digit())`.
pub fn split_on_non_digit(s: &[char]) -> (res: Vec<Vec<char>>)
    ensures
        views(res@) == split_by(s@, non_digit_pred()),
{
    let mut done: Vec<Vec<char>> = Vec::new();
    let mut cur: Vec<char> = Vec::new();
    let mut i: usize = 0;
    assert(s@.take(0) =~= Seq::<char>::empty());
    assert(views(done@).push(cur@) =~= seq![Seq::<char>::empty()]);
    while i < s.len()
        invariant
            i <= s.len(),
            split_by(s@.take(i as int), non_digit_pred()) == views(done@).push(cur@),
        decreases s.len() - i,
    {
        let ghost prev = s@.take(i as int);
        assert(s@.take(i + 1).drop_last() =~= prev);
        assert(s@.take(i + 1).last() == s@[i as int]);
        if !is_digit_char(s[i]) {
            done.push(cur);
            cur = Vec::new();
            assert(views(done@).push(cur@) =~= split_by(s@.take(i + 1), non_digit_pred()));
        } else {
            let ghost r = views(done@).push(cur@);
            cur.push(s[i]);
            assert(r.update(r.len() - 1, r.last().push(s@[i as int])) =~= views(done@).push(
                cur@,
            ));
        }
        i = i + 1;
    }
    assert(s@.take(s@.len() as int) =~= s@);
    let ghost before = views(done@);
    let ghost last = cur@;
    done.push(cur);
    assert(views(done@) =~= before.push(last));
    done
}

/// `s[a..b]` as a vector.
pub fn slice_of(s: &[char], a: usize, b: usize) -> (res: Vec<char>)
    requires
        a <= b <= s.len(),
    ensures
        res@ == s@.subrange(a as int, b as int),
{
    let mut res: Vec<char> = Vec::new();
    let mut i = a;
    while i < b
        invariant
            a <= i <= b <= s.len(),
            res@ == s@.subrange(a as int, i as int),
        decreases b - i,
    {
        res.push(s[i]);
        i = i + 1;
        assert(res@ =~= s@.subrange(a as int, i as int));
    }
    res
}

/// `a` followed by `b`.
pub fn concat(a: &[char], b: &[char]) -> (res: Vec<char>)
    ensures
        res@ == a@ + b@,
{
    let mut res = slice_of(a, 0, a.len());
    assert(a@.subrange(0, a@.len() as int) =~= a@);
    let mut i: usize = 0;
    while i < b.len()
        invariant
            i <= b.len(),
            res@ == a@ + b@.take(i as int),
        decreases b.len() - i,
    {
        res.push(b[i]);
        i = i + 1;
        assert(res@ =~= a@ + b@.take(i as int));
    }
    assert(b@.take(i as int) =~= b@);
    res
}

pub fn is_ws_char(c: char) -> (r: bool)
    ensures
        r == is_ws(c),
{
    ('\t' <= c && c <= '\r') || c == ' ' || c == '\u{85}' || c == '\u{a0}' || c == '\u{1680}'
        || ('\u{2000}' <= c && c <= '\u{200a}') || c == '\u{2028}' || c == '\u{2029}' || c
        == '\u{202f}' || c == '\u{205f}' || c == '\u{3000}'
}

pub fn is_digit_char(c: char) -> (r: bool)
    ensures
        r == is_digit(c),
{
    '0' <= c && c <= '9'
}

pub fn set_has(set: &[char], c: char) -> (r: bool)
    ensures
        r == set@.contains(c),
{
    let mut i: usize = 0;
    while i < set.len()
        invariant
            i <= set.len(),
            forall|j: int| 0 <= j < i ==> set@[j] != c,
        decreases set.len() - i,
    {
        if set[i] == c {
            return true;
        }
        i = i + 1;
    }
    false
}

/// `c.to_ascii_lowercase()`.
pub fn ascii_lower(c: char) -> (r: char)
    ensures
        r == lower(c),
{
    if 'A' <= c && c <= 'Z' {
        let b: u8 = c as u8;
        assert(b == c as u32);
        ((b + 32) as u8) as char
    } else {
        c
    }
}

/// `s.to_ascii_lowercase()`.
pub fn to_ascii_lower(s: &[char]) -> (res: Vec<char>)
    ensures
        res@ == lower_seq(s@),
{
    let mut res: Vec<char> = Vec::new();
    let mut i: usize = 0;
    while i < s.len()
        invariant
            i <= s.len(),
            res@ == lower_seq(s@.take(i as int)),
        decreases s.len() - i,
    {
        res.push(ascii_lower(s[i]));
        i = i + 1;
        assert(res@ =~= lower_seq(s@.take(i as int)));
    }
    assert(s@.take(i as int) =~= s@);
    res
}

/// `a.eq_ignore_ascii_case(b)`.
pub fn eq_ignore_case(a: &[char], b: &[char]) -> (r: bool)
    ensures
        r == eq_ic(a@, b@),
{
    if a.len() != b.len() {
        assert(lower_seq(a@).len() != lower_seq(b@).len());
        return false;
    }
    let mut i: usize = 0;
    while i < a.len()
        invariant
            i <= a.len(),
            a.len() == b.len(),
            forall|j: int| 0 <= j < i ==> lower(#[trigger] a@[j]) == lower(b@[j]),
        decreases a.len() - i,
    {
        if ascii_lower(a[i]) != ascii_lower(b[i]) {
            assert(lower_seq(a@)[i as int] != lower_seq(b@)[i as int]);
            return false;
        }
        i = i + 1;
    }
    assert(lower_seq(a@) =~= lower_seq(b@));
    true
}

/// Same characters.
pub fn seq_eq(a: &[char], b: &[char]) -> (r: bool)
    ensures
        r == (a@ == b@),
{
    if a.len() != b.len() {
        return false;
    }
    let mut i: usize = 0;
    while i < a.len()
        invariant
            i <= a.len(),
            a.len() == b.len(),
            forall|j: int| 0 <= j < i ==> a@[j] == b@[j],
        decreases a.len() - i,
    {
        if a[i] != b[i] {
            return false;
        }
        i = i + 1;
    }
    assert(a@ =~= b@);
    true
}

/// `t` occurs in `s` at `i`.
pub fn match_at(s: &[char], t: &[char], i: usize) -> (r: bool)
    ensures
        r == matches_at(s@, t@, i as int),
{
    if i > s.len() || t.len() > s.len() - i {
        return false;
    }
    let mut j: usize = 0;
    while j < t.len()
        invariant
            j <= t.len(),
            i + t.len() <= s.len(),
            forall|k: int| 0 <= k < j ==> s@[i + k] == t@[k],
        decreases t.len() - j,
    {
        if s[i + j] != t[j] {
            assert(s@.subrange(i as int, i + t.len())[j as int] != t@[j as int]);
            return false;
        }
        j = j + 1;
    }
    assert(s@.subrange(i as int, i + t.len()) =~= t@);
    true
}

pub fn starts_with_seq(s: &[char], p: &[char]) -> (r: bool)
    ensures
        r == starts_with(s@, p@),
{
    let r = match_at(s, p, 0);
    proof {
        if p@.len() <= s@.len() {
            assert(s@.take(p@.len() as int) =~= s@.subrange(0, p@.len() as int));
        }
    }
    r
}

pub fn ends_with_seq(s: &[char], p: &[char]) -> (r: bool)
    ensures
        r == ends_with(s@, p@),
{
    if p.len() > s.len() {
        return false;
    }
    let r = match_at(s, p, s.len() - p.len());
    proof {
        assert(s@.skip(s@.len() - p@.len()) =~= s@.subrange(s@.len() - p@.len(), s@.len() as int));
    }
    r
}

/// Index of the first occurrence of `t` in `s` at or after `from`.
pub fn find_from(s: &[char], t: &[char], from: usize) -> (r: Option<usize>)
    ensures
        match r {
            Some(i) => from <= i && matches_at(s@, t@, i as int) && forall|j: int|
                from <= j < i ==> !#[trigger] matches_at(s@, t@, j),
            None => forall|j: int| from <= j ==> !#[trigger] matches_at(s@, t@, j),
        },
{
    if t.len() > s.len() || from > s.len() - t.len() {
        return None;
    }
    let mut i = from;
    loop
        invariant
            from <= i <= s.len() - t.len(),
            t.len() <= s.len(),
            forall|j: int| from <= j < i ==> !#[trigger] matches_at(s@, t@, j),
        decreases s.len() - t.len() - i,
    {
        if match_at(s, t, i) {
            return Some(i);
        }
        if i == s.len() - t.len() {
            return None;
        }
        i = i + 1;
    }
}

/// `s.contains(t)`.
pub fn contains(s: &[char], t: &[char]) -> (r: bool)
    ensures
        r == contains_seq(s@, t@),
{
    match find_from(s, t, 0) {
        Some(_) => true,
        None => {
            assert forall|j: int| !matches_at(s@, t@, j) by {
                if j < 0 {
                }
            }
            false
        },
    }
}

/// `s.matches(t).count()`.
pub fn count_occurrences(s: &[char], t: &[char]) -> (n: usize)
    requires
        t.len() > 0,
    ensures
        n == count_matches(s@, t@),
{
    let mut n: usize = 0;
    let mut i: usize = 0;
    assert(s@.skip(0) =~= s@);
    while t.len() <= s.len() - i
        invariant
            i <= s.len(),
            t.len() > 0,
            n <= i,
            count_matches(s@, t@) == n + count_matches(s@.skip(i as int), t@),
        decreases s.len() - i,
    {
        proof {
            lemma_count_matches_step(s@, t@, i as int);
        }
        if match_at(s, t, i) {
            n = n + 1;
            i = i + t.len();
        } else {
            i = i + 1;
        }
    }
    n
}

/// `s.replacen(a, b, 1)`.
pub fn replace_first_seq(s: &[char], a: &[char], b: &[char]) -> (res: Vec<char>)
    requires
        a.len() > 0,
    ensures
        res@ == replace_first(s@, a@, b@),
{
    match find_from(s, a, 0) {
        Some(k) => {
            assert(matches_at(s@, a@, k as int));
            let alen = a.len();
            assert(k + alen <= s@.len());
            proof {
                lemma_replace_first_at(s@, a@, b@, k as int);
            }
            let pre = slice_of(s, 0, k);
            let mid = concat(&pre, b);
            let post = slice_of(s, k + alen, s.len());
            assert(s@.take(k as int) =~= s@.subrange(0, k as int));
            assert(s@.skip(k + a@.len()) =~= s@.subrange(k + a@.len(), s@.len() as int));
            concat(&mid, &post)
        },
        None => {
            proof {
                assert forall|j: int| !matches_at(s@, a@, j) by {
                    if j < 0 {
                    }
                }
                lemma_replace_first_none(s@, a@, b@);
            }
            let r = slice_of(s, 0, s.len());
            assert(s@.subrange(0, s@.len() as int) =~= s@);
            r
        },
    }
}

/// Number of leading Unicode whitespace characters.
pub fn lead_ws(s: &[char]) -> (n: usize)
    ensures
        n == lead_count(s@, ws_pred()),
{
    let mut i: usize = 0;
    assert(s@.skip(0) =~= s@);
    while i < s.len() && is_ws_char(s[i])
        invariant
            i <= s.len(),
            lead_count(s@, ws_pred()) == i + lead_count(s@.skip(i as int), ws_pred()),
        decreases s.len() - i,
    {
        proof {
            lemma_lead_count_step(s@, ws_pred(), i as int);
        }
        i = i + 1;
    }
    proof {
        if i < s.len() {
            lemma_lead_count_step(s@, ws_pred(), i as int);
        } else {
            assert(s@.skip(i as int).len() == 0);
        }
    }
    i
}

/// Number of leading characters that are in `set`.
pub fn lead_in(s: &[char], set: &[char]) -> (n: usize)
    ensures
        n == lead_count(s@, in_set(set@)),
{
    let mut i: usize = 0;
    assert(s@.skip(0) =~= s@);
    while i < s.len() && set_has(set, s[i])
        invariant
            i <= s.len(),
            lead_count(s@, in_set(set@)) == i + lead_count(s@.skip(i as int), in_set(set@)),
        decreases s.len() - i,
    {
        proof {
            lemma_lead_count_step(s@, in_set(set@), i as int);
        }
        i = i + 1;
    }
    proof {
        if i < s.len() {
            lemma_lead_count_step(s@, in_set(set@), i as int);
        } else {
            assert(s@.skip(i as int).len() == 0);
        }
    }
    i
}

/// Number of trailing Unicode whitespace characters.
pub fn trail_ws(s: &[char]) -> (n: usize)
    ensures
        n == trail_count(s@, ws_pred()),
{
    let mut j: usize = s.len();
    assert(s@.take(j as int) =~= s@);
    while j > 0 && is_ws_char(s[j - 1])
        invariant
            j <= s.len(),
            trail_count(s@, ws_pred()) == (s.len() - j) + trail_count(
                s@.take(j as int),
                ws_pred(),
            ),
        decreases j,
    {
        proof {
            lemma_trail_count_step(s@, ws_pred(), j as int);
        }
        j = j - 1;
    }
    proof {
        if j > 0 {
            lemma_trail_count_step(s@, ws_pred(), j as int);
        } else {
            assert(s@.take(0).len() == 0);
        }
    }
    s.len() - j
}

/// Number of trailing characters that are in `set`.
pub fn trail_in(s: &[char], set: &[char]) -> (n: usize)
    ensures
        n == trail_count(s@, in_set(set@)),
{
    let mut j: usize = s.len();
    assert(s@.take(j as int) =~= s@);
    while j > 0 && set_has(set, s[j - 1])
        invariant
            j <= s.len(),
            trail_count(s@, in_set(set@)) == (s.len() - j) + trail_count(
                s@.take(j as int),
                in_set(set@),
            ),
        decreases j,
    {
        proof {
            lemma_trail_count_step(s@, in_set(set@), j as int);
        }
        j = j - 1;
    }
    proof {
        if j > 0 {
            lemma_trail_count_step(s@, in_set(set@), j as int);
        } else {
            assert(s@.take(0).len() == 0);
        }
    }
    s.len() - j
}

/// `s.trim_start()`.
pub fn trim_start_ws(s: &[char]) -> (res: Vec<char>)
    ensures
        res@ == trim_start_by(s@, ws_pred()),
{
    let n = lead_ws(s);
    proof {
        lemma_lead_count_bound(s@, ws_pred());
    }
    let r = slice_of(s, n, s.len());
    assert(r@ =~= s@.skip(n as int));
    r
}

/// `s.trim_end()`.
pub fn trim_end_ws(s: &[char]) -> (res: Vec<char>)
    ensures
        res@ == trim_end_by(s@, ws_pred()),
{
    let n = trail_ws(s);
    proof {
        lemma_trail_count_bound(s@, ws_pred());
    }
    let r = slice_of(s, 0, s.len() - n);
    assert(r@ =~= s@.take(s@.len() - n));
    r
}

/// `s.trim()`.
pub fn trim_ws(s: &[char]) -> (res: Vec<char>)
    ensures
        res@ == trim(s@),
{
    let a = trim_start_ws(s);
    trim_end_ws(&a)
}

/// `s.trim_start_matches(set)`.
pub fn trim_start_in(s: &[char], set: &[char]) -> (res: Vec<char>)
    ensures
        res@ == trim_start_by(s@, in_set(set@)),
{
    let n = lead_in(s, set);
    proof {
        lemma_lead_count_bound(s@, in_set(set@));
    }
    let r = slice_of(s, n, s.len());
    assert(r@ =~= s@.skip(n as int));
    r
}

/// `s.trim_end_matches(set)`.
pub fn trim_end_in(s: &[char], set: &[char]) -> (res: Vec<char>)
    ensures
        res@ == trim_end_by(s@, in_set(set@)),
{
    let n = trail_in(s, set);
    proof {
        lemma_trail_count_bound(s@, in_set(set@));
    }
    let r = slice_of(s, 0, s.len() - n);
    assert(r@ =~= s@.take(s@.len() - n));
    r
}

/// `s.trim_matches(set)`.
pub fn trim_in(s: &[char], set: &[char]) -> (res: Vec<char>)
    ensures
        res@ == trim_by(s@, in_set(set@)),
{
    let a = trim_start_in(s, set);
    trim_end_in(&a, set)
}

/// `s.replace(a, b)` for single characters.
pub fn replace_char_seq(s: &[char], a: char, b: char) -> (res: Vec<char>)
    ensures
        res@ == replace_char(s@, a, b),
{
    let mut res: Vec<char> = Vec::new();
    let mut i: usize = 0;
    while i < s.len()
        invariant
            i <= s.len(),
            res@ == replace_char(s@.take(i as int), a, b),
        decreases s.len() - i,
    {
        if s[i] == a {
            res.push(b);
        } else {
            res.push(s[i]);
        }
        i = i + 1;
        assert(res@ =~= replace_char(s@.take(i as int), a, b));
    }
    assert(s@.take(i as int) =~= s@);
    res
}

/// Index of the first occurrence of `c`, or `s.len()`.
pub fn index_of_char(s: &[char], c: char) -> (i: usize)
    ensures
        i == first_index(s@, eq_pred(c)),
{
    let ghost p = eq_pred(c);
    let mut i: usize = 0;
    while i < s.len() && s[i] != c
        invariant
            i <= s.len(),
            forall|j: int| 0 <= j < i ==> s@[j] != c,
        decreases s.len() - i,
    {
        i = i + 1;
    }
    proof {
        assert forall|j: int| 0 <= j < i implies !p(#[trigger] s@[j]) by {}
        lemma_first_index_unique(s@, p, i as int);
    }
    i
}

/// `s.parse::<T>()` for an unsigned integer type whose maximum is `max`.
pub fn parse_unsigned_seq(s: &[char], max: u64) -> (r: Option<u64>)
    ensures
        match parse_unsigned(s@, max as nat) {
            Some(v) => r == Some(v as u64),
            None => r is None,
        },
{
    let start: usize = if s.len() > 0 && s[0] == '+' {
        1
    } else {
        0
    };
    let ghost body = unsigned_body(s@);
    assert(body =~= s@.skip(start as int));
    if start == s.len() {
        return None;
    }
    let mut v: u64 = 0;
    let mut i: usize = start;
    while i < s.len()
        invariant
            start <= i <= s.len(),
            body == s@.skip(start as int),
            body == unsigned_body(s@),
            all_digits(s@.subrange(start as int, i as int)),
            v as nat == digits_value(s@.subrange(start as int, i as int)),
            v <= max,
        decreases s.len() - i,
    {
        let c = s[i];
        if !is_digit_char(c) {
            assert(body[i - start] == c);
            assert(!is_digit(body[i - start]));
            assert(!all_digits(body));
            assert(parse_unsigned(s@, max as nat) is None);
            return None;
        }
        let d: u64 = (c as u32 - '0' as u32) as u64;
        proof {
            assert(s@.subrange(start as int, i + 1) =~= s@.subrange(start as int, i as int).push(
                c,
            ));
            lemma_digits_value_push(s@.subrange(start as int, i as int), c);
        }
        if d > max || v > (max - d) / 10 {
            proof {
                // every further digit only makes the value larger
                if all_digits(body) {
                    lemma_digits_value_prefix_le(body, (i + 1 - start) as int);
                }
                assert(body.take((i + 1 - start) as int) =~= s@.subrange(start as int, i + 1));
                if d <= max {
                    assert(v * 10 + d > max) by (nonlinear_arith)
                        requires
                            v > (max - d) / 10,
                            d <= max,
                    ;
                }
            }
            return None;
        }
        assert(v * 10 + d <= max) by (nonlinear_arith)
            requires
                v <= (max - d) / 10,
                d <= max,
        ;
        v = v * 10 + d;
        i = i + 1;
    }
    assert(s@.subrange(start as int, s@.len() as int) =~= body);
    Some(v)
}

/// A prefix of a digit sequence has a value no larger than the whole.
pub proof fn lemma_digits_value_prefix_le(s: Seq<char>, k: int)
    requires
        0 <= k <= s.len(),
        all_digits(s),
    ensures
        digits_value(s.take(k)) <= digits_value(s),
    decreases s.len(),
{
    if k < s.len() {
        assert(all_digits(s.drop_last())) by {
            assert forall|i: int| 0 <= i < s.drop_last().len() implies is_digit(
                #[trigger] s.drop_last()[i],
            ) by {
                assert(s.drop_last()[i] == s[i]);
            }
        }
        lemma_digits_value_prefix_le(s.drop_last(), k);
        assert(s.drop_last().take(k) =~= s.take(k));
        assert(is_digit(s[s.len() - 1]));
    } else {
        assert(s.take(k) =~= s);
    }
}

/// `n.to_string()`.
pub fn decimal_of(n: u64) -> (res: Vec<char>)
    ensures
        res@ == decimal(n as nat),
    decreases n,
{
    if n < 10 {
        let c = (('0' as u8) + (n as u8)) as char;
        assert(res_digit(n as nat) == c) by {
            assert((('0' as u32) + (n as nat)) as char == c);
        }
        let mut v: Vec<char> = Vec::new();
        v.push(c);
        assert(v@ =~= seq![c]);
        v
    } else {
        let mut v = decimal_of(n / 10);
        let d = n % 10;
        let c = (('0' as u8) + (d as u8)) as char;
        v.push(c);
        v
    }
}

pub open spec fn res_digit(n: nat) -> char {
    (('0' as u32) + n) as char
}

} // verus!
