//! One line of a `.cfg` file: `key "value"`.

use crate::text::{
    eq_pred, first_index, in_set, index_of_char, lead_count, lead_in, lemma_first_index,
    lemma_first_index_unique, lemma_lead_count_bound, slice_of, starts_with, starts_with_seq,
    trim_by, trim_in,
};
use vstd::prelude::*;

verus! {

/// Why a line is not a setting line.
#[derive(Debug, Clone, Copy, PartialEq, Eq, Structural)]
pub enum LineError {
    /// A comment, where comments are not allowed.
    Comment,
    /// A key with nothing after it.
    MissingValue,
    /// A key with a character other than ASCII letters, digits, `_` and `.`.
    InvalidKey,
    /// The value does not start with `"`.
    Unquoted,
    /// The value has no closing `"`.
    Unterminated,
    /// Something follows the value, where nothing may.
    TrailingContent,
    /// Something other than a comment follows the value.
    TrailingCommand,
}

impl LineError {
    /// The message shown to the user.
    pub fn message(self) -> (m: &'static str)
        ensures
            m@ == line_error_text(self),
    {
        match self {
            LineError::Comment => "不允许注释行",
            LineError::MissingValue => "缺少配置值",
            LineError::InvalidKey => "配置项名称无效",
            LineError::Unquoted => "配置值必须使用双引号",
            LineError::Unterminated => "配置值缺少结束引号",
            LineError::TrailingContent => "配置行包含额外内容",
            LineError::TrailingCommand => "配置行包含额外命令",
        }
    }
}

pub open spec fn line_error_text(e: LineError) -> Seq<char> {
    match e {
        LineError::Comment => "不允许注释行"@,
        LineError::MissingValue => "缺少配置值"@,
        LineError::InvalidKey => "配置项名称无效"@,
        LineError::Unquoted => "配置值必须使用双引号"@,
        LineError::Unterminated => "配置值缺少结束引号"@,
        LineError::TrailingContent => "配置行包含额外内容"@,
        LineError::TrailingCommand => "配置行包含额外命令"@,
    }
}

/// A setting line: its key, its value, and where the value stands in the
/// line (character positions; the value is `line[value_start..value_end]`).
#[derive(Debug, Clone)]
pub struct ParsedLine {
    pub key: Vec<char>,
    pub value: Vec<char>,
    pub value_start: usize,
    pub value_end: usize,
}

/// Space or tab.
pub open spec fn blank() -> spec_fn(char) -> bool {
    in_set(seq![' ', '\t'])
}

/// Space, tab, carriage return or line feed.
pub open spec fn edge() -> spec_fn(char) -> bool {
    in_set(seq![' ', '\t', '\r', '\n'])
}

/// `char::is_ascii_whitespace`.
pub open spec fn is_ascii_ws(c: char) -> bool {
    c == ' ' || c == '\t' || c == '\n' || c == '\x0C' || c == '\r'
}

pub open spec fn ascii_ws() -> spec_fn(char) -> bool {
    |c: char| is_ascii_ws(c)
}

/// A character allowed in a key: ASCII letter or digit, `_` or `.`.
pub open spec fn is_key_char(c: char) -> bool {
    ('0' <= c && c <= '9') || ('a' <= c && c <= 'z') || ('A' <= c && c <= 'Z') || c == '_'
        || c == '.'
}

pub open spec fn valid_key(k: Seq<char>) -> bool {
    k.len() > 0 && forall|i: int| 0 <= i < k.len() ==> is_key_char(#[trigger] k[i])
}

/// What a line holds.  A blank line, and in lenient mode a comment, hold
/// nothing; a setting line gives its key, its value and the position of the
/// value's first character.  In strict mode nothing but blanks may follow
/// the value; in lenient mode a `//` comment may.  A leading byte-order mark
/// is skipped.
pub open spec fn parse_line_spec(line: Seq<char>, strict: bool) -> Result<
    Option<(Seq<char>, Seq<char>, nat)>,
    LineError,
> {
    let bom = line.len() > 0 && line[0] == '\u{feff}';
    let body = if bom {
        line.drop_first()
    } else {
        line
    };
    let leading = lead_count(body, blank());
    let trimmed = body.skip(leading as int);
    if trim_by(trimmed, edge()).len() == 0 {
        Ok(None)
    } else if starts_with(trimmed, "//"@) || starts_with(trimmed, "#"@) {
        if strict {
            Err(LineError::Comment)
        } else {
            Ok(None)
        }
    } else {
        let key_end = first_index(trimmed, ascii_ws());
        if key_end == trimmed.len() {
            Err(LineError::MissingValue)
        } else {
            let key = trimmed.take(key_end as int);
            if !valid_key(key) {
                Err(LineError::InvalidKey)
            } else {
                let after_key = trimmed.skip(key_end as int);
                let ws = lead_count(after_key, blank());
                let quoted = after_key.skip(ws as int);
                if !(quoted.len() > 0 && quoted[0] == '"') {
                    Err(LineError::Unquoted)
                } else {
                    let tail = quoted.drop_first();
                    let closing = first_index(tail, eq_pred('"'));
                    if closing == tail.len() {
                        Err(LineError::Unterminated)
                    } else {
                        let value = tail.take(closing as int);
                        let rest = trim_by(tail.skip(closing as int + 1), edge());
                        if strict && rest.len() > 0 {
                            Err(LineError::TrailingContent)
                        } else if !strict && rest.len() > 0 && !starts_with(rest, "//"@) {
                            Err(LineError::TrailingCommand)
                        } else {
                            let start = (if bom { 1nat } else { 0nat }) + leading + key_end + ws
                                + 1;
                            Ok(Some((key, value, start)))
                        }
                    }
                }
            }
        }
    }
}

/// Index of the first ASCII whitespace character, or `s.len()`.
fn first_ascii_ws(s: &[char]) -> (i: usize)
    ensures
        i == first_index(s@, ascii_ws()),
{
    let mut i: usize = 0;
    while i < s.len() && !(s[i] == ' ' || s[i] == '\t' || s[i] == '\n' || s[i] == '\x0C' || s[i]
        == '\r')
        invariant
            i <= s.len(),
            forall|j: int| 0 <= j < i ==> !is_ascii_ws(#[trigger] s@[j]),
        decreases s.len() - i,
    {
        i = i + 1;
    }
    proof {
        assert forall|j: int| 0 <= j < i implies !ascii_ws()(#[trigger] s@[j]) by {}
        lemma_first_index_unique(s@, ascii_ws(), i as int);
    }
    i
}

fn is_valid_key(k: &[char]) -> (r: bool)
    ensures
        r == valid_key(k@),
{
    if k.len() == 0 {
        return false;
    }
    let mut i: usize = 0;
    while i < k.len()
        invariant
            i <= k.len(),
            forall|j: int| 0 <= j < i ==> is_key_char(#[trigger] k@[j]),
        decreases k.len() - i,
    {
        let c = k[i];
        if !(('0' <= c && c <= '9') || ('a' <= c && c <= 'z') || ('A' <= c && c <= 'Z') || c
            == '_' || c == '.') {
            assert(!is_key_char(k@[i as int]));
            return false;
        }
        i = i + 1;
    }
    true
}

/// Read one line of a config file (`strict` for profile text pasted by the
/// user, lenient for the game's own files).
#[verifier::rlimit(40)]
pub fn parse_line(line: &[char], strict: bool) -> (r: Result<Option<ParsedLine>, LineError>)
    ensures
        match parse_line_spec(line@, strict) {
            Ok(None) => r matches Ok(None),
            Ok(Some((k, v, start))) => r matches Ok(Some(p)) && p.key@ == k && p.value@ == v
                && p.value_start == start && p.value_end == start + v.len() && p.value_end
                <= line@.len(),
            Err(e) => r == Err::<Option<ParsedLine>, LineError>(e),
        },
{
    let bom = line.len() > 0 && line[0] == '\u{feff}';
    let offset: usize = if bom {
        1
    } else {
        0
    };
    let body = slice_of(line, offset, line.len());
    assert(body@ =~= (if bom {
        line@.drop_first()
    } else {
        line@
    }));
    let blanks = vec![' ', '\t'];
    let edges = vec![' ', '\t', '\r', '\n'];
    assert(blanks@ =~= seq![' ', '\t']);
    assert(edges@ =~= seq![' ', '\t', '\r', '\n']);
    let leading = lead_in(&body, &blanks);
    proof {
        lemma_lead_count_bound(body@, blank());
    }
    let trimmed = slice_of(&body, leading, body.len());
    assert(trimmed@ =~= body@.skip(leading as int));
    let inner = trim_in(&trimmed, &edges);
    if inner.len() == 0 {
        return Ok(None);
    }
    let slashes = vec!['/', '/'];
    let hash = vec!['#'];
    proof {
        reveal_strlit("//");
        reveal_strlit("#");
    }
    assert(slashes@ =~= "//"@);
    assert(hash@ =~= "#"@);
    if starts_with_seq(&trimmed, &slashes) || starts_with_seq(&trimmed, &hash) {
        if strict {
            return Err(LineError::Comment);
        } else {
            return Ok(None);
        }
    }
    let key_end = first_ascii_ws(&trimmed);
    proof {
        lemma_first_index(trimmed@, ascii_ws());
    }
    if key_end == trimmed.len() {
        return Err(LineError::MissingValue);
    }
    let key = slice_of(&trimmed, 0, key_end);
    assert(key@ =~= trimmed@.take(key_end as int));
    if !is_valid_key(&key) {
        return Err(LineError::InvalidKey);
    }
    let after_key = slice_of(&trimmed, key_end, trimmed.len());
    assert(after_key@ =~= trimmed@.skip(key_end as int));
    let ws = lead_in(&after_key, &blanks);
    proof {
        lemma_lead_count_bound(after_key@, blank());
    }
    let quoted = slice_of(&after_key, ws, after_key.len());
    assert(quoted@ =~= after_key@.skip(ws as int));
    if !(quoted.len() > 0 && quoted[0] == '"') {
        return Err(LineError::Unquoted);
    }
    let tail = slice_of(&quoted, 1, quoted.len());
    assert(tail@ =~= quoted@.drop_first());
    let closing = index_of_char(&tail, '"');
    proof {
        lemma_first_index(tail@, eq_pred('"'));
    }
    if closing == tail.len() {
        return Err(LineError::Unterminated);
    }
    let value = slice_of(&tail, 0, closing);
    assert(value@ =~= tail@.take(closing as int));
    let suffix = slice_of(&tail, closing + 1, tail.len());
    assert(suffix@ =~= tail@.skip(closing + 1));
    let rest = trim_in(&suffix, &edges);
    if strict && rest.len() > 0 {
        return Err(LineError::TrailingContent);
    }
    if !strict && rest.len() > 0 && !starts_with_seq(&rest, &slashes) {
        return Err(LineError::TrailingCommand);
    }
    let value_start = offset + leading + key_end + ws + 1;
    let value_end = value_start + value.len();
    assert(value_end <= line@.len());
    Ok(Some(ParsedLine { key, value, value_start, value_end }))
}

} // verus!
