//! The creation-document grammar of GitHub Creation Targets: an exact `---`
//! delimited frontmatter block of one-line `key: value` scalars (a strict
//! subset of YAML), then the body.
use vstd::prelude::*;
use crate::error::{is_refusal, ErrorCategory, ResourceError};
use crate::github::GithubRepositoryIdentity;
use crate::order::chars_eq;
use crate::text::{
    chars_eq_str, chars_of, find_char, find_char_index, is_blank, is_blank_chars, is_ws,
    is_whitespace, lemma_find_char_bounds, lower_chars, lower_seq, owned, push_char, push_str,
    split_chars, split_once_seq, split_seq, starts_with_str, string_of, sub_chars, trim, trim_chars,
    views,
};

verus! {

broadcast use vstd::string::group_string_axioms;

/// A creation-document refusal: category `invalid_reference`.
pub open spec fn is_document_error(e: ResourceError, message: Seq<char>) -> bool {
    is_refusal(e, ErrorCategory::InvalidReference, message)
}

fn document_error(message: &str) -> (e: ResourceError)
    ensures
        is_document_error(e, message@),
{
    ResourceError::new(ErrorCategory::InvalidReference, message)
}

fn document_error_string(message: String) -> (e: ResourceError)
    ensures
        is_document_error(e, message@),
{
    ResourceError::from_string(ErrorCategory::InvalidReference, message)
}

pub open spec fn has_prefix(s: Seq<char>, p: Seq<char>) -> bool {
    p.len() <= s.len() && s.take(p.len() as int) == p
}

// ------------------------------------------------------------ JSON strings

/// The string a JSON text denotes, as `serde_json::from_str::<String>` reads
/// it; `None` when the text is not one JSON string.
pub uninterp spec fn json_string_value(text: Seq<char>) -> Option<Seq<char>>;

/// Decodes a JSON string literal with `serde_json::from_str::<String>`. The
/// contract names the result only; the JSON grammar and escapes are the
/// crate's.
#[verifier::external_body]
fn decode_json_string(text: &str) -> (r: Option<String>)
    ensures
        match r {
            Some(s) => json_string_value(text@) == Some(s@),
            None => json_string_value(text@) is None,
        },
{
    serde_json::from_str::<String>(text).ok()
}

// ---------------------------------------------------------- plain scalars

/// A `#` at `i` that starts the value or follows white space.
pub open spec fn comment_at(v: Seq<char>, i: int) -> bool {
    v[i] == '#' && (i == 0 || is_ws(v[i - 1]))
}

/// A `#` that starts the value or follows white space opens a YAML comment.
pub open spec fn yaml_comment(v: Seq<char>) -> bool {
    exists|i: int| 0 <= i < v.len() && #[trigger] comment_at(v, i)
}

pub open spec fn contains_colon_space(v: Seq<char>) -> bool {
    exists|i: int| 0 <= i < v.len() - 1 && #[trigger] v[i] == ':' && v[i + 1] == ' '
}

/// `s` without its underscores.
pub open spec fn without_underscores(s: Seq<char>) -> Seq<char>
    decreases s.len(),
{
    if s.len() == 0 {
        s
    } else if s.last() == '_' {
        without_underscores(s.drop_last())
    } else {
        without_underscores(s.drop_last()).push(s.last())
    }
}

pub open spec fn strip_sign(s: Seq<char>) -> Seq<char> {
    if s.len() > 0 && (s[0] == '+' || s[0] == '-') {
        s.drop_first()
    } else {
        s
    }
}

pub open spec fn decimal_digits(s: Seq<char>) -> bool {
    forall|i: int| 0 <= i < s.len() ==> '0' <= #[trigger] s[i] && s[i] <= '9'
}

/// Text `i128::from_str` accepts: a sign, digits, and a value in range.
pub open spec fn i128_text(s: Seq<char>) -> bool {
    let d = strip_sign(s);
    d.len() > 0 && decimal_digits(d) && (if s.len() > 0 && s[0] == '-' {
        digit_value_of(d) <= 0x8000_0000_0000_0000_0000_0000_0000_0000
    } else {
        digit_value_of(d) <= 0x7fff_ffff_ffff_ffff_ffff_ffff_ffff_ffff
    })
}

pub open spec fn digit_value_of(s: Seq<char>) -> nat
    decreases s.len(),
{
    if s.len() == 0 {
        0
    } else {
        digit_value_of(s.drop_last()) * 10 + ((s.last() as u32) - 48) as nat
    }
}

/// The mantissa of a decimal float: digits with at most one `.`, at least
/// one digit in all.
pub open spec fn float_mantissa(m: Seq<char>) -> bool {
    match find_char(m, '.') {
        None => m.len() > 0 && decimal_digits(m),
        Some(i) => decimal_digits(m.take(i)) && decimal_digits(m.skip(i + 1)) && m.len() > 1,
    }
}

pub open spec fn float_exponent(x: Seq<char>) -> bool {
    let d = strip_sign(x);
    d.len() > 0 && decimal_digits(d)
}

/// Text `f64::from_str` accepts, by the grammar the standard library
/// documents: a sign, then `inf`, `infinity`, `nan`, or a decimal number
/// with an optional exponent, letters in any case.
pub open spec fn float_text(s: Seq<char>) -> bool {
    let t = strip_sign(lower_seq(s));
    ||| t == "inf"@
    ||| t == "infinity"@
    ||| t == "nan"@
    ||| match find_char(t, 'e') {
        None => float_mantissa(t),
        Some(i) => float_mantissa(t.take(i)) && float_exponent(t.skip(i + 1)),
    }
}

/// A plain value YAML would read as a number.
pub open spec fn looks_numeric(v: Seq<char>) -> bool {
    let normalized = without_underscores(v);
    let lower = lower_seq(strip_sign(normalized));
    ||| has_prefix(lower, "0x"@)
    ||| has_prefix(lower, "0o"@)
    ||| lower == ".inf"@
    ||| lower == ".nan"@
    ||| i128_text(normalized)
    ||| float_text(normalized)
}

/// A plain (unquoted) value whose YAML reading would not be the text itself.
pub open spec fn plain_rejected(v: Seq<char>) -> bool {
    ||| v.len() > 0 && (v.last() == '"' || v.last() == '\'')
    ||| v.len() > 0 && (v[0] == '[' || v[0] == '{' || v[0] == '&' || v[0] == '*' || v[0] == '!' || v[0]
        == '|' || v[0] == '>' || v[0] == '@' || v[0] == '`' || v[0] == '%' || v[0] == '#')
    ||| has_prefix(v, "- "@)
    ||| has_prefix(v, "? "@)
    ||| v == "-"@ || v == "?"@ || v == ":"@ || v == "..."@ || v == "---"@
    ||| yaml_comment(v)
    ||| contains_colon_space(v)
    ||| v == "null"@ || v == "Null"@ || v == "NULL"@ || v == "~"@ || v == "true"@ || v == "false"@
    ||| looks_numeric(v)
}

/// The content of a single-quoted scalar, where `''` stands for one quote;
/// `None` when a lone quote remains.
pub open spec fn unquote_single(s: Seq<char>) -> Option<Seq<char>>
    decreases s.len(),
{
    if s.len() == 0 {
        Some(Seq::empty())
    } else if s[0] == '\'' {
        if s.len() >= 2 && s[1] == '\'' {
            match unquote_single(s.skip(2)) {
                Some(r) => Some(seq!['\''] + r),
                None => None,
            }
        } else {
            None
        }
    } else {
        match unquote_single(s.drop_first()) {
            Some(r) => Some(seq![s[0]] + r),
            None => None,
        }
    }
}

/// What a trimmed, non-empty value denotes: the string, or the sentence
/// refusing it.
pub open spec fn string_scalar(v: Seq<char>) -> Result<Seq<char>, Seq<char>> {
    if v.len() > 0 && v[0] == '"' {
        match json_string_value(v) {
            None => Err("double-quoted frontmatter strings must use JSON escapes"@),
            Some(d) => if d.contains('\n') || d.contains('\r') {
                Err("frontmatter strings must remain on one logical line"@)
            } else {
                Ok(d)
            },
        }
    } else if v.len() > 0 && v[0] == '\'' {
        if v.last() != '\'' || v.len() < 2 {
            Err("single-quoted frontmatter string is not closed"@)
        } else {
            match unquote_single(v.subrange(1, v.len() - 1)) {
                None => Err("single quote inside a quoted scalar must be doubled"@),
                Some(o) => Ok(o),
            }
        }
    } else if plain_rejected(v) {
        Err("frontmatter value uses unsupported YAML syntax; quote one-line strings"@)
    } else {
        Ok(v)
    }
}

fn has_yaml_comment(v: &[char]) -> (b: bool)
    ensures
        b == yaml_comment(v@),
{
    let mut i: usize = 0;
    while i < v.len()
        invariant
            i <= v@.len(),
            forall|k: int| 0 <= k < i ==> !#[trigger] comment_at(v@, k),
        decreases v@.len() - i,
    {
        if v[i] == '#' && (i == 0 || is_whitespace(v[i - 1])) {
            proof {
                assert(comment_at(v@, i as int));
            }
            return true;
        }
        i = i + 1;
    }
    false
}

fn has_colon_space(v: &[char]) -> (b: bool)
    ensures
        b == contains_colon_space(v@),
{
    let mut i: usize = 0;
    while i < v.len()
        invariant
            i <= v@.len(),
            forall|k: int| 0 <= k < i && k < v@.len() - 1 ==> !(#[trigger] v@[k] == ':' && v@[k + 1] == ' '),
        decreases v@.len() - i,
    {
        if i + 1 < v.len() && v[i] == ':' && v[i + 1] == ' ' {
            return true;
        }
        i = i + 1;
    }
    false
}

fn remove_underscores(s: &[char]) -> (r: Vec<char>)
    ensures
        r@ == without_underscores(s@),
{
    let mut r: Vec<char> = Vec::new();
    let mut i: usize = 0;
    while i < s.len()
        invariant
            i <= s@.len(),
            r@ == without_underscores(s@.take(i as int)),
        decreases s@.len() - i,
    {
        proof {
            let t = s@.take(i + 1);
            assert(t.drop_last() =~= s@.take(i as int));
            assert(t.last() == s@[i as int]);
        }
        if s[i] != '_' {
            r.push(s[i]);
        }
        i = i + 1;
    }
    proof {
        assert(s@.take(i as int) =~= s@);
    }
    r
}

fn strip_sign_chars(s: &[char]) -> (r: Vec<char>)
    ensures
        r@ == strip_sign(s@),
{
    if s.len() > 0 && (s[0] == '+' || s[0] == '-') {
        let r = sub_chars(s, 1, s.len());
        proof {
            assert(r@ =~= s@.drop_first());
        }
        r
    } else {
        let r = sub_chars(s, 0, s.len());
        proof {
            assert(r@ =~= s@);
        }
        r
    }
}

fn all_decimal_digits(s: &[char]) -> (b: bool)
    ensures
        b == decimal_digits(s@),
{
    let mut i: usize = 0;
    while i < s.len()
        invariant
            i <= s@.len(),
            forall|k: int| 0 <= k < i ==> '0' <= #[trigger] s@[k] && s@[k] <= '9',
        decreases s@.len() - i,
    {
        if !('0' <= s[i] && s[i] <= '9') {
            return false;
        }
        i = i + 1;
    }
    true
}

fn is_float_mantissa(m: &[char]) -> (b: bool)
    ensures
        b == float_mantissa(m@),
{
    proof {
        lemma_find_char_bounds(m@, '.');
    }
    match find_char_index(m, '.') {
        None => m.len() > 0 && all_decimal_digits(m),
        Some(i) => {
            let n = m.len();
            assert(i < n);
            let before = sub_chars(m, 0, i);
            let after = sub_chars(m, i + 1, n);
            proof {
                assert(before@ =~= m@.take(i as int));
                assert(after@ =~= m@.skip(i + 1));
            }
            all_decimal_digits(before.as_slice()) && all_decimal_digits(after.as_slice()) && m.len() > 1
        },
    }
}

fn is_float_text(s: &[char]) -> (b: bool)
    ensures
        b == float_text(s@),
{
    let lowered = lower_chars(s);
    let t = strip_sign_chars(lowered.as_slice());
    if chars_eq_str(t.as_slice(), "inf") || chars_eq_str(t.as_slice(), "infinity") || chars_eq_str(
        t.as_slice(),
        "nan",
    ) {
        return true;
    }
    proof {
        lemma_find_char_bounds(t@, 'e');
    }
    match find_char_index(t.as_slice(), 'e') {
        None => is_float_mantissa(t.as_slice()),
        Some(i) => {
            let n = t.len();
            assert(i < n);
            let m = sub_chars(t.as_slice(), 0, i);
            let x = sub_chars(t.as_slice(), i + 1, n);
            proof {
                assert(m@ =~= t@.take(i as int));
                assert(x@ =~= t@.skip(i + 1));
            }
            let d = strip_sign_chars(x.as_slice());
            is_float_mantissa(m.as_slice()) && d.len() > 0 && all_decimal_digits(d.as_slice())
        },
    }
}

proof fn lemma_lower_digits(s: Seq<char>)
    requires
        decimal_digits(s),
    ensures
        lower_seq(s) == s,
{
    assert(lower_seq(s) =~= s);
}

/// Every text `i128::from_str` accepts is float text as well.
proof fn lemma_integer_text_is_float_text(s: Seq<char>)
    requires
        i128_text(s),
    ensures
        float_text(s),
{
    let d = strip_sign(s);
    let t = strip_sign(lower_seq(s));
    if s.len() > 0 && (s[0] == '+' || s[0] == '-') {
        assert(lower_seq(s)[0] == s[0]);
        assert(t =~= lower_seq(d));
    } else {
        assert(t =~= lower_seq(d));
    }
    lemma_lower_digits(d);
    lemma_find_char_bounds(t, 'e');
    lemma_find_char_bounds(t, '.');
    if find_char(t, 'e') is Some {
        let i = find_char(t, 'e')->0;
        assert(t[i] == 'e');
        assert(false);
    }
    if find_char(t, '.') is Some {
        let i = find_char(t, '.')->0;
        assert(t[i] == '.');
        assert(false);
    }
}

fn is_numeric_looking(v: &[char]) -> (b: bool)
    ensures
        b == looks_numeric(v@),
{
    let normalized = remove_underscores(v);
    let unsigned = strip_sign_chars(normalized.as_slice());
    let lower = lower_chars(unsigned.as_slice());
    proof {
        if i128_text(normalized@) {
            lemma_integer_text_is_float_text(normalized@);
        }
    }
    starts_with_str(lower.as_slice(), "0x") || starts_with_str(lower.as_slice(), "0o") || chars_eq_str(
        lower.as_slice(),
        ".inf",
    ) || chars_eq_str(lower.as_slice(), ".nan") || is_float_text(normalized.as_slice())
}

fn is_plain_rejected(v: &[char]) -> (b: bool)
    ensures
        b == plain_rejected(v@),
{
    if v.len() > 0 && (v[v.len() - 1] == '"' || v[v.len() - 1] == '\'') {
        return true;
    }
    if v.len() > 0 {
        let c = v[0];
        if c == '[' || c == '{' || c == '&' || c == '*' || c == '!' || c == '|' || c == '>' || c == '@'
            || c == '`' || c == '%' || c == '#' {
            return true;
        }
    }
    starts_with_str(v, "- ") || starts_with_str(v, "? ") || chars_eq_str(v, "-") || chars_eq_str(v, "?")
        || chars_eq_str(v, ":") || chars_eq_str(v, "...") || chars_eq_str(v, "---") || has_yaml_comment(v)
        || has_colon_space(v) || chars_eq_str(v, "null") || chars_eq_str(v, "Null") || chars_eq_str(
        v,
        "NULL",
    ) || chars_eq_str(v, "~") || chars_eq_str(v, "true") || chars_eq_str(v, "false")
        || is_numeric_looking(v)
}

fn unquote(s: &[char]) -> (r: Option<String>)
    ensures
        match unquote_single(s@) {
            Some(o) => r matches Some(x) && x@ == o,
            None => r is None,
        },
{
    let mut out = String::new();
    let mut i: usize = 0;
    proof {
        assert(s@.skip(0) =~= s@);
        assert(out@ + Seq::<char>::empty() =~= out@);
    }
    while i < s.len()
        invariant
            i <= s@.len(),
            unquote_single(s@) == match unquote_single(s@.skip(i as int)) {
                Some(rest) => Some(out@ + rest),
                None => None,
            },
        decreases s@.len() - i,
    {
        let ghost tail = s@.skip(i as int);
        let ghost before = out@;
        if s[i] == '\'' {
            if i + 1 < s.len() && s[i + 1] == '\'' {
                proof {
                    assert(tail.skip(2) =~= s@.skip(i + 2));
                }
                push_char(&mut out, '\'');
                i = i + 2;
                proof {
                    match unquote_single(s@.skip(i as int)) {
                        Some(rest) => assert(before + (seq!['\''] + rest) =~= out@ + rest),
                        None => {},
                    }
                }
            } else {
                return None;
            }
        } else {
            proof {
                assert(tail.drop_first() =~= s@.skip(i + 1));
            }
            push_char(&mut out, s[i]);
            i = i + 1;
            proof {
                match unquote_single(s@.skip(i as int)) {
                    Some(rest) => assert(before + (seq![tail[0]] + rest) =~= out@ + rest),
                    None => {},
                }
            }
        }
    }
    proof {
        assert(s@.skip(i as int).len() == 0);
        assert(out@ + Seq::<char>::empty() =~= out@);
    }
    Some(out)
}

fn has_line_break(s: &[char]) -> (b: bool)
    ensures
        b == (s@.contains('\n') || s@.contains('\r')),
{
    let mut i: usize = 0;
    while i < s.len()
        invariant
            i <= s@.len(),
            forall|k: int| 0 <= k < i ==> s@[k] != '\n' && s@[k] != '\r',
        decreases s@.len() - i,
    {
        if s[i] == '\n' || s[i] == '\r' {
            proof {
                assert(s@[i as int] == s[i as int]);
            }
            return true;
        }
        i = i + 1;
    }
    false
}

/// The string a frontmatter value denotes.
pub fn parse_string_scalar(value: &[char]) -> (r: Result<String, ResourceError>)
    ensures
        match string_scalar(value@) {
            Ok(s) => r matches Ok(x) && x@ == s,
            Err(m) => r matches Err(e) && is_document_error(e, m),
        },
{
    if value.len() > 0 && value[0] == '"' {
        let text = string_of(value);
        return match decode_json_string(text.as_str()) {
            None => Err(document_error("double-quoted frontmatter strings must use JSON escapes")),
            Some(decoded) => {
                let dc = chars_of(decoded.as_str());
                if has_line_break(dc.as_slice()) {
                    Err(document_error("frontmatter strings must remain on one logical line"))
                } else {
                    Ok(decoded)
                }
            },
        };
    }
    if value.len() > 0 && value[0] == '\'' {
        if value[value.len() - 1] != '\'' || value.len() < 2 {
            return Err(document_error("single-quoted frontmatter string is not closed"));
        }
        let inner = sub_chars(value, 1, value.len() - 1);
        return match unquote(inner.as_slice()) {
            None => Err(document_error("single quote inside a quoted scalar must be doubled")),
            Some(o) => Ok(o),
        };
    }
    if is_plain_rejected(value) {
        return Err(document_error("frontmatter value uses unsupported YAML syntax; quote one-line strings"));
    }
    Ok(string_of(value))
}


// ----------------------------------------------------------- frontmatter

/// A frontmatter value as written: a string or, for `draft`, a boolean.
#[derive(Debug, Clone, PartialEq, Eq)]
pub enum FrontmatterValue {
    String(String),
    Boolean(bool),
}

/// What a frontmatter value denotes.
pub enum FieldValue {
    Text(Seq<char>),
    Flag(bool),
}

impl FrontmatterValue {
    pub open spec fn value(self) -> FieldValue {
        match self {
            FrontmatterValue::String(s) => FieldValue::Text(s@),
            FrontmatterValue::Boolean(b) => FieldValue::Flag(b),
        }
    }
}

pub open spec fn field_views(v: Seq<(String, FrontmatterValue)>) -> Seq<(Seq<char>, FieldValue)> {
    v.map_values(|f: (String, FrontmatterValue)| (f.0@, f.1.value()))
}

/// A line without one trailing carriage return.
pub open spec fn strip_cr(s: Seq<char>) -> Seq<char> {
    if s.len() > 0 && s.last() == '\r' {
        s.drop_last()
    } else {
        s
    }
}

pub open spec fn key_chars_ok(k: Seq<char>) -> bool {
    forall|i: int| 0 <= i < k.len() ==> ('a' <= #[trigger] k[i] && k[i] <= 'z') || k[i] == '_'
}

pub open spec fn has_key(fs: Seq<(Seq<char>, FieldValue)>, k: Seq<char>) -> bool {
    exists|i: int| 0 <= i < fs.len() && #[trigger] fs[i].0 == k
}

/// One frontmatter line read after the fields `earlier`: nothing for an
/// empty line, else a field, or the sentence refusing the line.
pub open spec fn field_line(line: Seq<char>, earlier: Seq<(Seq<char>, FieldValue)>) -> Result<
    Option<(Seq<char>, FieldValue)>,
    Seq<char>,
> {
    let l = strip_cr(line);
    if l.len() == 0 {
        Ok(None)
    } else {
        match split_once_seq(l, ':') {
            None => Err("frontmatter lines must use one 'key: value' scalar"@),
            Some(kv) => {
                let key = kv.0;
                let v = trim(kv.1);
                if key.len() == 0 || trim(key) != key || !key_chars_ok(key) {
                    Err("frontmatter keys must be lowercase ASCII without whitespace"@)
                } else if has_key(earlier, key) {
                    Err("frontmatter fields must not be duplicated"@)
                } else if v.len() == 0 {
                    Err("frontmatter field must have a scalar value"@)
                } else if key == "draft"@ && v == "true"@ {
                    Ok(Some((key, FieldValue::Flag(true))))
                } else if key == "draft"@ && v == "false"@ {
                    Ok(Some((key, FieldValue::Flag(false))))
                } else {
                    match string_scalar(v) {
                        Err(m) => Err(m),
                        Ok(text) => Ok(Some((key, FieldValue::Text(text)))),
                    }
                }
            },
        }
    }
}

/// The fields of frontmatter lines, in order; the first bad line refuses.
pub open spec fn fields_of(lines: Seq<Seq<char>>) -> Result<Seq<(Seq<char>, FieldValue)>, Seq<char>>
    decreases lines.len(),
{
    if lines.len() == 0 {
        Ok(Seq::empty())
    } else {
        match fields_of(lines.drop_last()) {
            Err(m) => Err(m),
            Ok(fs) => match field_line(lines.last(), fs) {
                Err(m) => Err(m),
                Ok(None) => Ok(fs),
                Ok(Some(f)) => Ok(fs.push(f)),
            },
        }
    }
}

/// The length of the opening `---` delimiter line.
pub open spec fn opening_len(c: Seq<char>) -> Option<int> {
    if has_prefix(c, "---\r\n"@) {
        Some("---\r\n"@.len() as int)
    } else if has_prefix(c, "---\n"@) {
        Some("---\n"@.len() as int)
    } else {
        None
    }
}

/// From the line starting at `offset` on, where the closing `---` line
/// starts and where the text after it starts.
pub open spec fn closing_from(c: Seq<char>, offset: int) -> Option<(int, int)>
    decreases c.len() - offset,
{
    if offset < 0 || offset > c.len() {
        None
    } else {
        let rem = c.skip(offset);
        let nl = find_char(rem, '\n');
        let line_end = match nl {
            Some(r) => offset + r,
            None => c.len() as int,
        };
        let next = match nl {
            Some(r) => offset + r + 1,
            None => c.len() as int,
        };
        if strip_cr(c.subrange(offset, line_end)) == "---"@ {
            Some((offset, next))
        } else if nl is None {
            None
        } else {
            proof {
                lemma_find_char_bounds(rem, '\n');
            }
            closing_from(c, next)
        }
    }
}

/// A creation document's fields and body, or the sentence refusing it.
pub open spec fn frontmatter_spec(c: Seq<char>) -> Result<(Seq<(Seq<char>, FieldValue)>, Seq<char>), Seq<char>> {
    match opening_len(c) {
        None => Err("creation document must begin with an exact '---' delimiter line"@),
        Some(o) => match closing_from(c, o) {
            None => Err("creation document frontmatter is missing its closing '---' delimiter"@),
            Some(cl) => match fields_of(split_seq(c.subrange(o, cl.0), '\n')) {
                Err(m) => Err(m),
                Ok(fs) => Ok((fs, c.skip(cl.1))),
            },
        },
    }
}

fn strip_cr_chars(s: &[char]) -> (r: Vec<char>)
    ensures
        r@ == strip_cr(s@),
{
    if s.len() > 0 && s[s.len() - 1] == '\r' {
        let r = sub_chars(s, 0, s.len() - 1);
        proof {
            assert(r@ =~= s@.drop_last());
        }
        r
    } else {
        let r = sub_chars(s, 0, s.len());
        proof {
            assert(r@ =~= s@);
        }
        r
    }
}

fn find_closing(c: &[char], opening: usize) -> (r: Option<(usize, usize)>)
    requires
        opening <= c@.len(),
    ensures
        match closing_from(c@, opening as int) {
            Some(p) => r matches Some(q) && q.0 == p.0 && q.1 == p.1,
            None => r is None,
        },
{
    let n = c.len();
    let mut offset = opening;
    while offset <= n
        invariant
            opening <= offset,
            n == c@.len(),
            closing_from(c@, opening as int) == closing_from(c@, offset as int),
        decreases n + 1 - offset,
    {
        let rem = sub_chars(c, offset, n);
        proof {
            assert(rem@ =~= c@.skip(offset as int));
            lemma_find_char_bounds(rem@, '\n');
        }
        let nl = find_char_index(rem.as_slice(), '\n');
        let (line_end, next) = match nl {
            Some(r) => (offset + r, offset + r + 1),
            None => (n, n),
        };
        let raw = sub_chars(c, offset, line_end);
        let line = strip_cr_chars(raw.as_slice());
        if chars_eq_str(line.as_slice(), "---") {
            return Some((offset, next));
        }
        if nl.is_none() {
            return None;
        }
        offset = next;
    }
    None
}

fn is_key_char_ok(k: &[char]) -> (b: bool)
    ensures
        b == key_chars_ok(k@),
{
    let mut i: usize = 0;
    while i < k.len()
        invariant
            i <= k@.len(),
            forall|m: int| 0 <= m < i ==> ('a' <= #[trigger] k@[m] && k@[m] <= 'z') || k@[m] == '_',
        decreases k@.len() - i,
    {
        if !(('a' <= k[i] && k[i] <= 'z') || k[i] == '_') {
            return false;
        }
        i = i + 1;
    }
    true
}

fn contains_key(fields: &Vec<(String, FrontmatterValue)>, key: &[char]) -> (b: bool)
    ensures
        b == has_key(field_views(fields@), key@),
{
    let ghost fs = field_views(fields@);
    let mut i: usize = 0;
    while i < fields.len()
        invariant
            i <= fields@.len(),
            fs == field_views(fields@),
            forall|m: int| 0 <= m < i ==> #[trigger] fs[m].0 != key@,
        decreases fields@.len() - i,
    {
        if chars_eq_str(key, fields[i].0.as_str()) {
            proof {
                assert(fs[i as int].0 == key@);
            }
            return true;
        }
        i = i + 1;
    }
    false
}

proof fn lemma_closing_bounds(c: Seq<char>, offset: int)
    requires
        0 <= offset <= c.len(),
    ensures
        closing_from(c, offset) matches Some(p) ==> offset <= p.0 <= p.1 <= c.len(),
    decreases c.len() - offset,
{
    let rem = c.skip(offset);
    lemma_find_char_bounds(rem, '\n');
    match find_char(rem, '\n') {
        Some(r) => {
            lemma_closing_bounds(c, offset + r + 1);
        },
        None => {},
    }
}

proof fn lemma_fields_err_extends(lines: Seq<Seq<char>>, i: int)
    requires
        0 <= i <= lines.len(),
        fields_of(lines.take(i)) is Err,
    ensures
        fields_of(lines) == fields_of(lines.take(i)),
    decreases lines.len(),
{
    if lines.len() == i {
        assert(lines.take(i) =~= lines);
    } else {
        assert(lines.drop_last().take(i) =~= lines.take(i));
        lemma_fields_err_extends(lines.drop_last(), i);
    }
}

fn read_field_line(line: &[char], fields: &Vec<(String, FrontmatterValue)>) -> (r: Result<
    Option<(String, FrontmatterValue)>,
    ResourceError,
>)
    ensures
        match field_line(line@, field_views(fields@)) {
            Ok(None) => r matches Ok(None),
            Ok(Some(f)) => r matches Ok(Some(g)) && g.0@ == f.0 && g.1.value() == f.1,
            Err(m) => r matches Err(e) && is_document_error(e, m),
        },
{
    let l = strip_cr_chars(line);
    if l.len() == 0 {
        return Ok(None);
    }
    proof {
        lemma_find_char_bounds(l@, ':');
    }
    let colon = match find_char_index(l.as_slice(), ':') {
        Some(k) => k,
        None => {
            return Err(document_error("frontmatter lines must use one 'key: value' scalar"));
        },
    };
    let n = l.len();
    let key = sub_chars(l.as_slice(), 0, colon);
    let raw = sub_chars(l.as_slice(), colon + 1, n);
    proof {
        assert(key@ =~= l@.take(colon as int));
        assert(raw@ =~= l@.skip(colon + 1));
    }
    let trimmed_key = trim_chars(key.as_slice());
    if key.len() == 0 || !chars_eq(trimmed_key.as_slice(), key.as_slice()) || !is_key_char_ok(key.as_slice()) {
        return Err(document_error("frontmatter keys must be lowercase ASCII without whitespace"));
    }
    if contains_key(fields, key.as_slice()) {
        return Err(document_error("frontmatter fields must not be duplicated"));
    }
    let v = trim_chars(raw.as_slice());
    if v.len() == 0 {
        return Err(document_error("frontmatter field must have a scalar value"));
    }
    let is_draft = chars_eq_str(key.as_slice(), "draft");
    let parsed = if is_draft && chars_eq_str(v.as_slice(), "true") {
        FrontmatterValue::Boolean(true)
    } else if is_draft && chars_eq_str(v.as_slice(), "false") {
        FrontmatterValue::Boolean(false)
    } else {
        FrontmatterValue::String(parse_string_scalar(v.as_slice())?)
    };
    Ok(Some((string_of(key.as_slice()), parsed)))
}

/// Reads a creation document: its frontmatter fields, in order, and body.
pub fn parse_frontmatter(content: &str) -> (r: Result<(Vec<(String, FrontmatterValue)>, String), ResourceError>)
    ensures
        match frontmatter_spec(content@) {
            Ok(parsed) => r matches Ok(out) && field_views(out.0@) == parsed.0 && out.1@ == parsed.1,
            Err(m) => r matches Err(e) && is_document_error(e, m),
        },
{
    let c = chars_of(content);
    let crlf = chars_of("---\r\n");
    let lf = chars_of("---\n");
    let opening: usize = if starts_with_str(c.as_slice(), "---\r\n") {
        crlf.len()
    } else if starts_with_str(c.as_slice(), "---\n") {
        lf.len()
    } else {
        return Err(document_error("creation document must begin with an exact '---' delimiter line"));
    };
    proof {
        lemma_closing_bounds(c@, opening as int);
    }
    let (close, next) = match find_closing(c.as_slice(), opening) {
        Some(p) => p,
        None => {
            return Err(document_error("creation document frontmatter is missing its closing '---' delimiter"));
        },
    };
    let fm = sub_chars(c.as_slice(), opening, close);
    let lines = split_chars(fm.as_slice(), '\n');
    let ghost ls = views(lines@);
    let mut fields: Vec<(String, FrontmatterValue)> = Vec::new();
    proof {
        assert(field_views(fields@) =~= Seq::<(Seq<char>, FieldValue)>::empty());
        assert(ls.take(0) =~= Seq::<Seq<char>>::empty());
        assert(frontmatter_spec(content@) == match fields_of(ls) {
            Err(m) => Err(m),
            Ok(fs) => Ok((fs, c@.skip(next as int))),
        });
    }
    let mut i: usize = 0;
    while i < lines.len()
        invariant
            frontmatter_spec(content@) == match fields_of(ls) {
                Err(m) => Err(m),
                Ok(fs) => Ok((fs, c@.skip(next as int))),
            },
            i <= lines@.len(),
            ls == views(lines@),
            ls.len() == lines@.len(),
            fields_of(ls.take(i as int)) == Ok::<Seq<(Seq<char>, FieldValue)>, Seq<char>>(field_views(fields@)),
        decreases lines@.len() - i,
    {
        proof {
            let t = ls.take(i + 1);
            assert(t.drop_last() =~= ls.take(i as int));
            assert(t.last() == lines@[i as int]@);
        }
        let ghost before = field_views(fields@);
        match read_field_line(lines[i].as_slice(), &fields) {
            Err(e) => {
                proof {
                    let t = ls.take(i + 1);
                    assert(fields_of(t.drop_last()) == Ok::<Seq<(Seq<char>, FieldValue)>, Seq<char>>(before));
                    assert(fields_of(t) is Err);
                    lemma_fields_err_extends(ls, i + 1);
                }
                return Err(e);
            },
            Ok(None) => {},
            Ok(Some(f)) => {
                fields.push(f);
                proof {
                    assert(field_views(fields@) =~= before.push((f.0@, f.1.value())));
                }
            },
        }
        i = i + 1;
    }
    proof {
        assert(ls.take(i as int) =~= ls);
    }
    let body = sub_chars(c.as_slice(), next, c.len());
    proof {
        assert(body@ =~= c@.skip(next as int));
    }
    Ok((fields, string_of(body.as_slice())))
}

} // verus!
