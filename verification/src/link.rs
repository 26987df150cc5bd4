//! GitHub acquisition decisions: the `rel="next"` target of a pagination
//! Link header (RFC 8288), its confinement to the repository endpoint it
//! continues, how many pages one collection read follows, and how an
//! upstream status becomes a refusal.
use vstd::prelude::*;
use crate::error::{is_refusal, refused_as, ErrorCategory, ErrorDetails, ErrorReason, ResourceError};
use crate::github::{is_upstream_error, malformed_upstream, parse_url, url_parse, ParsedUrl, UrlParts};
use crate::text::{
    all_digits, chars_eq_ignore_case, chars_eq_str, chars_of, decimal, eq_ignore_case, find_char,
    find_char_index, is_digit, is_ws, lemma_find_char_bounds, lemma_trim_start_len, owned, parse_u64,
    parse_u64_spec, push_decimal, push_str, split_once_seq, starts_with_str, string_of, sub_chars,
    trim, trim_char, trim_char_chars, trim_chars, trim_start, trim_start_chars,
};

verus! {

broadcast use vstd::string::group_string_axioms;

// ----------------------------------------------------------- quoted strings

/// The index of the first `d` at or after `i` that lies outside a
/// quoted-string, scanning from the given quoting state; a backslash inside
/// quotes escapes the next character.
pub open spec fn delimiter_from(v: Seq<char>, d: char, i: int, quoted: bool, escaped: bool) -> Option<int>
    decreases v.len() - i,
{
    if i < 0 || i >= v.len() {
        None
    } else if escaped {
        delimiter_from(v, d, i + 1, quoted, false)
    } else if v[i] == '\\' && quoted {
        delimiter_from(v, d, i + 1, quoted, true)
    } else if v[i] == '"' {
        delimiter_from(v, d, i + 1, !quoted, false)
    } else if v[i] == d && !quoted {
        Some(i)
    } else {
        delimiter_from(v, d, i + 1, quoted, false)
    }
}

pub proof fn lemma_delimiter_from_bounds(v: Seq<char>, d: char, i: int, quoted: bool, escaped: bool)
    requires
        0 <= i,
    ensures
        delimiter_from(v, d, i, quoted, escaped) matches Some(k) ==> i <= k < v.len(),
    decreases v.len() - i,
{
    if i < v.len() {
        if escaped {
            lemma_delimiter_from_bounds(v, d, i + 1, quoted, false);
        } else if v[i] == '\\' && quoted {
            lemma_delimiter_from_bounds(v, d, i + 1, quoted, true);
        } else if v[i] == '"' {
            lemma_delimiter_from_bounds(v, d, i + 1, !quoted, false);
        } else if !(v[i] == d && !quoted) {
            lemma_delimiter_from_bounds(v, d, i + 1, quoted, false);
        }
    }
}

/// `v` split at its first `d` outside a quoted-string: the head, and the
/// remainder after the delimiter if there is one.
pub open spec fn split_unquoted(v: Seq<char>, d: char) -> (Seq<char>, Option<Seq<char>>) {
    match delimiter_from(v, d, 0, false, false) {
        Some(k) => (v.take(k), Some(v.skip(k + 1))),
        None => (v, None),
    }
}

pub open spec fn opt_chars(o: Option<Vec<char>>) -> Option<Seq<char>> {
    match o {
        Some(v) => Some(v@),
        None => None,
    }
}

pub fn split_first_outside_quotes(v: &[char], d: char) -> (r: (Vec<char>, Option<Vec<char>>))
    ensures
        r.0@ == split_unquoted(v@, d).0,
        opt_chars(r.1) == split_unquoted(v@, d).1,
{
    let mut quoted = false;
    let mut escaped = false;
    let mut i: usize = 0;
    while i < v.len()
        invariant
            i <= v@.len(),
            delimiter_from(v@, d, 0, false, false) == delimiter_from(v@, d, i as int, quoted, escaped),
        decreases v@.len() - i,
    {
        if escaped {
            escaped = false;
        } else if v[i] == '\\' && quoted {
            escaped = true;
        } else if v[i] == '"' {
            quoted = !quoted;
        } else if v[i] == d && !quoted {
            return (sub_chars(v, 0, i), Some(sub_chars(v, i + 1, v.len())));
        }
        i = i + 1;
    }
    (sub_chars(v, 0, v.len()), None)
}

// --------------------------------------------------------------- relations

/// ASCII white space, as `split_ascii_whitespace` knows it.
pub open spec fn ascii_ws(c: char) -> bool {
    c == ' ' || c == '\t' || c == '\n' || c == '\x0C' || c == '\r'
}

/// The first index at or after `i` holding ASCII white space, else the end.
pub open spec fn ws_from(s: Seq<char>, i: int) -> int
    decreases s.len() - i,
{
    if i < 0 || i >= s.len() {
        s.len() as int
    } else if ascii_ws(s[i]) {
        i
    } else {
        ws_from(s, i + 1)
    }
}

pub proof fn lemma_ws_from(s: Seq<char>, i: int)
    requires
        0 <= i,
    ensures
        i <= s.len() ==> i <= ws_from(s, i) <= s.len(),
    decreases s.len() - i,
{
    if i < s.len() && !ascii_ws(s[i]) {
        lemma_ws_from(s, i + 1);
    }
}

/// Some white-space separated token of `s` from index `i` on is `next`, in
/// any ASCII case.
pub open spec fn next_token_from(s: Seq<char>, i: int) -> bool
    decreases s.len() - i,
{
    if i < 0 || i >= s.len() {
        false
    } else if ascii_ws(s[i]) {
        next_token_from(s, i + 1)
    } else {
        let j = ws_from(s, i + 1);
        proof {
            lemma_ws_from(s, i + 1);
        }
        eq_ignore_case(s.subrange(i, j), "next"@) || next_token_from(s, j)
    }
}

fn is_ascii_ws(c: char) -> (b: bool)
    ensures
        b == ascii_ws(c),
{
    c == ' ' || c == '\t' || c == '\n' || c == '\x0C' || c == '\r'
}

/// Whether a relation-type list names `next`.
pub fn names_next(s: &[char]) -> (b: bool)
    ensures
        b == next_token_from(s@, 0),
{
    let next = chars_of("next");
    let mut i: usize = 0;
    while i < s.len()
        invariant
            i <= s@.len(),
            next@ == "next"@,
            next_token_from(s@, 0) == next_token_from(s@, i as int),
        decreases s@.len() - i,
    {
        if is_ascii_ws(s[i]) {
            i = i + 1;
        } else {
            let mut j: usize = i + 1;
            proof {
                lemma_ws_from(s@, i + 1);
            }
            while j < s.len() && !is_ascii_ws(s[j])
                invariant
                    i < j <= s@.len(),
                    ws_from(s@, i + 1) == ws_from(s@, j as int),
                decreases s@.len() - j,
            {
                j = j + 1;
            }
            let token = sub_chars(s, i, j);
            if chars_eq_ignore_case(token.as_slice(), next.as_slice()) {
                return true;
            }
            i = j;
        }
    }
    false
}

// ----------------------------------------------------------- link values

/// Whether the parameters of one link-value give it relation `next`; `None`
/// when a non-empty parameter has no `=`.
pub open spec fn params_next(rest: Seq<char>) -> Option<bool>
    decreases rest.len(),
{
    let k = delimiter_from(rest, ';', 0, false, false);
    let param = match k {
        Some(k) => rest.take(k),
        None => rest,
    };
    let p = trim(param);
    let this: Option<bool> = if p.len() == 0 {
        Some(false)
    } else {
        match split_once_seq(p, '=') {
            None => None,
            Some(nv) => Some(
                eq_ignore_case(trim(nv.0), "rel"@) && next_token_from(trim_char(trim(nv.1), '"'), 0),
            ),
        }
    };
    match this {
        None => None,
        Some(b) => match k {
            None => Some(b),
            Some(k) => {
                proof {
                    lemma_delimiter_from_bounds(rest, ';', 0, false, false);
                }
                match params_next(rest.skip(k + 1)) {
                    None => None,
                    Some(b2) => Some(b || b2),
                }
            },
        },
    }
}

pub open spec fn malformed_link_message() -> Seq<char> {
    "GitHub pagination Link is malformed"@
}

fn malformed_link() -> (e: ResourceError)
    ensures
        is_upstream_error(e, malformed_link_message()),
{
    malformed_upstream("GitHub pagination Link is malformed")
}

pub open spec fn or_next(b: bool, rest: Option<bool>) -> Option<bool> {
    match rest {
        None => None,
        Some(x) => Some(b || x),
    }
}

/// Whether the parameters of one link-value name relation `next`.
pub fn link_value_is_next(parameters: &[char]) -> (r: Result<bool, ResourceError>)
    ensures
        match params_next(parameters@) {
            None => r matches Err(e) && is_upstream_error(e, malformed_link_message()),
            Some(b) => r == Ok::<bool, ResourceError>(b),
        },
{
    let rel = chars_of("rel");
    let mut is_next = false;
    let mut rest: Option<Vec<char>> = Some(sub_chars(parameters, 0, parameters.len()));
    proof {
        assert(parameters@.subrange(0, parameters@.len() as int) =~= parameters@);
    }
    while rest.is_some()
        invariant
            rel@ == "rel"@,
            params_next(parameters@) == match rest {
                Some(r) => or_next(is_next, params_next(r@)),
                None => Some(is_next),
            },
        decreases match rest {
            Some(r) => r@.len() + 1,
            None => 0,
        },
    {
        let remaining = match rest {
            Some(r) => r,
            None => Vec::new(),
        };
        let ghost cur = remaining@;
        let (parameter, remainder) = split_first_outside_quotes(remaining.as_slice(), ';');
        proof {
            lemma_delimiter_from_bounds(cur, ';', 0, false, false);
        }
        rest = remainder;
        let p = trim_chars(parameter.as_slice());
        if p.len() > 0 {
            proof {
                lemma_find_char_bounds(p@, '=');
            }
            match find_char_index(p.as_slice(), '=') {
                None => {
                    return Err(malformed_link());
                },
                Some(eq) => {
                    let name = trim_chars(sub_chars(p.as_slice(), 0, eq).as_slice());
                    let value = trim_chars(sub_chars(p.as_slice(), eq + 1, p.len()).as_slice());
                    let relations = trim_char_chars(value.as_slice(), '"');
                    if chars_eq_ignore_case(name.as_slice(), rel.as_slice()) && names_next(relations.as_slice()) {
                        is_next = true;
                    }
                },
            }
        }
    }
    Ok(is_next)
}

/// What the Link header `rest` yields once a next target `found` is already
/// known: `None` for a malformed header, else the single `next` target, if
/// any link-value names one.
pub open spec fn link_next(rest: Seq<char>, found: Option<Seq<char>>) -> Option<Option<Seq<char>>>
    decreases rest.len(),
{
    if rest.len() == 0 {
        Some(found)
    } else if rest[0] != '<' {
        None
    } else {
        let after_open = rest.drop_first();
        match find_char(after_open, '>') {
            None => None,
            Some(t) => {
                let target = after_open.take(t);
                let after_target = after_open.skip(t + 1);
                let k = delimiter_from(after_target, ',', 0, false, false);
                let params = match k {
                    Some(k) => after_target.take(k),
                    None => after_target,
                };
                match params_next(params) {
                    None => None,
                    Some(is_next) => if is_next && found is Some {
                        None
                    } else {
                        let found2 = if is_next {
                            Some(target)
                        } else {
                            found
                        };
                        let remainder = match k {
                            Some(k) => after_target.skip(k + 1),
                            None => Seq::empty(),
                        };
                        proof {
                            lemma_find_char_bounds(after_open, '>');
                            lemma_delimiter_from_bounds(after_target, ',', 0, false, false);
                            lemma_trim_start_len(remainder);
                        }
                        link_next(trim_start(remainder), found2)
                    },
                }
            },
        }
    }
}

/// The `rel="next"` target a Link header names: `None` when it is malformed,
/// `Some(None)` when no link-value has that relation.
pub open spec fn next_link_spec(link: Seq<char>) -> Option<Option<Seq<char>>> {
    link_next(trim_start(link), None)
}

/// Extracts the `rel="next"` target of a Link header. Strict on shape: a
/// link-value that does not open with `<`, never closes its `>`, carries a
/// parameter without `=`, or a second `next` relation is refused. Lenient on
/// spelling: any case and any white-space separated relation list.
pub fn next_link_target(link: &str) -> (r: Result<Option<String>, ResourceError>)
    ensures
        match next_link_spec(link@) {
            None => r matches Err(e) && is_upstream_error(e, malformed_link_message()),
            Some(t) => r matches Ok(o) && match o {
                Some(s) => t == Some(s@),
                None => t is None,
            },
        },
{
    let all = chars_of(link);
    let mut rest = trim_start_chars(all.as_slice());
    let mut found: Option<Vec<char>> = None;
    while rest.len() > 0
        invariant
            next_link_spec(link@) == link_next(rest@, opt_chars(found)),
        decreases rest@.len(),
    {
        if rest[0] != '<' {
            return Err(malformed_link());
        }
        let after_open = sub_chars(rest.as_slice(), 1, rest.len());
        proof {
            assert(after_open@ =~= rest@.drop_first());
            lemma_find_char_bounds(after_open@, '>');
        }
        let t = match find_char_index(after_open.as_slice(), '>') {
            Some(t) => t,
            None => {
                return Err(malformed_link());
            },
        };
        let target = sub_chars(after_open.as_slice(), 0, t);
        let after_target = sub_chars(after_open.as_slice(), t + 1, after_open.len());
        let (parameters, remainder) = split_first_outside_quotes(after_target.as_slice(), ',');
        proof {
            assert(target@ =~= after_open@.take(t as int));
            assert(after_target@ =~= after_open@.skip(t + 1));
            lemma_delimiter_from_bounds(after_target@, ',', 0, false, false);
        }
        let is_next = link_value_is_next(parameters.as_slice())?;
        if is_next && found.is_some() {
            return Err(malformed_link());
        }
        if is_next {
            found = Some(target);
        }
        let ghost old_len = rest@.len();
        let ghost rem_view = opt_chars(remainder);
        rest = match &remainder {
            Some(r) => trim_start_chars(r.as_slice()),
            None => {
                proof {
                    assert(trim_start(Seq::<char>::empty()) =~= Seq::<char>::empty());
                }
                Vec::new()
            },
        };
        proof {
            match rem_view {
                Some(r) => lemma_trim_start_len(r),
                None => {},
            }
        }
    }
    match found {
        Some(t) => Ok(Some(string_of(t.as_slice()))),
        None => Ok(None),
    }
}

// ------------------------------------------------------ link-header laws

/// One link-value `<target>parameters`.
pub open spec fn link_value(target: Seq<char>, params: Seq<char>) -> Seq<char> {
    seq!['<'] + target + seq!['>'] + params
}

/// The quoting state after reading `s` from state `q`: each `"` toggles it.
pub open spec fn quote_state(s: Seq<char>, q: bool) -> bool
    decreases s.len(),
{
    if s.len() == 0 {
        q
    } else {
        quote_state(s.drop_first(), if s[0] == '"' { !q } else { q })
    }
}

/// A well-formed link-value: a target without `>`, and parameters without a
/// comma or a backslash that close every quote they open and give each
/// non-empty parameter an `=`.
pub open spec fn well_formed_link_value(target: Seq<char>, params: Seq<char>) -> bool {
    &&& forall|i: int| 0 <= i < target.len() ==> target[i] != '>'
    &&& forall|i: int| 0 <= i < params.len() ==> params[i] != ',' && params[i] != '\\'
    &&& !quote_state(params, false)
    &&& params_next(params) is Some
}

/// Link-values `(target, parameters)`, in order, joined by `, ` into one
/// Link header.
pub open spec fn link_header(values: Seq<(Seq<char>, Seq<char>)>) -> Seq<char>
    decreases values.len(),
{
    if values.len() == 0 {
        Seq::empty()
    } else if values.len() == 1 {
        link_value(values[0].0, values[0].1)
    } else {
        link_value(values[0].0, values[0].1) + seq![',', ' '] + link_header(values.drop_first())
    }
}

proof fn lemma_find_char_after(t: Seq<char>, s: Seq<char>, d: char)
    requires
        forall|i: int| 0 <= i < t.len() ==> t[i] != d,
    ensures
        find_char(t + s, d) == match find_char(s, d) {
            Some(i) => Some(i + t.len()),
            None => None,
        },
    decreases t.len(),
{
    if t.len() == 0 {
        assert(t + s =~= s);
    } else {
        assert((t + s)[0] == t[0]);
        assert((t + s).drop_first() =~= t.drop_first() + s);
        lemma_find_char_after(t.drop_first(), s, d);
    }
}

proof fn lemma_comma_found(v: Seq<char>, n: int, i: int, q: bool)
    requires
        0 <= i <= n < v.len(),
        v[n] == ',',
        forall|j: int| i <= j < n ==> v[j] != ',' && v[j] != '\\',
        !quote_state(v.subrange(i, n), q),
    ensures
        delimiter_from(v, ',', i, q, false) == Some(n),
    decreases n - i,
{
    if i < n {
        let sub = v.subrange(i, n);
        assert(sub[0] == v[i]);
        assert(sub.drop_first() =~= v.subrange(i + 1, n));
        if v[i] == '"' {
            lemma_comma_found(v, n, i + 1, !q);
        } else {
            lemma_comma_found(v, n, i + 1, q);
        }
    }
}

proof fn lemma_no_comma(v: Seq<char>, i: int, q: bool, e: bool)
    requires
        0 <= i,
        forall|j: int| i <= j < v.len() ==> v[j] != ',',
    ensures
        delimiter_from(v, ',', i, q, e) is None,
    decreases v.len() - i,
{
    if i < v.len() {
        if e {
            lemma_no_comma(v, i + 1, q, false);
        } else if v[i] == '\\' && q {
            lemma_no_comma(v, i + 1, q, true);
        } else if v[i] == '"' {
            lemma_no_comma(v, i + 1, !q, false);
        } else {
            lemma_no_comma(v, i + 1, q, false);
        }
    }
}

proof fn lemma_target_found(t: Seq<char>, x: Seq<char>)
    requires
        forall|i: int| 0 <= i < t.len() ==> t[i] != '>',
    ensures
        find_char(t + (seq!['>'] + x), '>') == Some(t.len() as int),
{
    lemma_find_char_after(t, seq!['>'] + x, '>');
    assert((seq!['>'] + x)[0] == '>');
}

/// What a link-value followed by `, ` and more contributes.
proof fn lemma_value_then_more(t: Seq<char>, p: Seq<char>, rest: Seq<char>, found: Option<Seq<char>>)
    requires
        well_formed_link_value(t, p),
    ensures
        link_next(link_value(t, p) + seq![',', ' '] + rest, found) == match params_next(p) {
            Some(b) => if b && found is Some {
                None
            } else {
                link_next(trim_start(rest), if b { Some(t) } else { found })
            },
            None => None,
        },
{
    let v = link_value(t, p) + seq![',', ' '] + rest;
    let w = p + seq![',', ' '] + rest;
    assert(v[0] == '<');
    let after_open = v.drop_first();
    assert(after_open =~= t + (seq!['>'] + w));
    lemma_target_found(t, w);
    assert(after_open.take(t.len() as int) =~= t);
    assert(after_open.skip(t.len() as int + 1) =~= w);
    assert(w.subrange(0, p.len() as int) =~= p);
    assert(w[p.len() as int] == ',');
    lemma_comma_found(w, p.len() as int, 0, false);
    assert(w.take(p.len() as int) =~= p);
    let remainder = w.skip(p.len() as int + 1);
    assert(remainder =~= seq![' '] + rest);
    assert(is_ws(' '));
    assert(remainder.drop_first() =~= rest);
    assert(trim_start(remainder) == trim_start(rest));
}

/// What a last link-value contributes.
proof fn lemma_last_value(t: Seq<char>, p: Seq<char>, found: Option<Seq<char>>)
    requires
        well_formed_link_value(t, p),
    ensures
        link_next(link_value(t, p), found) == match params_next(p) {
            Some(b) => if b && found is Some {
                None
            } else {
                Some(if b { Some(t) } else { found })
            },
            None => None,
        },
{
    let v = link_value(t, p);
    assert(v[0] == '<');
    let after_open = v.drop_first();
    assert(after_open =~= t + (seq!['>'] + p));
    lemma_target_found(t, p);
    assert(after_open.take(t.len() as int) =~= t);
    assert(after_open.skip(t.len() as int + 1) =~= p);
    lemma_no_comma(p, 0, false, false);
    assert(trim_start(Seq::<char>::empty()) =~= Seq::<char>::empty());
    assert(link_next(Seq::<char>::empty(), Some(t)) == Some(Some(t)));
    assert(link_next(Seq::<char>::empty(), found) == Some(found));
}

proof fn lemma_header_opens(values: Seq<(Seq<char>, Seq<char>)>)
    requires
        values.len() > 0,
    ensures
        link_header(values).len() > 0,
        link_header(values)[0] == '<',
        trim_start(link_header(values)) == link_header(values),
{
    let h = link_header(values);
    let first = link_value(values[0].0, values[0].1);
    assert(first[0] == '<');
    if values.len() > 1 {
        assert(h == first + seq![',', ' '] + link_header(values.drop_first()));
        assert(h[0] == first[0]);
    }
    assert(!is_ws('<'));
}

proof fn lemma_header_without_next(values: Seq<(Seq<char>, Seq<char>)>, found: Option<Seq<char>>)
    requires
        forall|i: int| 0 <= i < values.len() ==> well_formed_link_value(#[trigger] values[i].0, values[i].1),
        forall|i: int| 0 <= i < values.len() ==> params_next(#[trigger] values[i].1) == Some(false),
    ensures
        link_next(link_header(values), found) == Some(found),
    decreases values.len(),
{
    if values.len() == 1 {
        assert(well_formed_link_value(values[0].0, values[0].1));
        assert(params_next(values[0].1) == Some(false));
        lemma_last_value(values[0].0, values[0].1, found);
    } else if values.len() > 1 {
        let tail = values.drop_first();
        assert(well_formed_link_value(values[0].0, values[0].1));
        assert(params_next(values[0].1) == Some(false));
        lemma_value_then_more(values[0].0, values[0].1, link_header(tail), found);
        lemma_header_opens(tail);
        assert forall|i: int| 0 <= i < tail.len() implies well_formed_link_value(#[trigger] tail[i].0, tail[i].1)
            && params_next(tail[i].1) == Some(false) by {
            assert(tail[i] == values[i + 1]);
        }
        lemma_header_without_next(tail, found);
    }
}

proof fn lemma_header_with_one_next(values: Seq<(Seq<char>, Seq<char>)>, k: int)
    requires
        0 <= k < values.len(),
        forall|i: int| 0 <= i < values.len() ==> well_formed_link_value(#[trigger] values[i].0, values[i].1),
        params_next(values[k].1) == Some(true),
        forall|i: int| 0 <= i < values.len() && i != k ==> params_next(#[trigger] values[i].1) == Some(false),
    ensures
        link_next(link_header(values), None) == Some(Some(values[k].0)),
    decreases values.len(),
{
    assert(well_formed_link_value(values[0].0, values[0].1));
    if values.len() == 1 {
        lemma_last_value(values[0].0, values[0].1, None);
    } else {
        let tail = values.drop_first();
        lemma_value_then_more(values[0].0, values[0].1, link_header(tail), None);
        lemma_header_opens(tail);
        assert forall|i: int| 0 <= i < tail.len() implies well_formed_link_value(#[trigger] tail[i].0, tail[i].1) by {
            assert(tail[i] == values[i + 1]);
        }
        if k == 0 {
            assert forall|i: int| 0 <= i < tail.len() implies params_next(#[trigger] tail[i].1) == Some(false) by {
                assert(tail[i] == values[i + 1]);
            }
            lemma_header_without_next(tail, Some(values[0].0));
        } else {
            assert(params_next(values[0].1) == Some(false));
            assert(tail[k - 1] == values[k]);
            assert forall|i: int| 0 <= i < tail.len() && i != k - 1 implies params_next(#[trigger] tail[i].1) == Some(false) by {
                assert(tail[i] == values[i + 1]);
            }
            lemma_header_with_one_next(tail, k - 1);
        }
    }
}

proof fn lemma_next_after_found(values: Seq<(Seq<char>, Seq<char>)>, k: int, x: Seq<char>)
    requires
        0 <= k < values.len(),
        forall|i: int| 0 <= i < values.len() ==> well_formed_link_value(#[trigger] values[i].0, values[i].1),
        params_next(values[k].1) == Some(true),
        forall|i: int| 0 <= i < k ==> params_next(#[trigger] values[i].1) == Some(false),
    ensures
        link_next(link_header(values), Some(x)) is None,
    decreases values.len(),
{
    assert(well_formed_link_value(values[0].0, values[0].1));
    if values.len() == 1 {
        lemma_last_value(values[0].0, values[0].1, Some(x));
    } else {
        let tail = values.drop_first();
        lemma_value_then_more(values[0].0, values[0].1, link_header(tail), Some(x));
        if k > 0 {
            assert(params_next(values[0].1) == Some(false));
            lemma_header_opens(tail);
            assert(tail[k - 1] == values[k]);
            assert forall|i: int| 0 <= i < tail.len() implies well_formed_link_value(#[trigger] tail[i].0, tail[i].1) by {
                assert(tail[i] == values[i + 1]);
            }
            assert forall|i: int| 0 <= i < k - 1 implies params_next(#[trigger] tail[i].1) == Some(false) by {
                assert(tail[i] == values[i + 1]);
            }
            lemma_next_after_found(tail, k - 1, x);
        }
    }
}

proof fn lemma_header_with_two_next(values: Seq<(Seq<char>, Seq<char>)>, k1: int, k2: int)
    requires
        0 <= k1 < k2 < values.len(),
        forall|i: int| 0 <= i < values.len() ==> well_formed_link_value(#[trigger] values[i].0, values[i].1),
        params_next(values[k1].1) == Some(true),
        params_next(values[k2].1) == Some(true),
        forall|i: int| 0 <= i < k2 && i != k1 ==> params_next(#[trigger] values[i].1) == Some(false),
    ensures
        link_next(link_header(values), None) is None,
    decreases values.len(),
{
    assert(well_formed_link_value(values[0].0, values[0].1));
    let tail = values.drop_first();
    lemma_value_then_more(values[0].0, values[0].1, link_header(tail), None);
    lemma_header_opens(tail);
    assert forall|i: int| 0 <= i < tail.len() implies well_formed_link_value(#[trigger] tail[i].0, tail[i].1) by {
        assert(tail[i] == values[i + 1]);
    }
    assert(tail[k2 - 1] == values[k2]);
    if k1 == 0 {
        assert forall|i: int| 0 <= i < k2 - 1 implies params_next(#[trigger] tail[i].1) == Some(false) by {
            assert(tail[i] == values[i + 1]);
        }
        lemma_next_after_found(tail, k2 - 1, values[0].0);
    } else {
        assert(params_next(values[0].1) == Some(false));
        assert(tail[k1 - 1] == values[k1]);
        assert forall|i: int| 0 <= i < k2 - 1 && i != k1 - 1 implies params_next(#[trigger] tail[i].1) == Some(false) by {
            assert(tail[i] == values[i + 1]);
        }
        lemma_header_with_two_next(tail, k1 - 1, k2 - 1);
    }
}

/// Law: a Link header of well-formed link-values two of which name relation
/// `next` is malformed, whatever stands between or after them.
pub proof fn lemma_two_next_values_are_malformed(values: Seq<(Seq<char>, Seq<char>)>, k1: int, k2: int)
    requires
        0 <= k1 < k2 < values.len(),
        forall|i: int| 0 <= i < values.len() ==> well_formed_link_value(#[trigger] values[i].0, values[i].1),
        params_next(values[k1].1) == Some(true),
        params_next(values[k2].1) == Some(true),
        forall|i: int| 0 <= i < k2 && i != k1 ==> params_next(#[trigger] values[i].1) == Some(false),
    ensures
        next_link_spec(link_header(values)) is None,
{
    lemma_header_opens(values);
    lemma_header_with_two_next(values, k1, k2);
}

/// Law: in a Link header of well-formed link-values exactly one of which
/// names relation `next`, the next target is that value's target, wherever
/// it stands among the others.
pub proof fn lemma_next_target_is_the_value_naming_next(values: Seq<(Seq<char>, Seq<char>)>, k: int)
    requires
        0 <= k < values.len(),
        forall|i: int| 0 <= i < values.len() ==> well_formed_link_value(#[trigger] values[i].0, values[i].1),
        params_next(values[k].1) == Some(true),
        forall|i: int| 0 <= i < values.len() && i != k ==> params_next(#[trigger] values[i].1) == Some(false),
    ensures
        next_link_spec(link_header(values)) == Some(Some(values[k].0)),
{
    lemma_header_opens(values);
    lemma_header_with_one_next(values, k);
}

/// Law: a Link header of well-formed link-values none of which names
/// relation `next` (the empty header too) has no next target.
pub proof fn lemma_no_next_target_without_next(values: Seq<(Seq<char>, Seq<char>)>)
    requires
        forall|i: int| 0 <= i < values.len() ==> well_formed_link_value(#[trigger] values[i].0, values[i].1),
        forall|i: int| 0 <= i < values.len() ==> params_next(#[trigger] values[i].1) == Some(false),
    ensures
        next_link_spec(link_header(values)) == Some(None::<Seq<char>>),
{
    if values.len() > 0 {
        lemma_header_opens(values);
    } else {
        assert(trim_start(Seq::<char>::empty()) =~= Seq::<char>::empty());
    }
    lemma_header_without_next(values, None);
}

// ------------------------------------------------------------ confinement

/// `path` is `<base path>repositories/<numeric id>/<suffix>`: the spelling
/// the live API returns for the repository it was asked about.
pub open spec fn repository_id_path(base_path: Seq<char>, path: Seq<char>, suffix: Seq<char>) -> bool {
    let prefix = base_path + "repositories/"@;
    &&& prefix.len() <= path.len()
    &&& path.take(prefix.len() as int) == prefix
    &&& match split_once_seq(path.skip(prefix.len() as int), '/') {
        Some(parts) => parts.0.len() > 0 && all_digits(parts.0) && parts.1 == suffix,
        None => false,
    }
}

/// A next target stays on the configured API origin and in the same
/// repository endpoint family.
pub open spec fn confined(target: UrlParts, base: UrlParts, repository_path: Seq<char>, suffix: Seq<char>) -> bool {
    &&& target.scheme == base.scheme
    &&& target.host == base.host
    &&& target.port == base.port
    &&& (eq_ignore_case(target.path, repository_path) || repository_id_path(base.path, target.path, suffix))
}

fn all_digit_chars(s: &[char]) -> (b: bool)
    ensures
        b == all_digits(s@),
{
    let mut i: usize = 0;
    while i < s.len()
        invariant
            i <= s@.len(),
            forall|k: int| 0 <= k < i ==> is_digit(#[trigger] s@[k]),
        decreases s@.len() - i,
    {
        if !('0' <= s[i] && s[i] <= '9') {
            return false;
        }
        i = i + 1;
    }
    true
}

fn same_text(a: &Option<String>, b: &Option<String>) -> (r: bool)
    ensures
        r == (match (a, b) {
            (Some(x), Some(y)) => x@ == y@,
            (None, None) => true,
            _ => false,
        }),
{
    match (a, b) {
        (Some(x), Some(y)) => {
            let xs = chars_of(x.as_str());
            chars_eq_str(xs.as_slice(), y.as_str())
        },
        (None, None) => true,
        _ => false,
    }
}

/// Whether `path` names the repository by numeric id beneath `base_path`.
pub fn is_repository_id_path(base_path: &str, path: &str, suffix: &str) -> (b: bool)
    ensures
        b == repository_id_path(base_path@, path@, suffix@),
{
    let mut prefix = owned(base_path);
    push_str(&mut prefix, "repositories/");
    let p = chars_of(path);
    let pre = chars_of(prefix.as_str());
    if !starts_with_str(p.as_slice(), prefix.as_str()) {
        return false;
    }
    let rest = sub_chars(p.as_slice(), pre.len(), p.len());
    proof {
        assert(rest@ =~= path@.skip(prefix@.len() as int));
        lemma_find_char_bounds(rest@, '/');
    }
    match find_char_index(rest.as_slice(), '/') {
        None => false,
        Some(slash) => {
            let id = sub_chars(rest.as_slice(), 0, slash);
            let tail = sub_chars(rest.as_slice(), slash + 1, rest.len());
            proof {
                assert(id@ =~= rest@.take(slash as int));
                assert(tail@ =~= rest@.skip(slash + 1));
            }
            id.len() > 0 && all_digit_chars(id.as_slice()) && chars_eq_str(tail.as_slice(), suffix)
        },
    }
}

pub open spec fn leaves_authority_message() -> Seq<char> {
    "GitHub pagination Link leaves its repository endpoint authority"@
}

/// Keeps a next target on the API origin `base` and in the endpoint family
/// whose path is `repository_path` (or its numeric-id spelling).
pub fn confine_next(
    target: ParsedUrl,
    base: &ParsedUrl,
    repository_path: &str,
    suffix: &str,
) -> (r: Result<ParsedUrl, ResourceError>)
    ensures
        if confined(target.parts(), base.parts(), repository_path@, suffix@) {
            r matches Ok(t) && t.parts() == target.parts()
        } else {
            r matches Err(e) && is_refusal(e, ErrorCategory::PermissionDenied, leaves_authority_message())
        },
{
    let scheme = chars_of(target.scheme.as_str());
    let same_origin = chars_eq_str(scheme.as_slice(), base.scheme.as_str()) && same_text(&target.host, &base.host)
        && target.port == base.port;
    let tp = chars_of(target.path.as_str());
    let rp = chars_of(repository_path);
    let same_family = chars_eq_ignore_case(tp.as_slice(), rp.as_slice()) || is_repository_id_path(
        base.path.as_str(),
        target.path.as_str(),
        suffix,
    );
    if !same_origin || !same_family {
        return Err(
            ResourceError::new(
                ErrorCategory::PermissionDenied,
                "GitHub pagination Link leaves its repository endpoint authority",
            ),
        );
    }
    Ok(target)
}

/// The confined next page a response's Link header names, if any.
pub fn next_link(
    link: Option<&str>,
    base: &ParsedUrl,
    repository_path: &str,
    suffix: &str,
) -> (r: Result<Option<ParsedUrl>, ResourceError>)
    ensures
        match link {
            None => r matches Ok(None),
            Some(l) => match next_link_spec(l@) {
                None => r matches Err(e) && is_upstream_error(e, malformed_link_message()),
                Some(None) => r matches Ok(None),
                Some(Some(t)) => match url_parse(t) {
                    None => r matches Err(e) && is_upstream_error(e, malformed_link_message()),
                    Some(u) => if confined(u, base.parts(), repository_path@, suffix@) {
                        r matches Ok(Some(p)) && p.parts() == u
                    } else {
                        r matches Err(e) && is_refusal(
                            e,
                            ErrorCategory::PermissionDenied,
                            leaves_authority_message(),
                        )
                    },
                },
            },
        },
{
    let link = match link {
        Some(l) => l,
        None => {
            return Ok(None);
        },
    };
    let target = match next_link_target(link)? {
        Some(t) => t,
        None => {
            return Ok(None);
        },
    };
    let parsed = match parse_url(target.as_str()) {
        Some(p) => p,
        None => {
            return Err(malformed_link());
        },
    };
    let confined = confine_next(parsed, base, repository_path, suffix)?;
    Ok(Some(confined))
}

// ------------------------------------------------------------- collections

/// Upstream pages one collection read follows before it stops and names the
/// next page as its continuation.
pub const MAX_PAGES_PER_OPERATION: u64 = 10;

/// The value of the first query pair named `page`, if any.
pub open spec fn first_page_param(q: Seq<(Seq<char>, Seq<char>)>) -> Option<Seq<char>>
    decreases q.len(),
{
    if q.len() == 0 {
        None
    } else if q[0].0 == "page"@ {
        Some(q[0].1)
    } else {
        first_page_param(q.drop_first())
    }
}

pub open spec fn numeric_page(q: Seq<(Seq<char>, Seq<char>)>) -> Option<u64> {
    match first_page_param(q) {
        Some(v) => parse_u64_spec(v),
        None => None,
    }
}

/// The page number a next target names in its query.
pub fn continuation_page(target: &ParsedUrl) -> (r: Result<u64, ResourceError>)
    ensures
        match numeric_page(target.parts().query) {
            Some(n) => r == Ok::<u64, ResourceError>(n),
            None => r matches Err(e) && is_upstream_error(e, "GitHub next Link does not name a numeric page"@),
        },
{
    let ghost q = target.parts().query;
    proof {
        assert(q.skip(0) =~= q);
    }
    let mut i: usize = 0;
    while i < target.query.len()
        invariant
            i <= target.query@.len(),
            q == target.parts().query,
            q.len() == target.query@.len(),
            first_page_param(q) == first_page_param(q.skip(i as int)),
        decreases target.query@.len() - i,
    {
        let name = chars_of(target.query[i].0.as_str());
        proof {
            assert(q.skip(i as int)[0] == q[i as int]);
            assert(q.skip(i as int).drop_first() =~= q.skip(i + 1));
        }
        if chars_eq_str(name.as_slice(), "page") {
            let value = chars_of(target.query[i].1.as_str());
            return match parse_u64(value.as_slice()) {
                Some(n) => Ok(n),
                None => Err(malformed_upstream("GitHub next Link does not name a numeric page")),
            };
        }
        i = i + 1;
    }
    proof {
        assert(q.skip(i as int).len() == 0);
    }
    Err(malformed_upstream("GitHub next Link does not name a numeric page"))
}

/// What a collection read does after fetching its `pages`-th page.
#[derive(Debug)]
pub enum CollectionStep {
    /// The page named no next page: the collection is whole.
    Complete,
    /// Fetch this next page.
    Fetch(ParsedUrl),
    /// Stop at the page limit; the collection continues at this page.
    Truncated(u64),
}

pub fn collection_step(pages: u64, following: Option<ParsedUrl>) -> (r: Result<CollectionStep, ResourceError>)
    ensures
        match following {
            None => r matches Ok(CollectionStep::Complete),
            Some(u) => if pages < MAX_PAGES_PER_OPERATION {
                r matches Ok(CollectionStep::Fetch(p)) && p.parts() == u.parts()
            } else {
                match numeric_page(u.parts().query) {
                    Some(n) => r matches Ok(CollectionStep::Truncated(m)) && m == n,
                    None => r matches Err(e) && is_upstream_error(
                        e,
                        "GitHub next Link does not name a numeric page"@,
                    ),
                }
            },
        },
{
    match following {
        None => Ok(CollectionStep::Complete),
        Some(u) => {
            if pages < MAX_PAGES_PER_OPERATION {
                Ok(CollectionStep::Fetch(u))
            } else {
                let n = continuation_page(&u)?;
                Ok(CollectionStep::Truncated(n))
            }
        },
    }
}

// ----------------------------------------------------------------- status

/// GitHub signals exhaustion on a 403 through its rate-limit headers; without
/// them a 403 is an authorization refusal.
pub open spec fn rate_limited(remaining: Option<u64>, retry_after_present: bool) -> bool {
    remaining == Some(0u64) || retry_after_present
}

pub fn is_rate_limited(remaining: Option<u64>, retry_after_present: bool) -> (b: bool)
    ensures
        b == rate_limited(remaining, retry_after_present),
{
    match remaining {
        Some(0) => true,
        _ => retry_after_present,
    }
}

/// How a plain read refuses an upstream status.
pub open spec fn status_refusal(status: u16, limited: bool) -> Option<(ErrorCategory, Seq<char>)> {
    if 200 <= status <= 299 {
        None
    } else if status == 401 {
        Some((ErrorCategory::PermissionDenied, "GitHub rejected the configured credential"@))
    } else if status == 403 && limited {
        Some((ErrorCategory::SourceUnavailable, "GitHub rate limit is exhausted"@))
    } else if status == 403 {
        Some((ErrorCategory::PermissionDenied, "GitHub denied the requested operation"@))
    } else if status == 404 {
        Some((ErrorCategory::NotFound, "GitHub Resource was not found or is access-hidden"@))
    } else if status == 429 {
        Some((ErrorCategory::SourceUnavailable, "GitHub rate limit is exhausted"@))
    } else if 500 <= status <= 599 {
        Some((ErrorCategory::SourceUnavailable, "GitHub upstream is unavailable"@))
    } else {
        Some((ErrorCategory::SourceUnavailable, "GitHub upstream returned HTTP status "@ + decimal(status as nat)))
    }
}

pub fn classify_status(status: u16, remaining: Option<u64>, retry_after_present: bool) -> (r: Result<(), ResourceError>)
    ensures
        refused_as(r, status_refusal(status, rate_limited(remaining, retry_after_present))),
        r matches Err(e) ==> e.details is None,
{
    let limited = is_rate_limited(remaining, retry_after_present);
    if 200 <= status && status <= 299 {
        Ok(())
    } else if status == 401 {
        Err(ResourceError::new(ErrorCategory::PermissionDenied, "GitHub rejected the configured credential"))
    } else if status == 403 && limited {
        Err(ResourceError::new(ErrorCategory::SourceUnavailable, "GitHub rate limit is exhausted"))
    } else if status == 403 {
        Err(ResourceError::new(ErrorCategory::PermissionDenied, "GitHub denied the requested operation"))
    } else if status == 404 {
        Err(ResourceError::new(ErrorCategory::NotFound, "GitHub Resource was not found or is access-hidden"))
    } else if status == 429 {
        Err(ResourceError::new(ErrorCategory::SourceUnavailable, "GitHub rate limit is exhausted"))
    } else if 500 <= status && status <= 599 {
        Err(ResourceError::new(ErrorCategory::SourceUnavailable, "GitHub upstream is unavailable"))
    } else {
        let mut m = owned("GitHub upstream returned HTTP status ");
        push_decimal(&mut m, status as u64);
        Err(ResourceError::from_string(ErrorCategory::SourceUnavailable, m))
    }
}

/// The category and reason a controlled (facts) read gives an upstream
/// status; the same success range as a plain read.
pub open spec fn facts_status_class(status: u16, limited: bool) -> Option<(ErrorCategory, ErrorReason)> {
    if 200 <= status <= 299 {
        None
    } else if status == 401 || (status == 403 && !limited) {
        Some((ErrorCategory::PermissionDenied, ErrorReason::UpstreamDenied))
    } else if status == 403 || status == 429 {
        Some((ErrorCategory::SourceUnavailable, ErrorReason::UpstreamRateLimited))
    } else if status == 404 {
        Some((ErrorCategory::NotFound, ErrorReason::UpstreamNotFoundOrHidden))
    } else {
        Some((ErrorCategory::SourceUnavailable, ErrorReason::UpstreamUnavailable))
    }
}

/// A controlled read's refusal of an upstream status, with its reason, the
/// status, whether 404 hides access, Retry-After guidance and the rate-limit
/// reset attached.
pub fn classify_facts_status(
    status: u16,
    remaining: Option<u64>,
    retry_after_seconds: Option<u64>,
    rate_limit_reset: Option<u64>,
) -> (r: Result<(), ResourceError>)
    ensures
        match facts_status_class(status, rate_limited(remaining, retry_after_seconds is Some)) {
            None => r is Ok,
            Some((category, reason)) => r matches Err(e) && e.category == category && e.message@
                == "GitHub facts acquisition failed"@ && e.details == Some(
                ErrorDetails {
                    reason,
                    http_status: Some(status),
                    missing_or_access_hidden: status == 404,
                    retry_delay_seconds: retry_after_seconds,
                    rate_limit_reset,
                    limit: None,
                },
            ),
        },
{
    let limited = is_rate_limited(remaining, retry_after_seconds.is_some());
    let (category, reason) = if 200 <= status && status <= 299 {
        return Ok(());
    } else if status == 401 || (status == 403 && !limited) {
        (ErrorCategory::PermissionDenied, ErrorReason::UpstreamDenied)
    } else if status == 403 || status == 429 {
        (ErrorCategory::SourceUnavailable, ErrorReason::UpstreamRateLimited)
    } else if status == 404 {
        (ErrorCategory::NotFound, ErrorReason::UpstreamNotFoundOrHidden)
    } else {
        (ErrorCategory::SourceUnavailable, ErrorReason::UpstreamUnavailable)
    };
    let details = ErrorDetails {
        reason,
        http_status: Some(status),
        missing_or_access_hidden: status == 404,
        retry_delay_seconds: retry_after_seconds,
        rate_limit_reset,
        limit: None,
    };
    Err(ResourceError::new(category, "GitHub facts acquisition failed").with_details(details))
}

/// A controlled read's failure carries its reason; a plain read's does not.
pub fn observation_error(error: ResourceError, controlled: bool, reason: ErrorReason) -> (e: ResourceError)
    ensures
        e.category == error.category,
        e.message@ == error.message@,
        e.details == if controlled {
            Some(ErrorDetails::new_spec(reason))
        } else {
            error.details
        },
{
    if controlled {
        error.with_details(ErrorDetails::new(reason))
    } else {
        error
    }
}

/// Provenance of an accepted upstream body.
#[derive(Debug, Clone)]
pub struct BodyObservation {
    pub status: Option<u16>,
    pub etag: Option<String>,
    pub last_modified: Option<String>,
    pub date: Option<String>,
    pub selected_api_version: Option<String>,
    pub observed_at_unix_ms: Option<u64>,
}

impl BodyObservation {
    /// The observation a cache entry written before observations were kept
    /// stands for: only its entity tag is known.
    pub fn legacy(etag: &str) -> (o: BodyObservation)
        ensures
            o.status is None,
            o.etag matches Some(t) && t@ == etag@,
            o.last_modified is None,
            o.date is None,
            o.selected_api_version is None,
            o.observed_at_unix_ms is None,
    {
        BodyObservation {
            status: None,
            etag: Some(owned(etag)),
            last_modified: None,
            date: None,
            selected_api_version: None,
            observed_at_unix_ms: None,
        }
    }
}

} // verus!
