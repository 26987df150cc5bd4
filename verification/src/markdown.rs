//! Reader-mode extraction: a fixed, deterministic HTML-to-Markdown pass over
//! the token stream of an HTML tokenizer. A fixed tag subset, so identical
//! input always yields identical bytes; there is no boilerplate stripping.
//!
//! The tokenizer itself runs outside this module: it hands each token to
//! [`Extractor::process`], and enters the raw-text state that call returns
//! for `<script>` and `<style>` bodies.
use vstd::prelude::*;
use crate::resource::{join_map, lemma_join_map_step};
use crate::text::{
    char_len_utf8, char_width, chars_eq_str, chars_of, decimal, is_whitespace, is_ws,
    lemma_utf8_len_push, owned, push_char, push_chars, push_decimal, push_str, str_byte_len,
    string_of, sub_chars, trim, trim_chars, trim_end, trim_end_chars, utf8_len, byte_len,
};

verus! {

broadcast use vstd::string::group_string_axioms;

/// A list being rendered: bullets, or numbers with the last one used.
#[derive(Debug, Clone, Copy, PartialEq, Eq, Structural)]
pub enum ListKind {
    Unordered,
    Ordered(u64),
}

/// The tokenizer state a dropped element's body is read in.
#[derive(Debug, Clone, Copy, PartialEq, Eq, Structural)]
pub enum RawKind {
    ScriptData,
    Rawtext,
}

/// One token of an HTML tokenizer, as this pass reads it: a start tag with
/// its self-closing flag and first `href` attribute, an end tag, character
/// data, or anything else (doctype, comment, end of file).
#[derive(Debug, Clone)]
pub enum HtmlToken {
    StartTag { name: String, self_closing: bool, href: Option<String> },
    EndTag { name: String },
    Text(String),
    Other,
}

/// The extraction state: finished blocks, the line being built and its
/// pending block prefix, how deep inside dropped and `<pre>` elements the
/// stream is, the open lists, an open link, and the table row being built.
#[derive(Debug)]
pub struct Extractor {
    pub blocks: Vec<String>,
    pub line: String,
    pub prefix: String,
    pub skip: usize,
    pub pre: usize,
    pub lists: Vec<ListKind>,
    pub link_start: Option<usize>,
    pub link_href: Option<String>,
    pub row: Vec<String>,
    pub in_cell: bool,
}

/// The extraction state as values.
#[verifier::ext_equal]
pub struct ExtractView {
    pub blocks: Seq<Seq<char>>,
    pub line: Seq<char>,
    pub prefix: Seq<char>,
    pub skip: nat,
    pub pre: nat,
    pub lists: Seq<ListKind>,
    pub link_start: Option<nat>,
    pub link_href: Option<Seq<char>>,
    pub row: Seq<Seq<char>>,
    pub in_cell: bool,
}

pub open spec fn seq_views(v: Seq<String>) -> Seq<Seq<char>> {
    v.map_values(|s: String| s@)
}

impl Extractor {
    pub open spec fn state(&self) -> ExtractView {
        ExtractView {
            blocks: seq_views(self.blocks@),
            line: self.line@,
            prefix: self.prefix@,
            skip: self.skip as nat,
            pre: self.pre as nat,
            lists: self.lists@,
            link_start: match self.link_start {
                Some(s) => Some(s as nat),
                None => None,
            },
            link_href: match self.link_href {
                Some(h) => Some(h@),
                None => None,
            },
            row: seq_views(self.row@),
            in_cell: self.in_cell,
        }
    }
}

// ------------------------------------------------------------- the spec

pub open spec fn empty_state() -> ExtractView {
    ExtractView {
        blocks: Seq::empty(),
        line: Seq::empty(),
        prefix: Seq::empty(),
        skip: 0,
        pre: 0,
        lists: Seq::empty(),
        link_start: None,
        link_href: None,
        row: Seq::empty(),
        in_cell: false,
    }
}

/// Ends the current block, keeping it if it has content. A prefix that had
/// nothing to mark survives.
pub open spec fn flush(v: ExtractView) -> ExtractView {
    let body = trim_end(v.line);
    if body.len() > 0 {
        ExtractView { blocks: v.blocks.push(v.prefix + body), prefix: Seq::empty(), line: Seq::empty(), ..v }
    } else {
        ExtractView { line: Seq::empty(), ..v }
    }
}

/// A line that needs a separating space gets one.
pub open spec fn spaced(line: Seq<char>, pending: bool) -> Seq<char> {
    if pending && line.len() > 0 && line.last() != ' ' {
        line.push(' ')
    } else {
        line
    }
}

/// Appends `text`, collapsing each run of white space to one separating
/// space; `pending` records a run not yet written.
pub open spec fn collapse(line: Seq<char>, text: Seq<char>, pending: bool) -> Seq<char>
    decreases text.len(),
{
    if text.len() == 0 {
        spaced(line, pending)
    } else if is_ws(text[0]) {
        collapse(line, text.drop_first(), true)
    } else {
        collapse(spaced(line, pending).push(text[0]), text.drop_first(), false)
    }
}

/// Appends character data: verbatim inside `<pre>`, else collapsed.
pub open spec fn push_text(v: ExtractView, text: Seq<char>) -> ExtractView {
    if v.pre > 0 {
        ExtractView { line: v.line + text, ..v }
    } else {
        ExtractView { line: collapse(v.line, text, false), ..v }
    }
}

/// Starts a block marked `prefix`, replacing an unspent prefix.
pub open spec fn begin_block(v: ExtractView, prefix: Seq<char>) -> ExtractView {
    ExtractView { prefix, ..flush(v) }
}

pub open spec fn indent(depth: nat) -> Seq<char> {
    Seq::new(2 * depth, |i: int| ' ')
}

/// The marker of the next item of the innermost list, and the state with
/// an ordered list's counter advanced.
pub open spec fn list_marker(v: ExtractView) -> (Seq<char>, ExtractView) {
    if v.lists.len() == 0 {
        ("- "@, v)
    } else {
        let depth = (v.lists.len() - 1) as nat;
        match v.lists.last() {
            ListKind::Ordered(c) => {
                let n = (c + 1) as u64;
                (
                    indent(depth) + decimal(n as nat) + ". "@,
                    ExtractView { lists: v.lists.update(v.lists.len() - 1, ListKind::Ordered(n)), ..v },
                )
            },
            ListKind::Unordered => (indent(depth) + "- "@, v),
        }
    }
}

pub open spec fn is_dropped(name: Seq<char>) -> bool {
    name == "script"@ || name == "style"@ || name == "svg"@ || name == "head"@ || name == "noscript"@
        || name == "template"@
}

pub open spec fn raw_kind(name: Seq<char>) -> Option<RawKind> {
    if name == "script"@ {
        Some(RawKind::ScriptData)
    } else if name == "style"@ {
        Some(RawKind::Rawtext)
    } else {
        None
    }
}

/// The level of a heading element `h1` … `h6`.
pub open spec fn heading_level(name: Seq<char>) -> nat {
    if name == "h1"@ {
        1
    } else if name == "h2"@ {
        2
    } else if name == "h3"@ {
        3
    } else if name == "h4"@ {
        4
    } else if name == "h5"@ {
        5
    } else if name == "h6"@ {
        6
    } else {
        0
    }
}

pub open spec fn hashes(n: nat) -> Seq<char> {
    Seq::new(n, |i: int| '#')
}

pub open spec fn is_paragraph_like(name: Seq<char>) -> bool {
    name == "p"@ || name == "div"@ || name == "section"@ || name == "article"@ || name == "main"@ || name
        == "header"@ || name == "footer"@ || name == "blockquote"@
}

/// The effect of a start tag outside dropped elements.
pub open spec fn start_tag(v: ExtractView, name: Seq<char>, href: Option<Seq<char>>) -> ExtractView {
    if heading_level(name) > 0 {
        begin_block(v, hashes(heading_level(name)) + " "@)
    } else if is_paragraph_like(name) {
        flush(v)
    } else if name == "br"@ {
        ExtractView { line: v.line + "  \n"@, ..v }
    } else if name == "hr"@ {
        let f = flush(v);
        ExtractView { blocks: f.blocks.push("---"@), ..f }
    } else if name == "ul"@ {
        let f = flush(v);
        ExtractView { lists: f.lists.push(ListKind::Unordered), ..f }
    } else if name == "ol"@ {
        let f = flush(v);
        ExtractView { lists: f.lists.push(ListKind::Ordered(0)), ..f }
    } else if name == "li"@ {
        let (marker, w) = list_marker(v);
        begin_block(w, marker)
    } else if name == "pre"@ {
        let f = flush(v);
        ExtractView { pre: f.pre + 1, blocks: f.blocks.push("```"@), ..f }
    } else if name == "code"@ && v.pre == 0 {
        ExtractView { line: v.line.push('`'), ..v }
    } else if name == "a"@ {
        ExtractView {
            link_start: Some(byte_len(v.line) as nat),
            link_href: match href {
                Some(h) => Some(trim(h)),
                None => None,
            },
            ..v
        }
    } else if name == "tr"@ {
        ExtractView { row: Seq::empty(), ..flush(v) }
    } else if name == "td"@ || name == "th"@ {
        ExtractView { in_cell: true, line: Seq::empty(), ..v }
    } else {
        v
    }
}

/// The character index at which `line`'s UTF-8 encoding reaches `b` bytes,
/// searching from index `k`; `None` when `b` falls inside a character or past
/// the end.
pub open spec fn byte_boundary(line: Seq<char>, b: nat, k: int) -> Option<int>
    decreases line.len() - k,
{
    if k < 0 || k > line.len() {
        None
    } else if utf8_len(line.take(k)) == b {
        Some(k)
    } else if utf8_len(line.take(k)) > b || k == line.len() {
        None
    } else {
        byte_boundary(line, b, k + 1)
    }
}

/// The link closing now: `[text](href)`, or `[href](href)` without text.
pub open spec fn link_text(text: Seq<char>, href: Seq<char>) -> Seq<char> {
    if trim(text).len() == 0 {
        "["@ + href + "]("@ + href + ")"@
    } else {
        "["@ + trim(text) + "]("@ + href + ")"@
    }
}

/// The row text of a finished table row.
pub open spec fn row_text(cells: Seq<Seq<char>>) -> Seq<char> {
    "| "@ + join_map(cells, ident(), " | "@) + " |"@
}

pub open spec fn ident() -> spec_fn(Seq<char>) -> Seq<char> {
    |c: Seq<char>| c
}

/// Closing a link: its text since the link opened becomes `[text](href)`;
/// the open link is forgotten either way.
pub open spec fn close_link(v: ExtractView) -> ExtractView {
    let w = ExtractView { link_start: None, link_href: None, ..v };
    match (v.link_start, v.link_href) {
        (Some(start), Some(href)) => if start <= byte_len(v.line) {
            match byte_boundary(v.line, start, 0) {
                Some(k) => ExtractView { line: v.line.take(k) + link_text(v.line.skip(k), href), ..w },
                None => w,
            }
        } else {
            w
        },
        _ => w,
    }
}

/// Ending a table row with cells writes it as a block.
pub open spec fn end_row(v: ExtractView) -> ExtractView {
    ExtractView { blocks: v.blocks.push(row_text(v.row)), row: Seq::empty(), ..v }
}

/// The effect of an end tag outside dropped elements.
pub open spec fn end_tag(v: ExtractView, name: Seq<char>) -> ExtractView {
    if heading_level(name) > 0 || name == "p"@ || name == "li"@ || name == "blockquote"@ {
        flush(v)
    } else if name == "ul"@ || name == "ol"@ {
        let f = flush(v);
        ExtractView { lists: if f.lists.len() > 0 { f.lists.drop_last() } else { f.lists }, ..f }
    } else if name == "pre"@ {
        let f = flush(v);
        ExtractView { pre: if f.pre > 0 { (f.pre - 1) as nat } else { 0 }, blocks: f.blocks.push("```"@), ..f }
    } else if name == "code"@ && v.pre == 0 {
        ExtractView { line: v.line.push('`'), ..v }
    } else if name == "a"@ {
        close_link(v)
    } else if name == "td"@ || name == "th"@ {
        ExtractView { row: v.row.push(trim(v.line)), line: Seq::empty(), in_cell: false, ..v }
    } else if name == "tr"@ && v.row.len() > 0 {
        end_row(v)
    } else {
        v
    }
}

/// The token as values.
pub open spec fn token_view(t: HtmlToken) -> (u8, Seq<char>, bool, Option<Seq<char>>) {
    match t {
        HtmlToken::StartTag { name, self_closing, href } => (
            0,
            name@,
            self_closing,
            match href {
                Some(h) => Some(h@),
                None => None,
            },
        ),
        HtmlToken::EndTag { name } => (1, name@, false, None),
        HtmlToken::Text(s) => (2, s@, false, None),
        HtmlToken::Other => (3, Seq::empty(), false, None),
    }
}

/// One token's effect on the state, and the raw-text state the tokenizer
/// must enter next, if any.
pub open spec fn step(v: ExtractView, t: HtmlToken) -> (ExtractView, Option<RawKind>) {
    let (kind, name, self_closing, href) = token_view(t);
    if kind == 0 {
        if is_dropped(name) {
            let raw = raw_kind(name);
            (if raw is Some || !self_closing { ExtractView { skip: v.skip + 1, ..v } } else { v }, raw)
        } else if v.skip > 0 {
            (v, None)
        } else {
            (start_tag(v, name, href), None)
        }
    } else if kind == 1 {
        if is_dropped(name) {
            (ExtractView { skip: if v.skip > 0 { (v.skip - 1) as nat } else { 0 }, ..v }, None)
        } else if v.skip > 0 {
            (v, None)
        } else {
            (end_tag(v, name), None)
        }
    } else if kind == 2 && v.skip == 0 {
        (push_text(v, name), None)
    } else {
        (v, None)
    }
}

/// The Markdown of a finished state: its blocks, one blank line apart, and
/// a final line break.
pub open spec fn finish_text(v: ExtractView) -> Seq<char> {
    join_map(flush(v).blocks, ident(), "\n\n"@) + "\n"@
}

/// A token can be processed without an arithmetic overflow or a link split
/// inside a character.
pub open spec fn admits(v: ExtractView, t: HtmlToken) -> bool {
    &&& v.skip < usize::MAX
    &&& v.pre < usize::MAX
    &&& (v.lists.len() > 0 && v.lists.last() is Ordered ==> v.lists.last()->Ordered_0 < u64::MAX)
    &&& (t matches HtmlToken::EndTag { name } && name@ == "a"@ && v.skip == 0 ==> match (v.link_start, v.link_href) {
        (Some(start), Some(_)) => start <= byte_len(v.line) ==> byte_boundary(v.line, start, 0) is Some,
        _ => true,
    })
}


/// The state after `tokens`, each admitted in turn; `None` when one is not.
pub open spec fn run(v: ExtractView, tokens: Seq<HtmlToken>) -> Option<ExtractView>
    decreases tokens.len(),
{
    if tokens.len() == 0 {
        Some(v)
    } else if !admits(v, tokens[0]) {
        None
    } else {
        run(step(v, tokens[0]).0, tokens.drop_first())
    }
}

// ------------------------------------------------------------------ laws

/// Law: a flush with nothing to write keeps the pending block prefix, so a
/// list marker survives `<li><p>…` and is spent on the item's text.
pub proof fn lemma_empty_flush_keeps_prefix(v: ExtractView)
    requires
        trim_end(v.line).len() == 0,
    ensures
        flush(v).prefix == v.prefix,
        flush(v).blocks == v.blocks,
{
}

/// Law: inside a dropped element, character data changes nothing.
pub proof fn lemma_dropped_text_is_invisible(v: ExtractView, t: HtmlToken)
    requires
        v.skip > 0,
        t is Text,
    ensures
        step(v, t).0 == v,
        step(v, t).1 is None,
{
}

/// Law: a `<script>` start tag, self-closing or not, enters script data and
/// is matched by its end tag, leaving the skip depth where it was.
pub proof fn lemma_script_is_balanced(v: ExtractView, open: HtmlToken, close: HtmlToken)
    requires
        open matches HtmlToken::StartTag { name, .. } && name@ == "script"@,
        close matches HtmlToken::EndTag { name } && name@ == "script"@,
    ensures
        step(v, open).1 == Some(RawKind::ScriptData),
        step(v, open).0.skip == v.skip + 1,
        step(step(v, open).0, close).0.skip == v.skip,
{
}

/// The machine limits every token is admitted under: room for one more
/// dropped and one more `<pre>` level, and an ordered list that can count on.
pub open spec fn within_limits(v: ExtractView) -> bool {
    &&& v.skip + 1 < usize::MAX
    &&& v.pre < usize::MAX
    &&& (v.lists.len() > 0 && v.lists.last() is Ordered ==> v.lists.last()->Ordered_0 < u64::MAX)
}

proof fn lemma_text_is_skipped(v: ExtractView, body: Seq<HtmlToken>, tail: Seq<HtmlToken>)
    requires
        v.skip > 0,
        v.skip < usize::MAX,
        v.pre < usize::MAX,
        (v.lists.len() > 0 && v.lists.last() is Ordered ==> v.lists.last()->Ordered_0 < u64::MAX),
        forall|i: int| 0 <= i < body.len() ==> #[trigger] body[i] is Text,
    ensures
        run(v, body + tail) == run(v, tail),
    decreases body.len(),
{
    if body.len() == 0 {
        assert(body + tail =~= tail);
    } else {
        let all = body + tail;
        assert(all[0] == body[0]);
        assert(all.drop_first() =~= body.drop_first() + tail);
        assert(body[0] is Text);
        assert(admits(v, all[0]));
        assert(step(v, all[0]).0 == v);
        assert forall|i: int| 0 <= i < body.drop_first().len() implies #[trigger] body.drop_first()[i] is Text by {
            assert(body.drop_first()[i] == body[i + 1]);
        }
        lemma_text_is_skipped(v, body.drop_first(), tail);
    }
}

/// Law: a dropped element (`script`, `style`, `svg`, `head`, `noscript` or
/// `template`) opened by a start tag, holding only character data and
/// closed by its end tag renders nothing: whatever follows renders as if
/// the element were not there.
pub proof fn lemma_dropped_element_renders_nothing(
    v: ExtractView,
    open: HtmlToken,
    body: Seq<HtmlToken>,
    close: HtmlToken,
    rest: Seq<HtmlToken>,
)
    requires
        within_limits(v),
        open matches HtmlToken::StartTag { name, self_closing, .. } && is_dropped(name@) && !self_closing,
        close matches HtmlToken::EndTag { name } && name@ == open->StartTag_name@,
        forall|i: int| 0 <= i < body.len() ==> #[trigger] body[i] is Text,
    ensures
        run(v, seq![open] + body + seq![close] + rest) == run(v, rest),
{
    let all = seq![open] + body + seq![close] + rest;
    let name = open->StartTag_name@;
    assert(name != "a"@) by {
        reveal_strlit("a");
        reveal_strlit("script");
        reveal_strlit("style");
        reveal_strlit("svg");
        reveal_strlit("head");
        reveal_strlit("noscript");
        reveal_strlit("template");
        assert(("a"@).len() == 1);
    }
    assert(all[0] == open);
    assert(admits(v, open));
    let w = step(v, open).0;
    assert(w == ExtractView { skip: v.skip + 1, ..v });
    assert(all.drop_first() =~= body + (seq![close] + rest));
    lemma_text_is_skipped(w, body, seq![close] + rest);
    let tail = seq![close] + rest;
    assert(tail[0] == close);
    assert(tail.drop_first() =~= rest);
    assert(admits(w, close));
    assert(step(w, close).0 =~= v);
}

/// Law: a document that begins with a dropped element (`script`, `style`,
/// `svg`, `head`, `noscript` or `template`) holding only character data
/// extracts to exactly what the rest of the document extracts to; both are
/// refused together, too. This is the start state of
/// [`extract_markdown_for_test`], with no limit left to assume.
pub proof fn lemma_dropped_element_extracts_nothing(
    open: HtmlToken,
    body: Seq<HtmlToken>,
    close: HtmlToken,
    rest: Seq<HtmlToken>,
)
    requires
        open matches HtmlToken::StartTag { name, self_closing, .. } && is_dropped(name@) && !self_closing,
        close matches HtmlToken::EndTag { name } && name@ == open->StartTag_name@,
        forall|i: int| 0 <= i < body.len() ==> #[trigger] body[i] is Text,
    ensures
        run(empty_state(), seq![open] + body + seq![close] + rest) == run(empty_state(), rest),
{
    assert(within_limits(empty_state()));
    lemma_dropped_element_renders_nothing(empty_state(), open, body, close, rest);
}

/// Law: a heading element `h1` … `h6` has the level of the digit in its
/// name, and outside dropped elements it begins a block prefixed by exactly
/// that many `#` characters and a space.
pub proof fn lemma_heading_level_is_its_digit(v: ExtractView, t: HtmlToken, d: char)
    requires
        '1' <= d <= '6',
        t matches HtmlToken::StartTag { name, .. } && name@ == seq!['h', d],
    ensures
        heading_level(seq!['h', d]) == (d as int) - ('0' as int),
        v.skip == 0 ==> step(v, t).0.prefix == Seq::new(((d as int) - ('0' as int)) as nat, |i: int| '#') + seq![' '],
        v.skip == 0 ==> step(v, t).1 is None,
{
    reveal_strlit("h1");
    reveal_strlit("h2");
    reveal_strlit("h3");
    reveal_strlit("h4");
    reveal_strlit("h5");
    reveal_strlit("h6");
    let name = seq!['h', d];
    if d == '1' {
        assert(name =~= "h1"@);
    } else if d == '2' {
        assert(name =~= "h2"@);
        assert(name != "h1"@);
    } else if d == '3' {
        assert(name =~= "h3"@);
        assert(name != "h1"@ && name != "h2"@);
    } else if d == '4' {
        assert(name =~= "h4"@);
        assert(name != "h1"@ && name != "h2"@ && name != "h3"@);
    } else if d == '5' {
        assert(name =~= "h5"@);
        assert(name != "h1"@ && name != "h2"@ && name != "h3"@ && name != "h4"@);
    } else {
        assert(d == '6');
        assert(name =~= "h6"@);
        assert(name != "h1"@ && name != "h2"@ && name != "h3"@ && name != "h4"@ && name != "h5"@);
    }
    reveal_strlit("script");
    reveal_strlit("style");
    reveal_strlit("svg");
    reveal_strlit("head");
    reveal_strlit("noscript");
    reveal_strlit("template");
    assert(("svg"@).len() == 3 && ("head"@).len() == 4 && ("style"@).len() == 5);
    assert(("script"@).len() == 6 && ("noscript"@).len() == 8 && ("template"@).len() == 8);
    assert(!is_dropped(name));
    reveal_strlit(" ");
    assert(hashes(heading_level(name)) + " "@ =~= Seq::new(((d as int) - ('0' as int)) as nat, |i: int| '#') + seq![' ']);
}

/// Law: the Markdown always ends in a line break.
pub proof fn lemma_finish_ends_line(v: ExtractView)
    ensures
        finish_text(v).len() > 0,
        finish_text(v).last() == '\n',
{
    let j = join_map(flush(v).blocks, ident(), "\n\n"@);
    assert(finish_text(v) == j + "\n"@);
    assert(("\n"@).len() == 1) by {
        reveal_strlit("\n");
    }
    assert(("\n"@)[0] == '\n') by {
        reveal_strlit("\n");
    }
}

// ------------------------------------------------------------- execution

fn collapse_into(line: &mut String, text: &str)
    ensures
        final(line)@ == collapse(old(line)@, text@, false),
{
    let ghost start = line@;
    let t = chars_of(text);
    let lc = chars_of(line.as_str());
    let mut last: Option<char> = if lc.len() > 0 {
        Some(lc[lc.len() - 1])
    } else {
        None
    };
    let mut pending = false;
    let mut i: usize = 0;
    proof {
        assert(t@.skip(0) =~= t@);
    }
    while i < t.len()
        invariant
            i <= t@.len(),
            collapse(start, text@, false) == collapse(line@, t@.skip(i as int), pending),
            t@ == text@,
            last == (if line@.len() > 0 {
                Some(line@.last())
            } else {
                None::<char>
            }),
        decreases t@.len() - i,
    {
        let c = t[i];
        proof {
            assert(t@.skip(i as int)[0] == c);
            assert(t@.skip(i as int).drop_first() =~= t@.skip(i + 1));
        }
        if is_whitespace(c) {
            pending = true;
        } else {
            let need = pending && match last {
                Some(l) => l != ' ',
                None => false,
            };
            if need {
                push_char(line, ' ');
            }
            push_char(line, c);
            last = Some(c);
            pending = false;
        }
        i = i + 1;
    }
    let need = pending && match last {
        Some(l) => l != ' ',
        None => false,
    };
    if need {
        push_char(line, ' ');
    }
    proof {
        assert(t@.skip(i as int) =~= Seq::<char>::empty());
    }
}

fn repeated(c: char, n: usize) -> (s: String)
    ensures
        s@ == Seq::new(n as nat, |i: int| c),
{
    let mut s = String::new();
    let mut k: usize = 0;
    while k < n
        invariant
            k <= n,
            s@ =~= Seq::new(k as nat, |i: int| c),
        decreases n - k,
    {
        push_char(&mut s, c);
        k = k + 1;
    }
    s
}

fn eq_name(name: &[char], t: &str) -> (b: bool)
    ensures
        b == (name@ == t@),
{
    chars_eq_str(name, t)
}

fn heading_level_of(name: &[char]) -> (n: usize)
    ensures
        n == heading_level(name@),
{
    if eq_name(name, "h1") {
        1
    } else if eq_name(name, "h2") {
        2
    } else if eq_name(name, "h3") {
        3
    } else if eq_name(name, "h4") {
        4
    } else if eq_name(name, "h5") {
        5
    } else if eq_name(name, "h6") {
        6
    } else {
        0
    }
}

proof fn lemma_byte_boundary_bounds(line: Seq<char>, b: nat, k: int)
    ensures
        byte_boundary(line, b, k) matches Some(j) ==> k <= j <= line.len(),
    decreases line.len() - k,
{
    if 0 <= k < line.len() {
        lemma_byte_boundary_bounds(line, b, k + 1);
    }
}

fn boundary_index(line: &[char], b: usize) -> (r: Option<usize>)
    ensures
        match byte_boundary(line@, b as nat, 0) {
            Some(k) => r == Some(k as usize),
            None => r is None,
        },
{
    let mut acc: usize = 0;
    let mut k: usize = 0;
    proof {
        assert(line@.take(0) =~= Seq::<char>::empty());
        assert(utf8_len(Seq::<char>::empty()) == 0) by {
            assert(vstd::utf8::encode_utf8(Seq::<char>::empty()) =~= Seq::<u8>::empty()) by {
                reveal_with_fuel(vstd::utf8::encode_utf8, 1);
            }
        }
    }
    loop
        invariant
            k <= line@.len(),
            acc <= b,
            acc == utf8_len(line@.take(k as int)),
            byte_boundary(line@, b as nat, 0) == byte_boundary(line@, b as nat, k as int),
        decreases line@.len() - k,
    {
        if acc == b {
            return Some(k);
        }
        if k == line.len() {
            return None;
        }
        let w = char_len_utf8(line[k]);
        proof {
            assert(line@.take(k + 1) =~= line@.take(k as int).push(line@[k as int]));
            lemma_utf8_len_push(line@.take(k as int), line@[k as int]);
        }
        if w > b - acc {
            proof {
                assert(utf8_len(line@.take(k + 1)) > b);
                assert(byte_boundary(line@, b as nat, k + 1) is None);
            }
            return None;
        }
        acc = acc + w;
        k = k + 1;
    }
}

impl Extractor {
    pub fn new() -> (e: Extractor)
        ensures
            e.state() == empty_state(),
    {
        let e = Extractor {
            blocks: Vec::new(),
            line: String::new(),
            prefix: String::new(),
            skip: 0,
            pre: 0,
            lists: Vec::new(),
            link_start: None,
            link_href: None,
            row: Vec::new(),
            in_cell: false,
        };
        proof {
            assert(seq_views(e.blocks@) =~= Seq::<Seq<char>>::empty());
            assert(seq_views(e.row@) =~= Seq::<Seq<char>>::empty());
            assert(e.state() =~= empty_state());
        }
        e
    }

    fn flush_line(&mut self)
        ensures
            final(self).state() == flush(old(self).state()),
    {
        let cs = chars_of(self.line.as_str());
        let body = trim_end_chars(cs.as_slice());
        let ghost blocks0 = self.blocks@;
        if body.len() > 0 {
            let mut block = owned(self.prefix.as_str());
            push_chars(&mut block, body.as_slice());
            let ghost bv = block@;
            self.blocks.push(block);
            self.prefix = String::new();
            proof {
                assert(seq_views(self.blocks@) =~= seq_views(blocks0).push(bv));
            }
        }
        self.line = String::new();
        proof {
            assert(self.state() =~= flush(old(self).state()));
        }
    }

    fn push_text(&mut self, text: &str)
        ensures
            final(self).state() == push_text(old(self).state(), text@),
    {
        if self.pre > 0 {
            push_str(&mut self.line, text);
        } else {
            collapse_into(&mut self.line, text);
        }
        proof {
            assert(self.state() =~= push_text(old(self).state(), text@));
        }
    }

    fn begin_block(&mut self, prefix: String)
        ensures
            final(self).state() == begin_block(old(self).state(), prefix@),
    {
        self.flush_line();
        self.prefix = prefix;
        proof {
            assert(self.state() =~= begin_block(old(self).state(), prefix@));
        }
    }

    fn list_marker(&mut self) -> (m: String)
        requires
            old(self).lists@.len() > 0 && old(self).lists@.last() is Ordered ==> old(self).lists@.last()->Ordered_0
                < u64::MAX,
        ensures
            m@ == list_marker(old(self).state()).0,
            final(self).state() == list_marker(old(self).state()).1,
    {
        let n = self.lists.len();
        if n == 0 {
            return owned("- ");
        }
        let depth = n - 1;
        let mut m = String::new();
        let mut d: usize = 0;
        while d < depth
            invariant
                d <= depth,
                m@ =~= indent(d as nat),
            decreases depth - d,
        {
            push_char(&mut m, ' ');
            push_char(&mut m, ' ');
            d = d + 1;
        }
        match self.lists[depth] {
            ListKind::Ordered(c) => {
                let next = c + 1;
                self.lists.set(depth, ListKind::Ordered(next));
                push_decimal(&mut m, next);
                push_str(&mut m, ". ");
            },
            ListKind::Unordered => {
                push_str(&mut m, "- ");
            },
        }
        proof {
            assert(self.state() =~= list_marker(old(self).state()).1);
        }
        m
    }

    fn start_tag(&mut self, name: &[char], href: &Option<String>)
        requires
            old(self).pre < usize::MAX,
            old(self).lists@.len() > 0 && old(self).lists@.last() is Ordered ==> old(self).lists@.last()->Ordered_0
                < u64::MAX,
        ensures
            final(self).state() == start_tag(
                old(self).state(),
                name@,
                match *href {
                    Some(h) => Some(h@),
                    None => None,
                },
            ),
    {
        let level = heading_level_of(name);
        if level > 0 {
            let mut p = repeated('#', level);
            push_str(&mut p, " ");
            self.begin_block(p);
        } else if eq_name(name, "p") || eq_name(name, "div") || eq_name(name, "section") || eq_name(name, "article")
            || eq_name(name, "main") || eq_name(name, "header") || eq_name(name, "footer") || eq_name(
            name,
            "blockquote",
        ) {
            self.flush_line();
        } else if eq_name(name, "br") {
            push_str(&mut self.line, "  \n");
            proof {
                assert(self.state() =~= ExtractView { line: old(self).state().line + "  \n"@, ..old(self).state() });
            }
        } else if eq_name(name, "hr") {
            self.flush_line();
            let ghost b0 = self.blocks@;
            self.blocks.push(owned("---"));
            proof {
                assert(seq_views(self.blocks@) =~= seq_views(b0).push("---"@));
            }
        } else if eq_name(name, "ul") {
            self.flush_line();
            self.lists.push(ListKind::Unordered);
        } else if eq_name(name, "ol") {
            self.flush_line();
            self.lists.push(ListKind::Ordered(0));
        } else if eq_name(name, "li") {
            let marker = self.list_marker();
            self.begin_block(marker);
        } else if eq_name(name, "pre") {
            self.flush_line();
            self.pre = self.pre + 1;
            let ghost b0 = self.blocks@;
            self.blocks.push(owned("```"));
            proof {
                assert(seq_views(self.blocks@) =~= seq_views(b0).push("```"@));
            }
        } else if eq_name(name, "code") && self.pre == 0 {
            push_char(&mut self.line, '`');
        } else if eq_name(name, "a") {
            self.link_start = Some(str_byte_len(self.line.as_str()));
            self.link_href = match href {
                Some(h) => Some(string_of(trim_chars(chars_of(h.as_str()).as_slice()).as_slice())),
                None => None,
            };
        } else if eq_name(name, "tr") {
            self.flush_line();
            let ghost v = self.state();
            self.row = Vec::new();
            proof {
                assert(seq_views(self.row@) =~= Seq::<Seq<char>>::empty());
            }
        } else if eq_name(name, "td") || eq_name(name, "th") {
            self.in_cell = true;
            self.line = String::new();
        }
        proof {
            assert(self.state() =~= start_tag(
                old(self).state(),
                name@,
                match *href {
                    Some(h) => Some(h@),
                    None => None,
                },
            ));
        }
    }

    fn close_link(&mut self)
        requires
            match (old(self).state().link_start, old(self).state().link_href) {
                (Some(start), Some(_)) => start <= byte_len(old(self).line@) ==> byte_boundary(
                    old(self).line@,
                    start,
                    0,
                ) is Some,
                _ => true,
            },
        ensures
            final(self).state() == close_link(old(self).state()),
    {
        let start = self.link_start.take();
        let href = self.link_href.take();
        match (start, href) {
            (Some(s), Some(h)) => {
                if s <= str_byte_len(self.line.as_str()) {
                    let cs = chars_of(self.line.as_str());
                    proof {
                        lemma_byte_boundary_bounds(cs@, s as nat, 0);
                    }
                    match boundary_index(cs.as_slice(), s) {
                        Some(k) => {
                            let head = sub_chars(cs.as_slice(), 0, k);
                            let tail = sub_chars(cs.as_slice(), k, cs.len());
                            let text = trim_chars(tail.as_slice());
                            let mut line = string_of(head.as_slice());
                            push_str(&mut line, "[");
                            if text.len() == 0 {
                                push_str(&mut line, h.as_str());
                            } else {
                                push_chars(&mut line, text.as_slice());
                            }
                            push_str(&mut line, "](");
                            push_str(&mut line, h.as_str());
                            push_str(&mut line, ")");
                            proof {
                                assert(tail@ =~= cs@.skip(k as int));
                                assert(line@ =~= cs@.take(k as int) + link_text(cs@.skip(k as int), h@));
                            }
                            self.line = line;
                        },
                        None => {},
                    }
                }
            },
            _ => {},
        }
        proof {
            assert(self.state() =~= close_link(old(self).state()));
        }
    }

    fn end_row(&mut self)
        ensures
            final(self).state() == if old(self).row@.len() > 0 {
                end_row(old(self).state())
            } else {
                old(self).state()
            },
    {
        if self.row.len() > 0 {
            let ghost cells = seq_views(self.row@);
            let mut s = owned("| ");
            let ghost start = s@;
            let mut i: usize = 0;
            while i < self.row.len()
                invariant
                    i <= self.row@.len(),
                    cells == seq_views(self.row@),
                    s@ == start + join_map(cells.take(i as int), ident(), " | "@),
                decreases self.row@.len() - i,
            {
                let ghost before = s@;
                if i > 0 {
                    push_str(&mut s, " | ");
                }
                let ghost mid = s@;
                push_str(&mut s, self.row[i].as_str());
                proof {
                    lemma_join_map_step(cells, ident(), " | "@, i as int);
                    assert(mid =~= before + (if i > 0 { " | "@ } else { Seq::<char>::empty() }));
                    assert(s@ =~= start + join_map(cells.take(i + 1), ident(), " | "@));
                }
                i = i + 1;
            }
            push_str(&mut s, " |");
            proof {
                assert(cells.take(i as int) =~= cells);
                assert(s@ =~= row_text(cells));
            }
            let ghost b0 = self.blocks@;
            let ghost sv = s@;
            self.blocks.push(s);
            self.row = Vec::new();
            proof {
                assert(seq_views(self.blocks@) =~= seq_views(b0).push(sv));
                assert(seq_views(self.row@) =~= Seq::<Seq<char>>::empty());
            }
        }
        proof {
            if old(self).row@.len() > 0 {
                assert(self.state() =~= end_row(old(self).state()));
            } else {
                assert(self.state() =~= old(self).state());
            }
        }
    }

    fn end_tag(&mut self, name: &[char])
        requires
            name@ == "a"@ ==> match (old(self).state().link_start, old(self).state().link_href) {
                (Some(start), Some(_)) => start <= byte_len(old(self).line@) ==> byte_boundary(
                    old(self).line@,
                    start,
                    0,
                ) is Some,
                _ => true,
            },
        ensures
            final(self).state() == end_tag(old(self).state(), name@),
    {
        if heading_level_of(name) > 0 || eq_name(name, "p") || eq_name(name, "li") || eq_name(name, "blockquote") {
            self.flush_line();
        } else if eq_name(name, "ul") || eq_name(name, "ol") {
            self.flush_line();
            self.lists.pop();
            proof {
                assert(self.state() =~= end_tag(old(self).state(), name@));
            }
        } else if eq_name(name, "pre") {
            self.flush_line();
            self.pre = self.pre.saturating_sub(1);
            let ghost b0 = self.blocks@;
            self.blocks.push(owned("```"));
            proof {
                assert(seq_views(self.blocks@) =~= seq_views(b0).push("```"@));
            }
        } else if eq_name(name, "code") && self.pre == 0 {
            push_char(&mut self.line, '`');
        } else if eq_name(name, "a") {
            self.close_link();
        } else if eq_name(name, "td") || eq_name(name, "th") {
            let cell = string_of(trim_chars(chars_of(self.line.as_str()).as_slice()).as_slice());
            let ghost r0 = self.row@;
            let ghost cv = cell@;
            self.row.push(cell);
            self.line = String::new();
            self.in_cell = false;
            proof {
                assert(seq_views(self.row@) =~= seq_views(r0).push(cv));
            }
        } else if eq_name(name, "tr") {
            self.end_row();
        }
        proof {
            assert(self.state() =~= end_tag(old(self).state(), name@));
        }
    }

    /// Whether `token` can be processed: no depth counter or list number
    /// would overflow, and a closing link starts on a character boundary.
    pub fn admits_token(&self, token: &HtmlToken) -> (b: bool)
        ensures
            b == admits(self.state(), *token),
    {
        if self.skip == usize::MAX || self.pre == usize::MAX {
            return false;
        }
        let n = self.lists.len();
        if n > 0 {
            match self.lists[n - 1] {
                ListKind::Ordered(c) => {
                    if c == u64::MAX {
                        return false;
                    }
                },
                ListKind::Unordered => {},
            }
        }
        match token {
            HtmlToken::EndTag { name } => {
                if self.skip == 0 && eq_name(chars_of(name.as_str()).as_slice(), "a") {
                    match (self.link_start, &self.link_href) {
                        (Some(start), Some(_)) => {
                            if start <= str_byte_len(self.line.as_str()) {
                                let cs = chars_of(self.line.as_str());
                                return boundary_index(cs.as_slice(), start).is_some();
                            }
                        },
                        _ => {},
                    }
                }
                true
            },
            _ => true,
        }
    }

    /// Processes one token and returns the raw-text state the tokenizer must
    /// enter for the body of a `<script>` or `<style>` element.
    pub fn process(&mut self, token: &HtmlToken) -> (r: Option<RawKind>)
        requires
            admits(old(self).state(), *token),
        ensures
            final(self).state() == step(old(self).state(), *token).0,
            r == step(old(self).state(), *token).1,
    {
        match token {
            HtmlToken::StartTag { name, self_closing, href } => {
                let n = chars_of(name.as_str());
                if is_dropped_name(n.as_slice()) {
                    let raw = raw_kind_of(n.as_slice());
                    if raw.is_some() || !*self_closing {
                        self.skip = self.skip + 1;
                    }
                    proof {
                        assert(self.state() =~= step(old(self).state(), *token).0);
                    }
                    return raw;
                }
                if self.skip > 0 {
                    return None;
                }
                self.start_tag(n.as_slice(), href);
                None
            },
            HtmlToken::EndTag { name } => {
                let n = chars_of(name.as_str());
                if is_dropped_name(n.as_slice()) {
                    self.skip = self.skip.saturating_sub(1);
                    proof {
                        assert(self.state() =~= step(old(self).state(), *token).0);
                    }
                    return None;
                }
                if self.skip > 0 {
                    return None;
                }
                self.end_tag(n.as_slice());
                None
            },
            HtmlToken::Text(text) => {
                if self.skip == 0 {
                    self.push_text(text.as_str());
                }
                None
            },
            HtmlToken::Other => None,
        }
    }

    /// The Markdown of everything processed: the blocks one blank line apart,
    /// ending in a line break.
    pub fn finish(self) -> (s: String)
        ensures
            s@ == finish_text(self.state()),
    {
        let mut me = self;
        me.flush_line();
        let ghost bs = seq_views(me.blocks@);
        let mut out = String::new();
        let mut i: usize = 0;
        while i < me.blocks.len()
            invariant
                i <= me.blocks@.len(),
                bs == seq_views(me.blocks@),
                out@ == join_map(bs.take(i as int), ident(), "\n\n"@),
            decreases me.blocks@.len() - i,
        {
            let ghost before = out@;
            if i > 0 {
                push_str(&mut out, "\n\n");
            }
            let ghost mid = out@;
            push_str(&mut out, me.blocks[i].as_str());
            proof {
                lemma_join_map_step(bs, ident(), "\n\n"@, i as int);
                assert(mid =~= before + (if i > 0 { "\n\n"@ } else { Seq::<char>::empty() }));
                assert(out@ =~= join_map(bs.take(i + 1), ident(), "\n\n"@));
            }
            i = i + 1;
        }
        proof {
            assert(bs.take(i as int) =~= bs);
        }
        push_str(&mut out, "\n");
        out
    }
}

fn is_dropped_name(name: &[char]) -> (b: bool)
    ensures
        b == is_dropped(name@),
{
    eq_name(name, "script") || eq_name(name, "style") || eq_name(name, "svg") || eq_name(name, "head")
        || eq_name(name, "noscript") || eq_name(name, "template")
}

fn raw_kind_of(name: &[char]) -> (r: Option<RawKind>)
    ensures
        r == raw_kind(name@),
{
    if eq_name(name, "script") {
        Some(RawKind::ScriptData)
    } else if eq_name(name, "style") {
        Some(RawKind::Rawtext)
    } else {
        None
    }
}

/// The reader-mode Markdown of a token stream, or `None` when some token
/// cannot be admitted (see [`Extractor::admits_token`]).
pub fn extract_markdown_for_test(tokens: &[HtmlToken]) -> (r: Option<String>)
    ensures
        match run(empty_state(), tokens@) {
            Some(v) => r matches Some(s) && s@ == finish_text(v),
            None => r is None,
        },
{
    let mut ex = Extractor::new();
    let mut i: usize = 0;
    proof {
        assert(tokens@.skip(0) =~= tokens@);
    }
    while i < tokens.len()
        invariant
            i <= tokens@.len(),
            run(empty_state(), tokens@) == run(ex.state(), tokens@.skip(i as int)),
        decreases tokens@.len() - i,
    {
        proof {
            assert(tokens@.skip(i as int)[0] == tokens@[i as int]);
            assert(tokens@.skip(i as int).drop_first() =~= tokens@.skip(i + 1));
        }
        if !ex.admits_token(&tokens[i]) {
            return None;
        }
        ex.process(&tokens[i]);
        i = i + 1;
    }
    proof {
        assert(tokens@.skip(i as int).len() == 0);
    }
    Some(ex.finish())
}

} // verus!
