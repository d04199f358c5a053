//! The Markdown block parser: turns lines into headings, paragraphs, lists,
//! block quotes, code blocks and rules.
use vstd::prelude::*;
use crate::config::Configuration;
use crate::context::Context;
use crate::embed::{parse_usize, parse_usize_chars};
use crate::store::ContentStore;
use crate::inline::format_inline_chars;
use crate::text::{
    chars_of, copy_chars, is_ascii_ws, is_digit, is_ws, lemma_nonws_concat, lemma_nonws_drop_marker,
    lemma_nonws_push, lemma_nonws_sub, nonws, push_all, push_decimal, push_range, push_str, slice,
    trim, trimmed,
};

verus! {

/// The kind of a list, told by its item marker.
#[derive(PartialEq, Eq, Structural, Clone, Copy, Debug)]
pub enum ListKind {
    UnorderedPlus,
    UnorderedDash,
    UnorderedAsterisk,
    OrderedDot,
    OrderedBracket,
}

/// Reads the marker of an ordered item from index `i` on: the digits met,
/// the kind the last `.` or `)` set, and whether whitespace followed once a
/// kind was set.
pub open spec fn ordered_scan(s: Seq<char>, i: int, digits: Seq<char>, kind: Option<ListKind>) -> (Seq<char>, Option<ListKind>, bool)
    decreases s.len() - i,
{
    if i < 0 || i >= s.len() {
        (digits, kind, false)
    } else {
        let c = s[i];
        if is_digit(c) {
            ordered_scan(s, i + 1, digits.push(c), kind)
        } else if c == ')' {
            ordered_scan(s, i + 1, digits, Some(ListKind::OrderedBracket))
        } else if c == '.' {
            ordered_scan(s, i + 1, digits, Some(ListKind::OrderedDot))
        } else if is_ascii_ws(c) && kind is Some {
            (digits, kind, true)
        } else {
            (digits, kind, false)
        }
    }
}

/// The list item that a line (without its indentation) starts, if any: its
/// kind, its number, and how many characters its marker takes. `* `, `+ `
/// and `- ` start unordered items (all of one kind when `ignore_kind`); a
/// number followed by `.` or `)` and whitespace starts an ordered one.
pub open spec fn list_marker(s: Seq<char>, ignore_kind: bool) -> Option<(ListKind, nat, nat)> {
    if s.len() >= 2 && s[1] == ' ' && s[0] == '*' {
        Some((ListKind::UnorderedAsterisk, 0, 2))
    } else if s.len() >= 2 && s[1] == ' ' && s[0] == '+' {
        Some((if ignore_kind { ListKind::UnorderedAsterisk } else { ListKind::UnorderedPlus }, 0, 2))
    } else if s.len() >= 2 && s[1] == ' ' && s[0] == '-' {
        Some((if ignore_kind { ListKind::UnorderedAsterisk } else { ListKind::UnorderedDash }, 0, 2))
    } else {
        let (digits, kind, space) = ordered_scan(s, 0, Seq::empty(), None);
        if kind is Some && space && parse_usize(digits) is Some {
            Some((kind->0, parse_usize(digits)->0, digits.len() + 1))
        } else {
            None
        }
    }
}

pub open spec fn opt_marker(o: Option<(ListKind, usize, usize)>) -> Option<(ListKind, nat, nat)> {
    match o {
        Some((k, n, off)) => Some((k, n as nat, off as nat)),
        None => None,
    }
}

/// The list item that the line `s`, without its indentation, starts.
pub fn detect_list_type(s: &Vec<char>, ignore_kind: bool) -> (r: Option<(ListKind, usize, usize)>)
    ensures
        opt_marker(r) == list_marker(s@, ignore_kind),
        r matches Some((k, n, off)) ==> 1 <= off <= s.len(),
{
    if s.len() >= 2 && s[1] == ' ' && s[0] == '*' {
        return Some((ListKind::UnorderedAsterisk, 0, 2));
    }
    if s.len() >= 2 && s[1] == ' ' && s[0] == '+' {
        return Some((if ignore_kind { ListKind::UnorderedAsterisk } else { ListKind::UnorderedPlus }, 0, 2));
    }
    if s.len() >= 2 && s[1] == ' ' && s[0] == '-' {
        return Some((if ignore_kind { ListKind::UnorderedAsterisk } else { ListKind::UnorderedDash }, 0, 2));
    }
    let mut digits: Vec<char> = Vec::new();
    let mut kind: Option<ListKind> = None;
    let mut space = false;
    let mut i: usize = 0;
    while i < s.len()
        invariant_except_break
            i <= s.len(),
            !space,
            ordered_scan(s@, 0, Seq::empty(), None) == ordered_scan(s@, i as int, digits@, kind),
            digits@.len() <= i,
        ensures
            ordered_scan(s@, 0, Seq::empty(), None) == (digits@, kind, space),
            digits@.len() <= i <= s.len(),
            space ==> i < s.len(),
        decreases s.len() - i,
    {
        let c = s[i];
        if '0' <= c && c <= '9' {
            digits.push(c);
        } else if c == ')' {
            kind = Some(ListKind::OrderedBracket);
        } else if c == '.' {
            kind = Some(ListKind::OrderedDot);
        } else if crate::text::is_ascii_whitespace(c) && kind.is_some() {
            space = true;
            break;
        } else {
            break;
        }
        i = i + 1;
    }
    if let Some(k) = kind {
        if space {
            if let Some(n) = parse_usize_chars(&digits) {
                return Some((k, n, digits.len() + 1));
            }
        }
    }
    None
}

/// A rule: at least three characters, all `*`, all `_` or all `-`.
pub open spec fn is_rule(t: Seq<char>) -> bool {
    t.len() >= 3 && (
        (forall|k: int| 0 <= k < t.len() ==> t[k] == '*')
        || (forall|k: int| 0 <= k < t.len() ==> t[k] == '_')
        || (forall|k: int| 0 <= k < t.len() ==> t[k] == '-'))
}

fn all_same(t: &Vec<char>, c: char) -> (r: bool)
    ensures
        r == forall|k: int| 0 <= k < t.len() ==> t@[k] == c,
{
    let mut i: usize = 0;
    while i < t.len()
        invariant
            i <= t.len(),
            forall|k: int| 0 <= k < i ==> t@[k] == c,
        decreases t.len() - i,
    {
        if t[i] != c {
            return false;
        }
        i = i + 1;
    }
    true
}

/// Whether the trimmed line `t` is a rule.
pub fn rule_line(t: &Vec<char>) -> (r: bool)
    ensures
        r == is_rule(t@),
{
    t.len() >= 3 && (all_same(t, '*') || all_same(t, '_') || all_same(t, '-'))
}

/// The number of `#` characters that `t` starts with.
pub open spec fn leading_hashes(t: Seq<char>) -> nat
    decreases t.len(),
{
    if t.len() > 0 && t[0] == '#' {
        1 + leading_hashes(t.drop_first())
    } else {
        0
    }
}

pub proof fn lemma_leading_hashes_bound(t: Seq<char>)
    ensures
        leading_hashes(t) <= t.len(),
    decreases t.len(),
{
    if t.len() > 0 && t[0] == '#' {
        lemma_leading_hashes_bound(t.drop_first());
    }
}

/// The number of `#` characters that `t` starts with.
pub fn count_leading_hashes(t: &Vec<char>) -> (r: usize)
    ensures
        r == leading_hashes(t@),
        r <= t.len(),
{
    let mut i: usize = 0;
    assert(t@.subrange(0, t@.len() as int) =~= t@);
    while i < t.len() && t[i] == '#'
        invariant
            i <= t.len(),
            leading_hashes(t@) == i + leading_hashes(t@.subrange(i as int, t@.len() as int)),
        decreases t.len() - i,
    {
        assert(t@.subrange(i as int, t@.len() as int).drop_first() =~= t@.subrange(i + 1, t@.len() as int));
        i = i + 1;
    }
    if i < t.len() {
        assert(t@.subrange(i as int, t@.len() as int)[0] == t@[i as int]);
    }
    i
}

/// The block being built, as the specification sees it.
pub enum BlockV {
    Nothing,
    Paragraph(Seq<char>),
    CodeIndented(Seq<char>),
    CodeFenced(nat, Seq<char>),
    Quote(Seq<char>),
    List(nat, ListKind, bool, Seq<Seq<char>>),
}

/// The state between two lines: the open block, the HTML so far, and
/// whether the last line was blank.
pub type MdState = (BlockV, Seq<char>, bool);

/// `piece` appended to the last item of a list.
pub open spec fn extend_last(b: BlockV, piece: Seq<char>) -> BlockV {
    match b {
        BlockV::List(i, k, u, items) => if items.len() > 0 {
            BlockV::List(i, k, u, items.update(items.len() - 1, items.last() + piece))
        } else {
            b
        },
        _ => b,
    }
}

/// A list whose items are wrapped in paragraphs.
pub open spec fn with_paragraphs(b: BlockV) -> BlockV {
    match b {
        BlockV::List(i, k, _, items) => BlockV::List(i, k, true, items),
        _ => b,
    }
}

/// The item of a line whose marker takes `off` characters of the trimmed line `tl`.
pub open spec fn item_of(tl: Seq<char>, off: nat) -> Seq<char> {
    (if off <= tl.len() { tl.subrange(off as int, tl.len() as int) } else { Seq::empty() }).push('\n')
}

/// `n` spaces.
pub open spec fn spaces(n: nat) -> Seq<char> {
    Seq::new(n, |i: int| ' ')
}

/// The tag that opens a list of kind `kind` whose first number is `num`.
pub open spec fn list_open_tag(kind: ListKind, num: nat) -> Seq<char> {
    if is_unordered(kind) {
        "<ul>"@
    } else {
        "<ol"@ + (if num != 1 { " start=\""@ + crate::text::decimal(num) + "\""@ } else { Seq::empty() }) + ">"@
    }
}

/// What a nested embed pass needs: the files, the depth limit, the depth
/// and the variables.
pub type ResolveEnv = (Seq<(Seq<char>, Seq<char>)>, int, int, Map<Seq<char>, Seq<char>>);

/// The HTML of text nested in a quote or a list item: its `[## … ]` embeds
/// resolved again at the same depth while `budget` lasts, then parsed as
/// Markdown of its own. Past the budget the text is parsed as it stands.
pub open spec fn nested_spec(
    c: Seq<char>, tag_open: Seq<char>, tag_close: Seq<char>, ignore_kind: bool, env: ResolveEnv, budget: nat, limit: nat,
) -> Seq<char>
    decreases 257 - env.2, 1int, budget, limit, 0int, 0int,
{
    if budget > 0 {
        md_spec(crate::embed::resolve_spec(env.0, env.1, c, env.2, env.3, seq!['[', '#', '#'], ']'),
            tag_open, tag_close, ignore_kind, env, (budget - 1) as nat)
    } else if nonws(c) < limit {
        md_spec(c, tag_open, tag_close, ignore_kind, env, 0)
    } else {
        Seq::empty()
    }
}

/// The HTML of the items of a list, each parsed again as Markdown, wrapped
/// in paragraphs when `use_p`.
pub open spec fn items_html(items: Seq<Seq<char>>, use_p: bool, env: ResolveEnv, budget: nat, limit: nat) -> Seq<char>
    decreases 257 - env.2, 1int, budget, limit, 0int, items.len(),
{
    if items.len() == 0 {
        Seq::empty()
    } else {
        let inner = if use_p {
            nested_spec(items.last(), "<p>"@, "</p>"@, true, env, budget, limit)
        } else {
            nested_spec(items.last(), Seq::empty(), Seq::empty(), true, env, budget, limit)
        };
        items_html(items.drop_last(), use_p, env, budget, limit) + "<li>"@ + inner + "</li>"@
    }
}

/// The HTML that closing the block `b` adds.
pub open spec fn flush_spec(b: BlockV, tag_close: Seq<char>, env: ResolveEnv, budget: nat, limit: nat) -> Seq<char>
    decreases 257 - env.2, 1int, budget, limit, 1int, 0int,
{
    match b {
        BlockV::Nothing => Seq::empty(),
        BlockV::Paragraph(c) => crate::inline::format_inline(c) + tag_close,
        BlockV::CodeIndented(c) => c + "</code></pre>"@,
        BlockV::CodeFenced(_, c) => c + "</code></pre>"@,
        BlockV::Quote(c) => nested_spec(c, "<p>"@, "</p>"@, false, env, budget, limit) + "</blockquote>"@,
        BlockV::List(_, kind, use_p, items) => items_html(items, use_p, env, budget, limit)
            + if is_unordered(kind) { "</ul>"@ } else { "</ol>"@ },
    }
}

/// A line while a list is open: whether the list takes it, and the state after.
pub open spec fn list_line_spec(
    st: MdState, line: Seq<char>, a: nat, lnp: Seq<char>, tl: Seq<char>,
    tag_close: Seq<char>, ignore_kind: bool, env: ResolveEnv, budget: nat, limit: nat,
) -> (bool, MdState)
    decreases 257 - env.2, 1int, budget, limit, 2int, 0int,
{
    let (b, out, prev) = st;
    if tl.len() == 0 {
        (true, (extend_last(b, seq!['\n']), out, true))
    } else {
        match list_marker(lnp, ignore_kind) {
            Some((kind, _, off)) => {
                let b1 = if prev { with_paragraphs(b) } else { b };
                match b1 {
                    BlockV::List(indent, list_kind, _, _) => {
                        if indent < usize::MAX && a <= indent + 1 {
                            if kind == list_kind {
                                (true, (add_item(b1, item_of(tl, off), a), out, false))
                            } else {
                                (false, (BlockV::Nothing, out + flush_spec(b1, tag_close, env, budget, limit), prev))
                            }
                        } else {
                            let piece = (if indent <= line.len() {
                                line.subrange(indent as int, line.len() as int)
                            } else {
                                Seq::empty()
                            }).push('\n');
                            (true, (extend_last(b1, piece), out, false))
                        }
                    },
                    _ => (false, st),
                }
            },
            None => if prev {
                (false, (BlockV::Nothing, out + flush_spec(b, tag_close, env, budget, limit), prev))
            } else {
                (false, st)
            },
        }
    }
}

/// A list with one more item, its indentation now `indent`.
pub open spec fn add_item(b: BlockV, item: Seq<char>, indent: nat) -> BlockV {
    match b {
        BlockV::List(_, k, u, items) => BlockV::List(indent, k, u, items.push(item)),
        _ => b,
    }
}

/// A line that may start a list.
pub open spec fn list_start_spec(
    st: MdState, a: nat, lnp: Seq<char>, tl: Seq<char>, tag_close: Seq<char>, ignore_kind: bool, env: ResolveEnv,
    budget: nat, limit: nat,
) -> (bool, MdState)
    decreases 257 - env.2, 1int, budget, limit, 2int, 0int,
{
    match list_marker(lnp, ignore_kind) {
        Some((kind, num, off)) => (true, (
            BlockV::List(a, kind, false, seq![item_of(tl, off)]),
            st.1 + flush_spec(st.0, tag_close, env, budget, limit) + list_open_tag(kind, num),
            false,
        )),
        None => (false, st),
    }
}

/// A line of code: indented by four spaces, a fence, or inside a fenced block.
pub open spec fn code_line_spec(
    st: MdState, line: Seq<char>, a: nat, lnp: Seq<char>, tl: Seq<char>, tag_close: Seq<char>, env: ResolveEnv,
    budget: nat, limit: nat,
) -> (bool, MdState)
    decreases 257 - env.2, 1int, budget, limit, 2int, 0int,
{
    let (b, out, prev) = st;
    if crate::text::starts_with(line, "    "@) && !(b is CodeFenced) && !(b is List) {
        let rest = line.subrange(4, line.len() as int);
        match b {
            BlockV::CodeIndented(c) => (true, (BlockV::CodeIndented(c + seq!['\n'] + rest), out, false)),
            _ => (true, (BlockV::CodeIndented(rest), out + flush_spec(b, tag_close, env, budget, limit) + "<pre><code>"@, false)),
        }
    } else if crate::text::starts_with(lnp, "```"@) && !(b is CodeFenced) {
        let suffix = trim(lnp.subrange(3, lnp.len() as int));
        let open = if suffix.len() == 0 {
            "<pre><code>"@
        } else {
            "<pre><code class=\"language-"@ + suffix + "\">"@
        };
        (true, (BlockV::CodeFenced(a, Seq::empty()), out + flush_spec(b, tag_close, env, budget, limit) + open, false))
    } else if crate::text::starts_with(lnp, "```"@) && tl == "```"@ && (b is CodeFenced) {
        (true, (BlockV::Nothing, out + flush_spec(b, tag_close, env, budget, limit), false))
    } else {
        match b {
            BlockV::CodeFenced(fi, c) => {
                let extra: nat = if a > fi { (a - fi) as nat } else { 0 };
                let piece = (if c.len() > 0 { seq!['\n'] } else { Seq::empty() }) + spaces(extra) + tl;
                (true, (BlockV::CodeFenced(fi, c + piece), out, false))
            },
            _ => (false, st),
        }
    }
}

/// A line that is blank, a rule, a heading, part of a quote or paragraph text.
pub open spec fn text_line_spec(
    st: MdState, tl: Seq<char>, tag_open: Seq<char>, tag_close: Seq<char>, env: ResolveEnv, budget: nat, limit: nat,
) -> MdState
    decreases 257 - env.2, 1int, budget, limit, 2int, 0int,
{
    let (b, out, prev) = st;
    if tl.len() == 0 {
        (BlockV::Nothing, out + flush_spec(b, tag_close, env, budget, limit), true)
    } else if is_rule(tl) {
        (BlockV::Nothing, out + flush_spec(b, tag_close, env, budget, limit) + "</hr>"@, false)
    } else if 0 < leading_hashes(tl) < 6 {
        let h = leading_hashes(tl);
        let rest = tl.subrange(h as int, tl.len() as int);
        (BlockV::Nothing, out + flush_spec(b, tag_close, env, budget, limit) + "<h"@ + crate::text::decimal(h) + ">"@
            + crate::inline::format_inline(trim(rest)) + "</h"@ + crate::text::decimal(h) + ">"@, false)
    } else if tl[0] == '>' {
        let piece = tl.subrange(1, tl.len() as int).push('\n');
        match b {
            BlockV::Quote(c) => (BlockV::Quote(c + piece), out, false),
            _ => (BlockV::Quote(piece), out + flush_spec(b, tag_close, env, budget, limit) + "<blockquote>"@, false),
        }
    } else {
        let piece = seq![' '] + tl;
        match b {
            BlockV::Paragraph(c) => (BlockV::Paragraph(c + piece), out, false),
            BlockV::List(_, _, _, _) => (extend_last(b, piece), out, false),
            _ => (BlockV::Paragraph(tl), out + flush_spec(b, tag_close, env, budget, limit) + tag_open, false),
        }
    }
}

/// The state after one line.
pub open spec fn line_spec(
    st: MdState, line: Seq<char>, tag_open: Seq<char>, tag_close: Seq<char>, ignore_kind: bool, env: ResolveEnv,
    budget: nat, limit: nat,
) -> MdState
    decreases 257 - env.2, 1int, budget, limit, 3int, 0int,
{
    let lnp = crate::text::trim_start(line);
    let tl = trim(line);
    let a = crate::text::lead_ws(line);
    let (t1, s1) = if st.0 is List {
        list_line_spec(st, line, a, lnp, tl, tag_close, ignore_kind, env, budget, limit)
    } else {
        (false, st)
    };
    if t1 {
        s1
    } else {
        let (t2, s2) = if !(s1.0 is List) {
            list_start_spec(s1, a, lnp, tl, tag_close, ignore_kind, env, budget, limit)
        } else {
            (false, s1)
        };
        if t2 {
            s2
        } else {
            let (t3, s3) = code_line_spec(s2, line, a, lnp, tl, tag_close, env, budget, limit);
            if t3 { s3 } else { text_line_spec(s3, tl, tag_open, tag_close, env, budget, limit) }
        }
    }
}

/// The index of the first line feed at or after `pos`, or the length.
pub open spec fn next_newline(text: Seq<char>, pos: int) -> int
    decreases text.len() - pos,
{
    if pos < 0 || pos >= text.len() {
        text.len() as int
    } else if text[pos] == '\n' {
        pos
    } else {
        next_newline(text, pos + 1)
    }
}

/// The state after the lines of `text` from `pos` on. A line ends at a line
/// feed, which it does not hold, nor the carriage return before it.
pub open spec fn md_run(
    text: Seq<char>, pos: int, st: MdState, tag_open: Seq<char>, tag_close: Seq<char>, ignore_kind: bool,
    env: ResolveEnv, budget: nat, limit: nat,
) -> MdState
    decreases 257 - env.2, 1int, budget, limit, 4int, text.len() - pos,
{
    if pos < 0 || pos >= text.len() {
        st
    } else {
        let nl = next_newline(text, pos);
        let next = if nl < text.len() { nl + 1 } else { nl };
        let end = if nl < text.len() && nl > pos && text[nl - 1] == '\r' { nl - 1 } else { nl };
        if next <= pos || end < pos || end > text.len() {
            st
        } else {
            let line = text.subrange(pos, end);
            md_run(text, next, line_spec(st, line, tag_open, tag_close, ignore_kind, env, budget, limit), tag_open, tag_close, ignore_kind, env, budget, limit)
        }
    }
}

/// The HTML of Markdown `text`: its lines read one after the other, then the
/// last open block closed. Paragraphs are wrapped in `tag_open` and
/// `tag_close`; with `ignore_kind` the unordered markers make one kind of list.
pub open spec fn md_spec(
    text: Seq<char>, tag_open: Seq<char>, tag_close: Seq<char>, ignore_kind: bool, env: ResolveEnv, budget: nat,
) -> Seq<char>
    decreases 257 - env.2, 1int, budget, nonws(text), 5int, 0int,
{
    let st = md_run(text, 0, (BlockV::Nothing, Seq::empty(), false), tag_open, tag_close, ignore_kind, env, budget, nonws(text));
    st.1 + flush_spec(st.0, tag_close, env, budget, nonws(text))
}

/// The HTML of Markdown `text` whose embeds are resolved: nested text gets
/// at most as many further embed passes, one level each, as `text` has
/// non-whitespace characters, more than the text's own nesting can use.
pub open spec fn md_top(text: Seq<char>, tag_open: Seq<char>, tag_close: Seq<char>, ignore_kind: bool, env: ResolveEnv) -> Seq<char>
    decreases 257 - env.2, 2int, 0int, 0int, 0int, 0int,
{
    md_spec(text, tag_open, tag_close, ignore_kind, env, nonws(text))
}

/// What a nested embed pass needs: the path of the text for diagnostics,
/// the settings, the files, the depth and the variables.
pub struct Env<'a> {
    pub path: &'a String,
    pub config: &'a Configuration,
    pub store: &'a ContentStore,
    pub depth: u8,
    pub context: &'a Context,
}

pub open spec fn env_view(e: Env) -> ResolveEnv {
    (e.store@, e.config.max_depth as int, e.depth as int, e.context@)
}

/// The block being built while lines are read.
pub enum Block {
    Nothing,
    Paragraph(Vec<char>),
    /// Lines indented by four spaces.
    CodeIndented(Vec<char>),
    /// A fenced block: the fence's indentation and the lines so far.
    CodeFenced(usize, Vec<char>),
    /// The lines of a quote, one `>` stripped from each.
    Quote(Vec<char>),
    /// A list: the indentation of its last item, its kind, whether its items
    /// are wrapped in paragraphs, and the raw text of each item.
    List(usize, ListKind, bool, Vec<Vec<char>>),
}

/// What a block holds, as the specification sees it.
pub open spec fn block_view(b: Block) -> BlockV {
    match b {
        Block::Nothing => BlockV::Nothing,
        Block::Paragraph(c) => BlockV::Paragraph(c@),
        Block::CodeIndented(c) => BlockV::CodeIndented(c@),
        Block::CodeFenced(i, c) => BlockV::CodeFenced(i as nat, c@),
        Block::Quote(c) => BlockV::Quote(c@),
        Block::List(i, k, u, items) => BlockV::List(i as nat, k, u, items@.map_values(|v: Vec<char>| v@)),
    }
}

/// The nested text a block hands to the parser has fewer than `limit`
/// non-whitespace characters, and a list holds an item.
pub open spec fn bounded(b: Block, limit: nat) -> bool {
    match b {
        Block::Quote(c) => nonws(c@) < limit,
        Block::List(_, _, _, items) => items.len() > 0
            && forall|k: int| 0 <= k < items.len() ==> nonws(#[trigger] items@[k]@) < limit,
        _ => true,
    }
}

pub open spec fn is_unordered(k: ListKind) -> bool {
    k == ListKind::UnorderedPlus || k == ListKind::UnorderedDash || k == ListKind::UnorderedAsterisk
}

fn unordered(k: ListKind) -> (r: bool)
    ensures
        r == is_unordered(k),
{
    match k {
        ListKind::UnorderedPlus | ListKind::UnorderedDash | ListKind::UnorderedAsterisk => true,
        _ => false,
    }
}

fn is_list(b: &Block) -> (r: bool)
    ensures
        r == (*b is List),
{
    match b {
        Block::List(..) => true,
        _ => false,
    }
}

fn is_quote(b: &Block) -> (r: bool)
    ensures
        r == (*b is Quote),
{
    match b {
        Block::Quote(..) => true,
        _ => false,
    }
}

fn is_paragraph(b: &Block) -> (r: bool)
    ensures
        r == (*b is Paragraph),
{
    match b {
        Block::Paragraph(..) => true,
        _ => false,
    }
}

fn is_fenced(b: &Block) -> (r: bool)
    ensures
        r == (*b is CodeFenced),
{
    match b {
        Block::CodeFenced(..) => true,
        _ => false,
    }
}

fn is_indented_code(b: &Block) -> (r: bool)
    ensures
        r == (*b is CodeIndented),
{
    match b {
        Block::CodeIndented(..) => true,
        _ => false,
    }
}

/// The indentation and the kind of the list `b`.
fn list_info(b: &Block) -> (r: (usize, ListKind))
    requires
        *b is List,
    ensures
        r == ((*b)->List_0, (*b)->List_1),
{
    match b {
        Block::List(indent, kind, _, _) => (*indent, *kind),
        _ => (0, ListKind::UnorderedAsterisk),
    }
}

/// The fence indentation of the fenced block `b`, and whether it holds text.
fn fence_info(b: &Block) -> (r: (usize, bool))
    requires
        *b is CodeFenced,
    ensures
        r == ((*b)->CodeFenced_0, (*b)->CodeFenced_1@.len() > 0),
{
    match b {
        Block::CodeFenced(indent, c) => (*indent, c.len() > 0),
        _ => (0, false),
    }
}

/// Appends `piece` to the last item of the list `block`.
fn list_extend_last(block: &mut Block, piece: &Vec<char>, Ghost(limit): Ghost<nat>)
    requires
        *old(block) is List,
        bounded(*old(block), limit),
    ensures
        *final(block) is List,
        bounded(*final(block), limit + nonws(piece@)),
        (*final(block))->List_0 == (*old(block))->List_0,
        (*final(block))->List_1 == (*old(block))->List_1,
        (*final(block))->List_2 == (*old(block))->List_2,
        block_view(*final(block)) == extend_last(block_view(*old(block)), piece@),
{
    let mut cur = Block::Nothing;
    std::mem::swap(block, &mut cur);
    match cur {
        Block::List(indent, kind, use_p, items) => {
            let mut items = items;
            let k = items.len() - 1;
            let mut last = copy_chars(&items[k]);
            let ghost before = last@;
            push_all(&mut last, piece);
            proof { lemma_nonws_concat(before, piece@); }
            let ghost old_items = items@;
            let ghost old_view = old_items.map_values(|v: Vec<char>| v@);
            items.set(k, last);
            assert forall|j: int| 0 <= j < items.len() implies nonws(#[trigger] items@[j]@) < limit + nonws(piece@) by {
                if j != k {
                    assert(items@[j] == old_items[j]);
                }
            }
            assert(items@.map_values(|v: Vec<char>| v@) =~= old_view.update(k as int, old_view.last() + piece@));
            *block = Block::List(indent, kind, use_p, items);
        },
        other => {
            *block = other;
        },
    }
}

/// Marks the list `block` as one whose items are wrapped in paragraphs.
fn list_use_paragraphs(block: &mut Block)
    requires
        *old(block) is List,
    ensures
        *final(block) is List,
        (*final(block))->List_0 == (*old(block))->List_0,
        (*final(block))->List_1 == (*old(block))->List_1,
        (*final(block))->List_3 == (*old(block))->List_3,
        block_view(*final(block)) == with_paragraphs(block_view(*old(block))),
{
    let mut cur = Block::Nothing;
    std::mem::swap(block, &mut cur);
    match cur {
        Block::List(indent, kind, _, items) => {
            *block = Block::List(indent, kind, true, items);
        },
        other => {
            *block = other;
        },
    }
}

/// Adds the item `item` to the list `block`, whose indentation becomes `indent`.
fn list_add_item(block: &mut Block, item: Vec<char>, indent: usize)
    requires
        *old(block) is List,
    ensures
        *final(block) is List,
        (*final(block))->List_0 == indent,
        (*final(block))->List_1 == (*old(block))->List_1,
        (*final(block))->List_2 == (*old(block))->List_2,
        (*final(block))->List_3@ == (*old(block))->List_3@.push(item),
        block_view(*final(block)) == add_item(block_view(*old(block)), item@, indent as nat),
{
    let mut cur = Block::Nothing;
    std::mem::swap(block, &mut cur);
    match cur {
        Block::List(_, kind, use_p, items) => {
            let mut items = items;
            let ghost old_view = items@.map_values(|v: Vec<char>| v@);
            let ghost iv = item@;
            items.push(item);
            assert(items@.map_values(|v: Vec<char>| v@) =~= old_view.push(iv));
            *block = Block::List(indent, kind, use_p, items);
        },
        other => {
            *block = other;
        },
    }
}

/// Appends `piece` to the text of the paragraph, code or quote `block`.
fn text_extend(block: &mut Block, piece: &Vec<char>)
    ensures
        match *old(block) {
            Block::Paragraph(c) => *final(block) matches Block::Paragraph(d) && d@ == c@ + piece@,
            Block::CodeIndented(c) => *final(block) matches Block::CodeIndented(d) && d@ == c@ + piece@,
            Block::CodeFenced(i, c) => *final(block) matches Block::CodeFenced(j, d) && j == i && d@ == c@ + piece@,
            Block::Quote(c) => *final(block) matches Block::Quote(d) && d@ == c@ + piece@,
            _ => *final(block) == *old(block),
        },
{
    let mut cur = Block::Nothing;
    std::mem::swap(block, &mut cur);
    match cur {
        Block::Paragraph(c) => {
            let mut c = c;
            push_all(&mut c, piece);
            *block = Block::Paragraph(c);
        },
        Block::CodeIndented(c) => {
            let mut c = c;
            push_all(&mut c, piece);
            *block = Block::CodeIndented(c);
        },
        Block::CodeFenced(i, c) => {
            let mut c = c;
            push_all(&mut c, piece);
            *block = Block::CodeFenced(i, c);
        },
        Block::Quote(c) => {
            let mut c = c;
            push_all(&mut c, piece);
            *block = Block::Quote(c);
        },
        other => {
            *block = other;
        },
    }
}

/// The HTML of text nested in a quote or a list item: its embeds resolved
/// again while the budget lasts, then parsed as Markdown of its own.
fn nested(
    c: &Vec<char>,
    tag_open: &Vec<char>,
    tag_close: &Vec<char>,
    ignore_kind: bool,
    env: &Env,
    log: &mut Vec<String>,
    budget: usize,
    Ghost(limit): Ghost<nat>,
) -> (r: Vec<char>)
    requires
        nonws(c@) < limit,
    ensures
        r@ == nested_spec(c@, tag_open@, tag_close@, ignore_kind, env_view(*env), budget as nat, limit),
        crate::embed::log_kept(old(log)@, final(log)@),
    decreases 257 - env.depth as int, 1int, budget as int, limit as int, 0int,
{
    if budget > 0 {
        let open = vec!['[', '#', '#'];
        assert(open@ == seq!['[', '#', '#']);
        let resolved = crate::embed::resolve_embeds_chars(
            env.path, env.config, env.store, c, env.depth, env.context, &open, ']', log);
        markdown_blocks(&resolved, tag_open, tag_close, ignore_kind, env, log, budget - 1)
    } else {
        markdown_blocks(c, tag_open, tag_close, ignore_kind, env, log, 0)
    }
}

/// Closes the open block: appends its HTML to `out` and leaves nothing open.
/// Quotes and list items are parsed again as Markdown of their own.
fn flush(
    block: &mut Block,
    out: &mut Vec<char>,
    tag_close: &Vec<char>,
    env: &Env,
    log: &mut Vec<String>,
    budget: usize,
    Ghost(limit): Ghost<nat>,
)
    requires
        bounded(*old(block), limit),
    ensures
        *final(block) is Nothing,
        final(out)@ == old(out)@ + flush_spec(block_view(*old(block)), tag_close@, env_view(*env), budget as nat, limit),
        crate::embed::log_kept(old(log)@, final(log)@),
    decreases 257 - env.depth as int, 1int, budget as int, limit as int, 1int,
{
    let mut cur = Block::Nothing;
    std::mem::swap(block, &mut cur);
    match cur {
        Block::Nothing => {},
        Block::Paragraph(c) => {
            let html = format_inline_chars(&c);
            push_all(out, &html);
            push_all(out, tag_close);
        },
        Block::CodeIndented(c) => {
            push_all(out, &c);
            push_str(out, "</code></pre>");
        },
        Block::CodeFenced(_, c) => {
            push_all(out, &c);
            push_str(out, "</code></pre>");
        },
        Block::Quote(c) => {
            let p_open = chars_of("<p>");
            let p_close = chars_of("</p>");
            let html = nested(&c, &p_open, &p_close, false, env, log, budget, Ghost(limit));
            push_all(out, &html);
            push_str(out, "</blockquote>");
        },
        Block::List(_, kind, use_p, items) => {
            let (item_open, item_close) = if use_p {
                (chars_of("<p>"), chars_of("</p>"))
            } else {
                (Vec::new(), Vec::new())
            };
            let ghost iv = items@.map_values(|v: Vec<char>| v@);
            let ghost start = out@;
            let mut k: usize = 0;
            assert(iv.subrange(0, 0) =~= Seq::<Seq<char>>::empty());
            while k < items.len()
                invariant
                    k <= items.len(),
                    iv == items@.map_values(|v: Vec<char>| v@),
                    forall|j: int| 0 <= j < items.len() ==> nonws(#[trigger] items@[j]@) < limit,
                    item_open@ == (if use_p { "<p>"@ } else { Seq::<char>::empty() }),
                    item_close@ == (if use_p { "</p>"@ } else { Seq::<char>::empty() }),
                    out@ == start + items_html(iv.subrange(0, k as int), use_p, env_view(*env), budget as nat, limit),
                    crate::embed::log_kept(old(log)@, log@),
                decreases items.len() - k,
            {
                let ghost before = out@;
                push_str(out, "<li>");
                let html = nested(&items[k], &item_open, &item_close, true, env, log, budget, Ghost(limit));
                push_all(out, &html);
                push_str(out, "</li>");
                proof {
                    let sub = iv.subrange(0, k + 1);
                    assert(sub.drop_last() =~= iv.subrange(0, k as int));
                    assert(sub.last() == items@[k as int]@);
                    assert(out@ =~= start + items_html(sub, use_p, env_view(*env), budget as nat, limit));
                }
                k = k + 1;
            }
            assert(iv.subrange(0, k as int) =~= iv);
            if unordered(kind) {
                push_str(out, "</ul>");
            } else {
                push_str(out, "</ol>");
            }
        },
    }
}

/// Whether `s` starts with the characters of `pat`.
fn starts_with_chars(s: &Vec<char>, pat: &str) -> (r: bool)
    ensures
        r == crate::text::starts_with(s@, pat@),
{
    let p = chars_of(pat);
    crate::text::matches_at(s, &p, 0)
}

/// The parts of a line: its indentation `a`, the line without its
/// indentation `lnp`, and the trimmed line `tl`.
pub open spec fn line_parts(line: Seq<char>, a: int, lnp: Seq<char>, tl: Seq<char>) -> bool {
    &&& 0 <= a <= line.len()
    &&& lnp == line.subrange(a, line.len() as int)
    &&& lnp == crate::text::trim_start(line)
    &&& tl == trim(line)
    &&& tl.len() <= lnp.len()
    &&& nonws(tl) <= nonws(line)
    &&& nonws(lnp) <= nonws(line)
    &&& lnp.len() > 0 ==> tl.len() > 0 && tl[0] == lnp[0] && !is_ws(tl[0])
}

/// A new list item from the trimmed line `tl` whose marker takes `off`
/// characters, with fewer non-whitespace characters than the line.
fn new_item(tl: &Vec<char>, off: usize) -> (r: Vec<char>)
    requires
        tl.len() > 0,
        !is_ws(tl@[0]),
        off >= 1,
    ensures
        nonws(r@) + 1 <= nonws(tl@),
        r@ == item_of(tl@, off as nat),
{
    let mut item = if off <= tl.len() { slice(tl, off, tl.len()) } else { Vec::new() };
    proof {
        if off <= tl.len() {
            lemma_nonws_drop_marker(tl@, off as int);
        } else {
            lemma_nonws_drop_marker(tl@, tl.len() as int);
            assert(tl@.subrange(tl.len() as int, tl.len() as int) =~= item@);
        }
        lemma_nonws_push(item@, '\n');
    }
    item.push('\n');
    item
}

/// A line while a list is open: a blank line, an item of the list, or a
/// deeper line joins it; an item of another kind, or other text after a
/// blank line, closes it. Whether the line was taken.
fn list_line(
    block: &mut Block,
    out: &mut Vec<char>,
    prev_empty: &mut bool,
    line: &Vec<char>,
    a: usize,
    lnp: &Vec<char>,
    tl: &Vec<char>,
    tag_close: &Vec<char>,
    ignore_kind: bool,
    env: &Env,
    log: &mut Vec<String>,
    budget: usize,
    Ghost(base): Ghost<nat>,
    Ghost(limit): Ghost<nat>,
) -> (taken: bool)
    requires
        *old(block) is List,
        bounded(*old(block), base),
        base + nonws(line@) <= limit,
        line_parts(line@, a as int, lnp@, tl@),
    ensures
        crate::embed::log_kept(old(log)@, final(log)@),
        taken ==> bounded(*final(block), base + nonws(line@)),
        !taken ==> bounded(*final(block), base),
        (taken, (block_view(*final(block)), final(out)@, *final(prev_empty))) == list_line_spec((block_view(*old(block)), old(out)@, *old(prev_empty)), line@, a as nat, lnp@, tl@, tag_close@, ignore_kind, env_view(*env), budget as nat, limit),
    decreases 257 - env.depth as int, 1int, budget as int, limit as int, 2int,
{
    let ghost nb = base + nonws(line@);
    if tl.len() == 0 {
        let nl = vec!['\n'];
        proof { lemma_nonws_push(Seq::empty(), '\n'); assert(nl@ =~= Seq::<char>::empty().push('\n')); }
        list_extend_last(block, &nl, Ghost(base));
        *prev_empty = true;
        return true;
    }
    match detect_list_type(lnp, ignore_kind) {
        Some((kind, _, off)) => {
            if *prev_empty {
                list_use_paragraphs(block);
            }
            let (indent, list_kind) = list_info(block);
            if indent < usize::MAX && a <= indent + 1 {
                if kind == list_kind {
                    let item = new_item(tl, off);
                    let ghost iv = item@;
                    let ghost old_items = (*block)->List_3@;
                    list_add_item(block, item, a);
                    assert forall|j: int| 0 <= j < (*block)->List_3@.len() implies nonws(#[trigger] (*block)->List_3@[j]@) < nb by {
                        if j < old_items.len() {
                            assert((*block)->List_3@[j] == old_items[j]);
                        } else {
                            assert((*block)->List_3@[j]@ == iv);
                        }
                    }
                    *prev_empty = false;
                    true
                } else {
                    flush(block, out, tag_close, env, log, budget, Ghost(limit));
                    false
                }
            } else {
                let mut piece = if indent <= line.len() { slice(line, indent, line.len()) } else { Vec::new() };
                proof {
                    if indent <= line.len() {
                        lemma_nonws_sub(line@, indent as int, line.len() as int);
                    }
                    lemma_nonws_push(piece@, '\n');
                }
                piece.push('\n');
                list_extend_last(block, &piece, Ghost(base));
                *prev_empty = false;
                true
            }
        },
        None => {
            if *prev_empty {
                flush(block, out, tag_close, env, log, budget, Ghost(limit));
            }
            false
        },
    }
}

/// A line that starts a list. Whether the line was taken.
fn list_start_line(
    block: &mut Block,
    out: &mut Vec<char>,
    prev_empty: &mut bool,
    line: &Vec<char>,
    a: usize,
    lnp: &Vec<char>,
    tl: &Vec<char>,
    tag_close: &Vec<char>,
    ignore_kind: bool,
    env: &Env,
    log: &mut Vec<String>,
    budget: usize,
    Ghost(base): Ghost<nat>,
    Ghost(limit): Ghost<nat>,
) -> (taken: bool)
    requires
        bounded(*old(block), base),
        base + nonws(line@) <= limit,
        line_parts(line@, a as int, lnp@, tl@),
    ensures
        crate::embed::log_kept(old(log)@, final(log)@),
        taken ==> bounded(*final(block), base + nonws(line@)),
        !taken ==> *final(block) == *old(block) && final(out)@ == old(out)@ && *final(prev_empty) == *old(prev_empty),
        (taken, (block_view(*final(block)), final(out)@, *final(prev_empty))) == list_start_spec((block_view(*old(block)), old(out)@, *old(prev_empty)), a as nat, lnp@, tl@, tag_close@, ignore_kind, env_view(*env), budget as nat, limit),
    decreases 257 - env.depth as int, 1int, budget as int, limit as int, 2int,
{
    if let Some((kind, num, off)) = detect_list_type(lnp, ignore_kind) {
        flush(block, out, tag_close, env, log, budget, Ghost(limit));
        let ghost after_flush = out@;
        proof {
            reveal_strlit("<ul>");
            reveal_strlit("<ol");
            reveal_strlit(">");
            reveal_strlit(" start=\"");
            reveal_strlit("\"");
        }
        if unordered(kind) {
            push_str(out, "<ul>");
        } else {
            push_str(out, "<ol");
            if num != 1 {
                push_str(out, " start=\"");
                push_decimal(out, num as u64);
                push_str(out, "\"");
            }
            push_str(out, ">");
        }
        assert(out@ =~= after_flush + list_open_tag(kind, num as nat));
        let item = new_item(tl, off);
        let ghost item_view = item@;
        let items = vec![item];
        assert(items@[0]@ == item_view);
        assert(items@.map_values(|v: Vec<char>| v@) =~= seq![item_view]);
        *block = Block::List(a, kind, false, items);
        *prev_empty = false;
        true
    } else {
        false
    }
}

/// A line of code: indented by four spaces, a fence, or inside a fenced
/// block. Whether the line was taken.
fn code_line(
    block: &mut Block,
    out: &mut Vec<char>,
    prev_empty: &mut bool,
    line: &Vec<char>,
    a: usize,
    lnp: &Vec<char>,
    tl: &Vec<char>,
    tag_close: &Vec<char>,
    env: &Env,
    log: &mut Vec<String>,
    budget: usize,
    Ghost(base): Ghost<nat>,
    Ghost(limit): Ghost<nat>,
) -> (taken: bool)
    requires
        bounded(*old(block), base),
        base + nonws(line@) <= limit,
        line_parts(line@, a as int, lnp@, tl@),
    ensures
        crate::embed::log_kept(old(log)@, final(log)@),
        taken ==> bounded(*final(block), base + nonws(line@)),
        !taken ==> *final(block) == *old(block) && final(out)@ == old(out)@ && *final(prev_empty) == *old(prev_empty),
        (taken, (block_view(*final(block)), final(out)@, *final(prev_empty))) == code_line_spec((block_view(*old(block)), old(out)@, *old(prev_empty)), line@, a as nat, lnp@, tl@, tag_close@, env_view(*env), budget as nat, limit),
    decreases 257 - env.depth as int, 1int, budget as int, limit as int, 2int,
{
    proof {
        reveal_strlit("    ");
        reveal_strlit("```");
    }
    if starts_with_chars(line, "    ") && !is_fenced(block) && !is_list(block) {
        let rest = slice(line, 4, line.len());
        if is_indented_code(block) {
            let mut piece = vec!['\n'];
            push_all(&mut piece, &rest);
            let ghost c = (*block)->CodeIndented_0@;
            text_extend(block, &piece);
            assert(c + piece@ =~= c + seq!['\n'] + rest@);
        } else {
            flush(block, out, tag_close, env, log, budget, Ghost(limit));
            push_str(out, "<pre><code>");
            *block = Block::CodeIndented(rest);
        }
        *prev_empty = false;
        return true;
    }
    if starts_with_chars(lnp, "```") {
        if is_fenced(block) {
            let fence = chars_of("```");
            if crate::text::equal_chars(tl, &fence) {
                flush(block, out, tag_close, env, log, budget, Ghost(limit));
                *prev_empty = false;
                return true;
            }
        } else {
            flush(block, out, tag_close, env, log, budget, Ghost(limit));
            let ghost after_flush = out@;
            let (sa, sb) = trimmed(lnp, 3, lnp.len());
            if sa == sb {
                push_str(out, "<pre><code>");
            } else {
                push_str(out, "<pre><code class=\"language-");
                push_range(out, lnp, sa, sb);
                push_str(out, "\">");
                assert(out@ =~= after_flush + ("<pre><code class=\"language-"@ + trim(lnp@.subrange(3, lnp@.len() as int)) + "\">"@));
            }
            let empty: Vec<char> = Vec::new();
            assert(empty@ =~= Seq::<char>::empty());
            *block = Block::CodeFenced(a, empty);
            *prev_empty = false;
            return true;
        }
    }
    if is_fenced(block) {
        let (fence_indent, has_text) = fence_info(block);
        let extra: usize = if a > fence_indent { a - fence_indent } else { 0 };
        let mut piece: Vec<char> = Vec::new();
        if has_text {
            piece.push('\n');
        }
        let ghost head = piece@;
        let mut k: usize = 0;
        while k < extra
            invariant
                k <= extra,
                piece@ == head + spaces(k as nat),
            decreases extra - k,
        {
            piece.push(' ');
            assert(head + spaces((k + 1) as nat) =~= (head + spaces(k as nat)).push(' '));
            k = k + 1;
        }
        push_all(&mut piece, tl);
        text_extend(block, &piece);
        *prev_empty = false;
        return true;
    }
    false
}

/// A line that is blank, a rule, a heading, part of a quote or paragraph text.
fn text_line(
    block: &mut Block,
    out: &mut Vec<char>,
    prev_empty: &mut bool,
    line: &Vec<char>,
    tl: &Vec<char>,
    tag_open: &Vec<char>,
    tag_close: &Vec<char>,
    env: &Env,
    log: &mut Vec<String>,
    budget: usize,
    Ghost(base): Ghost<nat>,
    Ghost(limit): Ghost<nat>,
)
    requires
        bounded(*old(block), base),
        base + nonws(line@) <= limit,
        nonws(tl@) <= nonws(line@),
        tl.len() > 0 ==> !is_ws(tl@[0]),
    ensures
        crate::embed::log_kept(old(log)@, final(log)@),
        bounded(*final(block), base + nonws(line@)),
        (block_view(*final(block)), final(out)@, *final(prev_empty)) == text_line_spec((block_view(*old(block)), old(out)@, *old(prev_empty)), tl@, tag_open@, tag_close@, env_view(*env), budget as nat, limit),
    decreases 257 - env.depth as int, 1int, budget as int, limit as int, 2int,
{
    if tl.len() == 0 {
        flush(block, out, tag_close, env, log, budget, Ghost(limit));
        *prev_empty = true;
        return;
    }
    if rule_line(tl) {
        flush(block, out, tag_close, env, log, budget, Ghost(limit));
        let ghost after_flush = out@;
        push_str(out, "</hr>");
        assert(out@ =~= after_flush + "</hr>"@);
        *prev_empty = false;
        return;
    }
    let h = count_leading_hashes(tl);
    if h > 0 && h < 6 {
        {
            flush(block, out, tag_close, env, log, budget, Ghost(limit));
            let ghost after_flush = out@;
            let rest = slice(tl, h, tl.len());
            assert(rest@.subrange(0, rest@.len() as int) == rest@);
            let (ra, rb) = trimmed(&rest, 0, rest.len());
            let title = slice(&rest, ra, rb);
            assert(title@ == trim(rest@));
            let html = format_inline_chars(&title);
            push_str(out, "<h");
            push_decimal(out, h as u64);
            push_str(out, ">");
            push_all(out, &html);
            push_str(out, "</h");
            push_decimal(out, h as u64);
            push_str(out, ">");
            assert(out@ =~= after_flush + "<h"@ + crate::text::decimal(h as nat) + ">"@
                + crate::inline::format_inline(trim(rest@)) + "</h"@ + crate::text::decimal(h as nat) + ">"@);
            *prev_empty = false;
            return;
        }
    }
    if tl[0] == '>' {
        let mut piece = slice(tl, 1, tl.len());
        proof {
            lemma_nonws_drop_marker(tl@, 1);
            lemma_nonws_push(piece@, '\n');
        }
        piece.push('\n');
        if is_quote(block) {
            let ghost before = (*block)->Quote_0@;
            proof { lemma_nonws_concat(before, piece@); }
            text_extend(block, &piece);
        } else {
            flush(block, out, tag_close, env, log, budget, Ghost(limit));
            push_str(out, "<blockquote>");
            *block = Block::Quote(piece);
        }
        *prev_empty = false;
        return;
    }
    let mut piece = vec![' '];
    push_all(&mut piece, tl);
    proof {
        assert(piece@ =~= seq![' '] + tl@);
        lemma_nonws_concat(seq![' '], tl@);
        lemma_nonws_push(Seq::empty(), ' ');
        assert(seq![' '] =~= Seq::<char>::empty().push(' '));
    }
    if is_paragraph(block) {
        text_extend(block, &piece);
    } else if is_list(block) {
        list_extend_last(block, &piece, Ghost(base));
    } else {
        flush(block, out, tag_close, env, log, budget, Ghost(limit));
        push_all(out, tag_open);
        *block = Block::Paragraph(copy_chars(tl));
    }
    *prev_empty = false;
}

/// Reads one line of Markdown into the open block, closing it and opening
/// another where the line cannot continue it.
fn process_line(
    block: &mut Block,
    out: &mut Vec<char>,
    prev_empty: &mut bool,
    line: &Vec<char>,
    tag_open: &Vec<char>,
    tag_close: &Vec<char>,
    ignore_kind: bool,
    env: &Env,
    log: &mut Vec<String>,
    budget: usize,
    Ghost(base): Ghost<nat>,
    Ghost(limit): Ghost<nat>,
)
    requires
        bounded(*old(block), base),
        base + nonws(line@) <= limit,
    ensures
        crate::embed::log_kept(old(log)@, final(log)@),
        bounded(*final(block), base + nonws(line@)),
        (block_view(*final(block)), final(out)@, *final(prev_empty)) == line_spec((block_view(*old(block)), old(out)@, *old(prev_empty)), line@, tag_open@, tag_close@, ignore_kind, env_view(*env), budget as nat, limit),
    decreases 257 - env.depth as int, 1int, budget as int, limit as int, 3int,
{
    let (a, b) = trimmed(line, 0, line.len());
    assert(line@.subrange(0, line.len() as int) == line@);
    let lnp = slice(line, a, line.len());
    let tl = slice(line, a, b);
    proof {
        crate::text::lemma_lead_ws_bound(line@);
        assert(lnp@.len() == line.len() - a);
        assert(a as nat == crate::text::lead_ws(line@));
        lemma_nonws_sub(line@, a as int, b as int);
        lemma_nonws_sub(line@, a as int, line.len() as int);
        if lnp.len() > 0 {
            assert(tl@[0] == line@[a as int]);
            assert(lnp@[0] == line@[a as int]);
        }
    }
    if is_list(block) {
        if list_line(block, out, prev_empty, line, a, &lnp, &tl, tag_close, ignore_kind, env, log, budget, Ghost(base), Ghost(limit)) {
            return;
        }
    }
    if !is_list(block) {
        if list_start_line(block, out, prev_empty, line, a, &lnp, &tl, tag_close, ignore_kind, env, log, budget, Ghost(base), Ghost(limit)) {
            return;
        }
    }
    if code_line(block, out, prev_empty, line, a, &lnp, &tl, tag_close, env, log, budget, Ghost(base), Ghost(limit)) {
        return;
    }
    text_line(block, out, prev_empty, line, &tl, tag_open, tag_close, env, log, budget, Ghost(base), Ghost(limit));
}

/// Converts Markdown `text` to HTML, line by line. A paragraph is wrapped in
/// `tag_open` and `tag_close`; with `ignore_kind` the three unordered
/// markers make one kind of list.
/// Nested text gets another embed pass while `budget` lasts.
pub fn markdown_blocks(
    text: &Vec<char>,
    tag_open: &Vec<char>,
    tag_close: &Vec<char>,
    ignore_kind: bool,
    env: &Env,
    log: &mut Vec<String>,
    budget: usize,
) -> (r: Vec<char>)
    ensures
        r@ == md_spec(text@, tag_open@, tag_close@, ignore_kind, env_view(*env), budget as nat),
        crate::embed::log_kept(old(log)@, final(log)@),
    decreases 257 - env.depth as int, 1int, budget as int, nonws(text@) as int, 4int,
{
    let mut out: Vec<char> = Vec::new();
    let mut block = Block::Nothing;
    let mut prev_empty = false;
    let mut pos: usize = 0;
    let ghost limit = nonws(text@);
    let ghost init: MdState = (BlockV::Nothing, Seq::empty(), false);
    assert(out@ =~= Seq::<char>::empty());
    while pos < text.len()
        invariant
            pos <= text.len(),
            limit == nonws(text@),
            bounded(block, nonws(text@.subrange(0, pos as int))),
            md_run(text@, 0, init, tag_open@, tag_close@, ignore_kind, env_view(*env), budget as nat, limit)
                == md_run(text@, pos as int, (block_view(block), out@, prev_empty), tag_open@, tag_close@, ignore_kind,
                    env_view(*env), budget as nat, limit),
            crate::embed::log_kept(old(log)@, log@),
        decreases text.len() - pos,
    {
        let mut nl: usize = pos;
        while nl < text.len() && text[nl] != '\n'
            invariant
                pos <= nl <= text.len(),
                next_newline(text@, pos as int) == next_newline(text@, nl as int),
            decreases text.len() - nl,
        {
            nl = nl + 1;
        }
        let next: usize = if nl < text.len() { nl + 1 } else { nl };
        let end: usize = if nl < text.len() && nl > pos && text[nl - 1] == '\r' { nl - 1 } else { nl };
        let line = slice(text, pos, end);
        proof {
            lemma_nonws_sub(text@, pos as int, next as int);
            lemma_nonws_sub(text@.subrange(pos as int, next as int), 0, (end - pos) as int);
            assert(text@.subrange(pos as int, next as int).subrange(0, (end - pos) as int) =~= line@);
            lemma_nonws_sub(text@, 0, next as int);
            assert(text@.subrange(0, text.len() as int) =~= text@);
            lemma_nonws_sub(text@, next as int, text.len() as int);
        }
        process_line(&mut block, &mut out, &mut prev_empty, &line, tag_open, tag_close, ignore_kind, env, log, budget,
            Ghost(nonws(text@.subrange(0, pos as int))), Ghost(nonws(text@)));
        pos = next;
    }
    proof {
        assert(text@.subrange(0, pos as int) =~= text@);
    }
    flush(&mut block, &mut out, tag_close, env, log, budget, Ghost(nonws(text@)));
    out
}

/// Resolves the `[## … ]` embeds of Markdown `contents`, then converts the
/// result to HTML.
pub fn resolve_markdown_chars(
    path: &String,
    config: &Configuration,
    store: &ContentStore,
    contents: &Vec<char>,
    depth: u8,
    context: &Context,
    tag_open: &Vec<char>,
    tag_close: &Vec<char>,
    ignore_list_type: bool,
    log: &mut Vec<String>,
) -> (r: Vec<char>)
    ensures
        crate::embed::log_kept(old(log)@, final(log)@),
        r@ == md_top(crate::embed::resolve_spec(store@, config.max_depth as int, contents@, depth as int, context@,
            seq!['[', '#', '#'], ']'), tag_open@, tag_close@, ignore_list_type,
            (store@, config.max_depth as int, depth as int, context@)),
        crate::embed::resolve_warns(store@, config.max_depth as int, contents@, depth as int, context@, seq!['[', '#', '#'], ']')
            ==> final(log)@.len() > old(log)@.len(),
    decreases 257 - depth as int, 2int, 0int, 0int, 0int,
{
    let open = vec!['[', '#', '#'];
    assert(open@ == seq!['[', '#', '#']);
    let resolved = crate::embed::resolve_embeds_chars(path, config, store, contents, depth, context, &open, ']', log);
    let env = Env { path, config, store, depth, context };
    let budget = crate::text::count_nonws(&resolved);
    markdown_blocks(&resolved, tag_open, tag_close, ignore_list_type, &env, log, budget)
}

/// Resolves the `[## … ]` embeds of the Markdown `contents` at `depth`,
/// then converts it to HTML; paragraphs are wrapped in `custom_tag_type`.
/// Also returns the diagnostics of the anomalies met.
pub fn resolve_tokens_markdown(
    path: String,
    config: &Configuration,
    store: &ContentStore,
    contents: &str,
    depth: u8,
    context: &Context,
    custom_tag_type: (&str, &str),
    ignore_list_type: bool,
) -> (r: (String, Vec<String>))
    ensures
        r.0@ == md_top(crate::embed::resolve_spec(store@, config.max_depth as int, contents@, depth as int, context@,
            seq!['[', '#', '#'], ']'), custom_tag_type.0@, custom_tag_type.1@, ignore_list_type,
            (store@, config.max_depth as int, depth as int, context@)),
        crate::embed::resolve_warns(store@, config.max_depth as int, contents@, depth as int, context@, seq!['[', '#', '#'], ']')
            ==> r.1@.len() > 0,
{
    let c = chars_of(contents);
    let open = chars_of(custom_tag_type.0);
    let close = chars_of(custom_tag_type.1);
    let mut log: Vec<String> = Vec::new();
    let r = resolve_markdown_chars(&path, config, store, &c, depth, context, &open, &close, ignore_list_type, &mut log);
    (crate::text::string_of(&r), log)
}

} // verus!
