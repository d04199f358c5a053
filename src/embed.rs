//! The embed resolver: finds `<## … >` (or `[## … ]`) markers, classifies
//! what stands between them and splices in what they name.
use vstd::prelude::*;
use crate::config::{Configuration, join_path, join_path_chars};
use crate::context::Context;
use crate::filetype::{FileType, candidate_path, candidate_path_exec, valid_extension, valid_filetypes};
use crate::scanner::{same_level, same_level_from};
use crate::store::{ContentStore, file_content, opt_chars, paths_in_dir};
use crate::text::{
    chars_of, contains, copy_chars, find, find_char, find_character, find_pattern, is_digit,
    occurs_at, opt_int, push_all, push_range, push_str, slice, string_of, trim, trimmed,
};

verus! {

/// The most splices one resolution makes before it gives up and returns
/// what it has; a guard against expansions that grow without end.
pub const SPLICE_LIMIT: usize = 1000000;

/// The shape of the text between an embed's markers, with the indices of the
/// brackets that decide it.
#[derive(PartialEq, Eq, Structural, Clone, Copy, Debug)]
pub enum EmbedShape {
    /// `name[]` or `name[..N]`: the files of a directory.
    Folder(usize, usize),
    /// `name(key="value" …)`: a section under extra variables.
    Parametric(usize, usize),
    /// `{name}`: a variable of the context.
    Variable(usize),
    /// `name`: a section.
    Simple,
}

/// The open marker and close character of the HTML form, `<## … >`, or of
/// the Markdown form, `[## … ]`.
pub open spec fn embed_markers(open: Seq<char>, close: char) -> bool {
    (open == seq!['<', '#', '#'] && close == '>') || (open == seq!['[', '#', '#'] && close == ']')
}

/// How the trimmed text `id` between the markers is read: folder syntax
/// first, then parametric, then variable, else a simple name. A closing
/// bracket before its opener does not make the shape.
pub open spec fn classify(id: Seq<char>) -> EmbedShape {
    let fo = find_char(id, '[');
    let fc = find_char(id, ']');
    let po = find_char(id, '(');
    let pc = same_level(None, id, ')', false);
    let vo = find_char(id, '{');
    let vc = find_char(id, '}');
    if fo is Some && fc is Some && fo->0 < fc->0 {
        EmbedShape::Folder(fo->0 as usize, fc->0 as usize)
    } else if po is Some && pc is Some && po->0 < pc->0 {
        EmbedShape::Parametric(po->0 as usize, pc->0 as usize)
    } else if vo == Some(0int) && vc is Some {
        EmbedShape::Variable(vc->0 as usize)
    } else {
        EmbedShape::Simple
    }
}

/// The text between the markers of a token, trimmed.
pub open spec fn token_identifier(token: Seq<char>) -> Seq<char> {
    trim(token.subrange(3, token.len() - 1))
}

/// The value of a run of decimal digits.
pub open spec fn digits_value(d: Seq<char>) -> nat
    decreases d.len(),
{
    if d.len() == 0 {
        0
    } else {
        digits_value(d.drop_last()) * 10 + (d.last() as nat - '0' as nat) as nat
    }
}

pub open spec fn all_digits(d: Seq<char>) -> bool {
    forall|k: int| 0 <= k < d.len() ==> is_digit(#[trigger] d[k])
}

/// What `str::parse::<usize>` makes of `s`: an optional `+`, then one or
/// more digits whose value fits in `usize`.
pub open spec fn parse_usize(s: Seq<char>) -> Option<nat> {
    let d = if s.len() > 0 && s[0] == '+' { s.drop_first() } else { s };
    if d.len() > 0 && all_digits(d) && digits_value(d) <= usize::MAX {
        Some(digits_value(d))
    } else {
        None
    }
}

/// How many files a folder embed asks for: `None` for no bound. `[]` and any
/// malformed bound ask for all.
pub open spec fn folder_limit(id: Seq<char>, open: int, close: int) -> Option<nat> {
    if close - open == 1 {
        None
    } else {
        let inner = id.subrange(open + 1, close);
        if occurs_at(inner, seq!['.', '.'], 0) {
            parse_usize(inner.subrange(2, inner.len() as int))
        } else {
            None
        }
    }
}

/// The number of files a folder embed takes out of `available`.
pub open spec fn folder_count(limit: Option<nat>, available: nat) -> nat {
    match limit {
        Some(n) => if n < available { n } else { available },
        None => available,
    }
}

/// The quote that opens the next value, and its index: whichever of `"` and
/// `'` comes first.
pub open spec fn first_quote(vars: Seq<char>) -> Option<(char, int)> {
    let dq = find_char(vars, '"');
    let sq = find_char(vars, '\'');
    match (dq, sq) {
        (Some(d), Some(s)) => if d < s { Some(('"', d)) } else { Some(('\'', s)) },
        (Some(d), None) => Some(('"', d)),
        (None, Some(s)) => Some(('\'', s)),
        (None, None) => None,
    }
}

/// The bindings that the assignments `key="value" key2='value2' …` of `vars`
/// add to `ctx`, read from left to right until no complete one is left.
pub open spec fn parse_params(vars: Seq<char>, ctx: Map<Seq<char>, Seq<char>>) -> Map<Seq<char>, Seq<char>>
    decreases vars.len(),
{
    match find_char(vars, '=') {
        None => ctx,
        Some(eq) => match first_quote(vars) {
            None => ctx,
            Some((q, qo)) => {
                if 0 <= qo < vars.len() {
                    let rest = vars.subrange(qo + 1, vars.len() as int);
                    match find_char(rest, q) {
                        None => ctx,
                        Some(k) => {
                            let qc = qo + 1 + k;
                            if k >= 0 && qc < vars.len() && eq >= 0 && eq <= vars.len() {
                                parse_params(
                                    vars.subrange(qc + 1, vars.len() as int),
                                    ctx.insert(trim(vars.subrange(0, eq)), vars.subrange(qo + 1, qc)),
                                )
                            } else {
                                ctx
                            }
                        },
                    }
                } else {
                    ctx
                }
            },
        },
    }
}

/// `text` with `text[at..at + len]` replaced by `with`.
pub open spec fn splice(text: Seq<char>, at: int, len: int, with: Seq<char>) -> Seq<char> {
    text.subrange(0, at) + with + text.subrange(at + len, text.len() as int)
}

/// The resolution loop once no embed may be expanded any more: the
/// leftmost open marker's matched token is deleted, again and again, until
/// no open marker is left or the leftmost one has no match. `last` is where
/// the previous step found its marker, and `stalled` whether that step left
/// the text as it was.
pub open spec fn strip_all(text: Seq<char>, open: Seq<char>, close: char, last: Option<int>, stalled: bool) -> Seq<char>
    decreases text.len(), if stalled { 0int } else if last is Some { 1int } else { 2int },
{
    match find(text, open) {
        None => text,
        Some(i) => if stalled && last == Some(i) {
            text
        } else {
            match same_level(None, text.subrange(i, text.len() as int), close, false) {
                Some(e) => if 0 <= i && 0 <= e && i + e + 1 <= text.len() {
                    strip_all(splice(text, i, e + 1, Seq::empty()), open, close, Some(i), false)
                } else {
                    text
                },
                None => if stalled {
                    text
                } else {
                    strip_all(text, open, close, Some(i), last is Some)
                },
            }
        },
    }
}

/// What resolving `text` at a depth at or past the limit gives: every
/// matched embed, leftmost first, is replaced by nothing.
pub open spec fn stripped(text: Seq<char>, open: Seq<char>, close: char) -> Seq<char> {
    strip_all(text, open, close, None, false)
}

/// The first token of `text`: from the leftmost open marker to its match.
pub open spec fn first_token(text: Seq<char>, open: Seq<char>, close: char) -> Option<Seq<char>> {
    match find(text, open) {
        Some(i) => match same_level(None, text.subrange(i, text.len() as int), close, false) {
            Some(e) => Some(text.subrange(i, i + e + 1)),
            None => None,
        },
        None => None,
    }
}

/// The first token of `text` meets an anomaly that is reported.
pub open spec fn first_token_warns(
    store: Seq<(Seq<char>, Seq<char>)>, text: Seq<char>, open: Seq<char>, close: char, ctx: Map<Seq<char>, Seq<char>>,
) -> bool {
    match first_token(text, open, close) {
        Some(t) => token_warns(store, t, ctx),
        None => false,
    }
}

/// Resolving `text` reports a diagnostic: its first token meets an anomaly
/// below the depth limit, a token is deleted at the limit, or a marker is
/// left unresolved.
pub open spec fn resolve_warns(
    store: Seq<(Seq<char>, Seq<char>)>, max: int, text: Seq<char>, depth: int, ctx: Map<Seq<char>, Seq<char>>,
    open: Seq<char>, close: char,
) -> bool {
    ||| depth < max && first_token_warns(store, text, open, close, ctx)
    ||| depth >= max && stripped(text, open, close) != text
    ||| contains(resolve_spec(store, max, text, depth, ctx, open, close), open)
}

/// What is left of `vars` once its complete assignments are read.
pub open spec fn params_rest(vars: Seq<char>) -> Seq<char>
    decreases vars.len(),
{
    match find_char(vars, '=') {
        None => vars,
        Some(eq) => match first_quote(vars) {
            None => vars,
            Some((q, qo)) => {
                if 0 <= qo < vars.len() {
                    match find_char(vars.subrange(qo + 1, vars.len() as int), q) {
                        None => vars,
                        Some(k) => {
                            let qc = qo + 1 + k;
                            if k >= 0 && qc < vars.len() && eq >= 0 && eq <= vars.len() {
                                params_rest(vars.subrange(qc + 1, vars.len() as int))
                            } else {
                                vars
                            }
                        },
                    }
                } else {
                    vars
                }
            },
        },
    }
}

/// A folder embed whose count is neither empty nor `..N`.
pub open spec fn bad_count(id: Seq<char>, open: int, close: int) -> bool {
    close - open != 1 && folder_limit(id, open, close) is None
}

/// A folder embed naming a directory with no file in it.
pub open spec fn unknown_folder(store: Seq<(Seq<char>, Seq<char>)>, id: Seq<char>, open: int) -> bool {
    paths_in_dir(store, section_path(id.subrange(0, open))).len() == 0
}

/// Parametric text with something left after its last complete assignment.
pub open spec fn leftover_params(id: Seq<char>, open: int, close: int) -> bool {
    close - open != 1 && params_rest(trim(id.subrange(open + 1, close))).len() != 0
}

/// Expanding the token `t` meets an anomaly that is reported: an unbound
/// variable, a missing section, an unknown folder, a malformed count, or
/// text left over after the assignments.
pub open spec fn token_warns(store: Seq<(Seq<char>, Seq<char>)>, t: Seq<char>, ctx: Map<Seq<char>, Seq<char>>) -> bool {
    let id = token_identifier(t);
    match classify(id) {
        EmbedShape::Folder(o, c) => bad_count(id, o as int, c as int) || unknown_folder(store, id, o as int),
        EmbedShape::Parametric(o, c) => leftover_params(id, o as int, c as int)
            || source_of(store, section_path(trim(id.subrange(0, o as int)))) is None,
        EmbedShape::Variable(c) => !ctx.contains_key(id.subrange(1, c as int)),
        EmbedShape::Simple => source_of(store, section_path(id)) is None,
    }
}

/// The first file kind, in the order they are tried, for which the store
/// holds a file for the logical path `p`, with that file's content.
pub open spec fn source_from(store: Seq<(Seq<char>, Seq<char>)>, p: Seq<char>, k: int) -> Option<(FileType, Seq<char>)>
    decreases 3 - k,
{
    if k < 0 || k >= 3 {
        None
    } else {
        let ft = valid_filetypes()[k];
        match file_content(store, candidate_path(p, ft)) {
            Some(c) => Some((ft, c)),
            None => source_from(store, p, k + 1),
        }
    }
}

pub open spec fn source_of(store: Seq<(Seq<char>, Seq<char>)>, p: Seq<char>) -> Option<(FileType, Seq<char>)> {
    source_from(store, p, 0)
}

/// The directory holding the sections, relative to the project root.
pub open spec fn sections_dir() -> Seq<char> {
    seq!['s', 'e', 'c', 't', 'i', 'o', 'n', 's']
}

/// The path of the section named `name`.
pub open spec fn section_path(name: Seq<char>) -> Seq<char> {
    join_path(sections_dir(), name)
}

/// The paths of `s` with a loadable extension, in order.
pub open spec fn loadable(s: Seq<Seq<char>>) -> Seq<Seq<char>>
    decreases s.len(),
{
    if s.len() == 0 {
        s
    } else if valid_extension(s.last()) {
        loadable(s.drop_last()).push(s.last())
    } else {
        loadable(s.drop_last())
    }
}

/// The files a folder embed over the directory `dir` can take, in order.
pub open spec fn folder_files(store: Seq<(Seq<char>, Seq<char>)>, dir: Seq<char>) -> Seq<Seq<char>> {
    loadable(paths_in_dir(store, dir))
}

/// The value an embed of the variable `name` takes: its binding, or nothing.
pub open spec fn variable_value(ctx: Map<Seq<char>, Seq<char>>, name: Seq<char>) -> Seq<char> {
    if ctx.contains_key(name) {
        ctx[name]
    } else {
        Seq::empty()
    }
}

/// The bracket indices of a shape lie inside a text of length `len`, the
/// opener before the closer.
pub open spec fn shape_fits(shape: EmbedShape, len: int) -> bool {
    match shape {
        EmbedShape::Folder(o, c) => o < c < len,
        EmbedShape::Parametric(o, c) => o < c < len,
        EmbedShape::Variable(c) => 1 <= c < len,
        EmbedShape::Simple => true,
    }
}

/// How the trimmed text `id` between an embed's markers is read.
pub fn classify_identifier(id: &Vec<char>) -> (r: EmbedShape)
    ensures
        r == classify(id@),
        shape_fits(r, id@.len() as int),
{
    let fo = find_character(id, '[');
    let fc = find_character(id, ']');
    if let (Some(o), Some(c)) = (fo, fc) {
        if o < c {
            return EmbedShape::Folder(o, c);
        }
    }
    let po = find_character(id, '(');
    let pc = same_level_from(None, id, 0, ')', false);
    assert(id@.subrange(0, id@.len() as int) == id@);
    if let (Some(o), Some(c)) = (po, pc) {
        if o < c {
            return EmbedShape::Parametric(o, c);
        }
    }
    let vo = find_character(id, '{');
    let vc = find_character(id, '}');
    if let (Some(o), Some(c)) = (vo, vc) {
        if o == 0 {
            return EmbedShape::Variable(c);
        }
    }
    EmbedShape::Simple
}

/// Reads `s` as `str::parse::<usize>` does.
pub fn parse_usize_chars(s: &Vec<char>) -> (r: Option<usize>)
    ensures
        opt_nat(r) == parse_usize(s@),
{
    let start: usize = if s.len() > 0 && s[0] == '+' { 1 } else { 0 };
    let ghost d = if s@.len() > 0 && s@[0] == '+' { s@.drop_first() } else { s@ };
    assert(d =~= s@.subrange(start as int, s@.len() as int));
    if start >= s.len() {
        return None;
    }
    let mut value: usize = 0;
    let mut overflow = false;
    let mut i: usize = start;
    while i < s.len()
        invariant
            start <= i <= s.len(),
            d == s@.subrange(start as int, s@.len() as int),
            d == (if s@.len() > 0 && s@[0] == '+' { s@.drop_first() } else { s@ }),
            all_digits(s@.subrange(start as int, i as int)),
            !overflow ==> value as nat == digits_value(s@.subrange(start as int, i as int)),
            overflow ==> digits_value(s@.subrange(start as int, i as int)) > usize::MAX,
        decreases s.len() - i,
    {
        let c = s[i];
        let ghost pre = s@.subrange(start as int, i as int);
        let ghost next = s@.subrange(start as int, i + 1);
        assert(next.drop_last() =~= pre);
        if !('0' <= c && c <= '9') {
            assert(d[i - start] == s@[i as int]);
            assert(!is_digit(d[i - start]));
            assert(!all_digits(d));
            return None;
        }
        let dv: usize = (c as u32 - '0' as u32) as usize;
        assert(digits_value(next) == digits_value(pre) * 10 + dv);
        if !overflow {
            if value > (usize::MAX - dv) / 10 {
                overflow = true;
                assert(value * 10 + dv > usize::MAX) by (nonlinear_arith)
                    requires value > (usize::MAX - dv) / 10, dv <= 9;
            } else {
                assert(value * 10 + dv <= usize::MAX) by (nonlinear_arith)
                    requires value <= (usize::MAX - dv) / 10, dv <= 9;
                value = value * 10 + dv;
            }
        } else {
            assert(digits_value(pre) * 10 + dv >= digits_value(pre)) by (nonlinear_arith);
        }
        i = i + 1;
    }
    assert(s@.subrange(start as int, i as int) == d);
    if overflow {
        None
    } else {
        Some(value)
    }
}

pub open spec fn opt_string(o: Option<String>) -> Option<Seq<char>> {
    match o {
        Some(v) => Some(v@),
        None => None,
    }
}

pub open spec fn opt_nat(o: Option<usize>) -> Option<nat> {
    match o {
        Some(n) => Some(n as nat),
        None => None,
    }
}

/// How many files the folder embed `id` with brackets at `open` and `close`
/// asks for; `None` for all.
pub fn parse_folder_limit(id: &Vec<char>, open: usize, close: usize) -> (r: Option<usize>)
    requires
        open < close <= id.len(),
    ensures
        opt_nat(r) == folder_limit(id@, open as int, close as int),
{
    if close - open == 1 {
        return None;
    }
    let inner = slice(id, open + 1, close);
    let dots = vec!['.', '.'];
    assert(dots@ == seq!['.', '.']);
    if crate::text::matches_at(&inner, &dots, 0) {
        let num = slice(&inner, 2, inner.len());
        parse_usize_chars(&num)
    } else {
        None
    }
}

/// The quote that opens the next value, and its index.
fn first_quote_exec(vars: &Vec<char>) -> (r: Option<(char, usize)>)
    ensures
        match r {
            Some((q, i)) => first_quote(vars@) == Some((q, i as int)) && i < vars.len(),
            None => first_quote(vars@) is None,
        },
{
    let dq = find_character(vars, '"');
    let sq = find_character(vars, '\'');
    match (dq, sq) {
        (Some(d), Some(s)) => if d < s { Some(('"', d)) } else { Some(('\'', s)) },
        (Some(d), None) => Some(('"', d)),
        (None, Some(s)) => Some(('\'', s)),
        (None, None) => None,
    }
}

/// Adds to `ctx` the bindings of the assignments `key="value" …` in `vars`.
/// Whether nothing was left over after the last complete assignment.
pub fn bind_params(vars: &Vec<char>, ctx: &mut Context) -> (complete: bool)
    ensures
        final(ctx)@ == parse_params(vars@, old(ctx)@),
        complete == (params_rest(vars@).len() == 0),
{
    let mut rest = copy_chars(vars);
    loop
        invariant
            parse_params(vars@, old(ctx)@) == parse_params(rest@, ctx@),
            params_rest(vars@) == params_rest(rest@),
        ensures
            parse_params(vars@, old(ctx)@) == ctx@,
        decreases rest.len(),
    {
        let eq = match find_character(&rest, '=') {
            Some(e) => e,
            None => {
                return rest.len() == 0;
            },
        };
        let (q, qo) = match first_quote_exec(&rest) {
            Some(p) => p,
            None => {
                return rest.len() == 0;
            },
        };
        let after = slice(&rest, qo + 1, rest.len());
        let k = match find_character(&after, q) {
            Some(k) => k,
            None => {
                return rest.len() == 0;
            },
        };
        let qc = qo + 1 + k;
        let (a, b) = trimmed(&rest, 0, eq);
        let name = slice(&rest, a, b);
        let value = slice(&rest, qo + 1, qc);
        ctx.insert_chars(name, value);
        rest = slice(&rest, qc + 1, rest.len());
    }
}

/// What expanding one token, markers included, gives at `depth`.
pub open spec fn expand_spec(
    store: Seq<(Seq<char>, Seq<char>)>, max: int, token: Seq<char>, depth: int, ctx: Map<Seq<char>, Seq<char>>,
) -> Seq<char>
    decreases 256 - depth, 7int, 0int, 0int, 0int, 0int,
{
    if depth < 0 || depth >= 255 {
        Seq::empty()
    } else {
        let id = token_identifier(token);
        match classify(id) {
            EmbedShape::Folder(o, c) => folder_spec(store, max, id, depth, o as int, c as int, ctx),
            EmbedShape::Parametric(o, c) => parametric_spec(store, max, id, depth, o as int, c as int, ctx),
            EmbedShape::Variable(c) => variable_value(ctx, id.subrange(1, c as int)),
            EmbedShape::Simple => single_spec(store, max, id, depth, ctx),
        }
    }
}

/// What a parametric embed `id` with parentheses at `open` and `close` gives:
/// the section named before them, under `ctx` extended by their assignments.
pub open spec fn parametric_spec(
    store: Seq<(Seq<char>, Seq<char>)>, max: int, id: Seq<char>, depth: int, open: int, close: int,
    ctx: Map<Seq<char>, Seq<char>>,
) -> Seq<char>
    decreases 256 - depth, 6int, 0int, 0int, 0int, 0int,
{
    let name = trim(id.subrange(0, open));
    if close - open == 1 {
        single_spec(store, max, name, depth, ctx)
    } else {
        single_spec(store, max, name, depth, parse_params(trim(id.subrange(open + 1, close)), ctx))
    }
}

/// What a folder embed `id` with brackets at `open` and `close` gives: the
/// files it asks for, each loaded and converted, concatenated in order.
pub open spec fn folder_spec(
    store: Seq<(Seq<char>, Seq<char>)>, max: int, id: Seq<char>, depth: int, open: int, close: int,
    ctx: Map<Seq<char>, Seq<char>>,
) -> Seq<char>
    decreases 256 - depth, 6int, 0int, 0int, 0int, 0int,
{
    let files = folder_files(store, section_path(id.subrange(0, open)));
    concat_spec(store, max, files, folder_count(folder_limit(id, open, close), files.len()) as int, depth, ctx)
}

/// The first `n` of `files`, each loaded and converted, concatenated.
pub open spec fn concat_spec(
    store: Seq<(Seq<char>, Seq<char>)>, max: int, files: Seq<Seq<char>>, n: int, depth: int,
    ctx: Map<Seq<char>, Seq<char>>,
) -> Seq<char>
    decreases 256 - depth, 5int, n, 0int, 0int, 0int,
{
    if n <= 0 || n > files.len() {
        Seq::empty()
    } else {
        concat_spec(store, max, files, n - 1, depth, ctx) + match from_path_spec(store, max, files[n - 1], depth, ctx) {
            Some(r) => r,
            None => Seq::empty(),
        }
    }
}

/// What the section `name` gives: its file loaded and converted, or nothing.
pub open spec fn single_spec(
    store: Seq<(Seq<char>, Seq<char>)>, max: int, name: Seq<char>, depth: int, ctx: Map<Seq<char>, Seq<char>>,
) -> Seq<char>
    decreases 256 - depth, 5int, 0int, 0int, 0int, 0int,
{
    match from_path_spec(store, max, section_path(name), depth, ctx) {
        Some(r) => r,
        None => Seq::empty(),
    }
}

/// The file for the logical path `p`, converted one level deeper, if the
/// store holds one.
pub open spec fn from_path_spec(
    store: Seq<(Seq<char>, Seq<char>)>, max: int, p: Seq<char>, depth: int, ctx: Map<Seq<char>, Seq<char>>,
) -> Option<Seq<char>>
    decreases 256 - depth, 4int, 0int, 0int, 0int, 0int,
{
    match source_of(store, p) {
        Some((ft, c)) => Some(convert_spec(store, max, ft, c, depth + 1, ctx)),
        None => None,
    }
}

/// The HTML of content `c` of kind `ft` at `depth`: HTML has its `<## … >`
/// embeds resolved; Markdown has its `[## … ]` embeds resolved and is then
/// converted; text is kept.
pub open spec fn convert_spec(
    store: Seq<(Seq<char>, Seq<char>)>, max: int, ft: FileType, c: Seq<char>, depth: int,
    ctx: Map<Seq<char>, Seq<char>>,
) -> Seq<char>
    decreases 257 - depth, 3int, 0int, 0int, 0int, 0int,
{
    match ft {
        FileType::FileHTML => resolve_spec(store, max, c, depth, ctx, seq!['<', '#', '#'], '>'),
        FileType::FileMarkdown => crate::markdown::md_top(
            resolve_spec(store, max, c, depth, ctx, seq!['[', '#', '#'], ']'),
            seq!['<', 'p', '>'], seq!['<', '/', 'p', '>'], false, (store, max, depth, ctx)),
        _ => c,
    }
}

/// What resolving the embeds of `text` at `depth` gives.
pub open spec fn resolve_spec(
    store: Seq<(Seq<char>, Seq<char>)>, max: int, text: Seq<char>, depth: int, ctx: Map<Seq<char>, Seq<char>>,
    open: Seq<char>, close: char,
) -> Seq<char>
    decreases 257 - depth, 0int, 0int, 0int, 0int, 0int,
{
    if depth < 0 || depth > 256 {
        text
    } else {
        if depth >= max {
            stripped(text, open, close)
        } else {
            run_spec(store, max, text, depth, ctx, open, close, None, false, SPLICE_LIMIT as int)
        }
    }
}

/// The resolution loop below the depth limit: the leftmost open marker's
/// matched token is replaced by the token's expansion. The loop stops when no
/// open marker is left, when the marker found stands where the one before it
/// stood and that step left the length unchanged, or after `fuel` steps.
pub open spec fn run_spec(
    store: Seq<(Seq<char>, Seq<char>)>, max: int, text: Seq<char>, depth: int, ctx: Map<Seq<char>, Seq<char>>,
    open: Seq<char>, close: char, last: Option<int>, stalled: bool, fuel: int,
) -> Seq<char>
    decreases 256 - depth, 8int, fuel, 0int, 0int, 0int,
{
    if fuel <= 0 || depth < 0 || depth > 256 {
        text
    } else {
        match find(text, open) {
            None => text,
            Some(i) => if stalled && last == Some(i) {
                text
            } else {
                let next = match same_level(None, text.subrange(i, text.len() as int), close, false) {
                    Some(e) => splice(text, i, e + 1, if depth < max && max <= 255 {
                        expand_spec(store, max, text.subrange(i, i + e + 1), depth, ctx)
                    } else {
                        Seq::empty()
                    }),
                    None => text,
                };
                run_spec(store, max, next, depth, ctx, open, close, Some(i), last is Some && next.len() == text.len(), fuel - 1)
            },
        }
    }
}

/// `new` keeps every diagnostic of `old`, in its place.
pub open spec fn log_kept(old: Seq<String>, new: Seq<String>) -> bool {
    old.len() <= new.len() && forall|i: int| 0 <= i < old.len() ==> new[i] == old[i]
}

/// Appends the diagnostic `text` to `log`, after the path of the file it
/// arose in.
fn report(log: &mut Vec<String>, path: &String, text: &Vec<char>)
    ensures
        final(log)@.len() == old(log)@.len() + 1,
        log_kept(old(log)@, final(log)@),
{
    let mut msg: Vec<char> = Vec::new();
    let p = chars_of(path.as_str());
    if p.len() > 0 {
        push_all(&mut msg, &p);
        push_str(&mut msg, ": ");
    }
    push_all(&mut msg, text);
    log.push(string_of(&msg));
}

/// The text `before`, then `name`, then `after`.
fn message(before: &str, name: &Vec<char>, after: &str) -> (r: Vec<char>) {
    let mut m: Vec<char> = Vec::new();
    push_str(&mut m, before);
    push_all(&mut m, name);
    push_str(&mut m, after);
    m
}

/// A token found after an open marker is at least four characters long.
proof fn lemma_token_len(text: Seq<char>, open: Seq<char>, close: char, i: int)
    requires
        embed_markers(open, close),
        occurs_at(text, open, i),
        same_level(None, text.subrange(i, text.len() as int), close, false) is Some,
    ensures
        same_level(None, text.subrange(i, text.len() as int), close, false)->0 >= 3,
{
    let t = text.subrange(i, text.len() as int);
    assert(t[0] == open[0]);
    assert(t[1] == open[1]);
    assert(t[2] == open[2]);
    let l0 = Seq::<char>::empty();
    let l1 = crate::scanner::next_layers(l0, t[0]);
    let l2 = crate::scanner::next_layers(l1, t[1]);
    let l3 = crate::scanner::next_layers(l2, t[2]);
    assert(l1.len() == 1);
    assert(l2 == l1);
    assert(l3 == l1);
    assert(crate::scanner::scan_level(l0, t, 0, close, false) == crate::scanner::scan_level(l1, t, 1, close, false));
    assert(crate::scanner::scan_level(l1, t, 1, close, false) == crate::scanner::scan_level(l2, t, 2, close, false));
    assert(crate::scanner::scan_level(l2, t, 2, close, false) == crate::scanner::scan_level(l3, t, 3, close, false));
    crate::scanner::lemma_scan_level_range(l3, t, 3, close, false);
}

/// The value of the variable `name`, or nothing when it is unbound.
/// An unbound variable adds one diagnostic to `log`.
pub fn parse_variable_chars(path: &String, name: &Vec<char>, context: &Context, log: &mut Vec<String>) -> (r: Vec<char>)
    ensures
        r@ == variable_value(context@, name@),
        log_kept(old(log)@, final(log)@),
        final(log)@.len() == old(log)@.len() + if context@.contains_key(name@) { 0int } else { 1int },
{
    match context.lookup(name) {
        Some(v) => v,
        None => {
            let m = message("The variable `", name, "` is undefined, replacing with empty space.");
            report(log, path, &m);
            Vec::new()
        },
    }
}

/// Resolves the section at the logical path `p`: the first file kind for
/// which the store holds a file there is loaded and converted one level
/// deeper.
pub fn resolve_from_path_chars(
    path: &String,
    p: &Vec<char>,
    config: &Configuration,
    store: &ContentStore,
    depth: u8,
    context: &Context,
    log: &mut Vec<String>,
) -> (r: Option<Vec<char>>)
    requires
        depth < 255,
    ensures
        log_kept(old(log)@, final(log)@),
        r is Some <==> source_of(store@, p@) is Some,
        source_of(store@, p@) matches Some((FileType::FileText, c)) ==> r matches Some(v) && v@ == c,
        opt_chars(r) == from_path_spec(store@, config.max_depth as int, p@, depth as int, context@),
    decreases 256 - depth as int, 4int, 0int, 0int, 0int,
{
    let types = FileType::get_valid_filetypes();
    let mut k: usize = 0;
    while k < types.len()
        invariant
            k <= types.len(),
            types@ == valid_filetypes(),
            depth < 255,
            source_of(store@, p@) == source_from(store@, p@, k as int),
            log_kept(old(log)@, log@),
        decreases types.len() - k,
    {
        let ft = types[k];
        let cand = candidate_path_exec(p, ft);
        if let Some(content) = store.lookup(&cand) {
            let mut tagged = copy_chars(p);
            let parent = chars_of(path.as_str());
            if parent.len() > 0 {
                push_str(&mut tagged, " >> ");
                push_all(&mut tagged, &parent);
            }
            let sub_path = string_of(&tagged);
            let converted = ft.convert_content_chars(&sub_path, &content, config, store, depth + 1, context, log);
            return Some(converted);
        }
        k = k + 1;
    }
    None
}

/// Resolves the section named `component`.
pub fn parse_single_chars(
    path: &String,
    config: &Configuration,
    store: &ContentStore,
    component: &Vec<char>,
    depth: u8,
    context: &Context,
    log: &mut Vec<String>,
) -> (r: Vec<char>)
    requires
        depth < 255,
    ensures
        log_kept(old(log)@, final(log)@),
        source_of(store@, section_path(component@)) is None ==> r@ == Seq::<char>::empty(),
        source_of(store@, section_path(component@)) matches Some((FileType::FileText, c)) ==> r@ == c,
        r@ == single_spec(store@, config.max_depth as int, component@, depth as int, context@),
        source_of(store@, section_path(component@)) is None ==> final(log)@.len() > old(log)@.len(),
    decreases 256 - depth as int, 5int, 0int, 0int, 0int,
{
    let sections = chars_of("sections");
    proof { reveal_strlit("sections"); }
    assert(sections@ =~= sections_dir());
    let p = join_path_chars(&sections, component);
    match resolve_from_path_chars(path, &p, config, store, depth, context, log) {
        Some(c) => c,
        None => {
            let m = message("No section `", component, "` found, replacing with empty.");
            report(log, path, &m);
            Vec::new()
        },
    }
}

/// The paths of `files` with a loadable extension, in order.
fn loadable_exec(files: &Vec<Vec<char>>) -> (r: Vec<Vec<char>>)
    ensures
        r@.map_values(|p: Vec<char>| p@) == loadable(files@.map_values(|p: Vec<char>| p@)),
{
    let ghost all = files@.map_values(|p: Vec<char>| p@);
    let mut r: Vec<Vec<char>> = Vec::new();
    let mut i: usize = 0;
    while i < files.len()
        invariant
            i <= files.len(),
            all == files@.map_values(|p: Vec<char>| p@),
            r@.map_values(|p: Vec<char>| p@) == loadable(all.subrange(0, i as int)),
        decreases files.len() - i,
    {
        let ghost before = r@;
        assert(all.subrange(0, i + 1).drop_last() =~= all.subrange(0, i as int));
        if FileType::has_valid_extension_chars(&files[i]) {
            r.push(copy_chars(&files[i]));
            assert(r@.map_values(|p: Vec<char>| p@) =~= before.map_values(|p: Vec<char>| p@).push(all[i as int]));
        }
        i = i + 1;
    }
    assert(all.subrange(0, i as int) =~= all);
    r
}

/// Resolves the folder embed `component`, whose brackets stand at
/// `brackets`: the loadable files of the directory, in ascending order, as
/// many as the embed asks for, each resolved and concatenated.
pub fn parse_folder_chars(
    path: &String,
    config: &Configuration,
    store: &ContentStore,
    component: &Vec<char>,
    depth: u8,
    brackets: (usize, usize),
    context: &Context,
    log: &mut Vec<String>,
) -> (r: Vec<char>)
    requires
        depth < 255,
        brackets.0 < brackets.1 <= component.len(),
    ensures
        log_kept(old(log)@, final(log)@),
        folder_count(
            folder_limit(component@, brackets.0 as int, brackets.1 as int),
            folder_files(store@, section_path(component@.subrange(0, brackets.0 as int))).len(),
        ) == 0 ==> r@ == Seq::<char>::empty(),
        r@ == folder_spec(store@, config.max_depth as int, component@, depth as int, brackets.0 as int, brackets.1 as int, context@),
        bad_count(component@, brackets.0 as int, brackets.1 as int) || unknown_folder(store@, component@, brackets.0 as int)
            ==> final(log)@.len() > old(log)@.len(),
    decreases 256 - depth as int, 5int, 0int, 0int, 0int,
{
    let limit = parse_folder_limit(component, brackets.0, brackets.1);
    let sections = chars_of("sections");
    proof { reveal_strlit("sections"); }
    assert(sections@ =~= sections_dir());
    let name = slice(component, 0, brackets.0);
    let dir = join_path_chars(&sections, &name);
    let in_dir = store.files_in_dir(&dir);
    if brackets.1 - brackets.0 != 1 && limit.is_none() {
        let m = message("The identifier `", component, "` does not give a count as `[..N]`; taking every file.");
        report(log, path, &m);
    }
    assert(in_dir@.map_values(|p: Vec<char>| p@).len() == in_dir@.len());
    if in_dir.len() == 0 {
        let m = message("The folder `", &dir, "` is unknown or empty, replacing with empty.");
        report(log, path, &m);
    }
    let files = loadable_exec(&in_dir);
    let count: usize = match limit {
        Some(n) => if n < files.len() { n } else { files.len() },
        None => files.len(),
    };
    let ghost fv = files@.map_values(|p: Vec<char>| p@);
    assert(fv == folder_files(store@, section_path(component@.subrange(0, brackets.0 as int))));
    let mut content: Vec<char> = Vec::new();
    let mut i: usize = 0;
    while i < count
        invariant
            i <= count <= files.len(),
            depth < 255,
            fv == files@.map_values(|p: Vec<char>| p@),
            count == 0 ==> content@ == Seq::<char>::empty(),
            content@ == concat_spec(store@, config.max_depth as int, fv, i as int, depth as int, context@),
            log_kept(old(log)@, log@),
            bad_count(component@, brackets.0 as int, brackets.1 as int) || unknown_folder(store@, component@, brackets.0 as int)
                ==> log@.len() > old(log)@.len(),
        decreases count - i,
    {
        let ghost before = content@;
        let resolved = resolve_from_path_chars(path, &files[i], config, store, depth, context, log);
        if let Some(r) = resolved {
            push_all(&mut content, &r);
        } else {
            assert(content@ =~= before + Seq::<char>::empty());
        }
        assert(fv[i as int] == files@[i as int]@);
        i = i + 1;
    }
    content
}

/// Resolves the parametric embed `component`, whose parentheses stand at
/// `brackets`: the section named before them, under the context extended by
/// the assignments between them.
pub fn parse_parametric_chars(
    path: &String,
    config: &Configuration,
    store: &ContentStore,
    component: &Vec<char>,
    depth: u8,
    brackets: (usize, usize),
    context: &Context,
    log: &mut Vec<String>,
) -> (r: Vec<char>)
    requires
        depth < 255,
        brackets.0 < brackets.1 <= component.len(),
    ensures
        log_kept(old(log)@, final(log)@),
        source_of(store@, section_path(trim(component@.subrange(0, brackets.0 as int)))) is None
            ==> r@ == Seq::<char>::empty(),
        source_of(store@, section_path(trim(component@.subrange(0, brackets.0 as int))))
            matches Some((FileType::FileText, c)) ==> r@ == c,
        r@ == parametric_spec(store@, config.max_depth as int, component@, depth as int, brackets.0 as int, brackets.1 as int, context@),
        leftover_params(component@, brackets.0 as int, brackets.1 as int)
            || source_of(store@, section_path(trim(component@.subrange(0, brackets.0 as int)))) is None
            ==> final(log)@.len() > old(log)@.len(),
    decreases 256 - depth as int, 6int, 0int, 0int, 0int,
{
    let (a, b) = trimmed(component, 0, brackets.0);
    let name = slice(component, a, b);
    if brackets.1 - brackets.0 == 1 {
        parse_single_chars(path, config, store, &name, depth, context, log)
    } else {
        let mut local = context.duplicate();
        let (va, vb) = trimmed(component, brackets.0 + 1, brackets.1);
        let vars = slice(component, va, vb);
        if !bind_params(&vars, &mut local) {
            let m = message("The component `", component, "` couldn't be parsed completely or at all. Is it malformed?");
            report(log, path, &m);
        }
        parse_single_chars(path, config, store, &name, depth, &local, log)
    }
}

/// Whether `id` holds a bracket of the folder, parametric or variable forms.
fn has_bracket(id: &Vec<char>) -> bool {
    let mut i: usize = 0;
    while i < id.len()
        decreases id.len() - i,
    {
        let c = id[i];
        if c == '[' || c == ']' || c == '(' || c == ')' || c == '{' || c == '}' {
            return true;
        }
        i = i + 1;
    }
    false
}

/// Expands one token, markers included.
pub fn parse_token_chars(
    path: &String,
    config: &Configuration,
    store: &ContentStore,
    token: &Vec<char>,
    depth: u8,
    context: &Context,
    log: &mut Vec<String>,
) -> (r: Vec<char>)
    requires
        depth < 255,
        token@.len() >= 4,
    ensures
        log_kept(old(log)@, final(log)@),
        classify(token_identifier(token@)) matches EmbedShape::Variable(c)
            ==> r@ == variable_value(context@, token_identifier(token@).subrange(1, c as int)),
        classify(token_identifier(token@)) == EmbedShape::Simple
            && source_of(store@, section_path(token_identifier(token@))) is None
            ==> r@ == Seq::<char>::empty(),
        r@ == expand_spec(store@, config.max_depth as int, token@, depth as int, context@),
        token_warns(store@, token@, context@) ==> final(log)@.len() > old(log)@.len(),
    decreases 256 - depth as int, 7int, 0int, 0int, 0int,
{
    let (a, b) = trimmed(token, 3, token.len() - 1);
    let id = slice(token, a, b);
    let shape = classify_identifier(&id);
    match shape {
        EmbedShape::Folder(o, c) => {
            parse_folder_chars(path, config, store, &id, depth, (o, c), context, log)
        },
        EmbedShape::Parametric(o, c) => {
            parse_parametric_chars(path, config, store, &id, depth, (o, c), context, log)
        },
        EmbedShape::Variable(c) => {
            let name = slice(&id, 1, c);
            parse_variable_chars(path, &name, context, log)
        },
        EmbedShape::Simple => {
            if has_bracket(&id) {
                let m = message("The identifier `", &id, "` is incomplete or malformed.");
                report(log, path, &m);
            }
            parse_single_chars(path, config, store, &id, depth, context, log)
        },
    }
}

/// Deletes the matched embeds of `contents`, leftmost first, as at or past
/// the depth limit: one diagnostic for each, and one when a marker is left.
pub fn strip_embeds(path: &String, contents: &Vec<char>, max_depth: u8, open: &Vec<char>, close: char, log: &mut Vec<String>) -> (r: Vec<char>)
    requires
        embed_markers(open@, close),
    ensures
        r@ == stripped(contents@, open@, close),
        log_kept(old(log)@, final(log)@),
        r@ != contents@ ==> final(log)@.len() > old(log)@.len(),
        contains(r@, open@) ==> final(log)@.len() > old(log)@.len(),
{
    let mut text = copy_chars(contents);
    let mut last: Option<usize> = None;
    let mut stalled = false;
    loop
        invariant
            embed_markers(open@, close),
            stripped(contents@, open@, close) == strip_all(text@, open@, close, opt_int(last), stalled),
            log_kept(old(log)@, log@),
            text@ != contents@ ==> log@.len() > old(log)@.len(),
        ensures
            stripped(contents@, open@, close) == text@,
            log_kept(old(log)@, log@),
            text@ != contents@ ==> log@.len() > old(log)@.len(),
            contains(text@, open@) ==> log@.len() > old(log)@.len(),
        decreases text.len(), if stalled { 0int } else if last is Some { 1int } else { 2int },
    {
        let idx = match find_pattern(&text, open) {
            Some(i) => i,
            None => {
                break;
            },
        };
        if stalled && last == Some(idx) {
            let none: Vec<char> = Vec::new();
            let m = message("Cannot resolve this token properly, aborting. (Are the symbols <>'\"()[] used properly?)", &none, "");
            report(log, path, &m);
            break;
        }
        match same_level_from(None, &text, idx, close, false) {
            Some(end) => {
                let mut depth_text: Vec<char> = Vec::new();
                crate::text::push_decimal(&mut depth_text, max_depth as u64);
                let m = message("Surpassed max recursion depth of ", &depth_text, ". Replacing deeper embeds with space.");
                report(log, path, &m);
                let mut next = slice(&text, 0, idx);
                push_range(&mut next, &text, idx + end + 1, text.len());
                assert(next@ =~= splice(text@, idx as int, end + 1, Seq::empty()));
                text = next;
                last = Some(idx);
                stalled = false;
            },
            None => {
                if stalled {
                    let none: Vec<char> = Vec::new();
                    let m = message("Cannot resolve this token properly, aborting. (Are the symbols <>'\"()[] used properly?)", &none, "");
                    report(log, path, &m);
                    break;
                }
                stalled = last.is_some();
                last = Some(idx);
            },
        }
    }
    text
}

/// Expands the embeds of `contents` whose markers are `open` and `close`,
/// leftmost first, scanning again from the start after each splice. The log
/// gains a diagnostic when the first token meets an anomaly, when a token is
/// deleted at the depth limit, and when a marker is left unresolved.
pub fn resolve_embeds_chars(
    path: &String,
    config: &Configuration,
    store: &ContentStore,
    contents: &Vec<char>,
    depth: u8,
    context: &Context,
    open: &Vec<char>,
    close: char,
    log: &mut Vec<String>,
) -> (r: Vec<char>)
    requires
        embed_markers(open@, close),
    ensures
        log_kept(old(log)@, final(log)@),
        !contains(contents@, open@) ==> r@ == contents@,
        depth >= config.max_depth ==> r@ == stripped(contents@, open@, close),
        r@ == resolve_spec(store@, config.max_depth as int, contents@, depth as int, context@, open@, close),
        depth < config.max_depth && first_token_warns(store@, contents@, open@, close, context@)
            ==> final(log)@.len() > old(log)@.len(),
        depth >= config.max_depth && r@ != contents@ ==> final(log)@.len() > old(log)@.len(),
        contains(r@, open@) ==> final(log)@.len() > old(log)@.len(),
        resolve_warns(store@, config.max_depth as int, contents@, depth as int, context@, open@, close)
            ==> final(log)@.len() > old(log)@.len(),
    decreases 256 - depth as int, 8int, 0int, 0int, 0int,
{
    if depth >= config.max_depth {
        return strip_embeds(path, contents, config.max_depth, open, close, log);
    }
    let mut text = copy_chars(contents);
    let mut last: Option<usize> = None;
    let mut stalled = false;
    let mut steps: usize = 0;
    while steps < SPLICE_LIMIT
        invariant
            embed_markers(open@, close),
            depth < config.max_depth,
            steps <= SPLICE_LIMIT,
            steps == 0 ==> text@ == contents@ && last is None && !stalled,
            !contains(contents@, open@) ==> text@ == contents@,
            resolve_spec(store@, config.max_depth as int, contents@, depth as int, context@, open@, close)
                == run_spec(store@, config.max_depth as int, text@, depth as int, context@, open@, close, opt_int(last), stalled, (SPLICE_LIMIT - steps) as int),
            log_kept(old(log)@, log@),
            steps > 0 && first_token_warns(store@, contents@, open@, close, context@)
                ==> log@.len() > old(log)@.len(),
        ensures
            !contains(contents@, open@) ==> text@ == contents@,
            resolve_spec(store@, config.max_depth as int, contents@, depth as int, context@, open@, close) == text@,
            log_kept(old(log)@, log@),
            first_token_warns(store@, contents@, open@, close, context@) ==> log@.len() > old(log)@.len(),
            contains(text@, open@) ==> log@.len() > old(log)@.len() || steps == SPLICE_LIMIT,
        decreases SPLICE_LIMIT - steps,
    {
        let idx = match find_pattern(&text, open) {
            Some(i) => i,
            None => {
                break;
            },
        };
        if stalled && last == Some(idx) {
            let none: Vec<char> = Vec::new();
            let m = message("Cannot resolve this token properly, aborting. (Are the symbols <>'\"()[] used properly?)", &none, "");
            report(log, path, &m);
            break;
        }
        proof { crate::text::lemma_find_from_occurs(text@, open@, 0); }
        if config.verbose {
            let mut at: Vec<char> = Vec::new();
            crate::text::push_decimal(&mut at, idx as u64);
            let m = message("[verbose] found next open marker at index ", &at, "");
            report(log, path, &m);
        }
        let next = match same_level_from(None, &text, idx, close, false) {
            Some(end) => {
                proof { lemma_token_len(text@, open@, close, idx as int); }
                if config.verbose {
                    let mut after: Vec<char> = Vec::new();
                    crate::text::push_decimal(&mut after, end as u64);
                    let m = message("[verbose] found the matching close after ", &after, " char(s)");
                    report(log, path, &m);
                }
                let token = slice(&text, idx, idx + end + 1);
                proof {
                    if steps == 0 {
                        assert(first_token(contents@, open@, close) == Some(token@));
                    }
                }
                let replacement = parse_token_chars(path, config, store, &token, depth, context, log);
                let mut next = slice(&text, 0, idx);
                push_all(&mut next, &replacement);
                push_range(&mut next, &text, idx + end + 1, text.len());
                assert(next@ =~= splice(text@, idx as int, end + 1, replacement@));
                next
            },
            None => copy_chars(&text),
        };
        stalled = last.is_some() && next.len() == text.len();
        last = Some(idx);
        text = next;
        steps = steps + 1;
    }
    if steps == SPLICE_LIMIT {
        let none: Vec<char> = Vec::new();
        let m = message("Too many embeds to resolve, leaving the rest unresolved.", &none, "");
        report(log, path, &m);
    }
    text
}

/// Resolves the `<## … >` embeds of HTML `contents`.
pub fn resolve_html_chars(
    path: &String,
    config: &Configuration,
    store: &ContentStore,
    contents: &Vec<char>,
    depth: u8,
    context: &Context,
    log: &mut Vec<String>,
) -> (r: Vec<char>)
    ensures
        log_kept(old(log)@, final(log)@),
        !contains(contents@, seq!['<', '#', '#']) ==> r@ == contents@,
        depth >= config.max_depth ==> r@ == stripped(contents@, seq!['<', '#', '#'], '>'),
        r@ == resolve_spec(store@, config.max_depth as int, contents@, depth as int, context@, seq!['<', '#', '#'], '>'),
        depth < config.max_depth && first_token_warns(store@, contents@, seq!['<', '#', '#'], '>', context@)
            ==> final(log)@.len() > old(log)@.len(),
        depth >= config.max_depth && r@ != contents@ ==> final(log)@.len() > old(log)@.len(),
        contains(r@, seq!['<', '#', '#']) ==> final(log)@.len() > old(log)@.len(),
        resolve_warns(store@, config.max_depth as int, contents@, depth as int, context@, seq!['<', '#', '#'], '>')
            ==> final(log)@.len() > old(log)@.len(),
    decreases 257 - depth as int, 2int, 0int, 0int, 0int,
{
    let open = vec!['<', '#', '#'];
    assert(open@ == seq!['<', '#', '#']);
    resolve_embeds_chars(path, config, store, contents, depth, context, &open, '>', log)
}

/// Resolves the `<## … >` embeds of the HTML `contents` at `depth`; also
/// returns the diagnostics of the anomalies met.
pub fn resolve_tokens_html(
    path: String,
    config: &Configuration,
    store: &ContentStore,
    contents: &str,
    depth: u8,
    context: &Context,
) -> (r: (String, Vec<String>))
    ensures
        r.0@ == resolve_spec(store@, config.max_depth as int, contents@, depth as int, context@, seq!['<', '#', '#'], '>'),
        !contains(contents@, seq!['<', '#', '#']) ==> r.0@ == contents@,
        depth >= config.max_depth ==> r.0@ == stripped(contents@, seq!['<', '#', '#'], '>'),
        depth < config.max_depth && first_token_warns(store@, contents@, seq!['<', '#', '#'], '>', context@)
            ==> r.1@.len() > 0,
        depth >= config.max_depth && r.0@ != contents@ ==> r.1@.len() > 0,
        contains(r.0@, seq!['<', '#', '#']) ==> r.1@.len() > 0,
{
    let c = chars_of(contents);
    let mut log: Vec<String> = Vec::new();
    let r = resolve_html_chars(&path, config, store, &c, depth, context, &mut log);
    (string_of(&r), log)
}

/// Expands the embeds of `contents_str` whose open marker and close
/// character are `embed_symbols`: `("<##", '>')` or `("[##", ']')`; also
/// returns the diagnostics of the anomalies met.
pub fn resolve_embeds(
    path: String,
    config: &Configuration,
    store: &ContentStore,
    contents_str: &str,
    depth: u8,
    context: &Context,
    embed_symbols: (&str, char),
) -> (r: (String, Vec<String>))
    requires
        embed_markers(embed_symbols.0@, embed_symbols.1),
    ensures
        r.0@ == resolve_spec(store@, config.max_depth as int, contents_str@, depth as int, context@, embed_symbols.0@, embed_symbols.1),
        !contains(contents_str@, embed_symbols.0@) ==> r.0@ == contents_str@,
        depth >= config.max_depth ==> r.0@ == stripped(contents_str@, embed_symbols.0@, embed_symbols.1),
        depth < config.max_depth && first_token_warns(store@, contents_str@, embed_symbols.0@, embed_symbols.1, context@)
            ==> r.1@.len() > 0,
        depth >= config.max_depth && r.0@ != contents_str@ ==> r.1@.len() > 0,
        contains(r.0@, embed_symbols.0@) ==> r.1@.len() > 0,
{
    let c = chars_of(contents_str);
    let open = chars_of(embed_symbols.0);
    let mut log: Vec<String> = Vec::new();
    let r = resolve_embeds_chars(&path, config, store, &c, depth, context, &open, embed_symbols.1, &mut log);
    (string_of(&r), log)
}

/// Expands one token, markers included; also returns the diagnostics.
pub fn parse_token(
    path: String,
    config: &Configuration,
    store: &ContentStore,
    token: &str,
    current_depth: u8,
    context: &Context,
) -> (r: (String, Vec<String>))
    requires
        current_depth < 255,
        token@.len() >= 4,
    ensures
        r.0@ == expand_spec(store@, config.max_depth as int, token@, current_depth as int, context@),
        token_warns(store@, token@, context@) ==> r.1@.len() > 0,
{
    let t = chars_of(token);
    let mut log: Vec<String> = Vec::new();
    let r = parse_token_chars(&path, config, store, &t, current_depth, context, &mut log);
    (string_of(&r), log)
}

/// Resolves the parametric embed `component` with parentheses at `brackets`;
/// also returns the diagnostics.
pub fn parse_parametric_embed(
    path: String,
    config: &Configuration,
    store: &ContentStore,
    component: &str,
    current_depth: u8,
    brackets: (usize, usize),
    context: &Context,
) -> (r: (String, Vec<String>))
    requires
        current_depth < 255,
        brackets.0 < brackets.1 <= component@.len(),
    ensures
        r.0@ == parametric_spec(store@, config.max_depth as int, component@, current_depth as int, brackets.0 as int, brackets.1 as int, context@),
        brackets.1 == brackets.0 + 1 ==> r.0@ == single_spec(store@, config.max_depth as int,
            trim(component@.subrange(0, brackets.0 as int)), current_depth as int, context@),
        leftover_params(component@, brackets.0 as int, brackets.1 as int)
            || source_of(store@, section_path(trim(component@.subrange(0, brackets.0 as int)))) is None
            ==> r.1@.len() > 0,
{
    let c = chars_of(component);
    let mut log: Vec<String> = Vec::new();
    let r = parse_parametric_chars(&path, config, store, &c, current_depth, brackets, context, &mut log);
    (string_of(&r), log)
}

/// The value of the variable `component`, or nothing when it is unbound;
/// also returns one diagnostic exactly when it is unbound.
pub fn parse_variable(component: &str, context: &Context) -> (r: (String, Vec<String>))
    ensures
        r.0@ == variable_value(context@, component@),
        r.1@.len() == if context@.contains_key(component@) { 0int } else { 1int },
{
    let c = chars_of(component);
    let mut log: Vec<String> = Vec::new();
    let r = parse_variable_chars(&String::new(), &c, context, &mut log);
    (string_of(&r), log)
}

/// Resolves the folder embed `component` with brackets at `brackets`; also
/// returns the diagnostics.
pub fn parse_folder_embed(
    path: String,
    config: &Configuration,
    store: &ContentStore,
    component: &str,
    current_depth: u8,
    brackets: (usize, usize),
    context: &Context,
) -> (r: (String, Vec<String>))
    requires
        current_depth < 255,
        brackets.0 < brackets.1 <= component@.len(),
    ensures
        r.0@ == folder_spec(store@, config.max_depth as int, component@, current_depth as int, brackets.0 as int, brackets.1 as int, context@),
        bad_count(component@, brackets.0 as int, brackets.1 as int) || unknown_folder(store@, component@, brackets.0 as int)
            ==> r.1@.len() > 0,
{
    let c = chars_of(component);
    let mut log: Vec<String> = Vec::new();
    let r = parse_folder_chars(&path, config, store, &c, current_depth, brackets, context, &mut log);
    (string_of(&r), log)
}

/// Resolves the section named `component`; also returns the diagnostics.
pub fn parse_single_embed(
    path: String,
    config: &Configuration,
    store: &ContentStore,
    component: &str,
    current_depth: u8,
    context: &Context,
) -> (r: (String, Vec<String>))
    requires
        current_depth < 255,
    ensures
        r.0@ == single_spec(store@, config.max_depth as int, component@, current_depth as int, context@),
        source_of(store@, section_path(component@)) is None ==> r.0@ == Seq::<char>::empty() && r.1@.len() > 0,
{
    let c = chars_of(component);
    let mut log: Vec<String> = Vec::new();
    let r = parse_single_chars(&path, config, store, &c, current_depth, context, &mut log);
    (string_of(&r), log)
}

/// Loads and converts the file for the logical path `path`, relative to the
/// project root, trying each loadable kind in turn; also returns the
/// diagnostics.
pub fn resolve_tokens_from_path(
    path_string: String,
    path: &str,
    config: &Configuration,
    store: &ContentStore,
    depth: u8,
    context: &Context,
) -> (r: (Option<String>, Vec<String>))
    requires
        depth < 255,
    ensures
        r.0 is Some <==> source_of(store@, path@) is Some,
        opt_string(r.0) == from_path_spec(store@, config.max_depth as int, path@, depth as int, context@),
{
    let p = chars_of(path);
    let mut log: Vec<String> = Vec::new();
    let r = match resolve_from_path_chars(&path_string, &p, config, store, depth, context, &mut log) {
        Some(v) => Some(string_of(&v)),
        None => None,
    };
    (r, log)
}

/// Resolving text that holds no open marker gives the text unchanged.
pub proof fn lemma_resolve_without_marker(
    store: Seq<(Seq<char>, Seq<char>)>, max: int, text: Seq<char>, depth: int, ctx: Map<Seq<char>, Seq<char>>,
    open: Seq<char>, close: char,
)
    requires
        0 <= depth <= 255,
        !contains(text, open),
    ensures
        resolve_spec(store, max, text, depth, ctx, open, close) == text,
{
}

/// At or past the depth limit no embed is expanded: each matched token is
/// replaced by nothing, so a chain of embeds longer than the limit ends in
/// empty text rather than in an error.
pub proof fn lemma_depth_limit_strips(
    store: Seq<(Seq<char>, Seq<char>)>, max: int, text: Seq<char>, depth: int, ctx: Map<Seq<char>, Seq<char>>,
    open: Seq<char>, close: char,
)
    requires
        0 <= depth <= 255,
        depth >= max,
    ensures
        resolve_spec(store, max, text, depth, ctx, open, close) == stripped(text, open, close),
{
}

} // verus!
