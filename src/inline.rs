//! The inline formatter: code spans, links, images, bold and emphasis in a
//! paragraph, applied as a list of edits from the back to the front.
use vstd::prelude::*;
use crate::scanner::{same_level, same_level_from};
use crate::text::{
    chars_of, copy_chars, find, find_char, find_character, find_pattern, find_from,
    find_pattern_from, push_all, push_range, push_str, slice, string_of,
};

verus! {

/// `char::is_alphanumeric`: alphabetic or numeric in the Unicode sense.
pub uninterp spec fn alnum(c: char) -> bool;

/// Relies on `char::is_alphanumeric`; on ASCII it holds of letters and digits.
#[verifier::external_body]
pub(crate) fn is_alphanumeric(c: char) -> (r: bool)
    ensures
        r == alnum(c),
        (c as u32) < 128 ==> (r == (('a' <= c && c <= 'z') || ('A' <= c && c <= 'Z') || ('0' <= c && c <= '9'))),
{
    c.is_alphanumeric()
}

/// An edit: at `.0`, replace `.2` characters by `.1`.
pub type EditSpec = (int, Seq<char>, int);

/// The character before index `i`, or `.` at the start.
pub open spec fn char_before(p: Seq<char>, i: int) -> char {
    if 0 < i && i <= p.len() { p[i - 1] } else { '.' }
}

/// The character at index `i`, or `.` past the end.
pub open spec fn char_at(p: Seq<char>, i: int) -> char {
    if 0 <= i < p.len() { p[i] } else { '.' }
}

/// A single `c` at `i`, with no `c` right before or after it.
pub open spec fn lone(p: Seq<char>, c: char, i: int) -> bool {
    0 <= i < p.len() && p[i] == c && !(i > 0 && p[i - 1] == c) && !(i + 1 < p.len() && p[i + 1] == c)
}

/// The indices below `n` of lone `c`s, ascending.
pub open spec fn lone_positions(p: Seq<char>, c: char, n: int) -> Seq<int>
    decreases n,
{
    if n <= 0 {
        Seq::empty()
    } else if lone(p, c, n - 1) {
        lone_positions(p, c, n - 1).push(n - 1)
    } else {
        lone_positions(p, c, n - 1)
    }
}

/// The indices below `n` of lone `*`s outside code spans, ascending.
pub open spec fn em_star_positions(p: Seq<char>, n: int) -> Seq<int>
    decreases n,
{
    if n <= 0 {
        Seq::empty()
    } else if lone(p, '*', n - 1) && !in_code(p, n - 1) {
        em_star_positions(p, n - 1).push(n - 1)
    } else {
        em_star_positions(p, n - 1)
    }
}

/// The indices below `n` of lone `_`s outside code spans that do not stand
/// between two alphanumeric characters, ascending.
pub open spec fn em_line_positions(p: Seq<char>, n: int) -> Seq<int>
    decreases n,
{
    if n <= 0 {
        Seq::empty()
    } else if lone(p, '_', n - 1) && free_underscores(p, n - 1, 1) && !in_code(p, n - 1) {
        em_line_positions(p, n - 1).push(n - 1)
    } else {
        em_line_positions(p, n - 1)
    }
}

/// The indices below `n` of `[`s outside code spans, ascending.
pub open spec fn bracket_positions(p: Seq<char>, n: int) -> Seq<int>
    decreases n,
{
    if n <= 0 {
        Seq::empty()
    } else if p[n - 1] == '[' && !in_code(p, n - 1) {
        bracket_positions(p, n - 1).push(n - 1)
    } else {
        bracket_positions(p, n - 1)
    }
}

/// The backticks that delimit code spans.
pub open spec fn code_ticks(p: Seq<char>) -> Seq<int> {
    lone_positions(p, '`', p.len() as int)
}

/// `i` lies in a code span: between the backticks of a pair, both included.
pub open spec fn in_code(p: Seq<char>, i: int) -> bool {
    let t = code_ticks(p);
    exists|k: int| 0 <= k < t.len() / 2 && t[2 * k] <= i <= #[trigger] t[2 * k + 1]
}

/// The edits that turn consecutive pairs of `ps` into `open` and `close`
/// tags, each replacing `len` characters; a last unpaired position is left.
pub open spec fn pair_edits(ps: Seq<int>, open: Seq<char>, close: Seq<char>, len: int) -> Seq<EditSpec> {
    Seq::new((ps.len() / 2 * 2) as nat, |j: int| (ps[j], if j % 2 == 0 { open } else { close }, len))
}

/// The start positions of the non-overlapping occurrences of `pat` in `p`
/// from `i` on, found left to right.
pub open spec fn match_positions(p: Seq<char>, pat: Seq<char>, i: int) -> Seq<int>
    decreases p.len() + 1 - i,
{
    if pat.len() == 0 || i < 0 {
        Seq::empty()
    } else {
        match find_from(p, pat, i) {
            Some(j) => if i <= j && j + pat.len() <= p.len() { seq![j] + match_positions(p, pat, j + pat.len()) } else { Seq::empty() },
            None => Seq::empty(),
        }
    }
}

/// The positions of `s` outside code spans and, for `__`, not between two
/// alphanumeric characters.
pub open spec fn keep_bold(p: Seq<char>, s: Seq<int>, lines: bool) -> Seq<int>
    decreases s.len(),
{
    if s.len() == 0 {
        s
    } else if (!lines || free_underscores(p, s.last(), 2)) && !in_code(p, s.last()) {
        keep_bold(p, s.drop_last(), lines).push(s.last())
    } else {
        keep_bold(p, s.drop_last(), lines)
    }
}

/// A `_` run at `i` of length `n` that does not stand between two
/// alphanumeric characters.
pub open spec fn free_underscores(p: Seq<char>, i: int, n: int) -> bool {
    !(alnum(char_before(p, i)) && alnum(char_at(p, i + n)))
}

/// What follows a `[` at `b` that opens a link or an image: whether an `!`
/// stands before it, the offset of its `]` and the offset of the `)` after
/// the `(` that must follow.
pub open spec fn link_at(p: Seq<char>, b: int) -> Option<(bool, int, int)> {
    if !(0 <= b < p.len()) {
        None
    } else {
        match same_level(None, p.subrange(b, p.len() as int), ']', false) {
            None => None,
            Some(f) => if b + f + 1 < p.len() && p[b + f + 1] == '(' {
                match same_level(None, p.subrange(b + f + 2, p.len() as int), ')', false) {
                    None => None,
                    Some(l) => Some((b > 0 && p[b - 1] == '!', f, l)),
                }
            } else {
                None
            },
        }
    }
}

/// The target between the parentheses, split into the address and the
/// title that `"` after a space opens.
pub open spec fn split_title(target: Seq<char>) -> (Seq<char>, Option<Seq<char>>) {
    match find(target, seq![' ', '"']) {
        Some(ts) => match find_char(target.subrange(ts + 2, target.len() as int), '"') {
            Some(l) => (target.subrange(0, ts), Some(target.subrange(ts + 2, ts + 2 + l))),
            None => (target, None),
        },
        None => (target, None),
    }
}

pub open spec fn title_attr(title: Option<Seq<char>>) -> Seq<char> {
    match title {
        Some(t) => " title=\""@ + t + "\""@,
        None => Seq::empty(),
    }
}

/// The edits of the link or image whose `[` stands at `b`.
pub open spec fn link_edits_at(p: Seq<char>, b: int) -> Seq<EditSpec> {
    match link_at(p, b) {
        None => Seq::empty(),
        Some((img, f, l)) => {
            let target = p.subrange(b + f + 2, b + f + 2 + l);
            let (url, title) = split_title(target);
            if img {
                let tag = "<img src=\""@ + url + "\""@ + " alt=\""@ + p.subrange(b + 1, b + f) + "\""@
                    + title_attr(title) + ">"@;
                seq![(b - 1, tag, f + l + 4)]
            } else {
                let tag = "<a href=\""@ + url + "\""@ + title_attr(title) + ">"@;
                seq![(b, tag, 1), (b + f, "</a>"@, l + 3)]
            }
        },
    }
}

/// The edits of the links and images whose `[` stand at `bs`.
pub open spec fn link_edits(p: Seq<char>, bs: Seq<int>) -> Seq<EditSpec>
    decreases bs.len(),
{
    if bs.len() == 0 {
        Seq::empty()
    } else {
        link_edits(p, bs.drop_last()) + link_edits_at(p, bs.last())
    }
}

/// Every edit of a paragraph, in the order the passes find them: code
/// spans, links and images, `**` and `__` bold, `*` and `_` emphasis.
pub open spec fn paragraph_edits(p: Seq<char>) -> Seq<EditSpec> {
    let len = p.len() as int;
    let ticks = code_ticks(p);
    let brackets = bracket_positions(p, len);
    let bold_stars = keep_bold(p, match_positions(p, seq!['*', '*'], 0), false);
    let bold_lines = keep_bold(p, match_positions(p, seq!['_', '_'], 0), true);
    let em_stars = em_star_positions(p, len);
    let em_lines = em_line_positions(p, len);
    pair_edits(ticks, "<code>"@, "</code>"@, 1)
        + link_edits(p, brackets)
        + pair_edits(bold_stars, "<strong>"@, "</strong>"@, 2)
        + pair_edits(bold_lines, "<strong>"@, "</strong>"@, 2)
        + pair_edits(em_stars, "<em>"@, "</em>"@, 1)
        + pair_edits(em_lines, "<em>"@, "</em>"@, 1)
}

/// `text` with one edit made; a range past the end is cut at the end.
pub open spec fn apply_edit(text: Seq<char>, e: EditSpec) -> Seq<char> {
    let at = if e.0 < 0 { 0 } else if e.0 > text.len() { text.len() as int } else { e.0 };
    let end = if e.0 + e.2 > text.len() { text.len() as int } else if e.0 + e.2 < at { at } else { e.0 + e.2 };
    text.subrange(0, at) + e.1 + text.subrange(end, text.len() as int)
}

/// The index of the edit that goes first: the one at the largest position,
/// the last found among those at that position.
pub open spec fn last_edit(es: Seq<EditSpec>) -> int
    decreases es.len(),
{
    if es.len() <= 1 {
        0
    } else {
        let k = last_edit(es.drop_last());
        if es.last().0 >= es[k].0 { es.len() - 1 } else { k }
    }
}

/// `text` with all edits made, from the largest position to the smallest,
/// later-found edits first among those at one position.
pub open spec fn apply_edits(text: Seq<char>, es: Seq<EditSpec>) -> Seq<char>
    decreases es.len(),
{
    if es.len() == 0 {
        text
    } else {
        let k = last_edit(es);
        if 0 <= k < es.len() {
            apply_edits(apply_edit(text, es[k]), es.remove(k))
        } else {
            text
        }
    }
}

/// The HTML of a paragraph's inline formatting.
pub open spec fn format_inline(p: Seq<char>) -> Seq<char> {
    apply_edits(p, paragraph_edits(p))
}

/// An edit at run time: at `.0`, replace `.2` characters by `.1`.
pub type Edit = (usize, Vec<char>, usize);

pub open spec fn edit_view(e: Edit) -> EditSpec {
    (e.0 as int, e.1@, e.2 as int)
}

pub open spec fn edits_view(v: Seq<Edit>) -> Seq<EditSpec> {
    v.map_values(|e: Edit| edit_view(e))
}

pub open spec fn ints(v: Seq<usize>) -> Seq<int> {
    v.map_values(|i: usize| i as int)
}

fn is_lone(p: &Vec<char>, c: char, i: usize) -> (r: bool)
    requires
        i < p.len(),
    ensures
        r == lone(p@, c, i as int),
{
    p[i] == c && !(i > 0 && p[i - 1] == c) && !(i + 1 < p.len() && p[i + 1] == c)
}

fn free_underscores_exec(p: &Vec<char>, i: usize, n: usize) -> (r: bool)
    requires
        i <= p.len(),
        n <= 2,
    ensures
        r == free_underscores(p@, i as int, n as int),
{
    let before = if i > 0 { p[i - 1] } else { '.' };
    let after = if n < p.len() - i { p[i + n] } else { '.' };
    !(is_alphanumeric(before) && is_alphanumeric(after))
}

/// The indices of lone `c`s, ascending.
fn lone_positions_exec(p: &Vec<char>, c: char) -> (r: Vec<usize>)
    ensures
        ints(r@) == lone_positions(p@, c, p@.len() as int),
        forall|k: int| 0 <= k < r@.len() ==> r@[k] < p.len(),
{
    let mut r: Vec<usize> = Vec::new();
    let mut i: usize = 0;
    while i < p.len()
        invariant
            i <= p.len(),
            ints(r@) == lone_positions(p@, c, i as int),
            forall|k: int| 0 <= k < r@.len() ==> r@[k] < p.len(),
        decreases p.len() - i,
    {
        let ghost before = r@;
        if is_lone(p, c, i) {
            r.push(i);
            assert(ints(r@) =~= ints(before).push(i as int));
        }
        i = i + 1;
    }
    r
}

/// The indices of lone `*`s outside code spans, ascending.
fn em_star_positions_exec(p: &Vec<char>, ticks: &Vec<usize>) -> (r: Vec<usize>)
    requires
        ints(ticks@) == code_ticks(p@),
    ensures
        ints(r@) == em_star_positions(p@, p@.len() as int),
{
    let mut r: Vec<usize> = Vec::new();
    let mut i: usize = 0;
    while i < p.len()
        invariant
            i <= p.len(),
            ints(ticks@) == code_ticks(p@),
            ints(r@) == em_star_positions(p@, i as int),
        decreases p.len() - i,
    {
        let ghost before = r@;
        if is_lone(p, '*', i) && !in_code_exec(p, ticks, i) {
            r.push(i);
            assert(ints(r@) =~= ints(before).push(i as int));
        }
        i = i + 1;
    }
    r
}

/// The indices of lone `_`s outside code spans that do not stand between
/// two alphanumeric characters, ascending.
fn em_line_positions_exec(p: &Vec<char>, ticks: &Vec<usize>) -> (r: Vec<usize>)
    requires
        ints(ticks@) == code_ticks(p@),
    ensures
        ints(r@) == em_line_positions(p@, p@.len() as int),
{
    let mut r: Vec<usize> = Vec::new();
    let mut i: usize = 0;
    while i < p.len()
        invariant
            i <= p.len(),
            ints(ticks@) == code_ticks(p@),
            ints(r@) == em_line_positions(p@, i as int),
        decreases p.len() - i,
    {
        let ghost before = r@;
        if is_lone(p, '_', i) && free_underscores_exec(p, i, 1) && !in_code_exec(p, ticks, i) {
            r.push(i);
            assert(ints(r@) =~= ints(before).push(i as int));
        }
        i = i + 1;
    }
    r
}

/// Whether `i` lies in a code span, the spans being delimited by `ticks`.
fn in_code_exec(p: &Vec<char>, ticks: &Vec<usize>, i: usize) -> (r: bool)
    requires
        ints(ticks@) == code_ticks(p@),
    ensures
        r == in_code(p@, i as int),
{
    let ghost t = code_ticks(p@);
    let mut k: usize = 0;
    while k < ticks.len() / 2
        invariant
            ints(ticks@) == t,
            t == code_ticks(p@),
            k <= ticks.len() / 2,
            forall|j: int| 0 <= j < k ==> !(t[2 * j] <= i <= #[trigger] t[2 * j + 1]),
        decreases ticks.len() / 2 - k,
    {
        assert(t[2 * k as int] == ticks@[2 * k as int] as int);
        assert(t[2 * k + 1] == ticks@[2 * k + 1] as int);
        if ticks[2 * k] <= i && i <= ticks[2 * k + 1] {
            return true;
        }
        k = k + 1;
    }
    false
}

/// The indices of `[`s outside code spans, ascending.
fn bracket_positions_exec(p: &Vec<char>, ticks: &Vec<usize>) -> (r: Vec<usize>)
    requires
        ints(ticks@) == code_ticks(p@),
    ensures
        ints(r@) == bracket_positions(p@, p@.len() as int),
        forall|k: int| 0 <= k < r@.len() ==> r@[k] < p.len() && p@[r@[k] as int] == '[',
{
    let mut r: Vec<usize> = Vec::new();
    let mut i: usize = 0;
    while i < p.len()
        invariant
            i <= p.len(),
            ints(ticks@) == code_ticks(p@),
            ints(r@) == bracket_positions(p@, i as int),
            forall|k: int| 0 <= k < r@.len() ==> r@[k] < p.len() && p@[r@[k] as int] == '[',
        decreases p.len() - i,
    {
        let ghost before = r@;
        if p[i] == '[' && !in_code_exec(p, ticks, i) {
            r.push(i);
            assert(ints(r@) =~= ints(before).push(i as int));
        }
        i = i + 1;
    }
    r
}

/// The start positions of the non-overlapping occurrences of `pat`.
fn match_positions_exec(p: &Vec<char>, pat: &Vec<char>) -> (r: Vec<usize>)
    requires
        pat.len() > 0,
    ensures
        ints(r@) == match_positions(p@, pat@, 0),
        forall|k: int| 0 <= k < r@.len() ==> r@[k] < p.len(),
{
    let mut r: Vec<usize> = Vec::new();
    let mut i: usize = 0;
    while i <= p.len()
        invariant
            pat.len() > 0,
            match_positions(p@, pat@, 0) == ints(r@) + match_positions(p@, pat@, i as int),
            forall|k: int| 0 <= k < r@.len() ==> r@[k] < p.len(),
        decreases p.len() + 1 - i,
    {
        match find_pattern_from(p, pat, i) {
            Some(j) => {
                let ghost before = r@;
                r.push(j);
                assert(ints(r@) =~= ints(before).push(j as int));
                assert(ints(r@) + match_positions(p@, pat@, j + pat.len()) =~= ints(before) + (seq![j as int] + match_positions(p@, pat@, j + pat.len())));
                i = j + pat.len();
            },
            None => {
                assert(match_positions(p@, pat@, i as int) == Seq::<int>::empty());
                assert(ints(r@) + Seq::<int>::empty() =~= ints(r@));
                return r;
            },
        }
    }
    assert(match_positions(p@, pat@, i as int) == Seq::<int>::empty()) by {
        crate::text::lemma_find_from_occurs(p@, pat@, i as int);
    }
    assert(ints(r@) + Seq::<int>::empty() =~= ints(r@));
    r
}

/// The positions of `s` that survive the bold filters.
fn keep_bold_exec(p: &Vec<char>, ticks: &Vec<usize>, s: &Vec<usize>, lines: bool) -> (r: Vec<usize>)
    requires
        ints(ticks@) == code_ticks(p@),
        forall|k: int| 0 <= k < s@.len() ==> s@[k] < p.len(),
    ensures
        ints(r@) == keep_bold(p@, ints(s@), lines),
{
    let mut r: Vec<usize> = Vec::new();
    let mut i: usize = 0;
    while i < s.len()
        invariant
            i <= s.len(),
            ints(ticks@) == code_ticks(p@),
            forall|k: int| 0 <= k < s@.len() ==> s@[k] < p.len(),
            ints(r@) == keep_bold(p@, ints(s@).subrange(0, i as int), lines),
        decreases s.len() - i,
    {
        let ghost before = r@;
        assert(ints(s@).subrange(0, i + 1).drop_last() =~= ints(s@).subrange(0, i as int));
        let pos = s[i];
        if (!lines || free_underscores_exec(p, pos, 2)) && !in_code_exec(p, ticks, pos) {
            r.push(pos);
            assert(ints(r@) =~= ints(before).push(pos as int));
        }
        i = i + 1;
    }
    assert(ints(s@).subrange(0, i as int) =~= ints(s@));
    r
}

/// Appends to `r` the edits that turn consecutive pairs of `ps` into the
/// tags `open` and `close`.
fn push_pair_edits(r: &mut Vec<Edit>, ps: &Vec<usize>, open: &Vec<char>, close: &Vec<char>, len: usize)
    ensures
        edits_view(final(r)@) == edits_view(old(r)@) + pair_edits(ints(ps@), open@, close@, len as int),
{
    let n = ps.len() / 2 * 2;
    let ghost target = pair_edits(ints(ps@), open@, close@, len as int);
    let mut j: usize = 0;
    while j < n
        invariant
            n == ps.len() / 2 * 2,
            n <= ps.len(),
            j <= n,
            target == pair_edits(ints(ps@), open@, close@, len as int),
            edits_view(r@) == edits_view(old(r)@) + target.subrange(0, j as int),
        decreases n - j,
    {
        let ghost before = r@;
        let tag = if j % 2 == 0 { copy_chars(open) } else { copy_chars(close) };
        r.push((ps[j], tag, len));
        assert(edits_view(r@) =~= edits_view(before).push(target[j as int]));
        assert(target.subrange(0, j + 1) =~= target.subrange(0, j as int).push(target[j as int]));
        j = j + 1;
    }
    assert(target.subrange(0, n as int) =~= target);
}

pub open spec fn opt_link(o: Option<(bool, usize, usize)>) -> Option<(bool, int, int)> {
    match o {
        Some((img, f, l)) => Some((img, f as int, l as int)),
        None => None,
    }
}

/// The link or image whose `[` stands at `b`, if one does.
fn link_at_exec(p: &Vec<char>, b: usize) -> (r: Option<(bool, usize, usize)>)
    requires
        b < p.len(),
        p@[b as int] == '[',
    ensures
        opt_link(r) == link_at(p@, b as int),
        r matches Some((img, f, l)) ==> b + f + 2 + l < p.len() && f >= 1,
{
    proof {
        let t = p@.subrange(b as int, p@.len() as int);
        let l1 = crate::scanner::next_layers(Seq::empty(), t[0]);
        assert(l1.len() == 1);
        assert(crate::scanner::scan_level(Seq::empty(), t, 0, ']', false) == crate::scanner::scan_level(l1, t, 1, ']', false));
        crate::scanner::lemma_scan_level_range(l1, t, 1, ']', false);
    }
    let f = match same_level_from(None, p, b, ']', false) {
        Some(f) => f,
        None => return None,
    };
    if b + f + 1 < p.len() && p[b + f + 1] == '(' {
        let l = match same_level_from(None, p, b + f + 2, ')', false) {
            Some(l) => l,
            None => return None,
        };
        let img = b > 0 && p[b - 1] == '!';
        Some((img, f, l))
    } else {
        None
    }
}

pub open spec fn opt_title(o: Option<Vec<char>>) -> Option<Seq<char>> {
    match o {
        Some(t) => Some(t@),
        None => None,
    }
}

/// The address and the title of a link target.
fn split_title_exec(target: &Vec<char>) -> (r: (Vec<char>, Option<Vec<char>>))
    ensures
        (r.0@, opt_title(r.1)) == split_title(target@),
{
    let sep = vec![' ', '"'];
    assert(sep@ == seq![' ', '"']);
    match find_pattern(target, &sep) {
        Some(ts) => {
            let after = slice(target, ts + 2, target.len());
            match find_character(&after, '"') {
                Some(l) => (slice(target, 0, ts), Some(slice(target, ts + 2, ts + 2 + l))),
                None => (copy_chars(target), None),
            }
        },
        None => (copy_chars(target), None),
    }
}

fn push_title(r: &mut Vec<char>, title: &Option<Vec<char>>)
    ensures
        final(r)@ == old(r)@ + title_attr(opt_title(*title)),
{
    match title {
        Some(t) => {
            push_str(r, " title=\"");
            push_all(r, t);
            push_str(r, "\"");
        },
        None => {
            assert(old(r)@ + Seq::<char>::empty() =~= old(r)@);
        },
    }
}

/// Appends the edits of the link or image whose `[` stands at `b`.
fn push_link_edits(r: &mut Vec<Edit>, p: &Vec<char>, b: usize)
    requires
        b < p.len(),
        p@[b as int] == '[',
    ensures
        edits_view(final(r)@) == edits_view(old(r)@) + link_edits_at(p@, b as int),
{
    match link_at_exec(p, b) {
        None => {
            assert(edits_view(r@) =~= edits_view(old(r)@) + Seq::<EditSpec>::empty());
        },
        Some((img, f, l)) => {
            let target = slice(p, b + f + 2, b + f + 2 + l);
            let (url, title) = split_title_exec(&target);
            let ghost before = r@;
            if img {
                let mut tag: Vec<char> = Vec::new();
                push_str(&mut tag, "<img src=\"");
                push_all(&mut tag, &url);
                push_str(&mut tag, "\"");
                push_str(&mut tag, " alt=\"");
                let alt = slice(p, b + 1, b + f);
                push_all(&mut tag, &alt);
                push_str(&mut tag, "\"");
                push_title(&mut tag, &title);
                push_str(&mut tag, ">");
                r.push((b - 1, tag, f + l + 4));
                assert(edits_view(r@) =~= edits_view(before) + link_edits_at(p@, b as int));
            } else {
                let mut tag: Vec<char> = Vec::new();
                push_str(&mut tag, "<a href=\"");
                push_all(&mut tag, &url);
                push_str(&mut tag, "\"");
                push_title(&mut tag, &title);
                push_str(&mut tag, ">");
                r.push((b, tag, 1));
                let close = chars_of("</a>");
                r.push((b + f, close, l + 3));
                assert(edits_view(r@) =~= edits_view(before) + link_edits_at(p@, b as int));
            }
        },
    }
}

/// The index of the edit that goes first.
fn last_edit_exec(es: &Vec<Edit>) -> (k: usize)
    requires
        es.len() > 0,
    ensures
        k as int == last_edit(edits_view(es@)),
        k < es.len(),
{
    let ghost v = edits_view(es@);
    let mut k: usize = 0;
    let mut i: usize = 1;
    assert(v.subrange(0, 1).len() == 1);
    while i < es.len()
        invariant
            1 <= i <= es.len(),
            k < i,
            v == edits_view(es@),
            k as int == last_edit(v.subrange(0, i as int)),
        decreases es.len() - i,
    {
        assert(v.subrange(0, i + 1).drop_last() =~= v.subrange(0, i as int));
        assert(v.subrange(0, i as int)[k as int] == v[k as int]);
        if es[i].0 >= es[k].0 {
            k = i;
        }
        i = i + 1;
    }
    assert(v.subrange(0, i as int) =~= v);
    k
}

/// `text` with one edit made.
fn apply_edit_exec(text: &Vec<char>, e: &Edit) -> (r: Vec<char>)
    ensures
        r@ == apply_edit(text@, edit_view(*e)),
{
    let at: usize = if e.0 > text.len() { text.len() } else { e.0 };
    let end: usize = if e.2 > text.len() - at { text.len() } else { at + e.2 };
    let mut r = slice(text, 0, at);
    push_all(&mut r, &e.1);
    push_range(&mut r, text, end, text.len());
    r
}

/// `text` with all edits made, from the back to the front.
fn apply_edits_exec(text: &Vec<char>, edits: Vec<Edit>) -> (r: Vec<char>)
    ensures
        r@ == apply_edits(text@, edits_view(edits@)),
{
    let mut out = copy_chars(text);
    let mut es = edits;
    while es.len() > 0
        invariant
            apply_edits(text@, edits_view(edits@)) == apply_edits(out@, edits_view(es@)),
        decreases es.len(),
    {
        let ghost v = edits_view(es@);
        let k = last_edit_exec(&es);
        let e = es.remove(k);
        assert(edits_view(es@) =~= v.remove(k as int));
        out = apply_edit_exec(&out, &e);
    }
    out
}

/// Formats the inline elements of a paragraph: code spans, links, images,
/// bold and emphasis.
pub fn format_inline_chars(p: &Vec<char>) -> (r: Vec<char>)
    ensures
        r@ == format_inline(p@),
{
    let mut edits: Vec<Edit> = Vec::new();
    let ticks = lone_positions_exec(p, '`');
    let code_open = chars_of("<code>");
    let code_close = chars_of("</code>");
    push_pair_edits(&mut edits, &ticks, &code_open, &code_close, 1);
    let ghost after_code = edits_view(edits@);
    let brackets = bracket_positions_exec(p, &ticks);
    let mut i: usize = 0;
    while i < brackets.len()
        invariant
            i <= brackets.len(),
            forall|k: int| 0 <= k < brackets@.len() ==> brackets@[k] < p.len() && p@[brackets@[k] as int] == '[',
            edits_view(edits@) == after_code + link_edits(p@, ints(brackets@).subrange(0, i as int)),
        decreases brackets.len() - i,
    {
        assert(ints(brackets@).subrange(0, i + 1).drop_last() =~= ints(brackets@).subrange(0, i as int));
        push_link_edits(&mut edits, p, brackets[i]);
        assert(edits_view(edits@) =~= after_code + link_edits(p@, ints(brackets@).subrange(0, i + 1)));
        i = i + 1;
    }
    assert(ints(brackets@).subrange(0, i as int) =~= ints(brackets@));
    let strong_open = chars_of("<strong>");
    let strong_close = chars_of("</strong>");
    let stars = vec!['*', '*'];
    assert(stars@ == seq!['*', '*']);
    let star_runs = match_positions_exec(p, &stars);
    let bold_stars = keep_bold_exec(p, &ticks, &star_runs, false);
    push_pair_edits(&mut edits, &bold_stars, &strong_open, &strong_close, 2);
    let lines = vec!['_', '_'];
    assert(lines@ == seq!['_', '_']);
    let line_runs = match_positions_exec(p, &lines);
    let bold_lines = keep_bold_exec(p, &ticks, &line_runs, true);
    push_pair_edits(&mut edits, &bold_lines, &strong_open, &strong_close, 2);
    let em_open = chars_of("<em>");
    let em_close = chars_of("</em>");
    let em_stars = em_star_positions_exec(p, &ticks);
    push_pair_edits(&mut edits, &em_stars, &em_open, &em_close, 1);
    let em_lines = em_line_positions_exec(p, &ticks);
    push_pair_edits(&mut edits, &em_lines, &em_open, &em_close, 1);
    assert(edits_view(edits@) =~= paragraph_edits(p@));
    apply_edits_exec(p, edits)
}

/// Formats the inline elements of a paragraph.
pub fn resolve_markdown_paragraph(paragraph: &str) -> (r: String)
    ensures
        r@ == format_inline(paragraph@),
{
    let p = chars_of(paragraph);
    let r = format_inline_chars(&p);
    string_of(&r)
}

} // verus!
