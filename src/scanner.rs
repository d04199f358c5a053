//! The nesting-aware delimiter scanner shared by embed and link parsing.
use vstd::prelude::*;
use crate::text::{chars_of, opt_int};

verus! {

/// The stack of open delimiters after reading `c`: `(`, `<` and `[` always
/// open a layer, a quote closes a layer of the same quote or opens one, and
/// `)`, `>` and `]` close only a layer of their own opener.
pub open spec fn next_layers(layers: Seq<char>, c: char) -> Seq<char> {
    if c == '(' || c == '<' || c == '[' {
        layers.push(c)
    } else if c == '"' || c == '\'' {
        if layers.len() > 0 && layers.last() == c {
            layers.drop_last()
        } else {
            layers.push(c)
        }
    } else if (c == ')' && layers.len() > 0 && layers.last() == '(') || (c == ']'
        && layers.len() > 0 && layers.last() == '[') || (c == '>' && layers.len() > 0
        && layers.last() == '<') {
        layers.drop_last()
    } else {
        layers
    }
}

pub open spec fn initial_layers(start_with: Option<char>) -> Seq<char> {
    match start_with {
        Some(c) => seq![c],
        None => Seq::empty(),
    }
}

/// The first index at or after `i` where `target` stands with no layer open,
/// reading `s` from `i` with the stack `layers`. With `test_first` the stack is
/// tested before the character at the index is read, else after.
pub open spec fn scan_level(layers: Seq<char>, s: Seq<char>, i: int, target: char, test_first: bool) -> Option<int>
    decreases s.len() - i,
{
    if i < 0 || i >= s.len() {
        None
    } else {
        let c = s[i];
        let after = next_layers(layers, c);
        if c == target && (if test_first { layers.len() == 0 } else { after.len() == 0 }) {
            Some(i)
        } else {
            scan_level(after, s, i + 1, target, test_first)
        }
    }
}

/// The index of the first `target` in `s` at nesting depth zero.
pub open spec fn same_level(start_with: Option<char>, s: Seq<char>, target: char, test_first: bool) -> Option<int> {
    scan_level(initial_layers(start_with), s, 0, target, test_first)
}

pub proof fn lemma_scan_level_range(layers: Seq<char>, s: Seq<char>, i: int, target: char, test_first: bool)
    ensures
        scan_level(layers, s, i, target, test_first) matches Some(k) ==> i <= k < s.len() && s[k] == target,
    decreases s.len() - i,
{
    if i >= 0 && i < s.len() {
        lemma_scan_level_range(next_layers(layers, s[i]), s, i + 1, target, test_first);
    }
}

fn next_layers_exec(layers: &mut Vec<char>, c: char)
    ensures
        final(layers)@ == next_layers(old(layers)@, c),
{
    if c == '(' || c == '<' || c == '[' {
        layers.push(c);
    } else if c == '"' || c == '\'' {
        if layers.len() > 0 && layers[layers.len() - 1] == c {
            layers.pop();
        } else {
            layers.push(c);
        }
    } else if (c == ')' && layers.len() > 0 && layers[layers.len() - 1] == '(') || (c == ']'
        && layers.len() > 0 && layers[layers.len() - 1] == '[') || (c == '>' && layers.len() > 0
        && layers[layers.len() - 1] == '<') {
        layers.pop();
    }
}

/// Scans `s` from index `from` for `target` at nesting depth zero; the result
/// counts from `from`.
pub fn same_level_from(start_with: Option<char>, s: &Vec<char>, from: usize, target: char, test_first: bool) -> (r: Option<usize>)
    requires
        from <= s.len(),
    ensures
        opt_int(r) == same_level(start_with, s@.subrange(from as int, s.len() as int), target, test_first),
        r matches Some(k) ==> from + k < s.len() && s@[from + k] == target,
{
    let ghost t = s@.subrange(from as int, s.len() as int);
    let mut layers: Vec<char> = Vec::new();
    if let Some(c) = start_with {
        layers.push(c);
    }
    assert(layers@ == initial_layers(start_with));
    let mut i: usize = from;
    while i < s.len()
        invariant
            from <= i <= s.len(),
            t == s@.subrange(from as int, s.len() as int),
            same_level(start_with, t, target, test_first) == scan_level(layers@, t, i - from, target, test_first),
        decreases s.len() - i,
    {
        let c = s[i];
        assert(t[i - from] == c);
        if test_first {
            if c == target && layers.len() == 0 {
                proof { lemma_scan_level_range(initial_layers(start_with), t, 0, target, test_first); }
                return Some(i - from);
            }
            next_layers_exec(&mut layers, c);
        } else {
            next_layers_exec(&mut layers, c);
            if c == target && layers.len() == 0 {
                proof { lemma_scan_level_range(initial_layers(start_with), t, 0, target, test_first); }
                return Some(i - from);
            }
        }
        i = i + 1;
    }
    None
}

/// The index of the first `test_char` of `input` at nesting depth zero, if
/// any, counted in characters. `start_with` seeds the stack with one opener.
pub fn find_same_level(start_with: Option<char>, input: &str, test_char: char, test_first: bool) -> (r: Option<usize>)
    ensures
        opt_int(r) == same_level(start_with, input@, test_char, test_first),
{
    let s = chars_of(input);
    assert(s@.subrange(0, s@.len() as int) == s@);
    same_level_from(start_with, &s, 0, test_char, test_first)
}

} // verus!
