//! How a build runs, and what the command line asks for.
use vstd::prelude::*;
use crate::text::{bool_text, chars_of, decimal, push_all, push_bool, push_decimal, push_str, string_of};

verus! {

/// The settings of a build. Paths are `/`-separated text.
pub struct Configuration {
    pub root: String,
    pub out: Option<String>,
    pub input_files: Vec<String>,
    pub clean: bool,
    pub write: bool,
    pub verbose: bool,
    pub max_depth: u8,
    pub hide_extension: bool,
}

/// What the command line asks for.
#[derive(PartialEq, Eq, Structural, Clone, Copy, Debug)]
pub enum Action {
    RunHelp,
    RunDist,
    ParamsHelp,
    ShowConfig,
}

/// `base` joined with the relative path `rel`, with one `/` between them.
pub open spec fn join_path(base: Seq<char>, rel: Seq<char>) -> Seq<char> {
    if base.len() == 0 || base.last() == '/' {
        base + rel
    } else {
        base.push('/') + rel
    }
}

pub fn join_path_chars(base: &Vec<char>, rel: &Vec<char>) -> (r: Vec<char>)
    ensures
        r@ == join_path(base@, rel@),
{
    let mut r = crate::text::copy_chars(base);
    if !(base.len() == 0 || base[base.len() - 1] == '/') {
        r.push('/');
    }
    push_all(&mut r, rel);
    r
}

/// The directory the build writes to: `out` when set, else `dist` under the root.
pub open spec fn dist_path(config: &Configuration) -> Seq<char> {
    match config.out {
        Some(out) => out@,
        None => join_path(config.root@, seq!['d', 'i', 's', 't']),
    }
}

pub fn get_dist_path(config: &Configuration) -> (r: String)
    ensures
        r@ == dist_path(config),
{
    match &config.out {
        Some(dist) => {
            let d = chars_of(dist.as_str());
            string_of(&d)
        },
        None => {
            let root = chars_of(config.root.as_str());
            let dist = chars_of("dist");
            proof { reveal_strlit("dist"); }
            assert(dist@ =~= seq!['d', 'i', 's', 't']);
            let r = join_path_chars(&root, &dist);
            string_of(&r)
        },
    }
}

/// `label`, then the value between backticks.
pub open spec fn config_line(label: Seq<char>, value: Seq<char>) -> Seq<char> {
    seq![' ', ' '] + label + seq![':', ' ', '`'] + value + seq!['`']
}

/// The settings, one `  name: `value`` line each, joined by newlines.
pub open spec fn config_text(config: &Configuration) -> Seq<char> {
    config_line(seq!['r', 'o', 'o', 't'], config.root@) + seq!['\n']
        + config_line(seq!['o', 'u', 't'], match config.out {
            Some(out) => out@,
            None => seq!['<', 'r', 'o', 'o', 't', '>', '/', 'd', 'i', 's', 't'],
        }) + seq!['\n']
        + config_line(seq!['c', 'l', 'e', 'a', 'n'], bool_text(config.clean)) + seq!['\n']
        + config_line(seq!['w', 'r', 'i', 't', 'e'], bool_text(config.write)) + seq!['\n']
        + config_line(seq!['m', 'a', 'x', '_', 'd', 'e', 'p', 't', 'h'], decimal(config.max_depth as nat))
}

fn push_line(r: &mut Vec<char>, label: &str, value: &Vec<char>)
    ensures
        final(r)@ == old(r)@ + config_line(label@, value@),
{
    r.push(' ');
    r.push(' ');
    push_str(r, label);
    r.push(':');
    r.push(' ');
    r.push('`');
    push_all(r, value);
    r.push('`');
    assert(final(r)@ =~= old(r)@ + config_line(label@, value@));
}

fn push_newline(r: &mut Vec<char>)
    ensures
        final(r)@ == old(r)@ + seq!['\n'],
{
    r.push('\n');
    assert(final(r)@ =~= old(r)@ + seq!['\n']);
}

impl Configuration {
    /// The settings as text, as the `config` action shows them.
    pub fn describe(&self) -> (r: String)
        ensures
            r@ == config_text(self),
    {
        proof {
            reveal_strlit("root");
            reveal_strlit("out");
            reveal_strlit("clean");
            reveal_strlit("write");
            reveal_strlit("max_depth");
            reveal_strlit("<root>/dist");
        }
        let mut r: Vec<char> = Vec::new();
        let root = chars_of(self.root.as_str());
        push_line(&mut r, "root", &root);
        push_newline(&mut r);
        let out = match &self.out {
            Some(out) => chars_of(out.as_str()),
            None => chars_of("<root>/dist"),
        };
        push_line(&mut r, "out", &out);
        push_newline(&mut r);
        let mut clean: Vec<char> = Vec::new();
        push_bool(&mut clean, self.clean);
        assert(clean@ =~= bool_text(self.clean));
        push_line(&mut r, "clean", &clean);
        push_newline(&mut r);
        let mut write: Vec<char> = Vec::new();
        push_bool(&mut write, self.write);
        assert(write@ =~= bool_text(self.write));
        push_line(&mut r, "write", &write);
        push_newline(&mut r);
        let mut depth: Vec<char> = Vec::new();
        push_decimal(&mut depth, self.max_depth as u64);
        assert(depth@ =~= decimal(self.max_depth as nat));
        push_line(&mut r, "max_depth", &depth);
        assert(r@ =~= config_text(self));
        string_of(&r)
    }
}

} // verus!
