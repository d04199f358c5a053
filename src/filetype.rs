//! The kinds of files a page or an embed can be made of.
use vstd::prelude::*;
use crate::text::chars_of;

verus! {

/// A kind of file, known by its extension.
#[derive(PartialEq, Eq, Structural, Clone, Copy, Debug)]
pub enum FileType {
    Directory,
    FileHTML,
    FileMarkdown,
    FileText,
}

/// The extension of a file of kind `ft`.
pub open spec fn ext_of(ft: FileType) -> Seq<char> {
    match ft {
        FileType::FileHTML => seq!['h', 't', 'm', 'l'],
        FileType::FileMarkdown => seq!['m', 'd'],
        FileType::FileText => seq!['t', 'x', 't'],
        FileType::Directory => Seq::empty(),
    }
}

/// The kinds of files that can be loaded, in the order they are tried.
pub open spec fn valid_filetypes() -> Seq<FileType> {
    seq![FileType::FileHTML, FileType::FileMarkdown, FileType::FileText]
}

/// The last index where `c` stands in `s`.
pub open spec fn last_index_of(s: Seq<char>, c: char) -> Option<int>
    decreases s.len(),
{
    if s.len() == 0 {
        None
    } else if s.last() == c {
        Some(s.len() - 1)
    } else {
        last_index_of(s.drop_last(), c)
    }
}

/// The last component of a `/`-separated path.
pub open spec fn file_name(p: Seq<char>) -> Seq<char> {
    match last_index_of(p, '/') {
        Some(k) => p.subrange(k + 1, p.len() as int),
        None => p,
    }
}

/// The extension of the path `p`: what follows the last `.` of its file
/// name, when that `.` is not the name's first character.
pub open spec fn path_extension(p: Seq<char>) -> Option<Seq<char>> {
    let name = file_name(p);
    match last_index_of(name, '.') {
        Some(k) => if k == 0 || name == seq!['.', '.'] {
            None
        } else {
            Some(name.subrange(k + 1, name.len() as int))
        },
        None => None,
    }
}

/// The path at which a file of kind `ft` for `p` is looked for: `p` itself
/// when it already has that extension, else `p` with the extension added.
pub open spec fn candidate_path(p: Seq<char>, ft: FileType) -> Seq<char> {
    if path_extension(p) == Some(ext_of(ft)) {
        p
    } else {
        p.push('.') + ext_of(ft)
    }
}

/// The path has the extension of one of the loadable kinds.
pub open spec fn valid_extension(p: Seq<char>) -> bool {
    exists|i: int| 0 <= i < 3 && path_extension(p) == Some(#[trigger] ext_of(valid_filetypes()[i]))
}

pub proof fn lemma_last_index(s: Seq<char>, c: char)
    ensures
        last_index_of(s, c) matches Some(k) ==> 0 <= k < s.len() && s[k] == c
            && forall|j: int| k < j < s.len() ==> s[j] != c,
        last_index_of(s, c) is None ==> forall|j: int| 0 <= j < s.len() ==> s[j] != c,
    decreases s.len(),
{
    if s.len() > 0 && s.last() != c {
        let t = s.drop_last();
        lemma_last_index(t, c);
        assert forall|j: int| 0 <= j < t.len() implies #[trigger] t[j] == s[j] by {}
        if let Some(k) = last_index_of(t, c) {
            assert forall|j: int| k < j < s.len() implies s[j] != c by {
                if j < t.len() {
                    assert(t[j] == s[j]);
                }
            }
        } else {
            assert forall|j: int| 0 <= j < s.len() implies s[j] != c by {
                if j < t.len() {
                    assert(t[j] == s[j]);
                }
            }
        }
    }
}

pub fn last_index_exec(s: &Vec<char>, c: char) -> (r: Option<usize>)
    ensures
        crate::text::opt_int(r) == last_index_of(s@, c),
        r matches Some(k) ==> k < s.len(),
{
    let mut i: usize = s.len();
    assert(s@.subrange(0, i as int) =~= s@);
    while i > 0
        invariant
            i <= s.len(),
            last_index_of(s@, c) == last_index_of(s@.subrange(0, i as int), c),
        decreases i,
    {
        assert(s@.subrange(0, i as int).drop_last() =~= s@.subrange(0, i - 1));
        if s[i - 1] == c {
            return Some(i - 1);
        }
        i = i - 1;
    }
    None
}

/// The extension of the path `p`, if it has one.
pub fn extension_of(p: &Vec<char>) -> (r: Option<Vec<char>>)
    ensures
        crate::store::opt_chars(r) == path_extension(p@),
{
    let name = match last_index_exec(p, '/') {
        Some(k) => {
            proof { lemma_last_index(p@, '/'); }
            crate::text::slice(p, k + 1, p.len())
        },
        None => crate::text::copy_chars(p),
    };
    assert(name@ == file_name(p@));
    match last_index_exec(&name, '.') {
        Some(k) => {
            proof { lemma_last_index(name@, '.'); }
            if k == 0 || (name.len() == 2 && name[0] == '.' && name[1] == '.') {
                assert(k != 0 ==> name@ == seq!['.', '.'] ==> name@.len() == 2);
                proof {
                    if k != 0 {
                        assert(name@ =~= seq!['.', '.']);
                    }
                }
                None
            } else {
                assert(name@ != seq!['.', '.']);
                Some(crate::text::slice(&name, k + 1, name.len()))
            }
        },
        None => None,
    }
}

impl FileType {
    /// The extension of files of this kind.
    pub fn extension(&self) -> (r: &'static str)
        requires
            *self != FileType::Directory,
        ensures
            r@ == ext_of(*self),
    {
        proof {
            reveal_strlit("html");
            reveal_strlit("md");
            reveal_strlit("txt");
        }
        match self {
            FileType::FileHTML => "html",
            FileType::FileMarkdown => "md",
            FileType::FileText => "txt",
            FileType::Directory => "",
        }
    }

    /// Whether this kind is a file rather than a directory.
    pub fn is_file(&self) -> (r: bool)
        ensures
            r == (*self != FileType::Directory),
    {
        match self {
            FileType::Directory => false,
            _ => true,
        }
    }

    /// The kinds of files that can be loaded, in the order they are tried.
    pub fn get_valid_filetypes() -> (r: Vec<FileType>)
        ensures
            r@ == valid_filetypes(),
    {
        let r = vec![FileType::FileHTML, FileType::FileMarkdown, FileType::FileText];
        assert(r@ =~= valid_filetypes());
        r
    }

    /// Whether `path` has the extension of one of the loadable kinds.
    pub fn has_valid_extension_chars(path: &Vec<char>) -> (r: bool)
        ensures
            r == valid_extension(path@),
    {
        let types = FileType::get_valid_filetypes();
        match extension_of(path) {
            Some(ext) => {
                let mut i: usize = 0;
                while i < types.len()
                    invariant
                        i <= types.len(),
                        types@ == valid_filetypes(),
                        crate::store::opt_chars(Some(ext)) == path_extension(path@),
                        forall|j: int| 0 <= j < i ==> path_extension(path@) != Some(#[trigger] ext_of(valid_filetypes()[j])),
                    decreases types.len() - i,
                {
                    let e = chars_of(types[i].extension());
                    if crate::text::equal_chars(&e, &ext) {
                        return true;
                    }
                    i = i + 1;
                }
                false
            },
            None => false,
        }
    }

    /// Whether `path` has the extension of one of the loadable kinds.
    pub fn has_valid_extension(path: &str) -> (r: bool)
        ensures
            r == valid_extension(path@),
    {
        let p = chars_of(path);
        FileType::has_valid_extension_chars(&p)
    }
}

/// The path at which a file of kind `ft` for `p` is looked for.
pub fn candidate_path_exec(p: &Vec<char>, ft: FileType) -> (r: Vec<char>)
    requires
        ft != FileType::Directory,
    ensures
        r@ == candidate_path(p@, ft),
{
    let ext = chars_of(ft.extension());
    let same = match extension_of(p) {
        Some(e) => crate::text::equal_chars(&e, &ext),
        None => false,
    };
    if same {
        crate::text::copy_chars(p)
    } else {
        let mut r = crate::text::copy_chars(p);
        r.push('.');
        crate::text::push_all(&mut r, &ext);
        r
    }
}

impl FileType {
    /// Converts the `content` of a file of this kind to HTML at `depth`:
    /// HTML has its embeds resolved, Markdown is converted, text is kept.
    #[verifier::rlimit(40)]
    pub fn convert_content_chars(
        &self,
        path: &String,
        content: &Vec<char>,
        config: &crate::config::Configuration,
        store: &crate::store::ContentStore,
        depth: u8,
        context: &crate::context::Context,
        log: &mut Vec<String>,
    ) -> (r: Vec<char>)
        requires
            *self != FileType::Directory,
        ensures
            crate::embed::log_kept(old(log)@, final(log)@),
            *self == FileType::FileText ==> r@ == content@,
            *self == FileType::FileHTML && !crate::text::contains(content@, seq!['<', '#', '#']) ==> r@ == content@,
            *self == FileType::FileHTML && depth >= config.max_depth
                ==> r@ == crate::embed::stripped(content@, seq!['<', '#', '#'], '>'),
            r@ == crate::embed::convert_spec(store@, config.max_depth as int, *self, content@, depth as int, context@),
            *self == FileType::FileHTML && crate::embed::resolve_warns(store@, config.max_depth as int, content@, depth as int, context@, seq!['<', '#', '#'], '>')
                ==> final(log)@.len() > old(log)@.len(),
            *self == FileType::FileMarkdown && crate::embed::resolve_warns(store@, config.max_depth as int, content@, depth as int, context@, seq!['[', '#', '#'], ']')
                ==> final(log)@.len() > old(log)@.len(),
        decreases 257 - depth as int, 3int, 0int, 0int, 0int,
    {
        match self {
            FileType::FileHTML => crate::embed::resolve_html_chars(path, config, store, content, depth, context, log),
            FileType::FileMarkdown => {
                let open = vec!['<', 'p', '>'];
                let close = vec!['<', '/', 'p', '>'];
                assert(open@ == seq!['<', 'p', '>']);
                assert(close@ == seq!['<', '/', 'p', '>']);
                crate::markdown::resolve_markdown_chars(path, config, store, content, depth, context, &open, &close, false, log)
            },
            _ => crate::text::copy_chars(content),
        }
    }
}

impl FileType {
    /// Converts the `content` of a file of this kind to HTML at `depth`; also
    /// returns the diagnostics.
    pub fn convert_content(
        &self,
        path_string: String,
        content: &str,
        config: &crate::config::Configuration,
        store: &crate::store::ContentStore,
        depth: u8,
        context: &crate::context::Context,
    ) -> (r: (String, Vec<String>))
        requires
            *self != FileType::Directory,
        ensures
            *self == FileType::FileText ==> r.0@ == content@,
            *self == FileType::FileHTML && !crate::text::contains(content@, seq!['<', '#', '#']) ==> r.0@ == content@,
            *self == FileType::FileHTML && depth >= config.max_depth
                ==> r.0@ == crate::embed::stripped(content@, seq!['<', '#', '#'], '>'),
            r.0@ == crate::embed::convert_spec(store@, config.max_depth as int, *self, content@, depth as int, context@),
            *self == FileType::FileHTML && crate::embed::resolve_warns(store@, config.max_depth as int, content@, depth as int, context@, seq!['<', '#', '#'], '>') ==> r.1@.len() > 0,
            *self == FileType::FileMarkdown && crate::embed::resolve_warns(store@, config.max_depth as int, content@, depth as int, context@, seq!['[', '#', '#'], ']') ==> r.1@.len() > 0,
    {
        let c = chars_of(content);
        let mut log: Vec<String> = Vec::new();
        let r = self.convert_content_chars(&path_string, &c, config, store, depth, context, &mut log);
        (crate::text::string_of(&r), log)
    }
}

} // verus!
