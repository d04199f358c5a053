//! The files that embeds can load, held in memory by their paths relative to
//! the project root, `/`-separated, in ascending order of path.
use vstd::prelude::*;
use crate::order::{lex_less, lex_lt, lemma_lex_irreflexive, lemma_lex_total, lemma_lex_transitive};
use crate::text::{chars_of, copy_chars, equal_chars, string_of};

verus! {

/// Paths strictly ascending, so each path stands at most once.
pub open spec fn sorted_paths(v: Seq<(Seq<char>, Seq<char>)>) -> bool {
    forall|i: int, j: int| 0 <= i < j < v.len() ==> lex_lt(#[trigger] v[i].0, #[trigger] v[j].0)
}

/// The content of the file at `path`, if there is one.
pub open spec fn file_content(v: Seq<(Seq<char>, Seq<char>)>, path: Seq<char>) -> Option<Seq<char>> {
    if exists|i: int| 0 <= i < v.len() && #[trigger] v[i].0 == path {
        Some(v[choose|i: int| 0 <= i < v.len() && #[trigger] v[i].0 == path].1)
    } else {
        None
    }
}

/// The prefix that the paths of the files directly in `dir` start with.
pub open spec fn dir_prefix(dir: Seq<char>) -> Seq<char> {
    if dir.len() > 0 && dir.last() == '/' {
        dir
    } else {
        dir.push('/')
    }
}

/// `path` names a file directly inside the directory `dir`.
pub open spec fn in_dir(path: Seq<char>, dir: Seq<char>) -> bool {
    let pre = dir_prefix(dir);
    &&& path.len() > pre.len()
    &&& path.subrange(0, pre.len() as int) == pre
    &&& forall|k: int| pre.len() <= k < path.len() ==> path[k] != '/'
}

/// The paths of the files directly inside `dir`, in the order of `v`.
pub open spec fn paths_in_dir(v: Seq<(Seq<char>, Seq<char>)>, dir: Seq<char>) -> Seq<Seq<char>>
    decreases v.len(),
{
    if v.len() == 0 {
        Seq::empty()
    } else {
        let rest = paths_in_dir(v.drop_last(), dir);
        if in_dir(v.last().0, dir) {
            rest.push(v.last().0)
        } else {
            rest
        }
    }
}

/// A snapshot of the project's files.
pub struct ContentStore {
    files: Vec<(Vec<char>, Vec<char>)>,
}

impl View for ContentStore {
    type V = Seq<(Seq<char>, Seq<char>)>;

    closed spec fn view(&self) -> Seq<(Seq<char>, Seq<char>)> {
        self.files@.map_values(|e: (Vec<char>, Vec<char>)| (e.0@, e.1@))
    }
}

pub proof fn lemma_sorted_unique(v: Seq<(Seq<char>, Seq<char>)>, i: int, j: int)
    requires
        sorted_paths(v),
        0 <= i < v.len(),
        0 <= j < v.len(),
        v[i].0 == v[j].0,
    ensures
        i == j,
{
    if i < j {
        lemma_lex_irreflexive(v[i].0);
    } else if j < i {
        lemma_lex_irreflexive(v[i].0);
    }
}

impl ContentStore {
    #[verifier::type_invariant]
    spec fn inv(&self) -> bool {
        sorted_paths(self@)
    }

    /// A store without files.
    pub fn new() -> (r: ContentStore)
        ensures
            r@ == Seq::<(Seq<char>, Seq<char>)>::empty(),
    {
        let r = ContentStore { files: Vec::new() };
        assert(r@ =~= Seq::<(Seq<char>, Seq<char>)>::empty());
        r
    }

    /// Stores `content` as the file at `path`, replacing an earlier file there.
    pub fn add_file_chars(&mut self, path: Vec<char>, content: Vec<char>)
        ensures
            sorted_paths(final(self)@),
            forall|p: Seq<char>| #[trigger] file_content(final(self)@, p)
                == if p == path@ { Some(content@) } else { file_content(old(self)@, p) },
    {
        proof { use_type_invariant(&*self); }
        let ghost old_v = self@;
        let mut files: Vec<(Vec<char>, Vec<char>)> = Vec::new();
        std::mem::swap(&mut self.files, &mut files);
        assert(files@.map_values(|e: (Vec<char>, Vec<char>)| (e.0@, e.1@)) == old_v);
        let mut k: usize = 0;
        while k < files.len() && lex_less(&files[k].0, &path)
            invariant
                k <= files.len(),
                files@.map_values(|e: (Vec<char>, Vec<char>)| (e.0@, e.1@)) == old_v,
                sorted_paths(old_v),
                forall|i: int| 0 <= i < k ==> lex_lt(#[trigger] old_v[i].0, path@),
            decreases files.len() - k,
        {
            k = k + 1;
        }
        let ghost new_v;
        if k < files.len() && equal_chars(&files[k].0, &path) {
            let ghost pk = old_v[k as int].0;
            files.set(k, (path, content));
            proof {
                new_v = files@.map_values(|e: (Vec<char>, Vec<char>)| (e.0@, e.1@));
                assert(new_v =~= old_v.update(k as int, (pk, content@)));
            }
        } else {
            let ghost pv = path@;
            let ghost cv = content@;
            files.insert(k, (path, content));
            proof {
                new_v = files@.map_values(|e: (Vec<char>, Vec<char>)| (e.0@, e.1@));
                assert(new_v =~= old_v.insert(k as int, (pv, cv)));
                if k < old_v.len() {
                    lemma_lex_total(old_v[k as int].0, pv);
                }
                assert forall|i: int, j: int| 0 <= i < j < new_v.len() implies lex_lt(#[trigger] new_v[i].0, #[trigger] new_v[j].0) by {
                    if j < k {
                    } else if j == k {
                    } else if i == k {
                        if j - 1 > k {
                            lemma_lex_transitive(pv, old_v[k as int].0, old_v[j - 1].0);
                        }
                    } else if i < k {
                        if j - 1 > k {
                            lemma_lex_transitive(old_v[i].0, pv, old_v[k as int].0);
                            lemma_lex_transitive(old_v[i].0, old_v[k as int].0, old_v[j - 1].0);
                        } else {
                            lemma_lex_transitive(old_v[i].0, pv, old_v[k as int].0);
                        }
                    } else {
                    }
                }
            }
        }
        self.files = files;
        proof {
            let v = self@;
            assert(v == new_v);
            assert(sorted_paths(v));
            assert forall|p: Seq<char>| #[trigger] file_content(v, p)
                == if p == path@ { Some(content@) } else { file_content(old_v, p) } by {
                if p == path@ {
                    assert(v[k as int].0 == p);
                    let c = choose|i: int| 0 <= i < v.len() && #[trigger] v[i].0 == p;
                    lemma_sorted_unique(v, c, k as int);
                } else {
                    if exists|i: int| 0 <= i < old_v.len() && #[trigger] old_v[i].0 == p {
                        let i0 = choose|i: int| 0 <= i < old_v.len() && #[trigger] old_v[i].0 == p;
                        let j0: int = if v.len() == old_v.len() || i0 < k { i0 } else { i0 + 1 };
                        assert(v[j0].0 == p);
                        let c = choose|i: int| 0 <= i < v.len() && #[trigger] v[i].0 == p;
                        lemma_sorted_unique(v, c, j0);
                    } else {
                        if exists|i: int| 0 <= i < v.len() && #[trigger] v[i].0 == p {
                            let c = choose|i: int| 0 <= i < v.len() && #[trigger] v[i].0 == p;
                            if v.len() == old_v.len() || c < k {
                                assert(old_v[c].0 == p);
                            } else {
                                assert(old_v[c - 1].0 == p);
                            }
                        }
                    }
                }
            }
        }
    }

    /// Stores `content` as the file at `path`, replacing an earlier file there.
    pub fn add_file(&mut self, path: &str, content: &str)
        ensures
            sorted_paths(final(self)@),
            forall|p: Seq<char>| #[trigger] file_content(final(self)@, p)
                == if p == path@ { Some(content@) } else { file_content(old(self)@, p) },
    {
        let p = chars_of(path);
        let c = chars_of(content);
        self.add_file_chars(p, c);
    }

    /// The content of the file at `path`.
    pub fn lookup(&self, path: &Vec<char>) -> (r: Option<Vec<char>>)
        ensures
            opt_chars(r) == file_content(self@, path@),
    {
        proof { use_type_invariant(self); }
        let mut i: usize = 0;
        while i < self.files.len()
            invariant
                i <= self.files.len(),
                sorted_paths(self@),
                forall|j: int| 0 <= j < i ==> #[trigger] self@[j].0 != path@,
            decreases self.files.len() - i,
        {
            if equal_chars(&self.files[i].0, path) {
                proof {
                    assert(self@[i as int].0 == path@);
                    let c = choose|j: int| 0 <= j < self@.len() && #[trigger] self@[j].0 == path@;
                    lemma_sorted_unique(self@, c, i as int);
                }
                return Some(copy_chars(&self.files[i].1));
            }
            i = i + 1;
        }
        None
    }

    /// The content of the file at `path`.
    pub fn content(&self, path: &str) -> (r: Option<String>)
        ensures
            r is Some <==> file_content(self@, path@) is Some,
            r matches Some(c) ==> file_content(self@, path@) == Some(c@),
    {
        let p = chars_of(path);
        match self.lookup(&p) {
            Some(c) => Some(string_of(&c)),
            None => None,
        }
    }

    /// The paths of the files directly inside `dir`, in ascending order.
    pub fn files_in_dir(&self, dir: &Vec<char>) -> (r: Vec<Vec<char>>)
        ensures
            r@.map_values(|p: Vec<char>| p@) == paths_in_dir(self@, dir@),
            sorted_paths(self@),
    {
        proof { use_type_invariant(self); }
        let mut pre = copy_chars(dir);
        if !(pre.len() > 0 && pre[pre.len() - 1] == '/') {
            pre.push('/');
        }
        assert(pre@ == dir_prefix(dir@));
        let mut r: Vec<Vec<char>> = Vec::new();
        let mut i: usize = 0;
        while i < self.files.len()
            invariant
                i <= self.files.len(),
                pre@ == dir_prefix(dir@),
                r@.map_values(|p: Vec<char>| p@) == paths_in_dir(self@.subrange(0, i as int), dir@),
            decreases self.files.len() - i,
        {
            let ghost before = r@;
            assert(self@.subrange(0, i + 1).drop_last() =~= self@.subrange(0, i as int));
            if is_in_dir(&self.files[i].0, &pre) {
                r.push(copy_chars(&self.files[i].0));
                assert(r@.map_values(|p: Vec<char>| p@) =~= before.map_values(|p: Vec<char>| p@).push(self@[i as int].0));
            }
            i = i + 1;
        }
        assert(self@.subrange(0, i as int) =~= self@);
        r
    }
}

pub open spec fn opt_chars(o: Option<Vec<char>>) -> Option<Seq<char>> {
    match o {
        Some(v) => Some(v@),
        None => None,
    }
}

fn is_in_dir(path: &Vec<char>, pre: &Vec<char>) -> (r: bool)
    ensures
        r == (path@.len() > pre@.len() && path@.subrange(0, pre@.len() as int) == pre@
            && forall|k: int| pre@.len() <= k < path@.len() ==> path@[k] != '/'),
{
    if path.len() <= pre.len() || !crate::text::matches_at(path, pre, 0) {
        return false;
    }
    let mut k: usize = pre.len();
    while k < path.len()
        invariant
            pre.len() <= k <= path.len(),
            forall|j: int| pre@.len() <= j < k ==> path@[j] != '/',
        decreases path.len() - k,
    {
        if path[k] == '/' {
            return false;
        }
        k = k + 1;
    }
    true
}

} // verus!
