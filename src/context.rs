//! The variables an embed can read: a map from names to values.
use vstd::prelude::*;
use crate::text::{chars_of, string_of, copy_chars};

verus! {

/// Variable bindings. A later binding of a name replaces an earlier one.
pub struct Context {
    entries: Vec<(Vec<char>, Vec<char>)>,
}

/// The map that a list of bindings denotes, later bindings winning.
pub open spec fn bindings_map(s: Seq<(Vec<char>, Vec<char>)>) -> Map<Seq<char>, Seq<char>>
    decreases s.len(),
{
    if s.len() == 0 {
        Map::empty()
    } else {
        bindings_map(s.drop_last()).insert(s.last().0@, s.last().1@)
    }
}

impl View for Context {
    type V = Map<Seq<char>, Seq<char>>;

    closed spec fn view(&self) -> Map<Seq<char>, Seq<char>> {
        bindings_map(self.entries@)
    }
}

impl Context {
    /// A context without bindings.
    pub fn new() -> (r: Context)
        ensures
            r@ == Map::<Seq<char>, Seq<char>>::empty(),
    {
        Context { entries: Vec::new() }
    }

    /// Binds `key` to `value`, replacing an earlier binding of `key`.
    pub fn insert_chars(&mut self, key: Vec<char>, value: Vec<char>)
        ensures
            final(self)@ == old(self)@.insert(key@, value@),
    {
        self.entries.push((key, value));
        assert(self.entries@.drop_last() =~= old(self).entries@);
    }

    /// Binds `key` to `value`, replacing an earlier binding of `key`.
    pub fn insert(&mut self, key: &str, value: &str)
        ensures
            final(self)@ == old(self)@.insert(key@, value@),
    {
        let k = chars_of(key);
        let v = chars_of(value);
        self.insert_chars(k, v);
    }

    /// The value bound to `key`, if any.
    pub fn lookup(&self, key: &Vec<char>) -> (r: Option<Vec<char>>)
        ensures
            r is Some <==> self@.contains_key(key@),
            r matches Some(v) ==> v@ == self@[key@],
    {
        let mut i: usize = self.entries.len();
        assert(self.entries@.subrange(0, i as int) =~= self.entries@);
        while i > 0
            invariant
                i <= self.entries.len(),
                bindings_map(self.entries@).contains_key(key@) == bindings_map(self.entries@.subrange(0, i as int)).contains_key(key@),
                bindings_map(self.entries@.subrange(0, i as int)).contains_key(key@) ==>
                    bindings_map(self.entries@)[key@] == bindings_map(self.entries@.subrange(0, i as int))[key@],
            decreases i,
        {
            let ghost pre = self.entries@.subrange(0, i as int);
            assert(pre.drop_last() =~= self.entries@.subrange(0, i - 1));
            if crate::text::equal_chars(&self.entries[i - 1].0, key) {
                return Some(copy_chars(&self.entries[i - 1].1));
            }
            i = i - 1;
        }
        assert(self.entries@.subrange(0, 0) =~= Seq::<(Vec<char>, Vec<char>)>::empty());
        None
    }

    /// The value bound to `key`, if any.
    pub fn get(&self, key: &str) -> (r: Option<String>)
        ensures
            r is Some <==> self@.contains_key(key@),
            r matches Some(v) ==> v@ == self@[key@],
    {
        let k = chars_of(key);
        match self.lookup(&k) {
            Some(v) => Some(string_of(&v)),
            None => None,
        }
    }

    /// A context with the same bindings.
    pub fn duplicate(&self) -> (r: Context)
        ensures
            r@ == self@,
    {
        let mut entries: Vec<(Vec<char>, Vec<char>)> = Vec::new();
        let mut i: usize = 0;
        while i < self.entries.len()
            invariant
                i <= self.entries.len(),
                bindings_map(entries@) == bindings_map(self.entries@.subrange(0, i as int)),
            decreases self.entries.len() - i,
        {
            let k = copy_chars(&self.entries[i].0);
            let v = copy_chars(&self.entries[i].1);
            let ghost before = entries@;
            entries.push((k, v));
            assert(entries@.drop_last() == before);
            assert(self.entries@.subrange(0, i + 1).drop_last() =~= self.entries@.subrange(0, i as int));
            i = i + 1;
        }
        assert(self.entries@.subrange(0, i as int) =~= self.entries@);
        Context { entries }
    }
}

} // verus!
