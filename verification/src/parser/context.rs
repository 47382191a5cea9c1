//! The variables a rule stores with `@put` and reads with `@get`.

use vstd::prelude::*;
use crate::strings::{chars_eq, slice};

verus! {

/// The variables of one rule evaluation, latest value per key.
pub struct Context {
    entries: Vec<(Vec<char>, Vec<char>)>,
}

/// The map the entries stand for: a later entry overrides an earlier one.
pub open spec fn entries_map(e: Seq<(Vec<char>, Vec<char>)>) -> Map<Seq<char>, Seq<char>>
    decreases e.len(),
{
    if e.len() == 0 {
        Map::empty()
    } else {
        entries_map(e.drop_last()).insert(e.last().0@, e.last().1@)
    }
}

impl View for Context {
    type V = Map<Seq<char>, Seq<char>>;

    closed spec fn view(&self) -> Map<Seq<char>, Seq<char>> {
        entries_map(self.entries@)
    }
}

/// The value of a key, if the map has one.
pub open spec fn map_get(m: Map<Seq<char>, Seq<char>>, k: Seq<char>) -> Option<Seq<char>> {
    if m.dom().contains(k) {
        Some(m[k])
    } else {
        None
    }
}

impl Context {
    /// An empty context.
    pub fn new() -> (r: Context)
        ensures
            r@ == Map::<Seq<char>, Seq<char>>::empty(),
    {
        Context { entries: Vec::new() }
    }

    /// Stores `value` under `key`.
    pub fn insert(&mut self, key: &[char], value: &[char])
        ensures
            final(self)@ == old(self)@.insert(key@, value@),
    {
        let k = slice(key, 0, key.len());
        let v = slice(value, 0, value.len());
        assert(k@ =~= key@);
        assert(v@ =~= value@);
        self.entries.push((k, v));
        assert(self.entries@.drop_last() =~= old(self).entries@);
    }

    /// The value stored under `key`.
    pub fn get(&self, key: &[char]) -> (r: Option<Vec<char>>)
        ensures
            match r {
                Some(v) => map_get(self@, key@) == Some(v@),
                None => map_get(self@, key@) is None,
            },
    {
        let mut j = self.entries.len();
        assert(self.entries@.take(j as int) =~= self.entries@);
        while j > 0
            invariant
                j <= self.entries@.len(),
                map_get(self@, key@) == map_get(entries_map(self.entries@.take(j as int)), key@),
            decreases j,
        {
            let ghost pre = self.entries@.take(j as int);
            assert(pre.drop_last() =~= self.entries@.take(j - 1));
            if chars_eq(self.entries[j - 1].0.as_slice(), key) {
                let v = slice(self.entries[j - 1].1.as_slice(), 0, self.entries[j - 1].1.len());
                assert(v@ =~= self.entries@[j - 1].1@);
                return Some(v);
            }
            j = j - 1;
        }
        None
    }
}

} // verus!
