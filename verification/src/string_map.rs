//! Maps keyed by strings.

use vstd::prelude::*;

verus! {

/// A map from strings to values. An insertion under a key that is already there replaces
/// the value.
pub struct StringMap<V> {
    /// Every insertion so far; the latest one under a key counts.
    insertions: Vec<(String, V)>,
}

/// The map that a row of insertions makes.
spec fn map_after<V>(insertions: Seq<(String, V)>) -> Map<Seq<char>, V>
    decreases insertions.len(),
{
    if insertions.len() == 0 {
        Map::empty()
    } else {
        map_after(insertions.drop_last()).insert(insertions.last().0@, insertions.last().1)
    }
}

impl<V> View for StringMap<V> {
    type V = Map<Seq<char>, V>;

    closed spec fn view(&self) -> Map<Seq<char>, V> {
        map_after(self.insertions@)
    }
}

impl<V> StringMap<V> {
    /// The empty map.
    pub fn new() -> (map: Self)
        ensures
            map@ == Map::<Seq<char>, V>::empty(),
    {
        StringMap { insertions: Vec::new() }
    }

    /// Maps `key` to `value`.
    pub fn insert(&mut self, key: String, value: V)
        ensures
            final(self)@ == old(self)@.insert(key@, value),
    {
        let ghost before = self.insertions@;
        self.insertions.push((key, value));
        assert(self.insertions@.drop_last() =~= before);
    }

    /// What `key` maps to.
    pub fn get(&self, key: &String) -> (value: Option<&V>)
        ensures
            match value {
                Some(v) => self@.contains_key(key@) && *v == self@[key@],
                None => !self@.contains_key(key@),
            },
    {
        let mut left: usize = self.insertions.len();
        assert(self.insertions@.take(left as int) =~= self.insertions@);
        while left > 0
            invariant
                left <= self.insertions.len(),
                self@.contains_key(key@) == map_after(
                    self.insertions@.take(left as int),
                ).contains_key(key@),
                self@.contains_key(key@) ==> self@[key@] == map_after(
                    self.insertions@.take(left as int),
                )[key@],
            decreases left,
        {
            assert(self.insertions@.take(left as int).drop_last() =~= self.insertions@.take(
                left - 1,
            ));
            left -= 1;
            if self.insertions[left].0 == *key {
                return Some(&self.insertions[left].1);
            }
        }
        None
    }
}

} // verus!
