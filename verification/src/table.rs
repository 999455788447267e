//! A map from names to values, kept as a list of bindings in which a later
//! binding of a name hides every earlier one.

use vstd::prelude::*;

verus! {

/// The map that a list of bindings stands for: each binding, taken in order,
/// is inserted under its name, so the last binding of a name is the one seen.
pub open spec fn bindings_map<V: View>(bindings: Seq<(String, V)>) -> Map<Seq<char>, V::V>
    decreases bindings.len(),
{
    if bindings.len() == 0 {
        Map::empty()
    } else {
        bindings_map(bindings.drop_last()).insert(bindings.last().0@, bindings.last().1@)
    }
}

/// A finite map keyed by strings.
#[derive(Debug, Clone)]
pub struct StrMap<V> {
    bindings: Vec<(String, V)>,
}

impl<V: View> View for StrMap<V> {
    type V = Map<Seq<char>, V::V>;

    closed spec fn view(&self) -> Map<Seq<char>, V::V> {
        bindings_map(self.bindings@)
    }
}

impl<V: View> StrMap<V> {
    /// The empty map.
    pub fn new() -> (m: Self)
        ensures
            m@ == Map::<Seq<char>, V::V>::empty(),
    {
        StrMap { bindings: Vec::new() }
    }

    /// Binds `key` to `value`, replacing what `key` was bound to before.
    pub fn insert(&mut self, key: String, value: V)
        ensures
            final(self)@ == old(self)@.insert(key@, value@),
    {
        let ghost before = self.bindings@;
        self.bindings.push((key, value));
        assert(self.bindings@.drop_last() =~= before);
    }

    /// Takes all the bindings out of the map, which is empty afterwards.
    pub fn take(&mut self) -> (taken: Self)
        ensures
            taken@ == old(self)@,
            final(self)@ == Map::<Seq<char>, V::V>::empty(),
    {
        let mut taken = StrMap { bindings: Vec::new() };
        std::mem::swap(&mut self.bindings, &mut taken.bindings);
        taken
    }

    /// The value bound to `key`, if any.
    pub fn get(&self, key: &str) -> (r: Option<&V>)
        ensures
            match r {
                Some(v) => self@.contains_key(key@) && v@ == self@[key@],
                None => !self@.contains_key(key@),
            },
    {
        let mut i: usize = self.bindings.len();
        assert(self.bindings@.take(i as int) =~= self.bindings@);
        while i > 0
            invariant
                i <= self.bindings.len(),
                self@.contains_key(key@) == bindings_map(self.bindings@.take(i as int)).contains_key(
                    key@,
                ),
                self@.contains_key(key@) ==> self@[key@] == bindings_map(
                    self.bindings@.take(i as int),
                )[key@],
            decreases i,
        {
            i = i - 1;
            let ghost prefix = self.bindings@.take(i as int + 1);
            assert(prefix.drop_last() =~= self.bindings@.take(i as int));
            assert(prefix.last() == self.bindings@[i as int]);
            if *self.bindings[i].0.as_str() == *key {
                return Some(&self.bindings[i].1);
            }
        }
        None
    }

    /// Whether `key` is bound.
    pub fn contains_key(&self, key: &str) -> (r: bool)
        ensures
            r == self@.contains_key(key@),
    {
        self.get(key).is_some()
    }
}

} // verus!
