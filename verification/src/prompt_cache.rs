use vstd::prelude::*;

use vstd::hash_map::StringHashMap;

verus! {

/// A cache of prompt parts keyed by text, held in a hash map.
#[verifier::reject_recursive_types(V)]
pub struct PromptCache<V> {
    entries: StringHashMap<V>,
}

impl<V: View> View for PromptCache<V> {
    type V = Map<Seq<char>, V::V>;

    closed spec fn view(&self) -> Map<Seq<char>, V::V> {
        self.entries@.map_values(|v: V| v@)
    }
}

impl<V: View> PromptCache<V> {
    /// An empty cache.
    pub fn new() -> (out: Self)
        ensures
            out@ == Map::<Seq<char>, V::V>::empty(),
    {
        let out = PromptCache { entries: StringHashMap::new() };
        assert(out@ =~= Map::<Seq<char>, V::V>::empty());
        out
    }

    /// The value cached under `key`, if any.
    pub fn get(&self, key: &str) -> (r: Option<&V>)
        ensures
            match r {
                Some(v) => self@.contains_key(key@) && v@ == self@[key@],
                None => !self@.contains_key(key@),
            },
    {
        self.entries.get(key)
    }

    /// Caches `value` under `key`, replacing what was cached under it.
    pub fn insert(&mut self, key: String, value: V)
        ensures
            final(self)@ == old(self)@.insert(key@, value@),
    {
        let ghost before = self@;
        self.entries.insert(key, value);
        assert(self@ =~= before.insert(key@, value@));
    }
}

} // verus!
