use vstd::prelude::*;
use vstd::hash_map::StringHashMap;

verus! {

/// The links of a page: link text (what the user types) to the relative path it leads to.
/// Each link text occurs once; a later definition of the same text replaces the earlier.
/// Held in a hash map keyed by the link text.
pub struct LinkTable {
    map: StringHashMap<String>,
}

impl View for LinkTable {
    type V = Map<Seq<char>, Seq<char>>;

    closed spec fn view(&self) -> Map<Seq<char>, Seq<char>> {
        self.map@.map_values(|v: String| v@)
    }
}

impl LinkTable {
    /// An empty table.
    pub fn new() -> (t: LinkTable)
        ensures
            t@ == Map::<Seq<char>, Seq<char>>::empty(),
    {
        let t = LinkTable { map: StringHashMap::new() };
        assert(t@ =~= Map::<Seq<char>, Seq<char>>::empty());
        t
    }

    /// The number of links.
    pub fn len(&self) -> (n: usize)
        ensures
            n == self@.len(),
    {
        assert(self@.dom() =~= self.map@.dom());
        self.map.len()
    }

    /// The target of link `key`, if the page defines one.
    pub fn get(&self, key: &String) -> (res: Option<&String>)
        ensures
            match res {
                Some(v) => self@.contains_key(key@) && self@[key@] == v@,
                None => !self@.contains_key(key@),
            },
    {
        self.map.get(key.as_str())
    }

    /// Defines link `key` as leading to `value`, replacing an earlier definition.
    pub fn insert(&mut self, key: String, value: String)
        ensures
            final(self)@ == old(self)@.insert(key@, value@),
    {
        let ghost k = key@;
        let ghost v = value@;
        self.map.insert(key, value);
        assert(self@ =~= old(self)@.insert(k, v));
    }
}

} // verus!
