//! String-keyed tables, such as the name-to-layer lookup of the texture array.
use vstd::hash_map::StringHashMap;
use vstd::prelude::*;

verus! {

/// A table keyed by name, with the operations of a `HashMap<String, V>`:
/// an insertion under a present name replaces its value.
#[verifier::reject_recursive_types(V)]
pub struct NameTable<V> {
    map: StringHashMap<V>,
}

/// For each texture name, the layer of the texture array that holds the
/// decoded image.
pub type TextureTable = NameTable<u32>;

impl<V> NameTable<V> {
    /// The value recorded for each name.
    pub closed spec fn spec_map(&self) -> Map<Seq<char>, V> {
        self.map@
    }

    /// The table holds finitely many names.
    pub closed spec fn wf(&self) -> bool {
        self.map@.dom().finite()
    }

    /// An empty table.
    pub fn new() -> (t: NameTable<V>)
        ensures
            t.wf(),
            t.spec_map() == Map::<Seq<char>, V>::empty(),
    {
        NameTable { map: StringHashMap::new() }
    }

    /// The value recorded for `name`, like `HashMap::get`.
    pub fn get(&self, name: &String) -> (r: Option<&V>)
        requires
            self.wf(),
        ensures
            r == (if self.spec_map().contains_key(name@) {
                Some(&self.spec_map()[name@])
            } else {
                None::<&V>
            }),
    {
        self.map.get(name.as_str())
    }

    /// Records `id` for `name`, replacing an earlier entry, like `HashMap::insert`.
    pub fn insert(&mut self, name: String, id: V)
        requires
            old(self).wf(),
        ensures
            final(self).wf(),
            final(self).spec_map() == old(self).spec_map().insert(name@, id),
    {
        self.map.insert(name, id);
    }

    /// Number of names in the table.
    pub fn len(&self) -> (r: usize)
        requires
            self.wf(),
        ensures
            r == self.spec_map().dom().len(),
    {
        self.map.len()
    }
}

} // verus!
