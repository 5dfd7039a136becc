use vstd::prelude::*;

use dashmap::DashMap;

use crate::address::ActorPath;

verus! {

#[verifier::external_type_specification]
#[verifier::external_body]
#[verifier::reject_recursive_types(K)]
#[verifier::reject_recursive_types(V)]
#[verifier::reject_recursive_types(S)]
pub struct ExDashMap<K, V, S>(DashMap<K, V, S>);

/// Path segments to actor identity.
pub type PathTable = DashMap<Vec<String>, u64>;

/// The entries of a path table: the segments of a path to an actor identity.
pub uninterp spec fn table_entries(m: PathTable) -> Map<Seq<Seq<char>>, u64>;

/// A table without entries.
pub open spec fn no_entries() -> Map<Seq<Seq<char>>, u64> {
    Map::empty()
}

/// Relies on `DashMap::new`: a map without entries.
#[verifier::external_body]
fn table_new() -> (r: PathTable)
    ensures
        table_entries(r) == no_entries(),
{
    DashMap::new()
}

/// Relies on `DashMap::insert`: the key now maps to `id`, replacing any earlier value;
/// other keys keep theirs (keys compare segment by segment, character by character).
#[verifier::external_body]
fn table_insert(m: &mut PathTable, key: Vec<String>, id: u64)
    ensures
        table_entries(*final(m)) == table_entries(*old(m)).insert(key.deep_view(), id),
{
    m.insert(key, id);
}

/// Relies on `DashMap::get`: the value stored under the key, if any.
#[verifier::external_body]
fn table_get(m: &PathTable, key: &Vec<String>) -> (r: Option<u64>)
    ensures
        r == (if table_entries(*m).contains_key(key.deep_view()) {
            Some(table_entries(*m)[key.deep_view()])
        } else {
            None::<u64>
        }),
{
    m.get(key).map(|e| *e)
}

/// The system's path table: the segments of an actor's path to its identity.
pub struct Registry {
    table: PathTable,
}

impl View for Registry {
    type V = Map<Seq<Seq<char>>, u64>;

    closed spec fn view(&self) -> Map<Seq<Seq<char>>, u64> {
        table_entries(self.table)
    }
}

impl Registry {
    pub fn new() -> (r: Self)
        ensures
            r@ == no_entries(),
    {
        Registry { table: table_new() }
    }

    /// Records `id` under `path`, replacing an earlier entry for the same path.
    pub fn register(&mut self, path: &ActorPath, id: u64)
        ensures
            final(self)@ == old(self)@.insert(path@, id),
    {
        table_insert(&mut self.table, path.segments_copy(), id);
    }

    /// The identity recorded under `path`.
    pub fn lookup(&self, path: &ActorPath) -> (r: Option<u64>)
        ensures
            r == (if self@.contains_key(path@) { Some(self@[path@]) } else { None::<u64> }),
    {
        table_get(&self.table, path.segments())
    }
}

} // verus!
