//! The keyed store: a concurrent-capable map from string keys to values.
//!
//! The map itself comes from the `dashmap` crate and is held behind a
//! small set of trusted wrappers; every operation's effect is stated
//! over [`dash_contents`], the mathematical contents of the map.

use crate::models::{ValModel, Value};
use dashmap::DashMap;
use vstd::prelude::*;

verus! {

#[verifier::external_type_specification]
#[verifier::external_body]
#[verifier::reject_recursive_types(K)]
#[verifier::reject_recursive_types(V)]
#[verifier::reject_recursive_types(S)]
pub struct ExDashMap<K, V, S>(DashMap<K, V, S>);

/// The map type holding the store's entries.
pub type KvMap = DashMap<String, Value>;

/// The contents of the map: each present key mapped to the model of its
/// stored value.
pub uninterp spec fn dash_contents(m: KvMap) -> Map<Seq<char>, ValModel>;

/// Relies on `dashmap::DashMap::new`: the new map is empty.
#[verifier::external_body]
fn dash_new() -> (r: KvMap)
    ensures
        dash_contents(r) =~= Map::empty(),
{
    DashMap::new()
}

/// Relies on `dashmap::DashMap::get`: returns the value stored under
/// the key, if any.  The wrapper hands out a clone of that value.
#[verifier::external_body]
fn dash_get(m: &KvMap, k: &String) -> (r: Option<Value>)
    ensures
        match r {
            Some(v) => dash_contents(*m).contains_key(k@) && v@ == dash_contents(*m)[k@],
            None => !dash_contents(*m).contains_key(k@),
        },
{
    m.get(k).map(|r| r.value().clone())
}

/// Relies on `dashmap::DashMap::contains_key`.
#[verifier::external_body]
fn dash_contains(m: &KvMap, k: &String) -> (r: bool)
    ensures
        r == dash_contents(*m).contains_key(k@),
{
    m.contains_key(k)
}

/// Relies on `dashmap::DashMap::insert`: maps the key to the value,
/// replacing any previous entry.
#[verifier::external_body]
fn dash_insert(m: &mut KvMap, k: String, v: Value)
    ensures
        dash_contents(*final(m)) == dash_contents(*old(m)).insert(k@, v@),
{
    m.insert(k, v);
}

/// Relies on `dashmap::DashMap::remove`: unmaps the key and reports
/// whether an entry existed.
#[verifier::external_body]
fn dash_remove(m: &mut KvMap, k: &String) -> (r: bool)
    ensures
        r == dash_contents(*old(m)).contains_key(k@),
        dash_contents(*final(m)) == dash_contents(*old(m)).remove(k@),
{
    m.remove(k).is_some()
}

/// A mapping from string keys to typed values.
///
/// Keys are unique; inserting an existing key replaces its value
/// entirely.  A key is present exactly while some writing command has
/// created it and no removal has taken it out.
pub struct Store {
    map: KvMap,
}

impl Store {
    /// The store as a mathematical map from key to value model.
    pub closed spec fn view(&self) -> Map<Seq<char>, ValModel> {
        dash_contents(self.map)
    }

    /// Creates an empty store.
    pub fn new() -> (s: Store)
        ensures
            s@ == Map::<Seq<char>, ValModel>::empty(),
    {
        Store { map: dash_new() }
    }

    /// Returns a copy of the value stored under `k`, if any.
    pub fn get(&self, k: &String) -> (r: Option<Value>)
        ensures
            match r {
                Some(v) => self@.contains_key(k@) && v@ == self@[k@],
                None => !self@.contains_key(k@),
            },
    {
        dash_get(&self.map, k)
    }

    /// Whether `k` is present.
    pub fn contains(&self, k: &String) -> (r: bool)
        ensures
            r == self@.contains_key(k@),
    {
        dash_contains(&self.map, k)
    }

    /// Unconditional upsert: replaces any prior value and its type.
    pub fn set(&mut self, k: String, v: Value)
        ensures
            final(self)@ == old(self)@.insert(k@, v@),
    {
        dash_insert(&mut self.map, k, v);
    }

    /// Removes `k`, reporting whether a value existed and was deleted.
    pub fn remove(&mut self, k: &String) -> (r: bool)
        ensures
            r == old(self)@.contains_key(k@),
            final(self)@ == old(self)@.remove(k@),
    {
        dash_remove(&mut self.map, k)
    }
}

} // verus!
