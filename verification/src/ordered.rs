//! Insertion-ordered containers.
//!
//! The crate table and the per-crate feature sets are `indexmap` collections.
//! This module declares those types to the verifier, names what they hold, and
//! gives each method the library calls a contract over those names. Nothing in
//! this module is proved: every item here is an assumption about `indexmap`.

use indexmap::IndexMap;
use indexmap::IndexSet;
use vstd::prelude::*;

verus! {

/// `indexmap::IndexMap`, taken as an opaque type.
#[verifier::external_type_specification]
#[verifier::external_body]
#[verifier::reject_recursive_types(K)]
#[verifier::reject_recursive_types(V)]
#[verifier::reject_recursive_types(S)]
pub struct ExIndexMap<K, V, S>(IndexMap<K, V, S>);

/// `indexmap::IndexSet`, taken as an opaque type.
#[verifier::external_type_specification]
#[verifier::external_body]
#[verifier::reject_recursive_types(T)]
#[verifier::reject_recursive_types(S)]
pub struct ExIndexSet<T, S>(IndexSet<T, S>);

/// The strings an `IndexSet<String>` holds, in its iteration order.
pub uninterp spec fn set_contents(s: IndexSet<String>) -> Seq<Seq<char>>;

/// The key-value pairs an `IndexMap` from optional crate name to optional
/// feature set holds, in its iteration order; each feature set stands as
/// its `set_contents`.
pub uninterp spec fn table_contents(m: IndexMap<Option<String>, Option<IndexSet<String>>>) -> Seq<
    (Option<Seq<char>>, Option<Seq<Seq<char>>>),
>;

/// An optional string as an optional character sequence.
pub open spec fn name_view(name: Option<String>) -> Option<Seq<char>> {
    match name {
        Some(s) => Some(s@),
        None => None,
    }
}

/// An optional feature set as an optional sequence of feature names.
pub open spec fn features_view(features: Option<IndexSet<String>>) -> Option<Seq<Seq<char>>> {
    match features {
        Some(s) => Some(set_contents(s)),
        None => None,
    }
}

/// The position of the first pair of `t` whose key is `k`, or `t.len()` when
/// no pair has that key.
pub open spec fn key_index(t: Seq<(Option<Seq<char>>, Option<Seq<Seq<char>>>)>, k: Option<Seq<char>>) -> int
    decreases t.len(),
{
    if t.len() == 0 {
        0
    } else {
        let before = key_index(t.drop_last(), k);
        if before < t.len() - 1 {
            before
        } else if t.last().0 == k {
            t.len() - 1
        } else {
            t.len() as int
        }
    }
}

/// `IndexSet::new`: the new set holds nothing.
#[verifier::external_body]
pub(crate) fn set_new() -> (r: IndexSet<String>)
    ensures
        set_contents(r) == Seq::<Seq<char>>::empty(),
{
    IndexSet::new()
}

/// `IndexSet::insert`: a value the set already holds leaves it as it was and
/// gives `false`; any other value is appended last and gives `true`.
#[verifier::external_body]
pub(crate) fn set_insert(s: &mut IndexSet<String>, value: String) -> (r: bool)
    ensures
        r == !set_contents(*old(s)).contains(value@),
        set_contents(*final(s)) == (if set_contents(*old(s)).contains(value@) {
            set_contents(*old(s))
        } else {
            set_contents(*old(s)).push(value@)
        }),
{
    s.insert(value)
}

/// `IndexMap::new`: the new map holds nothing.
#[verifier::external_body]
pub(crate) fn map_new() -> (r: IndexMap<Option<String>, Option<IndexSet<String>>>)
    ensures
        table_contents(r) == Seq::<(Option<Seq<char>>, Option<Seq<Seq<char>>>)>::empty(),
{
    IndexMap::new()
}

/// `IndexMap::len`: the number of pairs.
#[verifier::external_body]
pub(crate) fn map_len(m: &IndexMap<Option<String>, Option<IndexSet<String>>>) -> (r: usize)
    ensures
        r == table_contents(*m).len(),
{
    m.len()
}

/// `IndexMap::is_empty`: whether the map holds no pair.
#[verifier::external_body]
pub(crate) fn map_is_empty(m: &IndexMap<Option<String>, Option<IndexSet<String>>>) -> (r: bool)
    ensures
        r == (table_contents(*m).len() == 0),
{
    m.is_empty()
}

/// `IndexMap::insert`: where the key is present its pair keeps its place and
/// takes the new value, and the old value is returned; otherwise the pair is
/// appended last and `None` is returned.
#[verifier::external_body]
pub(crate) fn map_insert(
    m: &mut IndexMap<Option<String>, Option<IndexSet<String>>>,
    key: Option<String>,
    value: Option<IndexSet<String>>,
) -> (r: Option<Option<IndexSet<String>>>)
    ensures
        r is Some <==> key_index(table_contents(*old(m)), name_view(key)) < table_contents(*old(m)).len(),
        r matches Some(v) ==> features_view(v) == table_contents(*old(m))[key_index(
            table_contents(*old(m)),
            name_view(key),
        )].1,
        table_contents(*final(m)) == ({
            let t = table_contents(*old(m));
            let i = key_index(t, name_view(key));
            if i < t.len() {
                t.update(i, (t[i].0, features_view(value)))
            } else {
                t.push((name_view(key), features_view(value)))
            }
        }),
{
    m.insert(key, value)
}

/// `IndexMap::get_mut`: a mutable reference to the value stored under the
/// key, when the key is present. Writing through the reference changes that
/// one value and nothing else; without the key the map is left as it was.
#[verifier::external_body]
pub(crate) fn map_get_mut<'a>(
    m: &'a mut IndexMap<Option<String>, Option<IndexSet<String>>>,
    key: &Option<String>,
) -> (r: Option<&'a mut Option<IndexSet<String>>>)
    ensures
        r is Some <==> key_index(table_contents(*old(m)), name_view(*key)) < table_contents(*old(m)).len(),
        r matches Some(v) ==> ({
            let t = table_contents(*old(m));
            let i = key_index(t, name_view(*key));
            &&& features_view(*v) == t[i].1
            &&& table_contents(*final(m)) == t.update(i, (t[i].0, features_view(*final(v))))
        }),
        r is None ==> table_contents(*final(m)) == table_contents(*old(m)),
{
    m.get_mut(key)
}

/// `IndexMap::first_mut`: the key of the first pair and a mutable reference
/// to its value, when the map is not empty. Writing through the reference
/// changes that one value and nothing else.
#[verifier::external_body]
pub(crate) fn map_first_mut<'a>(m: &'a mut IndexMap<Option<String>, Option<IndexSet<String>>>) -> (r: Option<
    (&'a Option<String>, &'a mut Option<IndexSet<String>>),
>)
    ensures
        r is Some <==> table_contents(*old(m)).len() > 0,
        r matches Some(p) ==> ({
            let t = table_contents(*old(m));
            &&& name_view(*p.0) == t[0].0
            &&& features_view(*p.1) == t[0].1
            &&& table_contents(*final(m)) == t.update(0, (t[0].0, features_view(*final(p.1))))
        }),
        r is None ==> table_contents(*final(m)) == table_contents(*old(m)),
{
    m.first_mut()
}

/// `IndexMap::keys`: the keys in the map's order.
#[verifier::external_body]
pub(crate) fn map_keys<'a>(m: &'a IndexMap<Option<String>, Option<IndexSet<String>>>) -> (r: Vec<
    &'a Option<String>,
>)
    ensures
        r@.len() == table_contents(*m).len(),
        forall|i: int| 0 <= i < r@.len() ==> name_view(*#[trigger] r@[i]) == table_contents(*m)[i].0,
{
    m.keys().collect()
}

/// `IndexMap::into_iter`: the pairs themselves, in the map's order.
#[verifier::external_body]
pub(crate) fn map_into_pairs(m: IndexMap<Option<String>, Option<IndexSet<String>>>) -> (r: Vec<
    (Option<String>, Option<IndexSet<String>>),
>)
    ensures
        r@.len() == table_contents(m).len(),
        forall|i: int|
            0 <= i < r@.len() ==> (name_view((#[trigger] r@[i]).0), features_view(r@[i].1))
                == table_contents(m)[i],
{
    m.into_iter().collect()
}

} // verus!
