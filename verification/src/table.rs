//! The crate entry table: an insertion-ordered map from crate key to the
//! features requested for that crate.

use crate::ordered::{
    features_view, key_index, map_first_mut, map_get_mut, map_insert, map_into_pairs, map_is_empty,
    map_keys, map_len, map_new, name_view, set_insert, set_new, table_contents,
};
use indexmap::IndexMap;
use indexmap::IndexSet;
use vstd::prelude::*;
use vstd::string::StringExecFns;

verus! {

broadcast use vstd::seq::group_seq_axioms;

/// One entry of the table as a pair: the crate key, absent for the crate
/// whose name is to be inferred, and the features requested for it, absent
/// while none was requested.
pub type Entry = (Option<Seq<char>>, Option<Seq<Seq<char>>>);

/// Whether some entry of `t` has the key `k`.
pub open spec fn has_key(t: Seq<Entry>, k: Option<Seq<char>>) -> bool {
    key_index(t, k) < t.len()
}

/// The keys of `t`, in table order.
pub open spec fn keys_of(t: Seq<Entry>) -> Seq<Option<Seq<char>>> {
    Seq::new(t.len(), |i: int| t[i].0)
}

/// `t` after the entry for `k` was set to the features `v`: an entry that is
/// already there keeps its place, a new one goes last.
pub open spec fn insert_entry(t: Seq<Entry>, k: Option<Seq<char>>, v: Option<Seq<Seq<char>>>) -> Seq<
    Entry,
> {
    let i = key_index(t, k);
    if i < t.len() {
        t.update(i, (t[i].0, v))
    } else {
        t.push((k, v))
    }
}

/// The feature names `s` after `x` was requested: a name that is already
/// there keeps its place, a new one goes last.
pub open spec fn insert_item(s: Seq<Seq<char>>, x: Seq<char>) -> Seq<Seq<char>> {
    if s.contains(x) {
        s
    } else {
        s.push(x)
    }
}

/// The features of one entry after `f` was requested for it.
pub open spec fn activate(slot: Option<Seq<Seq<char>>>, f: Seq<char>) -> Option<Seq<Seq<char>>> {
    Some(
        insert_item(
            match slot {
                Some(s) => s,
                None => Seq::empty(),
            },
            f,
        ),
    )
}

/// `t` after `f` was requested for the entry at position `i`.
pub open spec fn activate_at(t: Seq<Entry>, i: int, f: Seq<char>) -> Seq<Entry> {
    t.update(i, (t[i].0, activate(t[i].1, f)))
}

/// The text of a key; the absent key has none.
pub open spec fn key_text(k: Option<Seq<char>>) -> Seq<char> {
    match k {
        Some(s) => s,
        None => Seq::empty(),
    }
}

/// The feature `f` qualified by the crate key `k`: `k/f`.
pub open spec fn qualified(k: Option<Seq<char>>, f: Seq<char>) -> Seq<char> {
    key_text(k) + seq!['/'] + f
}

/// The feature `f` qualified by each key of `t`, in table order.
pub open spec fn candidates(t: Seq<Entry>, f: Seq<char>) -> Seq<Seq<char>> {
    Seq::new(t.len(), |i: int| qualified(t[i].0, f))
}

/// What holds of every table: no key occurs twice, the features of an entry
/// are absent or hold at least one name and none twice, and the entry without
/// a key exists exactly when the crate name is inferred, in which case it is
/// the only entry.
pub open spec fn table_wf(t: Seq<Entry>, infer: bool) -> bool {
    &&& forall|i: int, j: int| 0 <= i < j < t.len() ==> (#[trigger] t[i]).0 != (#[trigger] t[j]).0
    &&& forall|i: int|
        0 <= i < t.len() && (#[trigger] t[i]).1 is Some ==> t[i].1->0.len() > 0
            && t[i].1->0.no_duplicates()
    &&& infer ==> t.len() == 1 && t[0].0 is None
    &&& !infer ==> forall|i: int| 0 <= i < t.len() ==> (#[trigger] t[i]).0 is Some
}

/// `key_index(t, k)` is the first position that holds the key `k`, and the
/// length of `t` when there is none.
pub proof fn lemma_key_index(t: Seq<Entry>, k: Option<Seq<char>>)
    ensures
        0 <= key_index(t, k) <= t.len(),
        key_index(t, k) < t.len() ==> t[key_index(t, k)].0 == k,
        forall|j: int| 0 <= j < key_index(t, k) ==> (#[trigger] t[j]).0 != k,
    decreases t.len(),
{
    if t.len() > 0 {
        let head = t.drop_last();
        lemma_key_index(head, k);
        assert forall|j: int| 0 <= j < key_index(t, k) implies (#[trigger] t[j]).0 != k by {
            if j < head.len() {
                assert(head[j] == t[j]);
            }
        }
    }
}

/// A position that holds `k`, with no earlier one that does, is `key_index`.
pub proof fn lemma_key_index_at(t: Seq<Entry>, k: Option<Seq<char>>, i: int)
    requires
        0 <= i < t.len(),
        t[i].0 == k,
        forall|j: int| 0 <= j < i ==> (#[trigger] t[j]).0 != k,
    ensures
        key_index(t, k) == i,
{
    lemma_key_index(t, k);
}

/// `key_index` depends on the keys alone.
pub proof fn lemma_key_index_same_keys(t: Seq<Entry>, u: Seq<Entry>, k: Option<Seq<char>>)
    requires
        keys_of(t) == keys_of(u),
    ensures
        key_index(t, k) == key_index(u, k),
{
    lemma_key_index(t, k);
    lemma_key_index(u, k);
    assert(t.len() == keys_of(t).len());
    assert(u.len() == keys_of(u).len());
    assert forall|j: int| 0 <= j < t.len() implies (#[trigger] t[j]).0 == u[j].0 by {
        assert(keys_of(t)[j] == keys_of(u)[j]);
    }
    let a = key_index(t, k);
    let b = key_index(u, k);
    if a < b {
        assert(u[a].0 == t[a].0);
    } else if b < a {
        assert(t[b].0 == u[b].0);
    }
}

/// Setting an entry keeps the table well formed and changes the keys only by
/// appending a new one.
pub proof fn lemma_insert_entry(t: Seq<Entry>, k: Seq<char>)
    requires
        table_wf(t, false),
    ensures
        table_wf(insert_entry(t, Some(k), None), false),
        has_key(insert_entry(t, Some(k), None), Some(k)),
        keys_of(insert_entry(t, Some(k), None)) == (if has_key(t, Some(k)) {
            keys_of(t)
        } else {
            keys_of(t).push(Some(k))
        }),
{
    let key = Some(k);
    let u = insert_entry(t, key, None);
    let i = key_index(t, key);
    lemma_key_index(t, key);
    if i < t.len() {
        assert(keys_of(u) =~= keys_of(t));
        lemma_key_index_same_keys(u, t, key);
    } else {
        assert(keys_of(u) =~= keys_of(t).push(key));
        lemma_key_index_at(u, key, t.len() as int);
    }
}

/// Requesting a feature for an entry keeps the table well formed and its
/// keys as they were.
pub proof fn lemma_activate_at(t: Seq<Entry>, infer: bool, i: int, f: Seq<char>)
    requires
        table_wf(t, infer),
        0 <= i < t.len(),
    ensures
        table_wf(activate_at(t, i, f), infer),
        keys_of(activate_at(t, i, f)) == keys_of(t),
        activate_at(t, i, f).len() == t.len(),
{
    let u = activate_at(t, i, f);
    assert(keys_of(u) =~= keys_of(t));
    let s = match t[i].1 {
        Some(s) => s,
        None => Seq::empty(),
    };
    assert(s.no_duplicates());
    assert(insert_item(s, f).no_duplicates());
}

/// The table of crates named on the command line, with the features
/// requested for each.
#[derive(Debug)]
pub struct CrateTable {
    map: IndexMap<Option<String>, Option<IndexSet<String>>>,
    infer_crate_name: bool,
}

impl View for CrateTable {
    type V = Seq<Entry>;

    closed spec fn view(&self) -> Seq<Entry> {
        table_contents(self.map)
    }
}

impl CrateTable {
    /// Whether the crate name is to be inferred from the source locator.
    pub closed spec fn inferring(&self) -> bool {
        self.infer_crate_name
    }

    /// The table's invariant.
    pub open spec fn wf(&self) -> bool {
        table_wf(self@, self.inferring())
    }

    /// An empty table.
    pub fn new() -> (r: CrateTable)
        ensures
            r.wf(),
            r@ == Seq::<Entry>::empty(),
            !r.inferring(),
    {
        CrateTable { map: map_new(), infer_crate_name: false }
    }

    /// The number of entries.
    pub fn len(&self) -> (r: usize)
        ensures
            r == self@.len(),
    {
        map_len(&self.map)
    }

    /// Whether the table has no entry.
    pub fn is_empty(&self) -> (r: bool)
        ensures
            r == (self@.len() == 0),
    {
        map_is_empty(&self.map)
    }

    /// Whether the crate name is to be inferred from the source locator.
    pub fn infer_crate_name(&self) -> (r: bool)
        ensures
            r == self.inferring(),
    {
        self.infer_crate_name
    }

    /// Enters the crate `name` with no features requested. A crate that is
    /// already there keeps its place and loses the features requested so far.
    pub fn insert_crate(&mut self, name: String)
        requires
            old(self).wf(),
            !old(self).inferring(),
        ensures
            final(self).wf(),
            !final(self).inferring(),
            final(self)@ == insert_entry(old(self)@, Some(name@), None),
    {
        proof {
            lemma_insert_entry(self@, name@);
        }
        map_insert(&mut self.map, Some(name), None);
    }

    /// Turns the empty table into the one that asks for the crate name to be
    /// inferred: a single entry without a key.
    pub fn insert_inferred(&mut self)
        requires
            old(self).wf(),
            old(self)@.len() == 0,
        ensures
            final(self).wf(),
            final(self).inferring(),
            final(self)@ == seq![(None::<Seq<char>>, None::<Seq<Seq<char>>>)],
    {
        map_insert(&mut self.map, None, None);
        self.infer_crate_name = true;
        proof {
            assert(self@ =~= seq![(None::<Seq<char>>, None::<Seq<Seq<char>>>)]);
        }
    }

    /// Requests `feature` for the entry with the key `key`, and says whether
    /// there is such an entry. Without one the table is left as it was.
    pub fn add_feature(&mut self, key: &Option<String>, feature: String) -> (found: bool)
        requires
            old(self).wf(),
        ensures
            final(self).wf(),
            final(self).inferring() == old(self).inferring(),
            found == has_key(old(self)@, name_view(*key)),
            final(self)@ == (if found {
                activate_at(old(self)@, key_index(old(self)@, name_view(*key)), feature@)
            } else {
                old(self)@
            }),
    {
        proof {
            lemma_key_index(self@, name_view(*key));
            if has_key(self@, name_view(*key)) {
                lemma_activate_at(self@, self.inferring(), key_index(self@, name_view(*key)), feature@);
            }
        }
        match map_get_mut(&mut self.map, key) {
            Some(slot) => {
                if slot.is_none() {
                    *slot = Some(set_new());
                }
                match slot {
                    Some(set) => {
                        set_insert(set, feature);
                    },
                    None => {},
                }
                true
            },
            None => false,
        }
    }

    /// Requests `feature` for the first entry.
    pub fn add_feature_to_first(&mut self, feature: String)
        requires
            old(self).wf(),
            old(self)@.len() > 0,
        ensures
            final(self).wf(),
            final(self).inferring() == old(self).inferring(),
            final(self)@ == activate_at(old(self)@, 0, feature@),
    {
        proof {
            lemma_activate_at(self@, self.inferring(), 0, feature@);
        }
        match map_first_mut(&mut self.map) {
            Some((_, slot)) => {
                if slot.is_none() {
                    *slot = Some(set_new());
                }
                match slot {
                    Some(set) => {
                        set_insert(set, feature);
                    },
                    None => {},
                }
            },
            None => {},
        }
    }

    /// The spelling of `feature` qualified by each crate of the table, in
    /// table order.
    pub fn qualified_candidates(&self, feature: &str) -> (r: Vec<String>)
        ensures
            r.deep_view() == candidates(self@, feature@),
    {
        let keys = map_keys(&self.map);
        let mut out: Vec<String> = Vec::new();
        let mut i: usize = 0;
        while i < keys.len()
            invariant
                i <= keys.len(),
                keys@.len() == self@.len(),
                forall|j: int| 0 <= j < keys@.len() ==> name_view(*#[trigger] keys@[j]) == self@[j].0,
                out.deep_view() == candidates(self@, feature@).take(i as int),
            decreases keys.len() - i,
        {
            let mut text: String = match keys[i] {
                Some(name) => name.clone(),
                None => String::new(),
            };
            text.append("/");
            text.append(feature);
            let ghost before = out.deep_view();
            out.push(text);
            proof {
                reveal_strlit("/");
                assert("/"@ =~= seq!['/']);
                assert(text@ =~= qualified(self@[i as int].0, feature@));
                assert(out.deep_view() =~= before.push(text@));
                assert(out.deep_view() =~= candidates(self@, feature@).take(i + 1));
            }
            i += 1;
        }
        proof {
            assert(candidates(self@, feature@).take(i as int) =~= candidates(self@, feature@));
        }
        out
    }

    /// The entries in table order.
    pub fn into_entries(self) -> (r: Vec<(Option<String>, Option<IndexSet<String>>)>)
        ensures
            r@.len() == self@.len(),
            forall|i: int|
                0 <= i < r@.len() ==> (name_view((#[trigger] r@[i]).0), features_view(r@[i].1))
                    == self@[i],
    {
        map_into_pairs(self.map)
    }
}

} // verus!
