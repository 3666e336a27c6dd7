//! What holds of every parse, proved from the definitions in `parse`.

use crate::error::{AddError, Rejection};
use crate::feature::{classify, FeatureForm};
use crate::ordered::key_index;
use crate::parse::{
    all_features, apply, build_table, distribute, is_suffix, last_crate, outcome_view, parse,
    seeded, ParsedDependencies, ParsedView,
};
use crate::request::{AddArgs, AddArgsView};
use crate::table::{
    has_key, insert_item, keys_of, lemma_activate_at, lemma_insert_entry, lemma_key_index,
    lemma_key_index_same_keys, table_wf, Entry,
};
use vstd::prelude::*;

verus! {

broadcast use vstd::seq::group_seq_axioms;

/// The crate references among the positional tokens, in order.
pub open spec fn crate_refs(tokens: Seq<Seq<char>>) -> Seq<Seq<char>>
    decreases tokens.len(),
{
    if tokens.len() == 0 {
        Seq::empty()
    } else if is_suffix(tokens.last()) {
        crate_refs(tokens.drop_last())
    } else {
        crate_refs(tokens.drop_last()).push(tokens.last())
    }
}

/// The distinct items of `s`, each at the place of its first occurrence.
pub open spec fn first_occurrences(s: Seq<Seq<char>>) -> Seq<Seq<char>>
    decreases s.len(),
{
    if s.len() == 0 {
        Seq::empty()
    } else {
        insert_item(first_occurrences(s.drop_last()), s.last())
    }
}

/// The position of the first occurrence of `x` in `s`, or the length of `s`
/// when `x` does not occur.
pub open spec fn first_position(s: Seq<Seq<char>>, x: Seq<char>) -> int
    decreases s.len(),
{
    if s.len() == 0 {
        0
    } else {
        let before = first_position(s.drop_last(), x);
        if before < s.len() - 1 {
            before
        } else if s.last() == x {
            s.len() - 1
        } else {
            s.len() as int
        }
    }
}

/// Each name as a present key.
pub open spec fn as_keys(names: Seq<Seq<char>>) -> Seq<Option<Seq<char>>> {
    Seq::new(names.len(), |i: int| Some(names[i]))
}

/// Whether every feature suffix among the tokens has a crate reference
/// somewhere before it.
pub open spec fn suffixes_follow_crates(tokens: Seq<Seq<char>>) -> bool {
    forall|i: int|
        0 <= i < tokens.len() && is_suffix(#[trigger] tokens[i]) ==> exists|j: int|
            0 <= j < i && !is_suffix(#[trigger] tokens[j])
}

/// `first_position(s, x)` is where `x` first occurs in `s`.
pub proof fn lemma_first_position(s: Seq<Seq<char>>, x: Seq<char>)
    ensures
        0 <= first_position(s, x) <= s.len(),
        first_position(s, x) < s.len() ==> s[first_position(s, x)] == x,
        forall|j: int| 0 <= j < first_position(s, x) ==> #[trigger] s[j] != x,
        s.contains(x) <==> first_position(s, x) < s.len(),
    decreases s.len(),
{
    if s.len() > 0 {
        let head = s.drop_last();
        lemma_first_position(head, x);
        assert forall|j: int| 0 <= j < first_position(s, x) implies #[trigger] s[j] != x by {
            if j < head.len() {
                assert(head[j] == s[j]);
            }
        }
        if s.contains(x) {
            let i = choose|i: int| 0 <= i < s.len() && s[i] == x;
            if first_position(s, x) >= s.len() {
                assert(s[i] != x);
            }
        }
    }
}

/// The first occurrences of `s` hold every item of `s` and nothing else,
/// hold nothing twice, and stand in the order in which the items first occur
/// in `s`.
pub proof fn lemma_first_occurrences(s: Seq<Seq<char>>)
    ensures
        first_occurrences(s).no_duplicates(),
        forall|x: Seq<char>| first_occurrences(s).contains(x) <==> s.contains(x),
        forall|i: int, j: int|
            0 <= i < j < first_occurrences(s).len() ==> first_position(
                s,
                #[trigger] first_occurrences(s)[i],
            ) < first_position(s, #[trigger] first_occurrences(s)[j]),
    decreases s.len(),
{
    let fo = first_occurrences(s);
    if s.len() == 0 {
        assert forall|x: Seq<char>| fo.contains(x) <==> s.contains(x) by {}
    } else {
        let head = s.drop_last();
        let last = s.last();
        let fh = first_occurrences(head);
        lemma_first_occurrences(head);
        assert forall|x: Seq<char>| fo.contains(x) <==> s.contains(x) by {
            if s.contains(x) {
                let i = choose|i: int| 0 <= i < s.len() && s[i] == x;
                if i < head.len() {
                    assert(head[i] == x);
                    assert(head.contains(x));
                    assert(fh.contains(x));
                    let k = choose|k: int| 0 <= k < fh.len() && fh[k] == x;
                    assert(fo[k] == x);
                } else {
                    assert(x == last);
                    if fh.contains(last) {
                    } else {
                        assert(fo[fh.len() as int] == last);
                    }
                }
            }
            if fo.contains(x) {
                let k = choose|k: int| 0 <= k < fo.len() && fo[k] == x;
                if k < fh.len() {
                    assert(fh[k] == x);
                    assert(fh.contains(x));
                    assert(head.contains(x));
                    let i = choose|i: int| 0 <= i < head.len() && head[i] == x;
                    assert(s[i] == x);
                } else {
                    assert(x == last);
                    assert(s[s.len() - 1] == last);
                }
            }
        }
        assert forall|i: int, j: int| 0 <= i < j < fo.len() implies first_position(
            s,
            #[trigger] fo[i],
        ) < first_position(s, #[trigger] fo[j]) by {
            lemma_first_position(head, fo[i]);
            lemma_first_position(s, fo[i]);
            lemma_first_position(head, fo[j]);
            lemma_first_position(s, fo[j]);
            assert(fh[i] == fo[i]);
            assert(fh.contains(fo[i]));
            assert(head.contains(fo[i]));
            if j < fh.len() {
                assert(fh[j] == fo[j]);
                assert(fh.contains(fo[j]));
                assert(head.contains(fo[j]));
            } else {
                assert(fo[j] == last);
                assert(!fh.contains(last));
                assert(!head.contains(last));
            }
        }
    }
}

/// What holds of a table that the tokens describe: it is well formed, its
/// keys are the distinct crate references in the order of their first
/// occurrence, it is empty only when there are no tokens, and it has an
/// entry for the crate referred to last.
pub proof fn lemma_build_table(tokens: Seq<Seq<char>>)
    requires
        build_table(tokens) is Ok,
    ensures
        table_wf(build_table(tokens)->Ok_0, false),
        keys_of(build_table(tokens)->Ok_0) == as_keys(first_occurrences(crate_refs(tokens))),
        build_table(tokens)->Ok_0.len() == 0 <==> tokens.len() == 0,
        last_crate(tokens) matches Some(name) ==> has_key(build_table(tokens)->Ok_0, Some(name)),
    decreases tokens.len(),
{
    if tokens.len() == 0 {
        assert(keys_of(build_table(tokens)->Ok_0) =~= as_keys(first_occurrences(crate_refs(tokens))));
    } else {
        let head = tokens.drop_last();
        let token = tokens.last();
        lemma_build_table(head);
        let t = build_table(head)->Ok_0;
        let u = build_table(tokens)->Ok_0;
        let names = first_occurrences(crate_refs(head));
        if is_suffix(token) {
            let name = last_crate(head)->Some_0;
            lemma_key_index(t, Some(name));
            lemma_activate_at(t, false, key_index(t, Some(name)), token.skip(1));
            lemma_key_index_same_keys(u, t, Some(name));
        } else {
            let refs = crate_refs(head);
            assert(crate_refs(tokens) == refs.push(token));
            assert(refs.push(token).drop_last() =~= refs);
            assert(first_occurrences(crate_refs(tokens)) == insert_item(names, token));
            lemma_insert_entry(t, token);
            lemma_key_index(t, Some(token));
            assert(keys_of(t).len() == t.len());
            if has_key(t, Some(token)) {
                let i = key_index(t, Some(token));
                assert(keys_of(t)[i] == Some(token));
                assert(as_keys(names)[i] == Some(token));
                assert(names[i] == token);
                assert(names.contains(token));
            } else {
                if names.contains(token) {
                    let i = choose|i: int| 0 <= i < names.len() && names[i] == token;
                    assert(as_keys(names)[i] == Some(token));
                    assert(keys_of(t)[i] == Some(token));
                    assert(t[i].0 == Some(token));
                }
                assert(as_keys(names.push(token)) =~= as_keys(names).push(Some(token)));
            }
        }
    }
}

/// The tokens are rejected exactly when the first of them is a feature
/// suffix, and then for that reason.
pub proof fn lemma_build_table_rejection(tokens: Seq<Seq<char>>)
    ensures
        build_table(tokens) is Err <==> tokens.len() > 0 && is_suffix(tokens[0]),
        build_table(tokens) is Err ==> build_table(tokens) == Err::<Seq<Entry>, Rejection>(
            Rejection::DanglingFeatureSuffix,
        ),
    decreases tokens.len(),
{
    if tokens.len() > 0 {
        let head = tokens.drop_last();
        lemma_build_table_rejection(head);
        lemma_last_crate(head);
        if head.len() > 0 {
            assert(head[0] == tokens[0]);
        }
    }
}

/// No crate was referred to exactly when every token is a feature suffix.
pub proof fn lemma_last_crate(tokens: Seq<Seq<char>>)
    ensures
        last_crate(tokens) is None <==> forall|i: int|
            0 <= i < tokens.len() ==> is_suffix(#[trigger] tokens[i]),
    decreases tokens.len(),
{
    if tokens.len() > 0 {
        let head = tokens.drop_last();
        lemma_last_crate(head);
        if is_suffix(tokens.last()) {
            if last_crate(head) is None {
                assert forall|i: int| 0 <= i < tokens.len() implies is_suffix(#[trigger] tokens[i]) by {
                    if i < head.len() {
                        assert(head[i] == tokens[i]);
                    }
                }
            } else {
                let i = choose|i: int| 0 <= i < head.len() && !is_suffix(#[trigger] head[i]);
                assert(!is_suffix(tokens[i]));
            }
        } else {
            assert(!is_suffix(tokens[tokens.len() - 1]));
        }
    }
}

/// The position of the last token that is the crate reference `name`, or
/// `-1` when no token is.
pub open spec fn last_reference(tokens: Seq<Seq<char>>, name: Seq<char>) -> int
    decreases tokens.len(),
{
    if tokens.len() == 0 {
        -1
    } else if tokens.last() == name {
        tokens.len() - 1
    } else {
        last_reference(tokens.drop_last(), name)
    }
}

/// The first position at or after `i` that holds a crate reference, or the
/// number of tokens when none does.
pub open spec fn run_end(tokens: Seq<Seq<char>>, i: int) -> int
    decreases tokens.len() - i,
{
    if 0 <= i < tokens.len() && is_suffix(tokens[i]) {
        run_end(tokens, i + 1)
    } else {
        i
    }
}

/// The feature names of the suffixes at the positions from `from` up to,
/// but not including, `to`.
pub open spec fn suffix_names(tokens: Seq<Seq<char>>, from: int, to: int) -> Seq<Seq<char>> {
    Seq::new((to - from) as nat, |k: int| tokens[from + k].skip(1))
}

/// The features that the tokens request for the crate `name`: the distinct
/// names of the suffixes that stand directly after the last reference to the
/// crate, each at the place of its first occurrence; absent when no suffix
/// stands there.
pub open spec fn requested(tokens: Seq<Seq<char>>, name: Seq<char>) -> Option<Seq<Seq<char>>> {
    let from = last_reference(tokens, name) + 1;
    let to = run_end(tokens, from);
    if to == from {
        None
    } else {
        Some(first_occurrences(suffix_names(tokens, from, to)))
    }
}

/// `last_reference(tokens, name)` is the last position that holds `name`.
pub proof fn lemma_last_reference(tokens: Seq<Seq<char>>, name: Seq<char>)
    ensures
        -1 <= last_reference(tokens, name) < tokens.len(),
        last_reference(tokens, name) >= 0 ==> tokens[last_reference(tokens, name)] == name,
        forall|j: int| last_reference(tokens, name) < j < tokens.len() ==> #[trigger] tokens[j] != name,
    decreases tokens.len(),
{
    if tokens.len() > 0 && tokens.last() != name {
        let head = tokens.drop_last();
        lemma_last_reference(head, name);
        assert forall|j: int| last_reference(tokens, name) < j < tokens.len() implies #[trigger] tokens[j]
            != name by {
            if j < head.len() {
                assert(head[j] == tokens[j]);
            }
        }
    }
}

/// `run_end(tokens, i)` lies between `i` and the number of tokens, only
/// suffixes stand between `i` and it, and it holds a crate reference unless
/// it is the number of tokens.
pub proof fn lemma_run_end(tokens: Seq<Seq<char>>, i: int)
    requires
        0 <= i <= tokens.len(),
    ensures
        i <= run_end(tokens, i) <= tokens.len(),
        forall|j: int| i <= j < run_end(tokens, i) ==> is_suffix(#[trigger] tokens[j]),
        run_end(tokens, i) < tokens.len() ==> !is_suffix(tokens[run_end(tokens, i)]),
    decreases tokens.len() - i,
{
    if i < tokens.len() && is_suffix(tokens[i]) {
        lemma_run_end(tokens, i + 1);
    }
}

/// A position with only suffixes between `i` and it, which holds a crate
/// reference or is the number of tokens, is `run_end(tokens, i)`.
pub proof fn lemma_run_end_at(tokens: Seq<Seq<char>>, i: int, end: int)
    requires
        0 <= i <= end <= tokens.len(),
        forall|j: int| i <= j < end ==> is_suffix(#[trigger] tokens[j]),
        end < tokens.len() ==> !is_suffix(tokens[end]),
    ensures
        run_end(tokens, i) == end,
{
    lemma_run_end(tokens, i);
    let e = run_end(tokens, i);
    if e < end {
        assert(is_suffix(tokens[e]));
    } else if end < e {
        assert(is_suffix(tokens[end]));
    }
}

/// The crate referred to last is no suffix, and only suffixes stand after
/// the last reference to it.
pub proof fn lemma_last_crate_reference(tokens: Seq<Seq<char>>)
    requires
        last_crate(tokens) is Some,
    ensures
        !is_suffix(last_crate(tokens)->Some_0),
        last_reference(tokens, last_crate(tokens)->Some_0) >= 0,
        forall|j: int|
            last_reference(tokens, last_crate(tokens)->Some_0) < j < tokens.len() ==> is_suffix(
                #[trigger] tokens[j],
            ),
    decreases tokens.len(),
{
    if tokens.len() > 0 && is_suffix(tokens.last()) {
        let head = tokens.drop_last();
        let name = last_crate(head)->Some_0;
        lemma_last_crate_reference(head);
        assert forall|j: int| last_reference(tokens, name) < j < tokens.len() implies is_suffix(
            #[trigger] tokens[j],
        ) by {
            if j < head.len() {
                assert(head[j] == tokens[j]);
            }
        }
    }
}

/// The features that the run of suffixes after position `from` requests,
/// once one more suffix is added to the run.
proof fn lemma_requested_grows(head: Seq<Seq<char>>, token: Seq<char>, from: int)
    requires
        0 <= from <= head.len(),
        is_suffix(token),
        forall|j: int| from <= j < head.len() ==> is_suffix(#[trigger] head[j]),
    ensures
        run_end(head, from) == head.len(),
        run_end(head.push(token), from) == head.len() + 1,
        first_occurrences(suffix_names(head.push(token), from, head.len() as int + 1)) == insert_item(
            first_occurrences(suffix_names(head, from, head.len() as int)),
            token.skip(1),
        ),
        from == head.len() ==> first_occurrences(suffix_names(head, from, head.len() as int))
            == Seq::<Seq<char>>::empty(),
{
    let tokens = head.push(token);
    lemma_run_end_at(head, from, head.len() as int);
    assert forall|j: int| from <= j < tokens.len() implies is_suffix(#[trigger] tokens[j]) by {
        if j < head.len() {
            assert(tokens[j] == head[j]);
        }
    }
    lemma_run_end_at(tokens, from, tokens.len() as int);
    let before = suffix_names(head, from, head.len() as int);
    let after = suffix_names(tokens, from, head.len() as int + 1);
    assert(after.drop_last() =~= before);
    assert(after.last() == token.skip(1));
}

/// The features that the tokens request for a crate do not change when a
/// token is added behind a crate reference that follows the crate's last
/// reference.
proof fn lemma_requested_settled(head: Seq<Seq<char>>, token: Seq<char>, name: Seq<char>, stop: int)
    requires
        token != name,
        last_reference(head, name) < stop <= head.len(),
        stop < head.len() ==> !is_suffix(head[stop]),
        stop == head.len() ==> !is_suffix(token),
    ensures
        requested(head.push(token), name) == requested(head, name),
{
    let tokens = head.push(token);
    assert(tokens.drop_last() =~= head);
    let from = last_reference(head, name) + 1;
    lemma_last_reference(head, name);
    lemma_run_end(head, from);
    let end = run_end(head, from);
    if stop < end {
        assert(is_suffix(head[stop]));
    }
    assert forall|j: int| from <= j < end implies is_suffix(#[trigger] tokens[j]) by {
        assert(tokens[j] == head[j]);
    }
    if end < head.len() {
        assert(tokens[end] == head[end]);
    }
    lemma_run_end_at(tokens, from, end);
    assert(suffix_names(tokens, from, end) =~= suffix_names(head, from, end));
}

/// The features of each entry of the table that the tokens describe are the
/// distinct names of the suffixes that stand directly after the last
/// reference to the entry's crate; no key of the table is a suffix.
pub proof fn lemma_requested_features(tokens: Seq<Seq<char>>)
    requires
        build_table(tokens) is Ok,
    ensures
        forall|i: int|
            0 <= i < build_table(tokens)->Ok_0.len() ==> {
                let entry = #[trigger] build_table(tokens)->Ok_0[i];
                &&& entry.0 is Some
                &&& !is_suffix(entry.0->0)
                &&& entry.1 == requested(tokens, entry.0->0)
            },
    decreases tokens.len(),
{
    if tokens.len() > 0 {
        let head = tokens.drop_last();
        let token = tokens.last();
        assert(head.push(token) =~= tokens);
        lemma_requested_features(head);
        lemma_build_table(head);
        lemma_build_table(tokens);
        let t = build_table(head)->Ok_0;
        let u = build_table(tokens)->Ok_0;
        if is_suffix(token) {
            let name = last_crate(head)->Some_0;
            let at = key_index(t, Some(name));
            lemma_key_index(t, Some(name));
            lemma_last_crate_reference(head);
            lemma_last_reference(head, name);
            let last = last_reference(head, name);
            assert forall|i: int| 0 <= i < u.len() implies {
                let entry = #[trigger] u[i];
                &&& entry.0 is Some
                &&& !is_suffix(entry.0->0)
                &&& entry.1 == requested(tokens, entry.0->0)
            } by {
                let old_entry = t[i];
                if i == at {
                    lemma_requested_grows(head, token, last + 1);
                } else {
                    let other = old_entry.0->0;
                    assert(t[i].0 != t[at].0);
                    lemma_last_reference(head, other);
                    if last_reference(head, other) > last {
                        assert(is_suffix(head[last_reference(head, other)]));
                    }
                    lemma_requested_settled(head, token, other, last);
                }
            }
        } else {
            let at = key_index(t, Some(token));
            lemma_key_index(t, Some(token));
            assert forall|i: int| 0 <= i < u.len() implies {
                let entry = #[trigger] u[i];
                &&& entry.0 is Some
                &&& !is_suffix(entry.0->0)
                &&& entry.1 == requested(tokens, entry.0->0)
            } by {
                if i == at {
                    lemma_run_end_at(tokens, tokens.len() as int, tokens.len() as int);
                } else {
                    let other = t[i].0->0;
                    if at < t.len() {
                        assert(t[i].0 != t[at].0);
                    }
                    lemma_last_reference(head, other);
                    lemma_requested_settled(head, token, other, head.len() as int);
                }
            }
        }
    }
}

/// Distributing features is never rejected for a dangling feature suffix or
/// for a rename, and leaves the keys of the table and their order as they
/// were.
pub proof fn lemma_distribute(t: Seq<Entry>, infer: bool, fs: Seq<Seq<char>>)
    requires
        table_wf(t, infer),
        t.len() > 0,
    ensures
        distribute(t, infer, fs) != Err::<Seq<Entry>, Rejection>(Rejection::DanglingFeatureSuffix),
        distribute(t, infer, fs) != Err::<Seq<Entry>, Rejection>(
            Rejection::RenameRequiresSingleTarget,
        ),
        distribute(t, infer, fs) matches Ok(u) ==> keys_of(u) == keys_of(t) && table_wf(u, infer),
    decreases fs.len(),
{
    if fs.len() > 0 {
        lemma_distribute(t, infer, fs.drop_last());
        match distribute(t, infer, fs.drop_last()) {
            Ok(u) => {
                assert(keys_of(u).len() == u.len());
                lemma_apply(u, infer, fs.last());
            },
            Err(e) => {},
        }
    }
}

/// Entering one feature is never rejected for a dangling feature suffix or
/// for a rename, and leaves the keys of the table and their order as they
/// were.
pub proof fn lemma_apply(t: Seq<Entry>, infer: bool, f: Seq<char>)
    requires
        table_wf(t, infer),
        t.len() > 0,
    ensures
        apply(t, infer, f) != Err::<Seq<Entry>, Rejection>(Rejection::DanglingFeatureSuffix),
        apply(t, infer, f) != Err::<Seq<Entry>, Rejection>(Rejection::RenameRequiresSingleTarget),
        apply(t, infer, f) matches Ok(u) ==> keys_of(u) == keys_of(t) && table_wf(u, infer),
{
    match apply(t, infer, f) {
        Ok(u) => {
            match classify(f) {
                FeatureForm::Feature(_) => {
                    lemma_activate_at(t, infer, 0, f);
                },
                FeatureForm::Dep { dep_name } => {},
                FeatureForm::DepFeature { dep_name, dep_feature, weak } => {
                    lemma_key_index(t, Some(dep_name));
                    lemma_activate_at(t, infer, key_index(t, Some(dep_name)), dep_feature);
                },
            }
        },
        Err(e) => {},
    }
}

/// A non-empty list of tokens in which every feature suffix has a crate
/// reference before it is never rejected for a dangling feature suffix.
pub proof fn lemma_no_dangling_suffix(args: AddArgsView)
    requires
        args.crates.len() > 0,
        suffixes_follow_crates(args.crates),
    ensures
        build_table(args.crates) is Ok,
        parse(args) != Err::<ParsedView, Rejection>(Rejection::DanglingFeatureSuffix),
{
    let tokens = args.crates;
    lemma_build_table_rejection(tokens);
    if is_suffix(tokens[0]) {
        let j = choose|j: int| 0 <= j < 0 && !is_suffix(#[trigger] tokens[j]);
        assert(false);
    }
    lemma_build_table(tokens);
    let t = build_table(tokens)->Ok_0;
    lemma_distribute(seeded(t), false, all_features(args.features));
}

/// The operations of a successful parse stand for the distinct crate
/// references, each at the place of its first occurrence among the tokens;
/// a crate referred to again neither moves nor gets a second operation.
pub proof fn lemma_operation_order(args: AddArgsView)
    requires
        args.crates.len() > 0,
        parse(args) is Ok,
    ensures
        build_table(args.crates) is Ok,
        keys_of(build_table(args.crates)->Ok_0) == as_keys(first_occurrences(crate_refs(args.crates))),
        parse(args)->Ok_0.ops.len() == first_occurrences(crate_refs(args.crates)).len(),
        forall|i: int|
            0 <= i < parse(args)->Ok_0.ops.len() ==> (#[trigger] parse(args)->Ok_0.ops[i]).crate_spec
                == Some(first_occurrences(crate_refs(args.crates))[i]),
{
    let tokens = args.crates;
    lemma_build_table(tokens);
    let t = build_table(tokens)->Ok_0;
    lemma_distribute(t, false, all_features(args.features));
    let u = distribute(t, false, all_features(args.features))->Ok_0;
    let names = first_occurrences(crate_refs(tokens));
    assert(keys_of(u).len() == u.len());
    assert(as_keys(names).len() == names.len());
    assert forall|i: int| 0 <= i < parse(args)->Ok_0.ops.len() implies (#[trigger] parse(
        args,
    )->Ok_0.ops[i]).crate_spec == Some(names[i]) by {
        assert(keys_of(u)[i] == as_keys(names)[i]);
    }
}

/// A parse is rejected for its rename exactly when a rename is given, the
/// tokens refer to more than one distinct crate, and nothing was rejected
/// before the operations were assembled.
pub proof fn lemma_rename_rejection(args: AddArgsView)
    ensures
        parse(args) == Err::<ParsedView, Rejection>(Rejection::RenameRequiresSingleTarget) <==> {
            &&& args.rename is Some
            &&& first_occurrences(crate_refs(args.crates)).len() > 1
            &&& build_table(args.crates) matches Ok(t)
            &&& distribute(t, false, all_features(args.features)) is Ok
        },
{
    let tokens = args.crates;
    lemma_build_table_rejection(tokens);
    if build_table(tokens) is Ok {
        lemma_build_table(tokens);
        let t = build_table(tokens)->Ok_0;
        let names = first_occurrences(crate_refs(tokens));
        assert(keys_of(t).len() == t.len());
        assert(as_keys(names).len() == names.len());
        let infer = t.len() == 0;
        lemma_distribute(seeded(t), infer, all_features(args.features));
        if distribute(seeded(t), infer, all_features(args.features)) is Ok {
            let u = distribute(seeded(t), infer, all_features(args.features))->Ok_0;
            assert(keys_of(u).len() == u.len());
            assert(keys_of(seeded(t)).len() == seeded(t).len());
        }
    }
}

/// Without a crate reference a successful parse gives exactly one operation,
/// which names no crate, and asks for the crate name to be inferred.
pub proof fn lemma_inferred_name(args: AddArgsView)
    requires
        args.crates.len() == 0,
        parse(args) is Ok,
    ensures
        parse(args)->Ok_0.infer_crate_name,
        parse(args)->Ok_0.ops.len() == 1,
        parse(args)->Ok_0.ops[0].crate_spec is None,
{
    let t = seeded(Seq::<Entry>::empty());
    lemma_distribute(t, true, all_features(args.features));
    let u = distribute(t, true, all_features(args.features))->Ok_0;
    assert(keys_of(u).len() == u.len());
    assert(keys_of(u)[0] == keys_of(t)[0]);
}

/// With a crate reference a successful parse does not ask for the crate name
/// to be inferred, and every operation names its crate.
pub proof fn lemma_named_crates(args: AddArgsView)
    requires
        args.crates.len() > 0,
        parse(args) is Ok,
    ensures
        !parse(args)->Ok_0.infer_crate_name,
        parse(args)->Ok_0.ops.len() > 0,
        forall|i: int|
            0 <= i < parse(args)->Ok_0.ops.len() ==> (#[trigger] parse(args)->Ok_0.ops[i]).crate_spec
                is Some,
{
    lemma_operation_order(args);
    lemma_build_table(args.crates);
    let t = build_table(args.crates)->Ok_0;
    lemma_distribute(t, false, all_features(args.features));
    let u = distribute(t, false, all_features(args.features))->Ok_0;
    assert(keys_of(u).len() == u.len());
    assert(keys_of(t).len() == t.len());
}

/// Two parses of the same arguments give the same outcome.
pub proof fn lemma_parse_deterministic(
    a: AddArgs,
    b: AddArgs,
    ra: Result<ParsedDependencies, AddError>,
    rb: Result<ParsedDependencies, AddError>,
)
    requires
        a@ == b@,
        outcome_view(ra) == parse(a@),
        outcome_view(rb) == parse(b@),
    ensures
        outcome_view(ra) == outcome_view(rb),
{
}

} // verus!
