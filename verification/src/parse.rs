//! From command-line tokens to dependency operations: the table is built
//! from the positional tokens, the features given by flag are distributed
//! over it, and one operation is assembled for each entry.

use crate::error::{AddError, Rejection};
use crate::feature::{
    classify, contains_char, parse_feature, split_features, FeatureForm, FeatureValue,
};
use crate::laws::lemma_build_table_rejection;
use crate::ordered::{features_view, key_index, name_view};
use crate::request::{
    default_features, flag_value, optional, AddArgs, AddArgsView, DepOp, DepOpView,
};
use crate::table::{
    activate_at, candidates, has_key, insert_entry, lemma_activate_at, lemma_insert_entry,
    lemma_key_index, lemma_key_index_same_keys, CrateTable, Entry,
};
use vstd::prelude::*;
use vstd::string::StrSliceExecFns;

verus! {

broadcast use vstd::seq::group_seq_axioms;

/// Whether a positional token is a feature suffix: it begins with `+`.
pub open spec fn is_suffix(token: Seq<char>) -> bool {
    token.len() > 0 && token[0] == '+'
}

/// The crate reference that stands last among `tokens`, if there is one.
pub open spec fn last_crate(tokens: Seq<Seq<char>>) -> Option<Seq<char>>
    decreases tokens.len(),
{
    if tokens.len() == 0 {
        None
    } else if is_suffix(tokens.last()) {
        last_crate(tokens.drop_last())
    } else {
        Some(tokens.last())
    }
}

/// The table that the positional tokens describe. Each crate reference sets
/// the entry for that crate to no features; each feature suffix, with its
/// `+` taken off, is requested for the crate referred to last before it. A
/// feature suffix with no crate reference before it is rejected.
pub open spec fn build_table(tokens: Seq<Seq<char>>) -> Result<Seq<Entry>, Rejection>
    decreases tokens.len(),
{
    if tokens.len() == 0 {
        Ok(Seq::empty())
    } else {
        match build_table(tokens.drop_last()) {
            Err(e) => Err(e),
            Ok(t) => {
                let token = tokens.last();
                if is_suffix(token) {
                    match last_crate(tokens.drop_last()) {
                        None => Err(Rejection::DanglingFeatureSuffix),
                        Some(name) => Ok(activate_at(t, key_index(t, Some(name)), token.skip(1))),
                    }
                } else {
                    Ok(insert_entry(t, Some(token), None))
                }
            },
        }
    }
}

/// A table that is rejected after some of the tokens is rejected, for the
/// same reason, after all of them.
pub proof fn lemma_build_table_rejects(tokens: Seq<Seq<char>>, k: int)
    requires
        0 <= k <= tokens.len(),
        build_table(tokens.take(k)) is Err,
    ensures
        build_table(tokens) == build_table(tokens.take(k)),
    decreases tokens.len(),
{
    if k == tokens.len() {
        assert(tokens.take(k) =~= tokens);
    } else {
        assert(tokens.drop_last().take(k) =~= tokens.take(k));
        lemma_build_table_rejects(tokens.drop_last(), k);
    }
}

/// Builds the crate table from the positional tokens.
pub fn parse_crates(tokens: &Vec<String>) -> (r: Result<CrateTable, AddError>)
    ensures
        match build_table(tokens.deep_view()) {
            Ok(t) => r matches Ok(table) && table@ == t && table.wf() && !table.inferring(),
            Err(e) => r matches Err(err) && err@ == e,
        },
        r is Err <==> tokens@.len() > 0 && is_suffix(tokens@[0]@),
        r matches Err(err) ==> err@ == Rejection::DanglingFeatureSuffix,
{
    let ghost all = tokens.deep_view();
    proof {
        lemma_build_table_rejection(all);
        if tokens@.len() > 0 {
            assert(all[0] == tokens@[0]@);
        }
    }
    let mut table = CrateTable::new();
    let mut last: Option<&String> = None;
    let mut i: usize = 0;
    proof {
        assert(all.take(0) =~= Seq::<Seq<char>>::empty());
    }
    while i < tokens.len()
        invariant
            i <= tokens.len(),
            all == tokens.deep_view(),
            table.wf(),
            !table.inferring(),
            build_table(all.take(i as int)) == Ok::<Seq<Entry>, Rejection>(table@),
            match last {
                Some(name) => last_crate(all.take(i as int)) == Some(name@) && has_key(
                    table@,
                    Some(name@),
                ),
                None => last_crate(all.take(i as int)) is None,
            },
        decreases tokens.len() - i,
    {
        let token: &String = &tokens[i];
        let n: usize = token.as_str().unicode_len();
        proof {
            assert(all.take(i + 1).drop_last() =~= all.take(i as int));
            assert(all.take(i + 1).last() == token@);
        }
        if n > 0 && token.as_str().get_char(0) == '+' {
            match last {
                None => {
                    proof {
                        lemma_build_table_rejects(all, i + 1);
                    }
                    return Err(AddError::DanglingFeatureSuffix);
                },
                Some(name) => {
                    let feature: String = token.as_str().substring_char(1, n).to_owned();
                    let key: Option<String> = Some(name.clone());
                    let ghost before = table@;
                    proof {
                        assert(token@.subrange(1, n as int) =~= token@.skip(1));
                        lemma_key_index(before, Some(name@));
                        lemma_activate_at(before, false, key_index(before, Some(name@)), token@.skip(1));
                    }
                    table.add_feature(&key, feature);
                    proof {
                        lemma_key_index_same_keys(table@, before, Some(name@));
                    }
                },
            }
        } else {
            proof {
                lemma_insert_entry(table@, token@);
            }
            table.insert_crate(token.clone());
            last = Some(token);
        }
        i += 1;
    }
    proof {
        assert(all.take(i as int) =~= all);
    }
    Ok(table)
}

/// The feature tokens of every value of the features flag, in argument
/// order.
pub open spec fn all_features(raw: Seq<Seq<char>>) -> Seq<Seq<char>>
    decreases raw.len(),
{
    if raw.len() == 0 {
        Seq::empty()
    } else {
        all_features(raw.drop_last()) + split_features(raw.last())
    }
}

/// The table after one feature token given by flag. A plain feature goes to
/// the only entry and is ambiguous when there are several. The `dep:` form
/// is rejected. A feature qualified by a crate goes to that crate's entry;
/// it is rejected while the crate name is inferred, when its feature part
/// holds another `/`, and when the crate is not in the table.
pub open spec fn apply(t: Seq<Entry>, infer: bool, f: Seq<char>) -> Result<Seq<Entry>, Rejection> {
    match classify(f) {
        FeatureForm::Feature(_) => if t.len() > 1 {
            Err(Rejection::AmbiguousFeatureTarget { feature: f, candidates: candidates(t, f) })
        } else {
            Ok(activate_at(t, 0, f))
        },
        FeatureForm::Dep { dep_name } => Err(Rejection::ExplicitDepSyntaxUnsupported { feature: f }),
        FeatureForm::DepFeature { dep_name, dep_feature, weak } => if infer {
            Err(Rejection::QualifiedFeatureWithInferredName { feature: f, dep_feature })
        } else if dep_feature.contains('/') {
            Err(Rejection::DoubleQualifiedFeature { feature: f })
        } else if !has_key(t, Some(dep_name)) {
            Err(Rejection::UnknownFeatureTarget { dep_feature, dep_name })
        } else {
            Ok(activate_at(t, key_index(t, Some(dep_name)), dep_feature))
        },
    }
}

/// The table after the feature tokens `fs`, taken in order; the first token
/// that is rejected decides.
pub open spec fn distribute(t: Seq<Entry>, infer: bool, fs: Seq<Seq<char>>) -> Result<
    Seq<Entry>,
    Rejection,
>
    decreases fs.len(),
{
    if fs.len() == 0 {
        Ok(t)
    } else {
        match distribute(t, infer, fs.drop_last()) {
            Err(e) => Err(e),
            Ok(u) => apply(u, infer, fs.last()),
        }
    }
}

/// A distribution that is rejected after some of the tokens is rejected, for
/// the same reason, after all of them.
pub proof fn lemma_distribute_rejects(t: Seq<Entry>, infer: bool, fs: Seq<Seq<char>>, k: int)
    requires
        0 <= k <= fs.len(),
        distribute(t, infer, fs.take(k)) is Err,
    ensures
        distribute(t, infer, fs) == distribute(t, infer, fs.take(k)),
    decreases fs.len(),
{
    if k == fs.len() {
        assert(fs.take(k) =~= fs);
    } else {
        assert(fs.drop_last().take(k) =~= fs.take(k));
        lemma_distribute_rejects(t, infer, fs.drop_last(), k);
    }
}

/// Splits every value of the features flag and puts the tokens in one list.
pub fn collect_features(raw: &Vec<String>) -> (r: Vec<String>)
    ensures
        r.deep_view() == all_features(raw.deep_view()),
{
    let ghost all = raw.deep_view();
    let mut out: Vec<String> = Vec::new();
    let mut i: usize = 0;
    proof {
        assert(all.take(0) =~= Seq::<Seq<char>>::empty());
        assert(out.deep_view() =~= all_features(all.take(0)));
    }
    while i < raw.len()
        invariant
            i <= raw.len(),
            all == raw.deep_view(),
            out.deep_view() == all_features(all.take(i as int)),
        decreases raw.len() - i,
    {
        let mut tokens: Vec<String> = parse_feature(raw[i].as_str());
        let ghost before = out.deep_view();
        let ghost added = tokens.deep_view();
        out.append(&mut tokens);
        proof {
            assert(all.take(i + 1).drop_last() =~= all.take(i as int));
            assert(all.take(i + 1).last() == raw[i as int]@);
            assert(out.deep_view() =~= before + added);
        }
        i += 1;
    }
    proof {
        assert(all.take(i as int) =~= all);
    }
    out
}

/// Enters one feature token given by flag into the table.
pub fn apply_feature(table: CrateTable, feature: &str) -> (r: Result<CrateTable, AddError>)
    requires
        table.wf(),
        table@.len() > 0,
    ensures
        match apply(table@, table.inferring(), feature@) {
            Ok(t) => r matches Ok(out) && out@ == t && out.wf() && out.inferring()
                == table.inferring() && out@.len() == table@.len(),
            Err(e) => r matches Err(err) && err@ == e,
        },
{
    let mut table = table;
    match FeatureValue::new(feature) {
        FeatureValue::Feature(_) => {
            if 1 < table.len() {
                let candidates = table.qualified_candidates(feature);
                return Err(AddError::AmbiguousFeatureTarget { feature: feature.to_owned(), candidates });
            }
            proof {
                lemma_activate_at(table@, table.inferring(), 0, feature@);
            }
            table.add_feature_to_first(feature.to_owned());
            Ok(table)
        },
        FeatureValue::Dep { dep_name } => Err(
            AddError::ExplicitDepSyntaxUnsupported { feature: feature.to_owned() },
        ),
        FeatureValue::DepFeature { dep_name, dep_feature, weak } => {
            if table.infer_crate_name() {
                return Err(
                    AddError::QualifiedFeatureWithInferredName {
                        feature: feature.to_owned(),
                        dep_feature,
                    },
                );
            }
            if contains_char(dep_feature.as_str(), '/') {
                return Err(AddError::DoubleQualifiedFeature { feature: feature.to_owned() });
            }
            let wanted: String = dep_feature.clone();
            let key: Option<String> = Some(dep_name);
            proof {
                lemma_key_index(table@, name_view(key));
                if has_key(table@, name_view(key)) {
                    lemma_activate_at(
                        table@,
                        table.inferring(),
                        key_index(table@, name_view(key)),
                        dep_feature@,
                    );
                }
            }
            if table.add_feature(&key, dep_feature) {
                Ok(table)
            } else {
                match key {
                    Some(dep_name) => Err(AddError::UnknownFeatureTarget { dep_feature: wanted, dep_name }),
                    None => Ok(table),
                }
            }
        },
    }
}

/// Distributes the features given by flag over the table.
pub fn distribute_features(table: CrateTable, raw: &Vec<String>) -> (r: Result<CrateTable, AddError>)
    requires
        table.wf(),
        table@.len() > 0,
    ensures
        match distribute(table@, table.inferring(), all_features(raw.deep_view())) {
            Ok(t) => r matches Ok(out) && out@ == t && out.wf() && out.inferring()
                == table.inferring() && out@.len() == table@.len(),
            Err(e) => r matches Err(err) && err@ == e,
        },
{
    let tokens = collect_features(raw);
    let ghost fs = tokens.deep_view();
    let ghost start = table@;
    let ghost infer = table.inferring();
    let mut filled = table;
    let mut i: usize = 0;
    proof {
        assert(fs.take(0) =~= Seq::<Seq<char>>::empty());
    }
    while i < tokens.len()
        invariant
            i <= tokens.len(),
            fs == tokens.deep_view(),
            fs == all_features(raw.deep_view()),
            start == table@,
            infer == table.inferring(),
            filled.wf(),
            filled.inferring() == infer,
            filled@.len() == start.len(),
            start.len() > 0,
            distribute(start, infer, fs.take(i as int)) == Ok::<Seq<Entry>, Rejection>(filled@),
        decreases tokens.len() - i,
    {
        proof {
            assert(fs.take(i + 1).drop_last() =~= fs.take(i as int));
            assert(fs.take(i + 1).last() == tokens[i as int]@);
            assert(distribute(start, infer, fs.take(i + 1)) == apply(filled@, infer, tokens[i as int]@));
        }
        match apply_feature(filled, tokens[i].as_str()) {
            Ok(next) => {
                filled = next;
            },
            Err(e) => {
                proof {
                    lemma_distribute_rejects(start, infer, fs, i + 1);
                }
                return Err(e);
            },
        }
        i += 1;
    }
    proof {
        assert(fs.take(i as int) =~= fs);
    }
    Ok(filled)
}

/// The operation for one entry of the table: the entry's crate and features
/// with everything else taken from the arguments.
pub open spec fn operation(e: Entry, args: AddArgsView) -> DepOpView {
    DepOpView {
        crate_spec: e.0,
        rename: args.rename,
        features: e.1,
        default_features: flag_value(args.default_features, args.no_default_features),
        optional: flag_value(args.optional, args.no_optional),
        registry: args.registry,
        path: args.path,
        git: args.git,
        branch: args.branch,
        rev: args.rev,
        tag: args.tag,
    }
}

/// One operation for each entry of the table, in table order; a rename with
/// more than one entry is rejected.
pub open spec fn assemble(t: Seq<Entry>, args: AddArgsView) -> Result<Seq<DepOpView>, Rejection> {
    if t.len() > 1 && args.rename is Some {
        Err(Rejection::RenameRequiresSingleTarget)
    } else {
        Ok(Seq::new(t.len(), |i: int| operation(t[i], args)))
    }
}

/// Whether each pair of presence flags has at most one flag set.
pub open spec fn flags_allowed(args: AddArgsView) -> bool {
    &&& !(args.default_features && args.no_default_features)
    &&& !(args.optional && args.no_optional)
}

/// The operations as a sequence of their views.
pub open spec fn ops_view(ops: Seq<DepOp>) -> Seq<DepOpView> {
    Seq::new(ops.len(), |i: int| ops[i]@)
}

/// A copy of an optional string.
fn clone_name(name: &Option<String>) -> (r: Option<String>)
    ensures
        name_view(r) == name_view(*name),
{
    match name {
        Some(s) => Some(s.clone()),
        None => None,
    }
}

/// Assembles one operation for each entry of the table.
pub fn assemble_ops(table: CrateTable, args: &AddArgs) -> (r: Result<Vec<DepOp>, AddError>)
    requires
        flags_allowed(args@),
    ensures
        match assemble(table@, args@) {
            Ok(ops) => r matches Ok(out) && ops_view(out@) == ops,
            Err(e) => r matches Err(err) && err@ == e,
        },
{
    let ghost t = table@;
    let default_features = default_features(args);
    let optional = optional(args);
    let entries = table.into_entries();
    let mut ops: Vec<DepOp> = Vec::new();
    for entry in iter: entries
        invariant
            iter.seq() == entries@,
            entries@.len() == t.len(),
            forall|i: int|
                0 <= i < entries@.len() ==> (name_view((#[trigger] entries@[i]).0), features_view(
                    entries@[i].1,
                )) == t[i],
            default_features == flag_value(args.default_features, args.no_default_features),
            optional == flag_value(args.optional, args.no_optional),
            ops@.len() == iter.index(),
            forall|i: int| 0 <= i < ops@.len() ==> (#[trigger] ops@[i])@ == operation(t[i], args@),
    {
        let (crate_spec, features) = entry;
        let dep = DepOp {
            crate_spec,
            rename: clone_name(&args.rename),
            features,
            default_features,
            optional,
            registry: clone_name(&args.registry),
            path: clone_name(&args.path),
            git: clone_name(&args.git),
            branch: clone_name(&args.branch),
            rev: clone_name(&args.rev),
            tag: clone_name(&args.tag),
        };
        ops.push(dep);
    }
    if ops.len() > 1 && args.rename.is_some() {
        return Err(AddError::RenameRequiresSingleTarget);
    }
    proof {
        assert(ops_view(ops@) =~= assemble(t, args@)->Ok_0);
    }
    Ok(ops)
}

/// What a successful parse gives: the operations, in table order, and
/// whether the crate name is to be inferred from the source.
#[derive(Debug, PartialEq, Eq)]
pub struct ParsedDependencies {
    /// One operation for each crate.
    pub ops: Vec<DepOp>,
    /// Whether the crate name is to be inferred for the operation without a
    /// crate.
    pub infer_crate_name: bool,
}

/// What a successful parse gives, over character sequences.
pub struct ParsedView {
    pub ops: Seq<DepOpView>,
    pub infer_crate_name: bool,
}

impl View for ParsedDependencies {
    type V = ParsedView;

    open spec fn view(&self) -> ParsedView {
        ParsedView { ops: ops_view(self.ops@), infer_crate_name: self.infer_crate_name }
    }
}

/// The outcome of a parse, over character sequences.
pub open spec fn outcome_view(r: Result<ParsedDependencies, AddError>) -> Result<ParsedView, Rejection> {
    match r {
        Ok(parsed) => Ok(parsed@),
        Err(e) => Err(e@),
    }
}

/// The table to distribute features over: the table built from the tokens,
/// or, where that is empty, the single entry without a key.
pub open spec fn seeded(t: Seq<Entry>) -> Seq<Entry> {
    if t.len() == 0 {
        seq![(None::<Seq<char>>, None::<Seq<Seq<char>>>)]
    } else {
        t
    }
}

/// Whether the arguments select anything to add: a crate or a source.
pub open spec fn has_selection(args: AddArgsView) -> bool {
    args.crates.len() > 0 || args.path is Some || args.git is Some
}

/// The outcome of parsing the arguments. The table is built from the
/// positional tokens; without any, the crate name is inferred. The features
/// given by flag are distributed over the table, and one operation is
/// assembled for each entry. The first rejection decides.
pub open spec fn parse(args: AddArgsView) -> Result<ParsedView, Rejection> {
    match build_table(args.crates) {
        Err(e) => Err(e),
        Ok(t) => {
            let infer = t.len() == 0;
            match distribute(seeded(t), infer, all_features(args.features)) {
                Err(e) => Err(e),
                Ok(u) => match assemble(u, args) {
                    Err(e) => Err(e),
                    Ok(ops) => Ok(ParsedView { ops, infer_crate_name: infer }),
                },
            }
        },
    }
}

/// Turns the arguments into dependency operations.
pub fn parse_dependencies(args: &AddArgs) -> (r: Result<ParsedDependencies, AddError>)
    requires
        has_selection(args@),
        flags_allowed(args@),
    ensures
        outcome_view(r) == parse(args@),
{
    let mut crates = match parse_crates(&args.crates) {
        Ok(table) => table,
        Err(e) => {
            return Err(e);
        },
    };
    if crates.is_empty() {
        crates.insert_inferred();
    }
    let crates = match distribute_features(crates, &args.features) {
        Ok(table) => table,
        Err(e) => {
            return Err(e);
        },
    };
    let infer_crate_name = crates.infer_crate_name();
    match assemble_ops(crates, args) {
        Ok(ops) => Ok(ParsedDependencies { ops, infer_crate_name }),
        Err(e) => Err(e),
    }
}

} // verus!
