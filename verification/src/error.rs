//! What can be wrong with a request to add dependencies.

use vstd::prelude::*;
use vstd::string::StringExecFns;

verus! {

broadcast use vstd::seq::group_seq_axioms;

/// The reason a request was rejected, over character sequences.
pub enum Rejection {
    /// A `+feature` token stood before any crate.
    DanglingFeatureSuffix,
    /// A feature without a crate in front of it, with more than one crate to
    /// choose from; `candidates` holds the qualified spelling for each crate,
    /// in table order.
    AmbiguousFeatureTarget { feature: Seq<char>, candidates: Seq<Seq<char>> },
    /// A feature written with the `dep:` prefix.
    ExplicitDepSyntaxUnsupported { feature: Seq<char> },
    /// A feature qualified by a crate while the crate name is inferred;
    /// `dep_feature` is the spelling without the crate.
    QualifiedFeatureWithInferredName { feature: Seq<char>, dep_feature: Seq<char> },
    /// A qualified feature whose feature part holds another `/`.
    DoubleQualifiedFeature { feature: Seq<char> },
    /// A feature qualified by a crate that is not among those named.
    UnknownFeatureTarget { dep_feature: Seq<char>, dep_name: Seq<char> },
    /// A rename requested for more than one crate.
    RenameRequiresSingleTarget,
}

/// The reason a request was rejected.
#[derive(Debug, PartialEq, Eq)]
pub enum AddError {
    /// A `+feature` token stood before any crate.
    DanglingFeatureSuffix,
    /// A feature without a crate in front of it, with more than one crate to
    /// choose from; `candidates` holds the qualified spelling for each crate,
    /// in table order.
    AmbiguousFeatureTarget { feature: String, candidates: Vec<String> },
    /// A feature written with the `dep:` prefix.
    ExplicitDepSyntaxUnsupported { feature: String },
    /// A feature qualified by a crate while the crate name is inferred;
    /// `dep_feature` is the spelling without the crate.
    QualifiedFeatureWithInferredName { feature: String, dep_feature: String },
    /// A qualified feature whose feature part holds another `/`.
    DoubleQualifiedFeature { feature: String },
    /// A feature qualified by a crate that is not among those named.
    UnknownFeatureTarget { dep_feature: String, dep_name: String },
    /// A rename requested for more than one crate.
    RenameRequiresSingleTarget,
}

impl View for AddError {
    type V = Rejection;

    open spec fn view(&self) -> Rejection {
        match self {
            AddError::DanglingFeatureSuffix => Rejection::DanglingFeatureSuffix,
            AddError::AmbiguousFeatureTarget { feature, candidates } => Rejection::AmbiguousFeatureTarget {
                feature: feature@,
                candidates: candidates.deep_view(),
            },
            AddError::ExplicitDepSyntaxUnsupported { feature } => Rejection::ExplicitDepSyntaxUnsupported {
                feature: feature@,
            },
            AddError::QualifiedFeatureWithInferredName {
                feature,
                dep_feature,
            } => Rejection::QualifiedFeatureWithInferredName {
                feature: feature@,
                dep_feature: dep_feature@,
            },
            AddError::DoubleQualifiedFeature { feature } => Rejection::DoubleQualifiedFeature {
                feature: feature@,
            },
            AddError::UnknownFeatureTarget { dep_feature, dep_name } => Rejection::UnknownFeatureTarget {
                dep_feature: dep_feature@,
                dep_name: dep_name@,
            },
            AddError::RenameRequiresSingleTarget => Rejection::RenameRequiresSingleTarget,
        }
    }
}

/// `s` between backticks.
pub open spec fn quoted(s: Seq<char>) -> Seq<char> {
    "`"@ + s + "`"@
}

/// The items, each between backticks, separated by a comma and a space.
pub open spec fn quoted_list(items: Seq<Seq<char>>) -> Seq<char>
    decreases items.len(),
{
    if items.len() == 0 {
        Seq::empty()
    } else if items.len() == 1 {
        quoted(items[0])
    } else {
        quoted_list(items.drop_last()) + ", "@ + quoted(items.last())
    }
}

/// The text shown to the user for a rejection.
pub open spec fn message_text(e: Rejection) -> Seq<char> {
    match e {
        Rejection::DanglingFeatureSuffix => "Tried to add feature, but you haven't specified a crate yet. Please specify a crate before adding features: cargo add <crate> +feature"@,
        Rejection::AmbiguousFeatureTarget { feature, candidates } => "feature "@ + quoted(feature)
            + " must be qualified by the dependency its being activated for, like "@ + quoted_list(
            candidates,
        ),
        Rejection::ExplicitDepSyntaxUnsupported { feature } => "feature "@ + quoted(feature)
            + " is not allowed to use explicit `dep:` syntax"@,
        Rejection::QualifiedFeatureWithInferredName { feature, dep_feature } => quoted(feature)
            + " is unsupported when inferring the crate name, use "@ + quoted(dep_feature),
        Rejection::DoubleQualifiedFeature { feature } => "multiple slashes in feature "@ + quoted(
            feature,
        ) + " is not allowed"@,
        Rejection::UnknownFeatureTarget { dep_feature, dep_name } => "feature "@ + quoted(dep_feature)
            + " activated for crate "@ + quoted(dep_name) + " but the crate wasn't specified"@,
        Rejection::RenameRequiresSingleTarget => "cannot specify multiple crates with `--rename`"@,
    }
}

/// Appends `s` between backticks to `out`.
fn push_quoted(out: &mut String, s: &str)
    ensures
        final(out)@ == old(out)@ + quoted(s@),
{
    out.append("`");
    out.append(s);
    out.append("`");
    proof {
        assert(out@ =~= old(out)@ + quoted(s@));
    }
}

/// Appends the items, each between backticks and separated by a comma and a
/// space, to `out`.
fn push_quoted_list(out: &mut String, items: &Vec<String>)
    ensures
        final(out)@ == old(out)@ + quoted_list(items.deep_view()),
{
    let ghost all = items.deep_view();
    let mut i: usize = 0;
    proof {
        assert(all.take(0).len() == 0);
        assert(out@ =~= old(out)@ + quoted_list(all.take(0)));
    }
    while i < items.len()
        invariant
            i <= items.len(),
            all == items.deep_view(),
            out@ == old(out)@ + quoted_list(all.take(i as int)),
        decreases items.len() - i,
    {
        let ghost before = out@;
        if i > 0 {
            out.append(", ");
        }
        push_quoted(out, items[i].as_str());
        proof {
            let done = all.take(i as int);
            let next = all.take(i + 1);
            assert(next.drop_last() =~= done);
            assert(next.last() == items[i as int]@);
            if i == 0 {
                assert(quoted_list(done) =~= Seq::<char>::empty());
                assert(out@ =~= old(out)@ + quoted_list(next));
            } else {
                assert(out@ =~= old(out)@ + quoted_list(next));
            }
        }
        i += 1;
    }
    proof {
        assert(all.take(i as int) =~= all);
    }
}

impl AddError {
    /// The text shown to the user.
    pub fn message(&self) -> (r: String)
        ensures
            r@ == message_text(self@),
    {
        let mut out: String = String::new();
        match self {
            AddError::DanglingFeatureSuffix => {
                out.append(
                    "Tried to add feature, but you haven't specified a crate yet. Please specify a crate before adding features: cargo add <crate> +feature",
                );
            },
            AddError::AmbiguousFeatureTarget { feature, candidates } => {
                out.append("feature ");
                push_quoted(&mut out, feature.as_str());
                out.append(" must be qualified by the dependency its being activated for, like ");
                push_quoted_list(&mut out, candidates);
            },
            AddError::ExplicitDepSyntaxUnsupported { feature } => {
                out.append("feature ");
                push_quoted(&mut out, feature.as_str());
                out.append(" is not allowed to use explicit `dep:` syntax");
            },
            AddError::QualifiedFeatureWithInferredName { feature, dep_feature } => {
                push_quoted(&mut out, feature.as_str());
                out.append(" is unsupported when inferring the crate name, use ");
                push_quoted(&mut out, dep_feature.as_str());
            },
            AddError::DoubleQualifiedFeature { feature } => {
                out.append("multiple slashes in feature ");
                push_quoted(&mut out, feature.as_str());
                out.append(" is not allowed");
            },
            AddError::UnknownFeatureTarget { dep_feature, dep_name } => {
                out.append("feature ");
                push_quoted(&mut out, dep_feature.as_str());
                out.append(" activated for crate ");
                push_quoted(&mut out, dep_name.as_str());
                out.append(" but the crate wasn't specified");
            },
            AddError::RenameRequiresSingleTarget => {
                out.append("cannot specify multiple crates with `--rename`");
            },
        }
        proof {
            assert(out@ =~= message_text(self@));
        }
        out
    }
}

} // verus!
