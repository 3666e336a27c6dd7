//! What the command line asks for, and the dependency operations it is turned
//! into.

use crate::ordered::{features_view, name_view};
use indexmap::IndexSet;
use vstd::prelude::*;

verus! {

/// The arguments of one invocation, as the command line gave them.
pub struct AddArgs {
    /// The positional tokens: crate references and `+feature` suffixes.
    pub crates: Vec<String>,
    /// Each value of the features flag, in argument order.
    pub features: Vec<String>,
    /// The name to depend under.
    pub rename: Option<String>,
    /// The registry to look the crates up in.
    pub registry: Option<String>,
    /// A filesystem path to the crate.
    pub path: Option<String>,
    /// A git repository that holds the crate.
    pub git: Option<String>,
    /// The git branch to take.
    pub branch: Option<String>,
    /// The git revision to take.
    pub rev: Option<String>,
    /// The git tag to take.
    pub tag: Option<String>,
    /// Whether default features were switched on.
    pub default_features: bool,
    /// Whether default features were switched off.
    pub no_default_features: bool,
    /// Whether the dependency was marked optional.
    pub optional: bool,
    /// Whether the dependency was marked required.
    pub no_optional: bool,
}

/// The arguments of one invocation, over character sequences.
pub struct AddArgsView {
    pub crates: Seq<Seq<char>>,
    pub features: Seq<Seq<char>>,
    pub rename: Option<Seq<char>>,
    pub registry: Option<Seq<char>>,
    pub path: Option<Seq<char>>,
    pub git: Option<Seq<char>>,
    pub branch: Option<Seq<char>>,
    pub rev: Option<Seq<char>>,
    pub tag: Option<Seq<char>>,
    pub default_features: bool,
    pub no_default_features: bool,
    pub optional: bool,
    pub no_optional: bool,
}

impl View for AddArgs {
    type V = AddArgsView;

    open spec fn view(&self) -> AddArgsView {
        AddArgsView {
            crates: self.crates.deep_view(),
            features: self.features.deep_view(),
            rename: name_view(self.rename),
            registry: name_view(self.registry),
            path: name_view(self.path),
            git: name_view(self.git),
            branch: name_view(self.branch),
            rev: name_view(self.rev),
            tag: name_view(self.tag),
            default_features: self.default_features,
            no_default_features: self.no_default_features,
            optional: self.optional,
            no_optional: self.no_optional,
        }
    }
}

/// One dependency to add.
#[derive(Debug, PartialEq, Eq)]
pub struct DepOp {
    /// The crate, possibly with a version requirement; absent when the name
    /// is to be inferred from the source.
    pub crate_spec: Option<String>,
    /// The name to depend under.
    pub rename: Option<String>,
    /// The features to activate, in the order in which they were requested.
    pub features: Option<IndexSet<String>>,
    /// Whether default features are on, off, or left as they are.
    pub default_features: Option<bool>,
    /// Whether the dependency is optional, required, or left as it is.
    pub optional: Option<bool>,
    /// The registry to look the crate up in.
    pub registry: Option<String>,
    /// A filesystem path to the crate.
    pub path: Option<String>,
    /// A git repository that holds the crate.
    pub git: Option<String>,
    /// The git branch to take.
    pub branch: Option<String>,
    /// The git revision to take.
    pub rev: Option<String>,
    /// The git tag to take.
    pub tag: Option<String>,
}

/// One dependency to add, over character sequences.
pub struct DepOpView {
    pub crate_spec: Option<Seq<char>>,
    pub rename: Option<Seq<char>>,
    pub features: Option<Seq<Seq<char>>>,
    pub default_features: Option<bool>,
    pub optional: Option<bool>,
    pub registry: Option<Seq<char>>,
    pub path: Option<Seq<char>>,
    pub git: Option<Seq<char>>,
    pub branch: Option<Seq<char>>,
    pub rev: Option<Seq<char>>,
    pub tag: Option<Seq<char>>,
}

impl View for DepOp {
    type V = DepOpView;

    open spec fn view(&self) -> DepOpView {
        DepOpView {
            crate_spec: name_view(self.crate_spec),
            rename: name_view(self.rename),
            features: features_view(self.features),
            default_features: self.default_features,
            optional: self.optional,
            registry: name_view(self.registry),
            path: name_view(self.path),
            git: name_view(self.git),
            branch: name_view(self.branch),
            rev: name_view(self.rev),
            tag: name_view(self.tag),
        }
    }
}

/// The state that a pair of presence flags stands for: switched on, switched
/// off, or not mentioned.
pub open spec fn flag_value(yes: bool, no: bool) -> Option<bool> {
    if yes {
        Some(true)
    } else if no {
        Some(false)
    } else {
        None
    }
}

/// Resolves a pair of presence flags, of which at most one is set.
pub fn resolve_bool_arg(yes: bool, no: bool) -> (r: Option<bool>)
    requires
        !(yes && no),
    ensures
        r == flag_value(yes, no),
{
    if yes {
        Some(true)
    } else if no {
        Some(false)
    } else {
        None
    }
}

/// Whether default features are switched on, off, or not mentioned.
pub fn default_features(args: &AddArgs) -> (r: Option<bool>)
    requires
        !(args.default_features && args.no_default_features),
    ensures
        r == flag_value(args.default_features, args.no_default_features),
{
    resolve_bool_arg(args.default_features, args.no_default_features)
}

/// Whether the dependency is marked optional, required, or neither.
pub fn optional(args: &AddArgs) -> (r: Option<bool>)
    requires
        !(args.optional && args.no_optional),
    ensures
        r == flag_value(args.optional, args.no_optional),
{
    resolve_bool_arg(args.optional, args.no_optional)
}

} // verus!
