//! Feature tokens: splitting a raw feature list and classifying one token.

use cargo::util::interning::InternedString;
use vstd::prelude::*;
use vstd::string::StrSliceExecFns;

verus! {

broadcast use vstd::seq::group_seq_axioms;

/// Whether `c` has the Unicode `White_Space` property.
pub open spec fn is_whitespace(c: char) -> bool {
    let n = c as u32;
    ||| 0x09 <= n <= 0x0D
    ||| n == 0x20
    ||| n == 0x85
    ||| n == 0xA0
    ||| n == 0x1680
    ||| 0x2000 <= n <= 0x200A
    ||| n == 0x2028
    ||| n == 0x2029
    ||| n == 0x202F
    ||| n == 0x205F
    ||| n == 0x3000
}

/// Whether `c` ends a feature token: a comma or white space.
pub open spec fn is_separator(c: char) -> bool {
    c == ',' || is_whitespace(c)
}

/// The first position at or after `i` that holds a separator, or the length
/// of `s` when none does.
pub open spec fn token_end(s: Seq<char>, i: int) -> int
    decreases s.len() - i,
{
    if 0 <= i < s.len() && !is_separator(s[i]) {
        token_end(s, i + 1)
    } else {
        i
    }
}

/// The feature tokens of `s` that start at or after `i`: the maximal runs of
/// characters that are not separators, in the order in which they occur.
pub open spec fn split_from(s: Seq<char>, i: int) -> Seq<Seq<char>>
    decreases s.len() - i,
    via split_from_decreases
{
    if i < 0 || i >= s.len() {
        Seq::empty()
    } else if is_separator(s[i]) {
        split_from(s, i + 1)
    } else {
        seq![s.subrange(i, token_end(s, i))] + split_from(s, token_end(s, i))
    }
}

#[via_fn]
proof fn split_from_decreases(s: Seq<char>, i: int) {
    if 0 <= i < s.len() && !is_separator(s[i]) {
        lemma_token_end(s, i + 1);
    }
}

/// The feature tokens of a raw feature list.
pub open spec fn split_features(s: Seq<char>) -> Seq<Seq<char>> {
    split_from(s, 0)
}

/// `token_end(s, i)` lies between `i` and the end of `s`, no separator stands
/// between `i` and it, and it holds a separator unless it is the end of `s`.
pub proof fn lemma_token_end(s: Seq<char>, i: int)
    requires
        0 <= i <= s.len(),
    ensures
        i <= token_end(s, i) <= s.len(),
        forall|j: int| i <= j < token_end(s, i) ==> !is_separator(#[trigger] s[j]),
        token_end(s, i) < s.len() ==> is_separator(s[token_end(s, i)]),
    decreases s.len() - i,
{
    if i < s.len() && !is_separator(s[i]) {
        lemma_token_end(s, i + 1);
    }
}

/// Whether `t` can be a feature token: it holds at least one character and
/// no separator.
pub open spec fn is_token(t: Seq<char>) -> bool {
    t.len() > 0 && forall|j: int| 0 <= j < t.len() ==> !is_separator(#[trigger] t[j])
}

/// Every piece that splitting gives is a feature token.
pub proof fn lemma_split_tokens(s: Seq<char>, i: int)
    requires
        0 <= i <= s.len(),
    ensures
        forall|k: int| 0 <= k < split_from(s, i).len() ==> is_token(#[trigger] split_from(s, i)[k]),
    decreases s.len() - i,
{
    if i < s.len() {
        if is_separator(s[i]) {
            lemma_split_tokens(s, i + 1);
            assert(split_from(s, i) == split_from(s, i + 1));
        } else {
            let end = token_end(s, i);
            lemma_token_end(s, i);
            lemma_token_end(s, i + 1);
            lemma_split_tokens(s, end);
            let first = s.subrange(i, end);
            let rest = split_from(s, end);
            assert(is_token(first)) by {
                assert forall|j: int| 0 <= j < first.len() implies !is_separator(#[trigger] first[j]) by {
                    assert(first[j] == s[i + j]);
                }
            }
            assert forall|k: int| 0 <= k < split_from(s, i).len() implies is_token(
                #[trigger] split_from(s, i)[k],
            ) by {
                if k == 0 {
                    assert(split_from(s, i)[k] == first);
                } else {
                    assert(split_from(s, i)[k] == rest[k - 1]);
                }
            }
        }
    } else {
        assert(split_from(s, i).len() == 0);
    }
}

/// Whether `c` ends a feature token.
pub fn is_separator_char(c: char) -> (r: bool)
    ensures
        r == is_separator(c),
{
    let n: u32 = c as u32;
    c == ',' || (0x09 <= n && n <= 0x0D) || n == 0x20 || n == 0x85 || n == 0xA0 || n == 0x1680 || (0x2000
        <= n && n <= 0x200A) || n == 0x2028 || n == 0x2029 || n == 0x202F || n == 0x205F || n
        == 0x3000
}

/// Splits a feature list on white space and commas and drops empty pieces.
pub fn parse_feature(feature: &str) -> (r: Vec<String>)
    ensures
        r.deep_view() == split_features(feature@),
        forall|k: int| 0 <= k < r@.len() ==> is_token(#[trigger] r@[k]@),
{
    let n: usize = feature.unicode_len();
    let mut out: Vec<String> = Vec::new();
    let mut i: usize = 0;
    proof {
        assert(out.deep_view() =~= Seq::<Seq<char>>::empty());
    }
    while i < n
        invariant
            n == feature@.len(),
            i <= n,
            out.deep_view() + split_from(feature@, i as int) == split_features(feature@),
        decreases n - i,
    {
        if is_separator_char(feature.get_char(i)) {
            i += 1;
        } else {
            let start: usize = i;
            i += 1;
            while i < n && !is_separator_char(feature.get_char(i))
                invariant
                    n == feature@.len(),
                    start < i <= n,
                    token_end(feature@, start as int) == token_end(feature@, i as int),
                decreases n - i,
            {
                i += 1;
            }
            let token: String = feature.substring_char(start, i).to_owned();
            let ghost before = out.deep_view();
            out.push(token);
            proof {
                let piece = feature@.subrange(start as int, i as int);
                assert(out.deep_view() =~= before.push(piece));
                assert(before.push(piece) + split_from(feature@, i as int) =~= before + (seq![piece]
                    + split_from(feature@, i as int)));
            }
        }
    }
    proof {
        assert(out.deep_view() + Seq::<Seq<char>>::empty() =~= out.deep_view());
        lemma_split_tokens(feature@, 0);
        assert forall|k: int| 0 <= k < out@.len() implies is_token(#[trigger] out@[k]@) by {
            assert(out.deep_view()[k] == out@[k]@);
        }
    }
    out
}

/// The syntactic form of one feature token.
pub enum FeatureForm {
    /// A plain feature name.
    Feature(Seq<char>),
    /// An explicit dependency, written `dep:name`.
    Dep { dep_name: Seq<char> },
    /// A feature of a dependency, written `name/feature` or `name?/feature`.
    DepFeature { dep_name: Seq<char>, dep_feature: Seq<char>, weak: bool },
}

/// The first position at or after `i` that holds `c`, or the length of `s`
/// when none does.
pub open spec fn char_index(s: Seq<char>, c: char, i: int) -> int
    decreases s.len() - i,
{
    if 0 <= i < s.len() && s[i] != c {
        char_index(s, c, i + 1)
    } else {
        i
    }
}

/// Whether `s` begins with `dep:`.
pub open spec fn has_dep_prefix(s: Seq<char>) -> bool {
    s.len() >= 4 && s[0] == 'd' && s[1] == 'e' && s[2] == 'p' && s[3] == ':'
}

/// The form of a feature token. A token that holds `/` is split at the first
/// one into a dependency name, with one trailing `?` taken off as the weak
/// marker, and a feature name. A token without `/` that begins with `dep:`
/// names a dependency. Any other token is a plain feature name.
pub open spec fn classify(s: Seq<char>) -> FeatureForm {
    let slash = char_index(s, '/', 0);
    if slash < s.len() {
        let dep = s.take(slash);
        let weak = dep.len() > 0 && dep.last() == '?';
        FeatureForm::DepFeature {
            dep_name: if weak { dep.drop_last() } else { dep },
            dep_feature: s.skip(slash + 1),
            weak,
        }
    } else if has_dep_prefix(s) {
        FeatureForm::Dep { dep_name: s.skip(4) }
    } else {
        FeatureForm::Feature(s)
    }
}

/// One classified feature token.
#[derive(Debug, PartialEq, Eq)]
pub enum FeatureValue {
    /// A plain feature name.
    Feature(String),
    /// An explicit dependency, written `dep:name`.
    Dep { dep_name: String },
    /// A feature of a dependency, written `name/feature` or `name?/feature`.
    DepFeature { dep_name: String, dep_feature: String, weak: bool },
}

impl View for FeatureValue {
    type V = FeatureForm;

    open spec fn view(&self) -> FeatureForm {
        match self {
            FeatureValue::Feature(name) => FeatureForm::Feature(name@),
            FeatureValue::Dep { dep_name } => FeatureForm::Dep { dep_name: dep_name@ },
            FeatureValue::DepFeature { dep_name, dep_feature, weak } => FeatureForm::DepFeature {
                dep_name: dep_name@,
                dep_feature: dep_feature@,
                weak: *weak,
            },
        }
    }
}

/// `cargo::core::FeatureValue::new` on the interned token. The contract
/// restates that function: it looks for the first `/`, strips one trailing
/// `?` from what stands before it, and otherwise looks for the `dep:` prefix.
#[verifier::external_body]
fn feature_value_new(feature: &str) -> (r: FeatureValue)
    ensures
        r@ == classify(feature@),
{
    match cargo::core::FeatureValue::new(InternedString::new(feature)) {
        cargo::core::FeatureValue::Feature(name) => FeatureValue::Feature(name.as_str().to_owned()),
        cargo::core::FeatureValue::Dep { dep_name } => FeatureValue::Dep {
            dep_name: dep_name.as_str().to_owned(),
        },
        cargo::core::FeatureValue::DepFeature { dep_name, dep_feature, weak } => FeatureValue::DepFeature {
            dep_name: dep_name.as_str().to_owned(),
            dep_feature: dep_feature.as_str().to_owned(),
            weak,
        },
    }
}

impl FeatureValue {
    /// Classifies one feature token.
    pub fn new(feature: &str) -> (r: FeatureValue)
        ensures
            r@ == classify(feature@),
    {
        feature_value_new(feature)
    }
}

/// Whether `c` occurs in `s`.
pub fn contains_char(s: &str, c: char) -> (r: bool)
    ensures
        r == s@.contains(c),
{
    let n: usize = s.unicode_len();
    let mut i: usize = 0;
    while i < n
        invariant
            n == s@.len(),
            i <= n,
            forall|j: int| 0 <= j < i ==> s@[j] != c,
        decreases n - i,
    {
        if s.get_char(i) == c {
            return true;
        }
        i += 1;
    }
    false
}

} // verus!
