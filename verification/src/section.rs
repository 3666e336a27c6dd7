//! Where in the manifest the dependencies go, and which package receives
//! them.

use vstd::prelude::*;
use vstd::string::StringExecFns;

verus! {

broadcast use vstd::seq::group_seq_axioms;

/// The kind of dependency table.
#[derive(Clone, Copy, Debug, PartialEq, Eq, Structural)]
pub enum SectionKind {
    /// `[dependencies]`
    Normal,
    /// `[dev-dependencies]`
    Development,
    /// `[build-dependencies]`
    Build,
}

/// The dependency table to edit: its kind and, where the dependencies are
/// for one platform only, that platform.
#[derive(Debug, PartialEq, Eq)]
pub struct Section {
    pub kind: SectionKind,
    pub target: Option<String>,
}

/// The kind that the section flags select: development wins over build, and
/// without either flag the dependency is a normal one.
pub open spec fn section_kind(dev: bool, build: bool) -> SectionKind {
    if dev {
        SectionKind::Development
    } else if build {
        SectionKind::Build
    } else {
        SectionKind::Normal
    }
}

/// Chooses the dependency table from the section flags and the target
/// platform, which must not be the empty string.
pub fn parse_section(dev: bool, build: bool, target: Option<String>) -> (r: Section)
    requires
        target matches Some(platform) ==> platform@.len() > 0,
    ensures
        r.kind == section_kind(dev, build),
        r.target == target,
{
    let kind = if dev {
        SectionKind::Development
    } else if build {
        SectionKind::Build
    } else {
        SectionKind::Normal
    };
    Section { kind, target }
}

/// Why no package could be chosen to receive the dependencies.
#[derive(Clone, Copy, Debug, PartialEq, Eq, Structural)]
pub enum SelectionError {
    /// No package was selected.
    NoPackage,
    /// More than one package was selected; the count is given.
    SeveralPackages(usize),
}

/// The position of the package that receives the dependencies among the
/// `count` packages selected: there must be exactly one.
pub fn select_package(count: usize) -> (r: Result<usize, SelectionError>)
    ensures
        r == (if count == 0 {
            Err::<usize, SelectionError>(SelectionError::NoPackage)
        } else if count == 1 {
            Ok::<usize, SelectionError>(0)
        } else {
            Err::<usize, SelectionError>(SelectionError::SeveralPackages(count))
        }),
{
    if count == 0 {
        Err(SelectionError::NoPackage)
    } else if count == 1 {
        Ok(0)
    } else {
        Err(SelectionError::SeveralPackages(count))
    }
}

/// The character for one decimal digit.
pub open spec fn digit_char(d: nat) -> char {
    if d == 0 {
        '0'
    } else if d == 1 {
        '1'
    } else if d == 2 {
        '2'
    } else if d == 3 {
        '3'
    } else if d == 4 {
        '4'
    } else if d == 5 {
        '5'
    } else if d == 6 {
        '6'
    } else if d == 7 {
        '7'
    } else if d == 8 {
        '8'
    } else {
        '9'
    }
}

/// A number written in decimal, without leading zeros.
pub open spec fn decimal(n: nat) -> Seq<char>
    decreases n,
{
    if n < 10 {
        seq![digit_char(n)]
    } else {
        decimal(n / 10).push(digit_char(n % 10))
    }
}

/// The text shown to the user when no single package is selected.
pub open spec fn selection_message(e: SelectionError) -> Seq<char> {
    match e {
        SelectionError::NoPackage => "no packages selected.  Please specify one with `-p <PKGID>`"@,
        SelectionError::SeveralPackages(count) => decimal(count as nat)
            + " packages selected.  Please specify one with `-p <PKGID>`"@,
    }
}

/// One decimal digit as text.
fn digit_text(d: usize) -> (r: &'static str)
    requires
        d < 10,
    ensures
        r@ == seq![digit_char(d as nat)],
{
    proof {
        reveal_strlit("0");
        reveal_strlit("1");
        reveal_strlit("2");
        reveal_strlit("3");
        reveal_strlit("4");
        reveal_strlit("5");
        reveal_strlit("6");
        reveal_strlit("7");
        reveal_strlit("8");
        reveal_strlit("9");
    }
    let r = if d == 0 {
        "0"
    } else if d == 1 {
        "1"
    } else if d == 2 {
        "2"
    } else if d == 3 {
        "3"
    } else if d == 4 {
        "4"
    } else if d == 5 {
        "5"
    } else if d == 6 {
        "6"
    } else if d == 7 {
        "7"
    } else if d == 8 {
        "8"
    } else {
        "9"
    };
    proof {
        assert(r@ =~= seq![digit_char(d as nat)]);
    }
    r
}

/// Appends `n` in decimal to `out`.
fn push_decimal(out: &mut String, n: usize)
    ensures
        final(out)@ == old(out)@ + decimal(n as nat),
    decreases n,
{
    if n >= 10 {
        push_decimal(out, n / 10);
    }
    out.append(digit_text(n % 10));
    proof {
        assert(out@ =~= old(out)@ + decimal(n as nat));
    }
}

impl SelectionError {
    /// The text shown to the user.
    pub fn message(&self) -> (r: String)
        ensures
            r@ == selection_message(*self),
    {
        let mut out: String = String::new();
        match self {
            SelectionError::NoPackage => {
                out.append("no packages selected.  Please specify one with `-p <PKGID>`");
            },
            SelectionError::SeveralPackages(count) => {
                push_decimal(&mut out, *count);
                out.append(" packages selected.  Please specify one with `-p <PKGID>`");
            },
        }
        proof {
            assert(out@ =~= selection_message(*self));
        }
        out
    }
}

} // verus!
