//! Which dependencies a platform needs.

use crate::metadata::{Dependency, DependencyView, Package, PackageView};
use crate::text::views;
use vstd::prelude::*;

verus! {

/// An attribute of the platform, as the compiler lists them.
#[derive(Debug)]
pub enum PlatformAttr {
    /// A bare name, like `unix`.
    Name(String),
    /// A name with a value, like `target_os = "linux"`.
    KeyPair(String, String),
}

impl View for PlatformAttr {
    type V = (Seq<char>, Option<Seq<char>>);

    open spec fn view(&self) -> (Seq<char>, Option<Seq<char>>) {
        match *self {
            PlatformAttr::Name(name) => (name@, None),
            PlatformAttr::KeyPair(key, value) => (key@, Some(value@)),
        }
    }
}

/// What becomes of a dependency on a platform.
#[derive(Debug, Clone, Copy, PartialEq, Eq, Structural)]
pub enum Applicability {
    /// The platform needs it.
    Applies,
    /// The platform does not need it.
    Skipped,
    /// Its platform expression cannot be read.
    Malformed,
}

/// A cfg expression.
pub enum CfgTree {
    /// Holds where the expression inside does not.
    Not(Box<CfgTree>),
    /// Holds where every one of the expressions does.
    All(Seq<CfgTree>),
    /// Holds where one of the expressions does.
    Any(Seq<CfgTree>),
    /// Holds where the platform has the attribute.
    Value((Seq<char>, Option<Seq<char>>)),
}

/// Whether a cfg expression holds of a platform with these attributes.
pub open spec fn cfg_holds(
    expr: CfgTree,
    attrs: Seq<(Seq<char>, Option<Seq<char>>)>,
) -> bool
    decreases expr,
{
    match expr {
        CfgTree::Not(inner) => !cfg_holds(*inner, attrs),
        CfgTree::All(parts) => forall|i: int|
            0 <= i < parts.len() ==> cfg_holds(#[trigger] parts[i], attrs),
        CfgTree::Any(parts) => exists|i: int|
            0 <= i < parts.len() && cfg_holds(#[trigger] parts[i], attrs),
        CfgTree::Value(attr) => attrs.contains(attr),
    }
}

/// The cfg expression that a text spells, if it spells one.
pub uninterp spec fn cfg_parse(text: Seq<char>) -> Option<CfgTree>;

/// Calls `<cargo_platform::CfgExpr as FromStr>::from_str`. Claims that what it reads depends
/// on nothing but the text, and says whether it reads an expression; the grammar is left
/// unsaid.
#[verifier::external_body]
fn is_cfg_expr(text: &str) -> (parses: bool)
    ensures
        parses == (cfg_parse(text@) is Some),
{
    text.parse::<cargo_platform::CfgExpr>().is_ok()
}

/// Calls `cargo_platform::CfgExpr::matches` on the expression that `from_str` reads from the
/// text. Claims that a `Not` holds where the expression inside does not, an `All` where
/// every part does, an `Any` where some part does, and a `Value` where the attributes hold it.
#[verifier::external_body]
fn cfg_text_holds(text: &str, attrs: &Vec<PlatformAttr>) -> (holds: bool)
    requires
        cfg_parse(text@) is Some,
    ensures
        holds == cfg_holds(cfg_parse(text@)->0, views(attrs@)),
{
    let cfgs: Vec<cargo_platform::Cfg> = attrs.iter().map(|attr| match attr {
        PlatformAttr::Name(name) => cargo_platform::Cfg::Name(name.clone()),
        PlatformAttr::KeyPair(key, value) => {
            cargo_platform::Cfg::KeyPair(key.clone(), value.clone())
        },
    }).collect();
    text.parse::<cargo_platform::CfgExpr>().unwrap().matches(&cfgs)
}

/// What becomes of a dependency on a platform with these attributes: one that names no
/// platforms is always needed, any other where its expression holds.
pub open spec fn applicability(
    dep: DependencyView,
    attrs: Seq<(Seq<char>, Option<Seq<char>>)>,
) -> Applicability {
    match dep.target {
        None => Applicability::Applies,
        Some(text) => match cfg_parse(text) {
            None => Applicability::Malformed,
            Some(expr) => if cfg_holds(expr, attrs) {
                Applicability::Applies
            } else {
                Applicability::Skipped
            },
        },
    }
}

/// What becomes of each dependency that a package declares.
pub open spec fn applicabilities(
    package: PackageView,
    attrs: Seq<(Seq<char>, Option<Seq<char>>)>,
) -> Seq<Applicability> {
    package.dependencies.map_values(|dep: DependencyView| applicability(dep, attrs))
}

/// What becomes of each dependency of each package.
pub open spec fn all_applicabilities(
    packages: Seq<PackageView>,
    attrs: Seq<(Seq<char>, Option<Seq<char>>)>,
) -> Seq<Seq<Applicability>> {
    packages.map_values(|package: PackageView| applicabilities(package, attrs))
}

/// What becomes of a dependency on a platform with these attributes.
pub fn applicability_of(dep: &Dependency, attrs: &Vec<PlatformAttr>) -> (outcome: Applicability)
    ensures
        outcome == applicability(dep@, views(attrs@)),
{
    match &dep.target {
        None => Applicability::Applies,
        Some(text) => if !is_cfg_expr(text.as_str()) {
            Applicability::Malformed
        } else if cfg_text_holds(text.as_str(), attrs) {
            Applicability::Applies
        } else {
            Applicability::Skipped
        },
    }
}

/// What becomes of each dependency that a package declares.
pub fn applicabilities_of(package: &Package, attrs: &Vec<PlatformAttr>) -> (outcomes: Vec<
    Applicability,
>)
    ensures
        outcomes@ == applicabilities(package@, views(attrs@)),
{
    let mut outcomes: Vec<Applicability> = Vec::new();
    let mut i: usize = 0;
    while i < package.dependencies.len()
        invariant
            i <= package.dependencies.len(),
            outcomes@ == applicabilities(package@, views(attrs@)).take(i as int),
        decreases package.dependencies.len() - i,
    {
        outcomes.push(applicability_of(&package.dependencies[i], attrs));
        assert(package@.dependencies[i as int] == package.dependencies@[i as int]@);
        assert(outcomes@ =~= applicabilities(package@, views(attrs@)).take(i + 1));
        i += 1;
    }
    assert(outcomes@ =~= applicabilities(package@, views(attrs@)));
    outcomes
}

/// What becomes of each dependency of each package.
pub fn all_applicabilities_of(packages: &Vec<Package>, attrs: &Vec<PlatformAttr>) -> (outcomes: Vec<
    Vec<Applicability>,
>)
    ensures
        views(outcomes@) == all_applicabilities(views(packages@), views(attrs@)),
{
    let mut outcomes: Vec<Vec<Applicability>> = Vec::new();
    let mut i: usize = 0;
    while i < packages.len()
        invariant
            i <= packages.len(),
            views(outcomes@) == all_applicabilities(views(packages@), views(attrs@)).take(i as int),
        decreases packages.len() - i,
    {
        let ghost before = views(outcomes@);
        outcomes.push(applicabilities_of(&packages[i], attrs));
        assert(views(outcomes@) =~= before.push(outcomes@[i as int]@));
        assert(views(outcomes@) =~= all_applicabilities(views(packages@), views(attrs@)).take(
            i + 1,
        ));
        i += 1;
    }
    assert(views(outcomes@) =~= all_applicabilities(views(packages@), views(attrs@)));
    outcomes
}

/// What is said of an attribute is said of its name and, where it has one, its value.
pub proof fn attribute_views_show_the_parts(attr: PlatformAttr)
    ensures
        attr matches PlatformAttr::Name(name) ==> attr@ == (name@, None::<Seq<char>>),
        attr matches PlatformAttr::KeyPair(key, value) ==> attr@ == (key@, Some(value@)),
{
}

/// A cfg expression holds of a platform by its attributes: the negation of an expression where
/// that does not hold, a conjunction or disjunction of one part more where it held before and,
/// or, where the part holds, and an attribute where the platform lists it.
pub proof fn cfg_holds_part_by_part(
    expr: CfgTree,
    parts: Seq<CfgTree>,
    attr: (Seq<char>, Option<Seq<char>>),
    attrs: Seq<(Seq<char>, Option<Seq<char>>)>,
)
    ensures
        cfg_holds(CfgTree::Not(Box::new(expr)), attrs) == !cfg_holds(expr, attrs),
        cfg_holds(CfgTree::All(Seq::empty()), attrs),
        cfg_holds(CfgTree::All(parts.push(expr)), attrs) == (cfg_holds(CfgTree::All(parts), attrs)
            && cfg_holds(expr, attrs)),
        !cfg_holds(CfgTree::Any(Seq::empty()), attrs),
        cfg_holds(CfgTree::Any(parts.push(expr)), attrs) == (cfg_holds(CfgTree::Any(parts), attrs)
            || cfg_holds(expr, attrs)),
        cfg_holds(CfgTree::Value(attr), attrs) <==> exists|i: int|
            0 <= i < attrs.len() && #[trigger] attrs[i] == attr,
{
    let longer = parts.push(expr);
    assert(longer[parts.len() as int] == expr);
    assert(forall|i: int| 0 <= i < parts.len() ==> #[trigger] longer[i] == parts[i]);
    let (all, all_longer) = (CfgTree::All(parts), CfgTree::All(longer));
    let (any, any_longer) = (CfgTree::Any(parts), CfgTree::Any(longer));
    lemma_parts_hold(all, attrs);
    lemma_parts_hold(all_longer, attrs);
    lemma_parts_hold(any, attrs);
    lemma_parts_hold(any_longer, attrs);
    lemma_parts_hold(CfgTree::All(Seq::empty()), attrs);
    lemma_parts_hold(CfgTree::Any(Seq::empty()), attrs);
    if cfg_holds(all_longer, attrs) {
        assert(cfg_holds(longer[parts.len() as int], attrs));
        assert forall|i: int| 0 <= i < parts.len() implies cfg_holds(
            #[trigger] parts[i],
            attrs,
        ) by {
            assert(cfg_holds(longer[i], attrs));
        }
    }
    if cfg_holds(any, attrs) {
        let i = choose|i: int| 0 <= i < parts.len() && cfg_holds(#[trigger] parts[i], attrs);
        assert(cfg_holds(longer[i], attrs));
    }
    if cfg_holds(expr, attrs) {
        assert(cfg_holds(longer[parts.len() as int], attrs));
    }
}

proof fn lemma_parts_hold(expr: CfgTree, attrs: Seq<(Seq<char>, Option<Seq<char>>)>)
    ensures
        expr matches CfgTree::All(parts) ==> (cfg_holds(expr, attrs) <==> forall|i: int|
            0 <= i < parts.len() ==> cfg_holds(#[trigger] parts[i], attrs)),
        expr matches CfgTree::Any(parts) ==> (cfg_holds(expr, attrs) <==> exists|i: int|
            0 <= i < parts.len() && cfg_holds(#[trigger] parts[i], attrs)),
{
}

/// What becomes of a dependency is for its platform expression and the platform to say,
/// whatever its name and its kind. One without an expression is always needed. One whose
/// expression can be read is needed where the expression holds and skipped where it does not.
pub proof fn platform_alone_decides(
    dep: DependencyView,
    attrs: Seq<(Seq<char>, Option<Seq<char>>)>,
)
    ensures
        applicability(dep, attrs) == Applicability::Applies <==> (dep.target is None || (
        cfg_parse(dep.target->0) is Some && cfg_holds(cfg_parse(dep.target->0)->0, attrs))),
        applicability(dep, attrs) == Applicability::Skipped <==> (dep.target is Some && cfg_parse(
            dep.target->0,
        ) is Some && !cfg_holds(cfg_parse(dep.target->0)->0, attrs)),
        applicability(dep, attrs) == Applicability::Malformed <==> (dep.target is Some
            && cfg_parse(dep.target->0) is None),
{
}

/// Two declarations with one platform expression share their fate, on every platform.
pub proof fn same_expression_same_fate(
    left: DependencyView,
    right: DependencyView,
    attrs: Seq<(Seq<char>, Option<Seq<char>>)>,
)
    requires
        left.target == right.target,
    ensures
        applicability(left, attrs) == applicability(right, attrs),
{
}

/// What becomes of the dependencies of the packages stands where the dependency does, in as
/// many places as there are.
pub proof fn outcomes_stand_where_the_dependencies_do(
    packages: Seq<PackageView>,
    attrs: Seq<(Seq<char>, Option<Seq<char>>)>,
    j: int,
    i: int,
)
    requires
        0 <= j < packages.len(),
        0 <= i < packages[j].dependencies.len(),
    ensures
        all_applicabilities(packages, attrs).len() == packages.len(),
        all_applicabilities(packages, attrs)[j].len() == packages[j].dependencies.len(),
        all_applicabilities(packages, attrs)[j] == applicabilities(packages[j], attrs),
        all_applicabilities(packages, attrs)[j][i] == applicability(
            packages[j].dependencies[i],
            attrs,
        ),
{
}

} // verus!
