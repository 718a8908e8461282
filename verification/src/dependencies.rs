//! What a crate depends on.

use crate::context::{BuildDependency, BuildDependencyView};
use crate::metadata::{Dependency, DependencyView, Package, PackageView};
use crate::order::{in_order, in_order_sorts, sort, Ordered};
use crate::platform::Applicability;
use crate::settings::{CrateSettings, CrateSettingsView};
use crate::string_map::StringMap;
use crate::text::{contains_text, full_name, full_name_of, lemma_filter_take, views};
use vstd::prelude::*;
use vstd::relations::*;
use vstd::seq_lib::*;
use vstd::string::*;

verus! {

// ---------------------------------------------------------------------------
// Kinds
// ---------------------------------------------------------------------------

/// What a dependency is needed for.
#[derive(Debug, Clone, Copy, PartialEq, Eq, Structural)]
pub enum DependencyKind {
    Normal,
    Dev,
    Build,
}

/// The kind that a declaration spells; `None` where it spells none.
pub open spec fn dependency_kind(kind: Option<Seq<char>>) -> Option<DependencyKind> {
    match kind {
        None => Some(DependencyKind::Normal),
        Some(kind) => if kind == "normal"@ {
            Some(DependencyKind::Normal)
        } else if kind == "dev"@ {
            Some(DependencyKind::Dev)
        } else if kind == "build"@ {
            Some(DependencyKind::Build)
        } else {
            None
        },
    }
}

/// The kind that a declaration spells; `None` where it spells none.
pub fn dependency_kind_of(dep: &Dependency) -> (kind: Option<DependencyKind>)
    ensures
        kind == dependency_kind(dep@.kind),
{
    match &dep.kind {
        None => Some(DependencyKind::Normal),
        Some(kind) => if *kind == "normal".to_owned() {
            Some(DependencyKind::Normal)
        } else if *kind == "dev".to_owned() {
            Some(DependencyKind::Dev)
        } else if *kind == "build".to_owned() {
            Some(DependencyKind::Build)
        } else {
            None
        },
    }
}

/// Every declaration can be read: no platform expression is malformed, and whatever the
/// platform needs is of a known kind.
pub open spec fn declarations_readable(
    deps: Seq<DependencyView>,
    outcomes: Seq<Applicability>,
) -> bool {
    forall|i: int|
        0 <= i < deps.len() ==> {
            &&& outcomes[i] != Applicability::Malformed
            &&& outcomes[i] == Applicability::Applies ==> dependency_kind(
                (#[trigger] deps[i]).kind,
            ) is Some
        }
}

/// The names of the declared dependencies of one kind that the platform needs, in order.
pub open spec fn names_of_kind(
    deps: Seq<DependencyView>,
    outcomes: Seq<Applicability>,
    kind: DependencyKind,
) -> Seq<Seq<char>>
    decreases deps.len(),
{
    if deps.len() == 0 {
        Seq::empty()
    } else {
        let before = names_of_kind(deps.drop_last(), outcomes, kind);
        let last = deps.len() - 1;
        if outcomes[last] == Applicability::Applies && dependency_kind(deps[last].kind) == Some(
            kind,
        ) {
            before.push(deps[last].name)
        } else {
            before
        }
    }
}

/// A name is among those of a kind exactly where a declaration of that kind that the platform
/// needs has it.
pub proof fn names_of_kind_are_declared(
    deps: Seq<DependencyView>,
    outcomes: Seq<Applicability>,
    kind: DependencyKind,
    name: Seq<char>,
)
    ensures
        names_of_kind(deps, outcomes, kind).contains(name) <==> exists|i: int|
            0 <= i < deps.len() && outcomes[i] == Applicability::Applies && dependency_kind(
                deps[i].kind,
            ) == Some(kind) && (#[trigger] deps[i]).name == name,
    decreases deps.len(),
{
    if deps.len() > 0 {
        let shorter = deps.drop_last();
        let before = names_of_kind(shorter, outcomes, kind);
        let names = names_of_kind(deps, outcomes, kind);
        let last = deps.len() - 1;
        names_of_kind_are_declared(shorter, outcomes, kind, name);
        assert forall|i: int| 0 <= i < last implies #[trigger] deps[i] == shorter[i] by {}
        if before.contains(name) {
            let k = choose|k: int| 0 <= k < before.len() && before[k] == name;
            assert(names[k] == name);
            let i = choose|i: int|
                0 <= i < shorter.len() && outcomes[i] == Applicability::Applies
                    && dependency_kind(shorter[i].kind) == Some(kind) && (#[trigger] shorter[i]).name
                    == name;
            assert(deps[i] == shorter[i]);
        } else if names.len() > before.len() {
            assert(names[before.len() as int] == deps[last].name);
            assert(names.contains(name) ==> name == deps[last].name);
        }
    }
}

/// The names of the dependencies that a platform needs, by kind.
#[derive(Debug)]
pub struct DependencyNames {
    pub normal: Vec<String>,
    pub dev: Vec<String>,
    pub build: Vec<String>,
}

/// Sorts the declared dependencies that the platform needs by kind. `None` where a
/// declaration cannot be read.
pub fn dependency_names(deps: &Vec<Dependency>, outcomes: &Vec<Applicability>) -> (names: Option<
    DependencyNames,
>)
    requires
        outcomes.len() == deps.len(),
    ensures
        names is Some <==> declarations_readable(views(deps@), outcomes@),
        names matches Some(names) ==> {
            &&& views(names.normal@) == names_of_kind(
                views(deps@),
                outcomes@,
                DependencyKind::Normal,
            )
            &&& views(names.dev@) == names_of_kind(views(deps@), outcomes@, DependencyKind::Dev)
            &&& views(names.build@) == names_of_kind(
                views(deps@),
                outcomes@,
                DependencyKind::Build,
            )
        },
{
    let ghost all = views(deps@);
    let mut normal: Vec<String> = Vec::new();
    let mut dev: Vec<String> = Vec::new();
    let mut build: Vec<String> = Vec::new();
    let mut i: usize = 0;
    assert(views(normal@) =~= Seq::<Seq<char>>::empty());
    assert(views(dev@) =~= Seq::<Seq<char>>::empty());
    assert(views(build@) =~= Seq::<Seq<char>>::empty());
    while i < deps.len()
        invariant
            i <= deps.len(),
            outcomes.len() == deps.len(),
            all == views(deps@),
            declarations_readable(all.take(i as int), outcomes@),
            views(normal@) == names_of_kind(
                all.take(i as int),
                outcomes@,
                DependencyKind::Normal,
            ),
            views(dev@) == names_of_kind(all.take(i as int), outcomes@, DependencyKind::Dev),
            views(build@) == names_of_kind(all.take(i as int), outcomes@, DependencyKind::Build),
        decreases deps.len() - i,
    {
        let ghost (normal0, dev0, build0) = (views(normal@), views(dev@), views(build@));
        let dep = &deps[i];
        assert(all[i as int] == dep@);
        match outcomes[i] {
            Applicability::Malformed => {
                return None;
            },
            Applicability::Skipped => {},
            Applicability::Applies => {
                match dependency_kind_of(dep) {
                    None => {
                        return None;
                    },
                    Some(DependencyKind::Normal) => {
                        normal.push(dep.name.clone());
                        assert(views(normal@) =~= normal0.push(dep@.name));
                    },
                    Some(DependencyKind::Dev) => {
                        dev.push(dep.name.clone());
                        assert(views(dev@) =~= dev0.push(dep@.name));
                    },
                    Some(DependencyKind::Build) => {
                        build.push(dep.name.clone());
                        assert(views(build@) =~= build0.push(dep@.name));
                    },
                }
            },
        }
        proof {
            let longer = all.take(i + 1);
            assert(longer.drop_last() =~= all.take(i as int));
            assert forall|j: int| 0 <= j < longer.len() implies {
                &&& outcomes@[j] != Applicability::Malformed
                &&& outcomes@[j] == Applicability::Applies ==> dependency_kind(
                    (#[trigger] longer[j]).kind,
                ) is Some
            } by {
                if j < i {
                    assert(all.take(i as int)[j] == longer[j]);
                }
            }
        }
        i += 1;
    }
    assert(all.take(i as int) =~= all);
    Some(DependencyNames { normal, dev, build })
}

// ---------------------------------------------------------------------------
// Resolution
// ---------------------------------------------------------------------------

/// The position of the last package with the given identity, if there is one.
pub open spec fn package_index(packages: Seq<PackageView>, id: Seq<char>) -> Option<int>
    decreases packages.len(),
{
    if packages.len() == 0 {
        None
    } else if packages.last().id == id {
        Some(packages.len() - 1)
    } else {
        package_index(packages.drop_last(), id)
    }
}

/// A package is found by an identity only where it has that identity.
pub proof fn package_index_finds(packages: Seq<PackageView>, id: Seq<char>)
    ensures
        match package_index(packages, id) {
            Some(at) => {
                &&& 0 <= at < packages.len()
                &&& packages[at].id == id
                &&& forall|later: int|
                    at < later < packages.len() ==> (#[trigger] packages[later]).id != id
            },
            None => forall|i: int| 0 <= i < packages.len() ==> (#[trigger] packages[i]).id != id,
        },
    decreases packages.len(),
{
    if packages.len() > 0 && packages.last().id != id {
        let shorter = packages.drop_last();
        package_index_finds(shorter, id);
        assert forall|i: int| 0 <= i < packages.len() - 1 implies #[trigger] packages[i]
            == shorter[i] by {}
    }
}

/// A map stands for the positions of packages by identity.
pub open spec fn indexes(by_id: Map<Seq<char>, usize>, packages: Seq<PackageView>) -> bool {
    forall|id: Seq<char>|
        #![trigger package_index(packages, id)]
        #![trigger by_id.contains_key(id)]
        match package_index(packages, id) {
            Some(at) => by_id.contains_key(id) && by_id[id] == at,
            None => !by_id.contains_key(id),
        }
}

/// The position of each package by its identity; where several packages share one, the
/// position of the last.
pub fn packages_by_id(packages: &Vec<Package>) -> (by_id: StringMap<usize>)
    ensures
        indexes(by_id@, views(packages@)),
{
    let ghost all = views(packages@);
    let mut by_id: StringMap<usize> = StringMap::new();
    let mut i: usize = 0;
    while i < packages.len()
        invariant
            i <= packages.len(),
            all == views(packages@),
            indexes(by_id@, all.take(i as int)),
        decreases packages.len() - i,
    {
        let ghost before = by_id@;
        by_id.insert(packages[i].id.clone(), i);
        proof {
            let longer = all.take(i + 1);
            assert(longer.drop_last() =~= all.take(i as int));
            assert forall|id: Seq<char>|
                match package_index(longer, id) {
                    Some(at) => #[trigger] by_id@.contains_key(id) && by_id@[id] == at,
                    None => !by_id@.contains_key(id),
                } by {
                let shorter_index = package_index(all.take(i as int), id);
            }
        }
        i += 1;
    }
    assert(all.take(i as int) =~= all);
    by_id
}

/// A dependency on a package.
pub open spec fn dependency_on(package: PackageView) -> BuildDependencyView {
    BuildDependencyView { name: package.name, version: package.version }
}

/// Every identity is that of a package.
pub open spec fn all_found(ids: Seq<Seq<char>>, packages: Seq<PackageView>) -> bool {
    forall|i: int| 0 <= i < ids.len() ==> package_index(packages, #[trigger] ids[i]) is Some
}

/// Dependencies on the packages with the given identities, in order.
pub open spec fn resolved(ids: Seq<Seq<char>>, packages: Seq<PackageView>) -> Seq<
    BuildDependencyView,
> {
    ids.map_values(|id: Seq<char>| dependency_on(packages[package_index(packages, id)->0]))
}

/// Dependencies on the packages with the given identities, in order. `None` where an
/// identity is that of no package.
pub fn resolve_dependencies(
    ids: &Vec<String>,
    packages: &Vec<Package>,
    by_id: &StringMap<usize>,
) -> (deps: Option<Vec<BuildDependency>>)
    requires
        indexes(by_id@, views(packages@)),
    ensures
        deps is Some <==> all_found(views(ids@), views(packages@)),
        deps matches Some(deps) ==> views(deps@) == resolved(views(ids@), views(packages@)),
{
    let ghost all = views(packages@);
    let mut deps: Vec<BuildDependency> = Vec::new();
    let mut i: usize = 0;
    while i < ids.len()
        invariant
            i <= ids.len(),
            all == views(packages@),
            indexes(by_id@, all),
            deps.len() == i,
            forall|j: int|
                0 <= j < i ==> package_index(all, #[trigger] views(ids@)[j]) is Some && deps@[j]@
                    == resolved(views(ids@), all)[j],
        decreases ids.len() - i,
    {
        proof {
            package_index_finds(all, ids@[i as int]@);
        }
        assert(views(ids@)[i as int] == ids@[i as int]@);
        match by_id.get(&ids[i]) {
            None => {
                return None;
            },
            Some(at) => {
                let package = &packages[*at];
                assert(package_index(all, ids@[i as int]@) == Some(*at as int));
                assert(all[*at as int] == package@);
                deps.push(
                    BuildDependency {
                        name: package.name.clone(),
                        version: package.version.clone(),
                    },
                );
            },
        }
        i += 1;
    }
    assert(views(deps@) =~= resolved(views(ids@), all));
    Some(deps)
}

/// The dependencies whose name is among the given ones, sorted.
pub open spec fn named_in_order(
    deps: Seq<BuildDependencyView>,
    names: Seq<Seq<char>>,
) -> Seq<BuildDependencyView> {
    in_order::<BuildDependency>(
        deps.filter(|dep: BuildDependencyView| names.contains(dep.name)),
    )
}

/// The dependencies whose name is among the given ones, sorted.
pub fn select_named(deps: &Vec<BuildDependency>, names: &Vec<String>) -> (selected: Vec<
    BuildDependency,
>)
    ensures
        views(selected@) == named_in_order(views(deps@), views(names@)),
{
    let ghost all = views(deps@);
    let ghost named = |dep: BuildDependencyView| views(names@).contains(dep.name);
    let mut selected: Vec<BuildDependency> = Vec::new();
    let mut i: usize = 0;
    proof {
        reveal(Seq::filter);
        assert(views(selected@) =~= all.take(0).filter(named));
    }
    while i < deps.len()
        invariant
            i <= deps.len(),
            all == views(deps@),
            named == |dep: BuildDependencyView| views(names@).contains(dep.name),
            views(selected@) == all.take(i as int).filter(named),
        decreases deps.len() - i,
    {
        let ghost before = views(selected@);
        proof {
            lemma_filter_take(all, named, i as int);
        }
        if contains_text(names, &deps[i].name) {
            selected.push(deps[i].clone());
            assert(views(selected@) =~= before.push(all[i as int]));
        }
        i += 1;
    }
    assert(all.take(i as int) =~= all);
    sort(selected)
}

// ---------------------------------------------------------------------------
// Skipping
// ---------------------------------------------------------------------------

/// The dependencies that the settings of a crate do not skip.
pub open spec fn not_skipped(
    deps: Seq<BuildDependencyView>,
    crate_settings: CrateSettingsView,
) -> Seq<BuildDependencyView> {
    deps.filter(
        |dep: BuildDependencyView|
            !crate_settings.skipped_deps.contains(full_name(dep.name, dep.version)),
    )
}

/// Leaves out the dependencies that the settings of a crate skip.
pub fn prune_skipped_deps(
    deps: &Vec<BuildDependency>,
    crate_settings: &CrateSettings,
) -> (kept: Vec<BuildDependency>)
    ensures
        views(kept@) == not_skipped(views(deps@), crate_settings@),
{
    let ghost all = views(deps@);
    let ghost keeps = |dep: BuildDependencyView|
        !crate_settings@.skipped_deps.contains(full_name(dep.name, dep.version));
    let mut kept: Vec<BuildDependency> = Vec::new();
    let mut i: usize = 0;
    proof {
        reveal(Seq::filter);
        assert(views(kept@) =~= all.take(0).filter(keeps));
    }
    while i < deps.len()
        invariant
            i <= deps.len(),
            all == views(deps@),
            keeps == |dep: BuildDependencyView|
                !crate_settings@.skipped_deps.contains(full_name(dep.name, dep.version)),
            views(kept@) == all.take(i as int).filter(keeps),
        decreases deps.len() - i,
    {
        let ghost before = views(kept@);
        proof {
            lemma_filter_take(all, keeps, i as int);
        }
        let full = full_name_of(deps[i].name.as_str(), deps[i].version.as_str());
        if !contains_text(&crate_settings.skipped_deps, &full) {
            kept.push(deps[i].clone());
            assert(views(kept@) =~= before.push(all[i as int]));
        }
        i += 1;
    }
    assert(all.take(i as int) =~= all);
    kept
}

// ---------------------------------------------------------------------------
// Laws
// ---------------------------------------------------------------------------

/// A kind is spelled `normal`, `dev` or `build`, or not at all, which is as good as `normal`.
/// Any other text spells none.
pub proof fn kinds_have_their_spelling(text: Seq<char>)
    ensures
        dependency_kind(None) == Some(DependencyKind::Normal),
        dependency_kind(Some(text)) == Some(DependencyKind::Normal) <==> text == "normal"@,
        dependency_kind(Some(text)) == Some(DependencyKind::Dev) <==> text == "dev"@,
        dependency_kind(Some(text)) == Some(DependencyKind::Build) <==> text == "build"@,
{
    reveal_strlit("normal");
    reveal_strlit("dev");
    reveal_strlit("build");
    assert("normal"@.len() == 6 && "dev"@.len() == 3 && "build"@.len() == 5);
}

/// Declarations can be read unless one of them has a malformed platform expression, or is
/// needed and spells a kind that there is none of.
pub proof fn declarations_are_readable_unless_one_is_not(
    deps: Seq<DependencyView>,
    outcomes: Seq<Applicability>,
)
    ensures
        !declarations_readable(deps, outcomes) <==> exists|i: int|
            #![trigger deps[i]]
            0 <= i < deps.len() && (outcomes[i] == Applicability::Malformed || (outcomes[i]
                == Applicability::Applies && (deps[i].kind matches Some(text) && text
                != "normal"@ && text != "dev"@ && text != "build"@))),
{
    if !declarations_readable(deps, outcomes) {
        let i = choose|i: int|
            #![trigger deps[i]]
            0 <= i < deps.len() && !(outcomes[i] != Applicability::Malformed && (outcomes[i]
                == Applicability::Applies ==> dependency_kind(deps[i].kind) is Some));
        let dep = deps[i];
    }
}

proof fn lemma_names_by_prefix(
    deps: Seq<DependencyView>,
    left: Seq<Applicability>,
    right: Seq<Applicability>,
    kind: DependencyKind,
)
    requires
        forall|i: int| 0 <= i < deps.len() ==> #[trigger] left[i] == right[i],
    ensures
        names_of_kind(deps, left, kind) == names_of_kind(deps, right, kind),
    decreases deps.len(),
{
    if deps.len() > 0 {
        lemma_names_by_prefix(deps.drop_last(), left, right, kind);
        assert(left[deps.len() - 1] == right[deps.len() - 1]);
    }
}

/// The names of two rows of declarations are those of the one and then those of the other.
/// One declaration gives its name where the platform needs it and it is of the kind.
pub proof fn names_come_declaration_by_declaration(
    left: Seq<DependencyView>,
    left_outcomes: Seq<Applicability>,
    right: Seq<DependencyView>,
    right_outcomes: Seq<Applicability>,
    kind: DependencyKind,
    dep: DependencyView,
    outcome: Applicability,
)
    requires
        left.len() == left_outcomes.len(),
        right.len() == right_outcomes.len(),
    ensures
        names_of_kind(left + right, left_outcomes + right_outcomes, kind) == names_of_kind(
            left,
            left_outcomes,
            kind,
        ) + names_of_kind(right, right_outcomes, kind),
        names_of_kind(seq![dep], seq![outcome], kind) == if outcome == Applicability::Applies
            && match kind {
            DependencyKind::Normal => dep.kind is None || dep.kind == Some("normal"@),
            DependencyKind::Dev => dep.kind == Some("dev"@),
            DependencyKind::Build => dep.kind == Some("build"@),
        } {
            seq![dep.name]
        } else {
            Seq::empty()
        },
    decreases right.len(),
{
    if dep.kind is Some {
        kinds_have_their_spelling(dep.kind->0);
    }
    let none = Seq::<DependencyView>::empty();
    assert(seq![dep].drop_last() =~= none);
    assert(names_of_kind(none, seq![outcome], kind) =~= Seq::<Seq<char>>::empty());
    assert(names_of_kind(seq![dep], seq![outcome], kind) =~= if outcome == Applicability::Applies
        && dependency_kind(dep.kind) == Some(kind) {
        seq![dep.name]
    } else {
        Seq::empty()
    });
    let outcomes = left_outcomes + right_outcomes;
    if right.len() == 0 {
        assert(left + right =~= left);
        assert(outcomes =~= left_outcomes);
        assert(names_of_kind(left, left_outcomes, kind) + names_of_kind(
            right,
            right_outcomes,
            kind,
        ) =~= names_of_kind(left, left_outcomes, kind));
    } else {
        let (fewer, fewer_outcomes) = (right.drop_last(), right_outcomes.drop_last());
        names_come_declaration_by_declaration(
            left,
            left_outcomes,
            fewer,
            fewer_outcomes,
            kind,
            dep,
            outcome,
        );
        assert((left + right).drop_last() =~= left + fewer);
        lemma_names_by_prefix(left + fewer, outcomes, left_outcomes + fewer_outcomes, kind);
        lemma_names_by_prefix(fewer, right_outcomes, fewer_outcomes, kind);
        assert(names_of_kind(left + right, outcomes, kind) =~= names_of_kind(
            left,
            left_outcomes,
            kind,
        ) + names_of_kind(right, right_outcomes, kind));
    }
}

/// An index holds the identities of the packages and no others, each with the position of the
/// last package that has it.
pub proof fn indexes_hold_the_last_positions(
    by_id: Map<Seq<char>, usize>,
    packages: Seq<PackageView>,
)
    ensures
        indexes(by_id, packages) <==> {
            &&& forall|id: Seq<char>| #[trigger]
                by_id.contains_key(id) ==> {
                    &&& by_id[id] < packages.len()
                    &&& packages[by_id[id] as int].id == id
                    &&& forall|later: int|
                        by_id[id] < later < packages.len() ==> (#[trigger] packages[later]).id != id
                }
            &&& forall|i: int|
                0 <= i < packages.len() ==> by_id.contains_key((#[trigger] packages[i]).id)
        },
{
    if indexes(by_id, packages) {
        assert forall|id: Seq<char>| #[trigger] by_id.contains_key(id) implies {
            &&& by_id[id] < packages.len()
            &&& packages[by_id[id] as int].id == id
            &&& forall|later: int|
                by_id[id] < later < packages.len() ==> (#[trigger] packages[later]).id != id
        } by {
            package_index_finds(packages, id);
        }
        assert forall|i: int| 0 <= i < packages.len() implies by_id.contains_key(
            (#[trigger] packages[i]).id,
        ) by {
            package_index_finds(packages, packages[i].id);
        }
    }
    if (forall|id: Seq<char>| #[trigger]
        by_id.contains_key(id) ==> {
            &&& by_id[id] < packages.len()
            &&& packages[by_id[id] as int].id == id
            &&& forall|later: int|
                by_id[id] < later < packages.len() ==> (#[trigger] packages[later]).id != id
        }) && (forall|i: int|
        0 <= i < packages.len() ==> by_id.contains_key((#[trigger] packages[i]).id)) {
        assert forall|id: Seq<char>|
            match package_index(packages, id) {
                Some(at) => #[trigger] by_id.contains_key(id) && by_id[id] == at,
                None => !by_id.contains_key(id),
            } by {
            package_index_finds(packages, id);
            if package_index(packages, id) is Some {
                let at = package_index(packages, id)->0;
                assert(by_id.contains_key(packages[at].id));
                let listed = packages[by_id[id] as int];
            }
        }
    }
}

/// The position of a package by its identity is known from the package itself: it has the
/// identity, and no later package does.
pub(crate) proof fn lemma_package_index(packages: Seq<PackageView>, id: Seq<char>, j: int)
    requires
        0 <= j < packages.len(),
        packages[j].id == id,
        forall|later: int| j < later < packages.len() ==> (#[trigger] packages[later]).id != id,
    ensures
        package_index(packages, id) == Some(j),
{
    package_index_finds(packages, id);
    let at = package_index(packages, id)->0;
    let found = packages[at];
}

/// Identities can be resolved exactly where each of them is that of some package.
pub proof fn identities_are_found_among_the_packages(
    ids: Seq<Seq<char>>,
    packages: Seq<PackageView>,
)
    ensures
        all_found(ids, packages) <==> forall|k: int|
            0 <= k < ids.len() ==> exists|j: int|
                0 <= j < packages.len() && (#[trigger] packages[j]).id == #[trigger] ids[k],
{
    if all_found(ids, packages) {
        assert forall|k: int| 0 <= k < ids.len() implies exists|j: int|
            0 <= j < packages.len() && (#[trigger] packages[j]).id == #[trigger] ids[k] by {
            package_index_finds(packages, ids[k]);
            let at = package_index(packages, ids[k])->0;
            assert(packages[at].id == ids[k]);
        }
    }
    if forall|k: int|
        0 <= k < ids.len() ==> exists|j: int|
            0 <= j < packages.len() && (#[trigger] packages[j]).id == #[trigger] ids[k] {
        assert forall|k: int| 0 <= k < ids.len() implies package_index(
            packages,
            #[trigger] ids[k],
        ) is Some by {
            package_index_finds(packages, ids[k]);
        }
    }
}

/// What an identity resolves to has exactly the name and exactly the version of the package
/// with that identity, the last one where several share it; and it stands where the identity
/// does.
pub proof fn identities_resolve_to_their_packages(
    ids: Seq<Seq<char>>,
    packages: Seq<PackageView>,
    k: int,
    j: int,
)
    requires
        0 <= k < ids.len(),
        0 <= j < packages.len(),
        packages[j].id == ids[k],
        forall|later: int|
            j < later < packages.len() ==> (#[trigger] packages[later]).id != ids[k],
    ensures
        resolved(ids, packages).len() == ids.len(),
        resolved(ids, packages)[k].name == packages[j].name,
        resolved(ids, packages)[k].version == packages[j].version,
{
    lemma_package_index(packages, ids[k], j);
}

/// What is selected is sorted, and holds each dependency with one of the names as often as it
/// was there, and no other.
pub proof fn selection_keeps_what_is_named(
    deps: Seq<BuildDependencyView>,
    names: Seq<Seq<char>>,
    dep: BuildDependencyView,
)
    ensures
        sorted_by(
            named_in_order(deps, names),
            |a: BuildDependencyView, b: BuildDependencyView| BuildDependency::precedes(a, b),
        ),
        named_in_order(deps, names).to_multiset().count(dep) == if (exists|i: int|
            0 <= i < names.len() && #[trigger] names[i] == dep.name) {
            deps.to_multiset().count(dep)
        } else {
            0
        },
{
    let named = |dep: BuildDependencyView| names.contains(dep.name);
    in_order_sorts::<BuildDependency>(deps.filter(named));
    lemma_filter_count(deps, named, dep);
}

/// A predicate picks an item as often as it is there, or never.
pub(crate) proof fn lemma_filter_count<A>(items: Seq<A>, pred: spec_fn(A) -> bool, item: A)
    ensures
        items.filter(pred).to_multiset().count(item) == if pred(item) {
            items.to_multiset().count(item)
        } else {
            0
        },
    decreases items.len(),
{
    broadcast use group_to_multiset_ensures;

    reveal(Seq::filter);
    if items.len() > 0 {
        let fewer = items.drop_last();
        lemma_filter_count(fewer, pred, item);
        assert(items =~= fewer.push(items.last()));
    }
}

/// Skipping goes dependency by dependency, in order: of two rows it leaves what it leaves of
/// the one and then what it leaves of the other, and of one dependency it leaves nothing
/// exactly where the settings list its name and version with a hyphen between them.
pub proof fn skipping_goes_dependency_by_dependency(
    left: Seq<BuildDependencyView>,
    right: Seq<BuildDependencyView>,
    dep: BuildDependencyView,
    crate_settings: CrateSettingsView,
)
    ensures
        not_skipped(left + right, crate_settings) == not_skipped(left, crate_settings)
            + not_skipped(right, crate_settings),
        not_skipped(seq![dep], crate_settings) == if (exists|i: int|
            0 <= i < crate_settings.skipped_deps.len() && #[trigger] crate_settings.skipped_deps[i]
                == dep.name + "-"@ + dep.version) {
            Seq::empty()
        } else {
            seq![dep]
        },
{
    let keeps = |dep: BuildDependencyView|
        !crate_settings.skipped_deps.contains(full_name(dep.name, dep.version));
    Seq::filter_distributes_over_add(left, right, keeps);
    reveal(Seq::filter);
    let none = Seq::<BuildDependencyView>::empty();
    assert(seq![dep].drop_last() =~= none);
    assert(none.filter(keeps) =~= none);
    if keeps(dep) {
        assert(none.push(dep) =~= seq![dep]);
    }
}

} // verus!
