//! What holds of the contents of every context.

use crate::context::{
    BuildDependency, BuildDependencyView, BuildTarget, BuildTargetView, CrateContextView,
};
use crate::contexts::{
    contexts_up_to, is_build_script, lemma_no_node_missing, node_context, planned_contexts,
};
use crate::dependencies::{
    all_found, declarations_are_readable_unless_one_is_not, dependency_kind,
    kinds_have_their_spelling, lemma_filter_count, lemma_package_index, named_in_order,
    names_of_kind, names_of_kind_are_declared, package_index, package_index_finds, resolved,
    selection_keeps_what_is_named, DependencyKind,
};
use crate::error::RazeErrView;
use crate::graph::{
    checked_root_dependencies, missing_nodes, root_dependencies_are_those_of_the_first_root_node,
};
use crate::laws::{contexts_are_sorted, lemma_filter_keeps_order};
use crate::license::{license_summary, AvailableLicenseView};
use crate::metadata::{DependencyView, MetadataView, PackageView, ResolveNodeView};
use crate::order::{in_order, in_order_sorts, Ordered};
use crate::platform::{
    all_applicabilities, applicabilities, cfg_holds, cfg_parse, platform_alone_decides,
    Applicability,
};
use crate::settings::RazeSettingsView;
use crate::targets::package_targets;
use crate::text::{full_name, lemma_filter_source, lemma_filter_take};
use vstd::prelude::*;
use vstd::relations::*;
use vstd::seq_lib::*;

verus! {

// ---------------------------------------------------------------------------
// One context
// ---------------------------------------------------------------------------

/// A node has no context exactly where a declaration of its package cannot be read or one of
/// its dependencies is no package. Otherwise it fails exactly where its targets cannot be
/// listed, with that error.
pub proof fn nodes_come_to_a_context_or_an_error(
    settings: RazeSettingsView,
    packages: Seq<PackageView>,
    root_deps: Seq<Seq<char>>,
    node: ResolveNodeView,
    package: PackageView,
    outcomes: Seq<Applicability>,
    available: Seq<AvailableLicenseView>,
)
    ensures
        ({
            let context = node_context(
                settings,
                packages,
                root_deps,
                node,
                package,
                outcomes,
                available,
            );
            &&& context is None <==> {
                ||| exists|i: int|
                    #![trigger package.dependencies[i]]
                    0 <= i < package.dependencies.len() && (outcomes[i] == Applicability::Malformed
                        || (outcomes[i] == Applicability::Applies && (
                    package.dependencies[i].kind matches Some(text) && text != "normal"@ && text
                        != "dev"@ && text != "build"@)))
                ||| exists|k: int|
                    #![trigger node.dependencies[k]]
                    0 <= k < node.dependencies.len() && forall|j: int|
                        0 <= j < packages.len() ==> (#[trigger] packages[j]).id
                            != node.dependencies[k]
            }
            &&& context matches Some(Err(error)) ==> package_targets(package) == Err::<
                Seq<BuildTargetView>,
                _,
            >(error)
            &&& context matches Some(Ok(_)) ==> package_targets(package) is Ok
        }),
{
    declarations_are_readable_unless_one_is_not(package.dependencies, outcomes);
    let ids = node.dependencies;
    let lost = |k: int|
        forall|j: int| 0 <= j < packages.len() ==> (#[trigger] packages[j]).id != ids[k];
    assert forall|k: int| 0 <= k < ids.len() implies (lost(k) <==> package_index(
        packages,
        #[trigger] ids[k],
    ) is None) by {
        package_index_finds(packages, ids[k]);
        if package_index(packages, ids[k]) is Some {
            let found = packages[package_index(packages, ids[k])->0];
        }
    }
    if !all_found(ids, packages) {
        let k = choose|k: int|
            0 <= k < ids.len() && !(package_index(packages, #[trigger] ids[k]) is Some);
        assert(lost(k));
    }
    if exists|k: int|
        #![trigger node.dependencies[k]]
        0 <= k < node.dependencies.len() && forall|j: int|
            0 <= j < packages.len() ==> (#[trigger] packages[j]).id != node.dependencies[k] {
        let k = choose|k: int|
            #![trigger node.dependencies[k]]
            0 <= k < node.dependencies.len() && forall|j: int|
                0 <= j < packages.len() ==> (#[trigger] packages[j]).id != node.dependencies[k];
        assert(lost(k));
        assert(package_index(packages, ids[k]) is None);
    }
}

/// A context has the name and the version of its package, the path of its directory in the
/// vendor directory, the summary of its licenses and the platform that the settings name. It is
/// a dependency of the root exactly where its identity is one of those that the root depends
/// on. What its own settings add is in it as they list it; without settings nothing is.
pub proof fn contexts_are_those_of_their_packages(
    settings: RazeSettingsView,
    packages: Seq<PackageView>,
    root_deps: Seq<Seq<char>>,
    node: ResolveNodeView,
    package: PackageView,
    outcomes: Seq<Applicability>,
    available: Seq<AvailableLicenseView>,
    context: CrateContextView,
)
    requires
        node_context(settings, packages, root_deps, node, package, outcomes, available) == Some(
            Ok::<_, RazeErrView>(context),
        ),
    ensures
        context.pkg_name == package.name,
        context.pkg_version == package.version,
        context.path == "./vendor/"@ + package.name + "-"@ + package.version + "/"@,
        context.licenses == license_summary(available),
        context.platform_triple == settings.target,
        context.features.len() == 0,
        context.metadeps.len() == 0,
        context.is_root_dependency <==> exists|k: int|
            0 <= k < root_deps.len() && #[trigger] root_deps[k] == node.id,
        settings.of_crate(package.name, package.version) matches Some(own) ==> {
            &&& context.additional_deps == own.additional_deps
            &&& context.additional_flags == own.additional_flags
            &&& context.extra_aliased_targets == own.extra_aliased_targets
        },
        settings.of_crate(package.name, package.version) is None ==> {
            &&& context.additional_deps.len() == 0
            &&& context.additional_flags.len() == 0
            &&& context.extra_aliased_targets.len() == 0
        },
{
    assert(context.path =~= "./vendor/"@ + package.name + "-"@ + package.version + "/"@);
}

/// In which order, and how often, the root lists its dependencies makes no difference to a
/// context.
pub proof fn root_dependencies_may_come_in_any_order(
    settings: RazeSettingsView,
    packages: Seq<PackageView>,
    left: Seq<Seq<char>>,
    right: Seq<Seq<char>>,
    node: ResolveNodeView,
    package: PackageView,
    outcomes: Seq<Applicability>,
    available: Seq<AvailableLicenseView>,
)
    requires
        forall|id: Seq<char>| #[trigger] left.contains(id) <==> right.contains(id),
    ensures
        node_context(settings, packages, left, node, package, outcomes, available) == node_context(
            settings,
            packages,
            right,
            node,
            package,
            outcomes,
            available,
        ),
{
    assert(left.contains(node.id) <==> right.contains(node.id));
}

proof fn lemma_declared(
    deps: Seq<DependencyView>,
    outcomes: Seq<Applicability>,
    name: Seq<char>,
)
    ensures
        names_of_kind(deps, outcomes, DependencyKind::Normal).contains(name) <==> exists|i: int|
            0 <= i < deps.len() && outcomes[i] == Applicability::Applies && (
            #[trigger] deps[i]).name == name && (deps[i].kind is None || deps[i].kind == Some(
                "normal"@,
            )),
        names_of_kind(deps, outcomes, DependencyKind::Build).contains(name) <==> exists|i: int|
            0 <= i < deps.len() && outcomes[i] == Applicability::Applies && (
            #[trigger] deps[i]).name == name && deps[i].kind == Some("build"@),
        names_of_kind(deps, outcomes, DependencyKind::Dev).contains(name) <==> exists|i: int|
            0 <= i < deps.len() && outcomes[i] == Applicability::Applies && (
            #[trigger] deps[i]).name == name && deps[i].kind == Some("dev"@),
{
    names_of_kind_are_declared(deps, outcomes, DependencyKind::Normal, name);
    names_of_kind_are_declared(deps, outcomes, DependencyKind::Build, name);
    names_of_kind_are_declared(deps, outcomes, DependencyKind::Dev, name);
    assert forall|kind: Option<Seq<char>>| true implies {
        &&& #[trigger] dependency_kind(kind) == Some(DependencyKind::Normal) <==> kind is None
            || kind == Some("normal"@)
        &&& dependency_kind(kind) == Some(DependencyKind::Build) <==> kind == Some("build"@)
        &&& dependency_kind(kind) == Some(DependencyKind::Dev) <==> kind == Some("dev"@)
    } by {
        if kind is Some {
            kinds_have_their_spelling(kind->0);
        }
    }
}

/// What is resolved are dependencies on the packages with the identities, by name and version.
proof fn lemma_resolved_members(
    ids: Seq<Seq<char>>,
    packages: Seq<PackageView>,
    dep: BuildDependencyView,
)
    requires
        all_found(ids, packages),
    ensures
        resolved(ids, packages).contains(dep) <==> exists|k: int, j: int|
            0 <= k < ids.len() && 0 <= j < packages.len() && (#[trigger] packages[j]).id
                == #[trigger] ids[k] && (forall|later: int|
                j < later < packages.len() ==> (#[trigger] packages[later]).id != ids[k])
                && dep.name == packages[j].name && dep.version == packages[j].version,
{
    let deps = resolved(ids, packages);
    if deps.contains(dep) {
        let k = choose|k: int| 0 <= k < deps.len() && deps[k] == dep;
        let id = ids[k];
        assert(package_index(packages, ids[k]) is Some);
        package_index_finds(packages, id);
        let j = package_index(packages, id)->0;
        assert(packages[j].id == ids[k]);
    }
    if exists|k: int, j: int|
        0 <= k < ids.len() && 0 <= j < packages.len() && (#[trigger] packages[j]).id
            == #[trigger] ids[k] && (forall|later: int|
            j < later < packages.len() ==> (#[trigger] packages[later]).id != ids[k]) && dep.name
            == packages[j].name && dep.version == packages[j].version {
        let (k, j) = choose|k: int, j: int|
            0 <= k < ids.len() && 0 <= j < packages.len() && (#[trigger] packages[j]).id
                == #[trigger] ids[k] && (forall|later: int|
                j < later < packages.len() ==> (#[trigger] packages[later]).id != ids[k])
                && dep.name == packages[j].name && dep.version == packages[j].version;
        lemma_package_index(packages, ids[k], j);
        assert(deps[k] == dep);
    }
}

/// How often a dependency is listed as being of a kind: as often as the node resolves to it
/// where the package declares its name as being of the kind and the platform needs it, and
/// otherwise never. Of the normal and the build dependencies those that the settings skip are
/// never listed. Every list is sorted.
pub proof fn dependencies_are_listed_as_often_as_resolved(
    settings: RazeSettingsView,
    packages: Seq<PackageView>,
    root_deps: Seq<Seq<char>>,
    node: ResolveNodeView,
    package: PackageView,
    outcomes: Seq<Applicability>,
    available: Seq<AvailableLicenseView>,
    context: CrateContextView,
    dep: BuildDependencyView,
)
    requires
        node_context(settings, packages, root_deps, node, package, outcomes, available) == Some(
            Ok::<_, RazeErrView>(context),
        ),
    ensures
        ({
            let times = resolved(node.dependencies, packages).to_multiset().count(dep);
            let skipped = settings.of_crate(package.name, package.version) matches Some(own)
                && exists|i: int|
                0 <= i < own.skipped_deps.len() && #[trigger] own.skipped_deps[i] == dep.name
                    + "-"@ + dep.version;
            let normal = exists|i: int|
                0 <= i < package.dependencies.len() && outcomes[i] == Applicability::Applies && (
                #[trigger] package.dependencies[i]).name == dep.name && (
                package.dependencies[i].kind is None || package.dependencies[i].kind == Some(
                    "normal"@,
                ));
            let build = exists|i: int|
                0 <= i < package.dependencies.len() && outcomes[i] == Applicability::Applies && (
                #[trigger] package.dependencies[i]).name == dep.name
                    && package.dependencies[i].kind == Some("build"@);
            let dev = exists|i: int|
                0 <= i < package.dependencies.len() && outcomes[i] == Applicability::Applies && (
                #[trigger] package.dependencies[i]).name == dep.name
                    && package.dependencies[i].kind == Some("dev"@);
            let leq = |a: BuildDependencyView, b: BuildDependencyView|
                BuildDependency::precedes(a, b);
            &&& context.dependencies.to_multiset().count(dep) == if normal && !skipped {
                times
            } else {
                0
            }
            &&& context.build_dependencies.to_multiset().count(dep) == if build && !skipped {
                times
            } else {
                0
            }
            &&& context.dev_dependencies.to_multiset().count(dep) == if dev {
                times
            } else {
                0
            }
            &&& sorted_by(context.dependencies, leq)
            &&& sorted_by(context.build_dependencies, leq)
            &&& sorted_by(context.dev_dependencies, leq)
        }),
{
    let own = settings.of_crate(package.name, package.version);
    let deps = resolved(node.dependencies, packages);
    let normal = names_of_kind(package.dependencies, outcomes, DependencyKind::Normal);
    let build = names_of_kind(package.dependencies, outcomes, DependencyKind::Build);
    let dev = names_of_kind(package.dependencies, outcomes, DependencyKind::Dev);
    lemma_declared(package.dependencies, outcomes, dep.name);
    selection_keeps_what_is_named(deps, normal, dep);
    selection_keeps_what_is_named(deps, build, dep);
    selection_keeps_what_is_named(deps, dev, dep);
    if own is Some {
        let keeps = |dep: BuildDependencyView|
            !own->0.skipped_deps.contains(full_name(dep.name, dep.version));
        lemma_filter_count(named_in_order(deps, normal), keeps, dep);
        lemma_filter_count(named_in_order(deps, build), keeps, dep);
    }
    contexts_are_sorted(
        settings,
        packages,
        root_deps,
        node,
        package,
        outcomes,
        available,
        package_targets(package)->Ok_0,
    );
}

/// What a context lists as dependencies are packages of the workspace, each under exactly its
/// name and exactly its version: those whose identities the node lists, the last one where
/// several share one, and whose names the package declares as being of the kind. Of the normal
/// and the build dependencies those that the settings skip are left out.
pub proof fn dependencies_are_packages_of_the_workspace(
    settings: RazeSettingsView,
    packages: Seq<PackageView>,
    root_deps: Seq<Seq<char>>,
    node: ResolveNodeView,
    package: PackageView,
    outcomes: Seq<Applicability>,
    available: Seq<AvailableLicenseView>,
    context: CrateContextView,
    dep: BuildDependencyView,
)
    requires
        node_context(settings, packages, root_deps, node, package, outcomes, available) == Some(
            Ok::<_, RazeErrView>(context),
        ),
    ensures
        ({
            let listed = exists|k: int, j: int|
                0 <= k < node.dependencies.len() && 0 <= j < packages.len() && (
                #[trigger] packages[j]).id == #[trigger] node.dependencies[k] && (forall|later: int|
                    j < later < packages.len() ==> (#[trigger] packages[later]).id
                        != node.dependencies[k]) && dep.name == packages[j].name && dep.version
                    == packages[j].version;
            let skipped = settings.of_crate(package.name, package.version) matches Some(own)
                && exists|i: int|
                0 <= i < own.skipped_deps.len() && #[trigger] own.skipped_deps[i] == dep.name
                    + "-"@ + dep.version;
            &&& context.dependencies.contains(dep) <==> listed && !skipped && exists|i: int|
                0 <= i < package.dependencies.len() && outcomes[i] == Applicability::Applies && (
                #[trigger] package.dependencies[i]).name == dep.name && (
                package.dependencies[i].kind is None || package.dependencies[i].kind == Some(
                    "normal"@,
                ))
            &&& context.build_dependencies.contains(dep) <==> listed && !skipped && exists|i: int|
                0 <= i < package.dependencies.len() && outcomes[i] == Applicability::Applies && (
                #[trigger] package.dependencies[i]).name == dep.name
                    && package.dependencies[i].kind == Some("build"@)
            &&& context.dev_dependencies.contains(dep) <==> listed && exists|i: int|
                0 <= i < package.dependencies.len() && outcomes[i] == Applicability::Applies && (
                #[trigger] package.dependencies[i]).name == dep.name
                    && package.dependencies[i].kind == Some("dev"@)
        }),
{
    broadcast use group_to_multiset_ensures;

    dependencies_are_listed_as_often_as_resolved(
        settings,
        packages,
        root_deps,
        node,
        package,
        outcomes,
        available,
        context,
        dep,
    );
    lemma_resolved_members(node.dependencies, packages, dep);
    assert(resolved(node.dependencies, packages).contains(dep) <==> resolved(
        node.dependencies,
        packages,
    ).to_multiset().count(dep) > 0);
    assert(context.dependencies.contains(dep) <==> context.dependencies.to_multiset().count(dep)
        > 0);
    assert(context.build_dependencies.contains(dep)
        <==> context.build_dependencies.to_multiset().count(dep) > 0);
    assert(context.dev_dependencies.contains(dep)
        <==> context.dev_dependencies.to_multiset().count(dep) > 0);
}

/// A context lists the targets of its package but for the build scripts, each as often as the
/// package has it, sorted. It has a build script exactly where its settings ask for it and the
/// package has one; it is then the one that comes first.
pub proof fn targets_are_those_of_the_package(
    settings: RazeSettingsView,
    packages: Seq<PackageView>,
    root_deps: Seq<Seq<char>>,
    node: ResolveNodeView,
    package: PackageView,
    outcomes: Seq<Applicability>,
    available: Seq<AvailableLicenseView>,
    context: CrateContextView,
    target: BuildTargetView,
)
    requires
        node_context(settings, packages, root_deps, node, package, outcomes, available) == Some(
            Ok::<_, RazeErrView>(context),
        ),
    ensures
        package_targets(package) matches Ok(list) && {
            let leq = |a: BuildTargetView, b: BuildTargetView| BuildTarget::precedes(a, b);
            let asked = settings.of_crate(package.name, package.version) matches Some(own)
                && own.gen_buildrs;
            &&& context.targets.to_multiset().count(target) == if target.kind == "custom-build"@ {
                0
            } else {
                list.to_multiset().count(target)
            }
            &&& sorted_by(context.targets, leq)
            &&& context.build_script_target is Some <==> asked && exists|i: int|
                0 <= i < list.len() && (#[trigger] list[i]).kind == "custom-build"@
            &&& context.build_script_target matches Some(script) ==> script.kind
                == "custom-build"@ && list.contains(script) && forall|i: int|
                0 <= i < list.len() && (#[trigger] list[i]).kind == "custom-build"@ ==> leq(
                    script,
                    list[i],
                )
        },
{
    broadcast use group_to_multiset_ensures;

    let list = package_targets(package)->Ok_0;
    let leq = |a: BuildTargetView, b: BuildTargetView| BuildTarget::precedes(a, b);
    let sorted = in_order::<BuildTarget>(list);
    let script = |target: BuildTargetView| is_build_script(target);
    let other = |target: BuildTargetView| !is_build_script(target);
    in_order_sorts::<BuildTarget>(list);
    BuildTarget::order_is_total();
    lemma_filter_count(sorted, other, target);
    lemma_filter_keeps_order(sorted, other, leq);
    lemma_filter_keeps_order(sorted, script, leq);
    let scripts = sorted.filter(script);
    assert forall|i: int| 0 <= i < list.len() && (#[trigger] list[i]).kind == "custom-build"@ implies
        scripts.len() > 0 && leq(scripts[0], list[i]) by {
        assert(list.contains(list[i]));
        assert(sorted.to_multiset().count(list[i]) == list.to_multiset().count(list[i]));
        lemma_filter_count(sorted, script, list[i]);
        assert(scripts.contains(list[i]));
        let at = choose|at: int| 0 <= at < scripts.len() && scripts[at] == list[i];
        if at > 0 {
            assert(leq(scripts[0], scripts[at]));
        } else {
            assert(reflexive(leq));
        }
    }
    if scripts.len() > 0 {
        let first = scripts[0];
        lemma_filter_source(sorted, script, 0);
        assert(sorted.to_multiset().count(first) == list.to_multiset().count(first));
        assert(list.contains(first));
        let i = choose|i: int| 0 <= i < list.len() && list[i] == first;
        assert(list[i].kind == "custom-build"@);
    }
}

/// On a platform, a context lists a dependency as being of a kind exactly where the node
/// resolves to it, the settings do not skip it, and some declaration of that kind and its name
/// names no platforms or names some by an expression that holds of the platform.
pub proof fn dependencies_follow_the_platform(
    settings: RazeSettingsView,
    packages: Seq<PackageView>,
    root_deps: Seq<Seq<char>>,
    node: ResolveNodeView,
    package: PackageView,
    attrs: Seq<(Seq<char>, Option<Seq<char>>)>,
    available: Seq<AvailableLicenseView>,
    context: CrateContextView,
    dep: BuildDependencyView,
)
    requires
        node_context(
            settings,
            packages,
            root_deps,
            node,
            package,
            applicabilities(package, attrs),
            available,
        ) == Some(Ok::<_, RazeErrView>(context)),
    ensures
        ({
            let declared = package.dependencies;
            let listed = exists|k: int, j: int|
                0 <= k < node.dependencies.len() && 0 <= j < packages.len() && (
                #[trigger] packages[j]).id == #[trigger] node.dependencies[k] && (forall|later: int|
                    j < later < packages.len() ==> (#[trigger] packages[later]).id
                        != node.dependencies[k]) && dep.name == packages[j].name && dep.version
                    == packages[j].version;
            let skipped = settings.of_crate(package.name, package.version) matches Some(own)
                && exists|i: int|
                0 <= i < own.skipped_deps.len() && #[trigger] own.skipped_deps[i] == dep.name
                    + "-"@ + dep.version;
            &&& context.dependencies.contains(dep) <==> listed && !skipped && exists|i: int|
                0 <= i < declared.len() && (#[trigger] declared[i]).name == dep.name && (
                declared[i].kind is None || declared[i].kind == Some("normal"@)) && (
                declared[i].target is None || (cfg_parse(declared[i].target->0) matches Some(expr)
                    && cfg_holds(expr, attrs)))
            &&& context.build_dependencies.contains(dep) <==> listed && !skipped && exists|i: int|
                0 <= i < declared.len() && (#[trigger] declared[i]).name == dep.name
                    && declared[i].kind == Some("build"@) && (declared[i].target is None || (
                cfg_parse(declared[i].target->0) matches Some(expr) && cfg_holds(expr, attrs)))
            &&& context.dev_dependencies.contains(dep) <==> listed && exists|i: int|
                0 <= i < declared.len() && (#[trigger] declared[i]).name == dep.name
                    && declared[i].kind == Some("dev"@) && (declared[i].target is None || (
                cfg_parse(declared[i].target->0) matches Some(expr) && cfg_holds(expr, attrs)))
        }),
{
    let outcomes = applicabilities(package, attrs);
    dependencies_are_packages_of_the_workspace(
        settings,
        packages,
        root_deps,
        node,
        package,
        outcomes,
        available,
        context,
        dep,
    );
    assert forall|i: int| 0 <= i < package.dependencies.len() implies (outcomes[i]
        == Applicability::Applies <==> ((#[trigger] package.dependencies[i]).target is None || (
    cfg_parse(package.dependencies[i].target->0) matches Some(expr) && cfg_holds(expr, attrs)))) by {
        platform_alone_decides(package.dependencies[i], attrs);
    }
}

// ---------------------------------------------------------------------------
// All contexts
// ---------------------------------------------------------------------------

/// What a node comes to with the package that has its identity.
pub open spec fn context_of_node(
    settings: RazeSettingsView,
    metadata: MetadataView,
    root_deps: Seq<Seq<char>>,
    outcomes: Seq<Seq<Applicability>>,
    available: Seq<Seq<AvailableLicenseView>>,
    node: ResolveNodeView,
) -> Option<Result<CrateContextView, RazeErrView>> {
    let at = package_index(metadata.packages, node.id)->0;
    node_context(
        settings,
        metadata.packages,
        root_deps,
        node,
        metadata.packages[at],
        outcomes[at],
        available[at],
    )
}

/// A node goes with the package that has its identity, the last one where several share it,
/// and with the outcomes and the licenses that stand where that package does.
pub proof fn nodes_go_with_their_packages(
    settings: RazeSettingsView,
    metadata: MetadataView,
    root_deps: Seq<Seq<char>>,
    outcomes: Seq<Seq<Applicability>>,
    available: Seq<Seq<AvailableLicenseView>>,
    node: ResolveNodeView,
    j: int,
)
    requires
        0 <= j < metadata.packages.len(),
        metadata.packages[j].id == node.id,
        forall|later: int|
            j < later < metadata.packages.len() ==> (#[trigger] metadata.packages[later]).id
                != node.id,
    ensures
        context_of_node(settings, metadata, root_deps, outcomes, available, node) == node_context(
            settings,
            metadata.packages,
            root_deps,
            node,
            metadata.packages[j],
            outcomes[j],
            available[j],
        ),
{
    lemma_package_index(metadata.packages, node.id, j);
}

proof fn lemma_plan_of_nodes(
    settings: RazeSettingsView,
    metadata: MetadataView,
    root_deps: Seq<Seq<char>>,
    outcomes: Seq<Seq<Applicability>>,
    available: Seq<Seq<AvailableLicenseView>>,
    n: nat,
)
    requires
        missing_nodes(metadata).len() == 0,
        n <= metadata.resolve.nodes.len(),
    ensures
        ({
            let others = metadata.resolve.nodes.take(n as int).filter(
                |node: ResolveNodeView| node.id != metadata.resolve.root,
            );
            let plan = contexts_up_to(settings, metadata, root_deps, outcomes, available, n);
            &&& plan matches Some(Ok(contexts)) ==> contexts.len() == others.len() && forall|k: int|
                0 <= k < others.len() ==> context_of_node(
                    settings,
                    metadata,
                    root_deps,
                    outcomes,
                    available,
                    #[trigger] others[k],
                ) == Some(Ok::<_, RazeErrView>(contexts[k]))
            &&& !(plan matches Some(Ok(_))) ==> exists|i: int|
                #![trigger others[i]]
                0 <= i < others.len() && match context_of_node(
                    settings,
                    metadata,
                    root_deps,
                    outcomes,
                    available,
                    others[i],
                ) {
                    None => plan is None,
                    Some(Err(error)) => plan == Some(Err::<Seq<CrateContextView>, _>(error)),
                    Some(Ok(_)) => false,
                } && forall|k: int|
                    0 <= k < i ==> (context_of_node(
                        settings,
                        metadata,
                        root_deps,
                        outcomes,
                        available,
                        #[trigger] others[k],
                    ) matches Some(Ok(_)))
        }),
    decreases n,
{
    let is_other = |node: ResolveNodeView| node.id != metadata.resolve.root;
    let nodes = metadata.resolve.nodes;
    if n == 0 {
        reveal(Seq::filter);
        assert(nodes.take(0).filter(is_other) =~= Seq::<ResolveNodeView>::empty());
    } else {
        let last = n - 1;
        lemma_plan_of_nodes(settings, metadata, root_deps, outcomes, available, last as nat);
        lemma_filter_take(nodes, is_other, last);
        lemma_no_node_missing(metadata, last);
        package_index_finds(metadata.packages, nodes[last].id);
        let fewer = nodes.take(last).filter(is_other);
        let others = nodes.take(n as int).filter(is_other);
        assert(nodes.take(last + 1) == nodes.take(n as int));
        let before = contexts_up_to(
            settings,
            metadata,
            root_deps,
            outcomes,
            available,
            last as nat,
        );
        assert(forall|k: int| 0 <= k < fewer.len() ==> #[trigger] others[k] == fewer[k]);
        if before matches Some(Ok(_)) {
            assert forall|k: int| 0 <= k < fewer.len() implies context_of_node(
                settings,
                metadata,
                root_deps,
                outcomes,
                available,
                #[trigger] others[k],
            ) == Some(Ok::<_, RazeErrView>(before->0->Ok_0[k])) by {
                assert(others[k] == fewer[k]);
            }
            if is_other(nodes[last]) {
                assert(others[fewer.len() as int] == nodes[last]);
            }
        } else {
            let i = choose|i: int|
                #![trigger fewer[i]]
                0 <= i < fewer.len() && match context_of_node(
                    settings,
                    metadata,
                    root_deps,
                    outcomes,
                    available,
                    fewer[i],
                ) {
                    None => before is None,
                    Some(Err(error)) => before == Some(Err::<Seq<CrateContextView>, _>(error)),
                    Some(Ok(_)) => false,
                } && forall|k: int|
                    0 <= k < i ==> (context_of_node(
                        settings,
                        metadata,
                        root_deps,
                        outcomes,
                        available,
                        #[trigger] fewer[k],
                    ) matches Some(Ok(_)));
            assert(others[i] == fewer[i]);
            assert forall|k: int| 0 <= k < i implies (context_of_node(
                settings,
                metadata,
                root_deps,
                outcomes,
                available,
                #[trigger] others[k],
            ) matches Some(Ok(_))) by {
                assert(others[k] == fewer[k]);
            }
        }
    }
}

/// A plan is made node by node, leaving out those with the identity of the root. Where all
/// others come to a context, the plan holds just these contexts, in the order of the nodes.
/// Otherwise the plan comes to what the first of them comes to that has no context.
pub proof fn plans_are_made_node_by_node(
    settings: RazeSettingsView,
    metadata: MetadataView,
    outcomes: Seq<Seq<Applicability>>,
    available: Seq<Seq<AvailableLicenseView>>,
)
    requires
        checked_root_dependencies(metadata) is Ok,
    ensures
        ({
            let root_deps = checked_root_dependencies(metadata)->Ok_0;
            let others = metadata.resolve.nodes.filter(
                |node: ResolveNodeView| node.id != metadata.resolve.root,
            );
            let plan = planned_contexts(settings, metadata, outcomes, available);
            &&& plan matches Some(Ok(contexts)) ==> contexts.len() == others.len() && forall|k: int|
                0 <= k < others.len() ==> context_of_node(
                    settings,
                    metadata,
                    root_deps,
                    outcomes,
                    available,
                    #[trigger] others[k],
                ) == Some(Ok::<_, RazeErrView>(contexts[k]))
            &&& !(plan matches Some(Ok(_))) ==> exists|i: int|
                #![trigger others[i]]
                0 <= i < others.len() && match context_of_node(
                    settings,
                    metadata,
                    root_deps,
                    outcomes,
                    available,
                    others[i],
                ) {
                    None => plan is None,
                    Some(Err(error)) => plan == Some(Err::<Seq<CrateContextView>, _>(error)),
                    Some(Ok(_)) => false,
                } && forall|k: int|
                    0 <= k < i ==> (context_of_node(
                        settings,
                        metadata,
                        root_deps,
                        outcomes,
                        available,
                        #[trigger] others[k],
                    ) matches Some(Ok(_)))
        }),
{
    lemma_plan_of_nodes(
        settings,
        metadata,
        checked_root_dependencies(metadata)->Ok_0,
        outcomes,
        available,
        metadata.resolve.nodes.len(),
    );
    assert(metadata.resolve.nodes.take(metadata.resolve.nodes.len() as int)
        =~= metadata.resolve.nodes);
}

/// A graph that is not in order fails the plan with its own error, whatever the settings, the
/// platform and the licenses.
pub proof fn plans_fail_with_the_error_of_the_graph(
    settings: RazeSettingsView,
    metadata: MetadataView,
    outcomes: Seq<Seq<Applicability>>,
    available: Seq<Seq<AvailableLicenseView>>,
)
    ensures
        checked_root_dependencies(metadata) matches Err(error) ==> planned_contexts(
            settings,
            metadata,
            outcomes,
            available,
        ) == Some(Err::<Seq<CrateContextView>, _>(error)),
{
}

/// In a plan that succeeds, each context is what its node comes to with the package that has
/// its identity and with what the first root node depends on.
pub proof fn planned_contexts_are_those_of_their_nodes(
    settings: RazeSettingsView,
    metadata: MetadataView,
    outcomes: Seq<Seq<Applicability>>,
    available: Seq<Seq<AvailableLicenseView>>,
    contexts: Seq<CrateContextView>,
    k: int,
    j: int,
    r: int,
)
    requires
        planned_contexts(settings, metadata, outcomes, available) == Some(
            Ok::<_, RazeErrView>(contexts),
        ),
        0 <= k < contexts.len(),
        0 <= j < metadata.packages.len(),
        metadata.packages[j].id == metadata.resolve.nodes.filter(
            |node: ResolveNodeView| node.id != metadata.resolve.root,
        )[k].id,
        forall|later: int|
            j < later < metadata.packages.len() ==> (#[trigger] metadata.packages[later]).id
                != metadata.packages[j].id,
        0 <= r < metadata.resolve.nodes.len(),
        metadata.resolve.nodes[r].id == metadata.resolve.root,
        forall|i: int|
            0 <= i < r ==> (#[trigger] metadata.resolve.nodes[i]).id != metadata.resolve.root,
    ensures
        ({
            let others = metadata.resolve.nodes.filter(
                |node: ResolveNodeView| node.id != metadata.resolve.root,
            );
            &&& contexts.len() == others.len()
            &&& node_context(
                settings,
                metadata.packages,
                metadata.resolve.nodes[r].dependencies,
                others[k],
                metadata.packages[j],
                outcomes[j],
                available[j],
            ) == Some(Ok::<_, RazeErrView>(contexts[k]))
        }),
{
    let others = metadata.resolve.nodes.filter(
        |node: ResolveNodeView| node.id != metadata.resolve.root,
    );
    plans_are_made_node_by_node(settings, metadata, outcomes, available);
    root_dependencies_are_those_of_the_first_root_node(metadata, r);
    let root_deps = checked_root_dependencies(metadata)->Ok_0;
    assert(root_deps == metadata.resolve.nodes[r].dependencies);
    let node = others[k];
    nodes_go_with_their_packages(settings, metadata, root_deps, outcomes, available, node, j);
}

/// In a plan that succeeds, a context is marked as a dependency of the root exactly where the
/// identity of its node is one of the dependencies of the first root node, wherever it stands
/// among them.
pub proof fn dependencies_of_the_root_are_marked(
    settings: RazeSettingsView,
    metadata: MetadataView,
    outcomes: Seq<Seq<Applicability>>,
    available: Seq<Seq<AvailableLicenseView>>,
    contexts: Seq<CrateContextView>,
    k: int,
    r: int,
)
    requires
        planned_contexts(settings, metadata, outcomes, available) == Some(
            Ok::<_, RazeErrView>(contexts),
        ),
        0 <= k < contexts.len(),
        0 <= r < metadata.resolve.nodes.len(),
        metadata.resolve.nodes[r].id == metadata.resolve.root,
        forall|i: int|
            0 <= i < r ==> (#[trigger] metadata.resolve.nodes[i]).id != metadata.resolve.root,
    ensures
        contexts[k].is_root_dependency <==> exists|d: int|
            0 <= d < metadata.resolve.nodes[r].dependencies.len()
                && #[trigger] metadata.resolve.nodes[r].dependencies[d]
                == metadata.resolve.nodes.filter(
                |node: ResolveNodeView| node.id != metadata.resolve.root,
            )[k].id,
{
    let is_other = |node: ResolveNodeView| node.id != metadata.resolve.root;
    let nodes = metadata.resolve.nodes;
    let others = nodes.filter(is_other);
    plans_are_made_node_by_node(settings, metadata, outcomes, available);
    lemma_filter_source(nodes, is_other, k);
    let i = choose|i: int| 0 <= i < nodes.len() && nodes[i] == others[k];
    lemma_no_node_missing(metadata, i);
    package_index_finds(metadata.packages, others[k].id);
    let j = package_index(metadata.packages, others[k].id)->0;
    planned_contexts_are_those_of_their_nodes(
        settings,
        metadata,
        outcomes,
        available,
        contexts,
        k,
        j,
        r,
    );
    contexts_are_those_of_their_packages(
        settings,
        metadata.packages,
        nodes[r].dependencies,
        others[k],
        metadata.packages[j],
        outcomes[j],
        available[j],
        contexts[k],
    );
}

/// In a plan that succeeds on a platform, what a context lists as dependencies are packages of
/// the workspace under exactly their name and version, which the node lists by identity, and
/// which a declaration of the kind names that names no platforms or some by an expression that
/// holds of the platform.
pub proof fn planned_dependencies_follow_graph_and_platform(
    settings: RazeSettingsView,
    metadata: MetadataView,
    attrs: Seq<(Seq<char>, Option<Seq<char>>)>,
    available: Seq<Seq<AvailableLicenseView>>,
    contexts: Seq<CrateContextView>,
    k: int,
    j: int,
    dep: BuildDependencyView,
)
    requires
        planned_contexts(
            settings,
            metadata,
            all_applicabilities(metadata.packages, attrs),
            available,
        ) == Some(Ok::<_, RazeErrView>(contexts)),
        0 <= k < contexts.len(),
        0 <= j < metadata.packages.len(),
        metadata.packages[j].id == metadata.resolve.nodes.filter(
            |node: ResolveNodeView| node.id != metadata.resolve.root,
        )[k].id,
        forall|later: int|
            j < later < metadata.packages.len() ==> (#[trigger] metadata.packages[later]).id
                != metadata.packages[j].id,
    ensures
        ({
            let node = metadata.resolve.nodes.filter(
                |node: ResolveNodeView| node.id != metadata.resolve.root,
            )[k];
            let package = metadata.packages[j];
            let declared = package.dependencies;
            let listed = exists|d: int, p: int|
                0 <= d < node.dependencies.len() && 0 <= p < metadata.packages.len() && (
                #[trigger] metadata.packages[p]).id == #[trigger] node.dependencies[d] && (forall|
                    later: int,
                |
                    p < later < metadata.packages.len() ==> (
                    #[trigger] metadata.packages[later]).id != node.dependencies[d]) && dep.name
                    == metadata.packages[p].name && dep.version == metadata.packages[p].version;
            let skipped = settings.of_crate(package.name, package.version) matches Some(own)
                && exists|i: int|
                0 <= i < own.skipped_deps.len() && #[trigger] own.skipped_deps[i] == dep.name
                    + "-"@ + dep.version;
            &&& contexts[k].dependencies.contains(dep) <==> listed && !skipped && exists|i: int|
                0 <= i < declared.len() && (#[trigger] declared[i]).name == dep.name && (
                declared[i].kind is None || declared[i].kind == Some("normal"@)) && (
                declared[i].target is None || (cfg_parse(declared[i].target->0) matches Some(expr)
                    && cfg_holds(expr, attrs)))
            &&& contexts[k].build_dependencies.contains(dep) <==> listed && !skipped && exists|
                i: int,
            |
                0 <= i < declared.len() && (#[trigger] declared[i]).name == dep.name
                    && declared[i].kind == Some("build"@) && (declared[i].target is None || (
                cfg_parse(declared[i].target->0) matches Some(expr) && cfg_holds(expr, attrs)))
            &&& contexts[k].dev_dependencies.contains(dep) <==> listed && exists|i: int|
                0 <= i < declared.len() && (#[trigger] declared[i]).name == dep.name
                    && declared[i].kind == Some("dev"@) && (declared[i].target is None || (
                cfg_parse(declared[i].target->0) matches Some(expr) && cfg_holds(expr, attrs)))
        }),
{
    let outcomes = all_applicabilities(metadata.packages, attrs);
    plans_are_made_node_by_node(settings, metadata, outcomes, available);
    let root_deps = checked_root_dependencies(metadata)->Ok_0;
    let node = metadata.resolve.nodes.filter(
        |node: ResolveNodeView| node.id != metadata.resolve.root,
    )[k];
    nodes_go_with_their_packages(settings, metadata, root_deps, outcomes, available, node, j);
    assert(outcomes[j] == applicabilities(metadata.packages[j], attrs));
    dependencies_follow_the_platform(
        settings,
        metadata.packages,
        root_deps,
        node,
        metadata.packages[j],
        attrs,
        available[j],
        contexts[k],
        dep,
    );
}

} // verus!
