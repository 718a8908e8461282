//! What holds of every plan.

use crate::context::{
    BuildDependency, BuildDependencyView, BuildTarget, BuildTargetView, CrateContextView,
};
use crate::contexts::{
    contexts_up_to, crate_context, dependencies_of_kind, is_build_script, is_root_node,
    node_package, planned_contexts,
};
use crate::dependencies::{
    all_found, named_in_order, names_of_kind, package_index, package_index_finds, resolved,
    DependencyKind,
};
use crate::graph::{checked_root_dependencies, missing_nodes};
use crate::license::AvailableLicenseView;
use crate::metadata::{MetadataView, PackageView, ResolveNodeView};
use crate::order::{in_order, in_order_sorts, Ordered};
use crate::platform::Applicability;
use crate::settings::RazeSettingsView;
use crate::targets::{package_targets, targets_up_to};
use crate::text::{full_name, lemma_filter_source};
use vstd::prelude::*;
use vstd::relations::*;
use vstd::seq_lib::*;

verus! {

// ---------------------------------------------------------------------------
// Which crates are planned
// ---------------------------------------------------------------------------

/// The positions of the first `n` nodes without those of the root package, in order.
pub open spec fn planned_nodes(metadata: MetadataView, n: nat) -> Seq<int>
    decreases n,
{
    if n == 0 {
        Seq::empty()
    } else if is_root_node(metadata, n - 1) {
        planned_nodes(metadata, (n - 1) as nat)
    } else {
        planned_nodes(metadata, (n - 1) as nat).push(n - 1)
    }
}

/// A context is that of a node.
pub open spec fn is_context_of(
    settings: RazeSettingsView,
    metadata: MetadataView,
    root_deps: Seq<Seq<char>>,
    outcomes: Seq<Seq<Applicability>>,
    available: Seq<Seq<AvailableLicenseView>>,
    context: CrateContextView,
    i: int,
) -> bool {
    let node = metadata.resolve.nodes[i];
    let at = package_index(metadata.packages, node.id)->0;
    let package = node_package(metadata, i);
    &&& package_targets(package) is Ok
    &&& context == crate_context(
        settings,
        metadata.packages,
        root_deps,
        node,
        package,
        outcomes[at],
        available[at],
        package_targets(package)->Ok_0,
    )
}

proof fn lemma_contexts_of_nodes(
    settings: RazeSettingsView,
    metadata: MetadataView,
    root_deps: Seq<Seq<char>>,
    outcomes: Seq<Seq<Applicability>>,
    available: Seq<Seq<AvailableLicenseView>>,
    n: nat,
)
    ensures
        contexts_up_to(settings, metadata, root_deps, outcomes, available, n) matches Some(
            Ok(contexts),
        ) ==> {
            &&& contexts.len() == planned_nodes(metadata, n).len()
            &&& forall|k: int|
                0 <= k < contexts.len() ==> is_context_of(
                    settings,
                    metadata,
                    root_deps,
                    outcomes,
                    available,
                    #[trigger] contexts[k],
                    planned_nodes(metadata, n)[k],
                )
        },
    decreases n,
{
    if n > 0 {
        lemma_contexts_of_nodes(
            settings,
            metadata,
            root_deps,
            outcomes,
            available,
            (n - 1) as nat,
        );
    }
}

/// A plan that succeeds has one context for each node but those of the root package, in the
/// order of the nodes.
pub proof fn each_node_but_the_root_is_planned(
    settings: RazeSettingsView,
    metadata: MetadataView,
    outcomes: Seq<Seq<Applicability>>,
    available: Seq<Seq<AvailableLicenseView>>,
)
    ensures
        planned_contexts(settings, metadata, outcomes, available) matches Some(Ok(contexts)) ==> {
            let nodes = planned_nodes(metadata, metadata.resolve.nodes.len());
            &&& contexts.len() == nodes.len()
            &&& checked_root_dependencies(metadata) is Ok
            &&& forall|k: int|
                0 <= k < contexts.len() ==> is_context_of(
                    settings,
                    metadata,
                    checked_root_dependencies(metadata)->Ok_0,
                    outcomes,
                    available,
                    #[trigger] contexts[k],
                    nodes[k],
                )
        },
{
    if checked_root_dependencies(metadata) is Ok {
        lemma_contexts_of_nodes(
            settings,
            metadata,
            checked_root_dependencies(metadata)->Ok_0,
            outcomes,
            available,
            metadata.resolve.nodes.len(),
        );
    }
}

/// The planned nodes are those that are not of the root package, in rising order.
pub proof fn planned_nodes_are_the_others(metadata: MetadataView, n: nat)
    ensures
        forall|k: int|
            0 <= k < planned_nodes(metadata, n).len() ==> {
                let i = #[trigger] planned_nodes(metadata, n)[k];
                0 <= i < n && !is_root_node(metadata, i)
            },
        forall|k: int, l: int|
            0 <= k < l < planned_nodes(metadata, n).len() ==> #[trigger] planned_nodes(
                metadata,
                n,
            )[k] < #[trigger] planned_nodes(metadata, n)[l],
        forall|i: int|
            0 <= i < n && !is_root_node(metadata, i) ==> #[trigger] planned_nodes(
                metadata,
                n,
            ).contains(i),
    decreases n,
{
    if n > 0 {
        let before = planned_nodes(metadata, (n - 1) as nat);
        planned_nodes_are_the_others(metadata, (n - 1) as nat);
        assert forall|i: int| 0 <= i < n && !is_root_node(metadata, i) implies #[trigger]
            planned_nodes(metadata, n).contains(i) by {
            if i < n - 1 {
                assert(before.contains(i));
                let k = choose|k: int| 0 <= k < before.len() && before[k] == i;
                assert(planned_nodes(metadata, n)[k] == i);
            } else {
                assert(planned_nodes(metadata, n)[before.len() as int] == i);
            }
        }
    }
}

/// The error of a plan is always one of the planner's own.
pub proof fn plan_errors_are_the_planners(
    settings: RazeSettingsView,
    metadata: MetadataView,
    outcomes: Seq<Seq<Applicability>>,
    available: Seq<Seq<AvailableLicenseView>>,
)
    ensures
        planned_contexts(settings, metadata, outcomes, available) matches Some(Err(error))
            ==> error.component == "BuildPlanner"@,
{
    if checked_root_dependencies(metadata) is Ok {
        lemma_context_errors(
            settings,
            metadata,
            checked_root_dependencies(metadata)->Ok_0,
            outcomes,
            available,
            metadata.resolve.nodes.len(),
        );
    }
}

proof fn lemma_target_errors(package: PackageView, n: nat)
    ensures
        targets_up_to(package, n) matches Err(error) ==> error.component == "BuildPlanner"@,
    decreases n,
{
    if n > 0 {
        lemma_target_errors(package, (n - 1) as nat);
    }
}

proof fn lemma_context_errors(
    settings: RazeSettingsView,
    metadata: MetadataView,
    root_deps: Seq<Seq<char>>,
    outcomes: Seq<Seq<Applicability>>,
    available: Seq<Seq<AvailableLicenseView>>,
    n: nat,
)
    ensures
        contexts_up_to(settings, metadata, root_deps, outcomes, available, n) matches Some(
            Err(error),
        ) ==> error.component == "BuildPlanner"@,
    decreases n,
{
    if n > 0 {
        lemma_context_errors(
            settings,
            metadata,
            root_deps,
            outcomes,
            available,
            (n - 1) as nat,
        );
        let package = node_package(metadata, n - 1);
        lemma_target_errors(package, package.targets.len());
    }
}

// ---------------------------------------------------------------------------
// Closed graphs
// ---------------------------------------------------------------------------

/// Every dependency of a node is itself a node.
pub open spec fn is_closed(nodes: Seq<ResolveNodeView>) -> bool {
    forall|i: int, k: int|
        0 <= i < nodes.len() && 0 <= k < nodes[i].dependencies.len() ==> is_node(
            nodes,
            #[trigger] nodes[i].dependencies[k],
        )
}

/// An identity is that of a node.
pub open spec fn is_node(nodes: Seq<ResolveNodeView>, id: Seq<char>) -> bool {
    exists|i: int| 0 <= i < nodes.len() && (#[trigger] nodes[i]).id == id
}

/// Where the graph is closed and has passed the check for missing packages, every dependency
/// of every node is a package.
pub proof fn closed_graphs_resolve(metadata: MetadataView)
    requires
        is_closed(metadata.resolve.nodes),
        checked_root_dependencies(metadata) is Ok,
    ensures
        forall|i: int|
            0 <= i < metadata.resolve.nodes.len() ==> all_found(
                (#[trigger] metadata.resolve.nodes[i]).dependencies,
                metadata.packages,
            ),
{
    let nodes = metadata.resolve.nodes;
    let ids = nodes.map_values(|node: ResolveNodeView| node.id);
    let unknown = |id: Seq<char>| package_index(metadata.packages, id) is None;
    assert forall|i: int| 0 <= i < nodes.len() implies all_found(
        (#[trigger] nodes[i]).dependencies,
        metadata.packages,
    ) by {
        assert forall|k: int| 0 <= k < nodes[i].dependencies.len() implies package_index(
            metadata.packages,
            #[trigger] nodes[i].dependencies[k],
        ) is Some by {
            let id = nodes[i].dependencies[k];
            assert(is_node(nodes, id));
            let j = choose|j: int| 0 <= j < nodes.len() && (#[trigger] nodes[j]).id == id;
            if unknown(id) {
                assert(ids[j] == id);
                ids.lemma_filter_contains(unknown, j);
                assert(missing_nodes(metadata).contains(id));
            }
        }
    }
}

// ---------------------------------------------------------------------------
// What is in a context
// ---------------------------------------------------------------------------

/// Picking items out of a sorted list leaves them sorted.
pub(crate) proof fn lemma_filter_keeps_order<A>(
    items: Seq<A>,
    pred: spec_fn(A) -> bool,
    leq: spec_fn(A, A) -> bool,
)
    requires
        sorted_by(items, leq),
    ensures
        sorted_by(items.filter(pred), leq),
    decreases items.len(),
{
    reveal(Seq::filter);
    if items.len() > 0 {
        let before = items.drop_last();
        lemma_filter_keeps_order(before, pred, leq);
        let picked = items.filter(pred);
        assert forall|i: int, j: int| 0 <= i < j < picked.len() implies #[trigger] leq(
            picked[i],
            picked[j],
        ) by {
            if j < before.filter(pred).len() {
                assert(leq(before.filter(pred)[i], before.filter(pred)[j]));
            } else {
                lemma_filter_source(before, pred, i);
                let k = choose|k: int| 0 <= k < before.len() && before[k] == before.filter(pred)[i];
                assert(leq(items[k], items[items.len() - 1]));
            }
        }
    }
}

/// In every context the dependencies of each kind and the targets are sorted.
pub proof fn contexts_are_sorted(
    settings: RazeSettingsView,
    packages: Seq<PackageView>,
    root_deps: Seq<Seq<char>>,
    node: ResolveNodeView,
    package: PackageView,
    outcomes: Seq<Applicability>,
    available: Seq<AvailableLicenseView>,
    targets: Seq<BuildTargetView>,
)
    ensures
        ({
            let context = crate_context(
                settings,
                packages,
                root_deps,
                node,
                package,
                outcomes,
                available,
                targets,
            );
            let dep_leq = |a: BuildDependencyView, b: BuildDependencyView|
                BuildDependency::precedes(a, b);
            let target_leq = |a: BuildTargetView, b: BuildTargetView| BuildTarget::precedes(a, b);
            &&& sorted_by(context.dependencies, dep_leq)
            &&& sorted_by(context.build_dependencies, dep_leq)
            &&& sorted_by(context.dev_dependencies, dep_leq)
            &&& sorted_by(context.targets, target_leq)
        }),
{
    let dep_leq = |a: BuildDependencyView, b: BuildDependencyView| BuildDependency::precedes(a, b);
    let target_leq = |a: BuildTargetView, b: BuildTargetView| BuildTarget::precedes(a, b);
    let crate_settings = settings.of_crate(package.name, package.version);
    let deps = resolved(node.dependencies, packages);
    lemma_kind_sorted(deps, names_of_kind(package.dependencies, outcomes, DependencyKind::Normal));
    lemma_kind_sorted(deps, names_of_kind(package.dependencies, outcomes, DependencyKind::Build));
    lemma_kind_sorted(deps, names_of_kind(package.dependencies, outcomes, DependencyKind::Dev));
    if crate_settings is Some {
        let keeps = |dep: BuildDependencyView|
            !crate_settings->0.skipped_deps.contains(full_name(dep.name, dep.version));
        lemma_filter_keeps_order(
            dependencies_of_kind(packages, node, package, outcomes, DependencyKind::Normal),
            keeps,
            dep_leq,
        );
        lemma_filter_keeps_order(
            dependencies_of_kind(packages, node, package, outcomes, DependencyKind::Build),
            keeps,
            dep_leq,
        );
    }
    in_order_sorts::<BuildTarget>(targets);
    lemma_filter_keeps_order(
        in_order::<BuildTarget>(targets),
        |target: BuildTargetView| !is_build_script(target),
        target_leq,
    );
}

proof fn lemma_kind_sorted(deps: Seq<BuildDependencyView>, names: Seq<Seq<char>>)
    ensures
        sorted_by(
            named_in_order(deps, names),
            |a: BuildDependencyView, b: BuildDependencyView| BuildDependency::precedes(a, b),
        ),
{
    in_order_sorts::<BuildDependency>(
        deps.filter(|dep: BuildDependencyView| names.contains(dep.name)),
    );
}

/// The targets of a context are those of its package that are not build scripts, and the
/// build script, where the settings ask for it, is one of its package that is one.
pub proof fn build_scripts_stand_apart(
    settings: RazeSettingsView,
    packages: Seq<PackageView>,
    root_deps: Seq<Seq<char>>,
    node: ResolveNodeView,
    package: PackageView,
    outcomes: Seq<Applicability>,
    available: Seq<AvailableLicenseView>,
    targets: Seq<BuildTargetView>,
)
    ensures
        ({
            let context = crate_context(
                settings,
                packages,
                root_deps,
                node,
                package,
                outcomes,
                available,
                targets,
            );
            let crate_settings = settings.of_crate(package.name, package.version);
            &&& forall|target: BuildTargetView| #[trigger]
                context.targets.contains(target) <==> targets.contains(target) && !is_build_script(
                    target,
                )
            &&& context.build_script_target matches Some(script) ==> targets.contains(script)
                && is_build_script(script)
            &&& context.build_script_target is Some <==> crate_settings is Some
                && crate_settings->0.gen_buildrs && exists|i: int|
                0 <= i < targets.len() && is_build_script(#[trigger] targets[i])
        }),
{
    broadcast use group_to_multiset_ensures;

    let context = crate_context(
        settings,
        packages,
        root_deps,
        node,
        package,
        outcomes,
        available,
        targets,
    );
    let sorted = in_order::<BuildTarget>(targets);
    let script = |target: BuildTargetView| is_build_script(target);
    let other = |target: BuildTargetView| !is_build_script(target);
    in_order_sorts::<BuildTarget>(targets);
    assert forall|target: BuildTargetView| #[trigger]
        sorted.contains(target) <==> targets.contains(target) by {
        assert(sorted.to_multiset().count(target) == targets.to_multiset().count(target));
    }
    assert forall|target: BuildTargetView| #[trigger]
        context.targets.contains(target) <==> targets.contains(target) && !is_build_script(
            target,
        ) by {
        lemma_filter_members(sorted, other, target);
        assert(sorted.contains(target) <==> targets.contains(target));
    }
    if sorted.filter(script).len() > 0 {
        let first = sorted.filter(script)[0];
        lemma_filter_source(sorted, script, 0);
        assert(sorted.contains(first));
        let i = choose|i: int| 0 <= i < targets.len() && targets[i] == first;
        assert(is_build_script(targets[i]));
    }
    if exists|i: int| 0 <= i < targets.len() && is_build_script(#[trigger] targets[i]) {
        let i = choose|i: int| 0 <= i < targets.len() && is_build_script(#[trigger] targets[i]);
        assert(targets.contains(targets[i]));
        assert(sorted.contains(targets[i]));
        lemma_filter_members(sorted, script, targets[i]);
    }
}

/// What a predicate picks is what the items hold that it holds of.
proof fn lemma_filter_members<A>(items: Seq<A>, pred: spec_fn(A) -> bool, item: A)
    ensures
        items.filter(pred).contains(item) <==> items.contains(item) && pred(item),
{
    if items.filter(pred).contains(item) {
        let at = choose|at: int| 0 <= at < items.filter(pred).len() && items.filter(pred)[at]
            == item;
        lemma_filter_source(items, pred, at);
    }
    if items.contains(item) && pred(item) {
        let i = choose|i: int| 0 <= i < items.len() && items[i] == item;
        items.lemma_filter_contains(pred, i);
    }
}

/// What a context holds as dependencies of a kind: the dependencies of the node that the
/// package declares as being of that kind. Of the normal and the build dependencies those
/// that the settings skip are left out; of the dev dependencies none is.
pub proof fn dependencies_are_resolved_declared_and_not_skipped(
    settings: RazeSettingsView,
    packages: Seq<PackageView>,
    root_deps: Seq<Seq<char>>,
    node: ResolveNodeView,
    package: PackageView,
    outcomes: Seq<Applicability>,
    available: Seq<AvailableLicenseView>,
    targets: Seq<BuildTargetView>,
    dep: BuildDependencyView,
)
    ensures
        ({
            let context = crate_context(
                settings,
                packages,
                root_deps,
                node,
                package,
                outcomes,
                available,
                targets,
            );
            let crate_settings = settings.of_crate(package.name, package.version);
            let is_resolved = resolved(node.dependencies, packages).contains(dep);
            let is_skipped = crate_settings is Some
                && crate_settings->0.skipped_deps.contains(full_name(dep.name, dep.version));
            &&& context.dependencies.contains(dep) <==> is_resolved && !is_skipped
                && names_of_kind(
                package.dependencies,
                outcomes,
                DependencyKind::Normal,
            ).contains(dep.name)
            &&& context.build_dependencies.contains(dep) <==> is_resolved && !is_skipped
                && names_of_kind(
                package.dependencies,
                outcomes,
                DependencyKind::Build,
            ).contains(dep.name)
            &&& context.dev_dependencies.contains(dep) <==> is_resolved && names_of_kind(
                package.dependencies,
                outcomes,
                DependencyKind::Dev,
            ).contains(dep.name)
        }),
{
    let crate_settings = settings.of_crate(package.name, package.version);
    let deps = resolved(node.dependencies, packages);
    let normal = names_of_kind(package.dependencies, outcomes, DependencyKind::Normal);
    let build = names_of_kind(package.dependencies, outcomes, DependencyKind::Build);
    let dev = names_of_kind(package.dependencies, outcomes, DependencyKind::Dev);
    lemma_kind_members(deps, normal, dep);
    lemma_kind_members(deps, build, dep);
    lemma_kind_members(deps, dev, dep);
    if crate_settings is Some {
        let keeps = |dep: BuildDependencyView|
            !crate_settings->0.skipped_deps.contains(full_name(dep.name, dep.version));
        lemma_filter_members(named_in_order(deps, normal), keeps, dep);
        lemma_filter_members(named_in_order(deps, build), keeps, dep);
    }
}

proof fn lemma_kind_members(
    deps: Seq<BuildDependencyView>,
    names: Seq<Seq<char>>,
    dep: BuildDependencyView,
)
    ensures
        named_in_order(deps, names).contains(dep) <==> deps.contains(dep) && names.contains(
            dep.name,
        ),
{
    broadcast use group_to_multiset_ensures;

    let named = |dep: BuildDependencyView| names.contains(dep.name);
    in_order_sorts::<BuildDependency>(deps.filter(named));
    assert(named_in_order(deps, names).to_multiset().count(dep) == deps.filter(
        named,
    ).to_multiset().count(dep));
    lemma_filter_members(deps, named, dep);
}

// ---------------------------------------------------------------------------
// What a plan depends on
// ---------------------------------------------------------------------------

/// Two workspaces find a package for the same identities, each time with the same name and
/// version.
pub open spec fn same_names(left: Seq<PackageView>, right: Seq<PackageView>) -> bool {
    forall|id: Seq<char>|
        #![trigger package_index(left, id)]
        #![trigger package_index(right, id)]
        match (package_index(left, id), package_index(right, id)) {
            (None, None) => true,
            (Some(i), Some(j)) => {
                &&& left[i].name == right[j].name
                &&& left[i].version == right[j].version
            },
            _ => false,
        }
}

/// Where two workspaces find a package for an identity, it is the same package, with the same
/// outcomes and licenses.
pub open spec fn same_package(
    left: Seq<PackageView>,
    left_outcomes: Seq<Seq<Applicability>>,
    left_available: Seq<Seq<AvailableLicenseView>>,
    right: Seq<PackageView>,
    right_outcomes: Seq<Seq<Applicability>>,
    right_available: Seq<Seq<AvailableLicenseView>>,
    id: Seq<char>,
) -> bool {
    match (package_index(left, id), package_index(right, id)) {
        (Some(i), Some(j)) => {
            &&& left[i] == right[j]
            &&& left_outcomes[i] == right_outcomes[j]
            &&& left_available[i] == right_available[j]
        },
        _ => true,
    }
}

/// A plan depends on the packages of the nodes but the root, and on the names and versions of
/// all packages, and on nothing else of the packages.
pub proof fn plan_depends_on_planned_packages(
    settings: RazeSettingsView,
    left: MetadataView,
    left_outcomes: Seq<Seq<Applicability>>,
    left_available: Seq<Seq<AvailableLicenseView>>,
    right: MetadataView,
    right_outcomes: Seq<Seq<Applicability>>,
    right_available: Seq<Seq<AvailableLicenseView>>,
)
    requires
        left.resolve == right.resolve,
        same_names(left.packages, right.packages),
        forall|i: int|
            0 <= i < left.resolve.nodes.len() && (#[trigger] left.resolve.nodes[i]).id
                != left.resolve.root ==> same_package(
                left.packages,
                left_outcomes,
                left_available,
                right.packages,
                right_outcomes,
                right_available,
                left.resolve.nodes[i].id,
            ),
    ensures
        planned_contexts(settings, left, left_outcomes, left_available) == planned_contexts(
            settings,
            right,
            right_outcomes,
            right_available,
        ),
{
    let left_unknown = |id: Seq<char>| package_index(left.packages, id) is None;
    let right_unknown = |id: Seq<char>| package_index(right.packages, id) is None;
    assert(left_unknown =~= right_unknown);
    if checked_root_dependencies(left) is Ok {
        assert forall|i: int| 0 <= i < left.resolve.nodes.len() implies package_index(
            left.packages,
            (#[trigger] left.resolve.nodes[i]).id,
        ) is Some by {
            let ids = left.resolve.nodes.map_values(|node: ResolveNodeView| node.id);
            if left_unknown(ids[i]) {
                ids.lemma_filter_contains(left_unknown, i);
                assert(missing_nodes(left).contains(ids[i]));
            }
        }
        lemma_same_contexts(
            settings,
            left,
            left_outcomes,
            left_available,
            right,
            right_outcomes,
            right_available,
            checked_root_dependencies(left)->Ok_0,
            left.resolve.nodes.len(),
        );
    }
}

/// A plan depends on the packages only through what their identities stand for: neither their
/// order matters, nor a package that a later one with the same identity replaces.
pub proof fn plan_depends_on_lookups(
    settings: RazeSettingsView,
    left: MetadataView,
    left_outcomes: Seq<Seq<Applicability>>,
    left_available: Seq<Seq<AvailableLicenseView>>,
    right: MetadataView,
    right_outcomes: Seq<Seq<Applicability>>,
    right_available: Seq<Seq<AvailableLicenseView>>,
)
    requires
        left.resolve == right.resolve,
        same_names(left.packages, right.packages),
        forall|id: Seq<char>| #[trigger]
            same_package(
                left.packages,
                left_outcomes,
                left_available,
                right.packages,
                right_outcomes,
                right_available,
                id,
            ),
    ensures
        planned_contexts(settings, left, left_outcomes, left_available) == planned_contexts(
            settings,
            right,
            right_outcomes,
            right_available,
        ),
{
    plan_depends_on_planned_packages(
        settings,
        left,
        left_outcomes,
        left_available,
        right,
        right_outcomes,
        right_available,
    );
}

/// Of the root package a plan uses the name and the version at most: what it declares, what it
/// builds and how it is licensed makes no difference.
pub proof fn plan_ignores_the_root_package(
    settings: RazeSettingsView,
    left: MetadataView,
    left_outcomes: Seq<Seq<Applicability>>,
    left_available: Seq<Seq<AvailableLicenseView>>,
    right: MetadataView,
    right_outcomes: Seq<Seq<Applicability>>,
    right_available: Seq<Seq<AvailableLicenseView>>,
)
    requires
        left.resolve == right.resolve,
        same_names(left.packages, right.packages),
        forall|id: Seq<char>|
            id != left.resolve.root ==> #[trigger] same_package(
                left.packages,
                left_outcomes,
                left_available,
                right.packages,
                right_outcomes,
                right_available,
                id,
            ),
    ensures
        planned_contexts(settings, left, left_outcomes, left_available) == planned_contexts(
            settings,
            right,
            right_outcomes,
            right_available,
        ),
{
    plan_depends_on_planned_packages(
        settings,
        left,
        left_outcomes,
        left_available,
        right,
        right_outcomes,
        right_available,
    );
}

proof fn lemma_same_contexts(
    settings: RazeSettingsView,
    left: MetadataView,
    left_outcomes: Seq<Seq<Applicability>>,
    left_available: Seq<Seq<AvailableLicenseView>>,
    right: MetadataView,
    right_outcomes: Seq<Seq<Applicability>>,
    right_available: Seq<Seq<AvailableLicenseView>>,
    root_deps: Seq<Seq<char>>,
    n: nat,
)
    requires
        n <= left.resolve.nodes.len(),
        left.resolve == right.resolve,
        same_names(left.packages, right.packages),
        forall|i: int|
            0 <= i < left.resolve.nodes.len() && (#[trigger] left.resolve.nodes[i]).id
                != left.resolve.root ==> same_package(
                left.packages,
                left_outcomes,
                left_available,
                right.packages,
                right_outcomes,
                right_available,
                left.resolve.nodes[i].id,
            ),
        forall|i: int|
            0 <= i < left.resolve.nodes.len() ==> package_index(
                left.packages,
                (#[trigger] left.resolve.nodes[i]).id,
            ) is Some,
    ensures
        contexts_up_to(settings, left, root_deps, left_outcomes, left_available, n)
            == contexts_up_to(settings, right, root_deps, right_outcomes, right_available, n),
    decreases n,
{
    if n > 0 {
        lemma_same_contexts(
            settings,
            left,
            left_outcomes,
            left_available,
            right,
            right_outcomes,
            right_available,
            root_deps,
            (n - 1) as nat,
        );
        let node = left.resolve.nodes[n - 1];
        let found = package_index(left.packages, node.id);
        assert(found is Some);
        package_index_finds(left.packages, node.id);
        package_index_finds(right.packages, node.id);
        assert(all_found(node.dependencies, left.packages) == all_found(
            node.dependencies,
            right.packages,
        )) by {
            if all_found(node.dependencies, left.packages) {
                assert forall|k: int| 0 <= k < node.dependencies.len() implies package_index(
                    right.packages,
                    #[trigger] node.dependencies[k],
                ) is Some by {
                    assert(package_index(left.packages, node.dependencies[k]) is Some);
                }
            }
            if all_found(node.dependencies, right.packages) {
                assert forall|k: int| 0 <= k < node.dependencies.len() implies package_index(
                    left.packages,
                    #[trigger] node.dependencies[k],
                ) is Some by {
                    assert(package_index(right.packages, node.dependencies[k]) is Some);
                }
            }
        }
        if all_found(node.dependencies, left.packages) {
            assert(resolved(node.dependencies, left.packages) =~= resolved(
                node.dependencies,
                right.packages,
            )) by {
                assert forall|k: int| 0 <= k < node.dependencies.len() implies resolved(
                    node.dependencies,
                    left.packages,
                )[k] == #[trigger] resolved(node.dependencies, right.packages)[k] by {
                    assert(package_index(left.packages, node.dependencies[k]) is Some);
                }
            }
        }
    }
}

} // verus!
