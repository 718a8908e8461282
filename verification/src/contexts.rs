//! The context of each crate of a workspace.

use crate::context::{
    BuildDependency, BuildDependencyView, BuildTarget, BuildTargetView, CrateContext,
    CrateContextView,
};
use crate::dependencies::{
    all_found, declarations_readable, dependency_names, indexes, named_in_order, names_of_kind,
    not_skipped, package_index, package_index_finds, packages_by_id, prune_skipped_deps,
    resolve_dependencies, resolved, select_named, DependencyKind,
};
use crate::error::{RazeErrView, RazeResult};
use crate::fetcher::MetadataFetcher;
use crate::graph::{checked_root_dependencies, missing_nodes};
use crate::license::{
    license_summary, load_and_dedup_licenses, AvailableLicense, AvailableLicenseView,
};
use crate::metadata::{
    Metadata, MetadataView, Package, PackageId, PackageView, ResolveNode, ResolveNodeView,
};
use crate::order::{in_order, sort};
use crate::planner::BuildPlannerImpl;
use crate::platform::{all_applicabilities, all_applicabilities_of, Applicability, PlatformAttr};
use crate::settings::{CrateSettings, CrateSettingsView, RazeSettings, RazeSettingsView};
use crate::string_map::StringMap;
use crate::targets::package_targets;
use crate::text::{contains_text, copy_of, lemma_filter_take, views};
use crate::vendor::{vendor_path, vendor_path_of};
use vstd::prelude::*;

verus! {

// ---------------------------------------------------------------------------
// One crate
// ---------------------------------------------------------------------------

/// Whether a target is a build script.
pub open spec fn is_build_script(target: BuildTargetView) -> bool {
    target.kind == "custom-build"@
}

/// The targets that are not build scripts.
pub open spec fn without_build_scripts(targets: Seq<BuildTargetView>) -> Seq<BuildTargetView> {
    targets.filter(|target: BuildTargetView| !is_build_script(target))
}

/// The first build script among the targets, where the settings of the crate ask for it.
pub open spec fn build_script(
    targets: Seq<BuildTargetView>,
    crate_settings: Option<CrateSettingsView>,
) -> Option<BuildTargetView> {
    let scripts = targets.filter(|target: BuildTargetView| is_build_script(target));
    if crate_settings is Some && crate_settings->0.gen_buildrs && scripts.len() > 0 {
        Some(scripts[0])
    } else {
        None
    }
}

/// The dependencies without those that the settings of the crate, if it has any, skip.
pub open spec fn unless_skipped(
    deps: Seq<BuildDependencyView>,
    crate_settings: Option<CrateSettingsView>,
) -> Seq<BuildDependencyView> {
    match crate_settings {
        Some(crate_settings) => not_skipped(deps, crate_settings),
        None => deps,
    }
}

/// The dependencies of a node that its package declares as being of one kind, sorted.
pub open spec fn dependencies_of_kind(
    packages: Seq<PackageView>,
    node: ResolveNodeView,
    package: PackageView,
    outcomes: Seq<Applicability>,
    kind: DependencyKind,
) -> Seq<BuildDependencyView> {
    named_in_order(
        resolved(node.dependencies, packages),
        names_of_kind(package.dependencies, outcomes, kind),
    )
}

/// The context of a package that has the given targets.
pub open spec fn crate_context(
    settings: RazeSettingsView,
    packages: Seq<PackageView>,
    root_deps: Seq<Seq<char>>,
    node: ResolveNodeView,
    package: PackageView,
    outcomes: Seq<Applicability>,
    available: Seq<AvailableLicenseView>,
    targets: Seq<BuildTargetView>,
) -> CrateContextView {
    let crate_settings = settings.of_crate(package.name, package.version);
    let sorted_targets = in_order::<BuildTarget>(targets);
    CrateContextView {
        pkg_name: package.name,
        pkg_version: package.version,
        licenses: license_summary(available),
        features: Seq::empty(),
        is_root_dependency: root_deps.contains(node.id),
        metadeps: Seq::empty(),
        dependencies: unless_skipped(
            dependencies_of_kind(packages, node, package, outcomes, DependencyKind::Normal),
            crate_settings,
        ),
        build_dependencies: unless_skipped(
            dependencies_of_kind(packages, node, package, outcomes, DependencyKind::Build),
            crate_settings,
        ),
        dev_dependencies: dependencies_of_kind(
            packages,
            node,
            package,
            outcomes,
            DependencyKind::Dev,
        ),
        path: vendor_path(package),
        build_script_target: build_script(sorted_targets, crate_settings),
        targets: without_build_scripts(sorted_targets),
        platform_triple: settings.target,
        additional_deps: match crate_settings {
            Some(crate_settings) => crate_settings.additional_deps,
            None => Seq::empty(),
        },
        additional_flags: match crate_settings {
            Some(crate_settings) => crate_settings.additional_flags,
            None => Seq::empty(),
        },
        extra_aliased_targets: match crate_settings {
            Some(crate_settings) => crate_settings.extra_aliased_targets,
            None => Seq::empty(),
        },
    }
}

/// The context of a node, or the error for one of its targets. `None` where a declaration of
/// its package cannot be read or a dependency of the node is no package.
pub open spec fn node_context(
    settings: RazeSettingsView,
    packages: Seq<PackageView>,
    root_deps: Seq<Seq<char>>,
    node: ResolveNodeView,
    package: PackageView,
    outcomes: Seq<Applicability>,
    available: Seq<AvailableLicenseView>,
) -> Option<Result<CrateContextView, RazeErrView>> {
    if declarations_readable(package.dependencies, outcomes) && all_found(
        node.dependencies,
        packages,
    ) {
        match package_targets(package) {
            Err(error) => Some(Err(error)),
            Ok(targets) => Some(
                Ok(
                    crate_context(
                        settings,
                        packages,
                        root_deps,
                        node,
                        package,
                        outcomes,
                        available,
                        targets,
                    ),
                ),
            ),
        }
    } else {
        None
    }
}

/// The view of a context that may have failed or may be missing.
pub open spec fn context_result(context: Option<RazeResult<CrateContext>>) -> Option<
    Result<CrateContextView, RazeErrView>,
> {
    match context {
        None => None,
        Some(Ok(context)) => Some(Ok(context@)),
        Some(Err(error)) => Some(Err(error@)),
    }
}

/// The targets that are not build scripts.
fn drop_build_scripts(targets: &Vec<BuildTarget>) -> (others: Vec<BuildTarget>)
    ensures
        views(others@) == without_build_scripts(views(targets@)),
{
    let ghost all = views(targets@);
    let ghost other = |target: BuildTargetView| !is_build_script(target);
    let mut others: Vec<BuildTarget> = Vec::new();
    let mut i: usize = 0;
    proof {
        reveal(Seq::filter);
        assert(views(others@) =~= all.take(0).filter(other));
    }
    while i < targets.len()
        invariant
            i <= targets.len(),
            all == views(targets@),
            other == |target: BuildTargetView| !is_build_script(target),
            views(others@) == all.take(i as int).filter(other),
        decreases targets.len() - i,
    {
        let ghost before = views(others@);
        proof {
            lemma_filter_take(all, other, i as int);
        }
        if targets[i].kind != "custom-build".to_owned() {
            others.push(targets[i].clone());
            assert(views(others@) =~= before.push(all[i as int]));
        }
        i += 1;
    }
    assert(all.take(i as int) =~= all);
    others
}

/// The first build script among the targets.
fn first_build_script(targets: &Vec<BuildTarget>) -> (script: Option<BuildTarget>)
    ensures
        ({
            let scripts = views(targets@).filter(
                |target: BuildTargetView| is_build_script(target),
            );
            match script {
                Some(script) => scripts.len() > 0 && scripts[0] == script@,
                None => scripts.len() == 0,
            }
        }),
{
    let ghost all = views(targets@);
    let ghost picks = |target: BuildTargetView| is_build_script(target);
    let mut i: usize = 0;
    proof {
        reveal(Seq::filter);
        assert(all.take(0).filter(picks) =~= Seq::empty());
    }
    while i < targets.len()
        invariant
            i <= targets.len(),
            all == views(targets@),
            picks == |target: BuildTargetView| is_build_script(target),
            all.take(i as int).filter(picks).len() == 0,
        decreases targets.len() - i,
    {
        proof {
            lemma_filter_take(all, picks, i as int);
        }
        if targets[i].kind == "custom-build".to_owned() {
            proof {
                assert(all =~= all.take(i + 1) + all.skip(i + 1));
                Seq::filter_distributes_over_add(all.take(i + 1), all.skip(i + 1), picks);
                assert(all.filter(picks)[0] == all[i as int]);
            }
            return Some(targets[i].clone());
        }
        i += 1;
    }
    assert(all.take(i as int) =~= all);
    None
}

/// The dependencies without those that the settings of the crate, if it has any, skip.
fn prune_by_settings(
    deps: Vec<BuildDependency>,
    crate_settings: Option<&CrateSettings>,
) -> (kept: Vec<BuildDependency>)
    ensures
        views(kept@) == unless_skipped(
            views(deps@),
            match crate_settings {
                Some(crate_settings) => Some(crate_settings@),
                None => None,
            },
        ),
{
    match crate_settings {
        Some(crate_settings) => prune_skipped_deps(&deps, crate_settings),
        None => deps,
    }
}

impl<F: MetadataFetcher> BuildPlannerImpl<F> {
    /// Works out the context of one node. Fails where the root of a target is outside of the
    /// crate. `None` where a declaration cannot be read or a dependency is no package.
    pub fn produce_crate_context(
        &self,
        settings: &RazeSettings,
        packages: &Vec<Package>,
        by_id: &StringMap<usize>,
        root_deps: &Vec<PackageId>,
        node: &ResolveNode,
        package: &Package,
        outcomes: &Vec<Applicability>,
        available: &Vec<AvailableLicense>,
    ) -> (context: Option<RazeResult<CrateContext>>)
        requires
            indexes(by_id@, views(packages@)),
            outcomes.len() == package.dependencies.len(),
        ensures
            context_result(context) == node_context(
                settings@,
                views(packages@),
                views(root_deps@),
                node@,
                package@,
                outcomes@,
                views(available@),
            ),
    {
        let names = match dependency_names(&package.dependencies, outcomes) {
            Some(names) => names,
            None => {
                return None;
            },
        };
        let deps = match resolve_dependencies(&node.dependencies, packages, by_id) {
            Some(deps) => deps,
            None => {
                return None;
            },
        };
        let build_deps = select_named(&deps, &names.build);
        let dev_deps = select_named(&deps, &names.dev);
        let normal_deps = select_named(&deps, &names.normal);
        let targets = match self.produce_targets(package) {
            Ok(targets) => sort(targets),
            Err(error) => {
                return Some(Err(error));
            },
        };
        let crate_settings = settings.of_crate(&package.name, &package.version);
        let mut build_script_target: Option<BuildTarget> = None;
        let mut additional_deps: Vec<String> = Vec::new();
        let mut additional_flags: Vec<String> = Vec::new();
        let mut extra_aliased_targets: Vec<String> = Vec::new();
        match crate_settings {
            Some(crate_settings) => {
                if crate_settings.gen_buildrs {
                    build_script_target = first_build_script(&targets);
                }
                additional_deps = copy_of(&crate_settings.additional_deps);
                additional_flags = copy_of(&crate_settings.additional_flags);
                extra_aliased_targets = copy_of(&crate_settings.extra_aliased_targets);
            },
            None => {},
        }
        let context = CrateContext {
            pkg_name: package.name.clone(),
            pkg_version: package.version.clone(),
            licenses: load_and_dedup_licenses(available),
            features: Vec::new(),
            is_root_dependency: contains_text(root_deps, &node.id),
            metadeps: Vec::new(),
            dependencies: prune_by_settings(normal_deps, crate_settings),
            build_dependencies: prune_by_settings(build_deps, crate_settings),
            dev_dependencies: dev_deps,
            path: vendor_path_of(package),
            build_script_target,
            targets: drop_build_scripts(&targets),
            platform_triple: settings.target.clone(),
            additional_deps,
            additional_flags,
            extra_aliased_targets,
        };
        proof {
            let expected = crate_context(
                settings@,
                views(packages@),
                views(root_deps@),
                node@,
                package@,
                outcomes@,
                views(available@),
                package_targets(package@)->Ok_0,
            );
            assert(context@ =~= expected);
        }
        Some(Ok(context))
    }
}

// ---------------------------------------------------------------------------
// All crates
// ---------------------------------------------------------------------------

/// The views of a list of lists of licenses.
pub open spec fn all_licenses(available: Seq<Vec<AvailableLicense>>) -> Seq<
    Seq<AvailableLicenseView>,
> {
    Seq::new(available.len(), |i: int| views(available[i]@))
}

/// The contexts of the first `n` nodes without the root package, in order; or the error of
/// the first node that has one. `None` where, before any error, a node has no context.
pub open spec fn contexts_up_to(
    settings: RazeSettingsView,
    metadata: MetadataView,
    root_deps: Seq<Seq<char>>,
    outcomes: Seq<Seq<Applicability>>,
    available: Seq<Seq<AvailableLicenseView>>,
    n: nat,
) -> Option<Result<Seq<CrateContextView>, RazeErrView>>
    decreases n,
{
    if n == 0 {
        Some(Ok(Seq::empty()))
    } else {
        match contexts_up_to(
            settings,
            metadata,
            root_deps,
            outcomes,
            available,
            (n - 1) as nat,
        ) {
            None => None,
            Some(Err(error)) => Some(Err(error)),
            Some(Ok(before)) => {
                let node = metadata.resolve.nodes[n - 1];
                let at = package_index(metadata.packages, node.id)->0;
                let package = metadata.packages[at];
                if package.id == metadata.resolve.root {
                    Some(Ok(before))
                } else {
                    match node_context(
                        settings,
                        metadata.packages,
                        root_deps,
                        node,
                        package,
                        outcomes[at],
                        available[at],
                    ) {
                        None => None,
                        Some(Err(error)) => Some(Err(error)),
                        Some(Ok(context)) => Some(Ok(before.push(context))),
                    }
                }
            },
        }
    }
}

/// The contexts of all crates of a workspace but the root package, where `outcomes` says what
/// becomes of each dependency of each package and `available` lists the licenses of each
/// package. `None` where a node that has to be looked at has no context.
pub open spec fn planned_contexts(
    settings: RazeSettingsView,
    metadata: MetadataView,
    outcomes: Seq<Seq<Applicability>>,
    available: Seq<Seq<AvailableLicenseView>>,
) -> Option<Result<Seq<CrateContextView>, RazeErrView>> {
    match checked_root_dependencies(metadata) {
        Err(error) => Some(Err(error)),
        Ok(root_deps) => contexts_up_to(
            settings,
            metadata,
            root_deps,
            outcomes,
            available,
            metadata.resolve.nodes.len(),
        ),
    }
}

/// The view of a list of contexts that may have failed.
pub open spec fn contexts_result(contexts: RazeResult<Vec<CrateContext>>) -> Result<
    Seq<CrateContextView>,
    RazeErrView,
> {
    match contexts {
        Ok(contexts) => Ok(views(contexts@)),
        Err(error) => Err(error@),
    }
}

/// The view of a list of contexts that may have failed or may be missing.
pub open spec fn optional_contexts(contexts: Option<RazeResult<Vec<CrateContext>>>) -> Option<
    Result<Seq<CrateContextView>, RazeErrView>,
> {
    match contexts {
        None => None,
        Some(contexts) => Some(contexts_result(contexts)),
    }
}

/// The package of a node.
pub open spec fn node_package(metadata: MetadataView, i: int) -> PackageView {
    metadata.packages[package_index(metadata.packages, metadata.resolve.nodes[i].id)->0]
}

/// Whether a node is that of the root package.
pub open spec fn is_root_node(metadata: MetadataView, i: int) -> bool {
    node_package(metadata, i).id == metadata.resolve.root
}

/// Whether a node has to be looked at: it is not that of the root package, and no node
/// before it has a target outside of its crate.
pub open spec fn is_looked_at(metadata: MetadataView, i: int) -> bool {
    &&& !is_root_node(metadata, i)
    &&& forall|j: int|
        0 <= j < i && !#[trigger] is_root_node(metadata, j) ==> package_targets(
            node_package(metadata, j),
        ) is Ok
}

/// Whether the declarations of the package of a node can be read, and every dependency of
/// the node is a package.
pub open spec fn is_readable_node(
    metadata: MetadataView,
    outcomes: Seq<Seq<Applicability>>,
    i: int,
) -> bool {
    let node = metadata.resolve.nodes[i];
    &&& declarations_readable(
        node_package(metadata, i).dependencies,
        outcomes[package_index(metadata.packages, node.id)->0],
    )
    &&& all_found(node.dependencies, metadata.packages)
}

/// Whether every node that has to be looked at can be read.
pub open spec fn plannable(
    metadata: MetadataView,
    outcomes: Seq<Seq<Applicability>>,
) -> bool {
    checked_root_dependencies(metadata) is Ok ==> forall|i: int|
        0 <= i < metadata.resolve.nodes.len() && is_looked_at(metadata, i)
            ==> #[trigger] is_readable_node(metadata, outcomes, i)
}

/// What the contexts of the first `n` nodes come to, by whether the nodes can be read and where
/// their targets are.
pub(crate) proof fn lemma_contexts_up_to(
    settings: RazeSettingsView,
    metadata: MetadataView,
    root_deps: Seq<Seq<char>>,
    outcomes: Seq<Seq<Applicability>>,
    available: Seq<Seq<AvailableLicenseView>>,
    n: nat,
)
    ensures
        ({
            let contexts = contexts_up_to(
                settings,
                metadata,
                root_deps,
                outcomes,
                available,
                n,
            );
            &&& contexts is Some <==> forall|i: int|
                0 <= i < n && is_looked_at(metadata, i) ==> #[trigger] is_readable_node(
                    metadata,
                    outcomes,
                    i,
                )
            &&& contexts matches Some(Ok(_)) ==> forall|j: int|
                0 <= j < n && !#[trigger] is_root_node(metadata, j) ==> package_targets(
                    node_package(metadata, j),
                ) is Ok
            &&& contexts matches Some(Err(_)) ==> exists|j: int|
                0 <= j < n && !#[trigger] is_root_node(metadata, j) && package_targets(
                    node_package(metadata, j),
                ) is Err
        }),
    decreases n,
{
    if n > 0 {
        let last = n - 1;
        lemma_contexts_up_to(
            settings,
            metadata,
            root_deps,
            outcomes,
            available,
            last as nat,
        );
        let before = contexts_up_to(
            settings,
            metadata,
            root_deps,
            outcomes,
            available,
            last as nat,
        );
        let readable = is_readable_node(metadata, outcomes, last);
        if before is Some && before->0 is Err {
            let j = choose|j: int|
                0 <= j < last && !#[trigger] is_root_node(metadata, j) && package_targets(
                    node_package(metadata, j),
                ) is Err;
            assert(!is_looked_at(metadata, last));
            assert(!is_root_node(metadata, j));
        } else if before is Some {
            assert(is_looked_at(metadata, last) <==> !is_root_node(metadata, last));
        }
    }
}

/// A plan exists exactly where every node that has to be looked at can be read, whatever the
/// settings and the licenses.
pub proof fn plan_exists_where_plannable(
    settings: RazeSettingsView,
    metadata: MetadataView,
    outcomes: Seq<Seq<Applicability>>,
    available: Seq<Seq<AvailableLicenseView>>,
)
    ensures
        planned_contexts(settings, metadata, outcomes, available) is Some <==> plannable(
            metadata,
            outcomes,
        ),
{
    if checked_root_dependencies(metadata) is Ok {
        lemma_contexts_up_to(
            settings,
            metadata,
            checked_root_dependencies(metadata)->Ok_0,
            outcomes,
            available,
            metadata.resolve.nodes.len(),
        );
    }
}

/// What stops the row of contexts stops every longer row too.
proof fn lemma_stop_stays(
    settings: RazeSettingsView,
    metadata: MetadataView,
    root_deps: Seq<Seq<char>>,
    outcomes: Seq<Seq<Applicability>>,
    available: Seq<Seq<AvailableLicenseView>>,
    n: nat,
    m: nat,
)
    requires
        n <= m,
        !(contexts_up_to(settings, metadata, root_deps, outcomes, available, n) matches Some(
            Ok(_),
        )),
    ensures
        contexts_up_to(settings, metadata, root_deps, outcomes, available, m) == contexts_up_to(
            settings,
            metadata,
            root_deps,
            outcomes,
            available,
            n,
        ),
    decreases m,
{
    if n < m {
        lemma_stop_stays(
            settings,
            metadata,
            root_deps,
            outcomes,
            available,
            n,
            (m - 1) as nat,
        );
    }
}

/// Where no node is missing, there is a package for each.
pub(crate) proof fn lemma_no_node_missing(metadata: MetadataView, i: int)
    requires
        missing_nodes(metadata).len() == 0,
        0 <= i < metadata.resolve.nodes.len(),
    ensures
        package_index(metadata.packages, metadata.resolve.nodes[i].id) is Some,
{
    let ids = metadata.resolve.nodes.map_values(|node: ResolveNodeView| node.id);
    let unknown = |id: Seq<char>| package_index(metadata.packages, id) is None;
    if package_index(metadata.packages, metadata.resolve.nodes[i].id) is None {
        assert(unknown(ids[i]));
        ids.lemma_filter_contains(unknown, i);
        assert(ids.filter(unknown).contains(ids[i]));
    }
}

impl<F: MetadataFetcher> BuildPlannerImpl<F> {
    /// Works out the contexts of all crates of a workspace but the root package, where
    /// `outcomes` says what becomes of each dependency of each package and `available` lists
    /// the licenses of each package. `None` where a node that has to be looked at has no
    /// context.
    pub fn plan_contexts(
        &self,
        settings: &RazeSettings,
        metadata: &Metadata,
        outcomes: &Vec<Vec<Applicability>>,
        available: &Vec<Vec<AvailableLicense>>,
    ) -> (contexts: Option<RazeResult<Vec<CrateContext>>>)
        requires
            outcomes.len() == metadata.packages.len(),
            available.len() == metadata.packages.len(),
            forall|i: int|
                0 <= i < outcomes.len() ==> (#[trigger] outcomes@[i]).len()
                    == metadata.packages@[i].dependencies.len(),
        ensures
            optional_contexts(contexts) == planned_contexts(
                settings@,
                metadata@,
                views(outcomes@),
                all_licenses(available@),
            ),
    {
        let root_deps = match self.check_graph(metadata) {
            Ok(root_deps) => root_deps,
            Err(error) => {
                return Some(Err(error));
            },
        };
        let by_id = packages_by_id(&metadata.packages);
        let ghost nodes = metadata@.resolve.nodes;
        let mut contexts: Vec<CrateContext> = Vec::new();
        let mut i: usize = 0;
        assert(views(contexts@) =~= Seq::<CrateContextView>::empty());
        while i < metadata.resolve.nodes.len()
            invariant
                i <= metadata.resolve.nodes.len(),
                outcomes.len() == metadata.packages.len(),
                available.len() == metadata.packages.len(),
                forall|j: int|
                    0 <= j < outcomes.len() ==> (#[trigger] outcomes@[j]).len()
                        == metadata.packages@[j].dependencies.len(),
                nodes == metadata@.resolve.nodes,
                missing_nodes(metadata@).len() == 0,
                checked_root_dependencies(metadata@) == Ok::<_, RazeErrView>(views(root_deps@)),
                indexes(by_id@, metadata@.packages),
                contexts_up_to(
                    settings@,
                    metadata@,
                    views(root_deps@),
                    views(outcomes@),
                    all_licenses(available@),
                    i as nat,
                ) == Some(Ok::<_, RazeErrView>(views(contexts@))),
            decreases metadata.resolve.nodes.len() - i,
        {
            let node = &metadata.resolve.nodes[i];
            proof {
                assert(nodes[i as int] == node@);
                lemma_no_node_missing(metadata@, i as int);
                package_index_finds(metadata@.packages, node@.id);
            }
            let found = by_id.get(&node.id);
            assert(found is Some);
            let at: usize = *found.unwrap();
            let package = &metadata.packages[at];
            assert(metadata@.packages[at as int] == package@);
            if package.id != metadata.resolve.root {
                let ghost before = views(contexts@);
                match self.produce_crate_context(
                    settings,
                    &metadata.packages,
                    &by_id,
                    &root_deps,
                    node,
                    package,
                    &outcomes[at],
                    &available[at],
                ) {
                    None => {
                        proof {
                            lemma_stop_stays(
                                settings@,
                                metadata@,
                                views(root_deps@),
                                views(outcomes@),
                                all_licenses(available@),
                                (i + 1) as nat,
                                nodes.len(),
                            );
                        }
                        return None;
                    },
                    Some(Err(error)) => {
                        proof {
                            lemma_stop_stays(
                                settings@,
                                metadata@,
                                views(root_deps@),
                                views(outcomes@),
                                all_licenses(available@),
                                (i + 1) as nat,
                                nodes.len(),
                            );
                        }
                        return Some(Err(error));
                    },
                    Some(Ok(context)) => {
                        contexts.push(context);
                        assert(views(contexts@) =~= before.push(context@));
                    },
                }
            }
            i += 1;
        }
        Some(Ok(contexts))
    }

    /// Whether every node that has to be looked at can be read.
    pub fn is_plannable(&self, metadata: &Metadata, outcomes: &Vec<Vec<Applicability>>) -> (yes:
        bool)
        requires
            outcomes.len() == metadata.packages.len(),
            forall|i: int|
                0 <= i < outcomes.len() ==> (#[trigger] outcomes@[i]).len()
                    == metadata.packages@[i].dependencies.len(),
        ensures
            yes == plannable(metadata@, views(outcomes@)),
    {
        if self.check_graph(metadata).is_err() {
            return true;
        }
        let by_id = packages_by_id(&metadata.packages);
        let mut i: usize = 0;
        while i < metadata.resolve.nodes.len()
            invariant
                i <= metadata.resolve.nodes.len(),
                outcomes.len() == metadata.packages.len(),
                forall|j: int|
                    0 <= j < outcomes.len() ==> (#[trigger] outcomes@[j]).len()
                        == metadata.packages@[j].dependencies.len(),
                missing_nodes(metadata@).len() == 0,
                checked_root_dependencies(metadata@) is Ok,
                indexes(by_id@, metadata@.packages),
                forall|j: int|
                    0 <= j < i && is_looked_at(metadata@, j) ==> #[trigger] is_readable_node(
                        metadata@,
                        views(outcomes@),
                        j,
                    ),
                forall|j: int|
                    0 <= j < i && !#[trigger] is_root_node(metadata@, j) ==> package_targets(
                        node_package(metadata@, j),
                    ) is Ok,
            decreases metadata.resolve.nodes.len() - i,
        {
            let node = &metadata.resolve.nodes[i];
            proof {
                assert(metadata@.resolve.nodes[i as int] == node@);
                lemma_no_node_missing(metadata@, i as int);
                package_index_finds(metadata@.packages, node@.id);
            }
            let found = by_id.get(&node.id);
            assert(found is Some);
            let at: usize = *found.unwrap();
            let package = &metadata.packages[at];
            assert(node_package(metadata@, i as int) == package@);
            assert(views(outcomes@)[at as int] == outcomes@[at as int]@);
            if package.id != metadata.resolve.root {
                assert(is_looked_at(metadata@, i as int));
                if dependency_names(&package.dependencies, &outcomes[at]).is_none()
                    || resolve_dependencies(
                    &node.dependencies,
                    &metadata.packages,
                    &by_id,
                ).is_none() {
                    assert(!is_readable_node(metadata@, views(outcomes@), i as int));
                    return false;
                }
                if self.produce_targets(package).is_err() {
                    assert forall|j: int|
                        0 <= j < metadata@.resolve.nodes.len() && is_looked_at(
                            metadata@,
                            j,
                        ) implies #[trigger] is_readable_node(metadata@, views(outcomes@), j) by {
                        if j > i {
                            assert(!is_root_node(metadata@, i as int));
                        }
                    }
                    return true;
                }
            }
            i += 1;
        }
        true
    }

    /// Works out the contexts of all crates of a workspace but the root package, for a
    /// platform with the given attributes; `available` lists the licenses of each package.
    /// Fails where the graph does not hold the root package, where there is no package for a
    /// node, or where the root of a target is outside of its crate. Every declaration that
    /// has to be looked at can be read, and every dependency is a package.
    pub fn produce_crate_contexts(
        &self,
        settings: &RazeSettings,
        metadata: &Metadata,
        attrs: &Vec<PlatformAttr>,
        available: &Vec<Vec<AvailableLicense>>,
    ) -> (contexts: RazeResult<Vec<CrateContext>>)
        requires
            available.len() == metadata.packages.len(),
            plannable(metadata@, all_applicabilities(metadata@.packages, views(attrs@))),
        ensures
            Some(contexts_result(contexts)) == planned_contexts(
                settings@,
                metadata@,
                all_applicabilities(metadata@.packages, views(attrs@)),
                all_licenses(available@),
            ),
    {
        let outcomes = outcomes_for(metadata, attrs);
        proof {
            plan_exists_where_plannable(
                settings@,
                metadata@,
                views(outcomes@),
                all_licenses(available@),
            );
        }
        self.plan_contexts(settings, metadata, &outcomes, available).unwrap()
    }

    /// Works out the contexts of all crates of a workspace but the root package, where every
    /// declaration that has to be looked at can be read and every dependency is a package.
    /// `None` where that is not so.
    pub fn try_produce_crate_contexts(
        &self,
        settings: &RazeSettings,
        metadata: &Metadata,
        attrs: &Vec<PlatformAttr>,
        available: &Vec<Vec<AvailableLicense>>,
    ) -> (contexts: Option<RazeResult<Vec<CrateContext>>>)
        requires
            available.len() == metadata.packages.len(),
        ensures
            optional_contexts(contexts) == planned_contexts(
                settings@,
                metadata@,
                all_applicabilities(metadata@.packages, views(attrs@)),
                all_licenses(available@),
            ),
    {
        let outcomes = outcomes_for(metadata, attrs);
        proof {
            plan_exists_where_plannable(
                settings@,
                metadata@,
                views(outcomes@),
                all_licenses(available@),
            );
        }
        if self.is_plannable(metadata, &outcomes) {
            Some(self.produce_crate_contexts(settings, metadata, attrs, available))
        } else {
            None
        }
    }
}

/// What becomes of each dependency of each package of a workspace.
fn outcomes_for(metadata: &Metadata, attrs: &Vec<PlatformAttr>) -> (outcomes: Vec<
    Vec<Applicability>,
>)
    ensures
        views(outcomes@) == all_applicabilities(metadata@.packages, views(attrs@)),
        outcomes.len() == metadata.packages.len(),
        forall|i: int|
            0 <= i < outcomes.len() ==> (#[trigger] outcomes@[i]).len()
                == metadata.packages@[i].dependencies.len(),
{
    let outcomes = all_applicabilities_of(&metadata.packages, attrs);
    assert(views(outcomes@).len() == metadata@.packages.len());
    assert forall|i: int| 0 <= i < outcomes.len() implies (#[trigger] outcomes@[i]).len()
        == metadata.packages@[i].dependencies.len() by {
        assert(views(outcomes@)[i] == outcomes@[i]@);
        assert(metadata@.packages[i] == metadata.packages@[i]@);
    }
    outcomes
}

/// What is said of a result is said of what succeeded and of what failed, and of what is
/// missing that it is missing.
pub proof fn context_results_keep_success_and_failure(
    context: RazeResult<CrateContext>,
    contexts: RazeResult<Vec<CrateContext>>,
)
    ensures
        context_result(None) is None,
        context matches Ok(value) ==> context_result(Some(context)) == Some(
            Ok::<_, RazeErrView>(value@),
        ),
        context matches Err(error) ==> context_result(Some(context)) == Some(
            Err::<CrateContextView, _>(error@),
        ),
        contexts matches Ok(list) ==> (contexts_result(contexts) matches Ok(shown) && shown.len()
            == list@.len() && forall|i: int|
            0 <= i < shown.len() ==> #[trigger] shown[i] == list@[i]@),
        contexts matches Err(error) ==> contexts_result(contexts) == Err::<
            Seq<CrateContextView>,
            _,
        >(error@),
        optional_contexts(None) is None,
        optional_contexts(Some(contexts)) == Some(contexts_result(contexts)),
{
}

/// The licenses of a package stand where the package does, each in its place.
pub proof fn all_licenses_are_itemwise(available: Seq<Vec<AvailableLicense>>, i: int, k: int)
    requires
        0 <= i < available.len(),
        0 <= k < available[i]@.len(),
    ensures
        all_licenses(available).len() == available.len(),
        all_licenses(available)[i].len() == available[i]@.len(),
        all_licenses(available)[i][k] == available[i]@[k]@,
{
}

} // verus!
