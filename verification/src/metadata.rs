//! What is known of a workspace: its packages and how their dependencies were resolved.

use crate::text::views;
use vstd::prelude::*;

verus! {

/// The identity of a package.
pub type PackageId = String;

/// The packages of a workspace and their resolution.
pub struct Metadata {
    pub packages: Vec<Package>,
    pub resolve: Resolve,
}

/// One package.
pub struct Package {
    pub name: String,
    pub version: String,
    pub id: PackageId,
    pub license: Option<String>,
    pub dependencies: Vec<Dependency>,
    pub targets: Vec<Target>,
}

/// A dependency that a package declares.
pub struct Dependency {
    pub name: String,
    /// `None` and `"normal"` are ordinary dependencies; `"dev"` and `"build"` are the others.
    pub kind: Option<String>,
    /// The platforms that need the dependency, as a cfg expression.
    pub target: Option<String>,
}

/// Something that a package builds.
pub struct Target {
    pub name: String,
    pub kind: Vec<String>,
    pub src_path: String,
}

/// The dependency graph.
pub struct Resolve {
    pub nodes: Vec<ResolveNode>,
    pub root: PackageId,
}

/// A package of the graph, with the packages that it depends on.
pub struct ResolveNode {
    pub id: PackageId,
    pub dependencies: Vec<PackageId>,
}

#[verifier::ext_equal]
pub struct MetadataView {
    pub packages: Seq<PackageView>,
    pub resolve: ResolveView,
}

#[verifier::ext_equal]
pub struct PackageView {
    pub name: Seq<char>,
    pub version: Seq<char>,
    pub id: Seq<char>,
    pub license: Option<Seq<char>>,
    pub dependencies: Seq<DependencyView>,
    pub targets: Seq<TargetView>,
}

#[verifier::ext_equal]
pub struct DependencyView {
    pub name: Seq<char>,
    pub kind: Option<Seq<char>>,
    pub target: Option<Seq<char>>,
}

#[verifier::ext_equal]
pub struct TargetView {
    pub name: Seq<char>,
    pub kind: Seq<Seq<char>>,
    pub src_path: Seq<char>,
}

#[verifier::ext_equal]
pub struct ResolveView {
    pub nodes: Seq<ResolveNodeView>,
    pub root: Seq<char>,
}

#[verifier::ext_equal]
pub struct ResolveNodeView {
    pub id: Seq<char>,
    pub dependencies: Seq<Seq<char>>,
}

/// The characters of a string that may be missing.
pub open spec fn optional_text(s: Option<String>) -> Option<Seq<char>> {
    match s {
        Some(s) => Some(s@),
        None => None,
    }
}

impl View for Metadata {
    type V = MetadataView;

    open spec fn view(&self) -> MetadataView {
        MetadataView { packages: views(self.packages@), resolve: self.resolve@ }
    }
}

impl View for Package {
    type V = PackageView;

    open spec fn view(&self) -> PackageView {
        PackageView {
            name: self.name@,
            version: self.version@,
            id: self.id@,
            license: optional_text(self.license),
            dependencies: views(self.dependencies@),
            targets: views(self.targets@),
        }
    }
}

impl View for Dependency {
    type V = DependencyView;

    open spec fn view(&self) -> DependencyView {
        DependencyView {
            name: self.name@,
            kind: optional_text(self.kind),
            target: optional_text(self.target),
        }
    }
}

impl View for Target {
    type V = TargetView;

    open spec fn view(&self) -> TargetView {
        TargetView { name: self.name@, kind: views(self.kind@), src_path: self.src_path@ }
    }
}

impl View for Resolve {
    type V = ResolveView;

    open spec fn view(&self) -> ResolveView {
        ResolveView { nodes: views(self.nodes@), root: self.root@ }
    }
}

impl View for ResolveNode {
    type V = ResolveNodeView;

    open spec fn view(&self) -> ResolveNodeView {
        ResolveNodeView { id: self.id@, dependencies: views(self.dependencies@) }
    }
}

/// What is said of a package is said of each of its fields.
pub proof fn package_views_show_the_fields(package: Package)
    ensures
        package@.name == package.name@,
        package@.version == package.version@,
        package@.id == package.id@,
        package.license matches Some(license) ==> package@.license == Some(license@),
        package.license is None ==> package@.license is None,
        package@.dependencies.len() == package.dependencies@.len(),
        forall|i: int|
            0 <= i < package.dependencies@.len() ==> #[trigger] package@.dependencies[i]
                == package.dependencies@[i]@,
        package@.targets.len() == package.targets@.len(),
        forall|i: int|
            0 <= i < package.targets@.len() ==> #[trigger] package@.targets[i]
                == package.targets@[i]@,
{
}

/// What is said of a declared dependency is said of each of its fields.
pub proof fn dependency_views_show_the_fields(dep: Dependency)
    ensures
        dep@.name == dep.name@,
        dep.kind matches Some(kind) ==> dep@.kind == Some(kind@),
        dep.kind is None ==> dep@.kind is None,
        dep.target matches Some(target) ==> dep@.target == Some(target@),
        dep.target is None ==> dep@.target is None,
{
}

/// What is said of a target is said of each of its fields.
pub proof fn target_views_show_the_fields(target: Target)
    ensures
        target@.name == target.name@,
        target@.src_path == target.src_path@,
        target@.kind.len() == target.kind@.len(),
        forall|i: int| 0 <= i < target.kind@.len() ==> #[trigger] target@.kind[i] == target.kind@[i]@,
{
}

/// What is said of a workspace is said of its packages, its nodes and its root, each in its
/// place.
pub proof fn metadata_views_show_the_fields(metadata: Metadata)
    ensures
        metadata@.packages.len() == metadata.packages@.len(),
        forall|i: int|
            0 <= i < metadata.packages@.len() ==> #[trigger] metadata@.packages[i]
                == metadata.packages@[i]@,
        metadata@.resolve.root == metadata.resolve.root@,
        metadata@.resolve.nodes.len() == metadata.resolve.nodes@.len(),
        forall|i: int|
            0 <= i < metadata.resolve.nodes@.len() ==> (#[trigger] metadata@.resolve.nodes[i]).id
                == metadata.resolve.nodes@[i].id@,
        forall|i: int|
            0 <= i < metadata.resolve.nodes@.len() ==> (
            #[trigger] metadata@.resolve.nodes[i]).dependencies.len()
                == metadata.resolve.nodes@[i].dependencies@.len(),
        forall|i: int, k: int|
            0 <= i < metadata.resolve.nodes@.len() && 0 <= k
                < metadata.resolve.nodes@[i].dependencies@.len()
                ==> #[trigger] metadata@.resolve.nodes[i].dependencies[k]
                == metadata.resolve.nodes@[i].dependencies@[k]@,
{
}

} // verus!
