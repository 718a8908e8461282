//! What the planner works out for each crate.

use crate::order::Ordered;
use crate::text::{at_most, str_le, str_le_is_total_order, views};
use vstd::prelude::*;

verus! {

/// A crate that another crate depends on.
#[derive(Debug)]
pub struct BuildDependency {
    pub name: String,
    pub version: String,
}

/// Something that a crate builds, of one kind.
#[derive(Debug)]
pub struct BuildTarget {
    pub name: String,
    /// The path of the root source file, below the directory of the crate.
    pub path: String,
    pub kind: String,
}

/// The licenses of one rating.
#[derive(Debug)]
pub struct LicenseData {
    pub name: String,
    pub rating: String,
}

/// All that is needed to write the build file of one crate.
#[derive(Debug)]
pub struct CrateContext {
    pub pkg_name: String,
    pub pkg_version: String,
    pub licenses: Vec<LicenseData>,
    pub features: Vec<String>,
    pub is_root_dependency: bool,
    pub metadeps: Vec<BuildDependency>,
    pub dependencies: Vec<BuildDependency>,
    pub build_dependencies: Vec<BuildDependency>,
    pub dev_dependencies: Vec<BuildDependency>,
    pub path: String,
    pub build_script_target: Option<BuildTarget>,
    pub targets: Vec<BuildTarget>,
    pub platform_triple: String,
    pub additional_deps: Vec<String>,
    pub additional_flags: Vec<String>,
    pub extra_aliased_targets: Vec<String>,
}

/// What holds for the workspace as a whole.
#[derive(Debug)]
pub struct WorkspaceContext {
    pub workspace_path: String,
    pub platform_triple: String,
    pub gen_workspace_prefix: String,
}

#[verifier::ext_equal]
pub struct BuildDependencyView {
    pub name: Seq<char>,
    pub version: Seq<char>,
}

#[verifier::ext_equal]
pub struct BuildTargetView {
    pub name: Seq<char>,
    pub path: Seq<char>,
    pub kind: Seq<char>,
}

#[verifier::ext_equal]
pub struct LicenseDataView {
    pub name: Seq<char>,
    pub rating: Seq<char>,
}

#[verifier::ext_equal]
pub struct CrateContextView {
    pub pkg_name: Seq<char>,
    pub pkg_version: Seq<char>,
    pub licenses: Seq<LicenseDataView>,
    pub features: Seq<Seq<char>>,
    pub is_root_dependency: bool,
    pub metadeps: Seq<BuildDependencyView>,
    pub dependencies: Seq<BuildDependencyView>,
    pub build_dependencies: Seq<BuildDependencyView>,
    pub dev_dependencies: Seq<BuildDependencyView>,
    pub path: Seq<char>,
    pub build_script_target: Option<BuildTargetView>,
    pub targets: Seq<BuildTargetView>,
    pub platform_triple: Seq<char>,
    pub additional_deps: Seq<Seq<char>>,
    pub additional_flags: Seq<Seq<char>>,
    pub extra_aliased_targets: Seq<Seq<char>>,
}

#[verifier::ext_equal]
pub struct WorkspaceContextView {
    pub workspace_path: Seq<char>,
    pub platform_triple: Seq<char>,
    pub gen_workspace_prefix: Seq<char>,
}

impl View for BuildDependency {
    type V = BuildDependencyView;

    open spec fn view(&self) -> BuildDependencyView {
        BuildDependencyView { name: self.name@, version: self.version@ }
    }
}

impl View for BuildTarget {
    type V = BuildTargetView;

    open spec fn view(&self) -> BuildTargetView {
        BuildTargetView { name: self.name@, path: self.path@, kind: self.kind@ }
    }
}

impl View for LicenseData {
    type V = LicenseDataView;

    open spec fn view(&self) -> LicenseDataView {
        LicenseDataView { name: self.name@, rating: self.rating@ }
    }
}

impl View for CrateContext {
    type V = CrateContextView;

    open spec fn view(&self) -> CrateContextView {
        CrateContextView {
            pkg_name: self.pkg_name@,
            pkg_version: self.pkg_version@,
            licenses: views(self.licenses@),
            features: views(self.features@),
            is_root_dependency: self.is_root_dependency,
            metadeps: views(self.metadeps@),
            dependencies: views(self.dependencies@),
            build_dependencies: views(self.build_dependencies@),
            dev_dependencies: views(self.dev_dependencies@),
            path: self.path@,
            build_script_target: match self.build_script_target {
                Some(target) => Some(target@),
                None => None,
            },
            targets: views(self.targets@),
            platform_triple: self.platform_triple@,
            additional_deps: views(self.additional_deps@),
            additional_flags: views(self.additional_flags@),
            extra_aliased_targets: views(self.extra_aliased_targets@),
        }
    }
}

impl View for WorkspaceContext {
    type V = WorkspaceContextView;

    open spec fn view(&self) -> WorkspaceContextView {
        WorkspaceContextView {
            workspace_path: self.workspace_path@,
            platform_triple: self.platform_triple@,
            gen_workspace_prefix: self.gen_workspace_prefix@,
        }
    }
}

impl Clone for BuildDependency {
    fn clone(&self) -> (copy: Self)
        ensures
            copy == *self,
    {
        BuildDependency { name: self.name.clone(), version: self.version.clone() }
    }
}

impl Clone for BuildTarget {
    fn clone(&self) -> (copy: Self)
        ensures
            copy == *self,
    {
        BuildTarget {
            name: self.name.clone(),
            path: self.path.clone(),
            kind: self.kind.clone(),
        }
    }
}

/// Dependencies are ordered by name, then by version.
pub open spec fn dependency_le(a: BuildDependencyView, b: BuildDependencyView) -> bool {
    if a.name != b.name {
        str_le(a.name, b.name)
    } else {
        str_le(a.version, b.version)
    }
}

/// Targets are ordered by name, then by path, then by kind.
pub open spec fn target_le(a: BuildTargetView, b: BuildTargetView) -> bool {
    if a.name != b.name {
        str_le(a.name, b.name)
    } else if a.path != b.path {
        str_le(a.path, b.path)
    } else {
        str_le(a.kind, b.kind)
    }
}

impl Ordered for BuildDependency {
    open spec fn precedes(a: BuildDependencyView, b: BuildDependencyView) -> bool {
        dependency_le(a, b)
    }

    proof fn order_is_total() {
        str_le_is_total_order();
        let s = |a: Seq<char>, b: Seq<char>| str_le(a, b);
        let leq = |a: BuildDependencyView, b: BuildDependencyView| Self::precedes(a, b);
        assert forall|a: BuildDependencyView| #[trigger] leq(a, a) by {
            assert(s(a.version, a.version));
        }
        assert forall|a: BuildDependencyView, b: BuildDependencyView| #[trigger]
            leq(a, b) && #[trigger] leq(b, a) implies a == b by {
            if a.name != b.name {
                assert(s(a.name, b.name) && s(b.name, a.name));
            } else {
                assert(s(a.version, b.version) && s(b.version, a.version));
            }
        }
        assert forall|a: BuildDependencyView, b: BuildDependencyView, c: BuildDependencyView|
            #[trigger] leq(a, b) && #[trigger] leq(b, c) implies leq(a, c) by {
            if a.name != b.name && b.name != c.name {
                assert(s(a.name, b.name) && s(b.name, c.name));
                if a.name == c.name {
                    assert(s(c.name, b.name));
                }
            } else if a.name == b.name && b.name == c.name {
                assert(s(a.version, b.version) && s(b.version, c.version));
            }
        }
        assert forall|a: BuildDependencyView, b: BuildDependencyView| #[trigger]
            leq(a, b) || #[trigger] leq(b, a) by {
            assert(s(a.name, b.name) || s(b.name, a.name));
            assert(s(a.version, b.version) || s(b.version, a.version));
        }
    }

    fn no_later_than(&self, other: &Self) -> bool {
        if self.name != other.name {
            at_most(self.name.as_str(), other.name.as_str())
        } else {
            at_most(self.version.as_str(), other.version.as_str())
        }
    }
}

impl Ordered for BuildTarget {
    open spec fn precedes(a: BuildTargetView, b: BuildTargetView) -> bool {
        target_le(a, b)
    }

    proof fn order_is_total() {
        str_le_is_total_order();
        let s = |a: Seq<char>, b: Seq<char>| str_le(a, b);
        let leq = |a: BuildTargetView, b: BuildTargetView| Self::precedes(a, b);
        assert forall|a: BuildTargetView| #[trigger] leq(a, a) by {
            assert(s(a.kind, a.kind));
        }
        assert forall|a: BuildTargetView, b: BuildTargetView| #[trigger]
            leq(a, b) && #[trigger] leq(b, a) implies a == b by {
            if a.name != b.name {
                assert(s(a.name, b.name) && s(b.name, a.name));
            } else if a.path != b.path {
                assert(s(a.path, b.path) && s(b.path, a.path));
            } else {
                assert(s(a.kind, b.kind) && s(b.kind, a.kind));
            }
        }
        assert forall|a: BuildTargetView, b: BuildTargetView, c: BuildTargetView| #[trigger]
            leq(a, b) && #[trigger] leq(b, c) implies leq(a, c) by {
            if a.name != b.name && b.name != c.name {
                assert(s(a.name, b.name) && s(b.name, c.name));
                if a.name == c.name {
                    assert(s(c.name, b.name));
                }
            } else if a.name == b.name && b.name == c.name {
                if a.path != b.path && b.path != c.path {
                    assert(s(a.path, b.path) && s(b.path, c.path));
                    if a.path == c.path {
                        assert(s(c.path, b.path));
                    }
                } else if a.path == b.path && b.path == c.path {
                    assert(s(a.kind, b.kind) && s(b.kind, c.kind));
                }
            }
        }
        assert forall|a: BuildTargetView, b: BuildTargetView| #[trigger]
            leq(a, b) || #[trigger] leq(b, a) by {
            assert(s(a.name, b.name) || s(b.name, a.name));
            assert(s(a.path, b.path) || s(b.path, a.path));
            assert(s(a.kind, b.kind) || s(b.kind, a.kind));
        }
    }

    fn no_later_than(&self, other: &Self) -> bool {
        if self.name != other.name {
            at_most(self.name.as_str(), other.name.as_str())
        } else if self.path != other.path {
            at_most(self.path.as_str(), other.path.as_str())
        } else {
            at_most(self.kind.as_str(), other.kind.as_str())
        }
    }
}

/// What is said of a dependency, a target or a license entry is said of each of its fields.
pub proof fn entry_views_show_the_fields(
    dep: BuildDependency,
    target: BuildTarget,
    license: LicenseData,
)
    ensures
        dep@.name == dep.name@,
        dep@.version == dep.version@,
        target@.name == target.name@,
        target@.path == target.path@,
        target@.kind == target.kind@,
        license@.name == license.name@,
        license@.rating == license.rating@,
{
}

/// What is said of a context is said of each of its fields.
pub proof fn context_views_show_the_fields(context: CrateContext)
    ensures
        context@.pkg_name == context.pkg_name@,
        context@.pkg_version == context.pkg_version@,
        context@.is_root_dependency == context.is_root_dependency,
        context@.path == context.path@,
        context@.platform_triple == context.platform_triple@,
        context.build_script_target matches Some(script) ==> context@.build_script_target == Some(
            script@,
        ),
        context.build_script_target is None ==> context@.build_script_target is None,
        context@.licenses.len() == context.licenses@.len(),
        forall|i: int|
            0 <= i < context.licenses@.len() ==> #[trigger] context@.licenses[i]
                == context.licenses@[i]@,
        context@.features.len() == context.features@.len(),
        context@.metadeps.len() == context.metadeps@.len(),
        context@.dependencies.len() == context.dependencies@.len(),
        forall|i: int|
            0 <= i < context.dependencies@.len() ==> #[trigger] context@.dependencies[i]
                == context.dependencies@[i]@,
        context@.build_dependencies.len() == context.build_dependencies@.len(),
        forall|i: int|
            0 <= i < context.build_dependencies@.len() ==> #[trigger] context@.build_dependencies[i]
                == context.build_dependencies@[i]@,
        context@.dev_dependencies.len() == context.dev_dependencies@.len(),
        forall|i: int|
            0 <= i < context.dev_dependencies@.len() ==> #[trigger] context@.dev_dependencies[i]
                == context.dev_dependencies@[i]@,
        context@.targets.len() == context.targets@.len(),
        forall|i: int|
            0 <= i < context.targets@.len() ==> #[trigger] context@.targets[i]
                == context.targets@[i]@,
        context@.additional_deps.len() == context.additional_deps@.len(),
        forall|i: int|
            0 <= i < context.additional_deps@.len() ==> #[trigger] context@.additional_deps[i]
                == context.additional_deps@[i]@,
        context@.additional_flags.len() == context.additional_flags@.len(),
        forall|i: int|
            0 <= i < context.additional_flags@.len() ==> #[trigger] context@.additional_flags[i]
                == context.additional_flags@[i]@,
        context@.extra_aliased_targets.len() == context.extra_aliased_targets@.len(),
        forall|i: int|
            0 <= i < context.extra_aliased_targets@.len()
                ==> #[trigger] context@.extra_aliased_targets[i]
                == context.extra_aliased_targets@[i]@,
{
}

/// What is said of a workspace is said of each of its fields.
pub proof fn workspace_views_show_the_fields(workspace: WorkspaceContext)
    ensures
        workspace@.workspace_path == workspace.workspace_path@,
        workspace@.platform_triple == workspace.platform_triple@,
        workspace@.gen_workspace_prefix == workspace.gen_workspace_prefix@,
{
}

/// Of two dependencies the one with the lesser name comes first; of two with one name, the one
/// with the lesser version. Strings are compared as [`str_le`] compares them.
pub proof fn dependencies_come_by_name_and_version(a: BuildDependencyView, b: BuildDependencyView)
    ensures
        BuildDependency::precedes(a, b) && a.name != b.name ==> str_le(a.name, b.name),
        BuildDependency::precedes(a, b) && a.name == b.name ==> str_le(a.version, b.version),
        !BuildDependency::precedes(a, b) ==> BuildDependency::precedes(b, a) && a != b,
{
    str_le_is_total_order();
    let s = |a: Seq<char>, b: Seq<char>| str_le(a, b);
    assert(s(a.name, b.name) || s(b.name, a.name));
    assert(s(a.version, b.version) || s(b.version, a.version));
    assert(s(a.version, a.version));
}

/// Of two targets the one with the lesser name comes first; of two with one name, the one with
/// the lesser path; of two with one name and path, the one with the lesser kind.
pub proof fn targets_come_by_name_path_and_kind(a: BuildTargetView, b: BuildTargetView)
    ensures
        BuildTarget::precedes(a, b) && a.name != b.name ==> str_le(a.name, b.name),
        BuildTarget::precedes(a, b) && a.name == b.name && a.path != b.path ==> str_le(
            a.path,
            b.path,
        ),
        BuildTarget::precedes(a, b) && a.name == b.name && a.path == b.path ==> str_le(
            a.kind,
            b.kind,
        ),
        !BuildTarget::precedes(a, b) ==> BuildTarget::precedes(b, a) && a != b,
{
    str_le_is_total_order();
    let s = |a: Seq<char>, b: Seq<char>| str_le(a, b);
    assert(s(a.name, b.name) || s(b.name, a.name));
    assert(s(a.path, b.path) || s(b.path, a.path));
    assert(s(a.kind, b.kind) || s(b.kind, a.kind));
    assert(s(a.kind, a.kind));
}

} // verus!
