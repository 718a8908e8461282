//! Where vendored crates lie.

use crate::fetcher::MetadataFetcher;
use crate::metadata::{Metadata, MetadataView, Package, PackageView};
use crate::planner::BuildPlannerImpl;
use crate::text::{full_name, full_name_of, views};
use vstd::prelude::*;
use vstd::string::*;

verus! {

/// The directory of a package in the vendor directory of the workspace.
pub open spec fn vendor_path(package: PackageView) -> Seq<char> {
    "./vendor/"@ + full_name(package.name, package.version) + "/"@
}

/// The directory of each package, in order.
pub open spec fn vendor_paths(metadata: MetadataView) -> Seq<Seq<char>> {
    metadata.packages.map_values(|package: PackageView| vendor_path(package))
}

/// The position of the first `false`, if there is one.
pub open spec fn first_absent(found: Seq<bool>) -> Option<int>
    decreases found.len(),
{
    if found.len() == 0 {
        None
    } else {
        match first_absent(found.drop_last()) {
            Some(at) => Some(at),
            None => if found.last() {
                None
            } else {
                Some(found.len() - 1)
            },
        }
    }
}

/// What is said of a directory that does not exist.
pub open spec fn not_vendored_message(path: Seq<char>) -> Seq<char> {
    "failed to find "@ + path
        + ". Either switch to \"Remote\" genmode, or run `cargo vendor -x` first."@
}

/// What is said of the first package that has no directory; `found` says of each package
/// whether it has one. `None` where all have.
pub open spec fn vendoring_complaint(metadata: MetadataView, found: Seq<bool>) -> Option<
    Seq<char>,
> {
    match first_absent(found) {
        Some(at) => Some(not_vendored_message(vendor_paths(metadata)[at])),
        None => None,
    }
}

/// The directory of a package in the vendor directory of the workspace.
pub fn vendor_path_of(package: &Package) -> (path: String)
    ensures
        path@ == vendor_path(package@),
{
    let full = full_name_of(package.name.as_str(), package.version.as_str());
    "./vendor/".to_owned().concat(full.as_str()).concat("/")
}

/// The directory of each package, in order.
pub fn vendor_paths_of(metadata: &Metadata) -> (paths: Vec<String>)
    ensures
        views(paths@) == vendor_paths(metadata@),
{
    let mut paths: Vec<String> = Vec::new();
    let mut i: usize = 0;
    while i < metadata.packages.len()
        invariant
            i <= metadata.packages.len(),
            paths.len() == i,
            forall|j: int| 0 <= j < i ==> (#[trigger] paths@[j])@ == vendor_paths(metadata@)[j],
        decreases metadata.packages.len() - i,
    {
        paths.push(vendor_path_of(&metadata.packages[i]));
        assert(metadata@.packages[i as int] == metadata.packages@[i as int]@);
        i += 1;
    }
    assert(views(paths@) =~= vendor_paths(metadata@));
    paths
}

proof fn lemma_first_absent(found: Seq<bool>, n: int)
    requires
        0 <= n <= found.len(),
        forall|i: int| 0 <= i < n ==> #[trigger] found[i],
    ensures
        n == found.len() ==> first_absent(found) is None,
        n < found.len() && !found[n] ==> first_absent(found) == Some(n),
    decreases found.len(),
{
    if found.len() > 0 {
        let shorter = found.drop_last();
        if n < found.len() {
            lemma_first_absent(shorter, n);
        } else {
            lemma_first_absent(shorter, n - 1);
        }
    }
}

impl<F: MetadataFetcher> BuildPlannerImpl<F> {
    /// Complains of the first package that has no directory in the vendor directory; `found`
    /// says of each package whether it has one.
    pub fn assert_crates_vendored(&self, metadata: &Metadata, found: &Vec<bool>) -> (complaint:
        Option<String>)
        requires
            found.len() == metadata.packages.len(),
        ensures
            match complaint {
                Some(complaint) => vendoring_complaint(metadata@, found@) == Some(complaint@),
                None => vendoring_complaint(metadata@, found@) is None,
            },
    {
        let mut i: usize = 0;
        while i < metadata.packages.len()
            invariant
                i <= metadata.packages.len(),
                found.len() == metadata.packages.len(),
                forall|j: int| 0 <= j < i ==> #[trigger] found@[j],
            decreases metadata.packages.len() - i,
        {
            if !found[i] {
                proof {
                    lemma_first_absent(found@, i as int);
                    assert(metadata@.packages[i as int] == metadata.packages@[i as int]@);
                }
                let path = vendor_path_of(&metadata.packages[i]);
                return Some(
                    "failed to find ".to_owned().concat(path.as_str()).concat(
                        ". Either switch to \"Remote\" genmode, or run `cargo vendor -x` first.",
                    ),
                );
            }
            i += 1;
        }
        proof {
            lemma_first_absent(found@, i as int);
        }
        None
    }
}

// ---------------------------------------------------------------------------
// Laws
// ---------------------------------------------------------------------------

/// The directory of a package lies in `./vendor/` and is named by the name of the package, a
/// hyphen and its version; a slash ends it.
pub proof fn vendor_path_reads_as_name_and_version(package: PackageView)
    ensures
        ({
            let path = vendor_path(package);
            let name_end = 9 + package.name.len() as int;
            let version_end = name_end + 1 + package.version.len() as int;
            &&& path.len() == version_end + 1
            &&& path.take(9) == "./vendor/"@
            &&& path.subrange(9, name_end) == package.name
            &&& path[name_end] == '-'
            &&& path.subrange(name_end + 1, version_end) == package.version
            &&& path.last() == '/'
        }),
{
    reveal_strlit("./vendor/");
    reveal_strlit("-");
    reveal_strlit("/");
    let path = vendor_path(package);
    let name_end = 9 + package.name.len() as int;
    let version_end = name_end + 1 + package.version.len() as int;
    assert("./vendor/"@.len() == 9);
    assert(path.take(9) =~= "./vendor/"@);
    assert(path.subrange(9, name_end) =~= package.name);
    assert(path.subrange(name_end + 1, version_end) =~= package.version);
}

/// Each package has a directory, which stands where the package does.
pub proof fn vendor_paths_stand_where_the_packages_do(metadata: MetadataView, i: int)
    requires
        0 <= i < metadata.packages.len(),
    ensures
        vendor_paths(metadata).len() == metadata.packages.len(),
        vendor_paths(metadata)[i] == vendor_path(metadata.packages[i]),
{
}

/// Nothing is said where every package was found. Where one was not, it is the first such
/// package whose directory is named.
pub proof fn the_first_absent_package_is_named(metadata: MetadataView, found: Seq<bool>, at: int)
    requires
        found.len() == metadata.packages.len(),
    ensures
        vendoring_complaint(metadata, found) is None <==> forall|i: int|
            0 <= i < found.len() ==> #[trigger] found[i],
        0 <= at < found.len() && !found[at] && (forall|i: int| 0 <= i < at ==> #[trigger] found[i])
            ==> vendoring_complaint(metadata, found) == Some(
            "failed to find ./vendor/"@ + metadata.packages[at].name + "-"@
                + metadata.packages[at].version
                + "/. Either switch to \"Remote\" genmode, or run `cargo vendor -x` first."@,
        ),
{
    if forall|i: int| 0 <= i < found.len() ==> #[trigger] found[i] {
        lemma_first_absent(found, found.len() as int);
    } else {
        let i = choose|i: int| 0 <= i < found.len() && !#[trigger] found[i];
        lemma_some_absent(found, i);
    }
    if 0 <= at < found.len() && !found[at] && (forall|i: int| 0 <= i < at ==> #[trigger] found[i]) {
        lemma_first_absent(found, at);
        let package = metadata.packages[at];
        reveal_strlit("failed to find ");
        reveal_strlit("./vendor/");
        reveal_strlit("failed to find ./vendor/");
        reveal_strlit("/");
        reveal_strlit(". Either switch to \"Remote\" genmode, or run `cargo vendor -x` first.");
        reveal_strlit("/. Either switch to \"Remote\" genmode, or run `cargo vendor -x` first.");
        assert("failed to find ./vendor/"@ =~= "failed to find "@ + "./vendor/"@);
        assert("/. Either switch to \"Remote\" genmode, or run `cargo vendor -x` first."@ =~= "/"@
            + ". Either switch to \"Remote\" genmode, or run `cargo vendor -x` first."@);
        assert(not_vendored_message(vendor_path(package)) =~= "failed to find ./vendor/"@
            + package.name + "-"@ + package.version
            + "/. Either switch to \"Remote\" genmode, or run `cargo vendor -x` first."@);
    }
}

proof fn lemma_some_absent(found: Seq<bool>, i: int)
    requires
        0 <= i < found.len(),
        !found[i],
    ensures
        first_absent(found) is Some,
    decreases found.len(),
{
    if i < found.len() - 1 {
        lemma_some_absent(found.drop_last(), i);
    }
}

} // verus!
