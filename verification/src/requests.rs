//! Which license expressions a plan has to have looked up.

use crate::contexts::{
    contexts_up_to, is_looked_at, is_root_node, lemma_contexts_up_to, lemma_no_node_missing,
    node_package, planned_contexts,
};
use crate::dependencies::{indexes, package_index, package_index_finds, packages_by_id};
use crate::fetcher::MetadataFetcher;
use crate::graph::{checked_root_dependencies, missing_nodes};
use crate::license::{license_expression, AvailableLicenseView};
use crate::metadata::{optional_text, Metadata, MetadataView};
use crate::planner::BuildPlannerImpl;
use crate::platform::Applicability;
use crate::settings::RazeSettingsView;
use crate::string_map::StringMap;
use crate::targets::package_targets;
use vstd::prelude::*;

verus! {

/// Whether a node comes to have a context, if it can be read: it is looked at, and its own
/// targets are in its crate.
pub open spec fn gets_context(metadata: MetadataView, k: int) -> bool {
    is_looked_at(metadata, k) && package_targets(node_package(metadata, k)) is Ok
}

/// Whether the licenses of a package are asked for: it is that of one of the first `n` nodes,
/// and that node comes to have a context.
pub open spec fn is_asked_for_up_to(metadata: MetadataView, at: int, n: nat) -> bool {
    exists|k: int|
        0 <= k < n && #[trigger] gets_context(metadata, k) && package_index(
            metadata.packages,
            metadata.resolve.nodes[k].id,
        ) == Some(at)
}

/// Whether the licenses of a package are asked for.
pub open spec fn is_asked_for(metadata: MetadataView, at: int) -> bool {
    is_asked_for_up_to(metadata, at, metadata.resolve.nodes.len())
}

/// The license expression of each package whose licenses are asked for; `None` for the others.
pub open spec fn license_requests(metadata: MetadataView) -> Seq<Option<Seq<char>>> {
    Seq::new(
        metadata.packages.len(),
        |at: int|
            if is_asked_for(metadata, at) {
                Some(license_expression(metadata.packages[at]))
            } else {
                None
            },
    )
}

/// The texts of a list of strings that may be missing.
pub open spec fn optional_texts(texts: Seq<Option<String>>) -> Seq<Option<Seq<char>>> {
    Seq::new(texts.len(), |i: int| optional_text(texts[i]))
}

proof fn lemma_same_licenses(
    settings: RazeSettingsView,
    metadata: MetadataView,
    root_deps: Seq<Seq<char>>,
    outcomes: Seq<Seq<Applicability>>,
    left: Seq<Seq<AvailableLicenseView>>,
    right: Seq<Seq<AvailableLicenseView>>,
    n: nat,
)
    requires
        n <= metadata.resolve.nodes.len(),
        missing_nodes(metadata).len() == 0,
        forall|at: int| #[trigger] is_asked_for(metadata, at) ==> left[at] == right[at],
    ensures
        contexts_up_to(settings, metadata, root_deps, outcomes, left, n) == contexts_up_to(
            settings,
            metadata,
            root_deps,
            outcomes,
            right,
            n,
        ),
    decreases n,
{
    if n > 0 {
        let last = n - 1;
        lemma_same_licenses(
            settings,
            metadata,
            root_deps,
            outcomes,
            left,
            right,
            last as nat,
        );
        lemma_contexts_up_to(settings, metadata, root_deps, outcomes, left, last as nat);
        lemma_no_node_missing(metadata, last);
        let at = package_index(metadata.packages, metadata.resolve.nodes[last].id)->0;
        if contexts_up_to(settings, metadata, root_deps, outcomes, left, last as nat) matches Some(
            Ok(_),
        ) && !is_root_node(metadata, last) && package_targets(node_package(metadata, last)) is Ok {
            assert(gets_context(metadata, last));
            assert(is_asked_for(metadata, at));
        }
    }
}

/// A plan depends on no licenses but those that are asked for.
pub proof fn plan_depends_on_requested_licenses(
    settings: RazeSettingsView,
    metadata: MetadataView,
    outcomes: Seq<Seq<Applicability>>,
    left: Seq<Seq<AvailableLicenseView>>,
    right: Seq<Seq<AvailableLicenseView>>,
)
    requires
        forall|at: int| #[trigger] is_asked_for(metadata, at) ==> left[at] == right[at],
    ensures
        planned_contexts(settings, metadata, outcomes, left) == planned_contexts(
            settings,
            metadata,
            outcomes,
            right,
        ),
{
    if checked_root_dependencies(metadata) is Ok {
        lemma_same_licenses(
            settings,
            metadata,
            checked_root_dependencies(metadata)->Ok_0,
            outcomes,
            left,
            right,
            metadata.resolve.nodes.len(),
        );
    }
}

impl<F: MetadataFetcher> BuildPlannerImpl<F> {
    /// Says of each package whether its licenses are asked for.
    fn asked_packages(&self, metadata: &Metadata, by_id: &StringMap<usize>) -> (asked: Vec<bool>)
        requires
            missing_nodes(metadata@).len() == 0,
            indexes(by_id@, metadata@.packages),
        ensures
            asked.len() == metadata.packages.len(),
            forall|at: int|
                0 <= at < asked.len() ==> #[trigger] asked@[at] == is_asked_for(metadata@, at),
    {
        let mut asked: Vec<bool> = Vec::new();
        while asked.len() < metadata.packages.len()
            invariant
                asked.len() <= metadata.packages.len(),
                forall|at: int| 0 <= at < asked.len() ==> !#[trigger] asked@[at],
            decreases metadata.packages.len() - asked.len(),
        {
            asked.push(false);
        }
        let mut k: usize = 0;
        while k < metadata.resolve.nodes.len()
            invariant
                k <= metadata.resolve.nodes.len(),
                missing_nodes(metadata@).len() == 0,
                indexes(by_id@, metadata@.packages),
                asked.len() == metadata.packages.len(),
                forall|j: int|
                    0 <= j < k && !#[trigger] is_root_node(metadata@, j) ==> package_targets(
                        node_package(metadata@, j),
                    ) is Ok,
                forall|at: int|
                    0 <= at < asked.len() ==> #[trigger] asked@[at] == is_asked_for_up_to(
                        metadata@,
                        at,
                        k as nat,
                    ),
            decreases metadata.resolve.nodes.len() - k,
        {
            let node = &metadata.resolve.nodes[k];
            proof {
                assert(metadata@.resolve.nodes[k as int] == node@);
                lemma_no_node_missing(metadata@, k as int);
                package_index_finds(metadata@.packages, node@.id);
            }
            let found = by_id.get(&node.id);
            assert(found is Some);
            let at: usize = *found.unwrap();
            let package = &metadata.packages[at];
            assert(node_package(metadata@, k as int) == package@);
            let ghost before = asked@;
            if package.id != metadata.resolve.root {
                assert(is_looked_at(metadata@, k as int));
                if self.produce_targets(package).is_err() {
                    assert forall|other: int| 0 <= other < asked.len() implies #[trigger]
                        asked@[other] == is_asked_for(metadata@, other) by {
                        assert forall|j: int| k <= j implies !#[trigger] gets_context(
                            metadata@,
                            j,
                        ) by {
                            assert(!is_root_node(metadata@, k as int));
                        }
                    }
                    return asked;
                }
                asked[at] = true;
                assert(gets_context(metadata@, k as int));
            }
            proof {
                assert forall|other: int| 0 <= other < asked.len() implies #[trigger] asked@[other]
                    == is_asked_for_up_to(metadata@, other, (k + 1) as nat) by {
                    assert(before[other] == is_asked_for_up_to(metadata@, other, k as nat));
                    if is_asked_for_up_to(metadata@, other, k as nat) {
                        let j = choose|j: int|
                            0 <= j < k && #[trigger] gets_context(metadata@, j) && package_index(
                                metadata@.packages,
                                metadata@.resolve.nodes[j].id,
                            ) == Some(other);
                        assert(gets_context(metadata@, j));
                    }
                }
            }
            k += 1;
        }
        asked
    }

    /// The license expression of each package whose licenses a plan needs; `None` for the
    /// others.
    pub fn request_licenses(&self, metadata: &Metadata) -> (requests: Vec<Option<String>>)
        requires
            checked_root_dependencies(metadata@) is Ok,
        ensures
            optional_texts(requests@) == license_requests(metadata@),
    {
        let by_id = packages_by_id(&metadata.packages);
        let asked = self.asked_packages(metadata, &by_id);
        let mut requests: Vec<Option<String>> = Vec::new();
        let mut i: usize = 0;
        while i < metadata.packages.len()
            invariant
                i <= metadata.packages.len(),
                asked.len() == metadata.packages.len(),
                forall|at: int|
                    0 <= at < asked.len() ==> #[trigger] asked@[at] == is_asked_for(metadata@, at),
                requests.len() == i,
                forall|at: int|
                    0 <= at < i ==> optional_text(#[trigger] requests@[at]) == license_requests(
                        metadata@,
                    )[at],
            decreases metadata.packages.len() - i,
        {
            assert(metadata@.packages[i as int] == metadata.packages@[i as int]@);
            if asked[i] {
                match &metadata.packages[i].license {
                    Some(expression) => requests.push(Some(expression.clone())),
                    None => requests.push(Some(String::new())),
                }
            } else {
                requests.push(None);
            }
            i += 1;
        }
        assert(optional_texts(requests@) =~= license_requests(metadata@));
        requests
    }
}

/// The license expression of a package is asked for exactly where the package is that of a node
/// other than the root and neither that node nor any before it, but for the root, has a target
/// outside of its crate. What is asked for is the expression of the package, or an empty one
/// where it has none.
pub proof fn licenses_are_requested_up_to_the_first_error(metadata: MetadataView, at: int)
    requires
        checked_root_dependencies(metadata) is Ok,
        0 <= at < metadata.packages.len(),
    ensures
        license_requests(metadata).len() == metadata.packages.len(),
        license_requests(metadata)[at] is Some <==> exists|k: int|
            0 <= k < metadata.resolve.nodes.len() && (#[trigger] metadata.resolve.nodes[k]).id
                != metadata.resolve.root && package_index(
                metadata.packages,
                metadata.resolve.nodes[k].id,
            ) == Some(at) && (forall|i: int|
                0 <= i <= k && (#[trigger] metadata.resolve.nodes[i]).id != metadata.resolve.root
                    ==> package_targets(
                    metadata.packages[package_index(
                        metadata.packages,
                        metadata.resolve.nodes[i].id,
                    )->0],
                ) is Ok),
        license_requests(metadata)[at] matches Some(text) ==> (match metadata.packages[at].license {
            Some(expression) => text == expression,
            None => text.len() == 0,
        }),
{
    let nodes = metadata.resolve.nodes;
    assert forall|i: int| 0 <= i < nodes.len() implies (is_root_node(metadata, i) <==> (
    #[trigger] nodes[i]).id == metadata.resolve.root) by {
        lemma_no_node_missing(metadata, i);
        package_index_finds(metadata.packages, nodes[i].id);
    }
    if is_asked_for(metadata, at) {
        let k = choose|k: int|
            0 <= k < nodes.len() && #[trigger] gets_context(metadata, k) && package_index(
                metadata.packages,
                nodes[k].id,
            ) == Some(at);
        assert forall|i: int|
            0 <= i <= k && (#[trigger] nodes[i]).id != metadata.resolve.root implies package_targets(
            metadata.packages[package_index(metadata.packages, nodes[i].id)->0],
        ) is Ok by {
            assert(!is_root_node(metadata, i));
            let package = node_package(metadata, i);
        }
        assert(nodes[k].id != metadata.resolve.root);
    }
    if exists|k: int|
        0 <= k < nodes.len() && (#[trigger] nodes[k]).id != metadata.resolve.root && package_index(
            metadata.packages,
            nodes[k].id,
        ) == Some(at) && (forall|i: int|
            0 <= i <= k && (#[trigger] nodes[i]).id != metadata.resolve.root ==> package_targets(
                metadata.packages[package_index(metadata.packages, nodes[i].id)->0],
            ) is Ok) {
        let k = choose|k: int|
            0 <= k < nodes.len() && (#[trigger] nodes[k]).id != metadata.resolve.root
                && package_index(metadata.packages, nodes[k].id) == Some(at) && (forall|i: int|
                0 <= i <= k && (#[trigger] nodes[i]).id != metadata.resolve.root
                    ==> package_targets(
                    metadata.packages[package_index(metadata.packages, nodes[i].id)->0],
                ) is Ok);
        assert forall|i: int|
            0 <= i <= k && !#[trigger] is_root_node(metadata, i) implies package_targets(
            node_package(metadata, i),
        ) is Ok by {
            assert(nodes[i].id != metadata.resolve.root);
        }
        assert(is_root_node(metadata, k) <==> nodes[k].id == metadata.resolve.root);
        assert(gets_context(metadata, k));
    }
}

/// The texts of a list stand where the strings do, and are missing where they are.
pub proof fn optional_texts_are_itemwise(texts: Seq<Option<String>>, i: int)
    requires
        0 <= i < texts.len(),
    ensures
        optional_texts(texts).len() == texts.len(),
        texts[i] matches Some(text) ==> optional_texts(texts)[i] == Some(text@),
        texts[i] is None ==> optional_texts(texts)[i] is None,
{
}

} // verus!
