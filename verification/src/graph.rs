//! Checks on the dependency graph as a whole.

use crate::dependencies::{indexes, package_index, package_index_finds, packages_by_id};
use crate::error::{build_planner_err, planner_error, RazeErrView, RazeResult};
use crate::fetcher::MetadataFetcher;
use crate::metadata::{Metadata, MetadataView, PackageId, ResolveNodeView};
use crate::planner::BuildPlannerImpl;
use crate::string_map::StringMap;
use crate::text::{
    copy_of, debug_list, debug_list_of, lemma_filter_source, lemma_filter_take, views,
};
use vstd::prelude::*;
use vstd::string::*;

verus! {

/// The position of the first node with the given identity, if there is one.
pub open spec fn first_node(nodes: Seq<ResolveNodeView>, id: Seq<char>) -> Option<int>
    decreases nodes.len(),
{
    if nodes.len() == 0 {
        None
    } else {
        match first_node(nodes.drop_last(), id) {
            Some(at) => Some(at),
            None => if nodes.last().id == id {
                Some(nodes.len() - 1)
            } else {
                None
            },
        }
    }
}

/// What the root package depends on, or the error where the graph does not hold it.
pub open spec fn root_dependencies(metadata: MetadataView) -> Result<Seq<Seq<char>>, RazeErrView> {
    match first_node(metadata.resolve.nodes, metadata.resolve.root) {
        Some(at) => Ok(metadata.resolve.nodes[at].dependencies),
        None => Err(planner_error("Finding root crate details"@)),
    }
}

/// The identities of the nodes for which there is no package, in order.
pub open spec fn missing_nodes(metadata: MetadataView) -> Seq<Seq<char>> {
    metadata.resolve.nodes.map_values(|node: ResolveNodeView| node.id).filter(
        |id: Seq<char>| package_index(metadata.packages, id) is None,
    )
}

/// The error where packages are missing.
pub open spec fn packages_missing(missing: Seq<Seq<char>>) -> RazeErrView {
    planner_error("Metadata.packages list was missing keys: "@ + debug_list(missing))
}

/// What the root package depends on, provided that the graph holds it and that there is a
/// package for every node.
pub open spec fn checked_root_dependencies(metadata: MetadataView) -> Result<
    Seq<Seq<char>>,
    RazeErrView,
> {
    match root_dependencies(metadata) {
        Err(error) => Err(error),
        Ok(deps) => if missing_nodes(metadata).len() > 0 {
            Err(packages_missing(missing_nodes(metadata)))
        } else {
            Ok(deps)
        },
    }
}

/// The view of a list of identities that may have failed.
pub open spec fn ids_result(ids: RazeResult<Vec<PackageId>>) -> Result<
    Seq<Seq<char>>,
    RazeErrView,
> {
    match ids {
        Ok(ids) => Ok(views(ids@)),
        Err(error) => Err(error@),
    }
}

proof fn lemma_first_node(nodes: Seq<ResolveNodeView>, id: Seq<char>, at: int)
    requires
        0 <= at < nodes.len(),
        nodes[at].id == id,
        forall|i: int| 0 <= i < at ==> (#[trigger] nodes[i]).id != id,
    ensures
        first_node(nodes, id) == Some(at),
    decreases nodes.len(),
{
    let shorter = nodes.drop_last();
    assert(forall|i: int| 0 <= i < shorter.len() ==> nodes[i] == #[trigger] shorter[i]);
    if at < nodes.len() - 1 {
        lemma_first_node(shorter, id, at);
    } else {
        lemma_no_node(shorter, id);
    }
}

proof fn lemma_no_node(nodes: Seq<ResolveNodeView>, id: Seq<char>)
    requires
        forall|i: int| 0 <= i < nodes.len() ==> (#[trigger] nodes[i]).id != id,
    ensures
        first_node(nodes, id) is None,
    decreases nodes.len(),
{
    if nodes.len() > 0 {
        let shorter = nodes.drop_last();
        assert(forall|i: int| 0 <= i < shorter.len() ==> nodes[i] == #[trigger] shorter[i]);
        lemma_no_node(shorter, id);
    }
}

/// The identities of the nodes for which there is no package.
fn missing_nodes_of(metadata: &Metadata, by_id: &StringMap<usize>) -> (missing: Vec<PackageId>)
    requires
        indexes(by_id@, metadata@.packages),
    ensures
        views(missing@) == missing_nodes(metadata@),
{
    let ghost ids = metadata@.resolve.nodes.map_values(|node: ResolveNodeView| node.id);
    let ghost unknown = |id: Seq<char>| package_index(metadata@.packages, id) is None;
    let mut missing: Vec<PackageId> = Vec::new();
    let mut i: usize = 0;
    proof {
        reveal(Seq::filter);
        assert(views(missing@) =~= ids.take(0).filter(unknown));
    }
    while i < metadata.resolve.nodes.len()
        invariant
            i <= metadata.resolve.nodes.len(),
            indexes(by_id@, metadata@.packages),
            ids == metadata@.resolve.nodes.map_values(|node: ResolveNodeView| node.id),
            unknown == |id: Seq<char>| package_index(metadata@.packages, id) is None,
            views(missing@) == ids.take(i as int).filter(unknown),
        decreases metadata.resolve.nodes.len() - i,
    {
        let ghost before = views(missing@);
        let id = &metadata.resolve.nodes[i].id;
        proof {
            assert(metadata@.resolve.nodes[i as int] == metadata.resolve.nodes@[i as int]@);
            lemma_filter_take(ids, unknown, i as int);
            let index = package_index(metadata@.packages, id@);
        }
        if by_id.get(id).is_none() {
            missing.push(id.clone());
            assert(views(missing@) =~= before.push(ids[i as int]));
        }
        i += 1;
    }
    assert(ids.take(i as int) =~= ids);
    missing
}

impl<F: MetadataFetcher> BuildPlannerImpl<F> {
    /// What the root package depends on. Fails where the graph does not hold it.
    pub fn get_root_deps(&self, metadata: &Metadata) -> (deps: RazeResult<Vec<PackageId>>)
        ensures
            ids_result(deps) == root_dependencies(metadata@),
    {
        let mut i: usize = 0;
        while i < metadata.resolve.nodes.len()
            invariant
                i <= metadata.resolve.nodes.len(),
                forall|j: int|
                    0 <= j < i ==> (#[trigger] metadata@.resolve.nodes[j]).id
                        != metadata@.resolve.root,
            decreases metadata.resolve.nodes.len() - i,
        {
            let node = &metadata.resolve.nodes[i];
            assert(metadata@.resolve.nodes[i as int] == node@);
            if node.id == metadata.resolve.root {
                proof {
                    lemma_first_node(metadata@.resolve.nodes, metadata@.resolve.root, i as int);
                }
                return Ok(copy_of(&node.dependencies));
            }
            i += 1;
        }
        proof {
            lemma_no_node(metadata@.resolve.nodes, metadata@.resolve.root);
        }
        Err(build_planner_err("Finding root crate details"))
    }

    /// What the root package depends on. Fails where the graph does not hold it, or holds a
    /// node for which there is no package.
    pub fn check_graph(&self, metadata: &Metadata) -> (deps: RazeResult<Vec<PackageId>>)
        ensures
            ids_result(deps) == checked_root_dependencies(metadata@),
    {
        match self.get_root_deps(metadata) {
            Err(error) => Err(error),
            Ok(deps) => {
                let missing = missing_nodes_of(metadata, &packages_by_id(&metadata.packages));
                if missing.len() > 0 {
                    let message = "Metadata.packages list was missing keys: ".to_owned().concat(
                        debug_list_of(&missing).as_str(),
                    );
                    Err(build_planner_err(message.as_str()))
                } else {
                    Ok(deps)
                }
            },
        }
    }
}

// ---------------------------------------------------------------------------
// Laws
// ---------------------------------------------------------------------------

/// The root package depends on what the first node with its identity depends on. Where no node
/// has its identity, that is the error.
pub proof fn root_dependencies_are_those_of_the_first_root_node(metadata: MetadataView, r: int)
    ensures
        0 <= r < metadata.resolve.nodes.len() && metadata.resolve.nodes[r].id
            == metadata.resolve.root && (forall|i: int|
            0 <= i < r ==> (#[trigger] metadata.resolve.nodes[i]).id != metadata.resolve.root)
            ==> root_dependencies(metadata) == Ok::<_, RazeErrView>(
            metadata.resolve.nodes[r].dependencies,
        ),
        (forall|i: int|
            0 <= i < metadata.resolve.nodes.len() ==> (#[trigger] metadata.resolve.nodes[i]).id
                != metadata.resolve.root) ==> (root_dependencies(metadata) matches Err(error)
            && error.component == "BuildPlanner"@ && error.message
            == "Finding root crate details"@),
{
    let nodes = metadata.resolve.nodes;
    let root = metadata.resolve.root;
    if 0 <= r < nodes.len() && nodes[r].id == root && (forall|i: int|
        0 <= i < r ==> (#[trigger] nodes[i]).id != root) {
        lemma_first_node(nodes, root, r);
    }
    if forall|i: int| 0 <= i < nodes.len() ==> (#[trigger] nodes[i]).id != root {
        lemma_no_node(nodes, root);
    }
}

/// Nodes are missing one by one, in order: of two rows of nodes those of the one and then those
/// of the other. A single node is missing exactly where no package has its identity.
pub proof fn nodes_are_missing_one_by_one(
    left: MetadataView,
    right: MetadataView,
    whole: MetadataView,
)
    requires
        left.packages == whole.packages,
        right.packages == whole.packages,
        whole.resolve.nodes == left.resolve.nodes + right.resolve.nodes,
    ensures
        missing_nodes(whole) == missing_nodes(left) + missing_nodes(right),
        left.resolve.nodes.len() == 0 ==> missing_nodes(left).len() == 0,
        left.resolve.nodes.len() == 1 ==> missing_nodes(left) == if (exists|j: int|
            0 <= j < left.packages.len() && (#[trigger] left.packages[j]).id
                == left.resolve.nodes[0].id) {
            Seq::empty()
        } else {
            seq![left.resolve.nodes[0].id]
        },
{
    let id_of = |node: ResolveNodeView| node.id;
    let unknown = |id: Seq<char>| package_index(whole.packages, id) is None;
    let left_ids = left.resolve.nodes.map_values(id_of);
    let right_ids = right.resolve.nodes.map_values(id_of);
    assert(whole.resolve.nodes.map_values(id_of) =~= left_ids + right_ids);
    Seq::filter_distributes_over_add(left_ids, right_ids, unknown);
    reveal(Seq::filter);
    if left.resolve.nodes.len() == 1 {
        let id = left.resolve.nodes[0].id;
        package_index_finds(left.packages, id);
        assert(left_ids.drop_last() =~= Seq::<Seq<char>>::empty());
        assert(Seq::<Seq<char>>::empty().filter(unknown) =~= Seq::<Seq<char>>::empty());
        if package_index(left.packages, id) is Some {
            let at = package_index(left.packages, id)->0;
            assert(left.packages[at].id == id);
        } else {
            assert(Seq::<Seq<char>>::empty().push(id) =~= seq![id]);
        }
    }
}

/// A graph is in order exactly where some node is the root and every node has a package. Then
/// it gives what the root depends on. A root that is not there is reported before packages
/// that are not there; these are reported by their identities.
pub proof fn graphs_in_order_have_a_root_and_packages(metadata: MetadataView)
    ensures
        checked_root_dependencies(metadata) is Ok <==> {
            &&& exists|r: int|
                0 <= r < metadata.resolve.nodes.len() && (#[trigger] metadata.resolve.nodes[r]).id
                    == metadata.resolve.root
            &&& forall|i: int|
                0 <= i < metadata.resolve.nodes.len() ==> exists|j: int|
                    0 <= j < metadata.packages.len() && (#[trigger] metadata.packages[j]).id == (
                    #[trigger] metadata.resolve.nodes[i]).id
        },
        checked_root_dependencies(metadata) is Ok ==> checked_root_dependencies(metadata)
            == root_dependencies(metadata),
        root_dependencies(metadata) is Err ==> checked_root_dependencies(metadata)
            == root_dependencies(metadata),
        root_dependencies(metadata) is Ok ==> (checked_root_dependencies(metadata) matches Err(
            error,
        ) ==> error.component == "BuildPlanner"@ && error.message
            == "Metadata.packages list was missing keys: "@ + debug_list(missing_nodes(metadata))),
{
    let nodes = metadata.resolve.nodes;
    let root = metadata.resolve.root;
    let ids = nodes.map_values(|node: ResolveNodeView| node.id);
    let unknown = |id: Seq<char>| package_index(metadata.packages, id) is None;
    if exists|r: int| 0 <= r < nodes.len() && (#[trigger] nodes[r]).id == root {
        lemma_some_node(nodes, root);
    } else {
        lemma_no_node(nodes, root);
    }
    if missing_nodes(metadata).len() == 0 {
        assert forall|i: int| 0 <= i < nodes.len() implies exists|j: int|
            0 <= j < metadata.packages.len() && (#[trigger] metadata.packages[j]).id == (
            #[trigger] nodes[i]).id by {
            package_index_finds(metadata.packages, nodes[i].id);
            if unknown(ids[i]) {
                ids.lemma_filter_contains(unknown, i);
                assert(missing_nodes(metadata).contains(ids[i]));
            }
            let at = package_index(metadata.packages, nodes[i].id)->0;
            assert(metadata.packages[at].id == nodes[i].id);
        }
    } else {
        lemma_filter_source(ids, unknown, 0);
        let id = missing_nodes(metadata)[0];
        let i = choose|i: int| 0 <= i < ids.len() && ids[i] == id;
        package_index_finds(metadata.packages, id);
        assert(nodes[i].id == id);
    }
}

proof fn lemma_some_node(nodes: Seq<ResolveNodeView>, id: Seq<char>)
    requires
        exists|r: int| 0 <= r < nodes.len() && (#[trigger] nodes[r]).id == id,
    ensures
        first_node(nodes, id) is Some,
    decreases nodes.len(),
{
    let r = choose|r: int| 0 <= r < nodes.len() && (#[trigger] nodes[r]).id == id;
    let shorter = nodes.drop_last();
    if r < nodes.len() - 1 {
        assert(shorter[r].id == id);
        lemma_some_node(shorter, id);
    }
}

/// What is said of a list of identities is said of each where it was had, and of the error where
/// it was not.
pub proof fn identity_results_keep_success_and_failure(ids: RazeResult<Vec<PackageId>>)
    ensures
        ids matches Ok(list) ==> (ids_result(ids) matches Ok(shown) && shown.len() == list@.len()
            && forall|i: int| 0 <= i < shown.len() ==> #[trigger] shown[i] == list@[i]@),
        ids matches Err(error) ==> ids_result(ids) == Err::<Seq<Seq<char>>, _>(error@),
{
}

} // verus!
