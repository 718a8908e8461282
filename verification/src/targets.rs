//! What a crate builds.

use crate::context::{BuildTarget, BuildTargetView};
use crate::error::{build_planner_err, planner_error, RazeErrView, RazeResult};
use crate::fetcher::MetadataFetcher;
use crate::metadata::{Package, PackageView, TargetView};
use crate::planner::BuildPlannerImpl;
use crate::text::{
    encoding_distributes, find_first, first_occurrence, first_occurrence_is_least,
    first_occurrence_splits_the_text, full_name, full_name_of, occurs_at, occurs_first_at,
    starts_with, tail_from, views,
};
use vstd::prelude::*;
use vstd::string::*;
use vstd::utf8::encode_utf8;

verus! {

/// A path as it goes on below the directory of the crate: what follows the first place
/// at which the directory name stands in it, without a leading `./`. `None` where the
/// directory name does not stand in the path.
pub open spec fn local_path(src_path: Seq<char>, directory: Seq<char>) -> Option<Seq<char>> {
    match first_occurrence(src_path, directory) {
        None => None,
        Some(at) => {
            let below = src_path.skip(at + directory.len());
            if "./"@.is_prefix_of(below) {
                Some(below.skip(2))
            } else {
                Some(below)
            }
        },
    }
}

/// The name of the directory that holds a crate, with a slash at its end.
pub open spec fn crate_directory(package: PackageView) -> Seq<char> {
    full_name(package.name, package.version) + "/"@
}

/// The error for a target whose root is not in the directory of its crate.
pub open spec fn outside_crate(package: PackageView, target: TargetView) -> RazeErrView {
    planner_error(
        full_name(package.name, package.version) + " had a target "@ + target.name
            + " whose crate root appeared to be outside of the crate."@,
    )
}

/// A target of a package once for each of its kinds.
pub open spec fn targets_by_kind(target: TargetView, path: Seq<char>) -> Seq<BuildTargetView> {
    target.kind.map_values(
        |kind: Seq<char>| BuildTargetView { name: target.name, path, kind },
    )
}

/// The targets among the first `n` of a package, or the error for the first one whose root
/// is outside of the crate.
pub open spec fn targets_up_to(package: PackageView, n: nat) -> Result<
    Seq<BuildTargetView>,
    RazeErrView,
>
    decreases n,
{
    if n == 0 {
        Ok(Seq::empty())
    } else {
        match targets_up_to(package, (n - 1) as nat) {
            Err(error) => Err(error),
            Ok(before) => {
                let target = package.targets[n - 1];
                match local_path(target.src_path, crate_directory(package)) {
                    None => Err(outside_crate(package, target)),
                    Some(path) => Ok(before + targets_by_kind(target, path)),
                }
            },
        }
    }
}

/// All targets of a package in order, each once for each of its kinds.
pub open spec fn package_targets(package: PackageView) -> Result<
    Seq<BuildTargetView>,
    RazeErrView,
> {
    targets_up_to(package, package.targets.len())
}

/// The view of a list of targets that may have failed.
pub open spec fn targets_result(targets: RazeResult<Vec<BuildTarget>>) -> Result<
    Seq<BuildTargetView>,
    RazeErrView,
> {
    match targets {
        Ok(targets) => Ok(views(targets@)),
        Err(error) => Err(error@),
    }
}

/// A path is what stands before the first directory name, the directory name, and the path
/// below it, which may come after `./`. Counted in bytes it is the same: below the directory
/// go on the bytes after those of the two parts before.
pub proof fn local_path_is_tail(src_path: Seq<char>, directory: Seq<char>)
    ensures
        match local_path(src_path, directory) {
            None => forall|at: int| !occurs_at(src_path, directory, at),
            Some(path) => {
                let at = first_occurrence(src_path, directory)->0;
                let below = src_path.skip(at + directory.len());
                &&& occurs_first_at(src_path, directory, at)
                &&& src_path == src_path.take(at) + directory + below
                &&& below == path || below == "./"@ + path
                &&& encode_utf8(below) == encode_utf8(src_path).skip(
                    (encode_utf8(src_path.take(at)).len() + encode_utf8(directory).len()) as int,
                )
            },
        },
{
    first_occurrence_is_least(src_path, directory);
    if local_path(src_path, directory) is Some {
        let at = first_occurrence(src_path, directory)->0;
        let below = src_path.skip(at + directory.len());
        assert(src_path.subrange(at, at + directory.len()) == directory);
        assert(src_path =~= src_path.take(at) + directory + below);
        encoding_distributes(src_path.take(at) + directory, below);
        encoding_distributes(src_path.take(at), directory);
        assert(encode_utf8(below) =~= encode_utf8(src_path).skip(
            (encode_utf8(src_path.take(at)).len() + encode_utf8(directory).len()) as int,
        ));
        if "./"@.is_prefix_of(below) {
            reveal_strlit("./");
            assert(below =~= "./"@ + below.skip(2));
        }
    }
}

/// Once a target is outside of its crate, that is the error for any longer list too.
proof fn lemma_first_error_stays(package: PackageView, n: nat, m: nat)
    requires
        n <= m,
        targets_up_to(package, n) is Err,
    ensures
        targets_up_to(package, m) == targets_up_to(package, n),
    decreases m,
{
    if n < m {
        lemma_first_error_stays(package, n, (m - 1) as nat);
    }
}

/// Whether the root of a target is in the directory of its crate.
pub open spec fn is_inside(package: PackageView, i: int) -> bool {
    local_path(package.targets[i].src_path, crate_directory(package)) is Some
}

proof fn lemma_targets_up_to(package: PackageView, n: nat)
    requires
        n <= package.targets.len(),
    ensures
        match targets_up_to(package, n) {
            Ok(_) => forall|i: int| 0 <= i < n ==> #[trigger] is_inside(package, i),
            Err(error) => exists|i: int|
                0 <= i < n && !#[trigger] is_inside(package, i) && (forall|j: int|
                    0 <= j < i ==> #[trigger] is_inside(package, j)) && error == outside_crate(
                    package,
                    package.targets[i],
                ),
        },
    decreases n,
{
    if n > 0 {
        lemma_targets_up_to(package, (n - 1) as nat);
        let last = is_inside(package, n - 1);
    }
}

/// Listing the targets of a package succeeds exactly where every target is in the directory
/// of the crate. Where it fails, the error is for the first target that is not.
pub proof fn targets_fail_at_first_outside(package: PackageView)
    ensures
        match package_targets(package) {
            Ok(_) => forall|i: int|
                0 <= i < package.targets.len() ==> #[trigger] is_inside(package, i),
            Err(error) => exists|i: int|
                0 <= i < package.targets.len() && !#[trigger] is_inside(package, i) && (forall|
                    j: int,
                |
                    0 <= j < i ==> #[trigger] is_inside(package, j)) && error == outside_crate(
                    package,
                    package.targets[i],
                ),
        },
{
    lemma_targets_up_to(package, package.targets.len());
}

/// A path as it goes on below the directory of the crate.
fn path_in_crate(src_path: &String, directory: &String) -> (path: Option<String>)
    ensures
        match path {
            Some(path) => local_path(src_path@, directory@) == Some(path@),
            None => local_path(src_path@, directory@) is None,
        },
{
    match find_first(src_path.as_str(), directory.as_str()) {
        None => None,
        Some(at) => {
            let len = src_path.as_str().unicode_len();
            proof {
                first_occurrence_is_least(src_path@, directory@);
                assert(at + directory@.len() <= len);
            }
            let below = tail_from(src_path.as_str(), at + directory.as_str().unicode_len());
            if starts_with(below.as_str(), "./") {
                proof {
                    reveal_strlit("./");
                }
                Some(tail_from(below.as_str(), 2))
            } else {
                Some(below)
            }
        },
    }
}

impl<F: MetadataFetcher> BuildPlannerImpl<F> {
    /// Lists what a package builds, each target once for each of its kinds. Fails where the
    /// root of a target is not in a directory named like the package.
    pub fn produce_targets(&self, package: &Package) -> (targets: RazeResult<Vec<BuildTarget>>)
        ensures
            targets_result(targets) == package_targets(package@),
    {
        let full = full_name_of(package.name.as_str(), package.version.as_str());
        let directory = full.clone().concat("/");
        let mut targets: Vec<BuildTarget> = Vec::new();
        let mut i: usize = 0;
        assert(views(targets@) =~= Seq::<BuildTargetView>::empty());
        while i < package.targets.len()
            invariant
                i <= package.targets.len(),
                full@ == full_name(package@.name, package@.version),
                directory@ == crate_directory(package@),
                targets_up_to(package@, i as nat) == Ok::<_, RazeErrView>(views(targets@)),
            decreases package.targets.len() - i,
        {
            let target = &package.targets[i];
            let ghost listed = views(targets@);
            assert(package@.targets[i as int] == target@);
            match path_in_crate(&target.src_path, &directory) {
                None => {
                    let message = full.concat(" had a target ").concat(target.name.as_str()).concat(
                        " whose crate root appeared to be outside of the crate.",
                    );
                    proof {
                        lemma_first_error_stays(
                            package@,
                            (i + 1) as nat,
                            package@.targets.len(),
                        );
                    }
                    return Err(build_planner_err(message.as_str()));
                },
                Some(path) => {
                    let ghost by_kind = targets_by_kind(target@, path@);
                    let mut k: usize = 0;
                    assert(listed + by_kind.take(0) =~= listed);
                    while k < target.kind.len()
                        invariant
                            k <= target.kind.len(),
                            by_kind == targets_by_kind(target@, path@),
                            views(targets@) == listed + by_kind.take(k as int),
                        decreases target.kind.len() - k,
                    {
                        let ghost before = views(targets@);
                        targets.push(
                            BuildTarget {
                                name: target.name.clone(),
                                path: path.clone(),
                                kind: target.kind[k].clone(),
                            },
                        );
                        assert(target@.kind[k as int] == target.kind@[k as int]@);
                        assert(views(targets@) =~= before.push(by_kind[k as int]));
                        assert(views(targets@) =~= listed + by_kind.take(k + 1));
                        k += 1;
                    }
                    assert(by_kind.take(k as int) =~= by_kind);
                },
            }
            i += 1;
        }
        Ok(targets)
    }
}

// ---------------------------------------------------------------------------
// Laws
// ---------------------------------------------------------------------------

/// The directory of a crate reads as the name, a hyphen, the version and a slash.
pub proof fn crate_directory_reads_as_name_and_version(package: PackageView)
    ensures
        crate_directory(package) == package.name + seq!['-'] + package.version + seq!['/'],
{
    reveal_strlit("-");
    reveal_strlit("/");
    assert("-"@ =~= seq!['-']);
    assert("/"@ =~= seq!['/']);
}

/// A path that reads as something, the directory and the rest goes on with the rest below the
/// directory, provided that the directory does not stand in it any earlier; one leading `./` is
/// dropped. A path that cannot be read so does not go on below the directory.
pub proof fn local_path_goes_on_below_the_directory(
    src_path: Seq<char>,
    directory: Seq<char>,
    before: Seq<char>,
    below: Seq<char>,
)
    ensures
        src_path == before + directory + below && (forall|other: Seq<char>, rest: Seq<char>|
            src_path == #[trigger] other.add(directory).add(rest) ==> before.len() <= other.len())
            ==> local_path(src_path, directory) == Some(
            if below.len() >= 2 && below[0] == '.' && below[1] == '/' {
                below.skip(2)
            } else {
                below
            },
        ),
        (forall|other: Seq<char>, rest: Seq<char>|
            src_path != #[trigger] other.add(directory).add(rest)) ==> local_path(
            src_path,
            directory,
        ) is None,
{
    first_occurrence_splits_the_text(src_path, directory);
    reveal_strlit("./");
    if src_path == before + directory + below {
        assert(src_path == before.add(directory).add(below));
        if forall|other: Seq<char>, rest: Seq<char>|
            src_path == #[trigger] other.add(directory).add(rest) ==> before.len() <= other.len() {
            let at = first_occurrence(src_path, directory)->0;
            assert(src_path == src_path.take(at).add(directory).add(
                src_path.skip(at + directory.len()),
            ));
            assert(at == before.len());
            assert(src_path.skip(at + directory.len()) =~= below);
            if below.len() >= 2 && below[0] == '.' && below[1] == '/' {
                assert("./"@ =~= below.subrange(0, 2));
            } else if "./"@.is_prefix_of(below) {
                assert("./"@[0] == below.subrange(0, 2)[0]);
                assert("./"@[1] == below.subrange(0, 2)[1]);
            }
        }
    }
    if forall|other: Seq<char>, rest: Seq<char>|
        src_path != #[trigger] other.add(directory).add(rest) {
        if first_occurrence(src_path, directory) is Some {
            let at = first_occurrence(src_path, directory)->0;
            assert(src_path == src_path.take(at).add(directory).add(
                src_path.skip(at + directory.len()),
            ));
        }
    }
}

proof fn lemma_targets_by_prefix(left: PackageView, right: PackageView, n: nat)
    requires
        left.name == right.name,
        left.version == right.version,
        n <= left.targets.len(),
        n <= right.targets.len(),
        forall|i: int| 0 <= i < n ==> #[trigger] left.targets[i] == right.targets[i],
    ensures
        targets_up_to(left, n) == targets_up_to(right, n),
    decreases n,
{
    if n > 0 {
        lemma_targets_by_prefix(left, right, (n - 1) as nat);
        assert(left.targets[n - 1] == right.targets[n - 1]);
    }
}

proof fn lemma_targets_of_two_rows(
    left: PackageView,
    right: PackageView,
    whole: PackageView,
    n: nat,
)
    requires
        left.name == whole.name,
        left.version == whole.version,
        right.name == whole.name,
        right.version == whole.version,
        whole.targets == left.targets + right.targets,
        n <= right.targets.len(),
    ensures
        targets_up_to(whole, left.targets.len() + n) == match package_targets(left) {
            Err(error) => Err(error),
            Ok(first) => match targets_up_to(right, n) {
                Err(error) => Err(error),
                Ok(second) => Ok(first + second),
            },
        },
    decreases n,
{
    lemma_targets_by_prefix(left, whole, left.targets.len());
    if n == 0 {
        if package_targets(left) is Ok {
            let first = package_targets(left)->Ok_0;
            assert(first + Seq::<BuildTargetView>::empty() =~= first);
        }
    } else {
        lemma_targets_of_two_rows(left, right, whole, (n - 1) as nat);
        assert(whole.targets[left.targets.len() + n - 1] == right.targets[n - 1]);
        if package_targets(left) is Ok && targets_up_to(right, n) is Ok {
            let first = package_targets(left)->Ok_0;
            let second = targets_up_to(right, (n - 1) as nat)->Ok_0;
            let target = right.targets[n - 1];
            let path = local_path(target.src_path, crate_directory(right))->0;
            assert((first + second) + targets_by_kind(target, path) =~= first + (second
                + targets_by_kind(target, path)));
        }
    }
}

/// Listing goes target by target: for packages of one name and version, the listing of two rows
/// of targets is the listing of the one followed by that of the other, and fails with the first
/// error of the two.
pub proof fn listing_goes_target_by_target(
    left: PackageView,
    right: PackageView,
    whole: PackageView,
)
    requires
        left.name == whole.name,
        left.version == whole.version,
        right.name == whole.name,
        right.version == whole.version,
        whole.targets == left.targets + right.targets,
    ensures
        package_targets(whole) == match (package_targets(left), package_targets(right)) {
            (Ok(first), Ok(second)) => Ok(first + second),
            (Err(error), _) => Err(error),
            (Ok(_), Err(error)) => Err(error),
        },
{
    lemma_targets_of_two_rows(left, right, whole, right.targets.len());
}

/// A package without targets lists nothing. A package with one target lists it once for each of
/// its kinds, in order, under its own name and with its path below the directory of the crate;
/// or it reports that target by name where there is no such path.
pub proof fn one_target_is_listed_once_for_each_kind(package: PackageView)
    ensures
        package.targets.len() == 0 ==> (package_targets(package) matches Ok(list) && list.len()
            == 0),
        package.targets.len() == 1 ==> {
            let target = package.targets[0];
            let directory = package.name + "-"@ + package.version + "/"@;
            match local_path(target.src_path, directory) {
                Some(path) => package_targets(package) matches Ok(list) && list.len()
                    == target.kind.len() && forall|k: int|
                    #![trigger list[k]]
                    0 <= k < list.len() ==> list[k].name == target.name && list[k].path == path
                        && list[k].kind == target.kind[k],
                None => package_targets(package) matches Err(error) && error.component
                    == "BuildPlanner"@ && error.message == package.name + "-"@ + package.version
                    + " had a target "@ + target.name
                    + " whose crate root appeared to be outside of the crate."@,
            }
        },
{
    reveal_with_fuel(targets_up_to, 2);
    if package.targets.len() == 1 {
        let target = package.targets[0];
        let path = local_path(target.src_path, crate_directory(package));
        if path is Some {
            let listed = targets_by_kind(target, path->0);
            assert(Seq::<BuildTargetView>::empty() + listed =~= listed);
        }
    }
}

proof fn lemma_every_target_is_listed(package: PackageView, n: nat)
    requires
        n <= package.targets.len(),
    ensures
        targets_up_to(package, n) matches Ok(list) ==> {
            &&& list.len() == package.targets.take(n as int).fold_left(
                0int,
                |sum: int, target: TargetView| sum + target.kind.len(),
            )
            &&& forall|i: int, k: int|
                0 <= i < n && 0 <= k < package.targets[i].kind.len() ==> list.contains(
                    BuildTargetView {
                        name: package.targets[i].name,
                        path: local_path(
                            package.targets[i].src_path,
                            crate_directory(package),
                        )->0,
                        kind: #[trigger] package.targets[i].kind[k],
                    },
                )
        },
    decreases n,
{
    let tally = |sum: int, target: TargetView| sum + target.kind.len();
    if n == 0 {
        reveal_with_fuel(Seq::fold_left, 2);
        assert(package.targets.take(0).fold_left(0int, tally) == 0);
    } else {
        lemma_every_target_is_listed(package, (n - 1) as nat);
        if targets_up_to(package, n) is Ok {
            let list = targets_up_to(package, n)->Ok_0;
            let before = targets_up_to(package, (n - 1) as nat)->Ok_0;
            let last = package.targets[n - 1];
            let path = local_path(last.src_path, crate_directory(package))->0;
            let row = package.targets.take(n as int);
            assert(row.drop_last() =~= package.targets.take(n - 1));
            reveal_with_fuel(Seq::fold_left, 2);
            assert(row.fold_left(0int, tally) == tally(row.drop_last().fold_left(0int, tally), last));
            assert forall|i: int, k: int|
                0 <= i < n && 0 <= k < package.targets[i].kind.len() implies list.contains(
                BuildTargetView {
                    name: package.targets[i].name,
                    path: local_path(package.targets[i].src_path, crate_directory(package))->0,
                    kind: #[trigger] package.targets[i].kind[k],
                },
            ) by {
                let listed = BuildTargetView {
                    name: package.targets[i].name,
                    path: local_path(package.targets[i].src_path, crate_directory(package))->0,
                    kind: package.targets[i].kind[k],
                };
                if i < n - 1 {
                    let at = choose|at: int| 0 <= at < before.len() && before[at] == listed;
                    assert(list[at] == listed);
                } else {
                    assert(list[before.len() + k] == listed);
                }
            }
        }
    }
}

/// Where listing succeeds, it lists every target once for each kind: as many entries as the
/// targets have kinds in all, and for every target and kind an entry with the name of the
/// target, its path below the directory of the crate, and the kind.
pub proof fn every_target_is_listed_once_for_each_kind(package: PackageView)
    ensures
        package_targets(package) matches Ok(list) ==> {
            &&& list.len() == package.targets.fold_left(
                0int,
                |sum: int, target: TargetView| sum + target.kind.len(),
            )
            &&& forall|i: int, k: int|
                0 <= i < package.targets.len() && 0 <= k < package.targets[i].kind.len()
                    ==> list.contains(
                    BuildTargetView {
                        name: package.targets[i].name,
                        path: local_path(
                            package.targets[i].src_path,
                            package.name + "-"@ + package.version + "/"@,
                        )->0,
                        kind: #[trigger] package.targets[i].kind[k],
                    },
                )
        },
{
    lemma_every_target_is_listed(package, package.targets.len());
    assert(package.targets.take(package.targets.len() as int) =~= package.targets);
}

/// What is said of a listing is said of each entry where it succeeded, and of the error where it
/// failed.
pub proof fn target_results_keep_success_and_failure(targets: RazeResult<Vec<BuildTarget>>)
    ensures
        targets matches Ok(list) ==> (targets_result(targets) matches Ok(shown) && shown.len()
            == list@.len() && forall|i: int|
            0 <= i < shown.len() ==> #[trigger] shown[i] == list@[i]@),
        targets matches Err(error) ==> targets_result(targets) == Err::<Seq<BuildTargetView>, _>(
            error@,
        ),
{
}

} // verus!
