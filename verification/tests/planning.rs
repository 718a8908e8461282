use raze_planner::context::{BuildDependency, BuildTarget, CrateContext};
use raze_planner::dependencies::{
    dependency_kind_of, dependency_names, packages_by_id, prune_skipped_deps,
    resolve_dependencies, select_named, DependencyKind,
};
use raze_planner::error::{build_planner_err, RazeResult};
use raze_planner::fetcher::{CargoWorkspaceFiles, MetadataFetcher};
use raze_planner::license::{load_and_dedup_licenses, AvailableLicense};
use raze_planner::metadata::{
    Dependency, Metadata, Package, Resolve, ResolveNode, Target,
};
use raze_planner::order::sort;
use raze_planner::planner::{BuildPlannerImpl, PlanStep};
use raze_planner::platform::{
    all_applicabilities_of, applicability_of, Applicability, PlatformAttr,
};
use raze_planner::settings::{CrateSettings, GenMode, RazeSettings};
use raze_planner::string_map::StringMap;
use raze_planner::vendor::{vendor_path_of, vendor_paths_of};
use std::path::PathBuf;

/// Hands out what it was given, and remembers whether it was asked.
struct Canned {
    answer: Option<RazeResult<Metadata>>,
}

impl MetadataFetcher for Canned {
    fn fetch_metadata(&mut self, files: CargoWorkspaceFiles) -> RazeResult<Metadata> {
        assert_eq!(files.toml_path, PathBuf::from("Cargo.toml"));
        self.answer.take().unwrap()
    }
}

fn planner() -> BuildPlannerImpl<Canned> {
    BuildPlannerImpl::new(Canned { answer: None })
}

fn files() -> CargoWorkspaceFiles {
    CargoWorkspaceFiles { toml_path: PathBuf::from("Cargo.toml"), lock_path_opt: None }
}

fn strings(items: &[&str]) -> Vec<String> {
    items.iter().map(|s| s.to_string()).collect()
}

fn dependency(name: &str, kind: Option<&str>, target: Option<&str>) -> Dependency {
    Dependency {
        name: name.to_string(),
        kind: kind.map(|s| s.to_string()),
        target: target.map(|s| s.to_string()),
    }
}

fn target(name: &str, kind: &[&str], src_path: &str) -> Target {
    Target { name: name.to_string(), kind: strings(kind), src_path: src_path.to_string() }
}

fn package(name: &str, version: &str) -> Package {
    Package {
        name: name.to_string(),
        version: version.to_string(),
        id: format!("{} {}", name, version),
        license: None,
        dependencies: Vec::new(),
        targets: vec![target(name, &["lib"], &format!("/v/{}-{}/src/lib.rs", name, version))],
    }
}

fn node(id: &str, dependencies: &[&str]) -> ResolveNode {
    ResolveNode { id: id.to_string(), dependencies: strings(dependencies) }
}

fn dep(name: &str, version: &str) -> BuildDependency {
    BuildDependency { name: name.to_string(), version: version.to_string() }
}

fn dep_names(deps: &[BuildDependency]) -> Vec<String> {
    deps.iter().map(|d| format!("{}-{}", d.name, d.version)).collect()
}

fn license(name: &str, rating: &str) -> AvailableLicense {
    AvailableLicense { name: name.to_string(), rating: rating.to_string() }
}

fn settings(genmode: GenMode) -> RazeSettings {
    RazeSettings {
        target: "x86_64-unknown-linux-gnu".to_string(),
        genmode,
        crates: StringMap::new(),
    }
}

fn linux() -> Vec<PlatformAttr> {
    vec![
        PlatformAttr::Name("unix".to_string()),
        PlatformAttr::KeyPair("target_os".to_string(), "linux".to_string()),
    ]
}

/// A root that depends on `app`, which depends on the rest.
fn workspace() -> Metadata {
    let mut app = package("app", "0.1.0");
    app.dependencies = vec![
        dependency("zlib", None, None),
        dependency("base", Some("normal"), None),
        dependency("base", Some("dev"), None),
        dependency("cc", Some("build"), Some("unix")),
        dependency("winapi", None, Some("windows")),
        dependency("odd", Some("strange"), Some("windows")),
    ];
    app.targets = vec![
        target("build-script-build", &["custom-build"], "/v/app-0.1.0/./build.rs"),
        target("app", &["lib", "cdylib"], "/v/app-0.1.0/src/lib.rs"),
    ];
    app.license = Some("MIT/Apache-2.0".to_string());
    let mut root = package("root", "0.0.0");
    root.dependencies = vec![dependency("broken", Some("strange"), Some("cfg("))];
    root.targets = vec![target("root", &["lib"], "/elsewhere/lib.rs")];
    Metadata {
        packages: vec![
            root,
            app,
            package("zlib", "1.2.0"),
            package("base", "2.0.0"),
            package("base", "1.0.0"),
            package("cc", "1.0.0"),
            package("winapi", "0.3.0"),
        ],
        resolve: Resolve {
            root: "root 0.0.0".to_string(),
            nodes: vec![
                node("root 0.0.0", &["app 0.1.0"]),
                node(
                    "app 0.1.0",
                    &["zlib 1.2.0", "base 2.0.0", "winapi 0.3.0", "cc 1.0.0", "base 1.0.0"],
                ),
                node("zlib 1.2.0", &[]),
            ],
        },
    }
}

fn licenses(metadata: &Metadata) -> Vec<Vec<AvailableLicense>> {
    metadata
        .packages
        .iter()
        .map(|p| {
            if p.name == "app" {
                vec![license("MIT", "notice"), license("Apache-2.0", "notice")]
            } else {
                vec![license("no license", "restricted")]
            }
        })
        .collect()
}

fn contexts(settings: &RazeSettings, metadata: &Metadata) -> RazeResult<Vec<CrateContext>> {
    planner()
        .try_produce_crate_contexts(settings, metadata, &linux(), &licenses(metadata))
        .expect("every declaration can be read")
}

fn contexts_missing(metadata: &Metadata) -> bool {
    planner()
        .try_produce_crate_contexts(
            &settings(GenMode::Remote),
            metadata,
            &linux(),
            &licenses(metadata),
        )
        .is_none()
}

// --- targets ---------------------------------------------------------------

#[test]
fn targets_are_found_below_the_crate() {
    let mut krate = package("foo", "1.0.0");
    krate.targets = vec![
        target("foo", &["lib", "dylib"], "/some/long/path/foo-1.0.0/src/lib.rs"),
        target("dotted", &["bin"], "/x/foo-1.0.0/./main.rs"),
        target("twice", &["test"], "/foo-1.0.0/foo-1.0.0/t.rs"),
        target("wide", &["example"], "/\u{e9}\u{1f600}/foo-1.0.0/\u{e9}.rs"),
        target("none", &[], "/foo-1.0.0/n.rs"),
        target("bare", &["bench"], "foo-1.0.0/"),
    ];
    let targets = planner().produce_targets(&krate).unwrap();
    let found: Vec<(&str, &str, &str)> = targets
        .iter()
        .map(|t| (t.name.as_str(), t.path.as_str(), t.kind.as_str()))
        .collect();
    assert_eq!(
        found,
        vec![
            ("foo", "src/lib.rs", "lib"),
            ("foo", "src/lib.rs", "dylib"),
            ("dotted", "main.rs", "bin"),
            ("twice", "foo-1.0.0/t.rs", "test"),
            ("wide", "\u{e9}.rs", "example"),
            ("bare", "", "bench"),
        ]
    );
}

#[test]
fn only_one_leading_dot_is_dropped() {
    let mut krate = package("foo", "1.0.0");
    krate.targets = vec![target("foo", &["lib"], "/foo-1.0.0/././a.rs")];
    assert_eq!(planner().produce_targets(&krate).unwrap()[0].path, "./a.rs");
}

#[test]
fn a_target_outside_of_its_crate_is_an_error() {
    let mut krate = package("foo", "1.0.0");
    krate.targets = vec![
        target("foo", &["lib"], "/foo-1.0.0/lib.rs"),
        target("first", &[], "/foo/lib.rs"),
        target("second", &["lib"], "/foo-1.0/lib.rs"),
    ];
    let error = planner().produce_targets(&krate).unwrap_err();
    assert_eq!(error.component, "BuildPlanner");
    assert_eq!(
        error.message,
        "foo-1.0.0 had a target first whose crate root appeared to be outside of the crate."
    );
}

#[test]
fn targets_sort_by_name_path_and_kind() {
    let make = |name: &str, path: &str, kind: &str| BuildTarget {
        name: name.to_string(),
        path: path.to_string(),
        kind: kind.to_string(),
    };
    let sorted = sort(vec![
        make("b", "a", "a"),
        make("a", "b", "a"),
        make("a", "a", "b"),
        make("a", "a", "a"),
    ]);
    let found: Vec<String> =
        sorted.iter().map(|t| format!("{}{}{}", t.name, t.path, t.kind)).collect();
    assert_eq!(found, vec!["aaa", "aab", "aba", "baa"]);
}

// --- licenses --------------------------------------------------------------

#[test]
fn licenses_are_grouped_by_rating() {
    let summary = load_and_dedup_licenses(&vec![
        license("GPL", "restricted"),
        license("MIT", "notice"),
        license("LGPL", "restricted"),
        license("Apache-2.0", "notice"),
        license("MIT", "notice"),
    ]);
    let found: Vec<(&str, &str)> =
        summary.iter().map(|l| (l.rating.as_str(), l.name.as_str())).collect();
    assert_eq!(found, vec![("notice", "MIT,Apache-2.0,MIT"), ("restricted", "GPL,LGPL")]);
    assert!(load_and_dedup_licenses(&Vec::new()).is_empty());
}

#[test]
fn mixing_ratings_makes_no_difference() {
    let apart = load_and_dedup_licenses(&vec![
        license("a", "x"),
        license("b", "x"),
        license("c", "y"),
    ]);
    let mixed = load_and_dedup_licenses(&vec![
        license("c", "y"),
        license("a", "x"),
        license("b", "x"),
    ]);
    assert_eq!(format!("{:?}", apart), format!("{:?}", mixed));
}

#[test]
fn empty_names_are_joined_too() {
    let summary = load_and_dedup_licenses(&vec![license("", "x"), license("", "x")]);
    assert_eq!(summary[0].name, ",");
}

fn requests(metadata: &Metadata) -> Vec<Option<String>> {
    planner().request_licenses(metadata)
}

#[test]
fn licenses_are_asked_for_crates_with_a_context() {
    let mit = Some("MIT/Apache-2.0".to_string());
    let none = Some(String::new());
    assert_eq!(requests(&workspace()), vec![None, mit, none, None, None, None, None]);
}

#[test]
fn licenses_are_asked_for_up_to_the_first_error() {
    let mut metadata = workspace();
    metadata.packages[2].targets[0].src_path = "/elsewhere/lib.rs".to_string();
    metadata.resolve.nodes.push(node("cc 1.0.0", &[]));
    let mit = Some("MIT/Apache-2.0".to_string());
    assert_eq!(requests(&metadata), vec![None, mit, None, None, None, None, None]);
    metadata.packages[1].targets[0].src_path = "/elsewhere/build.rs".to_string();
    assert_eq!(requests(&metadata), vec![None; 7]);
}

#[test]
fn licenses_are_asked_of_the_package_that_counts() {
    let mut metadata = workspace();
    let mut again = package("zlib", "1.2.0");
    again.license = Some("Zlib".to_string());
    metadata.packages.push(again);
    let requests = requests(&metadata);
    assert_eq!(requests[2], None);
    assert_eq!(requests[7], Some("Zlib".to_string()));
}

#[test]
fn licenses_that_are_not_asked_for_make_no_difference() {
    let metadata = workspace();
    let all = settings(GenMode::Remote);
    let mut asked = licenses(&metadata);
    for (at, request) in requests(&metadata).iter().enumerate() {
        if request.is_none() {
            asked[at] = Vec::new();
        }
    }
    let plan = planner()
        .try_produce_crate_contexts(&all, &metadata, &linux(), &asked)
        .unwrap()
        .unwrap();
    assert_eq!(format!("{:?}", plan), format!("{:?}", contexts(&all, &metadata).unwrap()));
}

// --- dependencies ----------------------------------------------------------

#[test]
fn kinds_are_spelled() {
    let kind = |k| dependency_kind_of(&dependency("x", k, None));
    assert_eq!(kind(None), Some(DependencyKind::Normal));
    assert_eq!(kind(Some("normal")), Some(DependencyKind::Normal));
    assert_eq!(kind(Some("dev")), Some(DependencyKind::Dev));
    assert_eq!(kind(Some("build")), Some(DependencyKind::Build));
    assert_eq!(kind(Some("Build")), None);
    assert_eq!(kind(Some("")), None);
}

#[test]
fn platforms_decide_by_expression() {
    let outcome = |t| applicability_of(&dependency("x", None, t), &linux());
    assert_eq!(outcome(None), Applicability::Applies);
    assert_eq!(outcome(Some("unix")), Applicability::Applies);
    assert_eq!(outcome(Some("windows")), Applicability::Skipped);
    assert_eq!(outcome(Some("target_os = \"linux\"")), Applicability::Applies);
    assert_eq!(outcome(Some("target_os = \"macos\"")), Applicability::Skipped);
    assert_eq!(outcome(Some("target_os")), Applicability::Skipped);
    assert_eq!(outcome(Some("unix = \"\"")), Applicability::Skipped);
    assert_eq!(outcome(Some("not(windows)")), Applicability::Applies);
    assert_eq!(outcome(Some("all(unix, windows)")), Applicability::Skipped);
    assert_eq!(outcome(Some("any(unix, windows)")), Applicability::Applies);
    assert_eq!(outcome(Some("all()")), Applicability::Applies);
    assert_eq!(outcome(Some("any()")), Applicability::Skipped);
    assert_eq!(outcome(Some("cfg(unix)")), Applicability::Malformed);
    assert_eq!(outcome(Some("x86_64-pc-windows-gnu")), Applicability::Malformed);
    assert_eq!(outcome(Some("")), Applicability::Malformed);
}

#[test]
fn outcomes_follow_the_packages() {
    let outcomes = all_applicabilities_of(&workspace().packages, &linux());
    assert_eq!(outcomes.len(), 7);
    assert_eq!(outcomes[0], vec![Applicability::Malformed]);
    assert_eq!(
        outcomes[1],
        vec![
            Applicability::Applies,
            Applicability::Applies,
            Applicability::Applies,
            Applicability::Applies,
            Applicability::Skipped,
            Applicability::Skipped,
        ]
    );
    assert!(outcomes[2].is_empty());
}

#[test]
fn names_are_sorted_by_kind() {
    let deps = vec![
        dependency("a", None, None),
        dependency("b", Some("dev"), None),
        dependency("c", Some("build"), None),
        dependency("d", Some("normal"), None),
        dependency("e", Some("strange"), None),
    ];
    let mut outcomes = vec![Applicability::Applies; 5];
    assert!(dependency_names(&deps, &outcomes).is_none());
    outcomes[4] = Applicability::Skipped;
    let names = dependency_names(&deps, &outcomes).unwrap();
    assert_eq!(names.normal, vec!["a", "d"]);
    assert_eq!(names.dev, vec!["b"]);
    assert_eq!(names.build, vec!["c"]);
    outcomes[0] = Applicability::Malformed;
    assert!(dependency_names(&deps, &outcomes).is_none());
}

#[test]
fn the_last_package_with_an_identity_counts() {
    let mut first = package("a", "1.0.0");
    first.id = "same".to_string();
    let mut last = package("b", "2.0.0");
    last.id = "same".to_string();
    let packages = vec![first, last];
    let by_id = packages_by_id(&packages);
    assert_eq!(by_id.get(&"same".to_string()), Some(&1));
    let deps = resolve_dependencies(&strings(&["same"]), &packages, &by_id).unwrap();
    assert_eq!(dep_names(&deps), vec!["b-2.0.0"]);
    assert!(resolve_dependencies(&strings(&["same", "other"]), &packages, &by_id).is_none());
}

#[test]
fn selected_dependencies_are_sorted() {
    let deps = vec![dep("b", "1"), dep("a", "2"), dep("c", "1"), dep("a", "1"), dep("a", "1")];
    let selected = select_named(&deps, &strings(&["a", "b"]));
    assert_eq!(dep_names(&selected), vec!["a-1", "a-1", "a-2", "b-1"]);
}

#[test]
fn skipped_dependencies_are_pruned() {
    let mut crate_settings = no_settings();
    crate_settings.skipped_deps = strings(&["a-1", "b"]);
    let deps = vec![dep("a", "1"), dep("a", "2"), dep("b", "1")];
    assert_eq!(dep_names(&prune_skipped_deps(&deps, &crate_settings)), vec!["a-2", "b-1"]);
}

fn no_settings() -> CrateSettings {
    CrateSettings {
        additional_deps: Vec::new(),
        skipped_deps: Vec::new(),
        additional_flags: Vec::new(),
        extra_aliased_targets: Vec::new(),
        gen_buildrs: false,
    }
}

// --- the graph -------------------------------------------------------------

#[test]
fn the_first_root_node_counts() {
    let mut metadata = workspace();
    metadata.resolve.nodes.push(node("root 0.0.0", &["other"]));
    assert_eq!(planner().get_root_deps(&metadata).unwrap(), vec!["app 0.1.0"]);
}

#[test]
fn a_missing_root_is_an_error() {
    let mut metadata = workspace();
    metadata.resolve.root = "nobody".to_string();
    let error = planner().get_root_deps(&metadata).unwrap_err();
    assert_eq!(error.component, "BuildPlanner");
    assert_eq!(error.message, "Finding root crate details");
    let error = contexts(&settings(GenMode::Remote), &metadata).unwrap_err();
    assert_eq!(error.message, "Finding root crate details");
}

#[test]
fn missing_packages_are_listed() {
    let mut metadata = workspace();
    metadata.resolve.nodes.push(node("gone 1", &[]));
    metadata.resolve.nodes.push(node("\"lost\" 2", &[]));
    let error = contexts(&settings(GenMode::Remote), &metadata).unwrap_err();
    assert_eq!(
        error.message,
        "Metadata.packages list was missing keys: [\"gone 1\", \"\\\"lost\\\" 2\"]"
    );
    assert_eq!(planner().check_graph(&metadata).unwrap_err().message, error.message);
}

// --- contexts --------------------------------------------------------------

#[test]
fn every_crate_but_the_root_has_a_context() {
    let found = contexts(&settings(GenMode::Remote), &workspace()).unwrap();
    assert_eq!(found.len(), 2);
    let app = &found[0];
    assert_eq!((app.pkg_name.as_str(), app.pkg_version.as_str()), ("app", "0.1.0"));
    assert!(app.is_root_dependency);
    assert_eq!(dep_names(&app.dependencies), vec!["base-1.0.0", "base-2.0.0", "zlib-1.2.0"]);
    assert_eq!(dep_names(&app.dev_dependencies), vec!["base-1.0.0", "base-2.0.0"]);
    assert_eq!(dep_names(&app.build_dependencies), vec!["cc-1.0.0"]);
    assert_eq!(app.path, "./vendor/app-0.1.0/");
    assert_eq!(app.platform_triple, "x86_64-unknown-linux-gnu");
    assert!(app.build_script_target.is_none());
    let targets: Vec<String> =
        app.targets.iter().map(|t| format!("{} {} {}", t.name, t.path, t.kind)).collect();
    assert_eq!(targets, vec!["app src/lib.rs cdylib", "app src/lib.rs lib"]);
    assert_eq!(app.licenses.len(), 1);
    assert_eq!(app.licenses[0].name, "MIT,Apache-2.0");
    assert_eq!(app.licenses[0].rating, "notice");
    assert!(app.features.is_empty() && app.metadeps.is_empty());
    assert!(app.additional_deps.is_empty() && app.additional_flags.is_empty());
    assert!(app.extra_aliased_targets.is_empty());
    let zlib = &found[1];
    assert_eq!(zlib.pkg_name, "zlib");
    assert!(!zlib.is_root_dependency);
    assert_eq!(zlib.licenses[0].rating, "restricted");
}

#[test]
fn a_plan_that_can_be_made_is_made_without_asking() {
    let metadata = workspace();
    let found = planner()
        .produce_crate_contexts(
            &settings(GenMode::Remote),
            &metadata,
            &linux(),
            &licenses(&metadata),
        )
        .unwrap();
    assert_eq!(found.len(), 2);
}

#[test]
fn settings_of_a_crate_are_followed() {
    let mut own = no_settings();
    own.gen_buildrs = true;
    own.skipped_deps = strings(&["base-1.0.0", "cc-1.0.0"]);
    own.additional_deps = strings(&["//x:y"]);
    own.additional_flags = strings(&["--cfg=z"]);
    own.extra_aliased_targets = strings(&["alias"]);
    let mut versions = StringMap::new();
    versions.insert("0.1.0".to_string(), own);
    versions.insert("9.9.9".to_string(), no_settings());
    let mut all = settings(GenMode::Remote);
    all.crates.insert("app".to_string(), versions);
    let found = contexts(&all, &workspace()).unwrap();
    let app = &found[0];
    assert_eq!(dep_names(&app.dependencies), vec!["base-2.0.0", "zlib-1.2.0"]);
    assert_eq!(dep_names(&app.dev_dependencies), vec!["base-1.0.0", "base-2.0.0"]);
    assert!(app.build_dependencies.is_empty());
    let script = app.build_script_target.as_ref().unwrap();
    assert_eq!(script.kind, "custom-build");
    assert_eq!(script.path, "build.rs");
    assert!(app.targets.iter().all(|t| t.kind != "custom-build"));
    assert_eq!(app.additional_deps, vec!["//x:y"]);
    assert_eq!(app.additional_flags, vec!["--cfg=z"]);
    assert_eq!(app.extra_aliased_targets, vec!["alias"]);
    assert!(found[1].additional_deps.is_empty());
}

#[test]
fn settings_of_another_version_are_not_followed() {
    let mut own = no_settings();
    own.gen_buildrs = true;
    let mut versions = StringMap::new();
    versions.insert("0.2.0".to_string(), own);
    let mut all = settings(GenMode::Remote);
    all.crates.insert("app".to_string(), versions);
    assert!(all.of_crate(&"app".to_string(), &"0.2.0".to_string()).is_some());
    assert!(all.of_crate(&"app".to_string(), &"0.1.0".to_string()).is_none());
    assert!(all.of_crate(&"zlib".to_string(), &"0.2.0".to_string()).is_none());
    assert!(contexts(&all, &workspace()).unwrap()[0].build_script_target.is_none());
}

#[test]
fn the_order_of_the_packages_makes_no_difference() {
    let mut turned = workspace();
    turned.packages.reverse();
    let all = settings(GenMode::Remote);
    assert_eq!(
        format!("{:?}", contexts(&all, &workspace()).unwrap()),
        format!("{:?}", contexts(&all, &turned).unwrap())
    );
}

#[test]
fn the_root_package_makes_no_difference() {
    let mut changed = workspace();
    changed.packages[0].dependencies = vec![dependency("app", Some("build"), None)];
    changed.packages[0].targets = Vec::new();
    changed.packages[0].license = Some("GPL-3.0".to_string());
    let all = settings(GenMode::Remote);
    assert_eq!(
        format!("{:?}", contexts(&all, &workspace()).unwrap()),
        format!("{:?}", contexts(&all, &changed).unwrap())
    );
}

#[test]
fn unreadable_nodes_have_no_context() {
    assert!(!contexts_missing(&workspace()));
    let mut malformed = workspace();
    malformed.packages[1].dependencies[0].target = Some("cfg(unix)".to_string());
    assert!(contexts_missing(&malformed));
    let mut strange = workspace();
    strange.packages[1].dependencies[0].kind = Some("strange".to_string());
    assert!(contexts_missing(&strange));
    let mut dangling = workspace();
    dangling.resolve.nodes[2].dependencies.push("gone 1".to_string());
    assert!(contexts_missing(&dangling));
}

#[test]
fn errors_hide_what_comes_later() {
    let mut metadata = workspace();
    metadata.resolve.nodes[2].dependencies.push("gone 1".to_string());
    metadata.packages[1].targets[0].src_path = "/elsewhere/build.rs".to_string();
    let error = contexts(&settings(GenMode::Remote), &metadata).unwrap_err();
    assert_eq!(
        error.message,
        "app-0.1.0 had a target build-script-build whose crate root appeared to be outside of \
         the crate."
    );
    metadata.resolve.root = "nobody".to_string();
    let error = contexts(&settings(GenMode::Remote), &metadata).unwrap_err();
    assert_eq!(error.message, "Finding root crate details");
}

#[test]
fn outcomes_can_be_given() {
    let metadata = workspace();
    let mut outcomes = all_applicabilities_of(&metadata.packages, &linux());
    outcomes[1][3] = Applicability::Skipped;
    outcomes[1][4] = Applicability::Applies;
    assert!(planner().is_plannable(&metadata, &outcomes));
    let found = planner()
        .plan_contexts(&settings(GenMode::Remote), &metadata, &outcomes, &licenses(&metadata))
        .unwrap()
        .unwrap();
    assert!(found[0].build_dependencies.is_empty());
    assert_eq!(
        dep_names(&found[0].dependencies),
        vec!["base-1.0.0", "base-2.0.0", "winapi-0.3.0", "zlib-1.2.0"]
    );
    outcomes[1][5] = Applicability::Applies;
    assert!(!planner().is_plannable(&metadata, &outcomes));
    assert!(planner()
        .plan_contexts(&settings(GenMode::Remote), &metadata, &outcomes, &licenses(&metadata))
        .is_none());
}

// --- plans -----------------------------------------------------------------

#[test]
fn vendored_crates_have_to_be_there() {
    let metadata = workspace();
    assert_eq!(vendor_path_of(&metadata.packages[1]), "./vendor/app-0.1.0/");
    assert_eq!(vendor_paths_of(&metadata).len(), 7);
    let mut found = vec![true; 7];
    assert_eq!(planner().assert_crates_vendored(&metadata, &found), None);
    found[2] = false;
    found[4] = false;
    assert_eq!(
        planner().assert_crates_vendored(&metadata, &found).unwrap(),
        "failed to find ./vendor/zlib-1.2.0/. Either switch to \"Remote\" genmode, or run `cargo \
         vendor -x` first."
    );
    match planner().plan_vendored(&settings(GenMode::Vendored), metadata, &found) {
        PlanStep::Abort(complaint) => assert!(complaint.starts_with("failed to find ./vendor/zlib")),
        _ => panic!("the plan has to stop"),
    }
}

#[test]
fn a_vendored_plan_checks_first() {
    let mut planner = BuildPlannerImpl::new(Canned { answer: Some(Ok(workspace())) });
    let all = settings(GenMode::Vendored);
    let (metadata, paths) = match planner.plan_build(&all, files()) {
        PlanStep::CheckVendored { metadata, paths } => (metadata, paths),
        _ => panic!("vendored crates are looked for first"),
    };
    assert_eq!(paths[0], "./vendor/root-0.0.0/");
    assert_eq!(paths.len(), 7);
    match planner.plan_vendored(&all, metadata, &vec![true; 7]) {
        PlanStep::ReadPlatform { target, licenses, .. } => {
            assert_eq!(target, "x86_64-unknown-linux-gnu");
            assert_eq!(licenses[0], None);
            assert_eq!(licenses[1], Some("MIT/Apache-2.0".to_string()));
        }
        _ => panic!("the platform comes next"),
    }
}

#[test]
fn a_remote_plan_goes_to_the_platform() {
    let mut planner = BuildPlannerImpl::new(Canned { answer: Some(Ok(workspace())) });
    let all = settings(GenMode::Remote);
    let metadata = match planner.plan_build(&all, files()) {
        PlanStep::ReadPlatform { metadata, .. } => metadata,
        _ => panic!("the platform comes first"),
    };
    let plan = planner
        .plan_on_platform(&all, &metadata, &linux(), &licenses(&metadata))
        .unwrap()
        .unwrap();
    assert!(plan.crate_contexts.is_empty());
    assert_eq!(plan.workspace_context.workspace_path, "");
    assert_eq!(plan.workspace_context.platform_triple, "");
    assert_eq!(plan.workspace_context.gen_workspace_prefix, "");
}

#[test]
fn plans_fail_as_their_parts_do() {
    let all = settings(GenMode::Remote);
    let mut planner =
        BuildPlannerImpl::new(Canned { answer: Some(Err(build_planner_err("no luck"))) });
    match planner.plan_build(&all, files()) {
        PlanStep::Finish(Err(error)) => assert_eq!(error.message, "no luck"),
        _ => panic!("the plan has to fail"),
    }
    let mut rootless = workspace();
    rootless.resolve.root = "nobody".to_string();
    match planner.plan_fetched(&all, Ok(rootless)) {
        PlanStep::Finish(Err(error)) => assert_eq!(error.message, "Finding root crate details"),
        _ => panic!("the plan has to fail"),
    }
    let mut outside = workspace();
    outside.packages[2].targets[0].src_path = "/lib.rs".to_string();
    let error = planner
        .plan_on_platform(&all, &outside, &linux(), &licenses(&outside))
        .unwrap()
        .unwrap_err();
    assert!(error.message.starts_with("zlib-1.2.0 had a target zlib"));
    let mut dangling = workspace();
    dangling.resolve.nodes[1].dependencies.push("gone 1".to_string());
    assert!(planner.plan_on_platform(&all, &dangling, &linux(), &licenses(&dangling)).is_none());
}

// --- what holds of every plan ------------------------------------------------

#[test]
fn the_input_order_makes_no_difference_to_sorting() {
    let one = sort(vec![dep("b", "1"), dep("a", "2"), dep("a", "1")]);
    let other = sort(vec![dep("a", "1"), dep("b", "1"), dep("a", "2")]);
    assert_eq!(dep_names(&one), vec!["a-1", "a-2", "b-1"]);
    assert_eq!(dep_names(&one), dep_names(&other));
}

#[test]
fn a_closed_graph_that_passes_the_check_resolves() {
    let mut metadata = workspace();
    for id in ["base 2.0.0", "winapi 0.3.0", "cc 1.0.0", "base 1.0.0"] {
        metadata.resolve.nodes.push(node(id, &[]));
    }
    assert!(planner().check_graph(&metadata).is_ok());
    let by_id = packages_by_id(&metadata.packages);
    for node in metadata.resolve.nodes.iter() {
        let deps = resolve_dependencies(&node.dependencies, &metadata.packages, &by_id);
        assert_eq!(deps.unwrap().len(), node.dependencies.len());
    }
    assert_eq!(contexts(&settings(GenMode::Remote), &metadata).unwrap().len(), 6);
}

#[test]
fn paths_go_on_below_the_directory_in_bytes_too() {
    let src_path = "/\u{e9}/foo-1.0.0/\u{1f600}/foo-1.0.0/a.rs";
    let mut krate = package("foo", "1.0.0");
    krate.targets = vec![target("foo", &["lib"], src_path)];
    let path = planner().produce_targets(&krate).unwrap()[0].path.clone();
    let at = src_path.find("foo-1.0.0/").unwrap();
    assert_eq!(path.as_bytes(), &src_path.as_bytes()[at + "foo-1.0.0/".len()..]);
}

#[test]
fn the_plan_of_a_lone_root_is_empty() {
    let mut metadata = workspace();
    metadata.resolve.nodes.truncate(1);
    assert!(contexts(&settings(GenMode::Remote), &metadata).unwrap().is_empty());
}
