//! The build planner.

use crate::context::{CrateContext, CrateContextView, WorkspaceContext, WorkspaceContextView};
use crate::contexts::{all_licenses, planned_contexts};
use crate::error::{RazeErrView, RazeResult};
use crate::fetcher::{CargoWorkspaceFiles, MetadataFetcher};
use crate::graph::checked_root_dependencies;
use crate::license::{AvailableLicense, AvailableLicenseView};
use crate::metadata::{Metadata, MetadataView};
use crate::platform::{all_applicabilities, Applicability, PlatformAttr};
use crate::requests::{license_requests, optional_texts};
use crate::settings::{GenMode, RazeSettings, RazeSettingsView};
use crate::text::views;
use crate::vendor::{
    the_first_absent_package_is_named, vendor_paths, vendor_paths_of, vendoring_complaint,
};
use vstd::prelude::*;

verus! {

/// A build as it was planned.
#[derive(Debug)]
pub struct PlannedBuild {
    pub workspace_context: WorkspaceContext,
    pub crate_contexts: Vec<CrateContext>,
}

#[verifier::ext_equal]
pub struct PlannedBuildView {
    pub workspace_context: WorkspaceContextView,
    pub crate_contexts: Seq<CrateContextView>,
}

impl View for PlannedBuild {
    type V = PlannedBuildView;

    open spec fn view(&self) -> PlannedBuildView {
        PlannedBuildView {
            workspace_context: self.workspace_context@,
            crate_contexts: views(self.crate_contexts@),
        }
    }
}

/// An entity that can plan a build.
pub trait BuildPlanner {
    fn plan_build(
        &mut self,
        settings: &RazeSettings,
        files: CargoWorkspaceFiles,
    ) -> RazeResult<PlannedBuild>;
}

/// Plans builds from the metadata that a fetcher retrieves.
pub struct BuildPlannerImpl<F: MetadataFetcher> {
    metadata_fetcher: F,
}

/// What a plan needs next.
pub enum PlanStep {
    /// Whether each of the paths exists; then the plan goes on with
    /// [`BuildPlannerImpl::plan_vendored`].
    CheckVendored { metadata: Metadata, paths: Vec<String> },
    /// The attributes of the target platform, and the licenses that each license expression
    /// stands for. There is one place for each package, which is `None` where its licenses
    /// are not needed. Then the plan goes on with [`BuildPlannerImpl::plan_on_platform`].
    ReadPlatform { metadata: Metadata, target: String, licenses: Vec<Option<String>> },
    /// Nothing: the plan has failed or is done.
    Finish(RazeResult<PlannedBuild>),
    /// Nothing: the workspace is not as it has to be.
    Abort(String),
}

#[verifier::ext_equal]
pub enum PlanStepView {
    CheckVendored { metadata: MetadataView, paths: Seq<Seq<char>> },
    ReadPlatform { metadata: MetadataView, target: Seq<char>, licenses: Seq<Option<Seq<char>>> },
    Finish(Result<PlannedBuildView, RazeErrView>),
    Abort(Seq<char>),
}

/// The view of a plan that may have failed.
pub open spec fn plan_result(plan: RazeResult<PlannedBuild>) -> Result<
    PlannedBuildView,
    RazeErrView,
> {
    match plan {
        Ok(plan) => Ok(plan@),
        Err(error) => Err(error@),
    }
}

/// The view of a plan that may have failed or may be missing.
pub open spec fn optional_plan(plan: Option<RazeResult<PlannedBuild>>) -> Option<
    Result<PlannedBuildView, RazeErrView>,
> {
    match plan {
        Some(plan) => Some(plan_result(plan)),
        None => None,
    }
}

/// The view of metadata that may not have been had.
pub open spec fn fetch_result(fetched: RazeResult<Metadata>) -> Result<MetadataView, RazeErrView> {
    match fetched {
        Ok(metadata) => Ok(metadata@),
        Err(error) => Err(error@),
    }
}

impl View for PlanStep {
    type V = PlanStepView;

    open spec fn view(&self) -> PlanStepView {
        match *self {
            PlanStep::CheckVendored { metadata, paths } => PlanStepView::CheckVendored {
                metadata: metadata@,
                paths: views(paths@),
            },
            PlanStep::ReadPlatform { metadata, target, licenses } => PlanStepView::ReadPlatform {
                metadata: metadata@,
                target: target@,
                licenses: optional_texts(licenses@),
            },
            PlanStep::Finish(plan) => PlanStepView::Finish(plan_result(plan)),
            PlanStep::Abort(complaint) => PlanStepView::Abort(complaint@),
        }
    }
}

/// A graph that is not in order ends a plan; any other is planned on its platform.
pub open spec fn step_after_checks(
    settings: RazeSettingsView,
    metadata: MetadataView,
) -> PlanStepView {
    match checked_root_dependencies(metadata) {
        Err(error) => PlanStepView::Finish(Err(error)),
        Ok(_) => PlanStepView::ReadPlatform {
            metadata,
            target: settings.target,
            licenses: license_requests(metadata),
        },
    }
}

/// A failure to have the metadata ends a plan; vendored crates have to be there.
pub open spec fn step_after_fetch(
    settings: RazeSettingsView,
    fetched: Result<MetadataView, RazeErrView>,
) -> PlanStepView {
    match fetched {
        Err(error) => PlanStepView::Finish(Err(error)),
        Ok(metadata) => if settings.genmode == GenMode::Vendored {
            PlanStepView::CheckVendored { metadata, paths: vendor_paths(metadata) }
        } else {
            step_after_checks(settings, metadata)
        },
    }
}

/// A crate that is not vendored ends a plan.
pub open spec fn step_after_vendor_check(
    settings: RazeSettingsView,
    metadata: MetadataView,
    found: Seq<bool>,
) -> PlanStepView {
    match vendoring_complaint(metadata, found) {
        Some(complaint) => PlanStepView::Abort(complaint),
        None => step_after_checks(settings, metadata),
    }
}

/// The plan that holds nothing.
pub open spec fn empty_plan() -> PlannedBuildView {
    PlannedBuildView {
        workspace_context: WorkspaceContextView {
            workspace_path: Seq::empty(),
            platform_triple: Seq::empty(),
            gen_workspace_prefix: Seq::empty(),
        },
        crate_contexts: Seq::empty(),
    }
}

/// A plan succeeds, with nothing in it as yet, where the contexts of all crates can be worked
/// out, and fails as they do.
pub open spec fn finished_plan(
    settings: RazeSettingsView,
    metadata: MetadataView,
    outcomes: Seq<Seq<Applicability>>,
    available: Seq<Seq<AvailableLicenseView>>,
) -> Option<Result<PlannedBuildView, RazeErrView>> {
    match planned_contexts(settings, metadata, outcomes, available) {
        None => None,
        Some(Err(error)) => Some(Err(error)),
        Some(Ok(_)) => Some(Ok(empty_plan())),
    }
}

/// A plan that does not use vendored crates never looks for them, and so never stops for
/// want of them.
pub proof fn remote_plans_need_no_vendoring(
    settings: RazeSettingsView,
    fetched: Result<MetadataView, RazeErrView>,
)
    requires
        settings.genmode == GenMode::Remote,
    ensures
        !(step_after_fetch(settings, fetched) is CheckVendored),
        !(step_after_fetch(settings, fetched) is Abort),
{
}

/// A plan comes to its platform exactly where the graph is in order. Where it is not, the plan
/// ends before, with what it would have come to on any platform.
pub proof fn graph_errors_come_before_the_platform(
    settings: RazeSettingsView,
    metadata: MetadataView,
    outcomes: Seq<Seq<Applicability>>,
    available: Seq<Seq<AvailableLicenseView>>,
)
    ensures
        step_after_checks(settings, metadata) is ReadPlatform <==> checked_root_dependencies(
            metadata,
        ) is Ok,
        step_after_checks(settings, metadata) matches PlanStepView::Finish(plan) ==> Some(plan)
            == finished_plan(settings, metadata, outcomes, available),
{
}

impl<F: MetadataFetcher> BuildPlannerImpl<F> {
    /// The fetcher that the planner uses.
    pub closed spec fn fetcher(self) -> F {
        self.metadata_fetcher
    }

    /// A planner that uses the given fetcher.
    pub fn new(metadata_fetcher: F) -> (planner: BuildPlannerImpl<F>)
        ensures
            planner.fetcher() == metadata_fetcher,
    {
        BuildPlannerImpl { metadata_fetcher }
    }

    /// Starts a plan: hands the files to the fetcher and takes the first step on what comes
    /// back.
    pub fn plan_build(&mut self, settings: &RazeSettings, files: CargoWorkspaceFiles) -> (step:
        PlanStep)
        ensures
            exists|fetcher: &mut F, fetched: RazeResult<Metadata>|
                *fetcher == old(self).fetcher() && *final(fetcher) == final(self).fetcher()
                    && #[trigger] call_ensures(F::fetch_metadata, (fetcher, files), fetched)
                    && step@ == step_after_fetch(settings@, fetch_result(fetched)),
    {
        let fetched = self.metadata_fetcher.fetch_metadata(files);
        self.plan_fetched(settings, fetched)
    }

    /// Takes the first step of a plan on what was fetched.
    pub fn plan_fetched(&self, settings: &RazeSettings, fetched: RazeResult<Metadata>) -> (step:
        PlanStep)
        ensures
            step@ == step_after_fetch(settings@, fetch_result(fetched)),
    {
        match fetched {
            Err(error) => PlanStep::Finish(Err(error)),
            Ok(metadata) => if settings.genmode == GenMode::Vendored {
                let paths = vendor_paths_of(&metadata);
                PlanStep::CheckVendored { metadata, paths }
            } else {
                self.plan_checked(settings, metadata)
            },
        }
    }

    /// Goes on with a plan; `found` says of each package whether it is vendored.
    pub fn plan_vendored(
        &self,
        settings: &RazeSettings,
        metadata: Metadata,
        found: &Vec<bool>,
    ) -> (step: PlanStep)
        requires
            found.len() == metadata.packages.len(),
        ensures
            step@ == step_after_vendor_check(settings@, metadata@, found@),
    {
        match self.assert_crates_vendored(&metadata, found) {
            Some(complaint) => PlanStep::Abort(complaint),
            None => self.plan_checked(settings, metadata),
        }
    }

    /// Goes on with a plan on the graph.
    fn plan_checked(&self, settings: &RazeSettings, metadata: Metadata) -> (step: PlanStep)
        ensures
            step@ == step_after_checks(settings@, metadata@),
    {
        match self.check_graph(&metadata) {
            Err(error) => PlanStep::Finish(Err(error)),
            Ok(_) => {
                let licenses = self.request_licenses(&metadata);
                PlanStep::ReadPlatform { metadata, target: settings.target.clone(), licenses }
            },
        }
    }

    /// Finishes a plan on a platform with the given attributes; `available` lists the licenses
    /// of each package. `None` where a declaration that has to be looked at cannot be read,
    /// or a dependency is no package.
    pub fn plan_on_platform(
        &self,
        settings: &RazeSettings,
        metadata: &Metadata,
        attrs: &Vec<PlatformAttr>,
        available: &Vec<Vec<AvailableLicense>>,
    ) -> (plan: Option<RazeResult<PlannedBuild>>)
        requires
            available.len() == metadata.packages.len(),
        ensures
            optional_plan(plan) == finished_plan(
                settings@,
                metadata@,
                all_applicabilities(metadata@.packages, views(attrs@)),
                all_licenses(available@),
            ),
    {
        match self.try_produce_crate_contexts(settings, metadata, attrs, available) {
            None => None,
            Some(Err(error)) => Some(Err(error)),
            Some(Ok(_)) => {
                let plan = PlannedBuild {
                    workspace_context: WorkspaceContext {
                        workspace_path: String::new(),
                        platform_triple: String::new(),
                        gen_workspace_prefix: String::new(),
                    },
                    crate_contexts: Vec::new(),
                };
                assert(plan@ =~= empty_plan());
                Some(Ok(plan))
            },
        }
    }
}

// ---------------------------------------------------------------------------
// Laws
// ---------------------------------------------------------------------------

/// What is said of a step is said of each of its parts.
pub proof fn step_views_show_the_parts(step: PlanStep)
    ensures
        step matches PlanStep::CheckVendored { metadata, paths } ==> (
        step@ matches PlanStepView::CheckVendored { metadata: m, paths: p } && m == metadata@
            && p.len() == paths@.len() && forall|i: int|
            0 <= i < p.len() ==> #[trigger] p[i] == paths@[i]@),
        step matches PlanStep::ReadPlatform { metadata, target, licenses } ==> step@
            == (PlanStepView::ReadPlatform {
            metadata: metadata@,
            target: target@,
            licenses: optional_texts(licenses@),
        }),
        step matches PlanStep::Finish(Ok(plan)) ==> step@ == PlanStepView::Finish(Ok(plan@)),
        step matches PlanStep::Finish(Err(error)) ==> step@ == PlanStepView::Finish(Err(error@)),
        step matches PlanStep::Abort(complaint) ==> step@ == PlanStepView::Abort(complaint@),
{
}

/// What is said of a plan is said of its workspace and of each of its contexts, in its place.
pub proof fn plan_views_show_the_parts(plan: PlannedBuild)
    ensures
        plan@.workspace_context == plan.workspace_context@,
        plan@.crate_contexts.len() == plan.crate_contexts@.len(),
        forall|i: int|
            0 <= i < plan.crate_contexts@.len() ==> #[trigger] plan@.crate_contexts[i]
                == plan.crate_contexts@[i]@,
{
}

/// What is said of a result is said of what succeeded and of what failed.
pub proof fn results_keep_success_and_failure(
    plan: RazeResult<PlannedBuild>,
    fetched: RazeResult<Metadata>,
)
    ensures
        plan matches Ok(value) ==> plan_result(plan) == Ok::<_, RazeErrView>(value@),
        plan matches Err(error) ==> plan_result(plan) == Err::<PlannedBuildView, _>(error@),
        optional_plan(Some(plan)) == Some(plan_result(plan)),
        optional_plan(None) is None,
        fetched matches Ok(value) ==> fetch_result(fetched) == Ok::<_, RazeErrView>(value@),
        fetched matches Err(error) ==> fetch_result(fetched) == Err::<MetadataView, _>(error@),
{
}

/// A plan ends with the error of a fetcher that failed, in either mode.
pub proof fn fetch_errors_end_the_plan(settings: RazeSettingsView, error: RazeErrView)
    ensures
        step_after_fetch(settings, Err(error)) == PlanStepView::Finish(Err(error)),
{
}

/// A vendored plan asks for the directory of each package first. Where all are there, it goes
/// on just as a remote plan starts; where one is not, it stops with what is said of the first
/// that is not.
pub proof fn vendored_plans_go_on_as_remote_ones(
    vendored: RazeSettingsView,
    remote: RazeSettingsView,
    metadata: MetadataView,
    found: Seq<bool>,
)
    requires
        vendored.genmode == GenMode::Vendored,
        remote.genmode == GenMode::Remote,
        vendored.target == remote.target,
        found.len() == metadata.packages.len(),
    ensures
        step_after_fetch(vendored, Ok(metadata)) == (PlanStepView::CheckVendored {
            metadata,
            paths: vendor_paths(metadata),
        }),
        (forall|i: int| 0 <= i < found.len() ==> #[trigger] found[i]) ==> step_after_vendor_check(
            vendored,
            metadata,
            found,
        ) == step_after_fetch(remote, Ok(metadata)),
        !(forall|i: int| 0 <= i < found.len() ==> #[trigger] found[i]) ==> (
        step_after_vendor_check(vendored, metadata, found) matches PlanStepView::Abort(complaint)
            && vendoring_complaint(metadata, found) == Some(complaint)),
{
    the_first_absent_package_is_named(metadata, found, 0);
}

/// A plan on a graph in order goes to the platform that the settings name, with the metadata as
/// they are and the license expressions that it needs looked up. On any other graph it ends
/// with the error of the graph.
pub proof fn plans_go_to_the_platform_of_the_settings(
    settings: RazeSettingsView,
    metadata: MetadataView,
)
    requires
        settings.genmode == GenMode::Remote,
    ensures
        checked_root_dependencies(metadata) is Ok ==> step_after_fetch(settings, Ok(metadata))
            == (PlanStepView::ReadPlatform {
            metadata,
            target: settings.target,
            licenses: license_requests(metadata),
        }),
        checked_root_dependencies(metadata) matches Err(error) ==> step_after_fetch(
            settings,
            Ok(metadata),
        ) == PlanStepView::Finish(Err(error)),
{
}

/// On its platform a plan fails as its contexts do, and exists where they do. Where they can
/// all be worked out, it succeeds, and holds no contexts and names nothing.
pub proof fn plans_end_as_their_contexts_do(
    settings: RazeSettingsView,
    metadata: MetadataView,
    outcomes: Seq<Seq<Applicability>>,
    available: Seq<Seq<AvailableLicenseView>>,
)
    ensures
        ({
            let contexts = planned_contexts(settings, metadata, outcomes, available);
            let plan = finished_plan(settings, metadata, outcomes, available);
            &&& plan is Some <==> contexts is Some
            &&& contexts matches Some(Err(error)) ==> plan == Some(
                Err::<PlannedBuildView, _>(error),
            )
            &&& contexts matches Some(Ok(_)) ==> (plan matches Some(Ok(build))
                && build.crate_contexts.len() == 0 && build.workspace_context.workspace_path.len()
                == 0 && build.workspace_context.platform_triple.len() == 0
                && build.workspace_context.gen_workspace_prefix.len() == 0)
        }),
{
}

} // verus!
