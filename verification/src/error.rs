//! Errors of the planner's components.

use vstd::prelude::*;

verus! {

pub type RazeResult<T> = Result<T, RazeErr>;

/// A failure of one component of the planner.
#[derive(Debug, Clone)]
pub struct RazeErr {
    pub component: String,
    pub message: String,
}

/// What a [`RazeErr`] says.
pub struct RazeErrView {
    pub component: Seq<char>,
    pub message: Seq<char>,
}

impl View for RazeErr {
    type V = RazeErrView;

    open spec fn view(&self) -> RazeErrView {
        RazeErrView { component: self.component@, message: self.message@ }
    }
}

/// An error of the build planner with the given message.
pub open spec fn planner_error(message: Seq<char>) -> RazeErrView {
    RazeErrView { component: "BuildPlanner"@, message }
}

/// An error of the metadata fetcher with the given message.
pub open spec fn fetcher_error(message: Seq<char>) -> RazeErrView {
    RazeErrView { component: "MetadataFetcher"@, message }
}

/// Reports `message` as a failure of the build planner.
pub fn build_planner_err(message: &str) -> (err: RazeErr)
    ensures
        err@ == planner_error(message@),
{
    RazeErr { component: "BuildPlanner".to_owned(), message: message.to_owned() }
}

/// Reports `message` as a failure of the metadata fetcher.
pub fn metadata_fetcher_err(message: &str) -> (err: RazeErr)
    ensures
        err@ == fetcher_error(message@),
{
    RazeErr { component: "MetadataFetcher".to_owned(), message: message.to_owned() }
}

/// What is said of an error is said of each of its fields.
pub proof fn error_views_show_the_fields(error: RazeErr)
    ensures
        error@.component == error.component@,
        error@.message == error.message@,
{
}

/// An error keeps its message, whichever component reports it, and names the component.
pub proof fn errors_keep_their_message(message: Seq<char>)
    ensures
        planner_error(message).message == message,
        planner_error(message).component == "BuildPlanner"@,
        fetcher_error(message).message == message,
        fetcher_error(message).component == "MetadataFetcher"@,
{
}

} // verus!
