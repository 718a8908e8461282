//! Retrieving the metadata of a workspace.

use crate::error::{fetcher_error, metadata_fetcher_err, RazeErr, RazeErrView, RazeResult};
use crate::metadata::{Metadata, MetadataView};
use crate::text::views;
use vstd::prelude::*;
use vstd::string::*;
use vstd::utf8::{
    decode_utf8, decode_utf8_encode_utf8, encode_utf8, encode_utf8_decode_utf8,
    encode_utf8_valid_utf8, valid_utf8,
};

verus! {

/// `std::path::PathBuf`, of which nothing is claimed: a path is only carried along.
#[verifier::external_type_specification]
#[verifier::external_body]
pub struct ExPathBuf(std::path::PathBuf);

/// The files that describe a workspace.
pub struct CargoWorkspaceFiles {
    pub toml_path: std::path::PathBuf,
    pub lock_path_opt: Option<std::path::PathBuf>,
}

/// An entity that can retrieve the metadata of a workspace.
///
/// [`CargoSubcommandMetadataFetcher`] holds what there is to decide in asking cargo for it.
pub trait MetadataFetcher {
    fn fetch_metadata(&mut self, files: CargoWorkspaceFiles) -> RazeResult<Metadata>;
}

/// Retrieves metadata by running `cargo metadata` on a copy of the files of a workspace.
pub struct CargoSubcommandMetadataFetcher;

/// A piece of work that retrieving metadata takes.
#[derive(Debug, Clone, Copy, PartialEq, Eq, Structural)]
pub enum FetchTask {
    /// Create a temporary directory.
    CreateTempdir,
    /// Copy the manifest into it.
    CopyToml,
    /// Copy the lock file into it.
    CopyLock,
    /// Run cargo in it.
    RunCargo,
    /// Read metadata from what cargo printed.
    ParseOutput,
}

/// What came of a piece of work.
pub enum FetchEvent {
    /// It could not be done.
    Failed,
    /// It was done.
    Done,
    /// Cargo ran to its end.
    CargoRan { success: bool, stdout: Vec<u8>, stderr: Vec<u8> },
    /// Metadata were read.
    Parsed(Metadata),
}

/// What retrieving metadata needs next.
pub enum FetchAction {
    /// That a temporary directory be created, with the given start of its name.
    CreateTempdir { prefix: String },
    /// That the manifest be copied.
    CopyToml,
    /// That the lock file be copied.
    CopyLock,
    /// That cargo be run with the given arguments.
    RunCargo { arguments: Vec<String> },
    /// That metadata be read from a text.
    ParseOutput { text: String },
    /// That the lines be printed, if there are any; the retrieval has failed.
    Fail { lines: Vec<String>, error: RazeErr },
    /// Nothing: the metadata are there.
    Finish(Metadata),
}

#[verifier::ext_equal]
pub enum FetchEventView {
    Failed,
    Done,
    CargoRan { success: bool, stdout: Seq<u8>, stderr: Seq<u8> },
    Parsed(MetadataView),
}

#[verifier::ext_equal]
pub enum FetchActionView {
    CreateTempdir { prefix: Seq<char> },
    CopyToml,
    CopyLock,
    RunCargo { arguments: Seq<Seq<char>> },
    ParseOutput { text: Seq<char> },
    Fail { lines: Seq<Seq<char>>, error: RazeErrView },
    Finish(MetadataView),
}

impl View for FetchEvent {
    type V = FetchEventView;

    open spec fn view(&self) -> FetchEventView {
        match *self {
            FetchEvent::Failed => FetchEventView::Failed,
            FetchEvent::Done => FetchEventView::Done,
            FetchEvent::CargoRan { success, stdout, stderr } => FetchEventView::CargoRan {
                success,
                stdout: stdout@,
                stderr: stderr@,
            },
            FetchEvent::Parsed(metadata) => FetchEventView::Parsed(metadata@),
        }
    }
}

impl View for FetchAction {
    type V = FetchActionView;

    open spec fn view(&self) -> FetchActionView {
        match *self {
            FetchAction::CreateTempdir { prefix } => FetchActionView::CreateTempdir {
                prefix: prefix@,
            },
            FetchAction::CopyToml => FetchActionView::CopyToml,
            FetchAction::CopyLock => FetchActionView::CopyLock,
            FetchAction::RunCargo { arguments } => FetchActionView::RunCargo {
                arguments: views(arguments@),
            },
            FetchAction::ParseOutput { text } => FetchActionView::ParseOutput { text: text@ },
            FetchAction::Fail { lines, error } => FetchActionView::Fail {
                lines: views(lines@),
                error: error@,
            },
            FetchAction::Finish(metadata) => FetchActionView::Finish(metadata@),
        }
    }
}

/// Whether an event can come of a piece of work. Anything can fail; only cargo leaves
/// output, and only reading it gives metadata.
pub open spec fn comes_of(event: FetchEventView, task: FetchTask) -> bool {
    match event {
        FetchEventView::Failed => true,
        FetchEventView::Done => task == FetchTask::CreateTempdir || task == FetchTask::CopyToml
            || task == FetchTask::CopyLock,
        FetchEventView::CargoRan { .. } => task == FetchTask::RunCargo,
        FetchEventView::Parsed(_) => task == FetchTask::ParseOutput,
    }
}

/// What is said of a piece of work that failed.
pub open spec fn failure_message(task: FetchTask) -> Seq<char> {
    match task {
        FetchTask::CreateTempdir => "creating tempdir"@,
        FetchTask::CopyToml => "copying cargo toml"@,
        FetchTask::CopyLock => "copying cargo lock"@,
        FetchTask::RunCargo => "running `cargo metadata`"@,
        FetchTask::ParseOutput => "parsing `cargo metadata` output"@,
    }
}

/// The text that bytes encode, or a stand-in where they encode none.
pub open spec fn output_text(bytes: Seq<u8>) -> Seq<char> {
    if valid_utf8(bytes) {
        decode_utf8(bytes)
    } else {
        "[unparsable bytes]"@
    }
}

/// The arguments that ask cargo for metadata.
pub open spec fn metadata_arguments() -> Seq<Seq<char>> {
    seq!["metadata"@, "--format-version"@, "1"@]
}

/// What follows when a piece of work was done, failed or left output.
pub open spec fn action_after(
    has_lock: bool,
    task: FetchTask,
    event: FetchEventView,
) -> FetchActionView {
    match event {
        FetchEventView::Failed => FetchActionView::Fail {
            lines: Seq::empty(),
            error: fetcher_error(failure_message(task)),
        },
        FetchEventView::Done => if task == FetchTask::CreateTempdir {
            FetchActionView::CopyToml
        } else if task == FetchTask::CopyToml && has_lock {
            FetchActionView::CopyLock
        } else {
            FetchActionView::RunCargo { arguments: metadata_arguments() }
        },
        FetchEventView::CargoRan { success, stdout, stderr } => if success {
            FetchActionView::ParseOutput { text: output_text(stdout) }
        } else {
            FetchActionView::Fail {
                lines: seq![
                    "`cargo metadata` failed. Inspect Cargo.toml for issues!"@,
                    "stdout: "@ + output_text(stdout),
                    "stderr: "@ + output_text(stderr),
                ],
                error: fetcher_error("running `cargo metadata`"@),
            }
        },
        FetchEventView::Parsed(metadata) => FetchActionView::Finish(metadata),
    }
}

/// The piece of work that an action asks for, if it asks for one.
pub open spec fn asks_for(action: FetchActionView) -> Option<FetchTask> {
    match action {
        FetchActionView::CreateTempdir { .. } => Some(FetchTask::CreateTempdir),
        FetchActionView::CopyToml => Some(FetchTask::CopyToml),
        FetchActionView::CopyLock => Some(FetchTask::CopyLock),
        FetchActionView::RunCargo { .. } => Some(FetchTask::RunCargo),
        FetchActionView::ParseOutput { .. } => Some(FetchTask::ParseOutput),
        FetchActionView::Fail { .. } => None,
        FetchActionView::Finish(_) => None,
    }
}

/// How many pieces of work come before this one at most.
pub open spec fn rank(task: FetchTask) -> nat {
    match task {
        FetchTask::CreateTempdir => 0,
        FetchTask::CopyToml => 1,
        FetchTask::CopyLock => 2,
        FetchTask::RunCargo => 3,
        FetchTask::ParseOutput => 4,
    }
}

/// Retrieving metadata only goes forward: whatever comes of a piece of work, it is not asked
/// for again, nor is one before it. So it ends. A lock file that is not there is not copied.
pub proof fn retrieval_goes_forward(has_lock: bool, task: FetchTask, event: FetchEventView)
    requires
        comes_of(event, task),
    ensures
        asks_for(action_after(has_lock, task, event)) matches Some(next) ==> rank(next) > rank(
            task,
        ),
        !has_lock ==> asks_for(action_after(has_lock, task, event)) != Some(FetchTask::CopyLock),
{
}

/// Whatever fails, the error is the fetcher's own; and metadata are had only by reading
/// them from the output of a run that succeeded.
pub proof fn retrieval_ends_as_it_went(has_lock: bool, task: FetchTask, event: FetchEventView)
    requires
        comes_of(event, task),
    ensures
        action_after(has_lock, task, event) matches FetchActionView::Fail { error, .. }
            ==> error.component == "MetadataFetcher"@,
        action_after(has_lock, task, event) matches FetchActionView::Finish(metadata) ==> task
            == FetchTask::ParseOutput && event == FetchEventView::Parsed(metadata),
        asks_for(action_after(has_lock, task, event)) == Some(FetchTask::ParseOutput) ==> (event
            matches FetchEventView::CargoRan { success, .. } && success),
{
}

/// Calls `String::from_utf8`. Claims that it succeeds exactly on valid UTF-8, and then gives
/// the characters that the bytes encode.
#[verifier::external_body]
fn text_from_utf8(bytes: Vec<u8>) -> (text: Option<String>)
    ensures
        text is Some <==> valid_utf8(bytes@),
        text matches Some(text) ==> text@ == decode_utf8(bytes@),
{
    String::from_utf8(bytes).ok()
}

/// The text that bytes encode, or a stand-in where they encode none.
pub fn text_of_output(bytes: Vec<u8>) -> (text: String)
    ensures
        text@ == output_text(bytes@),
{
    match text_from_utf8(bytes) {
        Some(text) => text,
        None => "[unparsable bytes]".to_owned(),
    }
}

impl CargoSubcommandMetadataFetcher {
    /// Starts to retrieve metadata. The manifest has to be a file, and so has the lock file
    /// where there is one; `None` where they are not.
    pub fn start(&self, toml_is_file: bool, lock_is_file: Option<bool>) -> (action: Option<
        FetchAction,
    >)
        ensures
            action is Some <==> toml_is_file && lock_is_file != Some(false),
            action matches Some(action) ==> action@ == (FetchActionView::CreateTempdir {
                prefix: "cargo_raze_metadata_dir"@,
            }),
    {
        let lock_usable = match lock_is_file {
            Some(is_file) => is_file,
            None => true,
        };
        if toml_is_file && lock_usable {
            Some(FetchAction::CreateTempdir { prefix: "cargo_raze_metadata_dir".to_owned() })
        } else {
            None
        }
    }

    /// Says what to do once a piece of work has ended; `has_lock` says whether the workspace
    /// has a lock file.
    pub fn fetch_metadata(&self, has_lock: bool, task: FetchTask, event: FetchEvent) -> (action:
        FetchAction)
        requires
            comes_of(event@, task),
        ensures
            action@ == action_after(has_lock, task, event@),
    {
        match event {
            FetchEvent::Failed => {
                let message = match task {
                    FetchTask::CreateTempdir => "creating tempdir",
                    FetchTask::CopyToml => "copying cargo toml",
                    FetchTask::CopyLock => "copying cargo lock",
                    FetchTask::RunCargo => "running `cargo metadata`",
                    FetchTask::ParseOutput => "parsing `cargo metadata` output",
                };
                let lines: Vec<String> = Vec::new();
                assert(views(lines@) =~= Seq::empty());
                FetchAction::Fail { lines, error: metadata_fetcher_err(message) }
            },
            FetchEvent::Done => if task == FetchTask::CreateTempdir {
                FetchAction::CopyToml
            } else if task == FetchTask::CopyToml && has_lock {
                FetchAction::CopyLock
            } else {
                let mut arguments: Vec<String> = Vec::new();
                arguments.push("metadata".to_owned());
                arguments.push("--format-version".to_owned());
                arguments.push("1".to_owned());
                assert(views(arguments@) =~= metadata_arguments());
                FetchAction::RunCargo { arguments }
            },
            FetchEvent::CargoRan { success, stdout, stderr } => {
                let printed = text_of_output(stdout);
                if success {
                    FetchAction::ParseOutput { text: printed }
                } else {
                    let complained = text_of_output(stderr);
                    let mut lines: Vec<String> = Vec::new();
                    lines.push(
                        "`cargo metadata` failed. Inspect Cargo.toml for issues!".to_owned(),
                    );
                    lines.push("stdout: ".to_owned().concat(printed.as_str()));
                    lines.push("stderr: ".to_owned().concat(complained.as_str()));
                    assert(views(lines@) =~= seq![
                        "`cargo metadata` failed. Inspect Cargo.toml for issues!"@,
                        "stdout: "@ + output_text(stdout@),
                        "stderr: "@ + output_text(stderr@),
                    ]);
                    FetchAction::Fail {
                        lines,
                        error: metadata_fetcher_err("running `cargo metadata`"),
                    }
                }
            },
            FetchEvent::Parsed(metadata) => FetchAction::Finish(metadata),
        }
    }
}

// ---------------------------------------------------------------------------
// Laws
// ---------------------------------------------------------------------------

/// What is said of an event or an action is said of each of its parts.
pub proof fn fetch_views_show_the_parts(event: FetchEvent, action: FetchAction)
    ensures
        event is Failed <==> event@ is Failed,
        event is Done <==> event@ is Done,
        event matches FetchEvent::CargoRan { success, stdout, stderr } ==> event@
            == (FetchEventView::CargoRan { success, stdout: stdout@, stderr: stderr@ }),
        event matches FetchEvent::Parsed(metadata) ==> event@ == FetchEventView::Parsed(metadata@),
        action matches FetchAction::CreateTempdir { prefix } ==> action@
            == (FetchActionView::CreateTempdir { prefix: prefix@ }),
        action is CopyToml <==> action@ is CopyToml,
        action is CopyLock <==> action@ is CopyLock,
        action matches FetchAction::RunCargo { arguments } ==> (
        action@ matches FetchActionView::RunCargo { arguments: shown } && shown.len()
            == arguments@.len() && forall|i: int|
            0 <= i < shown.len() ==> #[trigger] shown[i] == arguments@[i]@),
        action matches FetchAction::ParseOutput { text } ==> action@
            == (FetchActionView::ParseOutput { text: text@ }),
        action matches FetchAction::Fail { lines, error } ==> (
        action@ matches FetchActionView::Fail { lines: shown, error: e } && e == error@
            && shown.len() == lines@.len() && forall|i: int|
            0 <= i < shown.len() ==> #[trigger] shown[i] == lines@[i]@),
        action matches FetchAction::Finish(metadata) ==> action@ == FetchActionView::Finish(
            metadata@,
        ),
{
}

/// Any work can fail. Work on files can be done, only cargo runs, and only output is read.
pub proof fn events_come_of_their_work(
    task: FetchTask,
    success: bool,
    stdout: Seq<u8>,
    stderr: Seq<u8>,
    metadata: MetadataView,
)
    ensures
        comes_of(FetchEventView::Failed, task),
        comes_of(FetchEventView::Done, task) <==> task != FetchTask::RunCargo && task
            != FetchTask::ParseOutput,
        comes_of(FetchEventView::CargoRan { success, stdout, stderr }, task) <==> task
            == FetchTask::RunCargo,
        comes_of(FetchEventView::Parsed(metadata), task) <==> task == FetchTask::ParseOutput,
{
}

/// Work that is done leads on: from the directory to the manifest, from the manifest to the
/// lock file where there is one, and from there to cargo, which is asked for metadata of
/// format version 1.
pub proof fn work_that_is_done_leads_on(has_lock: bool, task: FetchTask)
    requires
        comes_of(FetchEventView::Done, task),
    ensures
        ({
            let next = action_after(has_lock, task, FetchEventView::Done);
            &&& next is CopyToml <==> task == FetchTask::CreateTempdir
            &&& next is CopyLock <==> task == FetchTask::CopyToml && has_lock
            &&& next is RunCargo <==> task == FetchTask::CopyLock || (task == FetchTask::CopyToml
                && !has_lock)
            &&& next matches FetchActionView::RunCargo { arguments } ==> arguments.len() == 3
                && arguments[0] == "metadata"@ && arguments[1] == "--format-version"@
                && arguments[2] == "1"@
        }),
{
}

/// Work that fails ends the retrieval with nothing to print and an error that names the work.
pub proof fn work_that_fails_is_named(has_lock: bool, task: FetchTask)
    ensures
        action_after(has_lock, task, FetchEventView::Failed) matches FetchActionView::Fail {
            lines,
            error,
        } && lines.len() == 0 && error.component == "MetadataFetcher"@ && match task {
            FetchTask::CreateTempdir => error.message == "creating tempdir"@,
            FetchTask::CopyToml => error.message == "copying cargo toml"@,
            FetchTask::CopyLock => error.message == "copying cargo lock"@,
            FetchTask::RunCargo => error.message == "running `cargo metadata`"@,
            FetchTask::ParseOutput => error.message == "parsing `cargo metadata` output"@,
        },
{
}

/// What cargo prints is read where it succeeds. Where it does not, what it printed and what it
/// complained of are shown, and the error is that of running it.
pub proof fn runs_of_cargo_are_read_or_shown(
    has_lock: bool,
    success: bool,
    stdout: Seq<u8>,
    stderr: Seq<u8>,
)
    ensures
        ({
            let next = action_after(
                has_lock,
                FetchTask::RunCargo,
                FetchEventView::CargoRan { success, stdout, stderr },
            );
            &&& success ==> (next matches FetchActionView::ParseOutput { text } && text
                == output_text(stdout))
            &&& !success ==> (next matches FetchActionView::Fail { lines, error } && lines.len()
                == 3 && lines[0] == "`cargo metadata` failed. Inspect Cargo.toml for issues!"@
                && lines[1] == "stdout: "@ + output_text(stdout) && lines[2] == "stderr: "@
                + output_text(stderr) && error.component == "MetadataFetcher"@ && error.message
                == "running `cargo metadata`"@)
        }),
{
}

/// Metadata that were read are those that the retrieval ends with.
pub proof fn metadata_are_handed_on(has_lock: bool, metadata: MetadataView)
    ensures
        action_after(has_lock, FetchTask::ParseOutput, FetchEventView::Parsed(metadata))
            == FetchActionView::Finish(metadata),
{
}

/// Bytes that encode a text are read as that text; bytes that encode none are not read.
pub proof fn output_is_read_as_encoded(text: Seq<char>, bytes: Seq<u8>)
    ensures
        output_text(encode_utf8(text)) == text,
        valid_utf8(bytes) ==> encode_utf8(output_text(bytes)) == bytes,
        !valid_utf8(bytes) ==> output_text(bytes) == "[unparsable bytes]"@,
{
    encode_utf8_valid_utf8(text);
    encode_utf8_decode_utf8(text);
    if valid_utf8(bytes) {
        decode_utf8_encode_utf8(bytes);
    }
}

} // verus!
