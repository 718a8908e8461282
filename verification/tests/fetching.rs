use raze_planner::fetcher::{
    text_of_output, CargoSubcommandMetadataFetcher, FetchAction, FetchEvent, FetchTask,
};
use raze_planner::metadata::{Metadata, Resolve};

fn empty_metadata() -> Metadata {
    Metadata { packages: Vec::new(), resolve: Resolve { nodes: Vec::new(), root: "r".to_string() } }
}

fn failure(task: FetchTask) -> (Vec<String>, String, String) {
    match CargoSubcommandMetadataFetcher.fetch_metadata(true, task, FetchEvent::Failed) {
        FetchAction::Fail { lines, error } => (lines, error.component, error.message),
        _ => panic!("a failure has to fail"),
    }
}

#[test]
fn files_have_to_be_there() {
    let fetcher = CargoSubcommandMetadataFetcher;
    assert!(fetcher.start(false, None).is_none());
    assert!(fetcher.start(false, Some(true)).is_none());
    assert!(fetcher.start(true, Some(false)).is_none());
    for lock in [None, Some(true)] {
        match fetcher.start(true, lock) {
            Some(FetchAction::CreateTempdir { prefix }) => {
                assert_eq!(prefix, "cargo_raze_metadata_dir")
            }
            _ => panic!("a temporary directory comes first"),
        }
    }
}

#[test]
fn each_failure_has_its_message() {
    let expected = [
        (FetchTask::CreateTempdir, "creating tempdir"),
        (FetchTask::CopyToml, "copying cargo toml"),
        (FetchTask::CopyLock, "copying cargo lock"),
        (FetchTask::RunCargo, "running `cargo metadata`"),
        (FetchTask::ParseOutput, "parsing `cargo metadata` output"),
    ];
    for (task, message) in expected {
        let (lines, component, said) = failure(task);
        assert!(lines.is_empty());
        assert_eq!(component, "MetadataFetcher");
        assert_eq!(said, message);
    }
}

#[test]
fn a_lock_file_is_copied_where_there_is_one() {
    let fetcher = CargoSubcommandMetadataFetcher;
    assert!(matches!(
        fetcher.fetch_metadata(true, FetchTask::CreateTempdir, FetchEvent::Done),
        FetchAction::CopyToml
    ));
    assert!(matches!(
        fetcher.fetch_metadata(true, FetchTask::CopyToml, FetchEvent::Done),
        FetchAction::CopyLock
    ));
    for (has_lock, task) in [(false, FetchTask::CopyToml), (true, FetchTask::CopyLock)] {
        match fetcher.fetch_metadata(has_lock, task, FetchEvent::Done) {
            FetchAction::RunCargo { arguments } => {
                assert_eq!(arguments, vec!["metadata", "--format-version", "1"])
            }
            _ => panic!("cargo comes next"),
        }
    }
}

#[test]
fn output_of_a_good_run_is_read() {
    let event = FetchEvent::CargoRan {
        success: true,
        stdout: "{\u{e9}}".as_bytes().to_vec(),
        stderr: vec![0xff],
    };
    match CargoSubcommandMetadataFetcher.fetch_metadata(false, FetchTask::RunCargo, event) {
        FetchAction::ParseOutput { text } => assert_eq!(text, "{\u{e9}}"),
        _ => panic!("the output has to be read"),
    }
}

#[test]
fn output_of_a_bad_run_is_printed() {
    let event =
        FetchEvent::CargoRan { success: false, stdout: vec![0xc3, 0x28], stderr: b"no".to_vec() };
    match CargoSubcommandMetadataFetcher.fetch_metadata(false, FetchTask::RunCargo, event) {
        FetchAction::Fail { lines, error } => {
            assert_eq!(
                lines,
                vec![
                    "`cargo metadata` failed. Inspect Cargo.toml for issues!",
                    "stdout: [unparsable bytes]",
                    "stderr: no",
                ]
            );
            assert_eq!(error.component, "MetadataFetcher");
            assert_eq!(error.message, "running `cargo metadata`");
        }
        _ => panic!("the run has failed"),
    }
}

#[test]
fn metadata_that_were_read_are_handed_out() {
    let event = FetchEvent::Parsed(empty_metadata());
    match CargoSubcommandMetadataFetcher.fetch_metadata(false, FetchTask::ParseOutput, event) {
        FetchAction::Finish(metadata) => assert_eq!(metadata.resolve.root, "r"),
        _ => panic!("the metadata are there"),
    }
}

#[test]
fn bytes_become_text() {
    assert_eq!(text_of_output(b"plain".to_vec()), "plain");
    assert_eq!(text_of_output("\u{1f600}".as_bytes().to_vec()), "\u{1f600}");
    assert_eq!(text_of_output(vec![0xed, 0xa0, 0x80]), "[unparsable bytes]");
    assert_eq!(text_of_output(Vec::new()), "");
}
