use scheduler::command::{
    clone_optional, clone_pairs, clone_strings, Command, CommandOutcome, Log, TaskOutput,
};
use scheduler::utils::Timestamp;

fn outcome_with(exit_status: Option<i32>) -> CommandOutcome {
    CommandOutcome::from_streams(exit_status, vec![1, 2], vec![], Timestamp::from_secs(9), 77)
}

#[test]
fn log_of_bytes_is_a_buffer_and_of_none_is_nothing() {
    assert_eq!(Log::from_vec(vec![104, 105]), Log::Buffer(vec![104, 105]));
    assert_eq!(Log::from_vec(vec![0]), Log::Buffer(vec![0]));
    assert_eq!(Log::from_vec(Vec::new()), Log::Nothing);
}

#[test]
fn outcome_wraps_both_streams() {
    let outcome = CommandOutcome::from_streams(
        Some(3),
        Vec::new(),
        vec![101],
        Timestamp::from_secs(12),
        1_500_000,
    );
    assert_eq!(
        outcome,
        CommandOutcome {
            exit_status: Some(3),
            stdout: Log::Nothing,
            stderr: Log::Buffer(vec![101]),
            start: Timestamp::from_secs(12),
            duration: 1_500_000,
        }
    );
}

#[test]
fn success_is_exit_code_zero() {
    assert!(outcome_with(Some(0)).is_success());
    assert!(!outcome_with(Some(1)).is_success());
    assert!(!outcome_with(Some(-1)).is_success());
    assert!(!outcome_with(None).is_success());
}

#[test]
fn summary_names_the_state() {
    assert_eq!(TaskOutput::NoError(outcome_with(Some(1))).summary(), "NoError");
    assert_eq!(TaskOutput::Waiting.summary(), "Waiting");
    assert_eq!(
        TaskOutput::IOError(String::from("disk full")).summary(),
        "IOError (disk full)"
    );
    assert_eq!(TaskOutput::IOError(String::new()).summary(), "IOError ()");
    assert_eq!(TaskOutput::ThreadError.summary(), "ThreadError");
    assert_eq!(TaskOutput::PoisonError.summary(), "PoisonError");
    assert_eq!(TaskOutput::TooManyThreadsError.summary(), "TooManyThreadsError");
}

#[test]
fn only_the_four_failures_are_errors() {
    assert!(!TaskOutput::NoError(outcome_with(Some(1))).is_error());
    assert!(!TaskOutput::Waiting.is_error());
    assert!(TaskOutput::IOError(String::from("x")).is_error());
    assert!(TaskOutput::ThreadError.is_error());
    assert!(TaskOutput::PoisonError.is_error());
    assert!(TaskOutput::TooManyThreadsError.is_error());
}

#[test]
fn new_command_has_no_variables_and_runs_here() {
    let cmd = Command::new(String::from("/bin/sleep"), vec![String::from("5")]);
    assert_eq!(
        cmd,
        Command {
            command: String::from("/bin/sleep"),
            arguments: vec![String::from("5")],
            envs: None,
            current_dir: String::from("."),
        }
    );
}

#[test]
fn command_clone_is_equal() {
    let cmd = Command {
        command: String::from("env"),
        arguments: vec![String::from("-i"), String::new(), String::from("x y")],
        envs: Some(vec![(String::from("A"), String::from("1")), (String::from("B"), String::new())]),
        current_dir: String::from("/tmp"),
    };
    assert_eq!(cmd.clone(), cmd);
    let bare = Command::new(String::from("true"), Vec::new());
    assert_eq!(bare.clone(), bare);
}

#[test]
fn copies_of_text_are_equal() {
    let strings = vec![String::from("a"), String::new(), String::from("ccc")];
    assert_eq!(clone_strings(&strings), strings);
    assert_eq!(clone_strings(&Vec::new()), Vec::<String>::new());
    let pairs = vec![(String::from("k"), String::from("v")), (String::new(), String::from("w"))];
    assert_eq!(clone_pairs(&pairs), pairs);
    assert_eq!(clone_optional(&Some(String::from("p"))), Some(String::from("p")));
    assert_eq!(clone_optional(&None), None);
}
