//! Commands, what one run of a command leaves behind, and the state of one
//! execution slot.

use crate::utils::Timestamp;
use vstd::prelude::*;
use vstd::string::*;

verus! {

/// One captured stream of a finished command.
#[derive(Debug, PartialEq, Eq)]
pub enum Log {
    /// The bytes, still in memory.
    Buffer(Vec<u8>),
    /// The path of the file that holds the bytes.
    File(String),
    /// The stream was empty.
    Nothing,
    /// The stream could not be captured.
    Missing,
}

/// The value of a [`Log`].
pub enum LogModel {
    Buffer(Seq<u8>),
    File(Seq<char>),
    Nothing,
    Missing,
}

impl DeepView for Log {
    type V = LogModel;

    open spec fn deep_view(&self) -> LogModel {
        match self {
            Log::Buffer(bytes) => LogModel::Buffer(bytes@),
            Log::File(path) => LogModel::File(path@),
            Log::Nothing => LogModel::Nothing,
            Log::Missing => LogModel::Missing,
        }
    }
}

impl LogModel {
    /// The log of a captured stream: its bytes, or `Nothing` if there are
    /// none.
    pub open spec fn of_bytes(bytes: Seq<u8>) -> LogModel {
        if bytes.len() > 0 {
            LogModel::Buffer(bytes)
        } else {
            LogModel::Nothing
        }
    }
}

impl Log {
    /// The log of a captured stream: its bytes, or `Nothing` if there are
    /// none.
    pub fn from_vec(buffer: Vec<u8>) -> (log: Log)
        ensures
            log.deep_view() == LogModel::of_bytes(buffer@),
    {
        let n: usize = buffer.len();
        if n > 0 {
            Log::Buffer(buffer)
        } else {
            Log::Nothing
        }
    }
}

/// What one finished run of a command left behind.
#[derive(Debug, PartialEq, Eq)]
pub struct CommandOutcome {
    /// The exit code; `None` if the process ended without one.
    pub exit_status: Option<i32>,
    pub stdout: Log,
    pub stderr: Log,
    /// When the command was launched.
    pub start: Timestamp,
    /// How long it ran, in nanoseconds.
    pub duration: u64,
}

/// The value of a [`CommandOutcome`].
pub struct OutcomeModel {
    pub exit_status: Option<i32>,
    pub stdout: LogModel,
    pub stderr: LogModel,
    pub start: Timestamp,
    pub duration: u64,
}

impl DeepView for CommandOutcome {
    type V = OutcomeModel;

    open spec fn deep_view(&self) -> OutcomeModel {
        OutcomeModel {
            exit_status: self.exit_status,
            stdout: self.stdout.deep_view(),
            stderr: self.stderr.deep_view(),
            start: self.start,
            duration: self.duration,
        }
    }
}

impl OutcomeModel {
    /// The outcome of a run that ended with `exit_status` and wrote `stdout`
    /// and `stderr`.
    pub open spec fn of_streams(
        exit_status: Option<i32>,
        stdout: Seq<u8>,
        stderr: Seq<u8>,
        start: Timestamp,
        duration: u64,
    ) -> OutcomeModel {
        OutcomeModel {
            exit_status,
            stdout: LogModel::of_bytes(stdout),
            stderr: LogModel::of_bytes(stderr),
            start,
            duration,
        }
    }
}

impl CommandOutcome {
    /// The outcome of a run that ended with `exit_status` and wrote `stdout`
    /// and `stderr`: each stream is kept as a buffer, an empty one as
    /// `Nothing`.
    pub fn from_streams(
        exit_status: Option<i32>,
        stdout: Vec<u8>,
        stderr: Vec<u8>,
        start: Timestamp,
        duration: u64,
    ) -> (outcome: CommandOutcome)
        ensures
            outcome.deep_view() == OutcomeModel::of_streams(
                exit_status,
                stdout@,
                stderr@,
                start,
                duration,
            ),
    {
        CommandOutcome {
            exit_status,
            stdout: Log::from_vec(stdout),
            stderr: Log::from_vec(stderr),
            start,
            duration,
        }
    }

    /// Whether the command exited with code zero.
    pub fn is_success(&self) -> (b: bool)
        ensures
            b == (self.exit_status == Some(0i32)),
    {
        match self.exit_status {
            Some(code) => code == 0,
            None => false,
        }
    }
}

/// The state of one execution slot of a task.
#[derive(Debug, PartialEq, Eq)]
pub enum TaskOutput {
    /// The command ran to its end.
    NoError(CommandOutcome),
    /// The execution was launched and has not been recorded yet.
    Waiting,
    /// The command could not be run, or its logs could not be written; the
    /// text is the system's message.
    IOError(String),
    /// The worker that ran the command panicked.
    ThreadError,
    /// The worker found the task's configuration lock poisoned.
    PoisonError,
    /// The launch was refused: the task ran as many executions as it may.
    TooManyThreadsError,
}

/// The value of a [`TaskOutput`].
pub enum OutputModel {
    NoError(OutcomeModel),
    Waiting,
    IOError(Seq<char>),
    ThreadError,
    PoisonError,
    TooManyThreadsError,
}

impl DeepView for TaskOutput {
    type V = OutputModel;

    open spec fn deep_view(&self) -> OutputModel {
        match self {
            TaskOutput::NoError(outcome) => OutputModel::NoError(outcome.deep_view()),
            TaskOutput::Waiting => OutputModel::Waiting,
            TaskOutput::IOError(message) => OutputModel::IOError(message@),
            TaskOutput::ThreadError => OutputModel::ThreadError,
            TaskOutput::PoisonError => OutputModel::PoisonError,
            TaskOutput::TooManyThreadsError => OutputModel::TooManyThreadsError,
        }
    }
}

impl OutputModel {
    /// Whether the slot records a failure.
    pub open spec fn is_error(self) -> bool {
        self is IOError || self is ThreadError || self is PoisonError
            || self is TooManyThreadsError
    }

    /// Whether the slot has reached its last state.
    pub open spec fn is_terminal(self) -> bool {
        !(self is Waiting)
    }

    /// The one-line name of the state.
    pub open spec fn summary(self) -> Seq<char> {
        match self {
            OutputModel::NoError(_) => "NoError"@,
            OutputModel::Waiting => "Waiting"@,
            OutputModel::IOError(message) => "IOError ("@ + message + ")"@,
            OutputModel::ThreadError => "ThreadError"@,
            OutputModel::PoisonError => "PoisonError"@,
            OutputModel::TooManyThreadsError => "TooManyThreadsError"@,
        }
    }
}

impl TaskOutput {
    /// The one-line name of the state; an `IOError` adds its message in
    /// parentheses.
    pub fn summary(&self) -> (s: String)
        ensures
            s@ == self.deep_view().summary(),
    {
        match self {
            TaskOutput::NoError(_) => String::from_str("NoError"),
            TaskOutput::Waiting => String::from_str("Waiting"),
            TaskOutput::IOError(message) => {
                let mut s = String::from_str("IOError (");
                s.append(message.as_str());
                s.append(")");
                s
            },
            TaskOutput::ThreadError => String::from_str("ThreadError"),
            TaskOutput::PoisonError => String::from_str("PoisonError"),
            TaskOutput::TooManyThreadsError => String::from_str("TooManyThreadsError"),
        }
    }

    /// Whether the slot records a failure. A slot that waits, or whose
    /// command ran, does not.
    pub fn is_error(&self) -> (b: bool)
        ensures
            b == self.deep_view().is_error(),
    {
        match self {
            TaskOutput::NoError(_) | TaskOutput::Waiting => false,
            TaskOutput::IOError(_)
            | TaskOutput::ThreadError
            | TaskOutput::TooManyThreadsError
            | TaskOutput::PoisonError => true,
        }
    }
}

/// Copies a list of strings.
pub fn clone_strings(v: &Vec<String>) -> (r: Vec<String>)
    ensures
        r.deep_view() == v.deep_view(),
{
    let mut r: Vec<String> = Vec::new();
    let mut i: usize = 0;
    while i < v.len()
        invariant
            i <= v.len(),
            r.len() == i,
            forall|k: int| 0 <= k < i ==> r[k]@ == v[k]@,
        decreases v.len() - i,
    {
        r.push(v[i].clone());
        i = i + 1;
    }
    assert(r.deep_view() =~= v.deep_view());
    r
}

/// Copies a list of pairs of strings.
pub fn clone_pairs(v: &Vec<(String, String)>) -> (r: Vec<(String, String)>)
    ensures
        r.deep_view() == v.deep_view(),
{
    let mut r: Vec<(String, String)> = Vec::new();
    let mut i: usize = 0;
    while i < v.len()
        invariant
            i <= v.len(),
            r.len() == i,
            forall|k: int| 0 <= k < i ==> r[k].deep_view() == v[k].deep_view(),
        decreases v.len() - i,
    {
        r.push((v[i].0.clone(), v[i].1.clone()));
        i = i + 1;
    }
    assert(r.deep_view() =~= v.deep_view());
    r
}

/// Copies a string that may be absent.
pub fn clone_optional(s: &Option<String>) -> (r: Option<String>)
    ensures
        r.deep_view() == s.deep_view(),
{
    match s {
        Some(text) => Some(text.clone()),
        None => None,
    }
}

/// A command to run: the program, its arguments, the environment variables
/// to set, and the directory to run it in.
#[derive(Debug, PartialEq, Eq)]
pub struct Command {
    pub command: String,
    pub arguments: Vec<String>,
    pub envs: Option<Vec<(String, String)>>,
    pub current_dir: String,
}

/// The value of a [`Command`].
pub struct CommandModel {
    pub command: Seq<char>,
    pub arguments: Seq<Seq<char>>,
    pub envs: Option<Seq<(Seq<char>, Seq<char>)>>,
    pub current_dir: Seq<char>,
}

impl DeepView for Command {
    type V = CommandModel;

    open spec fn deep_view(&self) -> CommandModel {
        CommandModel {
            command: self.command@,
            arguments: self.arguments.deep_view(),
            envs: self.envs.deep_view(),
            current_dir: self.current_dir@,
        }
    }
}

impl Clone for Command {
    fn clone(&self) -> (r: Command)
        ensures
            r.deep_view() == self.deep_view(),
    {
        Command {
            command: self.command.clone(),
            arguments: clone_strings(&self.arguments),
            envs: match &self.envs {
                Some(pairs) => Some(clone_pairs(pairs)),
                None => None,
            },
            current_dir: self.current_dir.clone(),
        }
    }
}

impl Command {
    /// The command that runs `command` with `arguments`, with no variable
    /// set, in the directory `.`.
    pub fn new(command: String, arguments: Vec<String>) -> (cmd: Command)
        ensures
            cmd.deep_view() == (CommandModel {
                command: command@,
                arguments: arguments.deep_view(),
                envs: None,
                current_dir: "."@,
            }),
    {
        Command { command, arguments, envs: None, current_dir: String::from_str(".") }
    }
}

} // verus!
