use scheduler::command::{Command, TaskOutput};
use scheduler::environment::Environment;
use scheduler::group::{GroupError, SerializedTaskGroup, TaskGroup};
use scheduler::queries::Queries;
use scheduler::task::{Finished, Launch, TaskConfig, WriteResult};
use scheduler::utils::{CivilTime, ClockReading, Timestamp};

const NOON: i64 = 1_733_054_400; // 2024-12-01T12:00:00Z

fn at_noon() -> ClockReading {
    ClockReading {
        instant: Timestamp::from_secs(NOON),
        civil: CivilTime { year: 2024, month: 12, day: 1, hour: 12, minute: 0, second: 0 },
    }
}

fn conf_of(name: &str, starts_at: Option<&str>, tasks: usize) -> SerializedTaskGroup {
    SerializedTaskGroup {
        name: String::from(name),
        starts_at: starts_at.map(String::from),
        period: Some(String::from("0000-00-00 00:00:05")),
        processes: (0..tasks)
            .map(|_| TaskConfig {
                cmd: Command::new(String::from("/bin/true"), Vec::new()),
                max_concurrent_execution: Some(2),
                stdout_path: None,
                stderr_path: None,
            })
            .collect(),
    }
}

fn group_of(name: &str, starts_at: Option<&str>, tasks: usize) -> TaskGroup {
    TaskGroup::from_serialized_at(conf_of(name, starts_at, tasks), &at_noon()).unwrap()
}

fn failed(group: usize, task: usize, slot: usize) -> (usize, usize, Finished) {
    (
        group,
        task,
        Finished {
            slot,
            output: TaskOutput::ThreadError,
            stdout: WriteResult::Skipped,
            stderr: WriteResult::Skipped,
        },
    )
}

#[test]
fn group_log_path_is_named_by_the_index() {
    assert_eq!(Environment::get_task_group_log_path("/var/log", 0), "/var/log/0");
    assert_eq!(Environment::get_task_group_log_path("/var/log/", 12), "/var/log/12");
    assert_eq!(Environment::get_task_group_log_path("logs", 3), "logs/3");
    assert_eq!(Environment::get_task_group_log_path("", 3), "3");
}

#[test]
fn environment_without_log_root_asks_for_no_directory() {
    let (environment, directories) = Environment::new(vec![group_of("a", None, 1)], None);
    assert!(directories.is_empty());
    assert_eq!(environment.log, None);
    assert!(!environment.dirty);
    assert_eq!(environment.groups.len(), 1);
    assert_eq!(environment.groups[0].processes()[0].config().stdout_path, None);
}

#[test]
fn environment_log_root_lays_out_groups_and_tasks() {
    let (environment, directories) = Environment::new(
        vec![group_of("a", None, 1), group_of("b", None, 0), group_of("c", None, 2)],
        Some(String::from("/L")),
    );
    let expected: Vec<String> = [
        "/L", "/L/0", "/L/0/0", "/L/0/0/out", "/L/0/0/err", "/L/1", "/L/2", "/L/2/0",
        "/L/2/0/out", "/L/2/0/err", "/L/2/1", "/L/2/1/out", "/L/2/1/err",
    ]
    .iter()
    .map(|s| String::from(*s))
    .collect();
    assert_eq!(directories, expected);
    assert_eq!(environment.log, Some(String::from("/L")));
    assert!(!environment.dirty);
    let conf = environment.groups[2].processes()[1].config();
    assert_eq!(conf.stdout_path, Some(String::from("/L/2/1/out")));
    assert_eq!(conf.stderr_path, Some(String::from("/L/2/1/err")));
}

#[test]
fn environment_set_log_path_twice_is_once() {
    let groups = || vec![group_of("a", None, 2), group_of("b", None, 1)];
    let (mut once, _) = Environment::new(groups(), None);
    let first = once.set_log_path(String::from("root"));
    let (mut twice, _) = Environment::new(groups(), None);
    twice.set_log_path(String::from("root"));
    let second = twice.set_log_path(String::from("root"));
    assert_eq!(first, second);
    assert_eq!(once.log, twice.log);
    assert_eq!(once.dirty, twice.dirty);
    assert_eq!(once.serialized_groups(), twice.serialized_groups());
    assert_eq!(first[0], "root");
    assert_eq!(first[1], "root/0");
    assert_eq!(first.len(), 1 + (1 + 2 * 3) + (1 + 3));
}

#[test]
fn added_group_gets_the_next_index() {
    let (mut environment, _) =
        Environment::new(vec![group_of("a", None, 0)], Some(String::from("/L")));
    let directories = environment.add_new_group(group_of("b", None, 1));
    assert_eq!(
        directories,
        vec![
            String::from("/L/1"),
            String::from("/L/1/0"),
            String::from("/L/1/0/out"),
            String::from("/L/1/0/err"),
        ]
    );
    assert!(environment.dirty);
    assert_eq!(environment.groups.len(), 2);
    assert_eq!(environment.groups[1].name(), "b");
    assert_eq!(
        environment.groups[1].processes()[0].config().stdout_path,
        Some(String::from("/L/1/0/out"))
    );
    environment.saved();
    assert!(!environment.dirty);
    let (mut bare, _) = Environment::new(Vec::new(), None);
    assert!(bare.add_new_group(group_of("c", None, 1)).is_empty());
    assert!(bare.dirty);
    assert_eq!(bare.groups[0].processes()[0].config().stdout_path, None);
}

#[test]
fn tick_fires_the_groups_that_are_due() {
    let (mut environment, _) = Environment::new(
        vec![
            group_of("soon", Some("2024-12-01T12:00:01Z"), 2),
            group_of("never", None, 1),
            group_of("later", Some("2024-12-01T12:00:03Z"), 1),
        ],
        None,
    );
    let idle = environment.update_at(Timestamp::from_secs(NOON), Vec::new());
    assert!(!idle.save);
    assert_eq!(idle.launches, vec![Vec::new(), Vec::new(), Vec::new()]);
    let started = Launch::Started { slot: 0, crowded: false };
    let first = environment.update_at(Timestamp::from_secs(NOON + 1), Vec::new());
    assert_eq!(first.launches, vec![vec![started, started], Vec::new(), Vec::new()]);
    let second = environment.update_at(
        Timestamp::from_secs(NOON + 3),
        vec![failed(0, 1, 0), failed(1, 0, 0), failed(3, 0, 0)],
    );
    assert_eq!(second.launches, vec![Vec::new(), Vec::new(), vec![started]]);
    assert_eq!(environment.groups[0].processes()[0].nb_running_tasks(), 1);
    assert_eq!(environment.groups[0].processes()[1].nb_running_tasks(), 0);
    assert_eq!(environment.groups[0].processes()[1].stats().error_count, 1);
    assert_eq!(environment.groups[0].next_execution(), Some(Timestamp::from_secs(NOON + 6)));
    assert_eq!(environment.groups[2].next_execution(), Some(Timestamp::from_secs(NOON + 8)));
    assert!(environment.reap(0, 0, failed(0, 0, 0).2));
    assert!(!environment.reap(0, 0, failed(0, 0, 0).2));
    assert!(!environment.reap(9, 0, failed(9, 0, 0).2));
}

#[test]
fn tick_asks_to_save_until_saved() {
    let (mut environment, _) = Environment::new(Vec::new(), None);
    assert!(!environment.update_at(Timestamp::from_secs(NOON), Vec::new()).save);
    environment.add_new_group(group_of("a", None, 0));
    assert!(environment.update_at(Timestamp::from_secs(NOON), Vec::new()).save);
    // the save failed: asked again
    assert!(environment.update_at(Timestamp::from_secs(NOON + 1), Vec::new()).save);
    environment.saved();
    assert!(!environment.update_at(Timestamp::from_secs(NOON + 2), Vec::new()).save);
    assert!(!environment.update(Vec::new()).save);
}

#[test]
fn acknowledgement_asks_for_nothing() {
    let (mut environment, _) = Environment::new(vec![group_of("a", None, 0)], None);
    let outcome = environment.handle_query_at(Queries::Ack, &at_noon()).unwrap();
    assert_eq!(outcome.reply, None);
    assert!(outcome.directories.is_empty());
    assert_eq!(environment.groups.len(), 1);
    assert!(!environment.dirty);
}

#[test]
fn new_group_query_adds_and_acknowledges() {
    let (mut environment, _) =
        Environment::new(vec![group_of("a", None, 0)], Some(String::from("/L")));
    let query = Queries::NewTaskGroup(conf_of("sent", Some("****-**-**T12:00:01Z"), 1));
    let outcome = environment.handle_query_at(query, &at_noon()).unwrap();
    assert_eq!(outcome.reply, Some(Queries::Ack));
    assert_eq!(
        outcome.directories,
        vec![
            String::from("/L/1"),
            String::from("/L/1/0"),
            String::from("/L/1/0/out"),
            String::from("/L/1/0/err"),
        ]
    );
    assert!(environment.dirty);
    assert_eq!(environment.groups.len(), 2);
    assert_eq!(environment.groups[1].next_execution(), Some(Timestamp::from_secs(NOON + 1)));
    let mut written = conf_of("sent", Some("****-**-**T12:00:01Z"), 1);
    written.processes[0].stdout_path = Some(String::from("/L/1/0/out"));
    written.processes[0].stderr_path = Some(String::from("/L/1/0/err"));
    assert_eq!(environment.serialized_groups()[1], written);
}

#[test]
fn malformed_group_query_changes_nothing() {
    let (mut environment, _) =
        Environment::new(vec![group_of("a", None, 0)], Some(String::from("/L")));
    let bad_date = Queries::NewTaskGroup(conf_of("sent", Some("2024-12-01"), 1));
    assert_eq!(environment.handle_query_at(bad_date, &at_noon()), Err(GroupError::InvalidDate));
    let mut conf = conf_of("sent", None, 1);
    conf.period = Some(String::from("often"));
    assert_eq!(
        environment.handle_query(Queries::NewTaskGroup(conf)),
        Err(GroupError::InvalidPeriod)
    );
    assert_eq!(environment.groups.len(), 1);
    assert!(!environment.dirty);
    let good = environment.handle_query(Queries::NewTaskGroup(conf_of("ok", None, 0))).unwrap();
    assert_eq!(good.reply, Some(Queries::Ack));
    assert_eq!(good.directories, vec![String::from("/L/1")]);
}

#[test]
fn serialized_groups_keep_order_and_text() {
    let (environment, _) = Environment::new(
        vec![group_of("a", Some("****-01-01T00:00:00Z"), 1), group_of("b", None, 0)],
        None,
    );
    assert_eq!(
        environment.serialized_groups(),
        vec![conf_of("a", Some("****-01-01T00:00:00Z"), 1), conf_of("b", None, 0)]
    );
}
