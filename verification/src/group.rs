//! A group of tasks that share a schedule.

use crate::task::{ConfigModel, Finished, FinishedModel, Launch, Task, TaskConfig, TaskModel};
use crate::text::{decimal_chars, decimal_string, join_path, joined_path};
use crate::utils::{
    get_period_from_string, names_instant, period_spec, start_timestamp_at, start_timestamp_spec,
    utc_now, CivilTime, ClockReading, Timestamp, YmdHmsDuration,
};
use vstd::prelude::*;
use vstd::string::*;
use vstd::utf8::encode_utf8;

verus! {

/// How far `last` is from lying after `now`: the seconds that are missing.
pub open spec fn seconds_short(last: Timestamp, now: Timestamp) -> nat {
    if last.secs <= now.secs {
        (now.secs - last.secs + 1) as nat
    } else {
        0
    }
}

/// When a group fires next: `last` itself if it lies after `now`; otherwise,
/// with a period, the first instant after `now` that adding the period to
/// `last` again and again reaches. `None` if there is none: without a
/// period, or where an addition brings no later instant.
pub open spec fn next_execution_spec(
    period: Option<YmdHmsDuration>,
    last: Timestamp,
    now: Timestamp,
) -> Option<Timestamp>
    decreases seconds_short(last, now),
{
    if last.secs > now.secs {
        Some(last)
    } else {
        match period {
            Some(p) => match p.add_spec(last) {
                Some(next) if next.secs > last.secs => next_execution_spec(period, next, now),
                _ => None,
            },
            None => None,
        }
    }
}

/// When a group fires next, after `last` and as seen at `now`.
pub fn next_execution_after(period: &Option<YmdHmsDuration>, last: Timestamp, now: Timestamp) -> (r:
    Option<Timestamp>)
    ensures
        r == next_execution_spec(*period, last, now),
{
    match period {
        None => if last.secs > now.secs {
            Some(last)
        } else {
            None
        },
        Some(p) => {
            let mut next = last;
            while next.secs <= now.secs
                invariant
                    *period == Some(*p),
                    next_execution_spec(*period, next, now) == next_execution_spec(
                        *period,
                        last,
                        now,
                    ),
                decreases seconds_short(next, now),
            {
                match p.add(next) {
                    Some(later) => {
                        if later.secs > next.secs {
                            next = later;
                        } else {
                            return None;
                        }
                    },
                    None => {
                        return None;
                    },
                }
            }
            Some(next)
        },
    }
}

/// The next execution, when there is one, lies after `now`.
pub proof fn lemma_next_execution_is_later(
    period: Option<YmdHmsDuration>,
    last: Timestamp,
    now: Timestamp,
)
    ensures
        next_execution_spec(period, last, now) matches Some(t) ==> t.secs > now.secs && t.secs
            >= last.secs,
    decreases seconds_short(last, now),
{
    if last.secs <= now.secs {
        if let Some(p) = period {
            if let Some(next) = p.add_spec(last) {
                if next.secs > last.secs {
                    lemma_next_execution_is_later(period, next, now);
                }
            }
        }
    }
}

/// For a period of days, hours, minutes and seconds alone, `p` seconds in
/// all and more than none, the next execution is the first of `last + p`,
/// `last + 2p`, ... that lies after `now`: the executions that were missed
/// are not made up for.
pub proof fn lemma_catch_up_without_backfill(
    period: YmdHmsDuration,
    last: Timestamp,
    now: Timestamp,
)
    requires
        period.months() == 0,
        period.seconds() > 0,
        last.secs <= now.secs,
        now.secs + period.seconds() <= i64::MAX,
    ensures
        next_execution_spec(Some(period), last, now) == Some(
            Timestamp {
                secs: (last.secs + period.seconds() * ((now.secs - last.secs) / period.seconds()
                    + 1)) as i64,
            },
        ),
    decreases seconds_short(last, now),
{
    let p = period.seconds();
    let d = now.secs - last.secs;
    let next = Timestamp { secs: (last.secs + p) as i64 };
    assert(period.add_spec(last) == Some(next));
    assert(next_execution_spec(Some(period), last, now) == next_execution_spec(
        Some(period),
        next,
        now,
    ));
    if next.secs > now.secs {
        assert(d / p == 0) by (nonlinear_arith)
            requires
                0 <= d < p,
        ;
        assert(p * (d / p + 1) == p) by (nonlinear_arith)
            requires
                d / p == 0,
        ;
        assert(next_execution_spec(Some(period), next, now) == Some(next));
    } else {
        lemma_catch_up_without_backfill(period, next, now);
        let e = now.secs - next.secs;
        assert(e == d - p);
        assert(e / p + 1 == d / p) by (nonlinear_arith)
            requires
                0 < p,
                0 <= e,
                e == d - p,
        ;
        assert(p * (e / p + 1) + p == p * (d / p + 1)) by (nonlinear_arith)
            requires
                e / p + 1 == d / p,
        ;
    }
}

/// Why a group could not be made.
#[derive(Clone, Copy, Debug, PartialEq, Eq, Structural)]
pub enum GroupError {
    /// The start is no start timestamp, or names a day or time that does
    /// not exist.
    InvalidDate,
    /// The period is no calendar period.
    InvalidPeriod,
}

/// A group as it is written in a configuration or sent to a server: the
/// schedule as text, and the configuration of each task.
#[derive(Debug, PartialEq, Eq)]
pub struct SerializedTaskGroup {
    pub name: String,
    pub starts_at: Option<String>,
    pub period: Option<String>,
    pub processes: Vec<TaskConfig>,
}

/// The value of a [`SerializedTaskGroup`].
pub struct SerializedGroupModel {
    pub name: Seq<char>,
    pub starts_at: Option<Seq<char>>,
    pub period: Option<Seq<char>>,
    pub processes: Seq<ConfigModel>,
}

impl DeepView for SerializedTaskGroup {
    type V = SerializedGroupModel;

    open spec fn deep_view(&self) -> SerializedGroupModel {
        SerializedGroupModel {
            name: self.name@,
            starts_at: self.starts_at.deep_view(),
            period: self.period.deep_view(),
            processes: self.processes.deep_view(),
        }
    }
}

/// A group of tasks with one schedule: an optional start, an optional
/// period, both also as the text they were read from, and the instant of
/// the next execution, if one is due to come.
#[derive(Debug)]
pub struct TaskGroup {
    name: String,
    starts_at: Option<Timestamp>,
    starts_at_str: Option<String>,
    period: Option<YmdHmsDuration>,
    period_str: Option<String>,
    processes: Vec<Task>,
    next_execution: Option<Timestamp>,
}

/// The value of a [`TaskGroup`].
pub struct GroupModel {
    pub name: Seq<char>,
    pub starts_at: Option<Timestamp>,
    pub starts_at_str: Option<Seq<char>>,
    pub period: Option<YmdHmsDuration>,
    pub period_str: Option<Seq<char>>,
    pub processes: Seq<TaskModel>,
    pub next_execution: Option<Timestamp>,
}

/// What the text of a period means; no text, no period.
pub open spec fn period_of(text: Option<Seq<char>>) -> Option<YmdHmsDuration> {
    match text {
        Some(t) => period_spec(encode_utf8(t)),
        None => None,
    }
}

/// The instant that the text of a start names when the clock shows `now`;
/// no text, no start.
pub open spec fn start_of(text: Option<Seq<char>>, now: CivilTime) -> Option<Timestamp> {
    match text {
        Some(t) => start_timestamp_spec(encode_utf8(t), now),
        None => None,
    }
}

/// The directory of the item numbered `index` under `path`: its name is the
/// number's decimal numeral.
pub open spec fn indexed_path(path: Seq<char>, index: nat) -> Seq<char> {
    joined_path(path, decimal_chars(index))
}

impl GroupModel {
    /// What holds of every group: each task is well formed, the period is
    /// the one that its text writes, a start has a text, and without a
    /// start no execution is due.
    pub open spec fn wf(self) -> bool {
        &&& forall|i: int| 0 <= i < self.processes.len() ==> (#[trigger] self.processes[i]).wf()
        &&& self.period == period_of(self.period_str)
        &&& self.starts_at.is_some() == self.starts_at_str.is_some()
        &&& self.starts_at.is_none() ==> self.next_execution.is_none()
    }

    /// Why no group can be made of a start and a period as text, when the
    /// clock shows `now`; `None` if one can. The start is looked at first.
    pub open spec fn creation_error(
        starts_at: Option<Seq<char>>,
        period: Option<Seq<char>>,
        now: CivilTime,
    ) -> Option<GroupError> {
        if starts_at matches Some(t) && !names_instant(encode_utf8(t), now) {
            Some(GroupError::InvalidDate)
        } else if period matches Some(t) && period_spec(encode_utf8(t)).is_none() {
            Some(GroupError::InvalidPeriod)
        } else {
            None
        }
    }

    /// The group made at `now`: the texts are kept as they are, and the
    /// next execution is the start if it is still to come, else the first
    /// that the period reaches after `now`.
    pub open spec fn created(
        name: Seq<char>,
        starts_at: Option<Seq<char>>,
        period: Option<Seq<char>>,
        processes: Seq<TaskModel>,
        now: ClockReading,
    ) -> GroupModel {
        let start = start_of(starts_at, now.civil);
        GroupModel {
            name,
            starts_at: start,
            starts_at_str: starts_at,
            period: period_of(period),
            period_str: period,
            processes,
            next_execution: match start {
                Some(t) => next_execution_spec(period_of(period), t, now.instant),
                None => None,
            },
        }
    }

    /// The group as it is written: its name, the texts of its schedule, and
    /// the configuration of each task.
    pub open spec fn serialized(self) -> SerializedGroupModel {
        SerializedGroupModel {
            name: self.name,
            starts_at: self.starts_at_str,
            period: self.period_str,
            processes: self.processes.map_values(|t: TaskModel| t.config),
        }
    }

    /// The group with one more task, the last.
    pub open spec fn with_process(self, task: TaskModel) -> GroupModel {
        GroupModel { processes: self.processes.push(task), ..self }
    }

    /// The group with its log directory at `path`: the task numbered `i`
    /// has its own under the name `i`.
    pub open spec fn with_log_path(self, path: Seq<char>) -> GroupModel {
        GroupModel {
            processes: Seq::new(
                self.processes.len(),
                |i: int| self.processes[i].with_log_path(indexed_path(path, i as nat)),
            ),
            ..self
        }
    }

    /// The directories that hold the logs of a group of `tasks` tasks at
    /// `path`: the group's own, then those of each task in turn.
    pub open spec fn log_directories(path: Seq<char>, tasks: nat) -> Seq<Seq<char>>
        decreases tasks,
    {
        if tasks == 0 {
            seq![path]
        } else {
            GroupModel::log_directories(path, (tasks - 1) as nat) + TaskModel::log_directories(
                indexed_path(path, (tasks - 1) as nat),
            )
        }
    }

    /// Whether a report is taken: the group has the task, and the task
    /// takes the report.
    pub open spec fn accepts(self, task: usize, report: FinishedModel) -> bool {
        task < self.processes.len() && self.processes[task as int].accepts(report)
    }

    /// The group after one report, sent for the task numbered `task`. A
    /// report for a task that the group does not have changes nothing.
    pub open spec fn reaped(self, task: usize, report: FinishedModel) -> GroupModel {
        if task < self.processes.len() {
            GroupModel {
                processes: self.processes.update(
                    task as int,
                    self.processes[task as int].reaped(report),
                ),
                ..self
            }
        } else {
            self
        }
    }

    /// The group after the reports of `reports`, one after the other.
    pub open spec fn reaped_all(self, reports: Seq<(usize, FinishedModel)>) -> GroupModel
        decreases reports.len(),
    {
        if reports.len() == 0 {
            self
        } else {
            self.reaped_all(reports.drop_last()).reaped(reports.last().0, reports.last().1)
        }
    }

    /// Whether an execution is due at `now`.
    pub open spec fn due(self, now: Timestamp) -> bool {
        self.next_execution matches Some(t) && t.secs <= now.secs
    }

    /// The group after the tick of `now`. Where an execution is due, every
    /// task is launched once, and the next execution is advanced from the
    /// one that was due to the first that lies after `now`; otherwise
    /// nothing changes.
    pub open spec fn fired(self, now: Timestamp) -> GroupModel {
        match self.next_execution {
            Some(t) if t.secs <= now.secs => GroupModel {
                processes: self.processes.map_values(|t: TaskModel| t.launched()),
                next_execution: next_execution_spec(self.period, t, now),
                ..self
            },
            _ => self,
        }
    }

    /// What the launches of the tick of `now` answer, task by task; none
    /// where no execution is due.
    pub open spec fn launches(self, now: Timestamp) -> Seq<Launch> {
        if self.due(now) {
            self.processes.map_values(|t: TaskModel| t.launch())
        } else {
            Seq::empty()
        }
    }

    /// Whether the logs of the group are kept at `path`: the task numbered
    /// `i` writes its standard output to `out` and its standard error to
    /// `err` in the directory `i` of `path`.
    pub open spec fn logs_at(self, path: Seq<char>) -> bool {
        forall|i: int|
            0 <= i < self.processes.len() ==> (#[trigger] self.processes[i]).config.stdout_path
                == Some(joined_path(indexed_path(path, i as nat), "out"@))
                && self.processes[i].config.stderr_path == Some(
                joined_path(indexed_path(path, i as nat), "err"@),
            )
    }

    /// Whether some task runs fewer executions in `self` than in `before`.
    pub open spec fn ended_since(self, before: GroupModel) -> bool {
        exists|i: int|
            0 <= i < self.processes.len() && i < before.processes.len() && (
            #[trigger] self.processes[i]).running.len() < before.processes[i].running.len()
    }
}

/// What one tick did to a group.
#[derive(Debug, PartialEq, Eq)]
pub struct GroupUpdate {
    /// Whether a worker's report was taken or the group fired.
    pub changed: bool,
    /// What each task answered to its launch, in the order of the tasks;
    /// empty if the group did not fire.
    pub launches: Vec<Launch>,
}

impl DeepView for TaskGroup {
    type V = GroupModel;

    closed spec fn deep_view(&self) -> GroupModel {
        GroupModel {
            name: self.name@,
            starts_at: self.starts_at,
            starts_at_str: self.starts_at_str.deep_view(),
            period: self.period,
            period_str: self.period_str.deep_view(),
            processes: self.processes.deep_view(),
            next_execution: self.next_execution,
        }
    }
}

/// Whether every task of `tasks` is well formed.
pub open spec fn all_wf(tasks: Seq<TaskModel>) -> bool {
    forall|i: int| 0 <= i < tasks.len() ==> (#[trigger] tasks[i]).wf()
}

/// A task for each configuration of `configs`, in their order.
pub fn tasks_of(configs: Vec<TaskConfig>) -> (tasks: Vec<Task>)
    ensures
        tasks.deep_view() == configs.deep_view().map_values(|c: ConfigModel| TaskModel::fresh(c)),
        all_wf(tasks.deep_view()),
{
    let mut tasks: Vec<Task> = Vec::new();
    let ghost models = configs.deep_view();
    for conf in it: configs
        invariant
            models.len() == it.seq().len(),
            forall|k: int| 0 <= k < models.len() ==> models[k] == it.seq()[k].deep_view(),
            tasks.len() == it.index(),
            forall|k: int|
                0 <= k < tasks.len() ==> (#[trigger] tasks[k]).deep_view() == TaskModel::fresh(
                    models[k],
                ) && tasks[k].wf(),
    {
        tasks.push(Task::new(conf));
    }
    assert(tasks.deep_view() =~= models.map_values(|c: ConfigModel| TaskModel::fresh(c)));
    tasks
}

impl TaskGroup {
    /// What holds of every group: see [`GroupModel::wf`].
    pub open spec fn wf(&self) -> bool {
        self.deep_view().wf()
    }

    /// Makes a group at the clock reading `now`. The start and the period
    /// are given as text and kept as text beside what they mean.
    pub fn new_at(
        name: String,
        starts_at: Option<String>,
        period: Option<String>,
        processes: Vec<Task>,
        now: &ClockReading,
    ) -> (r: Result<TaskGroup, GroupError>)
        requires
            all_wf(processes.deep_view()),
        ensures
            match r {
                Ok(group) => {
                    &&& GroupModel::creation_error(
                        starts_at.deep_view(),
                        period.deep_view(),
                        now.civil,
                    ).is_none()
                    &&& group.wf()
                    &&& group.deep_view() == GroupModel::created(
                        name@,
                        starts_at.deep_view(),
                        period.deep_view(),
                        processes.deep_view(),
                        *now,
                    )
                },
                Err(e) => GroupModel::creation_error(
                    starts_at.deep_view(),
                    period.deep_view(),
                    now.civil,
                ) == Some(e),
            },
    {
        let start: Option<Timestamp> = match &starts_at {
            Some(text) => match start_timestamp_at(text.as_str(), &now.civil) {
                Some(t) => Some(t),
                None => {
                    return Err(GroupError::InvalidDate);
                },
            },
            None => None,
        };
        let parsed: Option<YmdHmsDuration> = match &period {
            Some(text) => match get_period_from_string(text.as_str()) {
                Some(p) => Some(p),
                None => {
                    return Err(GroupError::InvalidPeriod);
                },
            },
            None => None,
        };
        let next_execution = match start {
            Some(t) => next_execution_after(&parsed, t, now.instant),
            None => None,
        };
        Ok(
            TaskGroup {
                name,
                starts_at: start,
                starts_at_str: starts_at,
                period: parsed,
                period_str: period,
                processes,
                next_execution,
            },
        )
    }

    /// Makes a group now. What the asterisks of the start stand for, and
    /// which execution comes next, is read off the clock once; the result
    /// is that of [`TaskGroup::new_at`] for some reading of the clock.
    pub fn new(
        name: String,
        starts_at: Option<String>,
        period: Option<String>,
        processes: Vec<Task>,
    ) -> (r: Result<TaskGroup, GroupError>)
        requires
            all_wf(processes.deep_view()),
        ensures
            exists|now: ClockReading|
                now.coherent() && match r {
                    Ok(group) => {
                        &&& GroupModel::creation_error(
                            starts_at.deep_view(),
                            period.deep_view(),
                            now.civil,
                        ).is_none()
                        &&& group.deep_view() == GroupModel::created(
                            name@,
                            starts_at.deep_view(),
                            period.deep_view(),
                            processes.deep_view(),
                            now,
                        )
                    },
                    Err(e) => GroupModel::creation_error(
                        starts_at.deep_view(),
                        period.deep_view(),
                        now.civil,
                    ) == Some(e),
                },
            r matches Ok(group) ==> group.wf(),
    {
        let now = utc_now();
        TaskGroup::new_at(name, starts_at, period, processes, &now)
    }

    /// Makes the group that `conf` writes, at the clock reading `now`, with
    /// a new task for each configuration.
    pub fn from_serialized_at(conf: SerializedTaskGroup, now: &ClockReading) -> (r: Result<
        TaskGroup,
        GroupError,
    >)
        ensures
            match r {
                Ok(group) => {
                    &&& GroupModel::creation_error(
                        conf.deep_view().starts_at,
                        conf.deep_view().period,
                        now.civil,
                    ).is_none()
                    &&& group.wf()
                    &&& group.deep_view() == GroupModel::of_serialized(conf.deep_view(), *now)
                },
                Err(e) => GroupModel::creation_error(
                    conf.deep_view().starts_at,
                    conf.deep_view().period,
                    now.civil,
                ) == Some(e),
            },
    {
        let SerializedTaskGroup { name, starts_at, period, processes } = conf;
        TaskGroup::new_at(name, starts_at, period, tasks_of(processes), now)
    }

    /// Makes the group that `conf` writes, now: the result is that of
    /// [`TaskGroup::from_serialized_at`] for some reading of the clock.
    pub fn from_serialized(conf: SerializedTaskGroup) -> (r: Result<TaskGroup, GroupError>)
        ensures
            exists|now: ClockReading|
                now.coherent() && match r {
                    Ok(group) => {
                        &&& GroupModel::creation_error(
                            conf.deep_view().starts_at,
                            conf.deep_view().period,
                            now.civil,
                        ).is_none()
                        &&& group.deep_view() == GroupModel::of_serialized(conf.deep_view(), now)
                    },
                    Err(e) => GroupModel::creation_error(
                        conf.deep_view().starts_at,
                        conf.deep_view().period,
                        now.civil,
                    ) == Some(e),
                },
            r matches Ok(group) ==> group.wf(),
    {
        let now = utc_now();
        TaskGroup::from_serialized_at(conf, &now)
    }

    /// The group as it is written: its name, the texts of its schedule as
    /// they were given, and a copy of each task's configuration.
    pub fn serialized(&self) -> (conf: SerializedTaskGroup)
        ensures
            conf.deep_view() == self.deep_view().serialized(),
    {
        let mut processes: Vec<TaskConfig> = Vec::new();
        let mut i: usize = 0;
        while i < self.processes.len()
            invariant
                i <= self.processes.len(),
                processes.len() == i,
                forall|k: int|
                    0 <= k < i ==> (#[trigger] processes[k]).deep_view()
                        == self.processes[k].deep_view().config,
            decreases self.processes.len() - i,
        {
            processes.push(self.processes[i].config());
            i = i + 1;
        }
        assert(processes.deep_view() =~= self.deep_view().serialized().processes);
        SerializedTaskGroup {
            name: self.name.clone(),
            starts_at: crate::command::clone_optional(&self.starts_at_str),
            period: crate::command::clone_optional(&self.period_str),
            processes,
        }
    }

    /// Adds `task` to the group, as its last.
    pub fn add_process(&mut self, task: Task)
        requires
            task.wf(),
        ensures
            final(self).deep_view() == old(self).deep_view().with_process(task.deep_view()),
            old(self).wf() ==> final(self).wf(),
    {
        self.processes.push(task);
        assert(self.processes.deep_view() =~= old(self).processes.deep_view().push(
            task.deep_view(),
        ));
    }

    /// The name of the group.
    pub fn name(&self) -> (name: &String)
        ensures
            name@ == self.deep_view().name,
    {
        &self.name
    }

    /// The tasks of the group.
    pub fn processes(&self) -> (tasks: &Vec<Task>)
        ensures
            tasks.deep_view() == self.deep_view().processes,
    {
        &self.processes
    }

    /// The start of the schedule, if the group has one.
    pub fn starts_at(&self) -> (start: Option<Timestamp>)
        ensures
            start == self.deep_view().starts_at,
    {
        self.starts_at
    }

    /// The period of the schedule, if the group has one.
    pub fn period(&self) -> (period: Option<YmdHmsDuration>)
        ensures
            period == self.deep_view().period,
    {
        self.period
    }

    /// The instant of the next execution, if one is due to come.
    pub fn next_execution(&self) -> (next: Option<Timestamp>)
        ensures
            next == self.deep_view().next_execution,
    {
        self.next_execution
    }
}

impl GroupModel {
    /// Reports keep a group well formed; they change no schedule, and no
    /// task runs more executions after them.
    pub proof fn lemma_reaped_wf(self, task: usize, report: FinishedModel)
        requires
            self.wf(),
        ensures
            self.reaped(task, report).wf(),
            self.reaped(task, report).processes.len() == self.processes.len(),
            forall|i: int|
                0 <= i < self.processes.len() ==> (#[trigger] self.reaped(
                    task,
                    report,
                ).processes[i]).running.len() <= self.processes[i].running.len(),
    {
        if task < self.processes.len() {
            self.processes[task as int].lemma_reaped_wf(report);
        }
    }

    /// A tick keeps a group well formed, as long as no history is full.
    pub proof fn lemma_fired_wf(self, now: Timestamp)
        requires
            self.wf(),
            forall|i: int|
                0 <= i < self.processes.len() ==> (#[trigger] self.processes[i]).executions.len()
                    < usize::MAX,
        ensures
            self.fired(now).wf(),
    {
        if self.due(now) {
            assert forall|i: int| 0 <= i < self.fired(now).processes.len() implies (
            #[trigger] self.fired(now).processes[i]).wf() by {
                self.processes[i].lemma_launched_wf();
            }
        }
    }
}

impl TaskGroup {
    /// Assigns the group its log directory `path`, and each task its own in
    /// it, named by the task's number. Returns the directories that must
    /// exist for the logs to be written, each after the one that holds it.
    pub fn set_log_path(&mut self, path: String) -> (directories: Vec<String>)
        ensures
            final(self).deep_view() == old(self).deep_view().with_log_path(path@),
            old(self).wf() ==> final(self).wf(),
            directories.deep_view() == GroupModel::log_directories(
                path@,
                old(self).deep_view().processes.len(),
            ),
    {
        let mut directories: Vec<String> = Vec::new();
        directories.push(path.clone());
        assert(directories.deep_view() =~= GroupModel::log_directories(path@, 0));
        let n: usize = self.processes.len();
        let mut id: usize = 0;
        while id < n
            invariant
                id <= n,
                n == self.processes.len(),
                n == old(self).processes.len(),
                self.name == old(self).name,
                self.starts_at == old(self).starts_at,
                self.starts_at_str == old(self).starts_at_str,
                self.period == old(self).period,
                self.period_str == old(self).period_str,
                self.next_execution == old(self).next_execution,
                directories.deep_view() == GroupModel::log_directories(path@, id as nat),
                forall|k: int|
                    0 <= k < id ==> (#[trigger] self.processes[k]).deep_view() == old(
                        self,
                    ).processes[k].deep_view().with_log_path(indexed_path(path@, k as nat)),
                forall|k: int| id <= k < n ==> self.processes[k] == old(self).processes[k],
                forall|k: int|
                    0 <= k < n ==> (old(self).processes[k].wf() ==> (
                    #[trigger] self.processes[k]).wf()),
            decreases n - id,
        {
            let name = decimal_string(id);
            let task_path = join_path(path.as_str(), name.as_str());
            let ghost before = directories.deep_view();
            let mut task_directories = self.processes[id].set_log_path(task_path);
            let ghost added = task_directories.deep_view();
            directories.append(&mut task_directories);
            assert(directories.deep_view() =~= before + added);
            id = id + 1;
        }
        assert(self.processes.deep_view() =~= old(self).deep_view().with_log_path(
            path@,
        ).processes);
        directories
    }

    /// Takes the report of one worker of the task numbered `task`, as
    /// [`Task::reap`] does; a report for a task that the group does not have
    /// is not taken.
    pub fn reap(&mut self, task: usize, report: Finished) -> (taken: bool)
        requires
            old(self).wf(),
        ensures
            final(self).wf(),
            final(self).deep_view() == old(self).deep_view().reaped(task, report.deep_view()),
            taken == old(self).deep_view().accepts(task, report.deep_view()),
    {
        proof {
            old(self).deep_view().lemma_reaped_wf(task, report.deep_view());
        }
        if task < self.processes.len() {
            let taken = self.processes[task].reap(report);
            assert(self.processes.deep_view() =~= old(self).processes.deep_view().update(
                task as int,
                old(self).processes[task as int].deep_view().reaped(report.deep_view()),
            ));
            taken
        } else {
            false
        }
    }
}

impl GroupModel {
    /// A report does not move the logs of a group.
    pub proof fn lemma_reaped_keeps_logs(self, path: Seq<char>, task: usize, report: FinishedModel)
        requires
            self.logs_at(path),
        ensures
            self.reaped(task, report).logs_at(path),
    {
    }

    /// A tick does not move the logs of a group.
    pub proof fn lemma_fired_keeps_logs(self, path: Seq<char>, now: Timestamp)
        requires
            self.logs_at(path),
        ensures
            self.fired(now).logs_at(path),
    {
    }

    /// Assigning a log directory puts the logs of a group there.
    pub proof fn lemma_logs_assigned(self, path: Seq<char>)
        ensures
            self.with_log_path(path).logs_at(path),
    {
    }

    /// Reports, one after the other, keep a group well formed; they change
    /// no schedule, and no task runs more executions after them.
    pub proof fn lemma_reaped_all_wf(self, reports: Seq<(usize, FinishedModel)>)
        requires
            self.wf(),
        ensures
            self.reaped_all(reports).wf(),
            self.reaped_all(reports).processes.len() == self.processes.len(),
            self.reaped_all(reports).next_execution == self.next_execution,
            self.reaped_all(reports).period == self.period,
            forall|i: int|
                0 <= i < self.processes.len() ==> (#[trigger] self.reaped_all(
                    reports,
                ).processes[i]).running.len() <= self.processes[i].running.len(),
        decreases reports.len(),
    {
        if reports.len() > 0 {
            self.lemma_reaped_all_wf(reports.drop_last());
            self.reaped_all(reports.drop_last()).lemma_reaped_wf(
                reports.last().0,
                reports.last().1,
            );
        }
    }
}

impl TaskGroup {
    /// The tick of `now`. The reports of the workers that have ended are
    /// taken first, each for the task whose number comes with it. Then, if
    /// an execution is due, every task is launched once, in order, and the
    /// next execution is advanced to the first that lies after `now`.
    pub fn update_at(&mut self, now: Timestamp, finished: Vec<(usize, Finished)>) -> (update:
        GroupUpdate)
        requires
            old(self).wf(),
        ensures
            final(self).wf(),
            final(self).deep_view() == old(self).deep_view().reaped_all(
                finished.deep_view(),
            ).fired(now),
            update.launches@ == old(self).deep_view().reaped_all(finished.deep_view()).launches(
                now,
            ),
            update.changed == (old(self).deep_view().reaped_all(finished.deep_view()).ended_since(
                old(self).deep_view(),
            ) || old(self).deep_view().reaped_all(finished.deep_view()).due(now)),
    {
        let mut changed: bool = false;
        let ghost reports = finished.deep_view();
        let ghost start = self.deep_view();
        for entry in it: finished
            invariant
                start == old(self).deep_view(),
                start.wf(),
                self.wf(),
                reports.len() == it.seq().len(),
                forall|k: int| 0 <= k < reports.len() ==> reports[k] == it.seq()[k].deep_view(),
                self.deep_view() == start.reaped_all(reports.take(it.index() as int)),
                changed == self.deep_view().ended_since(start),
        {
            proof {
                let n = it.index() as int;
                assert(reports.take(n + 1).drop_last() =~= reports.take(n));
                assert(reports.take(n + 1).last() == entry.deep_view());
                start.lemma_reaped_all_wf(reports.take(n));
                start.lemma_reaped_all_wf(reports.take(n + 1));
            }
            let ghost before = self.deep_view();
            let (task, report) = entry;
            let taken = self.reap(task, report);
            proof {
                let after = self.deep_view();
                if taken {
                    start.processes[task as int].lemma_reaped_all_wf(Seq::empty());
                    before.processes[task as int].lemma_reaped_wf(report.deep_view());
                    assert(after.processes[task as int].running.len()
                        < start.processes[task as int].running.len());
                } else {
                    assert(after.processes =~= before.processes);
                }
                if before.ended_since(start) {
                    let i = choose|i: int|
                        0 <= i < before.processes.len() && i < start.processes.len() && (
                        #[trigger] before.processes[i]).running.len()
                            < start.processes[i].running.len();
                    before.lemma_reaped_wf(task, report.deep_view());
                    assert(after.processes[i].running.len() < start.processes[i].running.len());
                }
            }
            changed = changed || taken;
        }
        assert(reports.take(reports.len() as int) =~= reports);
        let ghost mid = self.deep_view();
        let mut launches: Vec<Launch> = Vec::new();
        let due: Timestamp = match self.next_execution {
            Some(t) => {
                if t.secs > now.secs {
                    return GroupUpdate { changed, launches };
                }
                t
            },
            None => {
                return GroupUpdate { changed, launches };
            },
        };
        self.next_execution = next_execution_after(&self.period, due, now);
        let n: usize = self.processes.len();
        let mut i: usize = 0;
        while i < n
            invariant
                i <= n,
                n == self.processes.len(),
                n == mid.processes.len(),
                mid.wf(),
                self.name@ == mid.name,
                self.starts_at == mid.starts_at,
                self.starts_at_str.deep_view() == mid.starts_at_str,
                self.period == mid.period,
                self.period_str.deep_view() == mid.period_str,
                self.next_execution == next_execution_spec(mid.period, due, now),
                launches.len() == i,
                forall|k: int| 0 <= k < i ==> launches[k] == mid.processes[k].launch(),
                forall|k: int|
                    0 <= k < i ==> (#[trigger] self.processes[k]).deep_view()
                        == mid.processes[k].launched() && self.processes[k].wf(),
                forall|k: int|
                    i <= k < n ==> (#[trigger] self.processes[k]).deep_view() == mid.processes[k],
            decreases n - i,
        {
            let launch = self.processes[i].run();
            launches.push(launch);
            i = i + 1;
        }
        assert(self.processes.deep_view() =~= mid.fired(now).processes);
        assert(launches@ =~= mid.launches(now));
        GroupUpdate { changed: true, launches }
    }

    /// The tick of the present moment: [`TaskGroup::update_at`] for the
    /// instant that the clock shows.
    pub fn update(&mut self, finished: Vec<(usize, Finished)>) -> (update: GroupUpdate)
        requires
            old(self).wf(),
        ensures
            final(self).wf(),
            exists|now: Timestamp|
                {
                    &&& final(self).deep_view() == old(self).deep_view().reaped_all(
                        finished.deep_view(),
                    ).fired(now)
                    &&& update.launches@ == old(self).deep_view().reaped_all(
                        finished.deep_view(),
                    ).launches(now)
                    &&& update.changed == (old(self).deep_view().reaped_all(
                        finished.deep_view(),
                    ).ended_since(old(self).deep_view()) || old(self).deep_view().reaped_all(
                        finished.deep_view(),
                    ).due(now))
                },
    {
        let now = utc_now();
        self.update_at(now.instant, finished)
    }
}

impl GroupModel {
    /// The group that `conf` writes, made at `now`, with a new task for each
    /// configuration.
    pub open spec fn of_serialized(conf: SerializedGroupModel, now: ClockReading) -> GroupModel {
        GroupModel::created(
            conf.name,
            conf.starts_at,
            conf.period,
            conf.processes.map_values(|c: ConfigModel| TaskModel::fresh(c)),
            now,
        )
    }

    /// A group that is read and written again is written as it was read:
    /// the texts of the start and of the period come back as they were,
    /// asterisks included, whatever the clock showed, and so do the name and
    /// the configurations.
    pub proof fn lemma_schedule_round_trip(conf: SerializedGroupModel, now: ClockReading)
        ensures
            GroupModel::of_serialized(conf, now).serialized().starts_at == conf.starts_at,
            GroupModel::of_serialized(conf, now).serialized().period == conf.period,
            GroupModel::of_serialized(conf, now).serialized() == conf,
    {
        assert(GroupModel::of_serialized(conf, now).serialized().processes =~= conf.processes);
    }

    /// Assigning the same log directory twice is assigning it once, and
    /// asks for the same directories.
    pub proof fn lemma_log_path_idempotent(self, path: Seq<char>)
        ensures
            self.with_log_path(path).with_log_path(path) == self.with_log_path(path),
            self.with_log_path(path).processes.len() == self.processes.len(),
    {
        assert(self.with_log_path(path).with_log_path(path).processes =~= self.with_log_path(
            path,
        ).processes);
    }

    /// A group that is made after its start, with a period of `p` seconds
    /// and no months, catches up without making up for what it missed: its
    /// next execution is the first of `start + p`, `start + 2p`, ... after
    /// the moment at which it is made, and a tick at that moment launches
    /// nothing.
    pub proof fn lemma_late_group_skips_missed_waves(
        name: Seq<char>,
        starts_at: Option<Seq<char>>,
        period: Option<Seq<char>>,
        processes: Seq<TaskModel>,
        now: ClockReading,
        start: Timestamp,
        p: YmdHmsDuration,
    )
        requires
            start_of(starts_at, now.civil) == Some(start),
            period_of(period) == Some(p),
            p.months() == 0,
            p.seconds() > 0,
            start.secs <= now.instant.secs,
            now.instant.secs + p.seconds() <= i64::MAX,
        ensures
            ({
                let group = GroupModel::created(name, starts_at, period, processes, now);
                &&& group.next_execution == Some(
                    Timestamp {
                        secs: (start.secs + p.seconds() * ((now.instant.secs - start.secs)
                            / p.seconds() + 1)) as i64,
                    },
                )
                &&& !group.due(now.instant)
                &&& group.fired(now.instant) == group
                &&& group.launches(now.instant).len() == 0
            }),
    {
        lemma_catch_up_without_backfill(p, start, now.instant);
        lemma_next_execution_is_later(Some(p), start, now.instant);
    }

    /// A group without a period fires at most once: the tick at which its
    /// execution is due leaves none to come.
    pub proof fn lemma_one_shot(self, now: Timestamp)
        requires
            self.period.is_none(),
            self.due(now),
        ensures
            self.fired(now).next_execution.is_none(),
            forall|later: Timestamp| !self.fired(now).due(later),
    {
    }

    /// A group without a start never fires: no tick finds an execution due,
    /// and every tick leaves the group as it is.
    pub proof fn lemma_no_start_no_execution(self, now: Timestamp)
        requires
            self.wf(),
            self.starts_at.is_none(),
        ensures
            !self.due(now),
            self.fired(now) == self,
            self.launches(now).len() == 0,
    {
    }

    /// The number of waves of a tick: one if an execution is due, else none.
    pub open spec fn waves(due: bool) -> nat {
        if due {
            1
        } else {
            0
        }
    }

    /// A tick at which an execution is due fires one wave, however late it
    /// comes: every task gets one new slot, no more, and the next execution
    /// lies after the tick. A tick at which none is due launches nothing.
    pub proof fn lemma_one_wave(self, now: Timestamp)
        ensures
            self.fired(now).processes.len() == self.processes.len(),
            self.due(now) ==> self.launches(now).len() == self.processes.len(),
            !self.fired(now).due(now),
            forall|i: int|
                0 <= i < self.processes.len() ==> (#[trigger] self.fired(
                    now,
                ).processes[i]).executions.len() == self.processes[i].executions.len()
                    + GroupModel::waves(self.due(now)),
            !self.due(now) ==> self.fired(now) == self && self.launches(now).len() == 0,
    {
        if let Some(t) = self.next_execution {
            lemma_next_execution_is_later(self.period, t, now);
        }
    }

    /// A group whose execution was due at `start`, with a period of `p`
    /// seconds and no months, and which gets its tick only at `now`, fires
    /// one wave and skips the executions that it missed: the next one is the
    /// first of `start + p`, `start + 2p`, ... after `now`. Three and a half
    /// periods late, it is the fourth.
    pub proof fn lemma_late_tick_catches_up(self, now: Timestamp, start: Timestamp, p: YmdHmsDuration)
        requires
            self.next_execution == Some(start),
            self.period == Some(p),
            p.months() == 0,
            p.seconds() > 0,
            start.secs <= now.secs,
            now.secs + p.seconds() <= i64::MAX,
        ensures
            self.fired(now).next_execution == Some(
                Timestamp {
                    secs: (start.secs + p.seconds() * ((now.secs - start.secs) / p.seconds()
                        + 1)) as i64,
                },
            ),
            self.launches(now).len() == self.processes.len(),
            forall|i: int|
                0 <= i < self.processes.len() ==> (#[trigger] self.fired(
                    now,
                ).processes[i]).executions.len() == self.processes[i].executions.len() + 1,
            2 * (now.secs - start.secs) == 7 * p.seconds() ==> self.fired(now).next_execution
                == Some(Timestamp { secs: (start.secs + 4 * p.seconds()) as i64 }),
    {
        lemma_catch_up_without_backfill(p, start, now);
        let d = now.secs - start.secs;
        let q = p.seconds();
        if 2 * d == 7 * q {
            assert(d / q == 3) by (nonlinear_arith)
                requires
                    2 * d == 7 * q,
                    q > 0,
            ;
            assert(q * (d / q + 1) == 4 * q) by (nonlinear_arith)
                requires
                    d / q == 3,
            ;
        }
    }
}

} // verus!
