//! The environment: all the groups of a scheduler, and where their logs go.

use crate::group::{indexed_path, GroupError, GroupModel, SerializedTaskGroup, TaskGroup};
use crate::queries::{Queries, QueryModel};
use crate::task::{Finished, FinishedModel, Launch};
use crate::text::{decimal_string, join_path};
use crate::utils::{utc_now, ClockReading, Timestamp};
use vstd::prelude::*;
use vstd::string::*;

verus! {

/// The groups of a scheduler in the order in which they came, the root of
/// the log directories if there is one, and whether the configuration has
/// changed since it was last saved.
#[derive(Debug)]
pub struct Environment {
    pub groups: Vec<TaskGroup>,
    pub log: Option<String>,
    pub dirty: bool,
}

/// The value of an [`Environment`].
pub struct EnvironmentModel {
    pub groups: Seq<GroupModel>,
    pub log: Option<Seq<char>>,
    pub dirty: bool,
}

impl DeepView for Environment {
    type V = EnvironmentModel;

    open spec fn deep_view(&self) -> EnvironmentModel {
        EnvironmentModel {
            groups: self.groups.deep_view(),
            log: self.log.deep_view(),
            dirty: self.dirty,
        }
    }
}

impl EnvironmentModel {
    /// What holds of every environment: each group is well formed, and
    /// where there is a log root, the logs of the group numbered `g` are
    /// kept in the directory `g` of the root.
    pub open spec fn wf(self) -> bool {
        &&& forall|g: int| 0 <= g < self.groups.len() ==> (#[trigger] self.groups[g]).wf()
        &&& self.log matches Some(root) ==> forall|g: int|
            0 <= g < self.groups.len() ==> (#[trigger] self.groups[g]).logs_at(
                indexed_path(root, g as nat),
            )
    }

    /// The environment with the log root `root`: the group numbered `g`
    /// has its log directory under the name `g`.
    pub open spec fn with_log_path(self, root: Seq<char>) -> EnvironmentModel {
        EnvironmentModel {
            groups: Seq::new(
                self.groups.len(),
                |g: int| self.groups[g].with_log_path(indexed_path(root, g as nat)),
            ),
            log: Some(root),
            dirty: self.dirty,
        }
    }

    /// The directories that hold the logs of the first `count` groups under
    /// `root`, the root first, then those of each group in turn.
    pub open spec fn log_directories(self, root: Seq<char>, count: nat) -> Seq<Seq<char>>
        decreases count,
    {
        if count == 0 {
            seq![root]
        } else {
            self.log_directories(root, (count - 1) as nat) + GroupModel::log_directories(
                indexed_path(root, (count - 1) as nat),
                self.groups[count - 1].processes.len(),
            )
        }
    }

    /// The environment with one more group, the last. The group gets its
    /// log directory if there is a log root, and the configuration counts as
    /// changed.
    pub open spec fn with_group(self, group: GroupModel) -> EnvironmentModel {
        EnvironmentModel {
            groups: self.groups.push(
                match self.log {
                    Some(root) => group.with_log_path(indexed_path(root, self.groups.len())),
                    None => group,
                },
            ),
            log: self.log,
            dirty: true,
        }
    }

    /// The directories that must exist once `group` has been added.
    pub open spec fn new_directories(self, group: GroupModel) -> Seq<Seq<char>> {
        match self.log {
            Some(root) => GroupModel::log_directories(
                indexed_path(root, self.groups.len()),
                group.processes.len(),
            ),
            None => Seq::empty(),
        }
    }

    /// Whether a report is taken: the environment has the group, the group
    /// has the task, and the task takes the report.
    pub open spec fn accepts(self, group: usize, task: usize, report: FinishedModel) -> bool {
        group < self.groups.len() && self.groups[group as int].accepts(task, report)
    }

    /// The environment after one report, sent for the task numbered `task`
    /// of the group numbered `group`. A report for a group that the
    /// environment does not have changes nothing.
    pub open spec fn reaped(self, group: usize, task: usize, report: FinishedModel)
        -> EnvironmentModel {
        if group < self.groups.len() {
            EnvironmentModel {
                groups: self.groups.update(
                    group as int,
                    self.groups[group as int].reaped(task, report),
                ),
                ..self
            }
        } else {
            self
        }
    }

    /// The environment after the reports of `reports`, one after the other.
    pub open spec fn reaped_all(self, reports: Seq<(usize, usize, FinishedModel)>)
        -> EnvironmentModel
        decreases reports.len(),
    {
        if reports.len() == 0 {
            self
        } else {
            self.reaped_all(reports.drop_last()).reaped(
                reports.last().0,
                reports.last().1,
                reports.last().2,
            )
        }
    }

    /// The environment after every group has had the tick of `now`.
    pub open spec fn fired(self, now: Timestamp) -> EnvironmentModel {
        EnvironmentModel {
            groups: self.groups.map_values(|g: GroupModel| g.fired(now)),
            ..self
        }
    }

    /// The environment once its configuration has been saved.
    pub open spec fn saved(self) -> EnvironmentModel {
        EnvironmentModel { dirty: false, ..self }
    }

    /// A report keeps an environment well formed.
    pub proof fn lemma_reaped_wf(self, group: usize, task: usize, report: FinishedModel)
        requires
            self.wf(),
        ensures
            self.reaped(group, task, report).wf(),
    {
        if group < self.groups.len() {
            let after = self.reaped(group, task, report);
            self.groups[group as int].lemma_reaped_wf(task, report);
            assert forall|g: int| 0 <= g < after.groups.len() implies (
            #[trigger] after.groups[g]).wf() by {
                if g != group {
                    assert(after.groups[g] == self.groups[g]);
                }
            }
            if let Some(root) = self.log {
                assert forall|g: int| 0 <= g < after.groups.len() implies (
                #[trigger] after.groups[g]).logs_at(indexed_path(root, g as nat)) by {
                    if g == group {
                        self.groups[g].lemma_reaped_keeps_logs(
                            indexed_path(root, g as nat),
                            task,
                            report,
                        );
                    } else {
                        assert(after.groups[g] == self.groups[g]);
                    }
                }
            }
        }
    }
}

/// What one tick asks of the caller.
#[derive(Debug, PartialEq, Eq)]
pub struct EnvironmentUpdate {
    /// For each group in turn, what each of its tasks answered to its
    /// launch; empty for a group that did not fire.
    pub launches: Vec<Vec<Launch>>,
    /// Whether the configuration has changed since it was last saved, and is
    /// to be saved now.
    pub save: bool,
}

/// What a query asks of the caller.
#[derive(Debug, PartialEq, Eq)]
pub struct QueryOutcome {
    /// The message to send back, if any.
    pub reply: Option<Queries>,
    /// The directories that must exist from now on.
    pub directories: Vec<String>,
}

impl EnvironmentModel {
    /// Why a query is refused at `now`; `None` if it is served.
    pub open spec fn refusal(query: QueryModel, now: ClockReading) -> Option<GroupError> {
        match query {
            QueryModel::Ack => None,
            QueryModel::NewTaskGroup(conf) => GroupModel::creation_error(
                conf.starts_at,
                conf.period,
                now.civil,
            ),
        }
    }

    /// The environment after a query that is served at `now`.
    pub open spec fn answered(self, query: QueryModel, now: ClockReading) -> EnvironmentModel {
        match query {
            QueryModel::Ack => self,
            QueryModel::NewTaskGroup(conf) => self.with_group(
                GroupModel::of_serialized(conf, now),
            ),
        }
    }

    /// The directories that must exist after a query that is served at
    /// `now`.
    pub open spec fn answer_directories(self, query: QueryModel, now: ClockReading) -> Seq<
        Seq<char>,
    > {
        match query {
            QueryModel::Ack => Seq::empty(),
            QueryModel::NewTaskGroup(conf) => self.new_directories(
                GroupModel::of_serialized(conf, now),
            ),
        }
    }
}

impl Environment {
    /// What holds of every environment: see [`EnvironmentModel::wf`].
    pub open spec fn wf(&self) -> bool {
        self.deep_view().wf()
    }

    /// Whether every group is well formed.
    pub open spec fn groups_wf(&self) -> bool {
        forall|g: int|
            0 <= g < self.deep_view().groups.len() ==> (#[trigger] self.deep_view().groups[g]).wf()
    }

    /// The log directory of the group numbered `id` under the root `path`.
    pub fn get_task_group_log_path(path: &str, id: usize) -> (group_path: String)
        ensures
            group_path@ == indexed_path(path@, id as nat),
    {
        let name = decimal_string(id);
        join_path(path, name.as_str())
    }

    /// Makes `path` the log root, and assigns each group its directory in
    /// it. Returns the directories that must exist for the logs to be
    /// written, each after the one that holds it.
    pub fn set_log_path(&mut self, path: String) -> (directories: Vec<String>)
        ensures
            final(self).deep_view() == old(self).deep_view().with_log_path(path@),
            old(self).groups_wf() ==> final(self).wf(),
            directories.deep_view() == old(self).deep_view().log_directories(
                path@,
                old(self).deep_view().groups.len(),
            ),
    {
        let ghost start = self.deep_view();
        let mut directories: Vec<String> = Vec::new();
        directories.push(path.clone());
        assert(directories.deep_view() =~= start.log_directories(path@, 0));
        let n: usize = self.groups.len();
        let mut id: usize = 0;
        while id < n
            invariant
                id <= n,
                n == self.groups.len(),
                n == start.groups.len(),
                start == old(self).deep_view(),
                self.dirty == start.dirty,
                directories.deep_view() == start.log_directories(path@, id as nat),
                forall|k: int|
                    0 <= k < id ==> (#[trigger] self.groups[k]).deep_view()
                        == start.groups[k].with_log_path(indexed_path(path@, k as nat)),
                forall|k: int| id <= k < n ==> (#[trigger] self.groups[k]).deep_view()
                    == start.groups[k],
                forall|k: int|
                    0 <= k < n ==> (start.groups[k].wf() ==> (#[trigger] self.groups[k]).wf()),
            decreases n - id,
        {
            let group_path = Environment::get_task_group_log_path(path.as_str(), id);
            let ghost before = directories.deep_view();
            let mut group_directories = self.groups[id].set_log_path(group_path);
            let ghost added = group_directories.deep_view();
            directories.append(&mut group_directories);
            assert(directories.deep_view() =~= before + added);
            id = id + 1;
        }
        self.log = Some(path);
        assert(self.groups.deep_view() =~= start.with_log_path(path@).groups);
        proof {
            let after = self.deep_view();
            assert forall|g: int| 0 <= g < n implies (#[trigger] after.groups[g]).logs_at(
                indexed_path(path@, g as nat),
            ) by {
                start.groups[g].lemma_logs_assigned(indexed_path(path@, g as nat));
            }
        }
        directories
    }

    /// An environment of `groups`, with the log root `log` if one is given,
    /// and the directories that must exist for the logs to be written.
    /// Nothing is to be saved yet.
    pub fn new(groups: Vec<TaskGroup>, log: Option<String>) -> (made: (Environment, Vec<String>))
        requires
            forall|g: int| 0 <= g < groups.len() ==> (#[trigger] groups[g]).wf(),
        ensures
            made.0.wf(),
            match log {
                Some(root) => {
                    &&& made.0.deep_view() == (EnvironmentModel {
                        groups: groups.deep_view(),
                        log: None,
                        dirty: false,
                    }).with_log_path(root@)
                    &&& made.1.deep_view() == (EnvironmentModel {
                        groups: groups.deep_view(),
                        log: None,
                        dirty: false,
                    }).log_directories(root@, groups.len() as nat)
                },
                None => {
                    &&& made.0.deep_view() == (EnvironmentModel {
                        groups: groups.deep_view(),
                        log: None,
                        dirty: false,
                    })
                    &&& made.1.deep_view() == Seq::<Seq<char>>::empty()
                },
            },
    {
        let mut environment = Environment { groups, log: None, dirty: false };
        match log {
            Some(root) => {
                let directories = environment.set_log_path(root);
                (environment, directories)
            },
            None => {
                let directories: Vec<String> = Vec::new();
                assert(directories.deep_view() =~= Seq::<Seq<char>>::empty());
                (environment, directories)
            },
        }
    }

    /// Adds `task_group` as the last group. It gets its log directory if
    /// there is a log root, and the configuration counts as changed.
    /// Returns the directories that must exist from now on.
    pub fn add_new_group(&mut self, task_group: TaskGroup) -> (directories: Vec<String>)
        requires
            old(self).wf(),
            task_group.wf(),
        ensures
            final(self).wf(),
            final(self).deep_view() == old(self).deep_view().with_group(task_group.deep_view()),
            directories.deep_view() == old(self).deep_view().new_directories(
                task_group.deep_view(),
            ),
    {
        let id: usize = self.groups.len();
        let mut task_group = task_group;
        let ghost given = task_group.deep_view();
        let directories: Vec<String> = match &self.log {
            Some(path) => {
                let group_path = Environment::get_task_group_log_path(path.as_str(), id);
                proof {
                    given.lemma_logs_assigned(group_path@);
                }
                task_group.set_log_path(group_path)
            },
            None => {
                let none: Vec<String> = Vec::new();
                assert(none.deep_view() =~= Seq::<Seq<char>>::empty());
                none
            },
        };
        self.groups.push(task_group);
        self.dirty = true;
        assert(self.groups.deep_view() =~= old(self).deep_view().with_group(given).groups);
        directories
    }

    /// Notes that the configuration has been saved.
    pub fn saved(&mut self)
        ensures
            final(self).deep_view() == old(self).deep_view().saved(),
            old(self).wf() ==> final(self).wf(),
    {
        self.dirty = false;
    }

    /// The groups as they are written, in order: what a saved
    /// configuration holds beside the log root.
    pub fn serialized_groups(&self) -> (groups: Vec<SerializedTaskGroup>)
        ensures
            groups.deep_view() == self.deep_view().groups.map_values(
                |g: GroupModel| g.serialized(),
            ),
    {
        let mut groups: Vec<SerializedTaskGroup> = Vec::new();
        let mut i: usize = 0;
        while i < self.groups.len()
            invariant
                i <= self.groups.len(),
                groups.len() == i,
                forall|k: int|
                    0 <= k < i ==> (#[trigger] groups[k]).deep_view()
                        == self.groups[k].deep_view().serialized(),
            decreases self.groups.len() - i,
        {
            groups.push(self.groups[i].serialized());
            i = i + 1;
        }
        assert(groups.deep_view() =~= self.deep_view().groups.map_values(
            |g: GroupModel| g.serialized(),
        ));
        groups
    }

    /// Takes the report of one worker of the task numbered `task` in the
    /// group numbered `group`, as [`TaskGroup::reap`] does; a report for a
    /// group that the environment does not have is not taken.
    pub fn reap(&mut self, group: usize, task: usize, report: Finished) -> (taken: bool)
        requires
            old(self).wf(),
        ensures
            final(self).wf(),
            final(self).deep_view() == old(self).deep_view().reaped(
                group,
                task,
                report.deep_view(),
            ),
            taken == old(self).deep_view().accepts(group, task, report.deep_view()),
    {
        proof {
            old(self).deep_view().lemma_reaped_wf(group, task, report.deep_view());
        }
        if group < self.groups.len() {
            let taken = self.groups[group].reap(task, report);
            assert(self.groups.deep_view() =~= old(self).deep_view().reaped(
                group,
                task,
                report.deep_view(),
            ).groups);
            taken
        } else {
            false
        }
    }
}

impl EnvironmentModel {
    /// Reports, one after the other, keep an environment well formed, and
    /// leave the groups in their places.
    pub proof fn lemma_reaped_all_wf(self, reports: Seq<(usize, usize, FinishedModel)>)
        requires
            self.wf(),
        ensures
            self.reaped_all(reports).wf(),
            self.reaped_all(reports).groups.len() == self.groups.len(),
            self.reaped_all(reports).log == self.log,
            self.reaped_all(reports).dirty == self.dirty,
        decreases reports.len(),
    {
        if reports.len() > 0 {
            self.lemma_reaped_all_wf(reports.drop_last());
            self.reaped_all(reports.drop_last()).lemma_reaped_wf(
                reports.last().0,
                reports.last().1,
                reports.last().2,
            );
        }
    }
}

impl Environment {
    /// The tick of `now`. The reports of the workers that have ended are
    /// taken first, each for the group and the task whose numbers come with
    /// it. Then every group has its tick, in order. The answer holds the
    /// launches to carry out, and says whether the configuration is to be
    /// saved; [`Environment::saved`] notes that it has been.
    pub fn update_at(&mut self, now: Timestamp, finished: Vec<(usize, usize, Finished)>) -> (update:
        EnvironmentUpdate)
        requires
            old(self).wf(),
        ensures
            final(self).wf(),
            final(self).deep_view() == old(self).deep_view().reaped_all(
                finished.deep_view(),
            ).fired(now),
            update.save == old(self).deep_view().dirty,
            update.launches.len() == old(self).deep_view().groups.len(),
            forall|g: int|
                0 <= g < update.launches.len() ==> (#[trigger] update.launches[g])@ == old(
                    self,
                ).deep_view().reaped_all(finished.deep_view()).groups[g].launches(now),
    {
        let ghost reports = finished.deep_view();
        let ghost start = self.deep_view();
        for entry in it: finished
            invariant
                start.wf(),
                self.wf(),
                reports.len() == it.seq().len(),
                forall|k: int| 0 <= k < reports.len() ==> reports[k] == it.seq()[k].deep_view(),
                self.deep_view() == start.reaped_all(reports.take(it.index() as int)),
        {
            proof {
                let n = it.index() as int;
                assert(reports.take(n + 1).drop_last() =~= reports.take(n));
                assert(reports.take(n + 1).last() == entry.deep_view());
            }
            let (group, task, report) = entry;
            self.reap(group, task, report);
        }
        assert(reports.take(reports.len() as int) =~= reports);
        let ghost mid = self.deep_view();
        proof {
            start.lemma_reaped_all_wf(reports);
        }
        let mut launches: Vec<Vec<Launch>> = Vec::new();
        let n: usize = self.groups.len();
        let mut g: usize = 0;
        while g < n
            invariant
                g <= n,
                n == self.groups.len(),
                n == mid.groups.len(),
                mid.wf(),
                self.log.deep_view() == mid.log,
                self.dirty == mid.dirty,
                launches.len() == g,
                forall|k: int|
                    0 <= k < g ==> (#[trigger] launches[k])@ == mid.groups[k].launches(now),
                forall|k: int|
                    0 <= k < g ==> (#[trigger] self.groups[k]).deep_view() == mid.groups[k].fired(
                        now,
                    ) && self.groups[k].wf(),
                forall|k: int| g <= k < n ==> (#[trigger] self.groups[k]).deep_view()
                    == mid.groups[k],
            decreases n - g,
        {
            let none: Vec<(usize, Finished)> = Vec::new();
            assert(none.deep_view() =~= Seq::<(usize, FinishedModel)>::empty());
            let wave = self.groups[g].update_at(now, none);
            launches.push(wave.launches);
            g = g + 1;
        }
        assert(self.groups.deep_view() =~= mid.fired(now).groups);
        proof {
            if let Some(root) = mid.log {
                let after = self.deep_view();
                assert forall|k: int| 0 <= k < n implies (#[trigger] after.groups[k]).logs_at(
                    indexed_path(root, k as nat),
                ) by {
                    mid.groups[k].lemma_fired_keeps_logs(indexed_path(root, k as nat), now);
                }
            }
        }
        EnvironmentUpdate { launches, save: self.dirty }
    }
}

impl Environment {
    /// The tick of the present moment: [`Environment::update_at`] for the
    /// instant that the clock shows.
    pub fn update(&mut self, finished: Vec<(usize, usize, Finished)>) -> (update: EnvironmentUpdate)
        requires
            old(self).wf(),
        ensures
            final(self).wf(),
            update.save == old(self).deep_view().dirty,
            update.launches.len() == old(self).deep_view().groups.len(),
            exists|now: Timestamp|
                {
                    &&& final(self).deep_view() == old(self).deep_view().reaped_all(
                        finished.deep_view(),
                    ).fired(now)
                    &&& forall|g: int|
                        0 <= g < update.launches.len() ==> (#[trigger] update.launches[g])@ == old(
                            self,
                        ).deep_view().reaped_all(finished.deep_view()).groups[g].launches(now)
                },
    {
        let now = utc_now();
        self.update_at(now.instant, finished)
    }

    /// Serves a query at the clock reading `now`. An acknowledgement asks
    /// for nothing and gets no reply. A new group is made, added as the last
    /// group, and acknowledged; if it cannot be made, the error is returned
    /// and nothing changes.
    pub fn handle_query_at(&mut self, query: Queries, now: &ClockReading) -> (r: Result<
        QueryOutcome,
        GroupError,
    >)
        requires
            old(self).wf(),
        ensures
            final(self).wf(),
            match r {
                Ok(outcome) => {
                    &&& EnvironmentModel::refusal(query.deep_view(), *now).is_none()
                    &&& final(self).deep_view() == old(self).deep_view().answered(
                        query.deep_view(),
                        *now,
                    )
                    &&& outcome.reply.deep_view() == (match query.deep_view() {
                        QueryModel::Ack => None,
                        QueryModel::NewTaskGroup(_) => Some(QueryModel::Ack),
                    })
                    &&& outcome.directories.deep_view() == old(
                        self,
                    ).deep_view().answer_directories(query.deep_view(), *now)
                },
                Err(e) => {
                    &&& EnvironmentModel::refusal(query.deep_view(), *now) == Some(e)
                    &&& final(self).deep_view() == old(self).deep_view()
                },
            },
    {
        match query {
            Queries::Ack => {
                let directories: Vec<String> = Vec::new();
                assert(directories.deep_view() =~= Seq::<Seq<char>>::empty());
                Ok(QueryOutcome { reply: None, directories })
            },
            Queries::NewTaskGroup(conf) => match TaskGroup::from_serialized_at(conf, now) {
                Ok(group) => {
                    let directories = self.add_new_group(group);
                    Ok(QueryOutcome { reply: Some(Queries::Ack), directories })
                },
                Err(e) => Err(e),
            },
        }
    }

    /// Serves a query now: [`Environment::handle_query_at`] for some
    /// reading of the clock.
    pub fn handle_query(&mut self, query: Queries) -> (r: Result<QueryOutcome, GroupError>)
        requires
            old(self).wf(),
        ensures
            final(self).wf(),
            exists|now: ClockReading|
                now.coherent() && match r {
                    Ok(outcome) => {
                        &&& EnvironmentModel::refusal(query.deep_view(), now).is_none()
                        &&& final(self).deep_view() == old(self).deep_view().answered(
                            query.deep_view(),
                            now,
                        )
                        &&& outcome.reply.deep_view() == (match query.deep_view() {
                            QueryModel::Ack => None,
                            QueryModel::NewTaskGroup(_) => Some(QueryModel::Ack),
                        })
                        &&& outcome.directories.deep_view() == old(
                            self,
                        ).deep_view().answer_directories(query.deep_view(), now)
                    },
                    Err(e) => {
                        &&& EnvironmentModel::refusal(query.deep_view(), now) == Some(e)
                        &&& final(self).deep_view() == old(self).deep_view()
                    },
                },
    {
        let now = utc_now();
        self.handle_query_at(query, &now)
    }
}

impl EnvironmentModel {
    /// Making the same path the log root twice is making it the log root
    /// once, and asks for the same directories.
    pub proof fn lemma_log_path_idempotent(self, root: Seq<char>)
        ensures
            self.with_log_path(root).with_log_path(root) == self.with_log_path(root),
            forall|count: nat|
                count <= self.groups.len() ==> #[trigger] self.with_log_path(root).log_directories(
                    root,
                    count,
                ) == self.log_directories(root, count),
    {
        let once = self.with_log_path(root);
        assert forall|g: int| 0 <= g < self.groups.len() implies #[trigger] once.with_log_path(
            root,
        ).groups[g] == once.groups[g] by {
            self.groups[g].lemma_log_path_idempotent(indexed_path(root, g as nat));
        }
        assert(once.with_log_path(root).groups =~= once.groups);
        assert forall|count: nat|
            count <= self.groups.len() implies #[trigger] once.log_directories(root, count)
            == self.log_directories(root, count) by {
            self.lemma_same_directories(root, count);
        }
    }

    /// The directories of an environment depend on the number of tasks of
    /// each group alone.
    proof fn lemma_same_directories(self, root: Seq<char>, count: nat)
        requires
            count <= self.groups.len(),
        ensures
            self.with_log_path(root).log_directories(root, count) == self.log_directories(
                root,
                count,
            ),
        decreases count,
    {
        if count > 0 {
            self.lemma_same_directories(root, (count - 1) as nat);
        }
    }
}

} // verus!
