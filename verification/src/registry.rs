//! The EcoTask task registry: sponsors publish environmental tasks with a
//! reward, a completion limit and an expiry; sponsors record completions by
//! users; tasks are expired, extended or cancelled by their creator or the
//! admin.
//!
//! `RegistryModel` is the mathematical content of the registry's storage and
//! each entry point of `RegistryContract` is specified by a transition of that
//! model. Authorization of the acting address, the ledger clock and the
//! publication of events belong to the host: the entry points take the ledger
//! timestamp as an argument and return the event they emit.

use vstd::prelude::*;
use crate::address::{Address, opt_address_view};
use crate::keyed_map::KeyedMap;

verus! {

/// Why a registry entry point refused a request. Each refusal leaves the
/// registry unchanged.
#[derive(Clone, Copy, Debug, PartialEq, Eq, Structural)]
pub enum RegistryError {
    AlreadyInitialized,
    NotInitialized,
    Unauthorized,
    EmptyTaskType,
    RewardNotPositive,
    MaxCompletionsNotPositive,
    ExpiryNotInFuture,
    TaskNotFound,
    SponsorRevoked,
    TaskNotActive,
    TaskExpired,
    AlreadyCompleted,
    MaxCompletionsReached,
    ExpiryNotExtended,
    NewAdminSame,
}

/// The lifecycle state of a task.
#[derive(Clone, Copy, Debug, PartialEq, Eq, Structural)]
pub enum TaskStatus {
    Active,
    Completed,
    Expired,
    Cancelled,
}

/// A task as the registry stores it.
#[derive(Debug, PartialEq, Eq)]
pub struct Task {
    pub id: u64,
    pub creator: Address,
    pub task_type: String,
    pub location_hash: [u8; 32],
    pub reward_amount: i128,
    pub max_completions: u32,
    pub completions: u32,
    pub status: TaskStatus,
    pub created_at: u64,
    pub expires_at: u64,
}

/// The mathematical content of a task.
pub struct TaskView {
    pub id: u64,
    pub creator: Seq<char>,
    pub task_type: Seq<char>,
    pub location_hash: Seq<u8>,
    pub reward_amount: i128,
    pub max_completions: u32,
    pub completions: u32,
    pub status: TaskStatus,
    pub created_at: u64,
    pub expires_at: u64,
}

impl View for Task {
    type V = TaskView;

    open spec fn view(&self) -> TaskView {
        TaskView {
            id: self.id,
            creator: self.creator@,
            task_type: self.task_type@,
            location_hash: self.location_hash@,
            reward_amount: self.reward_amount,
            max_completions: self.max_completions,
            completions: self.completions,
            status: self.status,
            created_at: self.created_at,
            expires_at: self.expires_at,
        }
    }
}

impl Clone for Task {
    fn clone(&self) -> (r: Task)
        ensures
            r == *self,
    {
        Task {
            id: self.id,
            creator: self.creator.clone(),
            task_type: self.task_type.clone(),
            location_hash: self.location_hash,
            reward_amount: self.reward_amount,
            max_completions: self.max_completions,
            completions: self.completions,
            status: self.status,
            created_at: self.created_at,
            expires_at: self.expires_at,
        }
    }
}

/// Emitted when a task is created.
#[derive(Debug, PartialEq, Eq)]
pub struct TaskCreatedEvent {
    pub creator: Address,
    pub task_id: u64,
}

/// Emitted when a user's completion of a task is recorded.
#[derive(Debug, PartialEq, Eq)]
pub struct TaskCompletedEvent {
    pub user: Address,
    pub task_id: u64,
}

/// The event that names an expired task.
#[derive(Debug, PartialEq, Eq)]
pub struct TaskExpiredEvent {
    pub task_id: u64,
}

/// Emitted when a task is cancelled, by its creator or by the admin.
#[derive(Debug, PartialEq, Eq)]
pub struct TaskCancelledEvent {
    pub creator: Address,
    pub task_id: u64,
}

/// Emitted when a task's expiry is pushed back.
#[derive(Debug, PartialEq, Eq)]
pub struct TaskExtendedEvent {
    pub creator: Address,
    pub task_id: u64,
    pub new_expires_at: u64,
}

/// Emitted when the admin adds a sponsor.
#[derive(Debug, PartialEq, Eq)]
pub struct SponsorAddedEvent {
    pub sponsor: Address,
}

/// Emitted when the admin removes a sponsor.
#[derive(Debug, PartialEq, Eq)]
pub struct SponsorRemovedEvent {
    pub sponsor: Address,
}

/// The ids of the tasks in `tasks` created by `c`, in creation order.
pub open spec fn tasks_of(tasks: Seq<TaskView>, c: Seq<char>) -> Seq<u64>
    decreases tasks.len(),
{
    if tasks.len() == 0 {
        Seq::empty()
    } else {
        let earlier = tasks_of(tasks.drop_last(), c);
        if tasks.last().creator == c {
            earlier.push(tasks.last().id)
        } else {
            earlier
        }
    }
}

/// Rewriting a task without changing its id or creator leaves every
/// creator's task list as it was.
proof fn lemma_tasks_of_update(tasks: Seq<TaskView>, i: int, t: TaskView, c: Seq<char>)
    requires
        0 <= i < tasks.len(),
        t.id == tasks[i].id,
        t.creator == tasks[i].creator,
    ensures
        tasks_of(tasks.update(i, t), c) == tasks_of(tasks, c),
    decreases tasks.len(),
{
    let u = tasks.update(i, t);
    if i == tasks.len() - 1 {
        assert(u.drop_last() =~= tasks.drop_last());
    } else {
        lemma_tasks_of_update(tasks.drop_last(), i, t, c);
        assert(u.drop_last() =~= tasks.drop_last().update(i, t));
    }
}

/// The invariant carries over to a registry with the same tasks and creator
/// lists whose completion records all name existing tasks.
proof fn lemma_inv_frame(a: RegistryModel, b: RegistryModel)
    requires
        a.inv_shape(),
        b.tasks == a.tasks,
        b.creator_tasks == a.creator_tasks,
        b.completed.finite(),
        forall|p: (u64, Seq<char>)| #[trigger] b.completed.contains(p) ==> p.0 < b.tasks.len(),
    ensures
        b.inv_shape(),
        a.counts_match() && b.completed == a.completed ==> b.counts_match(),
{
    if a.counts_match() && b.completed == a.completed {
        assert forall|i: int| 0 <= i < b.tasks.len() implies #[trigger] b.tasks[i].completions
            == b.recorded_for(i).len() by {
            assert(a.tasks[i].completions == a.recorded_for(i).len());
        }
    }
    assert forall|c: Seq<char>| #[trigger] b.creator_ids(c) == tasks_of(b.tasks, c) by {
        assert(a.creator_ids(c) == tasks_of(a.tasks, c));
    }
}

/// The content of the registry's storage.
pub struct RegistryModel {
    pub admin: Option<Seq<char>>,
    pub sponsors: Set<Seq<char>>,
    /// Every task ever created; the task with id `i` is at position `i`.
    pub tasks: Seq<TaskView>,
    /// The task ids recorded for each creator.
    pub creator_tasks: Map<Seq<char>, Seq<u64>>,
    /// The (task id, user) pairs whose completion has been recorded.
    pub completed: Set<(u64, Seq<char>)>,
}

impl RegistryModel {
    /// A freshly deployed, uninitialized registry.
    pub open spec fn empty() -> RegistryModel {
        RegistryModel {
            admin: None,
            sponsors: Set::empty(),
            tasks: Seq::empty(),
            creator_tasks: Map::empty(),
            completed: Set::empty(),
        }
    }

    /// The task ids recorded for a creator; none for a creator never seen.
    pub open spec fn creator_ids(self, c: Seq<char>) -> Seq<u64> {
        if self.creator_tasks.contains_key(c) {
            self.creator_tasks[c]
        } else {
            Seq::empty()
        }
    }

    /// What the registry holds together at every moment: task `i` has id
    /// `i`; no task counts more completions than its limit, an active task
    /// fewer, and a task is completed exactly when it has reached its limit;
    /// each task counts as many completions as users recorded for it; each
    /// creator's list names exactly that creator's tasks in creation order;
    /// and every recorded completion names an existing task.
    pub open spec fn inv(self) -> bool {
        &&& self.inv_shape()
        &&& self.counts_match()
    }

    /// The completion records of one task.
    pub open spec fn recorded_for(self, task_id: int) -> Set<(u64, Seq<char>)> {
        self.completed.filter(|p: (u64, Seq<char>)| p.0 == task_id)
    }

    /// Every task counts exactly as many completions as there are distinct
    /// users recorded as having completed it.
    pub open spec fn counts_match(self) -> bool {
        forall|i: int|
            0 <= i < self.tasks.len() ==> #[trigger] self.tasks[i].completions == self.recorded_for(
                i,
            ).len()
    }

    /// The invariant apart from the completion counts.
    pub open spec fn inv_shape(self) -> bool {
        &&& self.completed.finite()
        &&& self.tasks.len() <= u64::MAX
        &&& forall|i: int| 0 <= i < self.tasks.len() ==> #[trigger] self.tasks[i].id == i
        &&& forall|i: int|
            0 <= i < self.tasks.len() ==> {
                let t = #[trigger] self.tasks[i];
                &&& 0 < t.max_completions
                &&& t.completions <= t.max_completions
                &&& t.status is Active ==> t.completions < t.max_completions
                &&& t.status is Completed <==> t.completions == t.max_completions
            }
        &&& forall|c: Seq<char>| #[trigger] self.creator_ids(c) == tasks_of(self.tasks, c)
        &&& forall|p: (u64, Seq<char>)| #[trigger] self.completed.contains(p) ==> p.0 < self.tasks.len()
    }

    /// Tasks that have left the active state are never changed again, and no
    /// task is ever dropped.
    pub open spec fn keeps_settled_tasks(self, next: RegistryModel) -> bool {
        &&& self.tasks.len() <= next.tasks.len()
        &&& forall|i: int|
            0 <= i < self.tasks.len() && !(#[trigger] self.tasks[i].status is Active) ==> next.tasks[i]
                == self.tasks[i]
    }

    /// The admin check: the registry must be initialized and `caller` must
    /// be its admin.
    pub open spec fn admin_check(self, caller: Seq<char>) -> Option<RegistryError> {
        match self.admin {
            None => Some(RegistryError::NotInitialized),
            Some(a) => if caller == a {
                None
            } else {
                Some(RegistryError::Unauthorized)
            },
        }
    }

    /// The sponsor check: `caller` must be a sponsor or the admin.
    pub open spec fn sponsor_check(self, caller: Seq<char>) -> Option<RegistryError> {
        match self.admin {
            None => Some(RegistryError::NotInitialized),
            Some(a) => if caller == a || self.sponsors.contains(caller) {
                None
            } else {
                Some(RegistryError::Unauthorized)
            },
        }
    }

    pub open spec fn initialize(self, admin: Seq<char>) -> Result<RegistryModel, RegistryError> {
        if self.admin is Some {
            Err(RegistryError::AlreadyInitialized)
        } else {
            Ok(RegistryModel { admin: Some(admin), ..self })
        }
    }

    pub open spec fn add_sponsor(self, caller: Seq<char>, sponsor: Seq<char>) -> Result<
        RegistryModel,
        RegistryError,
    > {
        match self.admin_check(caller) {
            Some(e) => Err(e),
            None => Ok(RegistryModel { sponsors: self.sponsors.insert(sponsor), ..self }),
        }
    }

    pub open spec fn remove_sponsor(self, caller: Seq<char>, sponsor: Seq<char>) -> Result<
        RegistryModel,
        RegistryError,
    > {
        match self.admin_check(caller) {
            Some(e) => Err(e),
            None => Ok(RegistryModel { sponsors: self.sponsors.remove(sponsor), ..self }),
        }
    }

    /// The task that `create_task` adds.
    pub open spec fn new_task(
        self,
        creator: Seq<char>,
        task_type: Seq<char>,
        location_hash: Seq<u8>,
        reward_amount: i128,
        max_completions: u32,
        expires_at: u64,
        now: u64,
    ) -> TaskView {
        TaskView {
            id: self.tasks.len() as u64,
            creator,
            task_type,
            location_hash,
            reward_amount,
            max_completions,
            completions: 0,
            status: TaskStatus::Active,
            created_at: now,
            expires_at,
        }
    }

    pub open spec fn create_task(
        self,
        creator: Seq<char>,
        task_type: Seq<char>,
        location_hash: Seq<u8>,
        reward_amount: i128,
        max_completions: u32,
        expires_at: u64,
        now: u64,
    ) -> Result<RegistryModel, RegistryError> {
        if self.sponsor_check(creator) is Some {
            Err(self.sponsor_check(creator)->0)
        } else if task_type.len() == 0 {
            Err(RegistryError::EmptyTaskType)
        } else if reward_amount <= 0 {
            Err(RegistryError::RewardNotPositive)
        } else if max_completions == 0 {
            Err(RegistryError::MaxCompletionsNotPositive)
        } else if expires_at <= now {
            Err(RegistryError::ExpiryNotInFuture)
        } else {
            let t = self.new_task(
                creator,
                task_type,
                location_hash,
                reward_amount,
                max_completions,
                expires_at,
                now,
            );
            Ok(
                RegistryModel {
                    tasks: self.tasks.push(t),
                    creator_tasks: self.creator_tasks.insert(
                        creator,
                        self.creator_ids(creator).push(t.id),
                    ),
                    ..self
                },
            )
        }
    }

    /// The stored task with the given id.
    pub open spec fn task(self, task_id: u64) -> Option<TaskView> {
        if task_id < self.tasks.len() {
            Some(self.tasks[task_id as int])
        } else {
            None
        }
    }

    /// The registry with task `task_id` replaced.
    pub open spec fn with_task(self, task_id: u64, t: TaskView) -> RegistryModel {
        RegistryModel { tasks: self.tasks.update(task_id as int, t), ..self }
    }

    /// The task after one more completion.
    pub open spec fn completed_once(t: TaskView) -> TaskView {
        let n = (t.completions + 1) as u32;
        TaskView {
            completions: n,
            status: if n >= t.max_completions {
                TaskStatus::Completed
            } else {
                t.status
            },
            ..t
        }
    }

    pub open spec fn complete_task(self, caller: Seq<char>, task_id: u64, user: Seq<char>, now: u64) -> Result<
        RegistryModel,
        RegistryError,
    > {
        if self.sponsor_check(caller) is Some {
            Err(self.sponsor_check(caller)->0)
        } else if self.task(task_id) is None {
            Err(RegistryError::TaskNotFound)
        } else {
            let t = self.task(task_id)->0;
            if t.creator != self.admin->0 && !self.sponsors.contains(t.creator) {
                Err(RegistryError::SponsorRevoked)
            } else if !(t.status is Active) {
                Err(RegistryError::TaskNotActive)
            } else if t.expires_at < now {
                Err(RegistryError::TaskExpired)
            } else if self.completed.contains((task_id, user)) {
                Err(RegistryError::AlreadyCompleted)
            } else if t.completions >= t.max_completions {
                Err(RegistryError::MaxCompletionsReached)
            } else {
                Ok(
                    RegistryModel {
                        completed: self.completed.insert((task_id, user)),
                        ..self.with_task(task_id, Self::completed_once(t))
                    },
                )
            }
        }
    }

    pub open spec fn expire_task(self, caller: Seq<char>, task_id: u64) -> Result<
        RegistryModel,
        RegistryError,
    > {
        if self.admin_check(caller) is Some {
            Err(self.admin_check(caller)->0)
        } else if self.task(task_id) is None {
            Err(RegistryError::TaskNotFound)
        } else if !(self.task(task_id)->0.status is Active) {
            Err(RegistryError::TaskNotActive)
        } else {
            Ok(
                self.with_task(
                    task_id,
                    TaskView { status: TaskStatus::Expired, ..self.task(task_id)->0 },
                ),
            )
        }
    }

    pub open spec fn extend_task_expiry(
        self,
        caller: Seq<char>,
        task_id: u64,
        new_expires_at: u64,
        now: u64,
    ) -> Result<RegistryModel, RegistryError> {
        if self.admin is None {
            Err(RegistryError::NotInitialized)
        } else if self.task(task_id) is None {
            Err(RegistryError::TaskNotFound)
        } else {
            let t = self.task(task_id)->0;
            if caller != self.admin->0 && t.creator != caller {
                Err(RegistryError::Unauthorized)
            } else if !(t.status is Active) {
                Err(RegistryError::TaskNotActive)
            } else if new_expires_at <= now {
                Err(RegistryError::ExpiryNotInFuture)
            } else if new_expires_at <= t.expires_at {
                Err(RegistryError::ExpiryNotExtended)
            } else {
                Ok(self.with_task(task_id, TaskView { expires_at: new_expires_at, ..t }))
            }
        }
    }

    pub open spec fn cancel_task(self, caller: Seq<char>, task_id: u64) -> Result<
        RegistryModel,
        RegistryError,
    > {
        if self.task(task_id) is None {
            Err(RegistryError::TaskNotFound)
        } else if self.task(task_id)->0.creator != caller {
            Err(RegistryError::Unauthorized)
        } else if !(self.task(task_id)->0.status is Active) {
            Err(RegistryError::TaskNotActive)
        } else {
            Ok(
                self.with_task(
                    task_id,
                    TaskView { status: TaskStatus::Cancelled, ..self.task(task_id)->0 },
                ),
            )
        }
    }

    pub open spec fn admin_cancel_task(self, caller: Seq<char>, task_id: u64) -> Result<
        RegistryModel,
        RegistryError,
    > {
        if self.admin_check(caller) is Some {
            Err(self.admin_check(caller)->0)
        } else if self.task(task_id) is None {
            Err(RegistryError::TaskNotFound)
        } else if !(self.task(task_id)->0.status is Active) {
            Err(RegistryError::TaskNotActive)
        } else {
            Ok(
                self.with_task(
                    task_id,
                    TaskView { status: TaskStatus::Cancelled, ..self.task(task_id)->0 },
                ),
            )
        }
    }

    pub open spec fn transfer_admin(self, current_admin: Seq<char>, new_admin: Seq<char>) -> Result<
        RegistryModel,
        RegistryError,
    > {
        if self.admin is None {
            Err(RegistryError::NotInitialized)
        } else if current_admin != self.admin->0 {
            Err(RegistryError::Unauthorized)
        } else if new_admin == current_admin {
            Err(RegistryError::NewAdminSame)
        } else {
            Ok(RegistryModel { admin: Some(new_admin), ..self })
        }
    }

    /// The page of a creator's task ids starting at offset `cursor`, at most
    /// `limit` long.
    pub open spec fn creator_page(self, creator: Seq<char>, cursor: u32, limit: u32) -> Seq<u64> {
        let ids = self.creator_ids(creator);
        let start = if cursor < ids.len() {
            cursor as int
        } else {
            ids.len() as int
        };
        let end = if start + limit < ids.len() {
            start + limit
        } else {
            ids.len() as int
        };
        ids.subrange(start, end)
    }

    /// The tasks with ids from `cursor` on, at most `limit` of them.
    pub open spec fn task_page(self, cursor: u64, limit: u32) -> Seq<TaskView> {
        if cursor >= self.tasks.len() {
            Seq::empty()
        } else if cursor + limit < self.tasks.len() {
            self.tasks.subrange(cursor as int, cursor + limit)
        } else {
            self.tasks.subrange(cursor as int, self.tasks.len() as int)
        }
    }
}


/// Laws of the registry model.
impl RegistryModel {
    /// A page of tasks lists consecutive ids starting at the cursor: the
    /// listing is ordered by id and skips none.
    pub proof fn lemma_task_page_in_id_order(self, cursor: u64, limit: u32)
        requires
            self.inv(),
        ensures
            self.task_page(cursor, limit).len() == (if cursor >= self.tasks.len() {
                0
            } else if cursor + limit < self.tasks.len() {
                limit as int
            } else {
                self.tasks.len() - cursor
            }),
            forall|i: int|
                0 <= i < self.task_page(cursor, limit).len() ==> #[trigger] self.task_page(
                    cursor,
                    limit,
                )[i].id == cursor + i,
    {
        assert forall|i: int| 0 <= i < self.task_page(cursor, limit).len() implies #[trigger] self.task_page(
            cursor,
            limit,
        )[i].id == cursor + i by {
            assert(self.tasks[cursor + i].id == cursor + i);
        }
    }

    /// Consecutive pages of tasks join up: the page of `k` tasks from
    /// `cursor` followed by the page of `l` tasks after it is the page of
    /// `k + l` tasks from `cursor`.
    pub proof fn lemma_task_pages_chain(self, cursor: u64, k: u32, l: u32)
        requires
            cursor + k <= u64::MAX,
            k + l <= u32::MAX,
        ensures
            self.task_page(cursor, k) + self.task_page((cursor + k) as u64, l) == self.task_page(
                cursor,
                (k + l) as u32,
            ),
    {
        assert(self.task_page(cursor, k) + self.task_page((cursor + k) as u64, l)
            =~= self.task_page(cursor, (k + l) as u32));
    }

    /// Consecutive pages of a creator's task ids join up in the same way.
    pub proof fn lemma_creator_pages_chain(self, creator: Seq<char>, cursor: u32, k: u32, l: u32)
        requires
            cursor + k + l <= u32::MAX,
        ensures
            self.creator_page(creator, cursor, k) + self.creator_page(
                creator,
                (cursor + k) as u32,
                l,
            ) == self.creator_page(creator, cursor, (k + l) as u32),
    {
        assert(self.creator_page(creator, cursor, k) + self.creator_page(
            creator,
            (cursor + k) as u32,
            l,
        ) =~= self.creator_page(creator, cursor, (k + l) as u32));
    }

    /// Once a user's completion of a task is recorded it stays recorded for
    /// that task, and no second completion by the same user is accepted.
    pub proof fn lemma_completion_recorded_once(
        self,
        caller: Seq<char>,
        task_id: u64,
        user: Seq<char>,
        now: u64,
        caller2: Seq<char>,
        now2: u64,
    )
        requires
            self.complete_task(caller, task_id, user, now) is Ok,
        ensures
            self.complete_task(caller, task_id, user, now)->Ok_0.completed.contains((task_id, user)),
            self.complete_task(caller, task_id, user, now)->Ok_0.complete_task(
                caller2,
                task_id,
                user,
                now2,
            ) is Err,
    {
    }

    /// A created task gets the next id, starts active with no completions,
    /// and is appended to its creator's list.
    pub proof fn lemma_created_task(
        self,
        creator: Seq<char>,
        task_type: Seq<char>,
        location_hash: Seq<u8>,
        reward_amount: i128,
        max_completions: u32,
        expires_at: u64,
        now: u64,
    )
        requires
            self.inv(),
            self.create_task(
                creator,
                task_type,
                location_hash,
                reward_amount,
                max_completions,
                expires_at,
                now,
            ) is Ok,
        ensures
            ({
                let next = self.create_task(
                    creator,
                    task_type,
                    location_hash,
                    reward_amount,
                    max_completions,
                    expires_at,
                    now,
                )->Ok_0;
                let id = self.tasks.len() as u64;
                &&& next.tasks.len() == self.tasks.len() + 1
                &&& next.task(id) matches Some(t) && t.id == id && t.creator == creator
                    && t.completions == 0 && t.status is Active && t.created_at == now
                &&& next.creator_ids(creator) == self.creator_ids(creator).push(id)
                &&& forall|c: Seq<char>| c != creator ==> #[trigger] next.creator_ids(c) == self.creator_ids(c)
            }),
    {
    }
}


/// When each registry request is accepted, and what an accepted request
/// does, stated over the tasks, sponsors and completion records.
impl RegistryModel {
    /// A completion is accepted exactly when the caller is the admin or a
    /// sponsor of an initialized registry, the task exists, its creator is
    /// still the admin or a sponsor, it is active, its expiry has not passed
    /// (it is open up to and including its expiry instant), this user has not
    /// completed this very task, and it is below its limit. It then records
    /// the user for that task, adds one completion, and marks the task
    /// completed exactly when the limit is reached; nothing else changes.
    pub proof fn lemma_complete_task_outcome(
        self,
        caller: Seq<char>,
        task_id: u64,
        user: Seq<char>,
        now: u64,
    )
        ensures
            self.complete_task(caller, task_id, user, now) is Ok <==> ({
                &&& self.admin is Some
                &&& (caller == self.admin->0 || self.sponsors.contains(caller))
                &&& task_id < self.tasks.len()
                &&& (self.tasks[task_id as int].creator == self.admin->0 || self.sponsors.contains(
                    self.tasks[task_id as int].creator,
                ))
                &&& self.tasks[task_id as int].status is Active
                &&& now <= self.tasks[task_id as int].expires_at
                &&& !self.completed.contains((task_id, user))
                &&& self.tasks[task_id as int].completions < self.tasks[task_id as int].max_completions
            }),
            self.complete_task(caller, task_id, user, now) is Ok ==> ({
                let next = self.complete_task(caller, task_id, user, now)->Ok_0;
                let t = self.tasks[task_id as int];
                let u = next.tasks[task_id as int];
                &&& next.completed == self.completed.insert((task_id, user))
                &&& next.tasks.len() == self.tasks.len()
                &&& forall|i: int|
                    0 <= i < self.tasks.len() && i != task_id ==> #[trigger] next.tasks[i]
                        == self.tasks[i]
                &&& u.completions == t.completions + 1
                &&& (u.status is Completed <==> t.completions + 1 == t.max_completions)
                &&& (u.status is Active <==> t.completions + 1 < t.max_completions)
                &&& u.id == t.id && u.creator == t.creator && u.task_type == t.task_type
                &&& u.location_hash == t.location_hash && u.reward_amount == t.reward_amount
                &&& u.max_completions == t.max_completions && u.created_at == t.created_at
                &&& u.expires_at == t.expires_at
                &&& next.admin == self.admin
                &&& next.sponsors == self.sponsors
                &&& next.creator_tasks == self.creator_tasks
            }),
    {
    }

    /// A user's completion of one task never blocks the same user on another
    /// task: if the user could complete task `t2` before completing task `t`,
    /// the user can still complete `t2` afterwards.
    pub proof fn lemma_completion_does_not_block_other_tasks(
        self,
        caller: Seq<char>,
        task_id: u64,
        user: Seq<char>,
        now: u64,
        caller2: Seq<char>,
        task_id2: u64,
        now2: u64,
    )
        requires
            task_id2 != task_id,
            self.complete_task(caller, task_id, user, now) is Ok,
            self.complete_task(caller2, task_id2, user, now2) is Ok,
        ensures
            self.complete_task(caller, task_id, user, now)->Ok_0.complete_task(
                caller2,
                task_id2,
                user,
                now2,
            ) is Ok,
    {
        self.lemma_complete_task_outcome(caller, task_id, user, now);
        self.lemma_complete_task_outcome(caller2, task_id2, user, now2);
        let next = self.complete_task(caller, task_id, user, now)->Ok_0;
        next.lemma_complete_task_outcome(caller2, task_id2, user, now2);
        assert(next.tasks[task_id2 as int] == self.tasks[task_id2 as int]);
    }

    /// Extending an expiry is accepted exactly when the registry is
    /// initialized, the task exists, the caller is the admin or the task's
    /// creator (whoever created it), the task is active, and the new expiry
    /// lies after both the current time and the current expiry. It then moves
    /// that one task's expiry and changes nothing else.
    pub proof fn lemma_extend_task_expiry_outcome(
        self,
        caller: Seq<char>,
        task_id: u64,
        new_expires_at: u64,
        now: u64,
    )
        ensures
            self.extend_task_expiry(caller, task_id, new_expires_at, now) is Ok <==> ({
                &&& self.admin is Some
                &&& task_id < self.tasks.len()
                &&& (caller == self.admin->0 || caller == self.tasks[task_id as int].creator)
                &&& self.tasks[task_id as int].status is Active
                &&& now < new_expires_at
                &&& self.tasks[task_id as int].expires_at < new_expires_at
            }),
            self.extend_task_expiry(caller, task_id, new_expires_at, now) is Ok ==> ({
                let next = self.extend_task_expiry(caller, task_id, new_expires_at, now)->Ok_0;
                &&& next.tasks == self.tasks.update(
                    task_id as int,
                    TaskView { expires_at: new_expires_at, ..self.tasks[task_id as int] },
                )
                &&& next.admin == self.admin
                &&& next.sponsors == self.sponsors
                &&& next.completed == self.completed
                &&& next.creator_tasks == self.creator_tasks
            }),
    {
    }

    /// A creator's cancellation is accepted exactly when the task exists, the
    /// caller created it and it is active, however many completions it has.
    /// It then marks that one task cancelled and changes nothing else.
    pub proof fn lemma_cancel_task_outcome(self, caller: Seq<char>, task_id: u64)
        ensures
            self.cancel_task(caller, task_id) is Ok <==> ({
                &&& task_id < self.tasks.len()
                &&& caller == self.tasks[task_id as int].creator
                &&& self.tasks[task_id as int].status is Active
            }),
            self.cancel_task(caller, task_id) is Ok ==> ({
                let next = self.cancel_task(caller, task_id)->Ok_0;
                &&& next.tasks == self.tasks.update(
                    task_id as int,
                    TaskView { status: TaskStatus::Cancelled, ..self.tasks[task_id as int] },
                )
                &&& next.admin == self.admin
                &&& next.sponsors == self.sponsors
                &&& next.completed == self.completed
                &&& next.creator_tasks == self.creator_tasks
            }),
    {
    }

    /// The admin's cancellation is accepted exactly when the caller is the
    /// admin, the task exists and it is active, whoever created it and however
    /// many completions it has. It then marks that one task cancelled.
    pub proof fn lemma_admin_cancel_task_outcome(self, caller: Seq<char>, task_id: u64)
        ensures
            self.admin_cancel_task(caller, task_id) is Ok <==> ({
                &&& self.admin == Some(caller)
                &&& task_id < self.tasks.len()
                &&& self.tasks[task_id as int].status is Active
            }),
            self.admin_cancel_task(caller, task_id) is Ok ==> ({
                let next = self.admin_cancel_task(caller, task_id)->Ok_0;
                &&& next.tasks == self.tasks.update(
                    task_id as int,
                    TaskView { status: TaskStatus::Cancelled, ..self.tasks[task_id as int] },
                )
                &&& next.admin == self.admin
                &&& next.sponsors == self.sponsors
                &&& next.completed == self.completed
                &&& next.creator_tasks == self.creator_tasks
            }),
    {
    }

    /// Expiring a task is accepted exactly when the caller is the admin, the
    /// task exists and it is active. It then marks that one task expired.
    pub proof fn lemma_expire_task_outcome(self, caller: Seq<char>, task_id: u64)
        ensures
            self.expire_task(caller, task_id) is Ok <==> ({
                &&& self.admin == Some(caller)
                &&& task_id < self.tasks.len()
                &&& self.tasks[task_id as int].status is Active
            }),
            self.expire_task(caller, task_id) is Ok ==> ({
                let next = self.expire_task(caller, task_id)->Ok_0;
                &&& next.tasks == self.tasks.update(
                    task_id as int,
                    TaskView { status: TaskStatus::Expired, ..self.tasks[task_id as int] },
                )
                &&& next.admin == self.admin
                &&& next.sponsors == self.sponsors
                &&& next.completed == self.completed
                &&& next.creator_tasks == self.creator_tasks
            }),
    {
    }

    /// Creating a task is accepted exactly when the creator is the admin or
    /// a sponsor of an initialized registry, the task type is not empty, the
    /// reward and the completion limit are positive, and the expiry lies after
    /// the current time. It then appends one task and changes no other.
    pub proof fn lemma_create_task_outcome(
        self,
        creator: Seq<char>,
        task_type: Seq<char>,
        location_hash: Seq<u8>,
        reward_amount: i128,
        max_completions: u32,
        expires_at: u64,
        now: u64,
    )
        ensures
            self.create_task(
                creator,
                task_type,
                location_hash,
                reward_amount,
                max_completions,
                expires_at,
                now,
            ) is Ok <==> ({
                &&& self.admin is Some
                &&& (creator == self.admin->0 || self.sponsors.contains(creator))
                &&& task_type.len() > 0
                &&& reward_amount > 0
                &&& max_completions > 0
                &&& now < expires_at
            }),
            self.create_task(
                creator,
                task_type,
                location_hash,
                reward_amount,
                max_completions,
                expires_at,
                now,
            ) is Ok ==> ({
                let next = self.create_task(
                    creator,
                    task_type,
                    location_hash,
                    reward_amount,
                    max_completions,
                    expires_at,
                    now,
                )->Ok_0;
                &&& next.tasks.len() == self.tasks.len() + 1
                &&& next.tasks.subrange(0, self.tasks.len() as int) == self.tasks
                &&& next.tasks.last().creator == creator
                &&& next.tasks.last().task_type == task_type
                &&& next.tasks.last().location_hash == location_hash
                &&& next.tasks.last().reward_amount == reward_amount
                &&& next.tasks.last().max_completions == max_completions
                &&& next.tasks.last().completions == 0
                &&& next.tasks.last().status is Active
                &&& next.tasks.last().created_at == now
                &&& next.tasks.last().expires_at == expires_at
                &&& next.completed == self.completed
                &&& next.sponsors == self.sponsors
                &&& next.admin == self.admin
            }),
    {
        if self.create_task(
            creator,
            task_type,
            location_hash,
            reward_amount,
            max_completions,
            expires_at,
            now,
        ) is Ok {
            let next = self.create_task(
                creator,
                task_type,
                location_hash,
                reward_amount,
                max_completions,
                expires_at,
                now,
            )->Ok_0;
            assert(next.tasks.subrange(0, self.tasks.len() as int) =~= self.tasks);
        }
    }
}

/// The registry's state, as its contract storage holds it.
pub struct RegistryContract {
    admin: Option<Address>,
    sponsors: KeyedMap<Address, ()>,
    tasks: Vec<Task>,
    creator_tasks: KeyedMap<Address, Vec<u64>>,
    completed: KeyedMap<(u64, Address), ()>,
}

impl View for RegistryContract {
    type V = RegistryModel;

    closed spec fn view(&self) -> RegistryModel {
        RegistryModel {
            admin: opt_address_view(self.admin),
            sponsors: self.sponsors@.dom(),
            tasks: self.tasks@.map_values(|t: Task| t@),
            creator_tasks: self.creator_tasks@.map_values(|v: Vec<u64>| v@),
            completed: self.completed@.dom(),
        }
    }
}

impl RegistryContract {
    /// Well-formedness: the storage tables are well formed and the model's
    /// invariant holds.
    pub closed spec fn wf(&self) -> bool {
        &&& self.tables_wf()
        &&& self@.inv()
    }

    /// The storage tables are well formed.
    closed spec fn tables_wf(&self) -> bool {
        &&& self.sponsors.wf()
        &&& self.creator_tasks.wf()
        &&& self.completed.wf()
    }

    /// Every registry the entry points can produce satisfies the model's
    /// invariant.
    pub proof fn lemma_wf_inv(&self)
        requires
            self.wf(),
        ensures
            self@.inv(),
    {
    }

    /// A freshly deployed registry, not yet initialized.
    pub fn new() -> (r: RegistryContract)
        ensures
            r.wf(),
            r@ == RegistryModel::empty(),
    {
        let r = RegistryContract {
            admin: None,
            sponsors: KeyedMap::new(),
            tasks: Vec::new(),
            creator_tasks: KeyedMap::new(),
            completed: KeyedMap::new(),
        };
        assert(r@.sponsors =~= Set::empty());
        assert(r@.tasks =~= Seq::empty());
        assert(r@.creator_tasks =~= Map::empty());
        assert(r@.completed =~= Set::empty());
        r
    }

    fn check_admin(&self, caller: &Address) -> (r: Option<RegistryError>)
        ensures
            r == self@.admin_check(caller@),
    {
        match &self.admin {
            None => Some(RegistryError::NotInitialized),
            Some(a) => if caller.same_as(a) {
                None
            } else {
                Some(RegistryError::Unauthorized)
            },
        }
    }

    fn check_sponsor(&self, caller: &Address) -> (r: Option<RegistryError>)
        requires
            self.sponsors.wf(),
        ensures
            r == self@.sponsor_check(caller@),
    {
        match &self.admin {
            None => Some(RegistryError::NotInitialized),
            Some(a) => if caller.same_as(a) || self.sponsors.contains(caller) {
                None
            } else {
                Some(RegistryError::Unauthorized)
            },
        }
    }

    /// Sets the admin of a fresh registry.
    pub fn initialize(&mut self, admin: Address) -> (r: Result<(), RegistryError>)
        requires
            old(self).wf(),
        ensures
            final(self).wf(),
            match old(self)@.initialize(admin@) {
                Ok(m) => r is Ok && final(self)@ == m,
                Err(e) => r == Err::<(), RegistryError>(e) && final(self)@ == old(self)@,
            },
    {
        if self.admin.is_some() {
            return Err(RegistryError::AlreadyInitialized);
        }
        let ghost before = self@;
        self.admin = Some(admin);
        proof {
            lemma_inv_frame(before, self@);
        }
        Ok(())
    }

    /// Lets `sponsor` create tasks. Admin-only; `caller` must have authorized
    /// the call.
    pub fn add_sponsor(&mut self, caller: &Address, sponsor: Address) -> (r: Result<
        SponsorAddedEvent,
        RegistryError,
    >)
        requires
            old(self).wf(),
        ensures
            final(self).wf(),
            match old(self)@.add_sponsor(caller@, sponsor@) {
                Ok(m) => r matches Ok(ev) && ev.sponsor@ == sponsor@ && final(self)@ == m,
                Err(e) => r == Err::<SponsorAddedEvent, RegistryError>(e) && final(self)@ == old(
                    self,
                )@,
            },
    {
        if let Some(e) = self.check_admin(caller) {
            return Err(e);
        }
        self.sponsors.insert(sponsor.clone(), ());
        assert(self@.sponsors =~= old(self)@.sponsors.insert(sponsor@));
        proof {
            lemma_inv_frame(old(self)@, self@);
        }
        Ok(SponsorAddedEvent { sponsor })
    }

    /// Withdraws `sponsor`'s right to create tasks. Admin-only.
    pub fn remove_sponsor(&mut self, caller: &Address, sponsor: Address) -> (r: Result<
        SponsorRemovedEvent,
        RegistryError,
    >)
        requires
            old(self).wf(),
        ensures
            final(self).wf(),
            match old(self)@.remove_sponsor(caller@, sponsor@) {
                Ok(m) => r matches Ok(ev) && ev.sponsor@ == sponsor@ && final(self)@ == m,
                Err(e) => r == Err::<SponsorRemovedEvent, RegistryError>(e) && final(self)@ == old(
                    self,
                )@,
            },
    {
        if let Some(e) = self.check_admin(caller) {
            return Err(e);
        }
        self.sponsors.remove(&sponsor);
        assert(self@.sponsors =~= old(self)@.sponsors.remove(sponsor@));
        proof {
            lemma_inv_frame(old(self)@, self@);
        }
        Ok(SponsorRemovedEvent { sponsor })
    }

    /// Publishes a new task and returns its id, which is the number of tasks
    /// created before it. `creator` must be a sponsor or the admin and must
    /// have authorized the call; `now` is the ledger timestamp.
    pub fn create_task(
        &mut self,
        creator: Address,
        task_type: String,
        location_hash: [u8; 32],
        reward_amount: i128,
        max_completions: u32,
        expires_at: u64,
        now: u64,
    ) -> (r: Result<(u64, TaskCreatedEvent), RegistryError>)
        requires
            old(self).wf(),
            old(self)@.tasks.len() < u64::MAX,
        ensures
            final(self).wf(),
            old(self)@.keeps_settled_tasks(final(self)@),
            match old(self)@.create_task(
                creator@,
                task_type@,
                location_hash@,
                reward_amount,
                max_completions,
                expires_at,
                now,
            ) {
                Ok(m) => {
                    &&& final(self)@ == m
                    &&& r matches Ok((id, ev))
                    &&& id == old(self)@.tasks.len()
                    &&& ev.creator@ == creator@
                    &&& ev.task_id == id
                },
                Err(e) => r == Err::<(u64, TaskCreatedEvent), RegistryError>(e) && final(self)@
                    == old(self)@,
            },
    {
        if let Some(e) = self.check_sponsor(&creator) {
            return Err(e);
        }
        if task_type.as_str().is_empty() {
            return Err(RegistryError::EmptyTaskType);
        }
        if reward_amount <= 0 {
            return Err(RegistryError::RewardNotPositive);
        }
        if max_completions == 0 {
            return Err(RegistryError::MaxCompletionsNotPositive);
        }
        if expires_at <= now {
            return Err(RegistryError::ExpiryNotInFuture);
        }
        let task_id = self.tasks.len() as u64;
        let ghost old_model = self@;
        let task = Task {
            id: task_id,
            creator: creator.clone(),
            task_type,
            location_hash,
            reward_amount,
            max_completions,
            completions: 0,
            status: TaskStatus::Active,
            created_at: now,
            expires_at,
        };
        self.tasks.push(task);
        let mut ids = match self.creator_tasks.take(&creator) {
            Some(v) => v,
            None => Vec::new(),
        };
        ids.push(task_id);
        self.creator_tasks.insert(creator.clone(), ids);
        proof {
            let new_t = old_model.new_task(
                creator@,
                task_type@,
                location_hash@,
                reward_amount,
                max_completions,
                expires_at,
                now,
            );
            assert(self@.tasks =~= old_model.tasks.push(new_t));
            assert(self@.creator_tasks =~= old_model.creator_tasks.insert(
                creator@,
                old_model.creator_ids(creator@).push(task_id),
            ));
            assert(self@.tasks.drop_last() =~= old_model.tasks);
            assert forall|c: Seq<char>| #[trigger]
                self@.creator_ids(c) == tasks_of(self@.tasks, c) by {
                assert(old_model.creator_ids(c) == tasks_of(old_model.tasks, c));
            }
            assert forall|i: int| 0 <= i < self@.tasks.len() implies #[trigger] self@.tasks[i].completions
                == self@.recorded_for(i).len() by {
                if i < old_model.tasks.len() {
                    assert(old_model.tasks[i].completions == old_model.recorded_for(i).len());
                    assert(self@.recorded_for(i) =~= old_model.recorded_for(i));
                } else {
                    assert(self@.recorded_for(i) =~= Set::<(u64, Seq<char>)>::empty());
                }
            }
        }
        Ok((task_id, TaskCreatedEvent { creator, task_id }))
    }

    /// The task with the given id.
    pub fn get_task(&self, task_id: u64) -> (r: Result<&Task, RegistryError>)
        requires
            self.wf(),
        ensures
            match self@.task(task_id) {
                Some(t) => r matches Ok(x) && x@ == t,
                None => r == Err::<&Task, RegistryError>(RegistryError::TaskNotFound),
            },
    {
        if task_id < self.tasks.len() as u64 {
            Ok(&self.tasks[task_id as usize])
        } else {
            Err(RegistryError::TaskNotFound)
        }
    }

    /// Stores `t` as task `task_id`, which must exist and keep its id and
    /// creator.
    fn replace_task(&mut self, task_id: u64, t: Task)
        requires
            old(self).tables_wf(),
            old(self)@.inv_shape(),
            task_id < old(self)@.tasks.len(),
            t.id == old(self)@.tasks[task_id as int].id,
            t@.creator == old(self)@.tasks[task_id as int].creator,
            0 < t.max_completions,
            t.completions <= t.max_completions,
            t.status is Active ==> t.completions < t.max_completions,
            t.status is Completed <==> t.completions == t.max_completions,
        ensures
            final(self)@ == old(self)@.with_task(task_id, t@),
            final(self).sponsors == old(self).sponsors,
            final(self).creator_tasks == old(self).creator_tasks,
            final(self).completed == old(self).completed,
            final(self).admin == old(self).admin,
            final(self).tables_wf(),
            final(self)@.inv_shape(),
            old(self)@.counts_match() && t.completions == old(self)@.tasks[task_id as int].completions
                ==> final(self)@.counts_match(),
    {
        let ghost old_model = self@;
        let ghost old_tasks = self.tasks@;
        let n = self.tasks.len();
        assert(old_tasks.len() == old_model.tasks.len());
        assert(task_id < n);
        self.tasks.set(task_id as usize, t);
        proof {
            assert(self.tasks@ == old_tasks.update(task_id as int, t));
            assert(self@.tasks =~= old_model.tasks.update(task_id as int, t@));
            assert forall|c: Seq<char>| #[trigger]
                self@.creator_ids(c) == tasks_of(self@.tasks, c) by {
                lemma_tasks_of_update(old_model.tasks, task_id as int, t@, c);
                assert(old_model.creator_ids(c) == tasks_of(old_model.tasks, c));
            }
            if old_model.counts_match() && t.completions == old_model.tasks[task_id as int].completions {
                assert forall|i: int| 0 <= i < self@.tasks.len() implies #[trigger] self@.tasks[i].completions
                    == self@.recorded_for(i).len() by {
                    assert(old_model.tasks[i].completions == old_model.recorded_for(i).len());
                }
            }
        }
    }

    /// Records that `user` completed task `task_id`; the task becomes
    /// completed once it reaches its completion limit. `caller` must be a
    /// sponsor or the admin and must have authorized the call; `now` is the
    /// ledger timestamp.
    pub fn complete_task(&mut self, caller: &Address, task_id: u64, user: Address, now: u64) -> (r:
        Result<TaskCompletedEvent, RegistryError>)
        requires
            old(self).wf(),
        ensures
            final(self).wf(),
            old(self)@.keeps_settled_tasks(final(self)@),
            match old(self)@.complete_task(caller@, task_id, user@, now) {
                Ok(m) => {
                    &&& final(self)@ == m
                    &&& r matches Ok(ev)
                    &&& ev.user@ == user@
                    &&& ev.task_id == task_id
                },
                Err(e) => r == Err::<TaskCompletedEvent, RegistryError>(e) && final(self)@ == old(
                    self,
                )@,
            },
    {
        if let Some(e) = self.check_sponsor(caller) {
            return Err(e);
        }
        if task_id >= self.tasks.len() as u64 {
            return Err(RegistryError::TaskNotFound);
        }
        let mut task = self.tasks[task_id as usize].clone();
        let revoked = match &self.admin {
            Some(a) => !task.creator.same_as(a) && !self.sponsors.contains(&task.creator),
            None => false,
        };
        if revoked {
            return Err(RegistryError::SponsorRevoked);
        }
        if task.status != TaskStatus::Active {
            return Err(RegistryError::TaskNotActive);
        }
        if task.expires_at < now {
            return Err(RegistryError::TaskExpired);
        }
        let key = (task_id, user.clone());
        if self.completed.contains(&key) {
            return Err(RegistryError::AlreadyCompleted);
        }
        if task.completions >= task.max_completions {
            return Err(RegistryError::MaxCompletionsReached);
        }
        task.completions = task.completions + 1;
        if task.completions >= task.max_completions {
            task.status = TaskStatus::Completed;
        }
        let ghost before = self@;
        self.replace_task(task_id, task);
        let ghost mid = self@;
        self.completed.insert(key, ());
        proof {
            let p = (task_id, user@);
            assert(self@.completed =~= mid.completed.insert(p));
            lemma_inv_frame(mid, self@);
            assert forall|i: int| 0 <= i < self@.tasks.len() implies #[trigger] self@.tasks[i].completions
                == self@.recorded_for(i).len() by {
                before.completed.lemma_len_filter(|q: (u64, Seq<char>)| q.0 == i);
                assert(before.tasks[i].completions == before.recorded_for(i).len());
                if i == task_id {
                    assert(self@.recorded_for(i) =~= before.recorded_for(i).insert(p));
                } else {
                    assert(self@.recorded_for(i) =~= before.recorded_for(i));
                }
            }
        }
        Ok(TaskCompletedEvent { user, task_id })
    }

    /// Marks an active task expired. Admin-only.
    pub fn expire_task(&mut self, caller: &Address, task_id: u64) -> (r: Result<(), RegistryError>)
        requires
            old(self).wf(),
        ensures
            final(self).wf(),
            old(self)@.keeps_settled_tasks(final(self)@),
            match old(self)@.expire_task(caller@, task_id) {
                Ok(m) => r is Ok && final(self)@ == m,
                Err(e) => r == Err::<(), RegistryError>(e) && final(self)@ == old(self)@,
            },
    {
        if let Some(e) = self.check_admin(caller) {
            return Err(e);
        }
        if task_id >= self.tasks.len() as u64 {
            return Err(RegistryError::TaskNotFound);
        }
        let mut task = self.tasks[task_id as usize].clone();
        if task.status != TaskStatus::Active {
            return Err(RegistryError::TaskNotActive);
        }
        task.status = TaskStatus::Expired;
        self.replace_task(task_id, task);
        Ok(())
    }

    /// Pushes back the expiry of an active task. Callable by the task creator
    /// or the admin; the new expiry must be in the future and later than the
    /// current one.
    pub fn extend_task_expiry(
        &mut self,
        caller: &Address,
        task_id: u64,
        new_expires_at: u64,
        now: u64,
    ) -> (r: Result<TaskExtendedEvent, RegistryError>)
        requires
            old(self).wf(),
        ensures
            final(self).wf(),
            old(self)@.keeps_settled_tasks(final(self)@),
            match old(self)@.extend_task_expiry(caller@, task_id, new_expires_at, now) {
                Ok(m) => {
                    &&& final(self)@ == m
                    &&& r matches Ok(ev)
                    &&& ev.creator@ == old(self)@.tasks[task_id as int].creator
                    &&& ev.task_id == task_id
                    &&& ev.new_expires_at == new_expires_at
                },
                Err(e) => r == Err::<TaskExtendedEvent, RegistryError>(e) && final(self)@ == old(
                    self,
                )@,
            },
    {
        let is_admin = match &self.admin {
            Some(a) => caller.same_as(a),
            None => {
                return Err(RegistryError::NotInitialized);
            },
        };
        if task_id >= self.tasks.len() as u64 {
            return Err(RegistryError::TaskNotFound);
        }
        let mut task = self.tasks[task_id as usize].clone();
        if !is_admin && !task.creator.same_as(caller) {
            return Err(RegistryError::Unauthorized);
        }
        if task.status != TaskStatus::Active {
            return Err(RegistryError::TaskNotActive);
        }
        if new_expires_at <= now {
            return Err(RegistryError::ExpiryNotInFuture);
        }
        if new_expires_at <= task.expires_at {
            return Err(RegistryError::ExpiryNotExtended);
        }
        task.expires_at = new_expires_at;
        let creator = task.creator.clone();
        self.replace_task(task_id, task);
        Ok(TaskExtendedEvent { creator, task_id, new_expires_at })
    }

    /// Cancels an active task. Only its creator may do so.
    pub fn cancel_task(&mut self, caller: &Address, task_id: u64) -> (r: Result<
        TaskCancelledEvent,
        RegistryError,
    >)
        requires
            old(self).wf(),
        ensures
            final(self).wf(),
            old(self)@.keeps_settled_tasks(final(self)@),
            match old(self)@.cancel_task(caller@, task_id) {
                Ok(m) => {
                    &&& final(self)@ == m
                    &&& r matches Ok(ev)
                    &&& ev.creator@ == old(self)@.tasks[task_id as int].creator
                    &&& ev.task_id == task_id
                },
                Err(e) => r == Err::<TaskCancelledEvent, RegistryError>(e) && final(self)@ == old(
                    self,
                )@,
            },
    {
        if task_id >= self.tasks.len() as u64 {
            return Err(RegistryError::TaskNotFound);
        }
        let mut task = self.tasks[task_id as usize].clone();
        if !task.creator.same_as(caller) {
            return Err(RegistryError::Unauthorized);
        }
        if task.status != TaskStatus::Active {
            return Err(RegistryError::TaskNotActive);
        }
        task.status = TaskStatus::Cancelled;
        let creator = task.creator.clone();
        self.replace_task(task_id, task);
        Ok(TaskCancelledEvent { creator, task_id })
    }

    /// Cancels any active task. Admin-only.
    pub fn admin_cancel_task(&mut self, caller: &Address, task_id: u64) -> (r: Result<
        TaskCancelledEvent,
        RegistryError,
    >)
        requires
            old(self).wf(),
        ensures
            final(self).wf(),
            old(self)@.keeps_settled_tasks(final(self)@),
            match old(self)@.admin_cancel_task(caller@, task_id) {
                Ok(m) => {
                    &&& final(self)@ == m
                    &&& r matches Ok(ev)
                    &&& ev.creator@ == old(self)@.tasks[task_id as int].creator
                    &&& ev.task_id == task_id
                },
                Err(e) => r == Err::<TaskCancelledEvent, RegistryError>(e) && final(self)@ == old(
                    self,
                )@,
            },
    {
        if let Some(e) = self.check_admin(caller) {
            return Err(e);
        }
        if task_id >= self.tasks.len() as u64 {
            return Err(RegistryError::TaskNotFound);
        }
        let mut task = self.tasks[task_id as usize].clone();
        if task.status != TaskStatus::Active {
            return Err(RegistryError::TaskNotActive);
        }
        task.status = TaskStatus::Cancelled;
        let creator = task.creator.clone();
        self.replace_task(task_id, task);
        Ok(TaskCancelledEvent { creator, task_id })
    }

    /// The number of tasks ever created.
    pub fn task_count(&self) -> (r: u64)
        requires
            self.wf(),
        ensures
            r == self@.tasks.len(),
    {
        self.tasks.len() as u64
    }

    /// Whether `user`'s completion of task `task_id` has been recorded.
    pub fn is_task_completed(&self, task_id: u64, user: &Address) -> (r: bool)
        requires
            self.wf(),
        ensures
            r == self@.completed.contains((task_id, user@)),
    {
        self.completed.contains(&(task_id, user.clone()))
    }

    /// The ids of the tasks created by `creator`, in creation order.
    pub fn get_tasks_by_creator(&self, creator: &Address) -> (r: Vec<u64>)
        requires
            self.wf(),
        ensures
            r@ == self@.creator_ids(creator@),
            r@ == tasks_of(self@.tasks, creator@),
    {
        let r = match self.creator_tasks.get(creator) {
            Some(ids) => {
                let mut out: Vec<u64> = Vec::new();
                let n = ids.len();
                let mut i: usize = 0;
                while i < n
                    invariant
                        n == ids@.len(),
                        i <= n,
                        out@ == ids@.subrange(0, i as int),
                    decreases n - i,
                {
                    out.push(ids[i]);
                    i = i + 1;
                    assert(out@ =~= ids@.subrange(0, i as int));
                }
                assert(ids@.subrange(0, n as int) =~= ids@);
                out
            },
            None => Vec::new(),
        };
        assert(self@.creator_ids(creator@) == tasks_of(self@.tasks, creator@));
        r
    }

    /// A page of the ids of the tasks created by `creator`: at most `limit`
    /// ids starting at offset `cursor` (an offset past the end gives an empty
    /// page).
    pub fn get_tasks_by_creator_paged(&self, creator: &Address, cursor: u32, limit: u32) -> (r: Vec<
        u64,
    >)
        requires
            self.wf(),
        ensures
            r@ == self@.creator_page(creator@, cursor, limit),
    {
        let mut out: Vec<u64> = Vec::new();
        match self.creator_tasks.get(creator) {
            Some(ids) => {
                let n = ids.len();
                let start: usize = if (cursor as usize) < n {
                    cursor as usize
                } else {
                    n
                };
                let end: usize = if (limit as usize) < n - start {
                    start + (limit as usize)
                } else {
                    n
                };
                let mut i: usize = start;
                while i < end
                    invariant
                        n == ids@.len(),
                        start <= i <= end <= n,
                        out@ == ids@.subrange(start as int, i as int),
                    decreases end - i,
                {
                    out.push(ids[i]);
                    i = i + 1;
                    assert(out@ =~= ids@.subrange(start as int, i as int));
                }
            },
            None => {
                assert(self@.creator_page(creator@, cursor, limit) =~= Seq::<u64>::empty());
            },
        }
        out
    }

    /// The tasks in id order from id `cursor` on, at most `limit` of them.
    pub fn list_tasks(&self, cursor: u64, limit: u32) -> (r: Vec<Task>)
        requires
            self.wf(),
        ensures
            r@.len() == self@.task_page(cursor, limit).len(),
            r@.map_values(|t: Task| t@) == self@.task_page(cursor, limit),
    {
        let count = self.tasks.len() as u64;
        let ghost tv = self@.tasks;
        let mut out: Vec<Task> = Vec::new();
        let mut current = cursor;
        let mut remaining = limit;
        while current < count && remaining > 0
            invariant
                count == self.tasks@.len(),
                count <= usize::MAX,
                tv == self@.tasks,
                tv.len() == count,
                cursor <= current,
                current - cursor + remaining == limit,
                cursor < count ==> current <= count,
                cursor >= count ==> current == cursor,
                out@.map_values(|t: Task| t@) =~= (if cursor < count {
                    tv.subrange(cursor as int, current as int)
                } else {
                    Seq::<TaskView>::empty()
                }),
            decreases count - current,
        {
            let t = self.tasks[current as usize].clone();
            assert(t@ == tv[current as int]);
            let ghost before = out@;
            out.push(t);
            proof {
                assert(out@.map_values(|t: Task| t@) =~= before.map_values(|t: Task| t@).push(
                    tv[current as int],
                ));
                assert(tv.subrange(cursor as int, current + 1) =~= tv.subrange(
                    cursor as int,
                    current as int,
                ).push(tv[current as int]));
            }
            current = current + 1;
            remaining = remaining - 1;
        }
        out
    }

    /// Hands the admin role to a different address. `current_admin` must
    /// have authorized the call.
    pub fn transfer_admin(&mut self, current_admin: &Address, new_admin: Address) -> (r: Result<
        (),
        RegistryError,
    >)
        requires
            old(self).wf(),
        ensures
            final(self).wf(),
            match old(self)@.transfer_admin(current_admin@, new_admin@) {
                Ok(m) => r is Ok && final(self)@ == m,
                Err(e) => r == Err::<(), RegistryError>(e) && final(self)@ == old(self)@,
            },
    {
        match &self.admin {
            Some(a) => {
                if !current_admin.same_as(a) {
                    return Err(RegistryError::Unauthorized);
                }
            },
            None => {
                return Err(RegistryError::NotInitialized);
            },
        }
        if new_admin.same_as(current_admin) {
            return Err(RegistryError::NewAdminSame);
        }
        let ghost before = self@;
        self.admin = Some(new_admin);
        proof {
            lemma_inv_frame(before, self@);
        }
        Ok(())
    }
}

} // verus!
