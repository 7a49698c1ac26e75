use crate::reducer::{Duplicate, Snapshot, Transition};
use vstd::prelude::*;

verus! {

/// The events of a small task-list application.
pub enum Event {
    UserRegistered { username: String },
    UserCreatedTask { username: String, task: String },
    UserCompletedTask { username: String, task: String },
    UserDeletedTask { username: String, task: String },
}

impl Duplicate for Event {
    fn duplicate(&self) -> (r: Self) {
        match self {
            Event::UserRegistered { username } => Event::UserRegistered {
                username: username.clone(),
            },
            Event::UserCreatedTask { username, task } => Event::UserCreatedTask {
                username: username.clone(),
                task: task.clone(),
            },
            Event::UserCompletedTask { username, task } => Event::UserCompletedTask {
                username: username.clone(),
                task: task.clone(),
            },
            Event::UserDeletedTask { username, task } => Event::UserDeletedTask {
                username: username.clone(),
                task: task.clone(),
            },
        }
    }
}

/// A copy of a vector of strings, element for element.
fn copy_strings(v: &Vec<String>) -> (r: Vec<String>)
    ensures
        r@ == v@,
{
    let mut r: Vec<String> = Vec::new();
    let mut i: usize = 0;
    while i < v.len()
        invariant
            i <= v.len(),
            r@ == v@.subrange(0, i as int),
        decreases v.len() - i,
    {
        r.push(v[i].clone());
        i = i + 1;
    }
    assert(r@ =~= v@);
    r
}

/// The set of registered users, in order of registration, each name once.
pub struct Users {
    names: Vec<String>,
}

impl View for Users {
    type V = Seq<Seq<char>>;

    closed spec fn view(&self) -> Seq<Seq<char>> {
        self.names@.map_values(|s: String| s@)
    }
}

/// The users after `name` registers: added at the end unless already there.
pub open spec fn register(users: Seq<Seq<char>>, name: Seq<char>) -> Seq<Seq<char>> {
    if users.contains(name) {
        users
    } else {
        users.push(name)
    }
}

impl Users {
    pub fn new() -> (r: Self)
        ensures
            r@ == Seq::<Seq<char>>::empty(),
    {
        let r = Users { names: Vec::new() };
        assert(r@ =~= Seq::<Seq<char>>::empty());
        r
    }

    pub fn contains(&self, name: &String) -> (r: bool)
        ensures
            r == self@.contains(name@),
    {
        let mut i: usize = 0;
        while i < self.names.len()
            invariant
                i <= self.names.len(),
                forall|j: int| 0 <= j < i ==> self@[j] != name@,
            decreases self.names.len() - i,
        {
            if self.names[i] == *name {
                assert(self@[i as int] == name@);
                return true;
            }
            i = i + 1;
        }
        false
    }

    pub fn len(&self) -> (r: usize)
        ensures
            r == self@.len(),
    {
        self.names.len()
    }

    /// The registered names, in order of registration.
    pub fn names(&self) -> (r: Vec<String>)
        ensures
            r@.map_values(|s: String| s@) == self@,
    {
        copy_strings(&self.names)
    }

    fn insert(&mut self, name: String)
        ensures
            final(self)@ == register(old(self)@, name@),
    {
        if !self.contains(&name) {
            self.names.push(name);
            assert(self@ =~= old(self)@.push(name@));
        }
    }
}

impl Snapshot for Users {
    fn snapshot(&self) -> (r: Self) {
        let r = Users { names: copy_strings(&self.names) };
        assert(r@ =~= self@);
        r
    }
}

/// The transition of the users projection: a registration adds the name;
/// every other event is ignored.
pub struct RegisterUsers;

impl Transition<Users, Event> for RegisterUsers {
    open spec fn next(&self, state: Seq<Seq<char>>, event: Event) -> Seq<Seq<char>> {
        match event {
            Event::UserRegistered { username } => register(state, username@),
            _ => state,
        }
    }

    fn apply(&self, state: &mut Users, event: Event) {
        match event {
            Event::UserRegistered { username } => state.insert(username),
            _ => {},
        }
    }
}

/// What a task is: its description and whether it is done.
pub ghost struct TaskModel {
    pub description: Seq<char>,
    pub completed: bool,
}

pub struct Task {
    pub description: String,
    pub completed: bool,
}

impl View for Task {
    type V = TaskModel;

    open spec fn view(&self) -> TaskModel {
        TaskModel { description: self.description@, completed: self.completed }
    }
}

impl Snapshot for Task {
    fn snapshot(&self) -> (r: Self) {
        Task { description: self.description.clone(), completed: self.completed }
    }
}

pub open spec fn tasks_view(tasks: Seq<Task>) -> Seq<TaskModel> {
    tasks.map_values(|t: Task| t@)
}

/// A copy of a list of tasks, element for element.
fn copy_tasks(v: &Vec<Task>) -> (r: Vec<Task>)
    ensures
        tasks_view(r@) == tasks_view(v@),
{
    let mut r: Vec<Task> = Vec::new();
    let mut i: usize = 0;
    while i < v.len()
        invariant
            i <= v.len(),
            tasks_view(r@) == tasks_view(v@.subrange(0, i as int)),
        decreases v.len() - i,
    {
        r.push(v[i].snapshot());
        proof {
            assert(tasks_view(v@.subrange(0, i + 1)) =~= tasks_view(v@.subrange(0, i as int)).push(
                v@[i as int]@,
            ));
        }
        i = i + 1;
    }
    assert(v@.subrange(0, v.len() as int) =~= v@);
    r
}

/// `k` is the first position in `tasks` of a task described by `description`.
pub open spec fn is_first_task(tasks: Seq<TaskModel>, description: Seq<char>, k: int) -> bool {
    &&& 0 <= k < tasks.len()
    &&& tasks[k].description == description
    &&& forall|j: int| 0 <= j < k ==> tasks[j].description != description
}

/// The first task described by `description` marked done; no change if
/// there is none.
pub open spec fn complete_first(tasks: Seq<TaskModel>, description: Seq<char>) -> Seq<TaskModel> {
    if exists|k: int| is_first_task(tasks, description, k) {
        let k = choose|k: int| is_first_task(tasks, description, k);
        tasks.update(k, TaskModel { description, completed: true })
    } else {
        tasks
    }
}

/// Every task described by `description` removed; the others kept in order.
pub open spec fn remove_all(tasks: Seq<TaskModel>, description: Seq<char>) -> Seq<TaskModel> {
    tasks.filter(|t: TaskModel| t.description != description)
}

/// The tasks of one user.
pub struct UserTasks {
    pub username: String,
    pub tasks: Vec<Task>,
}

impl View for UserTasks {
    type V = (Seq<char>, Seq<TaskModel>);

    open spec fn view(&self) -> (Seq<char>, Seq<TaskModel>) {
        (self.username@, tasks_view(self.tasks@))
    }
}

/// Each user's list of tasks, as pairs of a name and its tasks, in the order
/// in which each user first appeared.
pub struct Tasks {
    entries: Vec<UserTasks>,
}

impl View for Tasks {
    type V = Seq<(Seq<char>, Seq<TaskModel>)>;

    closed spec fn view(&self) -> Seq<(Seq<char>, Seq<TaskModel>)> {
        self.entries@.map_values(|e: UserTasks| e@)
    }
}

/// `k` is the first position in `entries` of the entry for `username`.
pub open spec fn is_first_entry(
    entries: Seq<(Seq<char>, Seq<TaskModel>)>,
    username: Seq<char>,
    k: int,
) -> bool {
    &&& 0 <= k < entries.len()
    &&& entries[k].0 == username
    &&& forall|j: int| 0 <= j < k ==> entries[j].0 != username
}

/// The tasks recorded for `username`, or none if there is no entry.
pub open spec fn lookup(entries: Seq<(Seq<char>, Seq<TaskModel>)>, username: Seq<char>) -> Option<
    Seq<TaskModel>,
> {
    if exists|k: int| is_first_entry(entries, username, k) {
        let k = choose|k: int| is_first_entry(entries, username, k);
        Some(entries[k].1)
    } else {
        None
    }
}

/// The tasks of `username`, an empty list where there is no entry.
pub open spec fn tasks_or_empty(
    entries: Seq<(Seq<char>, Seq<TaskModel>)>,
    username: Seq<char>,
) -> Seq<TaskModel> {
    match lookup(entries, username) {
        Some(t) => t,
        None => Seq::empty(),
    }
}

/// The entries with the tasks of `username` replaced by `tasks`; a new entry
/// goes at the end.
pub open spec fn set_tasks(
    entries: Seq<(Seq<char>, Seq<TaskModel>)>,
    username: Seq<char>,
    tasks: Seq<TaskModel>,
) -> Seq<(Seq<char>, Seq<TaskModel>)> {
    if exists|k: int| is_first_entry(entries, username, k) {
        let k = choose|k: int| is_first_entry(entries, username, k);
        entries.update(k, (username, tasks))
    } else {
        entries.push((username, tasks))
    }
}

impl Tasks {
    pub fn new() -> (r: Self)
        ensures
            r@ == Seq::<(Seq<char>, Seq<TaskModel>)>::empty(),
    {
        let r = Tasks { entries: Vec::new() };
        assert(r@ =~= Seq::<(Seq<char>, Seq<TaskModel>)>::empty());
        r
    }

    /// Number of users with an entry.
    pub fn len(&self) -> (r: usize)
        ensures
            r == self@.len(),
    {
        self.entries.len()
    }

    /// Position of the first entry for `username`, if any.
    fn find(&self, username: &String) -> (r: Option<usize>)
        ensures
            match r {
                Some(k) => is_first_entry(self@, username@, k as int),
                None => !exists|k: int| is_first_entry(self@, username@, k),
            },
    {
        let mut i: usize = 0;
        while i < self.entries.len()
            invariant
                i <= self.entries.len(),
                forall|j: int| 0 <= j < i ==> self@[j].0 != username@,
            decreases self.entries.len() - i,
        {
            if self.entries[i].username == *username {
                return Some(i);
            }
            i = i + 1;
        }
        assert forall|k: int| !is_first_entry(self@, username@, k) by {
            if 0 <= k < self@.len() {
                assert(self@[k].0 != username@);
            }
        }
        None
    }

    /// A copy of the tasks of `username`, if the user has an entry.
    pub fn tasks_of(&self, username: &String) -> (r: Option<Vec<Task>>)
        ensures
            match r {
                Some(t) => lookup(self@, username@) == Some(tasks_view(t@)),
                None => lookup(self@, username@).is_none(),
            },
    {
        match self.find(username) {
            Some(k) => {
                assert(is_first_entry(self@, username@, k as int));
                let t = copy_tasks(&self.entries[k].tasks);
                Some(t)
            },
            None => None,
        }
    }
}

/// There is at most one first entry for a name.
proof fn lemma_first_entry_unique(
    entries: Seq<(Seq<char>, Seq<TaskModel>)>,
    username: Seq<char>,
    a: int,
    b: int,
)
    requires
        is_first_entry(entries, username, a),
        is_first_entry(entries, username, b),
    ensures
        a == b,
{
    if a < b {
        assert(entries[a].0 != username);
    } else if b < a {
        assert(entries[b].0 != username);
    }
}

/// Where some entry has the name, a first one does.
proof fn lemma_first_entry_exists(
    entries: Seq<(Seq<char>, Seq<TaskModel>)>,
    username: Seq<char>,
    j: int,
)
    requires
        0 <= j < entries.len(),
        entries[j].0 == username,
    ensures
        exists|k: int| is_first_entry(entries, username, k),
    decreases j,
{
    if exists|i: int| 0 <= i < j && entries[i].0 == username {
        let i = choose|i: int| 0 <= i < j && entries[i].0 == username;
        lemma_first_entry_exists(entries, username, i);
    } else {
        assert(is_first_entry(entries, username, j));
    }
}

/// Where there is no first entry for a name, no entry has it.
proof fn lemma_no_entry(entries: Seq<(Seq<char>, Seq<TaskModel>)>, username: Seq<char>)
    requires
        !exists|k: int| is_first_entry(entries, username, k),
    ensures
        forall|j: int| 0 <= j < entries.len() ==> entries[j].0 != username,
{
    assert forall|j: int| 0 <= j < entries.len() implies entries[j].0 != username by {
        if entries[j].0 == username {
            lemma_first_entry_exists(entries, username, j);
        }
    }
}

/// There is at most one first task with a description.
proof fn lemma_first_task_unique(tasks: Seq<TaskModel>, description: Seq<char>, a: int, b: int)
    requires
        is_first_task(tasks, description, a),
        is_first_task(tasks, description, b),
    ensures
        a == b,
{
    if a < b {
        assert(tasks[a].description != description);
    } else if b < a {
        assert(tasks[b].description != description);
    }
}

/// Marks the first task described by `description` as done.
fn complete_in(tasks: &mut Vec<Task>, description: &String)
    ensures
        tasks_view(final(tasks)@) == complete_first(tasks_view(old(tasks)@), description@),
{
    let ghost v = tasks_view(tasks@);
    let mut i: usize = 0;
    while i < tasks.len()
        invariant
            i <= tasks.len(),
            v == tasks_view(tasks@),
            v == tasks_view(old(tasks)@),
            forall|j: int| 0 <= j < i ==> v[j].description != description@,
        decreases tasks.len() - i,
    {
        if tasks[i].description == *description {
            assert(is_first_task(v, description@, i as int));
            tasks[i].completed = true;
            proof {
                let k = choose|k: int| is_first_task(v, description@, k);
                lemma_first_task_unique(v, description@, k, i as int);
                assert(tasks_view(tasks@) =~= v.update(
                    i as int,
                    TaskModel { description: description@, completed: true },
                ));
            }
            return ;
        }
        i = i + 1;
    }
    assert forall|k: int| !is_first_task(v, description@, k) by {
        if 0 <= k < v.len() {
            assert(v[k].description != description@);
        }
    }
}

/// The tasks not described by `description`, in their order.
fn without(tasks: &Vec<Task>, description: &String) -> (r: Vec<Task>)
    ensures
        tasks_view(r@) == remove_all(tasks_view(tasks@), description@),
{
    let ghost v = tasks_view(tasks@);
    let mut r: Vec<Task> = Vec::new();
    let mut i: usize = 0;
    while i < tasks.len()
        invariant
            i <= tasks.len(),
            v == tasks_view(tasks@),
            tasks_view(r@) == remove_all(v.subrange(0, i as int), description@),
        decreases tasks.len() - i,
    {
        let keep = !(tasks[i].description == *description);
        proof {
            reveal(Seq::filter);
            assert(v[i as int] == tasks@[i as int]@);
            assert(v.subrange(0, i + 1).drop_last() =~= v.subrange(0, i as int));
            assert(v.subrange(0, i + 1).last() == v[i as int]);
            assert(remove_all(v.subrange(0, i + 1), description@) == if keep {
                remove_all(v.subrange(0, i as int), description@).push(v[i as int])
            } else {
                remove_all(v.subrange(0, i as int), description@)
            });
        }
        if keep {
            r.push(tasks[i].snapshot());
            assert(tasks_view(r@) =~= remove_all(v.subrange(0, i as int), description@).push(
                v[i as int],
            ));
        }
        i = i + 1;
    }
    assert(v.subrange(0, tasks.len() as int) =~= v);
    r
}

impl Tasks {
    /// Position of the entry for `username`, made empty at the end if there
    /// was none.
    fn entry(&mut self, username: String) -> (k: usize)
        ensures
            final(self)@ == set_tasks(old(self)@, username@, tasks_or_empty(old(self)@, username@)),
            is_first_entry(final(self)@, username@, k as int),
    {
        match self.find(&username) {
            Some(k) => {
                proof {
                    let c = choose|c: int| is_first_entry(old(self)@, username@, c);
                    lemma_first_entry_unique(old(self)@, username@, c, k as int);
                    assert(old(self)@ =~= old(self)@.update(
                        k as int,
                        (username@, old(self)@[k as int].1),
                    ));
                }
                k
            },
            None => {
                let k = self.entries.len();
                let ghost name = username@;
                let empty: Vec<Task> = Vec::new();
                assert(tasks_view(empty@) =~= Seq::<TaskModel>::empty());
                proof {
                    lemma_no_entry(old(self)@, name);
                }
                self.entries.push(UserTasks { username, tasks: empty });
                assert(self@ =~= old(self)@.push((name, Seq::<TaskModel>::empty())));
                k
            },
        }
    }

    /// Puts `tasks` in the place of the tasks of the `k`-th entry and returns
    /// those.
    fn swap_tasks(&mut self, k: usize, tasks: Vec<Task>) -> (r: Vec<Task>)
        requires
            k < old(self)@.len(),
        ensures
            final(self)@ == old(self)@.update(k as int, (old(self)@[k as int].0, tasks_view(tasks@))),
            tasks_view(r@) == old(self)@[k as int].1,
    {
        let mut t = tasks;
        std::mem::swap(&mut self.entries[k].tasks, &mut t);
        assert(self@ =~= old(self)@.update(k as int, (old(self)@[k as int].0, tasks_view(tasks@))));
        t
    }
}

/// The tasks of one user after `event`.
pub open spec fn tasks_after(tasks: Seq<TaskModel>, event: Event) -> Seq<TaskModel> {
    match event {
        Event::UserCreatedTask { task, .. } => tasks.push(
            TaskModel { description: task@, completed: false },
        ),
        Event::UserCompletedTask { task, .. } => complete_first(tasks, task@),
        Event::UserDeletedTask { task, .. } => remove_all(tasks, task@),
        Event::UserRegistered { .. } => tasks,
    }
}

/// The transition of the tasks projection. Creating, completing or deleting
/// a task gives the user an entry if there was none, without regard to
/// registration; a registration is ignored.
pub struct TrackTasks;

impl Transition<Tasks, Event> for TrackTasks {
    open spec fn next(
        &self,
        state: Seq<(Seq<char>, Seq<TaskModel>)>,
        event: Event,
    ) -> Seq<(Seq<char>, Seq<TaskModel>)> {
        match event {
            Event::UserRegistered { .. } => state,
            Event::UserCreatedTask { username, .. } => set_tasks(
                state,
                username@,
                tasks_after(tasks_or_empty(state, username@), event),
            ),
            Event::UserCompletedTask { username, .. } => set_tasks(
                state,
                username@,
                tasks_after(tasks_or_empty(state, username@), event),
            ),
            Event::UserDeletedTask { username, .. } => set_tasks(
                state,
                username@,
                tasks_after(tasks_or_empty(state, username@), event),
            ),
        }
    }

    fn apply(&self, state: &mut Tasks, event: Event) {
        let ghost s0 = state@;
        let ghost e = event;
        let (username, task, change) = match event {
            Event::UserRegistered { .. } => {
                return ;
            },
            Event::UserCreatedTask { username, task } => (username, task, 0u8),
            Event::UserCompletedTask { username, task } => (username, task, 1u8),
            Event::UserDeletedTask { username, task } => (username, task, 2u8),
        };
        let ghost u = username@;
        let k = state.entry(username);
        let mut tasks = state.swap_tasks(k, Vec::new());
        let ghost before = tasks_view(tasks@);
        assert(before == tasks_or_empty(s0, u)) by {
            if exists|c: int| is_first_entry(s0, u, c) {
                let c = choose|c: int| is_first_entry(s0, u, c);
                assert(is_first_entry(set_tasks(s0, u, tasks_or_empty(s0, u)), u, c));
                lemma_first_entry_unique(set_tasks(s0, u, tasks_or_empty(s0, u)), u, c, k as int);
            } else {
                lemma_no_entry(s0, u);
                assert(is_first_entry(set_tasks(s0, u, tasks_or_empty(s0, u)), u, s0.len() as int));
                lemma_first_entry_unique(set_tasks(s0, u, tasks_or_empty(s0, u)), u, s0.len() as int, k as int);
            }
        }
        let ghost d = task@;
        if change == 0 {
            tasks.push(Task { description: task, completed: false });
            assert(tasks_view(tasks@) =~= before.push(TaskModel { description: d, completed: false }));
        } else if change == 1 {
            complete_in(&mut tasks, &task);
        } else {
            tasks = without(&tasks, &task);
        }
        assert(tasks_view(tasks@) == tasks_after(before, e));
        state.swap_tasks(k, tasks);
        assert(state@ =~= self.next(s0, e)) by {
            if exists|c: int| is_first_entry(s0, u, c) {
                let c = choose|c: int| is_first_entry(s0, u, c);
                assert(is_first_entry(set_tasks(s0, u, tasks_or_empty(s0, u)), u, c));
                lemma_first_entry_unique(set_tasks(s0, u, tasks_or_empty(s0, u)), u, c, k as int);
            } else {
                lemma_no_entry(s0, u);
                assert(is_first_entry(set_tasks(s0, u, tasks_or_empty(s0, u)), u, s0.len() as int));
                lemma_first_entry_unique(set_tasks(s0, u, tasks_or_empty(s0, u)), u, s0.len() as int, k as int);
            }
        }
    }
}

impl Snapshot for Tasks {
    fn snapshot(&self) -> (r: Self) {
        let mut entries: Vec<UserTasks> = Vec::new();
        let mut i: usize = 0;
        while i < self.entries.len()
            invariant
                i <= self.entries.len(),
                entries@.map_values(|e: UserTasks| e@) == self@.subrange(0, i as int),
            decreases self.entries.len() - i,
        {
            let e = &self.entries[i];
            assert(self@[i as int] == self.entries@[i as int]@);
            let copy = UserTasks { username: e.username.clone(), tasks: copy_tasks(&e.tasks) };
            assert(copy@ == self@[i as int]);
            let ghost prev = entries@;
            entries.push(copy);
            assert(entries@.map_values(|e: UserTasks| e@) =~= prev.map_values(|e: UserTasks| e@).push(copy@));
            assert(self@.subrange(0, i + 1) =~= self@.subrange(0, i as int).push(self@[i as int]));
            i = i + 1;
        }
        let r = Tasks { entries };
        assert(r@ =~= self@);
        r
    }
}

} // verus!
