use eventzilla::channel::Subscription;
use eventzilla::reducer::Reducer;
use eventzilla::store::{Store, TestingStore};
use eventzilla::todo::{Event, RegisterUsers, Task, Tasks, TrackTasks, Users};

fn s(text: &str) -> String {
    text.to_string()
}

fn registered(name: &str) -> Event {
    Event::UserRegistered { username: s(name) }
}

fn created(name: &str, task: &str) -> Event {
    Event::UserCreatedTask { username: s(name), task: s(task) }
}

fn completed(name: &str, task: &str) -> Event {
    Event::UserCompletedTask { username: s(name), task: s(task) }
}

fn deleted(name: &str, task: &str) -> Event {
    Event::UserDeletedTask { username: s(name), task: s(task) }
}

fn task_list(tasks: &Reducer<Tasks, Event, TrackTasks>, name: &str) -> Option<Vec<Task>> {
    tasks.read().tasks_of(&s(name))
}

fn summary(list: &[Task]) -> Vec<(String, bool)> {
    list.iter().map(|t| (t.description.clone(), t.completed)).collect()
}

struct App {
    store: TestingStore<Event>,
    users: Reducer<Users, Event, RegisterUsers>,
    tasks: Reducer<Tasks, Event, TrackTasks>,
}

impl App {
    fn new() -> App {
        let mut store = TestingStore::new();
        let users = Reducer::new(RegisterUsers, Users::new());
        store.add(users.subscription());
        let tasks = Reducer::new(TrackTasks, Tasks::new());
        store.add(tasks.subscription());
        App { store, users, tasks }
    }

    fn drain(&mut self) {
        self.store.drain_into(0, &mut self.users);
        self.store.drain_into(1, &mut self.tasks);
    }
}

#[test]
fn task_list_scenario() {
    let mut app = App::new();
    app.store.emit(registered("alice"));
    app.drain();
    assert_eq!(app.users.read().names(), vec![s("alice")]);

    app.store.emit(created("alice", "buy milk"));
    app.drain();
    let list = app.tasks.read();
    assert_eq!(list.len(), 1);
    assert_eq!(summary(&list.tasks_of(&s("alice")).unwrap()), vec![(s("buy milk"), false)]);

    app.store.emit(completed("alice", "buy milk"));
    app.drain();
    assert!(task_list(&app.tasks, "alice").unwrap()[0].completed);

    app.store.emit(deleted("alice", "buy milk"));
    app.drain();
    assert!(task_list(&app.tasks, "alice").unwrap().is_empty());
    assert_eq!(app.tasks.read().len(), 1);
}

#[test]
fn tasks_recorded_without_registration() {
    let mut app = App::new();
    app.store.emit(created("bob", "x"));
    app.drain();
    assert_eq!(summary(&task_list(&app.tasks, "bob").unwrap()), vec![(s("x"), false)]);
    assert_eq!(app.users.read().len(), 0);
    assert!(!app.users.read().contains(&s("bob")));
}

#[test]
fn events_applied_in_emission_order() {
    let mut app = App::new();
    app.store.emit(created("alice", "a"));
    app.store.emit(created("alice", "b"));
    app.store.emit(completed("alice", "a"));
    app.store.emit(created("alice", "c"));
    app.store.emit(deleted("alice", "b"));
    app.drain();
    assert_eq!(
        summary(&task_list(&app.tasks, "alice").unwrap()),
        vec![(s("a"), true), (s("c"), false)]
    );
}

#[test]
fn completion_before_creation_has_no_effect() {
    let mut app = App::new();
    app.store.emit(completed("alice", "a"));
    app.store.emit(created("alice", "a"));
    app.drain();
    assert_eq!(summary(&task_list(&app.tasks, "alice").unwrap()), vec![(s("a"), false)]);
}

#[test]
fn late_subscriber_gets_no_replay() {
    let mut store = TestingStore::new();
    store.emit(registered("alice"));
    let mut users = Reducer::new(RegisterUsers, Users::new());
    store.add(users.subscription());
    store.emit(registered("bob"));
    store.drain_into(0, &mut users);
    assert_eq!(users.read().names(), vec![s("bob")]);
    assert_eq!(store.history().len(), 2);
}

#[test]
fn history_only_grows() {
    let mut store = TestingStore::new();
    assert_eq!(store.history().len(), 0);
    store.emit(registered("alice"));
    let first = store.history();
    store.emit(created("alice", "t"));
    store.add(Subscription::new());
    let second = store.history();
    assert_eq!(first.len(), 1);
    assert_eq!(second.len(), 2);
    assert!(matches!(&second[0], Event::UserRegistered { username } if username == "alice"));
    assert!(
        matches!(&second[1], Event::UserCreatedTask { username, task } if username == "alice" && task == "t")
    );
    assert!(store.receive(0).is_none());
}

#[test]
fn consecutive_reads_are_equal() {
    let mut app = App::new();
    app.store.emit(registered("alice"));
    app.store.emit(registered("carol"));
    app.store.emit(created("carol", "t"));
    app.drain();
    assert_eq!(app.users.read().names(), app.users.read().names());
    assert_eq!(app.users.read().names(), vec![s("alice"), s("carol")]);
    let a = task_list(&app.tasks, "carol").unwrap();
    let b = task_list(&app.tasks, "carol").unwrap();
    assert_eq!(summary(&a), summary(&b));
}

#[test]
fn read_reflects_event_once_after_drain() {
    let mut app = App::new();
    app.store.emit(created("alice", "t"));
    assert!(task_list(&app.tasks, "alice").is_none());
    app.drain();
    assert_eq!(task_list(&app.tasks, "alice").unwrap().len(), 1);
    app.drain();
    assert_eq!(task_list(&app.tasks, "alice").unwrap().len(), 1);
}

#[test]
fn snapshot_is_independent_of_later_events() {
    let mut app = App::new();
    app.store.emit(registered("alice"));
    app.drain();
    let before = app.users.read();
    app.store.emit(registered("bob"));
    app.drain();
    assert_eq!(before.names(), vec![s("alice")]);
    assert_eq!(app.users.read().names(), vec![s("alice"), s("bob")]);
}

#[test]
fn duplicate_registration_kept_once() {
    let mut app = App::new();
    app.store.emit(registered("alice"));
    app.store.emit(registered("alice"));
    app.drain();
    assert_eq!(app.users.read().len(), 1);
    assert!(app.users.read().contains(&s("alice")));
}

#[test]
fn complete_marks_first_match_only() {
    let mut app = App::new();
    app.store.emit(created("alice", "t"));
    app.store.emit(created("alice", "t"));
    app.store.emit(completed("alice", "t"));
    app.drain();
    assert_eq!(
        summary(&task_list(&app.tasks, "alice").unwrap()),
        vec![(s("t"), true), (s("t"), false)]
    );
}

#[test]
fn delete_removes_every_match() {
    let mut app = App::new();
    app.store.emit(created("alice", "t"));
    app.store.emit(created("alice", "u"));
    app.store.emit(created("alice", "t"));
    app.store.emit(deleted("alice", "t"));
    app.drain();
    assert_eq!(summary(&task_list(&app.tasks, "alice").unwrap()), vec![(s("u"), false)]);
}

#[test]
fn unknown_user_touch_creates_empty_entry() {
    let mut app = App::new();
    app.store.emit(deleted("dave", "nothing"));
    app.store.emit(completed("erin", "nothing"));
    app.drain();
    assert!(task_list(&app.tasks, "dave").unwrap().is_empty());
    assert!(task_list(&app.tasks, "erin").unwrap().is_empty());
    assert!(task_list(&app.tasks, "frank").is_none());
    assert_eq!(app.tasks.read().len(), 2);
}

#[test]
fn users_of_different_names_kept_apart() {
    let mut app = App::new();
    app.store.emit(created("alice", "a"));
    app.store.emit(created("bob", "b"));
    app.drain();
    assert_eq!(summary(&task_list(&app.tasks, "alice").unwrap()), vec![(s("a"), false)]);
    assert_eq!(summary(&task_list(&app.tasks, "bob").unwrap()), vec![(s("b"), false)]);
}

#[test]
fn closed_subscriber_is_skipped() {
    let mut store = TestingStore::new();
    let mut closed = Subscription::new();
    closed.close();
    store.add(closed);
    store.add(Subscription::new());
    store.emit(registered("alice"));
    assert_eq!(store.subscriber_count(), 2);
    assert!(store.receive(0).is_none());
    assert!(matches!(store.receive(1), Some(Event::UserRegistered { .. })));
    assert!(store.receive(1).is_none());
    assert_eq!(store.history().len(), 1);
}

#[test]
fn channel_is_fifo_and_drops_after_close() {
    let mut c: Subscription<u32> = Subscription::new();
    assert!(c.is_empty());
    assert!(c.send(1));
    assert!(c.send(2));
    assert_eq!(c.len(), 2);
    assert_eq!(c.recv(), Some(1));
    c.close();
    assert!(c.is_closed());
    assert!(!c.send(3));
    assert_eq!(c.recv(), Some(2));
    assert_eq!(c.recv(), None);
}

#[test]
fn reducer_drains_its_own_channel() {
    let users = Reducer::new(RegisterUsers, Users::new());
    let mut sub = users.subscription();
    let mut users = users;
    sub.send(registered("zoe"));
    sub.send(created("zoe", "t"));
    sub.send(registered("amy"));
    users.drain(&mut sub);
    assert!(sub.is_empty());
    assert_eq!(users.read().names(), vec![s("zoe"), s("amy")]);
    users.apply(registered("max"));
    assert_eq!(users.read().len(), 3);
}
