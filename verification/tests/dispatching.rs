use file_watcher::actions::CommandAction;
use file_watcher::config::CommandConfig;
use file_watcher::dispatch::{
    classify, coalesce, dispatch, plan, Delivery, DispatcherState, EventKind, Job, Reaction, WatchEvent,
};

fn event(kind: EventKind, paths: &[&str]) -> WatchEvent {
    WatchEvent { kind, info: None, paths: paths.iter().map(|p| (*p).to_owned()).collect() }
}

fn stop() -> WatchEvent {
    WatchEvent { kind: EventKind::Other, info: Some("exit".to_owned()), paths: vec![] }
}

fn action(regex: &str, exclude: Option<Vec<&str>>) -> CommandAction {
    let config = CommandConfig {
        regex: regex.to_owned(),
        exclude: exclude.map(|v| v.into_iter().map(str::to_owned).collect()),
        cmd: Some("true".to_owned()),
        chain: None,
    };
    match CommandAction::new(config) {
        Ok(a) => a,
        Err(_) => panic!("the action is expected to compile"),
    }
}

fn pairs(jobs: &[Job]) -> Vec<(String, usize)> {
    jobs.iter().map(|j| (j.path.clone(), j.action)).collect()
}

fn pair(path: &str, action: usize) -> (String, usize) {
    (path.to_owned(), action)
}

#[test]
fn changes_are_modified_data_any_modification_and_created_files() {
    assert_eq!(classify(&event(EventKind::DataModified, &["a"])), Reaction::Changed);
    assert_eq!(classify(&event(EventKind::Modified, &["a"])), Reaction::Changed);
    assert_eq!(classify(&event(EventKind::FileCreated, &["a"])), Reaction::Changed);
    assert_eq!(classify(&event(EventKind::Unrelated, &["a"])), Reaction::Ignore);
    assert_eq!(classify(&event(EventKind::Other, &["a"])), Reaction::Ignore);
}

#[test]
fn stop_signal_is_other_with_the_stop_word() {
    assert_eq!(classify(&stop()), Reaction::Stop);
    let mut other = stop();
    other.info = Some("exit ".to_owned());
    assert_eq!(classify(&other), Reaction::Ignore);
    other.info = Some("EXIT".to_owned());
    assert_eq!(classify(&other), Reaction::Ignore);
    other.info = Some(String::new());
    assert_eq!(classify(&other), Reaction::Ignore);
    // The stop word on another kind of notification is no stop signal.
    let mut changed = event(EventKind::DataModified, &["a"]);
    changed.info = Some("exit".to_owned());
    assert_eq!(classify(&changed), Reaction::Changed);
    let mut unrelated = event(EventKind::Unrelated, &[]);
    unrelated.info = Some("exit".to_owned());
    assert_eq!(classify(&unrelated), Reaction::Ignore);
}

#[test]
fn burst_for_one_path_gives_one_entry() {
    for burst in 1..6usize {
        let events: Vec<WatchEvent> = (0..burst).map(|_| event(EventKind::DataModified, &["dir/a"])).collect();
        let batch = coalesce(&events);
        assert_eq!(batch.paths, vec!["dir/a"]);
        assert!(!batch.stop);
    }
}

#[test]
fn burst_of_mixed_change_kinds_gives_one_entry() {
    let events = vec![
        event(EventKind::FileCreated, &["dir/a"]),
        event(EventKind::DataModified, &["dir/a"]),
        event(EventKind::Modified, &["dir/a"]),
    ];
    assert_eq!(coalesce(&events).paths, vec!["dir/a"]);
}

#[test]
fn different_paths_are_batched_but_not_merged() {
    let events = vec![
        event(EventKind::DataModified, &["b"]),
        event(EventKind::DataModified, &["a"]),
        event(EventKind::DataModified, &["b"]),
        event(EventKind::FileCreated, &["c", "a", "d"]),
    ];
    let batch = coalesce(&events);
    assert_eq!(batch.paths, vec!["b", "a", "c", "d"]);
    assert!(!batch.stop);
}

#[test]
fn ignored_notifications_add_no_path() {
    let events = vec![
        event(EventKind::Unrelated, &["x"]),
        event(EventKind::Other, &["y"]),
        event(EventKind::DataModified, &["a"]),
        event(EventKind::Unrelated, &["a", "z"]),
    ];
    assert_eq!(coalesce(&events).paths, vec!["a"]);
}

#[test]
fn empty_cycle_gives_an_empty_batch() {
    let batch = coalesce(&Vec::new());
    assert!(batch.paths.is_empty());
    assert!(!batch.stop);
}

#[test]
fn nothing_after_the_stop_signal_is_taken() {
    let events = vec![
        event(EventKind::DataModified, &["a"]),
        stop(),
        event(EventKind::DataModified, &["b"]),
        stop(),
    ];
    let batch = coalesce(&events);
    assert_eq!(batch.paths, vec!["a"]);
    assert!(batch.stop);
}

#[test]
fn every_action_is_tried_for_every_path() {
    let actions = vec![action("a$", None), action("b$", None), action("[ab]$", None)];
    let paths = vec!["dir/b".to_owned(), "dir/a".to_owned(), "dir/c".to_owned()];
    assert_eq!(
        pairs(&plan(&actions, &paths)),
        vec![pair("dir/b", 1), pair("dir/b", 2), pair("dir/a", 0), pair("dir/a", 2)]
    );
}

#[test]
fn excluded_path_gives_no_job_for_that_action_only() {
    let actions = vec![action(r"\.rs$", Some(vec!["^gen/"])), action(r"\.rs$", None)];
    let paths = vec!["gen/x.rs".to_owned(), "src/x.rs".to_owned()];
    assert_eq!(
        pairs(&plan(&actions, &paths)),
        vec![pair("gen/x.rs", 1), pair("src/x.rs", 0), pair("src/x.rs", 1)]
    );
}

#[test]
fn plan_without_actions_or_paths_is_empty() {
    let none: Vec<CommandAction> = vec![];
    assert!(plan(&none, &vec!["a".to_owned()]).is_empty());
    assert!(plan(&vec![action("a", None)], &vec![]).is_empty());
}

#[test]
fn running_dispatcher_turns_a_batch_into_jobs() {
    let actions = vec![action("a$", None), action("b$", None)];
    let delivery = Delivery::Batch(vec![
        event(EventKind::DataModified, &["x/a"]),
        event(EventKind::DataModified, &["x/a"]),
        event(EventKind::FileCreated, &["x/b"]),
        event(EventKind::Unrelated, &["x/b"]),
    ]);
    let turn = dispatch(DispatcherState::Running, &actions, &delivery);
    assert_eq!(turn.state, DispatcherState::Running);
    assert_eq!(pairs(&turn.jobs), vec![pair("x/a", 0), pair("x/b", 1)]);
}

#[test]
fn stop_signal_stops_after_the_paths_before_it() {
    let actions = vec![action("a$", None)];
    let delivery = Delivery::Batch(vec![
        event(EventKind::DataModified, &["1/a"]),
        stop(),
        event(EventKind::DataModified, &["2/a"]),
    ]);
    let turn = dispatch(DispatcherState::Running, &actions, &delivery);
    assert_eq!(turn.state, DispatcherState::Stopped);
    assert_eq!(pairs(&turn.jobs), vec![pair("1/a", 0)]);
}

#[test]
fn watch_error_leaves_the_dispatcher_running() {
    let actions = vec![action("a$", None)];
    let turn = dispatch(DispatcherState::Running, &actions, &Delivery::WatchError);
    assert_eq!(turn.state, DispatcherState::Running);
    assert!(turn.jobs.is_empty());
}

#[test]
fn lost_event_source_stops_the_dispatcher() {
    let actions = vec![action("a$", None)];
    let turn = dispatch(DispatcherState::Running, &actions, &Delivery::Disconnected);
    assert_eq!(turn.state, DispatcherState::Stopped);
    assert!(turn.jobs.is_empty());
}

#[test]
fn stopped_dispatcher_does_nothing() {
    let actions = vec![action("a$", None)];
    let deliveries = vec![
        Delivery::Batch(vec![event(EventKind::DataModified, &["a"])]),
        Delivery::WatchError,
        Delivery::Disconnected,
    ];
    for delivery in &deliveries {
        let turn = dispatch(DispatcherState::Stopped, &actions, delivery);
        assert_eq!(turn.state, DispatcherState::Stopped);
        assert!(turn.jobs.is_empty());
    }
}
