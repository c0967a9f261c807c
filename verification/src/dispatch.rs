//! The dispatcher: what one delivery from the event source makes it do.
//!
//! The events of one debounce cycle are coalesced into a batch that names
//! each changed path once; for every path of the batch, every action is
//! tried in its declared order, and each one that the path triggers becomes
//! a job. The chains of the jobs are run by the caller, one after the other.

use crate::actions::{Action, CommandAction};
use vstd::prelude::*;

verus! {

/// The debounce window in milliseconds: notifications for one path that
/// arrive within it belong to one cycle.
pub const DEBOUNCE_WINDOW_MS: u64 = 200;

/// The kinds of notification that the dispatcher tells apart.
#[derive(Clone, Copy, Debug, PartialEq, Eq, Structural)]
pub enum EventKind {
    /// The data of a file was modified.
    DataModified,
    /// A file was modified in a way that the platform does not detail.
    Modified,
    /// A file was created.
    FileCreated,
    /// A notification that is tied to no path; it may carry the stop signal.
    Other,
    /// Any other kind.
    Unrelated,
}

/// One notification of the event source.
#[derive(Debug)]
pub struct WatchEvent {
    pub kind: EventKind,
    /// Additional information; `exit` on a notification of kind `Other` is
    /// the stop signal.
    pub info: Option<String>,
    /// The paths that the notification is about.
    pub paths: Vec<String>,
}

/// The mathematical value of a `WatchEvent`.
pub struct WatchEventView {
    pub kind: EventKind,
    pub info: Option<Seq<char>>,
    pub paths: Seq<Seq<char>>,
}

impl View for WatchEvent {
    type V = WatchEventView;

    open spec fn view(&self) -> WatchEventView {
        WatchEventView {
            kind: self.kind,
            info: self.info.deep_view(),
            paths: self.paths.deep_view(),
        }
    }
}

/// The values of a list of events.
pub open spec fn event_views(events: Seq<WatchEvent>) -> Seq<WatchEventView> {
    events.map_values(|e: WatchEvent| e@)
}

/// What a notification means to the dispatcher.
#[derive(Clone, Copy, Debug, PartialEq, Eq, Structural)]
pub enum Reaction {
    /// Its paths have changed.
    Changed,
    /// The dispatcher is to stop.
    Stop,
    /// Nothing.
    Ignore,
}

/// The text that makes a notification of kind `Other` the stop signal.
pub open spec fn stop_word() -> Seq<char> {
    "exit"@
}

/// What a notification means: modified data, a modification without detail
/// and a created file all count as a change; a notification of kind `Other`
/// that carries the stop word is the stop signal; the rest means nothing.
pub open spec fn reaction_to(event: WatchEventView) -> Reaction {
    match event.kind {
        EventKind::DataModified | EventKind::Modified | EventKind::FileCreated => Reaction::Changed,
        EventKind::Other => if event.info == Some(stop_word()) {
            Reaction::Stop
        } else {
            Reaction::Ignore
        },
        EventKind::Unrelated => Reaction::Ignore,
    }
}

/// Whether the stop signal is among the events.
pub open spec fn stop_seen(events: Seq<WatchEventView>) -> bool
    decreases events.len(),
{
    if events.len() == 0 {
        false
    } else {
        stop_seen(events.drop_last()) || reaction_to(events.last()) is Stop
    }
}

/// The paths of the change notifications that come before the stop signal,
/// in the order of their arrival, repetitions included.
pub open spec fn raw_paths(events: Seq<WatchEventView>) -> Seq<Seq<char>>
    decreases events.len(),
{
    if events.len() == 0 {
        Seq::empty()
    } else {
        let before = events.drop_last();
        if !stop_seen(before) && reaction_to(events.last()) is Changed {
            raw_paths(before) + events.last().paths
        } else {
            raw_paths(before)
        }
    }
}

/// The paths with every repetition of an earlier path left out.
pub open spec fn coalesced(paths: Seq<Seq<char>>) -> Seq<Seq<char>>
    decreases paths.len(),
{
    if paths.len() == 0 {
        Seq::empty()
    } else {
        let before = coalesced(paths.drop_last());
        if before.contains(paths.last()) {
            before
        } else {
            before.push(paths.last())
        }
    }
}

/// The changed paths of one debounce cycle.
#[derive(Debug)]
pub struct EventBatch {
    /// Each changed path once, in the order of its first notification.
    pub paths: Vec<String>,
    /// Whether the cycle held the stop signal.
    pub stop: bool,
}

/// One chain to run: the action at position `action`, for `path`.
#[derive(Debug)]
pub struct Job {
    pub path: String,
    pub action: usize,
}

/// The mathematical value of a `Job`.
pub struct JobView {
    pub path: Seq<char>,
    pub action: int,
}

impl View for Job {
    type V = JobView;

    open spec fn view(&self) -> JobView {
        JobView { path: self.path@, action: self.action as int }
    }
}

/// The values of a list of jobs.
pub open spec fn job_views(jobs: Seq<Job>) -> Seq<JobView> {
    jobs.map_values(|j: Job| j@)
}

/// The jobs that one changed path gives: one for each action that the path
/// triggers, in the declared order of the actions.
pub open spec fn jobs_for_path<A: Action>(actions: Seq<A>, path: Seq<char>) -> Seq<JobView>
    decreases actions.len(),
{
    if actions.len() == 0 {
        Seq::empty()
    } else {
        let before = jobs_for_path(actions.drop_last(), path);
        if actions.last().triggers_on(path) {
            before.push(JobView { path, action: actions.len() - 1 })
        } else {
            before
        }
    }
}

/// The jobs that a batch gives: those of its first path, then those of its
/// second, and so on.
pub open spec fn jobs_for<A: Action>(actions: Seq<A>, paths: Seq<Seq<char>>) -> Seq<JobView>
    decreases paths.len(),
{
    if paths.len() == 0 {
        Seq::empty()
    } else {
        jobs_for(actions, paths.drop_last()) + jobs_for_path(actions, paths.last())
    }
}

/// The two states of the dispatcher.
#[derive(Clone, Copy, Debug, PartialEq, Eq, Structural)]
pub enum DispatcherState {
    Running,
    Stopped,
}

/// What the event source hands to the dispatcher.
#[derive(Debug)]
pub enum Delivery {
    /// The notifications of one debounce cycle.
    Batch(Vec<WatchEvent>),
    /// The event source reports an error of the watch itself.
    WatchError,
    /// The event source is gone.
    Disconnected,
}

/// The mathematical value of a `Delivery`.
pub enum DeliveryView {
    Batch(Seq<WatchEventView>),
    WatchError,
    Disconnected,
}

impl View for Delivery {
    type V = DeliveryView;

    open spec fn view(&self) -> DeliveryView {
        match self {
            Delivery::Batch(events) => DeliveryView::Batch(event_views(events@)),
            Delivery::WatchError => DeliveryView::WatchError,
            Delivery::Disconnected => DeliveryView::Disconnected,
        }
    }
}

/// What the dispatcher does with one delivery: its next state, and the jobs
/// to run before the next delivery is taken.
#[derive(Debug)]
pub struct Turn {
    pub state: DispatcherState,
    pub jobs: Vec<Job>,
}

/// The state after a delivery. A stopped dispatcher stays stopped. A running
/// one stops on a batch that holds the stop signal and when the event source
/// is gone; an error of the watch leaves it running.
pub open spec fn state_after(state: DispatcherState, delivery: DeliveryView) -> DispatcherState {
    match (state, delivery) {
        (DispatcherState::Stopped, _) => DispatcherState::Stopped,
        (DispatcherState::Running, DeliveryView::Batch(events)) => if stop_seen(events) {
            DispatcherState::Stopped
        } else {
            DispatcherState::Running
        },
        (DispatcherState::Running, DeliveryView::WatchError) => DispatcherState::Running,
        (DispatcherState::Running, DeliveryView::Disconnected) => DispatcherState::Stopped,
    }
}

/// The jobs that a delivery gives: those of the coalesced batch for a
/// running dispatcher, none otherwise.
pub open spec fn jobs_after<A: Action>(
    state: DispatcherState,
    actions: Seq<A>,
    delivery: DeliveryView,
) -> Seq<JobView> {
    match (state, delivery) {
        (DispatcherState::Running, DeliveryView::Batch(events)) => jobs_for(
            actions,
            coalesced(raw_paths(events)),
        ),
        _ => Seq::empty(),
    }
}

/// Once the stop signal is seen, later notifications add no path.
pub proof fn lemma_nothing_after_stop(events: Seq<WatchEventView>, upto: int)
    requires
        0 <= upto <= events.len(),
        stop_seen(events.take(upto)),
    ensures
        stop_seen(events),
        raw_paths(events) == raw_paths(events.take(upto)),
    decreases events.len() - upto,
{
    if upto == events.len() {
        assert(events.take(upto) == events);
    } else {
        assert(events.take(upto + 1).drop_last() == events.take(upto));
        lemma_nothing_after_stop(events, upto + 1);
    }
}

/// Coalescing keeps every path, and keeps it once.
pub proof fn lemma_coalesced_once_each(paths: Seq<Seq<char>>)
    ensures
        coalesced(paths).no_duplicates(),
        forall|p: Seq<char>| coalesced(paths).contains(p) <==> paths.contains(p),
    decreases paths.len(),
{
    if paths.len() > 0 {
        let front = paths.drop_last();
        let last = paths.last();
        let before = coalesced(front);
        lemma_coalesced_once_each(front);
        assert forall|p: Seq<char>| coalesced(paths).contains(p) <==> paths.contains(p) by {
            if paths.contains(p) {
                let i = choose|i: int| 0 <= i < paths.len() && paths[i] == p;
                if i < front.len() {
                    assert(front[i] == p);
                    assert(front.contains(p));
                    assert(before.contains(p));
                    let j = choose|j: int| 0 <= j < before.len() && before[j] == p;
                    assert(coalesced(paths)[j] == p);
                } else {
                    if !before.contains(last) {
                        assert(coalesced(paths)[before.len() as int] == p);
                    }
                }
            }
            if coalesced(paths).contains(p) {
                let j = choose|j: int| 0 <= j < coalesced(paths).len() && coalesced(paths)[j] == p;
                if j < before.len() {
                    assert(before[j] == p);
                    assert(before.contains(p));
                    assert(front.contains(p));
                    let i = choose|i: int| 0 <= i < front.len() && front[i] == p;
                    assert(paths[i] == p);
                } else {
                    assert(p == last);
                    assert(paths[paths.len() - 1] == p);
                }
            }
        }
    }
}

/// Debounce coalescing. However many change notifications one debounce
/// cycle holds for one path, the batch names that path exactly once.
pub proof fn lemma_burst_gives_one_entry(events: Seq<WatchEventView>, path: Seq<char>)
    requires
        events.len() >= 1,
        forall|i: int|
            0 <= i < events.len() ==> reaction_to(#[trigger] events[i]) is Changed && events[i].paths
                == seq![path],
    ensures
        coalesced(raw_paths(events)) == seq![path],
    decreases events.len(),
{
    lemma_burst_repeats_path(events, path);
    lemma_repeated_path_coalesces(raw_paths(events), path);
}

/// A burst of change notifications for one path gives that path once for
/// each notification.
proof fn lemma_burst_repeats_path(events: Seq<WatchEventView>, path: Seq<char>)
    requires
        forall|i: int|
            0 <= i < events.len() ==> reaction_to(#[trigger] events[i]) is Changed && events[i].paths
                == seq![path],
    ensures
        !stop_seen(events),
        raw_paths(events).len() == events.len(),
        forall|i: int| 0 <= i < events.len() ==> raw_paths(events)[i] == path,
    decreases events.len(),
{
    if events.len() > 0 {
        let front = events.drop_last();
        assert forall|i: int| 0 <= i < front.len() implies reaction_to(#[trigger] front[i])
            is Changed && front[i].paths == seq![path] by {
            assert(front[i] == events[i]);
        }
        lemma_burst_repeats_path(front, path);
        assert(events.last() == events[events.len() - 1]);
    }
}

/// A list that repeats one path coalesces to that path alone.
proof fn lemma_repeated_path_coalesces(paths: Seq<Seq<char>>, path: Seq<char>)
    requires
        paths.len() >= 1,
        forall|i: int| 0 <= i < paths.len() ==> paths[i] == path,
    ensures
        coalesced(paths) == seq![path],
    decreases paths.len(),
{
    let front = paths.drop_last();
    if front.len() == 0 {
        assert(coalesced(front) == Seq::<Seq<char>>::empty());
        assert(!coalesced(front).contains(paths.last()));
        assert(coalesced(paths) =~= seq![path]);
    } else {
        lemma_repeated_path_coalesces(front, path);
        assert(coalesced(front)[0] == path);
        assert(coalesced(front).contains(paths.last()));
    }
}

/// A path gives a job for an action exactly when it triggers the action:
/// a path that an exclude pattern matches gives none, and a path that only
/// other actions pick up gives none for this one.
pub proof fn lemma_path_jobs<A: Action>(actions: Seq<A>, path: Seq<char>)
    ensures
        forall|job: JobView|
            jobs_for_path(actions, path).contains(job) <==> {
                &&& job.path == path
                &&& 0 <= job.action < actions.len()
                &&& actions[job.action].triggers_on(path)
            },
    decreases actions.len(),
{
    if actions.len() > 0 {
        let front = actions.drop_last();
        let before = jobs_for_path(front, path);
        let all = jobs_for_path(actions, path);
        let newest = JobView { path, action: actions.len() - 1 };
        lemma_path_jobs(front, path);
        assert forall|job: JobView| all.contains(job) <==> {
            &&& job.path == path
            &&& 0 <= job.action < actions.len()
            &&& actions[job.action].triggers_on(path)
        } by {
            if all.contains(job) {
                let j = choose|j: int| 0 <= j < all.len() && all[j] == job;
                if j < before.len() {
                    assert(before[j] == job);
                    assert(before.contains(job));
                    assert(front[job.action] == actions[job.action]);
                }
            }
            if job.path == path && 0 <= job.action < actions.len() && actions[job.action].triggers_on(
                path,
            ) {
                if job.action < front.len() {
                    assert(front[job.action] == actions[job.action]);
                    assert(before.contains(job));
                    let j = choose|j: int| 0 <= j < before.len() && before[j] == job;
                    assert(all[j] == job);
                } else {
                    assert(job == newest);
                    assert(all[all.len() - 1] == job);
                }
            }
        }
    }
}

/// A batch gives a job for a path and an action exactly when the path is in
/// the batch and triggers the action.
pub proof fn lemma_batch_jobs<A: Action>(actions: Seq<A>, paths: Seq<Seq<char>>)
    ensures
        forall|job: JobView|
            jobs_for(actions, paths).contains(job) <==> {
                &&& paths.contains(job.path)
                &&& 0 <= job.action < actions.len()
                &&& actions[job.action].triggers_on(job.path)
            },
    decreases paths.len(),
{
    if paths.len() > 0 {
        let front = paths.drop_last();
        let before = jobs_for(actions, front);
        let here = jobs_for_path(actions, paths.last());
        let all = jobs_for(actions, paths);
        lemma_batch_jobs(actions, front);
        lemma_path_jobs(actions, paths.last());
        assert forall|job: JobView| all.contains(job) <==> {
            &&& paths.contains(job.path)
            &&& 0 <= job.action < actions.len()
            &&& actions[job.action].triggers_on(job.path)
        } by {
            if all.contains(job) {
                let j = choose|j: int| 0 <= j < all.len() && all[j] == job;
                if j < before.len() {
                    assert(before[j] == job);
                    assert(before.contains(job));
                    assert(front.contains(job.path));
                    let i = choose|i: int| 0 <= i < front.len() && front[i] == job.path;
                    assert(paths[i] == job.path);
                } else {
                    assert(here[j - before.len()] == job);
                    assert(here.contains(job));
                    assert(paths[paths.len() - 1] == job.path);
                }
            }
            if paths.contains(job.path) && 0 <= job.action < actions.len()
                && actions[job.action].triggers_on(job.path) {
                let i = choose|i: int| 0 <= i < paths.len() && paths[i] == job.path;
                if job.path == paths.last() {
                    assert(here.contains(job));
                    let j = choose|j: int| 0 <= j < here.len() && here[j] == job;
                    assert(all[before.len() + j] == job);
                } else {
                    assert(front[i] == job.path);
                    assert(front.contains(job.path));
                    assert(before.contains(job));
                    let j = choose|j: int| 0 <= j < before.len() && before[j] == job;
                    assert(all[j] == job);
                }
            }
        }
    }
}

/// A path that matches an exclude pattern of an action never runs that
/// action's chain, whether or not it also matches the include pattern.
pub proof fn lemma_excluded_path_gives_no_job(
    actions: Seq<CommandAction>,
    paths: Seq<Seq<char>>,
    action: int,
    path: Seq<char>,
)
    requires
        0 <= action < actions.len(),
        actions[action]@.excludes(path),
    ensures
        !jobs_for(actions, paths).contains(JobView { path, action }),
{
    lemma_batch_jobs(actions, paths);
}

/// For an action without exclude patterns, a changed path runs the chain
/// exactly when it matches the include pattern.
pub proof fn lemma_unfiltered_action_runs_iff_included(
    actions: Seq<CommandAction>,
    paths: Seq<Seq<char>>,
    action: int,
    path: Seq<char>,
)
    requires
        0 <= action < actions.len(),
        actions[action]@.exclude is None,
        paths.contains(path),
    ensures
        jobs_for(actions, paths).contains(JobView { path, action }) <==> actions[action]@.includes(
            path,
        ),
{
    lemma_batch_jobs(actions, paths);
}

/// Tells what a notification means to the dispatcher.
pub fn classify(event: &WatchEvent) -> (reaction: Reaction)
    ensures
        reaction == reaction_to(event@),
{
    match event.kind {
        EventKind::DataModified | EventKind::Modified | EventKind::FileCreated => Reaction::Changed,
        EventKind::Other => {
            let stop = match &event.info {
                Some(info) => *info == "exit".to_owned(),
                None => false,
            };
            if stop {
                Reaction::Stop
            } else {
                Reaction::Ignore
            }
        },
        EventKind::Unrelated => Reaction::Ignore,
    }
}

/// Whether `path` is among `paths`.
fn holds_path(paths: &Vec<String>, path: &String) -> (found: bool)
    ensures
        found == paths.deep_view().contains(path@),
{
    let mut i: usize = 0;
    while i < paths.len()
        invariant
            i <= paths.len(),
            forall|j: int| 0 <= j < i ==> paths.deep_view()[j] != path@,
        decreases paths.len() - i,
    {
        if paths[i] == *path {
            assert(paths.deep_view()[i as int] == path@);
            return true;
        }
        i += 1;
    }
    false
}

/// Coalesces the notifications of one debounce cycle into a batch: the paths
/// of the change notifications that come before the stop signal, each once,
/// in the order of its first notification.
pub fn coalesce(events: &Vec<WatchEvent>) -> (batch: EventBatch)
    ensures
        batch.paths.deep_view() == coalesced(raw_paths(event_views(events@))),
        batch.stop == stop_seen(event_views(events@)),
{
    let ghost all = event_views(events@);
    let mut paths: Vec<String> = Vec::new();
    let mut stop = false;
    let mut i: usize = 0;
    assert(paths.deep_view() =~= Seq::<Seq<char>>::empty());
    while i < events.len() && !stop
        invariant
            i <= events.len(),
            all == event_views(events@),
            stop == stop_seen(all.take(i as int)),
            paths.deep_view() == coalesced(raw_paths(all.take(i as int))),
        decreases events.len() - i,
    {
        let event = &events[i];
        let ghost before = all.take(i as int);
        let ghost upto = all.take(i + 1);
        assert(upto.drop_last() == before);
        assert(upto.last() == event@);
        match classify(event) {
            Reaction::Stop => {
                stop = true;
            },
            Reaction::Ignore => {},
            Reaction::Changed => {
                let ghost start = raw_paths(before);
                let mut k: usize = 0;
                assert(start + event@.paths.take(0) == start);
                while k < event.paths.len()
                    invariant
                        k <= event.paths.len(),
                        paths.deep_view() == coalesced(start + event@.paths.take(k as int)),
                    decreases event.paths.len() - k,
                {
                    let ghost sofar = start + event@.paths.take(k as int);
                    let ghost next = start + event@.paths.take(k + 1);
                    assert(next.drop_last() == sofar);
                    assert(next.last() == event.paths[k as int]@);
                    if !holds_path(&paths, &event.paths[k]) {
                        let ghost old_paths = paths.deep_view();
                        paths.push(event.paths[k].clone());
                        assert(paths.deep_view() =~= old_paths.push(event.paths[k as int]@));
                    }
                    k += 1;
                }
                assert(event@.paths.take(event.paths.len() as int) == event@.paths);
            },
        }
        i += 1;
    }
    proof {
        if stop {
            lemma_nothing_after_stop(all, i as int);
        } else {
            assert(all.take(i as int) == all);
        }
    }
    EventBatch { paths, stop }
}

/// The jobs of a batch: for each of its paths in order, one for each action
/// that the path triggers, in the declared order of the actions.
pub fn plan<A: Action>(actions: &Vec<A>, paths: &Vec<String>) -> (jobs: Vec<Job>)
    ensures
        job_views(jobs@) == jobs_for(actions@, paths.deep_view()),
{
    let mut jobs: Vec<Job> = Vec::new();
    let mut i: usize = 0;
    assert(job_views(jobs@) =~= Seq::<JobView>::empty());
    assert(paths.deep_view().take(0) =~= Seq::<Seq<char>>::empty());
    while i < paths.len()
        invariant
            i <= paths.len(),
            job_views(jobs@) == jobs_for(actions@, paths.deep_view().take(i as int)),
        decreases paths.len() - i,
    {
        let path = &paths[i];
        let ghost done = jobs_for(actions@, paths.deep_view().take(i as int));
        let mut k: usize = 0;
        assert(actions@.take(0) =~= Seq::<A>::empty());
        assert(done + Seq::<JobView>::empty() == done);
        while k < actions.len()
            invariant
                k <= actions.len(),
                i < paths.len(),
                path@ == paths.deep_view()[i as int],
                job_views(jobs@) == done + jobs_for_path(actions@.take(k as int), path@),
            decreases actions.len() - k,
        {
            assert(actions@.take(k + 1).drop_last() == actions@.take(k as int));
            assert(actions@.take(k + 1).last() == actions@[k as int]);
            if actions[k].matches(path.as_str()) {
                let ghost old_jobs = job_views(jobs@);
                jobs.push(Job { path: path.clone(), action: k });
                assert(job_views(jobs@) =~= old_jobs.push(
                    JobView { path: path@, action: k as int },
                ));
                assert(job_views(jobs@) =~= done + jobs_for_path(actions@.take(k + 1), path@));
            }
            k += 1;
        }
        assert(actions@.take(actions.len() as int) == actions@);
        assert(paths.deep_view().take(i + 1).drop_last() == paths.deep_view().take(i as int));
        assert(paths.deep_view().take(i + 1).last() == path@);
        i += 1;
    }
    assert(paths.deep_view().take(paths.len() as int) == paths.deep_view());
    jobs
}

/// One turn of the dispatcher: takes a delivery and says what state follows
/// and which jobs to run.
pub fn dispatch<A: Action>(
    state: DispatcherState,
    actions: &Vec<A>,
    delivery: &Delivery,
) -> (turn: Turn)
    ensures
        turn.state == state_after(state, delivery@),
        job_views(turn.jobs@) == jobs_after(state, actions@, delivery@),
{
    let idle: Vec<Job> = Vec::new();
    assert(job_views(idle@) =~= Seq::<JobView>::empty());
    match state {
        DispatcherState::Stopped => Turn { state: DispatcherState::Stopped, jobs: idle },
        DispatcherState::Running => match delivery {
            Delivery::Batch(events) => {
                let batch = coalesce(events);
                let jobs = plan(actions, &batch.paths);
                let state = if batch.stop {
                    DispatcherState::Stopped
                } else {
                    DispatcherState::Running
                };
                Turn { state, jobs }
            },
            Delivery::WatchError => Turn { state: DispatcherState::Running, jobs: idle },
            Delivery::Disconnected => Turn { state: DispatcherState::Stopped, jobs: idle },
        },
    }
}

} // verus!
