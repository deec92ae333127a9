use capsule_runtime::a2a::IncomingTask;
use capsule_runtime::lanes::{LaneQueue, TaskLane};
use capsule_runtime::origin::{TaskOrigin, TaskProvenance};

const ALL_LANES: [TaskLane; 3] = [TaskLane::User, TaskLane::Peer, TaskLane::Bg];

fn task(id: &str, origin: TaskOrigin) -> IncomingTask {
    IncomingTask {
        task_id: id.to_string(),
        context_id: "ctx_001".to_string(),
        message_id: format!("msg_{id}"),
        message_text: id.to_string(),
        traceparent: None,
        provenance: TaskProvenance::derive(origin, None),
        delegation_id: None,
    }
}

/// An origin that puts a task in `lane`, for a test that cares about the lane and not about
/// which of the origins mapping to it was used.
fn origin_for(lane: TaskLane) -> TaskOrigin {
    match lane {
        TaskLane::User => TaskOrigin::User,
        TaskLane::Peer => TaskOrigin::Peer,
        TaskLane::Bg => TaskOrigin::Event,
    }
}

fn drain(queue: &mut LaneQueue) -> Vec<(TaskLane, String)> {
    let mut drained = Vec::new();
    while let Some((lane, task)) = queue.next(None) {
        drained.push((lane, task.task_id));
    }
    drained
}

#[test]
fn every_origin_names_a_lane() {
    for (origin, expected) in [
        (TaskOrigin::User, TaskLane::User),
        (TaskOrigin::Peer, TaskLane::Peer),
        (TaskOrigin::Schedule, TaskLane::Bg),
        (TaskOrigin::Event, TaskLane::Bg),
        (TaskOrigin::Completion, TaskLane::Bg),
        (TaskOrigin::System, TaskLane::Bg),
    ] {
        assert_eq!(
            TaskLane::for_origin(origin),
            expected,
            "{origin:?} belongs in {expected:?}"
        );
    }
}

#[test]
fn lane_order_is_precedence() {
    assert!(TaskLane::User > TaskLane::Peer);
    assert!(TaskLane::Peer > TaskLane::Bg);
    for (lane, spelling) in [
        (TaskLane::User, "user"),
        (TaskLane::Peer, "peer"),
        (TaskLane::Bg, "bg"),
    ] {
        assert_eq!(lane.as_str(), spelling);
    }
}

/// Arrival order and lane order disagree on every adjacent pair, so nothing here comes out
/// right by accident of insertion.
#[test]
fn every_lane_drains_before_the_one_below_it() {
    let mut queue = LaneQueue::new();
    for (id, origin) in [
        ("bg-1", TaskOrigin::Schedule),
        ("user-1", TaskOrigin::User),
        ("bg-2", TaskOrigin::Event),
        ("peer-1", TaskOrigin::Peer),
        ("user-2", TaskOrigin::User),
        ("bg-3", TaskOrigin::Completion),
        ("peer-2", TaskOrigin::Peer),
    ] {
        queue.push(task(id, origin));
    }

    assert_eq!(
        drain(&mut queue),
        vec![
            (TaskLane::User, "user-1".to_string()),
            (TaskLane::User, "user-2".to_string()),
            (TaskLane::Peer, "peer-1".to_string()),
            (TaskLane::Peer, "peer-2".to_string()),
            (TaskLane::Bg, "bg-1".to_string()),
            (TaskLane::Bg, "bg-2".to_string()),
            (TaskLane::Bg, "bg-3".to_string()),
        ]
    );
    assert!(
        queue.next(None).is_none(),
        "the queue is empty once drained"
    );
}

/// The case the lanes exist for: a person's task arriving last still runs next.
#[test]
fn a_user_task_behind_six_completions_runs_first() {
    let mut queue = LaneQueue::new();
    for i in 1..=6 {
        queue.push(task(&format!("done-{i}"), TaskOrigin::Completion));
    }
    queue.push(task("asked", TaskOrigin::User));

    let drained = drain(&mut queue);
    assert_eq!(drained[0], (TaskLane::User, "asked".to_string()));
    assert_eq!(
        drained[1..],
        (1..=6)
            .map(|i| (TaskLane::Bg, format!("done-{i}")))
            .collect::<Vec<_>>()
    );
}

#[test]
fn tasks_of_one_origin_drain_in_push_order() {
    let mut queue = LaneQueue::new();
    for id in ["first", "second", "third"] {
        queue.push(task(id, TaskOrigin::Peer));
    }
    assert_eq!(
        drain(&mut queue),
        vec![
            (TaskLane::Peer, "first".to_string()),
            (TaskLane::Peer, "second".to_string()),
            (TaskLane::Peer, "third".to_string()),
        ]
    );
}

/// No lane preempts any other, including its own, and a refusal costs the queued task
/// nothing.
#[test]
fn nothing_is_yielded_while_a_task_is_active() {
    for active in ALL_LANES {
        for queued in ALL_LANES {
            let mut queue = LaneQueue::new();
            queue.push(task("waiting", origin_for(queued)));
            assert!(
                queue.next(Some(active)).is_none(),
                "a {queued:?} task must not preempt an active {active:?} task"
            );
            assert_eq!(
                queue.next(None).map(|(lane, task)| (lane, task.task_id)),
                Some((queued, "waiting".to_string())),
                "the refused {queued:?} task must still be queued afterwards"
            );
        }
    }
}
