//! Which queued task runs next: by lane first, by arrival second. A lane is read off the task's
//! own origin, so nothing can be filed in one its origin does not name.

use crate::a2a::IncomingTask;
use crate::origin::TaskOrigin;
use std::collections::VecDeque;
use vstd::prelude::*;

verus! {

/// Ordering classes the queue chooses between, declared lowest to highest.
#[derive(Debug, Clone, Copy, PartialEq, Eq, PartialOrd, Ord, Structural)]
pub enum TaskLane {
    /// Work with nobody waiting on it.
    Bg,
    /// A message from another capsule, which has a task of its own blocked on the answer.
    Peer,
    /// A person is waiting.
    User,
}

impl TaskLane {
    /// The lane an origin names.
    pub open spec fn of(origin: TaskOrigin) -> TaskLane {
        match origin {
            TaskOrigin::User => TaskLane::User,
            TaskOrigin::Peer => TaskLane::Peer,
            TaskOrigin::Schedule | TaskOrigin::Event | TaskOrigin::Completion
            | TaskOrigin::System => TaskLane::Bg,
        }
    }

    /// How far up the ordering a lane stands.
    pub open spec fn rank(self) -> int {
        match self {
            TaskLane::Bg => 0,
            TaskLane::Peer => 1,
            TaskLane::User => 2,
        }
    }

    /// The lane an origin names.
    pub fn for_origin(origin: TaskOrigin) -> (r: Self)
        ensures
            r == TaskLane::of(origin),
            r is User <==> origin is User,
            r is Peer <==> origin is Peer,
    {
        match origin {
            TaskOrigin::User => TaskLane::User,
            TaskOrigin::Peer => TaskLane::Peer,
            TaskOrigin::Schedule | TaskOrigin::Event | TaskOrigin::Completion => TaskLane::Bg,
            TaskOrigin::System => TaskLane::Bg,
        }
    }

    /// The lower-case spelling, as it appears on a `task_start` trace record.
    pub fn as_str(&self) -> (r: &'static str)
        ensures
            r@ == (match *self {
                TaskLane::User => "user"@,
                TaskLane::Peer => "peer"@,
                TaskLane::Bg => "bg"@,
            }),
    {
        match self {
            TaskLane::User => "user",
            TaskLane::Peer => "peer",
            TaskLane::Bg => "bg",
        }
    }
}

/// The tasks a capsule has accepted but not yet started, one queue per lane.
pub struct LaneQueue {
    user: VecDeque<IncomingTask>,
    peer: VecDeque<IncomingTask>,
    bg: VecDeque<IncomingTask>,
}

/// What the three lanes hold, each in the order its tasks arrived.
pub struct LanesView {
    pub user: Seq<IncomingTask>,
    pub peer: Seq<IncomingTask>,
    pub bg: Seq<IncomingTask>,
}

impl View for LaneQueue {
    type V = LanesView;

    closed spec fn view(&self) -> LanesView {
        LanesView { user: self.user@, peer: self.peer@, bg: self.bg@ }
    }
}

impl LanesView {
    /// What one lane holds.
    pub open spec fn lane(self, lane: TaskLane) -> Seq<IncomingTask> {
        match lane {
            TaskLane::User => self.user,
            TaskLane::Peer => self.peer,
            TaskLane::Bg => self.bg,
        }
    }

    /// The lanes with one of them replaced.
    pub open spec fn with(self, lane: TaskLane, tasks: Seq<IncomingTask>) -> LanesView {
        match lane {
            TaskLane::User => LanesView { user: tasks, ..self },
            TaskLane::Peer => LanesView { peer: tasks, ..self },
            TaskLane::Bg => LanesView { bg: tasks, ..self },
        }
    }

    /// The highest lane that holds a task.
    pub open spec fn first_lane(self) -> Option<TaskLane> {
        if self.user.len() > 0 {
            Some(TaskLane::User)
        } else if self.peer.len() > 0 {
            Some(TaskLane::Peer)
        } else if self.bg.len() > 0 {
            Some(TaskLane::Bg)
        } else {
            None
        }
    }

    /// Whether every task waits in the lane its own origin names.
    pub open spec fn well_filed(self) -> bool {
        forall|lane: TaskLane, i: int|
            0 <= i < self.lane(lane).len() ==> TaskLane::of(
                (#[trigger] self.lane(lane)[i]).provenance.spec_origin(),
            ) == lane
    }
}

impl LaneQueue {
    /// A queue with nothing in it.
    pub fn new() -> (r: Self)
        ensures
            r@ == (LanesView { user: Seq::empty(), peer: Seq::empty(), bg: Seq::empty() }),
    {
        LaneQueue { user: VecDeque::new(), peer: VecDeque::new(), bg: VecDeque::new() }
    }

    /// Files a task at the end of the lane its own origin names.
    pub fn push(&mut self, task: IncomingTask)
        ensures
            ({
                let lane = TaskLane::of(task.provenance.spec_origin());
                final(self)@ == old(self)@.with(lane, old(self)@.lane(lane).push(task))
            }),
            final(self)@.user == (if task.provenance.spec_origin() is User {
                old(self)@.user.push(task)
            } else {
                old(self)@.user
            }),
            final(self)@.peer == (if task.provenance.spec_origin() is Peer {
                old(self)@.peer.push(task)
            } else {
                old(self)@.peer
            }),
            final(self)@.bg == (if task.provenance.spec_origin() is User
                || task.provenance.spec_origin() is Peer {
                old(self)@.bg
            } else {
                old(self)@.bg.push(task)
            }),
    {
        match TaskLane::for_origin(task.provenance.origin()) {
            TaskLane::User => self.user.push_back(task),
            TaskLane::Peer => self.peer.push_back(task),
            TaskLane::Bg => self.bg.push_back(task),
        }
    }

    /// Takes the front of the highest non-empty lane, with the lane it came from. Nothing is
    /// yielded, and nothing moves, while a task is active or when every lane is empty.
    pub fn next(&mut self, active: Option<TaskLane>) -> (r: Option<(TaskLane, IncomingTask)>)
        ensures
            match (active, old(self)@.first_lane()) {
                (None, Some(lane)) => {
                    let waiting = old(self)@.lane(lane);
                    r == Some((lane, waiting[0])) && final(self)@ == old(self)@.with(
                        lane,
                        waiting.drop_first(),
                    )
                },
                _ => r is None && final(self)@ == old(self)@,
            },
            r is None <==> active is Some || (old(self)@.user.len() == 0 && old(self)@.peer.len()
                == 0 && old(self)@.bg.len() == 0),
            active is None && old(self)@.user.len() > 0 ==> r == Some(
                (TaskLane::User, old(self)@.user[0]),
            ) && final(self)@.user == old(self)@.user.drop_first() && final(self)@.peer
                == old(self)@.peer && final(self)@.bg == old(self)@.bg,
            active is None && old(self)@.user.len() == 0 && old(self)@.peer.len() > 0 ==> r == Some(
                (TaskLane::Peer, old(self)@.peer[0]),
            ) && final(self)@.peer == old(self)@.peer.drop_first() && final(self)@.user
                == old(self)@.user && final(self)@.bg == old(self)@.bg,
            active is None && old(self)@.user.len() == 0 && old(self)@.peer.len() == 0
                && old(self)@.bg.len() > 0 ==> r == Some((TaskLane::Bg, old(self)@.bg[0]))
                && final(self)@.bg == old(self)@.bg.drop_first() && final(self)@.user
                == old(self)@.user && final(self)@.peer == old(self)@.peer,
    {
        if active.is_some() {
            return None;
        }
        let ghost before = self@;
        if let Some(task) = self.user.pop_front() {
            proof {
                assert(self@.user =~= before.user.drop_first());
            }
            return Some((TaskLane::User, task));
        }
        if let Some(task) = self.peer.pop_front() {
            proof {
                assert(self@.peer =~= before.peer.drop_first());
            }
            return Some((TaskLane::Peer, task));
        }
        if let Some(task) = self.bg.pop_front() {
            proof {
                assert(self@.bg =~= before.bg.drop_first());
            }
            return Some((TaskLane::Bg, task));
        }
        None
    }
}

// ── Laws ─────────────────────────────────────────────────────────────────────

/// Filing and taking keep every task in the lane its own origin names.
pub proof fn filing_never_misfiles(lanes: LanesView, task: IncomingTask, lane: TaskLane)
    requires
        lanes.well_filed(),
    ensures
        lanes.with(
            TaskLane::of(task.provenance.spec_origin()),
            lanes.lane(TaskLane::of(task.provenance.spec_origin())).push(task),
        ).well_filed(),
        lanes.lane(lane).len() > 0 ==> lanes.with(
            lane,
            lanes.lane(lane).drop_first(),
        ).well_filed(),
{
    let own = TaskLane::of(task.provenance.spec_origin());
    let filed = lanes.with(own, lanes.lane(own).push(task));
    assert forall|l: TaskLane, i: int| 0 <= i < filed.lane(l).len() implies TaskLane::of(
        (#[trigger] filed.lane(l)[i]).provenance.spec_origin(),
    ) == l by {
        if l == own && i == lanes.lane(own).len() {
        } else {
            assert(filed.lane(l)[i] == lanes.lane(l)[i]);
        }
    }
    if lanes.lane(lane).len() > 0 {
        let taken = lanes.with(lane, lanes.lane(lane).drop_first());
        assert forall|l: TaskLane, i: int| 0 <= i < taken.lane(l).len() implies TaskLane::of(
            (#[trigger] taken.lane(l)[i]).provenance.spec_origin(),
        ) == l by {
            if l == lane {
                assert(taken.lane(l)[i] == lanes.lane(l)[i + 1]);
            } else {
                assert(taken.lane(l)[i] == lanes.lane(l)[i]);
            }
        }
    }
}

/// The lane chosen is the highest that holds a task: every lane above it is empty.
pub proof fn the_highest_lane_goes_first(lanes: LanesView, lane: TaskLane)
    requires
        lanes.first_lane() is Some,
        lanes.lane(lane).len() > 0,
    ensures
        lane.rank() <= lanes.first_lane()->0.rank(),
        lanes.lane(lanes.first_lane()->0).len() > 0,
{
}

/// Within one lane tasks leave in the order they arrived: a task filed behind others is taken only
/// after them.
pub proof fn a_lane_is_first_in_first_out(waiting: Seq<IncomingTask>, task: IncomingTask)
    requires
        waiting.len() > 0,
    ensures
        waiting.push(task)[0] == waiting[0],
        waiting.push(task).drop_first() == waiting.drop_first().push(task),
{
    assert(waiting.push(task).drop_first() =~= waiting.drop_first().push(task));
}

} // verus!
