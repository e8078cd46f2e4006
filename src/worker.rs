//! One worker's share of the copies, as a state machine: the worker is told
//! what happened to its last copy and answers with what to do next.

use vstd::prelude::*;
use crate::key::{destination_key, destination_key_of, joined};
use crate::source::{SourceRef, SourceRefView};

verus! {

/// Where a worker stands.
#[derive(Debug, Clone, Copy, PartialEq, Eq, Structural)]
pub enum Phase {
    /// Created, not started.
    Ready,
    /// A copy has been handed out and its outcome is awaited.
    Copying,
    /// Every assigned copy was made.
    Finished,
    /// A copy failed; the worker makes no more.
    Failed,
}

/// What the worker is told.
#[derive(Debug, Clone, Copy, PartialEq, Eq, Structural)]
pub enum WorkerEvent {
    /// Begin the assigned work.
    Start,
    /// The copy last handed out was made.
    CopySucceeded,
    /// The copy last handed out failed, its retries spent.
    CopyFailed,
}

/// What the worker asks for next.
#[derive(Debug, PartialEq, Eq)]
pub enum WorkerAction {
    /// Copy the object at key `source` to key `destination`, in the same bucket.
    Copy { source: String, destination: String },
    /// All assigned copies are made.
    Finish,
    /// Stop: a copy failed.
    Abort,
}

pub enum ActionView {
    Copy { source: Seq<char>, destination: Seq<char> },
    Finish,
    Abort,
}

impl View for WorkerAction {
    type V = ActionView;

    open spec fn view(&self) -> ActionView {
        match self {
            WorkerAction::Copy { source, destination } => ActionView::Copy {
                source: source@,
                destination: destination@,
            },
            WorkerAction::Finish => ActionView::Finish,
            WorkerAction::Abort => ActionView::Abort,
        }
    }
}

/// A worker with `assigned` copies to make, `completed` of them made.
#[derive(Debug, Clone, Copy, PartialEq, Eq, Structural)]
pub struct Worker {
    pub assigned: usize,
    pub completed: usize,
    pub phase: Phase,
}

impl Worker {
    pub open spec fn wf(self) -> bool {
        &&& self.completed <= self.assigned
        &&& self.phase == Phase::Ready ==> self.completed == 0
        &&& self.phase == Phase::Copying ==> self.completed < self.assigned
        &&& self.phase == Phase::Finished ==> self.completed == self.assigned
    }

    /// Whether the worker, where it stands, can be told `event`: `Start` only
    /// before it started, the outcome of a copy only while one is awaited.
    pub open spec fn expects(self, event: WorkerEvent) -> bool {
        match event {
            WorkerEvent::Start => self.phase == Phase::Ready,
            _ => self.phase == Phase::Copying,
        }
    }

    /// The worker after it was told `event`.
    pub open spec fn after(self, event: WorkerEvent) -> Worker {
        match event {
            WorkerEvent::CopyFailed => Worker { phase: Phase::Failed, ..self },
            _ => {
                let done = if event == WorkerEvent::CopySucceeded {
                    self.completed + 1
                } else {
                    self.completed as int
                };
                Worker {
                    completed: done as usize,
                    phase: if done < self.assigned {
                        Phase::Copying
                    } else {
                        Phase::Finished
                    },
                    ..self
                }
            },
        }
    }

    /// What a worker that stands at `self` asks for, the next copy being
    /// named by `suffix`.
    pub open spec fn action(self, src: SourceRefView, suffix: nat) -> ActionView {
        match self.phase {
            Phase::Copying => ActionView::Copy {
                source: joined(src.prefix, src.object_name),
                destination: destination_key_of(src.prefix, suffix),
            },
            Phase::Failed => ActionView::Abort,
            _ => ActionView::Finish,
        }
    }

    /// A worker that has `assigned` copies to make.
    pub fn new(assigned: usize) -> (r: Worker)
        ensures
            r == (Worker { assigned, completed: 0, phase: Phase::Ready }),
            r.wf(),
    {
        Worker { assigned, completed: 0, phase: Phase::Ready }
    }

    /// Whether the worker can be told `event` now.
    pub fn accepts(&self, event: WorkerEvent) -> (r: bool)
        ensures
            r == self.expects(event),
    {
        match event {
            WorkerEvent::Start => self.phase == Phase::Ready,
            _ => self.phase == Phase::Copying,
        }
    }

    /// Tells the worker `event` and returns what it asks for next; a copy it
    /// asks for goes to the destination named by `suffix`.
    pub fn step(&mut self, src: &SourceRef, event: WorkerEvent, suffix: u128) -> (r: WorkerAction)
        requires
            old(self).wf(),
            old(self).expects(event),
        ensures
            *final(self) == old(self).after(event),
            final(self).wf(),
            r@ == final(self).action(src@, suffix as nat),
    {
        match event {
            WorkerEvent::CopyFailed => {
                self.phase = Phase::Failed;
                return WorkerAction::Abort;
            },
            WorkerEvent::CopySucceeded => {
                self.completed = self.completed + 1;
            },
            WorkerEvent::Start => {},
        }
        if self.completed < self.assigned {
            self.phase = Phase::Copying;
            WorkerAction::Copy {
                source: src.source_key(),
                destination: destination_key(src.prefix.as_str(), suffix),
            }
        } else {
            self.phase = Phase::Finished;
            WorkerAction::Finish
        }
    }

    /// Tells the worker `event` and returns what it asks for next; a copy it
    /// asks for goes to a destination named by a freshly drawn random value.
    pub fn advance(&mut self, src: &SourceRef, event: WorkerEvent) -> (r: WorkerAction)
        requires
            old(self).wf(),
            old(self).expects(event),
        ensures
            *final(self) == old(self).after(event),
            final(self).wf(),
            exists|suffix: u128| r@ == #[trigger] final(self).action(src@, suffix as nat),
    {
        let suffix = random_suffix();
        self.step(src, event, suffix)
    }
}

/// Relies on rand::thread_rng and Rng::gen: a uniformly drawn 128-bit value,
/// of which nothing is promised.
#[verifier::external_body]
fn random_suffix() -> (r: u128) {
    rand::Rng::gen::<u128>(&mut rand::thread_rng())
}

/// The copies made by a list of workers, in all.
pub open spec fn total_completed(ws: Seq<Worker>) -> int
    decreases ws.len(),
{
    if ws.len() == 0 {
        0
    } else {
        total_completed(ws.drop_last()) + ws.last().completed
    }
}

proof fn lemma_total_of_equal_shares(ws: Seq<Worker>, share: int)
    requires
        forall|i: int| 0 <= i < ws.len() ==> (#[trigger] ws[i]).completed == share,
    ensures
        total_completed(ws) == ws.len() * share,
    decreases ws.len(),
{
    if ws.len() > 0 {
        let rest = ws.drop_last();
        assert forall|i: int| 0 <= i < rest.len() implies (#[trigger] rest[i]).completed == share by {
            assert(rest[i] == ws[i]);
        }
        lemma_total_of_equal_shares(rest, share);
        assert(ws.len() * share == rest.len() * share + share) by (nonlinear_arith)
            requires
                ws.len() == rest.len() + 1,
        ;
    }
}

/// When `W` workers, each given its share `count / W` of `count` copies, have
/// all finished, they have made `W * (count / W)` copies in all: `count` less
/// its remainder modulo `W`, which is never copied.
pub proof fn lemma_total_copies(count: nat, ws: Seq<Worker>)
    requires
        ws.len() > 0,
        forall|i: int|
            0 <= i < ws.len() ==> (#[trigger] ws[i]).wf() && ws[i].phase == Phase::Finished
                && ws[i].assigned == count / ws.len(),
    ensures
        total_completed(ws) == ws.len() * (count / ws.len()),
        total_completed(ws) == count - count % ws.len(),
        count - ws.len() < total_completed(ws) <= count,
{
    let w = ws.len();
    let share = (count / w) as int;
    assert forall|i: int| 0 <= i < ws.len() implies (#[trigger] ws[i]).completed == share by {
        assert(ws[i].wf());
    }
    lemma_total_of_equal_shares(ws, share);
    assert(w * (count / w) == count - count % w && count % w < w) by (nonlinear_arith)
        requires
            w > 0,
    ;
}

/// A worker that has been told of a failed copy stops: it has `Abort` to
/// say, keeps the count of the copies it made, and takes no further event.
pub proof fn lemma_failure_stops(w: Worker, src: SourceRefView, suffix: nat, event: WorkerEvent)
    requires
        w.wf(),
        w.expects(WorkerEvent::CopyFailed),
    ensures
        w.after(WorkerEvent::CopyFailed).completed == w.completed,
        w.after(WorkerEvent::CopyFailed).action(src, suffix) == ActionView::Abort,
        !w.after(WorkerEvent::CopyFailed).expects(event),
{
}

/// A worker that finishes has made exactly the copies it was assigned.
pub proof fn lemma_finish_after_share(w: Worker, event: WorkerEvent)
    requires
        w.wf(),
        w.expects(event),
        w.after(event).phase == Phase::Finished,
    ensures
        w.after(event).completed == w.assigned,
        w.after(event).wf(),
{
}

} // verus!
