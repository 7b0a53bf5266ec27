//! The run's state machine.
//!
//! A run walks one way through its stages: optional testing, moving the
//! listed files out, the external render, moving them back, done.  Any
//! failed step halts the run at once — a failed render leaves the files at
//! their temporary spots, with no move back attempted.  The machine decides;
//! performing renames and spawning the external tool is its caller's work.

use vstd::prelude::*;

use crate::bytes::copy_bytes;
use crate::paths::Plan;

verus! {

/// Where the run stands.  The `next` of the two moving phases is the index
/// of the plan entry whose move is due.
#[derive(Clone, Copy)]
pub enum Phase {
    /// The external test command is due.
    Testing,
    /// Moving files out to their temporary spots.
    Relocating { next: usize },
    /// The external build command is due.
    Rendering,
    /// Moving files back to their original spots.
    Restoring { next: usize },
    /// Every stage succeeded.
    Done,
    /// A stage failed; the run halts as it stands.
    Failed,
}

/// What the caller must do next.
pub enum Action {
    /// Spawn the external test command and wait for it.
    RunTests,
    /// Spawn the external build command and wait for it.
    RunBuild,
    /// Rename the file at `from` to `to`.
    Move { from: Vec<u8>, to: Vec<u8> },
    /// Stop: succeed when `ok`, abort otherwise.
    Finish { ok: bool },
}

/// The phase a run's work begins at: the first move out, or the render
/// straight away when the plan is empty.
pub open spec fn work_start(n: nat) -> Phase {
    if n > 0 {
        Phase::Relocating { next: 0 }
    } else {
        Phase::Rendering
    }
}

/// The phase after the phase `p` succeeds, for a plan of `n` entries.
pub open spec fn after_success(p: Phase, n: nat) -> Phase {
    match p {
        Phase::Testing => work_start(n),
        Phase::Relocating { next } => if next + 1 < n {
            Phase::Relocating { next: (next + 1) as usize }
        } else {
            Phase::Rendering
        },
        Phase::Rendering => if n > 0 {
            Phase::Restoring { next: 0 }
        } else {
            Phase::Done
        },
        Phase::Restoring { next } => if next + 1 < n {
            Phase::Restoring { next: (next + 1) as usize }
        } else {
            Phase::Done
        },
        Phase::Done => Phase::Done,
        Phase::Failed => Phase::Failed,
    }
}

/// One run: the plan and where the run stands.
pub struct Driver {
    pub phase: Phase,
    pub plan: Plan,
}

impl Driver {
    /// The phase's indices stay inside the plan.
    pub open spec fn wf(self) -> bool {
        &&& self.plan.wf()
        &&& (self.phase matches Phase::Relocating { next } ==> next < self.plan.originals@.len())
        &&& (self.phase matches Phase::Restoring { next } ==> next < self.plan.originals@.len())
    }

    /// A finished run asks for nothing further.
    pub open spec fn finished(self) -> bool {
        self.phase is Done || self.phase is Failed
    }

    /// Begins a run over `plan`, with the external test stage first when
    /// `with_tests` asks for it.
    pub fn new(plan: Plan, with_tests: bool) -> (d: Driver)
        requires
            plan.wf(),
        ensures
            d.wf(),
            d.plan == plan,
            d.phase == if with_tests {
                Phase::Testing
            } else {
                work_start(plan.originals@.len())
            },
    {
        let phase = if with_tests {
            Phase::Testing
        } else if plan.originals.len() > 0 {
            Phase::Relocating { next: 0 }
        } else {
            Phase::Rendering
        };
        Driver { phase, plan }
    }

    /// Whether the run has stopped, for good or for ill.
    pub fn is_finished(&self) -> (r: bool)
        ensures
            r == self.finished(),
    {
        match self.phase {
            Phase::Done => true,
            Phase::Failed => true,
            _ => false,
        }
    }

    /// The action the caller must perform now.  A `Move` is the due entry's
    /// rename: out of the tree's original spot while relocating, back into
    /// it while restoring.
    pub fn next_action(&self) -> (a: Action)
        requires
            self.wf(),
        ensures
            self.phase is Testing ==> a is RunTests,
            self.phase is Rendering ==> a is RunBuild,
            self.phase matches Phase::Relocating { next } ==> (a matches Action::Move {
                from,
                to,
            } && from@ == self.plan.originals@[next as int]@ && to@
                == self.plan.temporaries@[next as int]@),
            self.phase matches Phase::Restoring { next } ==> (a matches Action::Move {
                from,
                to,
            } && from@ == self.plan.temporaries@[next as int]@ && to@
                == self.plan.originals@[next as int]@),
            self.phase is Done ==> (a matches Action::Finish { ok } && ok),
            self.phase is Failed ==> (a matches Action::Finish { ok } && !ok),
    {
        match self.phase {
            Phase::Testing => Action::RunTests,
            Phase::Rendering => Action::RunBuild,
            Phase::Relocating { next } => Action::Move {
                from: copy_bytes(&self.plan.originals[next]),
                to: copy_bytes(&self.plan.temporaries[next]),
            },
            Phase::Restoring { next } => Action::Move {
                from: copy_bytes(&self.plan.temporaries[next]),
                to: copy_bytes(&self.plan.originals[next]),
            },
            Phase::Done => Action::Finish { ok: true },
            Phase::Failed => Action::Finish { ok: false },
        }
    }

    /// Takes the outcome of the action last asked for.  Failure of any step
    /// halts the run where it stands; success moves it one step on.
    pub fn on_event(&mut self, ok: bool)
        requires
            old(self).wf(),
            !old(self).finished(),
        ensures
            final(self).wf(),
            final(self).plan == old(self).plan,
            !ok ==> final(self).phase == Phase::Failed,
            ok ==> final(self).phase == after_success(
                old(self).phase,
                old(self).plan.originals@.len(),
            ),
    {
        if !ok {
            self.phase = Phase::Failed;
            return ;
        }
        let n = self.plan.originals.len();
        let phase = self.phase;
        self.phase = match phase {
            Phase::Testing => if n > 0 {
                Phase::Relocating { next: 0 }
            } else {
                Phase::Rendering
            },
            Phase::Relocating { next } => if next + 1 < n {
                Phase::Relocating { next: next + 1 }
            } else {
                Phase::Rendering
            },
            Phase::Rendering => if n > 0 {
                Phase::Restoring { next: 0 }
            } else {
                Phase::Done
            },
            Phase::Restoring { next } => if next + 1 < n {
                Phase::Restoring { next: next + 1 }
            } else {
                Phase::Done
            },
            Phase::Done => Phase::Done,
            Phase::Failed => Phase::Failed,
        };
    }
}

/// Law: a run over an empty plan never reaches a moving phase, so it asks
/// for no rename at all.
pub proof fn lemma_empty_plan_never_moves(d: Driver)
    requires
        d.wf(),
        d.plan.originals@.len() == 0,
    ensures
        !(d.phase is Relocating),
        !(d.phase is Restoring),
{
}

} // verus!
