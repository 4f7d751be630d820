//! Round-robin preemptive scheduling over a shared FIFO run queue.
use vstd::prelude::*;
use std::collections::VecDeque;
use crate::task::{InterruptStackFrame, Registers, Task};
use crate::hhdm::HigherHalfDirectMap;
use crate::kalloc::{AllocError, KernelAllocator, Layout, first_candidate, frames_for};
use crate::pmm::{PhysicalMemoryManager, fill_spec, is_candidate};

verus! {

/// Milliseconds until the next preemption, armed at every switch.
pub const PREEMPTION_WAIT_MS: u64 = 15;

/// What the caller must do after a switch: load an address space, and arm
/// the next preemption.
#[derive(Debug, Clone, Copy, PartialEq, Eq, Structural)]
pub struct Switch {
    /// Root frame to install as the active address space, if it is not the
    /// current one.
    pub load_root: Option<usize>,
    /// Milliseconds until the next preemption.
    pub preemption_wait_ms: u64,
}

/// The per-thread scheduler: whether it may pop tasks, the top of its idle
/// stack, and the task that runs now.
pub struct Scheduler {
    enabled: bool,
    idle_stack_top: u64,
    task: Option<Task>,
}

/// The CPU context on return from an interrupt.
pub type Frame = (InterruptStackFrame, Registers);

/// One step of the queue: `running` (already saved) goes to the back, the
/// front comes off. Returns the new running task and queue.
pub open spec fn rotate(running: Option<Task>, queue: Seq<Task>) -> (Option<Task>, Seq<Task>) {
    let q = match running {
        Some(t) => queue.push(t),
        None => queue,
    };
    if q.len() > 0 {
        (Some(q[0]), q.drop_first())
    } else {
        (None, q)
    }
}

/// The task with the context it was interrupted in.
pub open spec fn snapshot(t: Task, f: Frame) -> Task {
    Task { isf: f.0, regs: f.1, ..t }
}

/// The frame that the interrupt returns into after a switch.
pub open spec fn resumed_frame(next: Option<Task>, f: Frame, idle_ip: u64, idle_sp: u64) -> Frame {
    match next {
        Some(t) => (t.isf, t.regs),
        None => (
            InterruptStackFrame { instruction_pointer: idle_ip, stack_pointer: idle_sp, ..f.0 },
            Registers::zeroed(),
        ),
    }
}

/// A timer preemption on the model: the running task is saved with frame
/// `f` and re-queued, the next one is taken; returns the new running task,
/// queue and resumed frame.
pub open spec fn preempt(
    running: Option<Task>,
    queue: Seq<Task>,
    f: Frame,
    idle_ip: u64,
    idle_sp: u64,
) -> (Option<Task>, Seq<Task>, Frame) {
    let saved = match running {
        Some(t) => Some(snapshot(t, f)),
        None => None,
    };
    let (next, q) = rotate(saved, queue);
    (next, q, resumed_frame(next, f, idle_ip, idle_sp))
}

/// `preempt` applied once for each frame of `frames`, in order; the frame is
/// the one resumed after the last preemption.
pub open spec fn preempt_all(
    running: Option<Task>,
    queue: Seq<Task>,
    frames: Seq<Frame>,
    idle_ip: u64,
    idle_sp: u64,
) -> (Option<Task>, Seq<Task>, Frame)
    decreases frames.len(),
{
    if frames.len() == 0 {
        (running, queue, (InterruptStackFrame {
            instruction_pointer: 0,
            code_segment: 0,
            cpu_flags: 0,
            stack_pointer: 0,
            stack_segment: 0,
        }, Registers::zeroed()))
    } else {
        let s = preempt(running, queue, frames[0], idle_ip, idle_sp);
        if frames.len() == 1 {
            s
        } else {
            preempt_all(s.0, s.1, frames.drop_first(), idle_ip, idle_sp)
        }
    }
}

/// Round-robin order: whatever runs now, over the next `k` preemptions
/// (`k` at most the queue's length) the tasks queued now run in the order of
/// the queue, the `k`-th preemption resuming the `k`-th task exactly as it
/// was queued.
pub proof fn lemma_fifo_order(
    running: Option<Task>,
    queue: Seq<Task>,
    frames: Seq<Frame>,
    idle_ip: u64,
    idle_sp: u64,
)
    requires
        1 <= frames.len() <= queue.len(),
    ensures
        preempt_all(running, queue, frames, idle_ip, idle_sp).0 == Some(queue[frames.len() - 1]),
        preempt_all(running, queue, frames, idle_ip, idle_sp).2 == (
            queue[frames.len() - 1].isf,
            queue[frames.len() - 1].regs,
        ),
    decreases frames.len(),
{
    let s = preempt(running, queue, frames[0], idle_ip, idle_sp);
    if frames.len() > 1 {
        let saved = match running {
            Some(t) => Some(snapshot(t, frames[0])),
            None => None,
        };
        let q = match saved {
            Some(t) => queue.push(t),
            None => queue,
        };
        assert(s.1 == q.drop_first());
        lemma_fifo_order(s.0, s.1, frames.drop_first(), idle_ip, idle_sp);
        assert(s.1[frames.len() - 2] == queue[frames.len() - 1]);
    }
}

/// Round-robin with wrap-around: from no running task and `n >= 1` queued
/// tasks, the first `n` preemptions run them in queue order (see
/// [`lemma_fifo_order`]) and the `n + 1`-th brings the first one back, with
/// the context it had when it was first preempted.
pub proof fn lemma_fifo_wraps(queue: Seq<Task>, frames: Seq<Frame>, idle_ip: u64, idle_sp: u64)
    requires
        queue.len() >= 1,
        frames.len() == queue.len() + 1,
    ensures
        preempt_all(None, queue, frames, idle_ip, idle_sp).0 == Some(snapshot(queue[0], frames[1])),
{
    let s = preempt(None, queue, frames[0], idle_ip, idle_sp);
    assert(s.0 == Some(queue[0]));
    assert(s.1 == queue.drop_first());
    lemma_context_preserved(queue[0], queue.drop_first(), frames.drop_first(), idle_ip, idle_sp);
    assert(frames.drop_first()[0] == frames[1]);
}

/// Round robin over three tasks: from `[a, b, c]` and nothing running,
/// three preemptions leave `c` running with `a` and `b` queued (as they
/// were preempted), and a fourth brings `a` back with `b` and `c` queued.
pub proof fn lemma_round_robin_three(a: Task, b: Task, c: Task, f: Seq<Frame>, idle_ip: u64, idle_sp: u64)
    requires
        f.len() == 4,
    ensures
        preempt_all(None, seq![a, b, c], f.subrange(0, 3), idle_ip, idle_sp).0 == Some(c),
        preempt_all(None, seq![a, b, c], f.subrange(0, 3), idle_ip, idle_sp).1 == seq![
            snapshot(a, f[1]),
            snapshot(b, f[2]),
        ],
        preempt_all(None, seq![a, b, c], f, idle_ip, idle_sp).0 == Some(snapshot(a, f[1])),
        preempt_all(None, seq![a, b, c], f, idle_ip, idle_sp).1 == seq![
            snapshot(b, f[2]),
            snapshot(c, f[3]),
        ],
{
    let q = seq![a, b, c];
    let s1 = preempt(None, q, f[0], idle_ip, idle_sp);
    assert(s1.0 == Some(a) && s1.1 =~= seq![b, c]);
    let s2 = preempt(s1.0, s1.1, f[1], idle_ip, idle_sp);
    assert(s2.0 == Some(b) && s2.1 =~= seq![c, snapshot(a, f[1])]);
    let s3 = preempt(s2.0, s2.1, f[2], idle_ip, idle_sp);
    assert(s3.0 == Some(c) && s3.1 =~= seq![snapshot(a, f[1]), snapshot(b, f[2])]);
    let s4 = preempt(s3.0, s3.1, f[3], idle_ip, idle_sp);
    assert(s4.0 == Some(snapshot(a, f[1])) && s4.1 =~= seq![snapshot(b, f[2]), snapshot(c, f[3])]);
    let g = f.subrange(0, 3);
    assert(g.drop_first().drop_first() =~= seq![f[2]]);
    assert(g.drop_first() =~= seq![f[1], f[2]]);
    assert(f.drop_first() =~= seq![f[1], f[2], f[3]]);
    assert(f.drop_first().drop_first() =~= seq![f[2], f[3]]);
    assert(f.drop_first().drop_first().drop_first() =~= seq![f[3]]);
    assert(preempt_all(s3.0, s3.1, f.drop_first().drop_first().drop_first(), idle_ip, idle_sp) == s4);
    assert(preempt_all(s2.0, s2.1, seq![f[2]], idle_ip, idle_sp) == s3);
    assert(g[0] == f[0] && g.drop_first()[0] == f[1]);
    assert(preempt_all(s1.0, s1.1, g.drop_first(), idle_ip, idle_sp) == preempt_all(
        s2.0,
        s2.1,
        g.drop_first().drop_first(),
        idle_ip,
        idle_sp,
    ));
    assert(preempt_all(None, q, g, idle_ip, idle_sp) == preempt_all(s1.0, s1.1, g.drop_first(), idle_ip, idle_sp));
    let f1 = f.drop_first();
    let f2 = f1.drop_first();
    let f3 = f2.drop_first();
    assert(f1[0] == f[1] && f2[0] == f[2] && f3[0] == f[3]);
    assert(preempt_all(s3.0, s3.1, f3, idle_ip, idle_sp) == s4);
    assert(preempt_all(s2.0, s2.1, f2, idle_ip, idle_sp) == preempt_all(s3.0, s3.1, f3, idle_ip, idle_sp));
    assert(preempt_all(s1.0, s1.1, f1, idle_ip, idle_sp) == preempt_all(s2.0, s2.1, f2, idle_ip, idle_sp));
    assert(preempt_all(None, q, f, idle_ip, idle_sp) == preempt_all(s1.0, s1.1, f1, idle_ip, idle_sp));
}

/// A task queued behind `ahead` resumes after one more preemption than there
/// are tasks ahead of it, with the context it was queued with.
pub proof fn lemma_resume_queued(
    running: Option<Task>,
    ahead: Seq<Task>,
    t: Task,
    behind: Seq<Task>,
    frames: Seq<Frame>,
    idle_ip: u64,
    idle_sp: u64,
)
    requires
        frames.len() == ahead.len() + 1,
    ensures
        preempt_all(running, ahead.push(t) + behind, frames, idle_ip, idle_sp).0 == Some(t),
        preempt_all(running, ahead.push(t) + behind, frames, idle_ip, idle_sp).2 == (t.isf, t.regs),
    decreases ahead.len(),
{
    let queue = ahead.push(t) + behind;
    let s = preempt(running, queue, frames[0], idle_ip, idle_sp);
    let saved = match running {
        Some(x) => Some(snapshot(x, frames[0])),
        None => None,
    };
    let q = match saved {
        Some(x) => queue.push(x),
        None => queue,
    };
    assert(q[0] == queue[0]);
    if ahead.len() > 0 {
        let behind2 = match saved {
            Some(x) => behind.push(x),
            None => behind,
        };
        assert(s.1 =~= ahead.drop_first().push(t) + behind2);
        lemma_resume_queued(s.0, ahead.drop_first(), t, behind2, frames.drop_first(), idle_ip, idle_sp);
    }
}

/// Context preservation: a task preempted with context `f` is resumed,
/// once every task queued before it has had its turn, with exactly `f`.
pub proof fn lemma_context_preserved(
    t: Task,
    queue: Seq<Task>,
    frames: Seq<Frame>,
    idle_ip: u64,
    idle_sp: u64,
)
    requires
        frames.len() == queue.len() + 1,
    ensures
        preempt_all(Some(t), queue, frames, idle_ip, idle_sp).0 == Some(snapshot(t, frames[0])),
        preempt_all(Some(t), queue, frames, idle_ip, idle_sp).2 == frames[0],
{
    let f = frames[0];
    let snap = snapshot(t, f);
    let s = preempt(Some(t), queue, f, idle_ip, idle_sp);
    if queue.len() > 0 {
        assert(s.1 =~= queue.drop_first().push(snap) + Seq::<Task>::empty());
        lemma_resume_queued(
            s.0,
            queue.drop_first(),
            snap,
            Seq::<Task>::empty(),
            frames.drop_first(),
            idle_ip,
            idle_sp,
        );
    }
}

/// Bytes of the idle stack.
pub const IDLE_STACK_SIZE: usize = 0x1000;

impl Scheduler {
    pub closed spec fn running(&self) -> Option<Task> {
        self.task
    }

    pub closed spec fn enabled_spec(&self) -> bool {
        self.enabled
    }

    pub closed spec fn idle_sp(&self) -> u64 {
        self.idle_stack_top
    }

    /// A disabled scheduler with no running task, idling on a one-page
    /// stack taken from the kernel allocator; `AllocError` when no frame can
    /// be had or the stack's top would not fit the address range.
    pub fn new(pmm: &mut PhysicalMemoryManager, hhdm: &HigherHalfDirectMap) -> (r: Result<
        Scheduler,
        AllocError,
    >)
        requires
            old(pmm).wf(),
        ensures
            final(pmm).wf(),
            final(pmm).frames() == old(pmm).frames(),
            (forall|i: int| !#[trigger] is_candidate(old(pmm).bits(), i, 1, 1)) ==> r is Err,
            r is Err ==> final(pmm).bits() == old(pmm).bits(),
            forall|i: int|
                #![trigger is_candidate(old(pmm).bits(), i, 1, 1)]
                first_candidate(old(pmm).bits(), i, 1) && 0 < i && hhdm.base() + i * 4096 + 4096
                    <= u64::MAX && hhdm.base() + i * 4096 <= usize::MAX ==> r is Ok,
            r matches Ok(sched) ==> {
                let base = sched.idle_sp() - IDLE_STACK_SIZE;
                let index = (base - hhdm.base()) / 4096;
                &&& !sched.enabled_spec()
                &&& sched.running() is None
                &&& base > hhdm.base()
                &&& first_candidate(old(pmm).bits(), index, 1)
                &&& final(pmm).bits() == fill_spec(old(pmm).bits(), index, 1)
            },
    {
        let layout = Layout { size: IDLE_STACK_SIZE, align: 16 };
        assert(frames_for(IDLE_STACK_SIZE) == 1);
        let (ptr, _len) = match KernelAllocator.allocate(pmm, hhdm, layout) {
            Ok(a) => a,
            Err(e) => return Err(e),
        };
        if ptr as u64 > u64::MAX - IDLE_STACK_SIZE as u64 {
            let physical = hhdm.negative_offset(ptr);
            proof {
                let k = (ptr - hhdm.base()) / 4096;
                assert(physical as int / 4096 == k);
                assert(pmm.bits() == fill_spec(old(pmm).bits(), k, 1));
                assert(!old(pmm).bits()[k]);
                old(pmm).lemma_bounds();
                assert(k < old(pmm).frames());
            }
            let _ = pmm.free_frame(physical);
            proof {
                assert(pmm.bits() =~= old(pmm).bits());
            }
            return Err(AllocError);
        }
        Ok(Scheduler { enabled: false, idle_stack_top: ptr as u64 + IDLE_STACK_SIZE as u64, task: None })
    }

    /// Enables the scheduler to pop tasks.
    pub fn enable(&mut self)
        ensures
            final(self).enabled_spec(),
            final(self).running() == old(self).running(),
            final(self).idle_sp() == old(self).idle_sp(),
    {
        self.enabled = true;
    }

    /// Stops the scheduler from popping tasks; a switch already under way is
    /// not cancelled.
    pub fn disable(&mut self)
        ensures
            !final(self).enabled_spec(),
            final(self).running() == old(self).running(),
            final(self).idle_sp() == old(self).idle_sp(),
    {
        self.enabled = false;
    }

    pub fn is_enabled(&self) -> (r: bool)
        ensures
            r == self.enabled_spec(),
    {
        self.enabled
    }

    /// The task that runs now, if any.
    pub fn process(&self) -> (r: Option<Task>)
        ensures
            r == self.running(),
    {
        self.task
    }

    /// Takes the front of the queue as the running task and resumes it, or
    /// resumes the idle loop when the queue is empty.
    fn next_task(
        &mut self,
        processes: &mut VecDeque<Task>,
        isf: &mut InterruptStackFrame,
        regs: &mut Registers,
        current_root: usize,
        idle_ip: u64,
    ) -> (r: Switch)
        requires
            old(self).running() is None,
        ensures
            final(self).idle_sp() == old(self).idle_sp(),
            final(self).enabled_spec() == old(self).enabled_spec(),
            (final(self).running(), final(processes)@) == rotate(None, old(processes)@),
            (*final(isf), *final(regs)) == resumed_frame(
                final(self).running(),
                (*old(isf), *old(regs)),
                idle_ip,
                old(self).idle_sp(),
            ),
            r.preemption_wait_ms == PREEMPTION_WAIT_MS,
            r.load_root == match final(self).running() {
                Some(t) => if t.address_space_root != current_root {
                    Some(t.address_space_root)
                } else {
                    None::<usize>
                },
                None => None::<usize>,
            },
    {
        match processes.pop_front() {
            Some(next) => {
                *isf = next.isf;
                *regs = next.regs;
                let load_root = if next.address_space_root != current_root {
                    Some(next.address_space_root)
                } else {
                    None
                };
                self.task = Some(next);
                Switch { load_root, preemption_wait_ms: PREEMPTION_WAIT_MS }
            },
            None => {
                isf.instruction_pointer = idle_ip;
                isf.stack_pointer = self.idle_stack_top;
                *regs = Registers::empty();
                Switch { load_root: None, preemption_wait_ms: PREEMPTION_WAIT_MS }
            },
        }
    }

    /// Timer preemption: the running task, if any, is saved with the
    /// interrupted context and goes to the back of the queue; the front of
    /// the queue (or the idle loop) is resumed.
    pub fn interrupt_task(
        &mut self,
        processes: &mut VecDeque<Task>,
        isf: &mut InterruptStackFrame,
        regs: &mut Registers,
        current_root: usize,
        idle_ip: u64,
    ) -> (r: Switch)
        ensures
            final(self).idle_sp() == old(self).idle_sp(),
            final(self).enabled_spec() == old(self).enabled_spec(),
            (final(self).running(), final(processes)@, (*final(isf), *final(regs))) == preempt(
                old(self).running(),
                old(processes)@,
                (*old(isf), *old(regs)),
                idle_ip,
                old(self).idle_sp(),
            ),
            r.preemption_wait_ms == PREEMPTION_WAIT_MS,
            r.load_root == match final(self).running() {
                Some(t) => if t.address_space_root != current_root {
                    Some(t.address_space_root)
                } else {
                    None::<usize>
                },
                None => None::<usize>,
            },
    {
        let ghost q0 = processes@;
        let ghost f0 = (*isf, *regs);
        let current = self.task;
        self.task = None;
        if let Some(t) = current {
            let mut saved = t;
            saved.isf = *isf;
            saved.regs = *regs;
            assert(saved == snapshot(t, f0));
            processes.push_back(saved);
        }
        proof {
            let saved = match current {
                Some(t) => Some(snapshot(t, f0)),
                None => None,
            };
            assert(rotate(saved, q0) == rotate(None, processes@));
        }
        self.next_task(processes, isf, regs, current_root, idle_ip)
    }

    /// Voluntary yield: as [`Self::interrupt_task`], for a running task.
    pub fn yield_task(
        &mut self,
        processes: &mut VecDeque<Task>,
        isf: &mut InterruptStackFrame,
        regs: &mut Registers,
        current_root: usize,
        idle_ip: u64,
    ) -> (r: Switch)
        requires
            old(self).running() is Some,
        ensures
            final(self).idle_sp() == old(self).idle_sp(),
            final(self).enabled_spec() == old(self).enabled_spec(),
            (final(self).running(), final(processes)@, (*final(isf), *final(regs))) == preempt(
                old(self).running(),
                old(processes)@,
                (*old(isf), *old(regs)),
                idle_ip,
                old(self).idle_sp(),
            ),
            r.preemption_wait_ms == PREEMPTION_WAIT_MS,
            r.load_root == match final(self).running() {
                Some(t) => if t.address_space_root != current_root {
                    Some(t.address_space_root)
                } else {
                    None::<usize>
                },
                None => None::<usize>,
            },
    {
        self.interrupt_task(processes, isf, regs, current_root, idle_ip)
    }

    /// Task exit: the running task is dropped and the next one is resumed.
    pub fn kill_task(
        &mut self,
        processes: &mut VecDeque<Task>,
        isf: &mut InterruptStackFrame,
        regs: &mut Registers,
        current_root: usize,
        idle_ip: u64,
    ) -> (r: Switch)
        requires
            old(self).running() is Some,
        ensures
            final(self).idle_sp() == old(self).idle_sp(),
            final(self).enabled_spec() == old(self).enabled_spec(),
            (final(self).running(), final(processes)@) == rotate(None, old(processes)@),
            (*final(isf), *final(regs)) == resumed_frame(
                final(self).running(),
                (*old(isf), *old(regs)),
                idle_ip,
                old(self).idle_sp(),
            ),
            r.preemption_wait_ms == PREEMPTION_WAIT_MS,
            r.load_root == match final(self).running() {
                Some(t) => if t.address_space_root != current_root {
                    Some(t.address_space_root)
                } else {
                    None::<usize>
                },
                None => None::<usize>,
            },
    {
        self.task = None;
        self.next_task(processes, isf, regs, current_root, idle_ip)
    }
}

} // verus!
