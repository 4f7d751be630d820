//! The task state segment: the stacks that privilege changes and the
//! fault classes with stacks of their own switch to.
use vstd::prelude::*;
use crate::hhdm::HigherHalfDirectMap;
use crate::kalloc::{AllocError, KernelAllocator, Layout, first_candidate, frames_for};
use crate::pmm::{PhysicalMemoryManager, fill_spec};

verus! {

/// Slots of the interrupt stack table, one per fault class with a stack of
/// its own.
#[derive(Debug, Clone, Copy, PartialEq, Eq, Structural)]
pub enum InterruptStackTableIndex {
    Debug,
    NonMaskableInterrupt,
    DoubleFault,
    MachineCheck,
}

pub open spec fn ist_index(i: InterruptStackTableIndex) -> usize {
    match i {
        InterruptStackTableIndex::Debug => 0,
        InterruptStackTableIndex::NonMaskableInterrupt => 1,
        InterruptStackTableIndex::DoubleFault => 2,
        InterruptStackTableIndex::MachineCheck => 3,
    }
}

impl InterruptStackTableIndex {
    /// The zero-based slot; the IDT stores it plus one.
    pub fn slot(self) -> (r: usize)
        ensures
            r == ist_index(self),
    {
        match self {
            InterruptStackTableIndex::Debug => 0,
            InterruptStackTableIndex::NonMaskableInterrupt => 1,
            InterruptStackTableIndex::DoubleFault => 2,
            InterruptStackTableIndex::MachineCheck => 3,
        }
    }
}

/// A stack: `size` bytes from `base`, growing down from its top.
#[derive(Debug, Clone, Copy, PartialEq, Eq, Structural)]
pub struct Stack {
    pub base: u64,
    pub size: u64,
}

impl Stack {
    /// The address just past the stack's last byte, where it starts.
    pub fn top(&self) -> (r: u64)
        requires
            self.base + self.size <= u64::MAX,
        ensures
            r == self.base + self.size,
    {
        self.base + self.size
    }
}

/// The stacks of one hardware thread's task state segment.
#[derive(Debug, Clone, Copy)]
pub struct TaskStateSegment {
    pub privilege_stack_table: [u64; 3],
    pub interrupt_stack_table: [u64; 7],
    pub iomap_base: u16,
}

/// Size of the segment in bytes; an I/O map base at the end means no map.
pub const TSS_SIZE: u16 = 104;

impl TaskStateSegment {
    /// A segment with `privilege_stack` for entry into ring 0 and one stack
    /// for each class of `ist` (debug, NMI, double fault, machine check), in
    /// slot order; the other slots are empty and there is no I/O map.
    pub fn new(privilege_stack: Stack, ist: [Stack; 4]) -> (r: TaskStateSegment)
        requires
            privilege_stack.base + privilege_stack.size <= u64::MAX,
            forall|i: int| 0 <= i < 4 ==> ist[i].base + ist[i].size <= u64::MAX,
        ensures
            r.privilege_stack_table[0] == privilege_stack.base + privilege_stack.size,
            r.privilege_stack_table[1] == 0,
            r.privilege_stack_table[2] == 0,
            forall|i: int| 0 <= i < 4 ==> r.interrupt_stack_table[i] == ist[i].base + ist[i].size,
            forall|i: int| 4 <= i < 7 ==> r.interrupt_stack_table[i] == 0,
            r.iomap_base == TSS_SIZE,
    {
        let a = ist[0].top();
        let b = ist[1].top();
        let c = ist[2].top();
        let d = ist[3].top();
        let r = TaskStateSegment {
            privilege_stack_table: [privilege_stack.top(), 0, 0],
            interrupt_stack_table: [a, b, c, d, 0, 0, 0],
            iomap_base: TSS_SIZE,
        };
        assert(r.interrupt_stack_table[4] == 0 && r.interrupt_stack_table[5] == 0
            && r.interrupt_stack_table[6] == 0);
        r
    }
}

/// The operand of `lgdt` and `lidt`: the table's last byte offset and its
/// address.
#[derive(Debug, Clone, Copy, PartialEq, Eq, Structural)]
pub struct DescriptorTablePointer {
    pub limit: u16,
    pub base: u64,
}

impl DescriptorTablePointer {
    /// The pointer to a table of `bytes` bytes at `base`.
    pub fn new(base: u64, bytes: u16) -> (r: DescriptorTablePointer)
        requires
            bytes > 0,
        ensures
            r.limit == bytes - 1,
            r.base == base,
    {
        DescriptorTablePointer { limit: bytes - 1, base }
    }
}

/// Bytes of each stack that a task state segment points to.
pub const STACK_SIZE: usize = 0x10000;

/// The `n` frames from `first` are all locked.
pub open spec fn locked_window(bits: Seq<bool>, first: int, n: int) -> bool {
    &&& 0 <= first
    &&& first + n <= bits.len()
    &&& forall|t: int| first <= t < first + n ==> bits[t]
}

/// Index of the first frame of `s` in the direct map at `base`.
pub open spec fn first_frame(s: Stack, base: nat) -> int {
    (s.base - base) / 4096
}

/// The stacks of `v` occupy pairwise disjoint frames.
pub open spec fn disjoint_stacks(v: Seq<Stack>, base: nat) -> bool {
    forall|i: int, j: int|
        0 <= i < v.len() && 0 <= j < v.len() && i != j ==> first_frame(#[trigger] v[i], base)
            + frames_for(STACK_SIZE) <= first_frame(#[trigger] v[j], base) || first_frame(v[j], base)
            + frames_for(STACK_SIZE) <= first_frame(v[i], base)
}

/// The frames that `k` successive stack allocations take from `bits`:
/// each the lowest free window, locked before the next is sought. `None`
/// when one of them finds no window.
pub open spec fn stack_plan(bits: Seq<bool>, k: nat) -> Option<(Seq<int>, Seq<bool>)>
    decreases k,
{
    if k == 0 {
        Some((Seq::<int>::empty(), bits))
    } else {
        match stack_plan(bits, (k - 1) as nat) {
            None => None,
            Some((s, b)) => if exists|i: int| first_candidate(b, i, frames_for(STACK_SIZE)) {
                let i = choose|i: int| first_candidate(b, i, frames_for(STACK_SIZE));
                Some((s.push(i), fill_spec(b, i, frames_for(STACK_SIZE))))
            } else {
                None
            },
        }
    }
}

/// The plan fits: every window starts past frame 0 and its stack's top
/// stays inside the address range.
pub open spec fn plan_fits(s: Seq<int>, base: nat) -> bool {
    forall|t: int|
        0 <= t < s.len() ==> 0 < #[trigger] s[t] && base + s[t] * 4096 + STACK_SIZE <= u64::MAX
            && base + s[t] * 4096 <= usize::MAX
}

proof fn lemma_first_unique(b: Seq<bool>, i: int, j: int, n: int)
    requires
        first_candidate(b, i, n),
        first_candidate(b, j, n),
    ensures
        i == j,
{
    if i < j {
        assert(!crate::pmm::is_candidate(b, i, n, 1));
    } else if j < i {
        assert(!crate::pmm::is_candidate(b, j, n, 1));
    }
}

proof fn lemma_plan_prefix(bits: Seq<bool>, m: nat, k: nat)
    requires
        k <= m,
        stack_plan(bits, m) is Some,
    ensures
        stack_plan(bits, k) is Some,
        stack_plan(bits, k).unwrap().0 == stack_plan(bits, m).unwrap().0.subrange(0, k as int),
        stack_plan(bits, m).unwrap().0.len() == m,
    decreases m,
{
    if m > 0 {
        lemma_plan_prefix(bits, (m - 1) as nat, if k < m { k } else { (m - 1) as nat });
        let (s, b) = stack_plan(bits, (m - 1) as nat).unwrap();
        assert(stack_plan(bits, m).unwrap().0.subrange(0, m - 1) =~= s);
        if k < m {
            assert(stack_plan(bits, m).unwrap().0.subrange(0, k as int) =~= s.subrange(0, k as int));
        } else {
            assert(stack_plan(bits, m).unwrap().0.subrange(0, k as int) =~= stack_plan(bits, m).unwrap().0);
        }
    }
}

/// Takes the five stacks of a task state segment (ring 0, debug, NMI,
/// double fault, machine check) from the kernel allocator: each of
/// [`STACK_SIZE`] bytes, in frames that no other of them uses.
pub fn allocate_stacks(pmm: &mut PhysicalMemoryManager, hhdm: &HigherHalfDirectMap) -> (r: Result<
    Vec<Stack>,
    AllocError,
>)
    requires
        old(pmm).wf(),
    ensures
        final(pmm).wf(),
        final(pmm).frames() == old(pmm).frames(),
        r matches Ok(v) ==> {
            &&& v@.len() == 5
            &&& forall|i: int| 0 <= i < 5 ==> (#[trigger] v@[i]).size == STACK_SIZE && v@[i].base
                > hhdm.base() && v@[i].base + v@[i].size <= u64::MAX
            &&& disjoint_stacks(v@, hhdm.base())
            &&& stack_plan(old(pmm).bits(), 5) is Some
            &&& final(pmm).bits() == stack_plan(old(pmm).bits(), 5).unwrap().1
            &&& forall|t: int|
                0 <= t < 5 ==> first_frame(#[trigger] v@[t], hhdm.base()) == stack_plan(
                    old(pmm).bits(),
                    5,
                ).unwrap().0[t]
        },
        (stack_plan(old(pmm).bits(), 5) matches Some((s, _)) && plan_fits(s, hhdm.base())) ==> r is Ok,
{
    let ghost n = frames_for(STACK_SIZE);
    let mut v: Vec<Stack> = Vec::new();
    let mut k: usize = 0;
    while k < 5
        invariant
            pmm.wf(),
            pmm.frames() == old(pmm).frames(),
            n == frames_for(STACK_SIZE),
            k <= 5,
            v@.len() == k,
            forall|i: int| 0 <= i < k ==> (#[trigger] v@[i]).size == STACK_SIZE && v@[i].base
                > hhdm.base() && v@[i].base + v@[i].size <= u64::MAX,
            forall|i: int|
                0 <= i < k ==> locked_window(pmm.bits(), first_frame(#[trigger] v@[i], hhdm.base()), n),
            disjoint_stacks(v@, hhdm.base()),
            stack_plan(old(pmm).bits(), k as nat) is Some,
            stack_plan(old(pmm).bits(), k as nat).unwrap().1 == pmm.bits(),
            stack_plan(old(pmm).bits(), k as nat).unwrap().0.len() == k,
            forall|t: int|
                0 <= t < k ==> first_frame(#[trigger] v@[t], hhdm.base()) == stack_plan(
                    old(pmm).bits(),
                    k as nat,
                ).unwrap().0[t],
        decreases 5 - k,
    {
        let ghost before = pmm.bits();
        let ghost owed = (stack_plan(old(pmm).bits(), 5) matches Some((s, _)) && plan_fits(s, hhdm.base()));
        proof {
            if owed {
                lemma_plan_prefix(old(pmm).bits(), 5, (k + 1) as nat);
                lemma_plan_prefix(old(pmm).bits(), 5, k as nat);
                let s5 = stack_plan(old(pmm).bits(), 5).unwrap().0;
                let i = s5[k as int];
                assert(stack_plan(old(pmm).bits(), (k + 1) as nat).unwrap().0 == s5.subrange(0, k + 1));
                assert(stack_plan(old(pmm).bits(), (k + 1) as nat).unwrap().0[k as int] == i);
                assert(first_candidate(before, i, n));
                assert(0 < i && hhdm.base() + i * 4096 <= usize::MAX);
            }
        }
        let (ptr, _len) = match KernelAllocator.allocate(pmm, hhdm, Layout { size: STACK_SIZE, align: 16 }) {
            Ok(a) => a,
            Err(e) => return Err(e),
        };
        proof {
            let index = (ptr - hhdm.base()) / 4096;
            if owed {
                let s5 = stack_plan(old(pmm).bits(), 5).unwrap().0;
                lemma_first_unique(before, index, s5[k as int], n);
                assert(ptr == hhdm.base() + index * 4096);
            }
        }
        if ptr as u64 > u64::MAX - STACK_SIZE as u64 {
            return Err(AllocError);
        }
        let s = Stack { base: ptr as u64, size: STACK_SIZE as u64 };
        proof {
            let idx = first_frame(s, hhdm.base());
            assert forall|i: int| 0 <= i < k implies first_frame(#[trigger] v@[i], hhdm.base()) + n
                <= idx || idx + n <= first_frame(v@[i], hhdm.base()) by {
                let fi = first_frame(v@[i], hhdm.base());
                if !(fi + n <= idx || idx + n <= fi) {
                    let t = if fi <= idx {
                        idx
                    } else {
                        fi
                    };
                    assert(locked_window(before, fi, n));
                    assert(before[t]);
                    assert(!before[t]);
                }
            }
        }
        let ghost old_v = v@;
        v.push(s);
        proof {
            let idx0 = first_frame(s, hhdm.base());
            let (sk, bk) = stack_plan(old(pmm).bits(), k as nat).unwrap();
            assert(first_candidate(bk, idx0, n));
            let ch = choose|i: int| first_candidate(bk, i, frames_for(STACK_SIZE));
            lemma_first_unique(bk, ch, idx0, n);
            assert(stack_plan(old(pmm).bits(), (k + 1) as nat) == Some((sk.push(idx0), fill_spec(bk, idx0, n))));
            assert forall|t: int| 0 <= t < k + 1 implies first_frame(#[trigger] v@[t], hhdm.base())
                == stack_plan(old(pmm).bits(), (k + 1) as nat).unwrap().0[t] by {
                if t < k {
                    assert(v@[t] == old_v[t]);
                }
            }
            let idx = first_frame(s, hhdm.base());
            assert(pmm.bits() == fill_spec(before, idx, n));
            assert forall|i: int| 0 <= i < k + 1 implies locked_window(
                pmm.bits(),
                first_frame(#[trigger] v@[i], hhdm.base()),
                n,
            ) by {
                if i < k {
                    assert(v@[i] == old_v[i]);
                    assert(locked_window(before, first_frame(old_v[i], hhdm.base()), n));
                } else {
                    assert(v@[i] == s);
                }
            }
            assert forall|i: int, j: int|
                0 <= i < v@.len() && 0 <= j < v@.len() && i != j implies first_frame(
                    #[trigger] v@[i],
                    hhdm.base(),
                ) + frames_for(STACK_SIZE) <= first_frame(#[trigger] v@[j], hhdm.base()) || first_frame(
                    v@[j],
                    hhdm.base(),
                ) + frames_for(STACK_SIZE) <= first_frame(v@[i], hhdm.base()) by {
                if i < k && j < k {
                    assert(v@[i] == old_v[i] && v@[j] == old_v[j]);
                }
            }
        }
        k = k + 1;
    }
    Ok(v)
}

impl TaskStateSegment {
    /// A segment whose ring-0 stack and four fault-class stacks are freshly
    /// allocated, pairwise disjoint stacks, in that order.
    pub fn allocate(pmm: &mut PhysicalMemoryManager, hhdm: &HigherHalfDirectMap) -> (r: Result<
        (TaskStateSegment, Vec<Stack>),
        AllocError,
    >)
        requires
            old(pmm).wf(),
        ensures
            final(pmm).wf(),
            final(pmm).frames() == old(pmm).frames(),
            r matches Ok((tss, v)) ==> {
                &&& v@.len() == 5
                &&& disjoint_stacks(v@, hhdm.base())
                &&& forall|i: int| 0 <= i < 5 ==> (#[trigger] v@[i]).size == STACK_SIZE
                &&& tss.privilege_stack_table[0] == v@[0].base + v@[0].size
                &&& forall|i: int|
                    0 <= i < 4 ==> tss.interrupt_stack_table[i] == v@[i + 1].base + v@[i + 1].size
                &&& forall|i: int| 4 <= i < 7 ==> tss.interrupt_stack_table[i] == 0
                &&& stack_plan(old(pmm).bits(), 5) is Some
                &&& final(pmm).bits() == stack_plan(old(pmm).bits(), 5).unwrap().1
                &&& forall|t: int|
                    0 <= t < 5 ==> first_frame(#[trigger] v@[t], hhdm.base()) == stack_plan(
                        old(pmm).bits(),
                        5,
                    ).unwrap().0[t]
            },
            (stack_plan(old(pmm).bits(), 5) matches Some((s, _)) && plan_fits(s, hhdm.base())) ==> r is Ok,
    {
        let v = match allocate_stacks(pmm, hhdm) {
            Ok(v) => v,
            Err(e) => return Err(e),
        };
        let tss = TaskStateSegment::new(v[0], [v[1], v[2], v[3], v[4]]);
        Ok((tss, v))
    }
}

} // verus!
