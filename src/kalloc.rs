//! The kernel allocator: each request takes whole frames from the frame
//! manager and hands them out through the higher-half direct map.
use vstd::prelude::*;
use crate::hhdm::HigherHalfDirectMap;
use crate::pmm::{PhysicalMemoryManager, fill_spec, is_candidate, stride_spec, window_free};
use crate::PAGE_SIZE;

verus! {

/// Size and alignment of a request, in bytes.
#[derive(Debug, Clone, Copy, PartialEq, Eq, Structural)]
pub struct Layout {
    pub size: usize,
    pub align: usize,
}

/// The request could not be met.
#[derive(Debug, Clone, Copy, PartialEq, Eq, Structural)]
pub struct AllocError;

/// Frames that a request of `size` bytes takes.
pub open spec fn frames_for(size: usize) -> int {
    (size + PAGE_SIZE - 1) / PAGE_SIZE as int
}

/// `i` starts the lowest window of `n` clear bits.
pub open spec fn first_candidate(s: Seq<bool>, i: int, n: int) -> bool {
    &&& is_candidate(s, i, n, 1)
    &&& forall|j: int| 0 <= j < i ==> !#[trigger] is_candidate(s, j, n, 1)
}

/// `s` with the bits of `[start, start + count)` cleared.
pub open spec fn clear_spec(s: Seq<bool>, start: int, count: int) -> Seq<bool> {
    Seq::new(s.len(), |j: int| if start <= j < start + count { false } else { s[j] })
}

/// Every bit of `[start, start + count)` is set.
pub open spec fn all_locked(s: Seq<bool>, start: int, count: int) -> bool {
    forall|j: int| start <= j < start + count ==> s[j]
}

/// Frees the `count` locked frames from index `first`.
fn release(pmm: &mut PhysicalMemoryManager, first: usize, count: usize)
    requires
        old(pmm).wf(),
        first + count <= old(pmm).frames(),
        all_locked(old(pmm).bits(), first as int, count as int),
    ensures
        final(pmm).wf(),
        final(pmm).frames() == old(pmm).frames(),
        final(pmm).bits() == clear_spec(old(pmm).bits(), first as int, count as int),
{
    let ghost b0 = pmm.bits();
    proof {
        pmm.lemma_bounds();
    }
    let mut k: usize = 0;
    while k < count
        invariant
            pmm.wf(),
            pmm.frames() == old(pmm).frames(),
            b0 == old(pmm).bits(),
            first + count <= pmm.frames(),
            pmm.frames() <= b0.len(),
            pmm.frames() * PAGE_SIZE <= usize::MAX,
            all_locked(b0, first as int, count as int),
            k <= count,
            pmm.bits() == clear_spec(b0, first as int, k as int),
        decreases count - k,
    {
        let address = (first + k) * PAGE_SIZE;
        assert((first + k) * PAGE_SIZE <= pmm.frames() * PAGE_SIZE) by (nonlinear_arith)
            requires first + k <= pmm.frames();
        assert(address / PAGE_SIZE == first + k) by (nonlinear_arith)
            requires address == (first + k) * 4096;
        let ghost before = pmm.bits();
        assert(before[first + k] == b0[first + k]);
        assert(b0[first + k]);
        let _ = pmm.free_frame(address);
        assert(pmm.bits() =~= clear_spec(b0, first as int, k + 1));
        k = k + 1;
    }
}

/// A frame-granular allocator over the frame manager.
pub struct KernelAllocator;

impl KernelAllocator {
    /// Takes `ceil(size / page)` consecutive frames and returns their
    /// address in the direct map, with the layout's size.
    pub fn allocate(
        &self,
        pmm: &mut PhysicalMemoryManager,
        hhdm: &HigherHalfDirectMap,
        layout: Layout,
    ) -> (r: Result<(usize, usize), AllocError>)
        requires
            old(pmm).wf(),
            layout.align <= PAGE_SIZE,
            layout.size > 0,
        ensures
            final(pmm).wf(),
            final(pmm).frames() == old(pmm).frames(),
            r is Err ==> final(pmm).bits() == old(pmm).bits(),
            (forall|i: int| !#[trigger] is_candidate(old(pmm).bits(), i, frames_for(layout.size), 1))
                ==> r is Err && final(pmm).bits() == old(pmm).bits(),
            forall|i: int|
                #![trigger is_candidate(old(pmm).bits(), i, frames_for(layout.size), 1)]
                first_candidate(old(pmm).bits(), i, frames_for(layout.size)) && 0 < i
                    && hhdm.base() + i * PAGE_SIZE <= usize::MAX ==> r is Ok,
            r matches Ok((ptr, len)) ==> {
                let index = (ptr - hhdm.base()) / PAGE_SIZE as int;
                &&& len == layout.size
                &&& ptr > hhdm.base()
                &&& (ptr - hhdm.base()) % PAGE_SIZE as int == 0
                &&& window_free(old(pmm).bits(), index, frames_for(layout.size))
                &&& first_candidate(old(pmm).bits(), index, frames_for(layout.size))
                &&& final(pmm).bits() == fill_spec(old(pmm).bits(), index, frames_for(layout.size))
                &&& final(pmm).locked_count() == old(pmm).locked_count() + frames_for(layout.size)
            },
    {
        let count = layout.size / PAGE_SIZE + if layout.size % PAGE_SIZE == 0 {
            0
        } else {
            1
        };
        assert(count == frames_for(layout.size)) by (nonlinear_arith)
            requires
                count == layout.size / 4096 + if layout.size % 4096 == 0 {
                    0int
                } else {
                    1
                },
        ;
        let ghost b0 = pmm.bits();
        let ghost n = count as int;
        assert(stride_spec(None) == 1);
        let frame = if count == 1 {
            match pmm.next_frame() {
                Ok(f) => {
                    proof {
                        let k = f as int / 4096;
                        assert(fill_spec(b0, k, 1) =~= b0.update(k, true));
                        assert(is_candidate(b0, k, 1, 1));
                        assert forall|j: int| 0 <= j < k implies !#[trigger] is_candidate(b0, j, 1, 1) by {
                            assert(b0[j]);
                        }
                        assert forall|i: int|
                            #![trigger is_candidate(b0, i, 1, 1)]
                            first_candidate(b0, i, 1) implies i == k by {
                            if i < k {
                            } else if i > k {
                                assert(!is_candidate(b0, k, 1, 1));
                            }
                        }
                    }
                    f
                },
                Err(_) => {
                    proof {
                        assert forall|i: int| !#[trigger] is_candidate(b0, i, 1, 1) by {
                            if is_candidate(b0, i, 1, 1) {
                                assert(!b0[i]);
                            }
                        }
                    }
                    return Err(AllocError);
                },
            }
        } else {
            match pmm.next_frames(count, None) {
                Ok(f) => {
                    proof {
                        let k = f as int / 4096;
                        assert(!b0[k]);
                        assert forall|i: int|
                            #![trigger is_candidate(b0, i, n, 1)]
                            first_candidate(b0, i, n) implies i == k by {
                            if i < k {
                            } else if i > k {
                                assert(!is_candidate(b0, k, n, 1));
                            }
                        }
                    }
                    f
                },
                Err(_) => {
                    return Err(AllocError);
                },
            }
        };
        proof {
            let k = frame as int / 4096;
            assert(frame as int == k * 4096) by (nonlinear_arith)
                requires frame % 4096 == 0, k == frame as int / 4096;
        }
        let ok = match hhdm.physical_to_virtual(frame) {
            Some(ptr) => ptr > hhdm.base_address(),
            None => false,
        };
        if !ok {
            proof {
                pmm.lemma_bounds();
                let k = frame as int / 4096;
                assert(window_free(b0, k, n));
                assert forall|j: int| k <= j < k + n implies pmm.bits()[j] by {
                    assert(pmm.bits()[j] == fill_spec(b0, k, n)[j]);
                }
                assert(k + n <= pmm.frames()) by {
                    assert(!b0[k + n - 1]);
                }
            }
            release(pmm, frame / PAGE_SIZE, count);
            proof {
                lemma_allocate_deallocate(b0, frame as int / 4096, n);
            }
            return Err(AllocError);
        }
        let ptr = hhdm.offset(frame);
        Ok((ptr, layout.size))
    }

    /// Gives back the frames of an allocation at `ptr` made with `layout`.
    /// A single-frame allocation ignores a frame manager refusal; a larger
    /// one stops at the first refusal.
    pub fn deallocate(
        &self,
        pmm: &mut PhysicalMemoryManager,
        hhdm: &HigherHalfDirectMap,
        ptr: usize,
        layout: Layout,
    ) -> (r: Result<(), AllocError>)
        requires
            old(pmm).wf(),
            layout.align <= PAGE_SIZE,
            ptr > hhdm.base(),
        ensures
            final(pmm).wf(),
            final(pmm).frames() == old(pmm).frames(),
            ({
                let index = (ptr - hhdm.base()) / PAGE_SIZE as int;
                let count = if layout.size <= PAGE_SIZE {
                    1
                } else {
                    frames_for(layout.size)
                };
                (index + count <= old(pmm).frames() && all_locked(old(pmm).bits(), index, count))
                    ==> (r is Ok
                    && final(pmm).bits() == clear_spec(old(pmm).bits(), index, count))
            }),
    {
        let physical = hhdm.negative_offset(ptr);
        let index = physical / PAGE_SIZE;
        let count = if layout.size <= PAGE_SIZE {
            1
        } else {
            layout.size / PAGE_SIZE + if layout.size % PAGE_SIZE == 0 {
                0
            } else {
                1
            }
        };
        assert(layout.size > PAGE_SIZE ==> count == frames_for(layout.size)) by (nonlinear_arith)
            requires
                layout.size > 4096 ==> count == layout.size / 4096 + if layout.size % 4096 == 0 {
                    0int
                } else {
                    1
                },
        ;
        assert(index * PAGE_SIZE <= physical) by (nonlinear_arith)
            requires index == physical / 4096;
        proof {
            pmm.lemma_bounds();
        }
        assert(index as int == (ptr - hhdm.base()) / PAGE_SIZE as int);
        assert(count as int == if layout.size <= PAGE_SIZE {
            1int
        } else {
            frames_for(layout.size)
        });
        let ghost b0 = pmm.bits();
        let ghost ok = (index + count <= pmm.frames() && all_locked(b0, index as int, count as int));
        let mut k: usize = 0;
        while k < count
            invariant
                pmm.wf(),
                pmm.frames() == old(pmm).frames(),
                b0 == old(pmm).bits(),
                index as int == (ptr - hhdm.base()) / PAGE_SIZE as int,
                count as int == if layout.size <= PAGE_SIZE {
                    1int
                } else {
                    frames_for(layout.size)
                },
                k <= count,
                index * PAGE_SIZE <= usize::MAX,
                ok == (index + count <= pmm.frames() && all_locked(b0, index as int, count as int)),
                ok ==> pmm.bits() == clear_spec(b0, index as int, k as int),
                pmm.frames() * PAGE_SIZE <= usize::MAX,
            decreases count - k,
        {
            if k > usize::MAX / PAGE_SIZE || index > usize::MAX / PAGE_SIZE - k {
                proof {
                    if ok {
                        assert((index + k) * 4096 <= pmm.frames() * 4096) by (nonlinear_arith)
                            requires index + k <= pmm.frames();
                        assert(false) by (nonlinear_arith)
                            requires
                                (index + k) * 4096 <= usize::MAX,
                                k > usize::MAX / 4096 || index > usize::MAX / 4096 - k;
                    }
                }
                return Err(AllocError);
            }
            let address = (index + k) * PAGE_SIZE;
            assert(address / PAGE_SIZE == index + k) by (nonlinear_arith)
                requires address == (index + k) * 4096;
            let ghost before = pmm.bits();
            proof {
                pmm.lemma_bounds();
            }
            match pmm.free_frame(address) {
                Ok(()) => {
                    proof {
                        if ok {
                            assert(before == clear_spec(b0, index as int, k as int));
                            assert(pmm.bits() =~= clear_spec(b0, index as int, k + 1));
                        }
                    }
                },
                Err(_) => {
                    proof {
                        if ok {
                            let i = index as int + k as int;
                            assert(all_locked(b0, index as int, count as int));
                            assert(index <= i < index + count);
                            assert(b0[i]);
                            assert(before == clear_spec(b0, index as int, k as int));
                            assert(before[i]);
                        }
                    }
                    if layout.size > PAGE_SIZE {
                        return Err(AllocError);
                    }
                },
            }
            k = k + 1;
        }
        Ok(())
    }
}

/// Allocator round trip: freeing the frames that an allocation locked
/// restores the frame table it started from.
pub proof fn lemma_allocate_deallocate(bits: Seq<bool>, index: int, count: int)
    requires
        window_free(bits, index, count),
    ensures
        clear_spec(fill_spec(bits, index, count), index, count) == bits,
{
    assert(clear_spec(fill_spec(bits, index, count), index, count) =~= bits);
}

} // verus!
