//! Multiprocessing start-up: which bootloader-reclaimable memory may be
//! handed back once every hardware thread has said where its stack is.
use vstd::prelude::*;
use crate::pmm::{EntryType, Error, MemoryMapEntry, PhysicalMemoryManager};
use crate::PAGE_SIZE;

verus! {

/// Whether a stack pointer lies in `[start, end)`.
pub fn range_contains_stack(start: usize, end: usize, stack_address: usize) -> (r: bool)
    ensures
        r == (start <= stack_address < end),
{
    start <= stack_address && stack_address < end
}

/// Every bit of `[start, end)` is set.
pub open spec fn all_set(s: Seq<bool>, start: int, end: int) -> bool {
    forall|j: int| start <= j < end ==> s[j]
}

/// `s` with the bits of `[start, end)` cleared.
pub open spec fn cleared(s: Seq<bool>, start: int, end: int) -> Seq<bool> {
    Seq::new(s.len(), |j: int| if start <= j < end { false } else { s[j] })
}

/// Hands a bootloader-reclaimable entry `[start, end)` back to the frame
/// manager unless some hardware thread reported its stack inside it
/// (`in_use`). Stops at the first frame that cannot be freed.
pub fn reclaim_entry(pmm: &mut PhysicalMemoryManager, start: usize, end: usize, in_use: bool) -> (r:
    Result<(), Error>)
    requires
        old(pmm).wf(),
        start <= end,
    ensures
        final(pmm).wf(),
        final(pmm).frames() == old(pmm).frames(),
        in_use ==> r is Ok && final(pmm).bits() == old(pmm).bits(),
        final(pmm).bits().len() == old(pmm).bits().len(),
        forall|j: int| 0 <= j < old(pmm).bits().len() && !old(pmm).bits()[j] ==> !#[trigger] final(pmm).bits()[j],
        forall|j: int|
            0 <= j < old(pmm).bits().len() && !((start / PAGE_SIZE) as int <= j < (end / PAGE_SIZE) as int)
                ==> #[trigger] final(pmm).bits()[j] == old(pmm).bits()[j],
        r is Ok && !in_use ==> forall|j: int|
            (start / PAGE_SIZE) as int <= j < (end / PAGE_SIZE) as int ==> !#[trigger] final(pmm).bits()[j],
        !in_use && (end / PAGE_SIZE) as int <= old(pmm).frames() && all_set(
            old(pmm).bits(),
            (start / PAGE_SIZE) as int,
            (end / PAGE_SIZE) as int,
        ) ==> r is Ok
            && final(pmm).bits() == cleared(
            old(pmm).bits(),
            (start / PAGE_SIZE) as int,
            (end / PAGE_SIZE) as int,
        ),
{
    if in_use {
        return Ok(());
    }
    let first = start / PAGE_SIZE;
    let last = end / PAGE_SIZE;
    let ghost b0 = pmm.bits();
    let ghost ok = (last <= pmm.frames() && all_set(b0, first as int, last as int));
    proof {
        pmm.lemma_bounds();
    }
    let mut i: usize = first;
    while i < last
        invariant
            pmm.wf(),
            pmm.frames() == old(pmm).frames(),
            b0 == old(pmm).bits(),
            !in_use,
            first == start / PAGE_SIZE,
            last == end / PAGE_SIZE,
            first <= i <= last,
            last * PAGE_SIZE <= end,
            ok == (last <= pmm.frames() && all_set(b0, first as int, last as int)),
            ok ==> pmm.bits() == cleared(b0, first as int, i as int),
            pmm.bits().len() == b0.len(),
            forall|j: int| 0 <= j < b0.len() && !b0[j] ==> !#[trigger] pmm.bits()[j],
            forall|j: int| first <= j < i ==> !#[trigger] pmm.bits()[j],
            forall|j: int|
                0 <= j < b0.len() && !(first <= j < last) ==> #[trigger] pmm.bits()[j] == b0[j],
        decreases last - i,
    {
        assert(i * PAGE_SIZE < end) by (nonlinear_arith)
            requires i < last, last * 4096 <= end;
        let address = i * PAGE_SIZE;
        assert(address / PAGE_SIZE == i) by (nonlinear_arith)
            requires address == i * 4096;
        let ghost before = pmm.bits();
        proof {
            pmm.lemma_bounds();
            if ok {
                assert(all_set(b0, first as int, last as int));
                assert(b0[i as int]);
                assert(before == cleared(b0, first as int, i as int));
                assert(before[i as int]);
                assert(i < pmm.frames());
            }
        }
        match pmm.free_frame(address) {
            Ok(()) => {
                proof {
                    assert(pmm.bits() == before.update(i as int, false));
                }
                proof {
                    if ok {
                        assert(pmm.bits() =~= cleared(b0, first as int, i + 1));
                    }
                }
            },
            Err(e) => return Err(e),
        }
        i = i + 1;
    }
    proof {
        if ok {
            assert(first <= last);
        }
    }
    Ok(())
}

/// Entry `q` is reclaimable, not in use, and holds frame `j`.
pub open spec fn freed_by(map: Seq<MemoryMapEntry>, in_use: Seq<bool>, q: int, j: int) -> bool {
    &&& map[q].entry_type == EntryType::BootloaderReclaimable
    &&& !in_use[q]
    &&& (map[q].base / PAGE_SIZE) as int <= j < ((map[q].base + map[q].length) / PAGE_SIZE as int)
}

/// Frame `j` lies in one of the first `n` entries that are handed back.
pub open spec fn freed_before(map: Seq<MemoryMapEntry>, in_use: Seq<bool>, n: int, j: int) -> bool {
    exists|q: int| 0 <= q < n && #[trigger] freed_by(map, in_use, q, j)
}

/// Hands back every bootloader-reclaimable entry of the memory map that no
/// hardware thread reported its stack in (`in_use`, one flag per entry).
/// Every other frame, those of entries holding a stack included, keeps its
/// bit. It succeeds when every frame to hand back lies in bounds and is
/// locked; otherwise it stops at the first frame that cannot be freed.
pub fn reclaim_bootloader_memory(
    pmm: &mut PhysicalMemoryManager,
    map: &Vec<MemoryMapEntry>,
    in_use: &Vec<bool>,
) -> (r: Result<(), Error>)
    requires
        old(pmm).wf(),
        in_use@.len() == map@.len(),
        forall|k: int| 0 <= k < map@.len() ==> (#[trigger] map@[k]).base + map@[k].length <= usize::MAX,
        forall|j: int, k: int|
            0 <= j < k < map@.len() ==> (#[trigger] map@[j]).base + map@[j].length <= (
            #[trigger] map@[k]).base,
    ensures
        final(pmm).wf(),
        final(pmm).frames() == old(pmm).frames(),
        final(pmm).bits().len() == old(pmm).bits().len(),
        forall|j: int|
            0 <= j < old(pmm).bits().len() && !freed_before(map@, in_use@, map@.len() as int, j)
                ==> #[trigger] final(pmm).bits()[j] == old(pmm).bits()[j],
        r is Ok ==> forall|j: int|
            0 <= j < old(pmm).bits().len() && freed_before(map@, in_use@, map@.len() as int, j)
                ==> !#[trigger] final(pmm).bits()[j],
        (forall|q: int|
            0 <= q < map@.len() && (#[trigger] map@[q]).entry_type == EntryType::BootloaderReclaimable
                && !in_use@[q] ==> ((map@[q].base + map@[q].length) / PAGE_SIZE as int) <= old(
                pmm,
            ).frames() && all_set(
                old(pmm).bits(),
                (map@[q].base / PAGE_SIZE) as int,
                ((map@[q].base + map@[q].length) / PAGE_SIZE as int),
            )) ==> r is Ok,
{
    let ghost b0 = pmm.bits();
    let ghost owed = forall|q: int|
        0 <= q < map@.len() && (#[trigger] map@[q]).entry_type == EntryType::BootloaderReclaimable
            && !in_use@[q] ==> ((map@[q].base + map@[q].length) / PAGE_SIZE as int) <= pmm.frames()
            && all_set(
            b0,
            (map@[q].base / PAGE_SIZE) as int,
            ((map@[q].base + map@[q].length) / PAGE_SIZE as int),
        );
    let mut k: usize = 0;
    while k < map.len()
        invariant
            pmm.wf(),
            pmm.frames() == old(pmm).frames(),
            b0 == old(pmm).bits(),
            pmm.bits().len() == b0.len(),
            k <= map@.len(),
            in_use@.len() == map@.len(),
            owed == (forall|q: int|
                0 <= q < map@.len() && (#[trigger] map@[q]).entry_type
                    == EntryType::BootloaderReclaimable && !in_use@[q] ==> ((map@[q].base
                    + map@[q].length) / PAGE_SIZE as int) <= old(pmm).frames() && all_set(
                    b0,
                    (map@[q].base / PAGE_SIZE) as int,
                    ((map@[q].base + map@[q].length) / PAGE_SIZE as int),
                )),
            forall|q: int| 0 <= q < map@.len() ==> (#[trigger] map@[q]).base + map@[q].length <= usize::MAX,
            forall|i: int, q: int|
                0 <= i < q < map@.len() ==> (#[trigger] map@[i]).base + map@[i].length <= (
                #[trigger] map@[q]).base,
            forall|j: int|
                0 <= j < b0.len() && !freed_before(map@, in_use@, k as int, j) ==> #[trigger] pmm.bits()[j]
                    == b0[j],
            forall|j: int|
                0 <= j < b0.len() && freed_before(map@, in_use@, k as int, j) ==> !#[trigger] pmm.bits()[j],
        decreases map@.len() - k,
    {
        let e = map[k];
        assert(e == map@[k as int]);
        let ghost before = pmm.bits();
        let ghost lo = (e.base / PAGE_SIZE) as int;
        let ghost hi = (e.base + e.length) / PAGE_SIZE as int;
        if let EntryType::BootloaderReclaimable = e.entry_type {
            proof {
                if owed && !in_use@[k as int] {
                    assert(all_set(b0, lo, hi));
                    assert forall|j: int| lo <= j < hi implies before[j] by {
                        if freed_before(map@, in_use@, k as int, j) {
                            let q = choose|q: int| 0 <= q < k && #[trigger] freed_by(map@, in_use@, q, j);
                            assert(map@[q].base + map@[q].length <= map@[k as int].base);
                            assert((map@[q].base + map@[q].length) / PAGE_SIZE as int <= lo) by (nonlinear_arith)
                                requires
                                    map@[q].base + map@[q].length <= map@[k as int].base,
                                    lo == (map@[k as int].base / 4096) as int;
                        } else {
                            pmm.lemma_bounds();
                        }
                    }
                }
            }
            match reclaim_entry(pmm, e.base, e.base + e.length, in_use[k]) {
                Ok(()) => {},
                Err(err) => {
                    proof {
                        assert forall|j: int|
                            0 <= j < b0.len() && !freed_before(map@, in_use@, map@.len() as int, j)
                                implies #[trigger] pmm.bits()[j] == b0[j] by {
                            if !(lo <= j < hi) {
                            } else {
                                assert(freed_by(map@, in_use@, k as int, j));
                            }
                        }
                    }
                    return Err(err);
                },
            }
        }
        proof {
            assert forall|j: int|
                0 <= j < b0.len() && !freed_before(map@, in_use@, k + 1, j) implies #[trigger] pmm.bits()[j]
                == b0[j] by {
                if e.entry_type == EntryType::BootloaderReclaimable && !in_use@[k as int] && lo <= j < hi {
                    assert(freed_by(map@, in_use@, k as int, j));
                }
                if freed_before(map@, in_use@, k as int, j) {
                    let q = choose|q: int| 0 <= q < k && #[trigger] freed_by(map@, in_use@, q, j);
                    assert(freed_by(map@, in_use@, q, j) && 0 <= q < k + 1);
                }
            }
            assert forall|j: int|
                0 <= j < b0.len() && freed_before(map@, in_use@, k + 1, j) implies !#[trigger] pmm.bits()[j] by {
                let q = choose|q: int| 0 <= q < k + 1 && #[trigger] freed_by(map@, in_use@, q, j);
                if q < k {
                    assert(freed_before(map@, in_use@, k as int, j));
                    assert(!before[j]);
                }
            }
        }
        k = k + 1;
    }
    Ok(())
}

/// Where a secondary hardware thread is sent.
#[derive(Debug, Clone, Copy, PartialEq, Eq, Structural)]
pub enum ThreadEntry {
    /// The multiprocessing entry point.
    Start,
    /// An idle loop outside reclaimable memory.
    Idle,
}

/// The entry of each secondary thread.
pub open spec fn entry_for(use_multiprocessing: bool) -> ThreadEntry {
    if use_multiprocessing {
        ThreadEntry::Start
    } else {
        ThreadEntry::Idle
    }
}

/// What to do with the hardware threads the bootloader lists (`None` when
/// it gave no answer): the number of threads, and for each one but the
/// bootstrap thread, in list order, where to send it — the entry point with
/// multiprocessing on, an idle loop otherwise.
pub fn begin_multiprocessing(cpus: Option<Vec<u32>>, bsp_id: u32, use_multiprocessing: bool) -> (r:
    Option<(usize, Vec<(u32, ThreadEntry)>)>)
    ensures
        cpus is None <==> r is None,
        cpus matches Some(ids) ==> (r matches Some((count, plan)) && count == ids@.len() && plan@
            == ids@.filter(|id: u32| id != bsp_id).map_values(
            |id: u32| (id, entry_for(use_multiprocessing)),
        )),
{
    let ids = match cpus {
        Some(ids) => ids,
        None => return None,
    };
    let entry = if use_multiprocessing {
        ThreadEntry::Start
    } else {
        ThreadEntry::Idle
    };
    let mut plan: Vec<(u32, ThreadEntry)> = Vec::new();
    let mut i: usize = 0;
    while i < ids.len()
        invariant
            i <= ids@.len(),
            entry == entry_for(use_multiprocessing),
            plan@ == ids@.subrange(0, i as int).filter(|id: u32| id != bsp_id).map_values(
                |id: u32| (id, entry_for(use_multiprocessing)),
            ),
        decreases ids@.len() - i,
    {
        let id = ids[i];
        let ghost prev = ids@.subrange(0, i as int).filter(|id: u32| id != bsp_id);
        proof {
            let s = ids@.subrange(0, i + 1);
            assert(s.drop_last() =~= ids@.subrange(0, i as int));
            assert(s.last() == id);
            reveal(Seq::filter);
        }
        if id != bsp_id {
            plan.push((id, entry));
            proof {
                assert(ids@.subrange(0, i + 1).filter(|id: u32| id != bsp_id) == prev.push(id));
                assert(plan@ =~= prev.push(id).map_values(|id: u32| (id, entry_for(use_multiprocessing))));
            }
        }
        i = i + 1;
    }
    assert(ids@.subrange(0, ids@.len() as int) =~= ids@);
    Some((ids.len(), plan))
}

} // verus!
