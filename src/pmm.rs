//! The physical frame manager: one bit per physical frame, `true` when the
//! frame is locked.
use vstd::prelude::*;
use crate::frame_bits::{FrameBits, bits_first_zero, bits_get, bits_len, bits_none_set, bits_repeat, bits_set, frame_bits};
use crate::PAGE_SIZE;

verus! {

/// Bits in one word of the frame table; the table is padded to a whole
/// number of words.
pub const WORD_BITS: usize = 64;

/// Bytes in one word of the frame table.
pub const WORD_BYTES: usize = 8;

#[derive(Debug, Clone, Copy, PartialEq, Eq, Structural)]
pub enum Error {
    /// The physical memory manager is out of free frames.
    NoneFree,
    /// The given alignment is invalid.
    InvalidAlignment,
    /// The frame address lies beyond the last frame.
    OutOfBounds(usize),
    /// Cannot lock: the frame is not free.
    NotFree(usize),
    /// Cannot free: the frame is not locked.
    NotLocked(usize),
}

/// Kinds of memory-map entries reported by the bootloader.
#[derive(Debug, Clone, Copy, PartialEq, Eq, Structural)]
pub enum EntryType {
    Usable,
    Reserved,
    ExecutableAndModules,
    BootloaderReclaimable,
    AcpiReclaimable,
    AcpiNvs,
    Framebuffer,
    BadMemory,
}

/// One range of physical memory as the bootloader reports it.
#[derive(Debug, Clone, Copy, PartialEq, Eq, Structural)]
pub struct MemoryMapEntry {
    pub base: usize,
    pub length: usize,
    pub entry_type: EntryType,
}

/// Room kept below the top of the address range, so that the frame table of
/// the whole map can be addressed in bytes.
pub const ADDRESS_HEADROOM: usize = 0x100000;

/// Index of the frame that holds byte `b`.
pub open spec fn frame_of(b: int) -> int {
    b / PAGE_SIZE as int
}

/// Index of the first frame at or after byte `b`.
pub open spec fn frame_up(b: int) -> int {
    (b + PAGE_SIZE - 1) / PAGE_SIZE as int
}

/// End of a memory-map entry, in bytes.
pub open spec fn entry_end(e: MemoryMapEntry) -> int {
    e.base + e.length
}

/// A memory map as the bootloader hands it over: non-empty, sorted, with no
/// overlap, and inside the physical address width.
pub open spec fn map_wf(map: Seq<MemoryMapEntry>) -> bool {
    &&& map.len() > 0
    &&& forall|k: int| 0 <= k < map.len() ==> entry_end(#[trigger] map[k]) <= usize::MAX - ADDRESS_HEADROOM
    &&& forall|j: int, k: int| 0 <= j < k < map.len() ==> entry_end(#[trigger] map[j]) <= (
    #[trigger] map[k]).base
}

/// Frames that the memory map spans, rounded up.
pub open spec fn total_frames_of(map: Seq<MemoryMapEntry>) -> int {
    (entry_end(map.last()) + PAGE_SIZE - 1) / PAGE_SIZE as int
}

/// Bytes that a frame table for `frames` frames occupies, in whole frames.
pub open spec fn table_area_bytes(frames: int) -> int {
    let words = (frames + WORD_BITS - 1) / WORD_BITS as int;
    ((words * WORD_BYTES + PAGE_SIZE - 1) / PAGE_SIZE as int) * PAGE_SIZE
}

/// Entry `k` is the first usable entry with room for `bytes`.
pub open spec fn is_first_fit(map: Seq<MemoryMapEntry>, bytes: int, k: int) -> bool {
    &&& 0 <= k < map.len()
    &&& map[k].entry_type == EntryType::Usable
    &&& map[k].length >= bytes
    &&& forall|j: int|
        0 <= j < k ==> !(#[trigger] map[j].entry_type == EntryType::Usable && map[j].length
            >= bytes)
}

/// Entry `k` locks frame `i`: it is not usable and holds the frame, or the
/// frame lies in the gap before it.
pub open spec fn entry_locks(map: Seq<MemoryMapEntry>, k: int, i: int) -> bool {
    ||| (map[k].entry_type != EntryType::Usable && frame_of(map[k].base as int) <= i < frame_up(
        entry_end(map[k]),
    ))
    ||| (k > 0 && entry_end(map[k - 1]) < map[k].base && frame_of(entry_end(map[k - 1])) <= i
        < frame_up(map[k].base as int))
}

/// Whether frame `i` starts locked: padding, the table's own frames, a
/// non-usable entry or a gap between entries.
pub open spec fn initially_locked(
    map: Seq<MemoryMapEntry>,
    region_start: int,
    region_bytes: int,
    i: int,
) -> bool {
    ||| i >= total_frames_of(map)
    ||| (frame_of(region_start) <= i < frame_of(region_start + region_bytes))
    ||| exists|k: int| 0 <= k < map.len() && entry_locks(map, k, i)
}

/// Number of `true` values in `s`.
pub open spec fn count_true(s: Seq<bool>) -> nat
    decreases s.len(),
{
    if s.len() == 0 {
        0
    } else {
        count_true(s.drop_last()) + if s.last() { 1nat } else { 0nat }
    }
}

/// `count` consecutive bits from `start` are all clear.
pub open spec fn window_free(s: Seq<bool>, start: int, count: int) -> bool {
    0 <= start && start + count <= s.len() && forall|j: int| start <= j < start + count ==> !s[j]
}

/// `s` with the bits of `[start, start + count)` set.
pub open spec fn fill_spec(s: Seq<bool>, start: int, count: int) -> Seq<bool> {
    Seq::new(s.len(), |j: int| if start <= j < start + count { true } else { s[j] })
}

pub proof fn lemma_count_update(s: Seq<bool>, i: int, b: bool)
    requires
        0 <= i < s.len(),
    ensures
        count_true(s.update(i, b)) + (if s[i] { 1int } else { 0int })
            == count_true(s) + (if b { 1int } else { 0int }),
    decreases s.len(),
{
    let t = s.update(i, b);
    if i == s.len() - 1 {
        assert(t.drop_last() =~= s.drop_last());
    } else {
        assert(t.drop_last() =~= s.drop_last().update(i, b));
        lemma_count_update(s.drop_last(), i, b);
    }
}

pub proof fn lemma_count_all(s: Seq<bool>)
    requires
        forall|j: int| 0 <= j < s.len() ==> s[j],
    ensures
        count_true(s) == s.len(),
    decreases s.len(),
{
    if s.len() > 0 {
        lemma_count_all(s.drop_last());
    }
}

/// Step between candidate window starts for an alignment given in bytes.
pub open spec fn stride_spec(align_bits: Option<u32>) -> int {
    match align_bits {
        Some(b) => if (b as int) / (PAGE_SIZE as int) > 1 { (b as int) / (PAGE_SIZE as int) } else { 1 },
        None => 1,
    }
}

/// A window of `count` clear bits starts at `i`, on the alignment stride.
pub open spec fn is_candidate(s: Seq<bool>, i: int, count: int, stride: int) -> bool {
    i % stride == 0 && window_free(s, i, count)
}

fn window_is_free(table: &FrameBits, start: usize, count: usize) -> (r: bool)
    requires
        start + count <= frame_bits(*table).len(),
    ensures
        r == window_free(frame_bits(*table), start as int, count as int),
{
    bits_none_set(table, start, count)
}

/// Sets every bit of `[start, end)`.
fn fill_range(table: &mut FrameBits, start: usize, end: usize)
    requires
        start <= end <= frame_bits(*old(table)).len(),
    ensures
        frame_bits(*final(table)) == fill_spec(frame_bits(*old(table)), start as int, end - start),
        count_true(frame_bits(*final(table))) == count_true(frame_bits(*old(table))) + count_true(
            frame_bits(*old(table)).subrange(start as int, end as int).map_values(|b: bool| !b),
        ),
{
    let ghost s0 = frame_bits(*table);
    let mut i: usize = start;
    while i < end
        invariant
            start <= i <= end <= frame_bits(*table).len(),
            frame_bits(*table).len() == s0.len(),
            frame_bits(*table) == fill_spec(s0, start as int, i - start),
            count_true(frame_bits(*table)) == count_true(s0) + count_true(
                s0.subrange(start as int, i as int).map_values(|b: bool| !b),
            ),
        decreases end - i,
    {
        let ghost before = frame_bits(*table);
        proof {
            lemma_count_update(before, i as int, true);
            let f = |b: bool| !b;
            let a = s0.subrange(start as int, i as int).map_values(f);
            let c = s0.subrange(start as int, i + 1).map_values(f);
            assert(c.drop_last() =~= a);
            assert(before[i as int] == s0[i as int]);
        }
        bits_set(table, i, true);
        i = i + 1;
        proof {
            assert(frame_bits(*table) =~= fill_spec(s0, start as int, i - start));
        }
    }
}

/// Allocator of physical frames backed by one bit per frame.
pub struct PhysicalMemoryManager {
    table: FrameBits,
    total_frames: usize,
}

impl PhysicalMemoryManager {
    /// The frame table, padding bits included.
    pub closed spec fn bits(&self) -> Seq<bool> {
        frame_bits(self.table)
    }

    /// Number of frames that the memory map covers.
    pub closed spec fn frames(&self) -> nat {
        self.total_frames as nat
    }

    pub closed spec fn wf(&self) -> bool {
        &&& self.total_frames <= frame_bits(self.table).len()
        &&& frame_bits(self.table).len() * PAGE_SIZE <= usize::MAX
        &&& forall|i: int| self.total_frames <= i < frame_bits(self.table).len() ==> frame_bits(self.table)[i]
    }

    /// The frame table covers every frame, and its frames' addresses fit a
    /// `usize`.
    pub proof fn lemma_bounds(&self)
        requires
            self.wf(),
        ensures
            self.frames() <= self.bits().len(),
            self.frames() * PAGE_SIZE <= usize::MAX,
            forall|i: int| self.frames() <= i < self.bits().len() ==> self.bits()[i],
    {
        assert(self.frames() * PAGE_SIZE <= self.bits().len() * PAGE_SIZE) by (nonlinear_arith)
            requires self.frames() <= self.bits().len();
    }

    /// Number of locked frames, padding included.
    pub open spec fn locked_count(&self) -> nat {
        count_true(self.bits())
    }

    /// Index of the lowest clear bit, if any.
    pub open spec fn is_first_free(&self, i: int) -> bool {
        &&& 0 <= i < self.bits().len()
        &&& !self.bits()[i]
        &&& forall|j: int| 0 <= j < i ==> self.bits()[j]
    }

    /// Index of the frame at `address`.
    pub open spec fn index_of(address: usize) -> int {
        address as int / PAGE_SIZE as int
    }

    /// Locks the frame at `address`: fails if it lies out of bounds or is
    /// already locked.
    pub fn lock_frame(&mut self, address: usize) -> (r: Result<(), Error>)
        requires
            old(self).wf(),
        ensures
            final(self).wf(),
            final(self).frames() == old(self).frames(),
            Self::index_of(address) >= old(self).frames() <==> r == Err::<(), Error>(
                Error::OutOfBounds(address),
            ),
            Self::index_of(address) < old(self).frames() && old(self).bits()[Self::index_of(
                address,
            )] <==> r == Err::<(), Error>(Error::NotFree(address)),
            Self::index_of(address) < old(self).frames() && !old(self).bits()[Self::index_of(
                address,
            )] <==> r is Ok,
            r is Ok ==> final(self).bits() == old(self).bits().update(
                Self::index_of(address),
                true,
            ),
            r is Ok ==> final(self).locked_count() == old(self).locked_count() + 1,
            r is Err ==> final(self).bits() == old(self).bits(),
    {
        let index = address / PAGE_SIZE;
        if index < self.total_frames {
            if !bits_get(&self.table, index) {
                proof {
                    lemma_count_update(frame_bits(self.table), index as int, true);
                }
                bits_set(&mut self.table, index, true);
                Ok(())
            } else {
                Err(Error::NotFree(address))
            }
        } else {
            Err(Error::OutOfBounds(address))
        }
    }

    /// Frees the frame at `address`: fails if it lies out of bounds or is
    /// not locked.
    pub fn free_frame(&mut self, address: usize) -> (r: Result<(), Error>)
        requires
            old(self).wf(),
        ensures
            final(self).wf(),
            final(self).frames() == old(self).frames(),
            Self::index_of(address) >= old(self).frames() <==> r == Err::<(), Error>(
                Error::OutOfBounds(address),
            ),
            Self::index_of(address) < old(self).frames() && !old(self).bits()[Self::index_of(
                address,
            )] <==> r == Err::<(), Error>(Error::NotLocked(address)),
            Self::index_of(address) < old(self).frames() && old(self).bits()[Self::index_of(
                address,
            )] <==> r is Ok,
            r is Ok ==> final(self).bits() == old(self).bits().update(
                Self::index_of(address),
                false,
            ),
            r is Ok ==> final(self).locked_count() + 1 == old(self).locked_count(),
            r is Err ==> final(self).bits() == old(self).bits(),
    {
        let index = address / PAGE_SIZE;
        if index < self.total_frames {
            if bits_get(&self.table, index) {
                proof {
                    lemma_count_update(frame_bits(self.table), index as int, false);
                }
                bits_set(&mut self.table, index, false);
                Ok(())
            } else {
                Err(Error::NotLocked(address))
            }
        } else {
            Err(Error::OutOfBounds(address))
        }
    }

    /// Whether the frame at `address` is locked.
    pub fn is_locked(&self, address: usize) -> (r: Result<bool, Error>)
        requires
            self.wf(),
        ensures
            Self::index_of(address) >= self.frames() <==> r == Err::<bool, Error>(
                Error::OutOfBounds(address),
            ),
            Self::index_of(address) < self.frames() ==> r == Ok::<bool, Error>(
                self.bits()[Self::index_of(address)],
            ),
    {
        let index = address / PAGE_SIZE;
        if index < self.total_frames {
            Ok(bits_get(&self.table, index))
        } else {
            Err(Error::OutOfBounds(address))
        }
    }

    /// Locks the lowest free frame and returns its address.
    pub fn next_frame(&mut self) -> (r: Result<usize, Error>)
        requires
            old(self).wf(),
        ensures
            final(self).wf(),
            final(self).frames() == old(self).frames(),
            r is Err <==> forall|j: int| 0 <= j < old(self).bits().len() ==> old(self).bits()[j],
            r is Err ==> r == Err::<usize, Error>(Error::NoneFree) && final(self).bits()
                == old(self).bits(),
            r matches Ok(a) ==> {
                &&& a % PAGE_SIZE == 0
                &&& old(self).is_first_free(Self::index_of(a))
                &&& Self::index_of(a) < old(self).frames()
                &&& final(self).bits() == old(self).bits().update(Self::index_of(a), true)
                &&& final(self).locked_count() == old(self).locked_count() + 1
            },
    {
        match bits_first_zero(&self.table) {
            Some(i) => {
                proof {
                    lemma_count_update(frame_bits(self.table), i as int, true);
                    assert(!old(self).bits()[i as int]);
                }
                bits_set(&mut self.table, i, true);
                let a = i * PAGE_SIZE;
                assert(a / PAGE_SIZE == i) by (nonlinear_arith)
                    requires a == i * PAGE_SIZE;
                assert(a % PAGE_SIZE == 0) by (nonlinear_arith)
                    requires a == i * PAGE_SIZE;
                Ok(a)
            },
            None => Err(Error::NoneFree),
        }
    }

    /// Locks the first run of `count` free frames whose first index is a
    /// multiple of the stride given by `align_bits` (an alignment in bytes),
    /// and returns the address of its first frame.
    pub fn next_frames(&mut self, count: usize, align_bits: Option<u32>) -> (r: Result<
        usize,
        Error,
    >)
        requires
            old(self).wf(),
            count > 0,
        ensures
            final(self).wf(),
            final(self).frames() == old(self).frames(),
            r is Err <==> !exists|i: int|
                is_candidate(old(self).bits(), i, count as int, stride_spec(align_bits)),
            r is Err ==> r == Err::<usize, Error>(Error::NoneFree) && final(self).bits()
                == old(self).bits(),
            r matches Ok(a) ==> {
                &&& a % PAGE_SIZE == 0
                &&& is_candidate(
                    old(self).bits(),
                    Self::index_of(a),
                    count as int,
                    stride_spec(align_bits),
                )
                &&& forall|j: int|
                    0 <= j < Self::index_of(a) ==> !is_candidate(
                        old(self).bits(),
                        j,
                        count as int,
                        stride_spec(align_bits),
                    )
                &&& Self::index_of(a) + count <= old(self).frames()
                &&& final(self).bits() == fill_spec(old(self).bits(), Self::index_of(a), count as int)
                &&& final(self).locked_count() == old(self).locked_count() + count
            },
    {
        let align: u32 = match align_bits {
            Some(b) => b,
            None => 1,
        };
        let shifted: u32 = align / (PAGE_SIZE as u32);
        assert(shifted <= 0x100000) by (nonlinear_arith)
            requires shifted == align / 4096u32;
        let stride: usize = if shifted > 1 { shifted as usize } else { 1 };
        assert(stride == stride_spec(align_bits));
        let n = bits_len(&self.table);
        let ghost s0 = frame_bits(self.table);
        let mut i: usize = 0;
        while i < n && count <= n - i
            invariant
                self.wf(),
                frame_bits(self.table) == s0,
                s0 == frame_bits(old(self).table),
                self.total_frames == old(self).total_frames,
                n == s0.len(),
                n * PAGE_SIZE <= usize::MAX,
                stride >= 1,
                stride <= 0x100000,
                count > 0,
                stride == stride_spec(align_bits),
                i % stride == 0,
                forall|j: int| 0 <= j < i ==> !is_candidate(s0, j, count as int, stride as int),
            decreases n + stride - i,
        {
            if window_is_free(&self.table, i, count) {
                proof {
                    assert(is_candidate(s0, i as int, count as int, stride as int));
                    assert(is_candidate(old(self).bits(), i as int, count as int, stride_spec(align_bits)));
                    assert(!s0[i + count - 1]);
                    let f = |b: bool| !b;
                    let sub = s0.subrange(i as int, (i + count) as int).map_values(f);
                    assert forall|k: int| 0 <= k < sub.len() implies sub[k] by {
                        assert(!s0[i + k]);
                    }
                    lemma_count_all(sub);
                }
                fill_range(&mut self.table, i, i + count);
                let a = i * PAGE_SIZE;
                assert(a / PAGE_SIZE == i) by (nonlinear_arith)
                    requires a == i * PAGE_SIZE;
                assert(a % PAGE_SIZE == 0) by (nonlinear_arith)
                    requires a == i * PAGE_SIZE;
                return Ok(a);
            }
            proof {
                assert forall|j: int| 0 <= j < i + stride implies !is_candidate(
                    s0,
                    j,
                    count as int,
                    stride as int,
                ) by {
                    if i < j && j < i + stride {
                        assert(j % (stride as int) != 0) by (nonlinear_arith)
                            requires (i as int) % (stride as int) == 0, (i as int) < j, j < (i as int) + (stride as int), stride >= 1;
                    }
                }
                assert((i + stride) % (stride as int) == 0) by (nonlinear_arith)
                    requires (i as int) % (stride as int) == 0, stride >= 1;
            }
            i = i + stride;
        }
        proof {
            assert forall|j: int| !is_candidate(s0, j, count as int, stride as int) by {
                if 0 <= j && j >= i {
                    assert(j + count > n);
                }
            }
        }
        Err(Error::NoneFree)
    }

    /// Builds the frame table from the memory map. The table takes the first
    /// usable entry that has room for it; `None` when no entry has.
    #[verifier::rlimit(40)]
    pub fn new(memory_map: &Vec<MemoryMapEntry>) -> (r: Option<Self>)
        requires
            map_wf(memory_map@),
        ensures
            r is None <==> !exists|k: int|
                is_first_fit(memory_map@, table_area_bytes(total_frames_of(memory_map@)), k),
            r matches Some(p) ==> {
                &&& p.wf()
                &&& p.frames() == total_frames_of(memory_map@)
                &&& p.bits().len() == (p.frames() + WORD_BITS - 1) / WORD_BITS as int * WORD_BITS
                &&& exists|k: int|
                    #![trigger memory_map@[k]]
                    is_first_fit(memory_map@, table_area_bytes(total_frames_of(memory_map@)), k)
                        && forall|i: int|
                        0 <= i < p.bits().len() ==> p.bits()[i] == initially_locked(
                            memory_map@,
                            memory_map@[k].base as int,
                            table_area_bytes(total_frames_of(memory_map@)),
                            i,
                        )
            },
    {
        let ghost map = memory_map@;
        let len = memory_map.len();
        let last = memory_map[len - 1];
        assert(entry_end(map[len - 1]) <= usize::MAX - ADDRESS_HEADROOM) by {
            assert(map[len - 1] == map.last());
        }
        let total_physical = last.base + last.length;
        let total_frames = (total_physical + (PAGE_SIZE - 1)) / PAGE_SIZE;
        let words = (total_frames + (WORD_BITS - 1)) / WORD_BITS;
        let area_frames = (words * WORD_BYTES + (PAGE_SIZE - 1)) / PAGE_SIZE;
        let area_bytes = area_frames * PAGE_SIZE;
        let nbits = words * WORD_BITS;
        assert(total_frames <= nbits && nbits * PAGE_SIZE <= total_physical + 0x41000) by (nonlinear_arith)
            requires
                total_frames == (total_physical + 4095) / 4096,
                words == (total_frames + 63) / 64,
                nbits == words * 64;
        assert(area_bytes == table_area_bytes(total_frames_of(map)));

        // The first usable entry with room for the table.
        let mut k: usize = 0;
        while k < len
            invariant
                len == map.len(),
                map == memory_map@,
                k <= len,
                forall|j: int|
                    0 <= j < k ==> !(#[trigger] map[j].entry_type == EntryType::Usable
                        && map[j].length >= area_bytes),
            ensures
                k <= len,
                k < len ==> map[k as int].entry_type == EntryType::Usable && map[k as int].length
                    >= area_bytes,
                forall|j: int|
                    0 <= j < k ==> !(#[trigger] map[j].entry_type == EntryType::Usable
                        && map[j].length >= area_bytes),
            decreases len - k,
        {
            let e = memory_map[k];
            if e.entry_type == EntryType::Usable && e.length >= area_bytes {
                break;
            }
            k = k + 1;
        }
        if k == len {
            return None;
        }
        assert(is_first_fit(map, area_bytes as int, k as int));
        let region_start = memory_map[k].base;
        let region_end = region_start + area_bytes;
        assert(map_wf(map));
        assert(entry_end(map[k as int]) <= entry_end(map[len - 1])) by {
            if k < len - 1 {
                assert(entry_end(map[k as int]) <= map[len - 1].base);
            }
        }
        assert(region_end / PAGE_SIZE <= total_frames) by (nonlinear_arith)
            requires
                region_end <= total_physical,
                total_frames == (total_physical + 4095) / 4096;
        assert(region_start / PAGE_SIZE <= region_end / PAGE_SIZE) by (nonlinear_arith)
            requires region_start <= region_end;

        assert(nbits <= usize::MAX / 8) by (nonlinear_arith)
            requires nbits * 4096 <= usize::MAX;
        let mut table = bits_repeat(false, nbits);
        fill_range(&mut table, total_frames, nbits);
        fill_range(&mut table, region_start / PAGE_SIZE, region_end / PAGE_SIZE);

        let ghost tf = total_frames as int;
        let ghost rs = region_start as int;
        let ghost ab = area_bytes as int;
        assert forall|i: int| 0 <= i < nbits implies frame_bits(table)[i] == (i >= tf || (frame_of(rs) <= i
            < frame_of(rs + ab))) by {}

        let mut prev_end: usize = 0;
        let mut m: usize = 0;
        while m < len
            invariant
                len == map.len(),
                map == memory_map@,
                map_wf(map),
                m <= len,
                frame_bits(table).len() == nbits,
                total_frames <= nbits,
                total_frames == total_frames_of(map),
                tf == total_frames,
                total_physical == entry_end(map[len - 1]),
                m > 0 ==> prev_end == entry_end(map[m - 1]),
                forall|i: int|
                    0 <= i < nbits ==> frame_bits(table)[i] == (i >= tf || (frame_of(rs) <= i < frame_of(rs + ab))
                        || exists|j: int| 0 <= j < m && entry_locks(map, j, i)),
            decreases len - m,
        {
            let e = memory_map[m];
            let start = e.base;
            let end = e.base + e.length;
            assert(entry_end(map[m as int]) <= entry_end(map[len - 1])) by {
                if m < len - 1 {
                    assert(entry_end(map[m as int]) <= map[len - 1].base);
                }
            }
            let end_up = (end + (PAGE_SIZE - 1)) / PAGE_SIZE;
            let start_up = (start + (PAGE_SIZE - 1)) / PAGE_SIZE;
            assert(end_up <= total_frames) by (nonlinear_arith)
                requires
                    end <= total_physical,
                    end_up == (end + 4095) / 4096,
                    total_frames == (total_physical + 4095) / 4096;
            assert(start / PAGE_SIZE <= end_up && start_up <= end_up) by (nonlinear_arith)
                requires start <= end, end_up == (end + 4095) / 4096, start_up == (start + 4095) / 4096;
            let ghost t0 = frame_bits(table);
            if m > 0 && prev_end < start {
                assert(prev_end / PAGE_SIZE <= start_up) by (nonlinear_arith)
                    requires prev_end <= start, start_up == (start + 4095) / 4096;
                fill_range(&mut table, prev_end / PAGE_SIZE, start_up);
            }
            let ghost t1 = frame_bits(table);
            if e.entry_type != EntryType::Usable {
                fill_range(&mut table, start / PAGE_SIZE, end_up);
            }
            proof {
                assert forall|i: int| 0 <= i < nbits implies frame_bits(table)[i] == (i >= tf || (frame_of(rs)
                    <= i < frame_of(rs + ab)) || exists|j: int|
                    0 <= j < m + 1 && entry_locks(map, j, i)) by {
                    assert(frame_bits(table)[i] == (t0[i] || entry_locks(map, m as int, i)));
                    if entry_locks(map, m as int, i) {
                        assert(0 <= m < m + 1 && entry_locks(map, m as int, i));
                    }
                    if exists|j: int| 0 <= j < m + 1 && entry_locks(map, j, i) {
                        let j = choose|j: int| 0 <= j < m + 1 && entry_locks(map, j, i);
                        if j < m {
                            assert(0 <= j < m && entry_locks(map, j, i));
                        }
                    }
                }
            }
            prev_end = end;
            m = m + 1;
        }
        let r = PhysicalMemoryManager { table, total_frames };
        proof {
            assert(r.wf());
            assert(is_first_fit(map, table_area_bytes(total_frames_of(map)), k as int));
        }
        Some(r)
    }

    pub fn total_frames(&self) -> (r: usize)
        ensures
            r == self.frames(),
    {
        self.total_frames
    }

    pub fn total_memory(&self) -> (r: usize)
        requires
            self.wf(),
        ensures
            r == self.frames() * PAGE_SIZE,
    {
        self.total_frames * PAGE_SIZE
    }
}

} // verus!
