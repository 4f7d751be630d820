//! The page-table mapper. Table memory is modelled as the words of the
//! frames that hold tables, keyed by frame number and index, and is walked
//! as the hardware walks it: from the root frame, one index per level.
use vstd::prelude::*;
use std::collections::HashMap;
use crate::paging::{
    ADDRESS_MASK, HUGE, PRESENT, USER, WRITE, attributes_of, frame_of, is_attribute_set,
    is_frame_address, is_huge, is_present, lemma_entry_parts,
};
use crate::pmm::{Error as FrameError, PhysicalMemoryManager};

verus! {

broadcast use vstd::std_specs::hash::group_hash_axioms;

/// Entries in one table.
pub const TABLE_ENTRIES: u64 = 512;

/// Deepest supported table depth (5-level paging).
pub const MAX_DEPTH: u64 = 5;

/// Attributes of an intermediate table's entry: access is governed by the
/// leaf.
pub const TABLE_LINK: u64 = 0x7;

#[derive(Debug, Clone, Copy, PartialEq, Eq, Structural)]
pub enum Error {
    /// No entry maps the page at the depth asked for.
    NotMapped(u64),
    /// No frame could be had for a table, or the frame lies beyond the
    /// addressable range.
    AllocationFailure,
    /// A huge page already covers the page.
    AlreadyMapped,
    /// A huge mapping was asked for at the leaf depth, or a leaf mapping
    /// above it.
    HugeMisaligned,
    /// A table refers back to a table on its own path.
    MalformedTable,
    /// The frame manager refused the frame.
    Frame(FrameError),
}

/// Bit position of the first address bit that `level` translates.
pub open spec fn level_shift(level: u64) -> u64 {
    (12 + 9 * (level - 1)) as u64
}

/// Index into the table at `level` for virtual address `v`.
pub open spec fn table_index(level: u64, v: u64) -> u64 {
    (v >> level_shift(level)) & 511u64
}

/// Key of entry `i` of the table in frame `table`.
pub open spec fn slot(table: u64, i: u64) -> u64 {
    ((table / 4096) * 512 + i) as u64
}

/// The word at `key`; words never written read as zero.
pub open spec fn word(mem: Map<u64, u64>, key: u64) -> u64 {
    if mem.contains_key(key) {
        mem[key]
    } else {
        0
    }
}

/// Walks from `table` at `level` towards `target` (0: down to the first
/// leaf, a huge entry or the last level). Returns the level, the entry and
/// its key.
pub open spec fn walk(mem: Map<u64, u64>, table: u64, level: u64, v: u64, target: u64) -> Option<
    (u64, u64, u64),
>
    decreases level,
{
    if level < 1 {
        None
    } else {
        let key = slot(table, table_index(level, v));
        let e = word(mem, key);
        if !is_present(e) {
            None
        } else if level == target || (target == 0 && (level == 1 || is_huge(e))) {
            Some((level, e, key))
        } else if level == 1 || is_huge(e) {
            None
        } else {
            walk(mem, frame_of(e), (level - 1) as u64, v, target)
        }
    }
}

/// The walk target that an optional depth stands for (0: the leaf).
pub open spec fn depth_target(d: Option<u64>) -> u64 {
    match d {
        Some(d) => d,
        None => 0,
    }
}

/// Frame numbers of the tables that a walk of `v` from `table` at `level`
/// passes on its way down to `target`.
pub open spec fn walk_frames(mem: Map<u64, u64>, table: u64, level: u64, v: u64, target: u64) -> Seq<
    u64,
>
    decreases level,
{
    if level <= target || level < 1 {
        seq![table / 4096]
    } else {
        let e = word(mem, slot(table, table_index(level, v)));
        if is_present(e) && !is_huge(e) {
            seq![table / 4096] + walk_frames(mem, frame_of(e), (level - 1) as u64, v, target)
        } else {
            seq![table / 4096]
        }
    }
}

/// Frame number `n` is one of the `frames` frames of the manager and is
/// locked in `bits`.
pub open spec fn locked_frame(bits: Seq<bool>, frames: nat, n: u64) -> bool {
    n < frames && n < bits.len() && bits[n as int]
}

/// A sequence of table frames is malformed: a frame comes twice, or one is
/// not locked in the frame manager.
pub open spec fn malformed(s: Seq<u64>, bits: Seq<bool>, frames: nat) -> bool {
    ||| exists|i: int, j: int| 0 <= i < j < s.len() && s[i] == s[j]
    ||| exists|i: int| 0 <= i < s.len() && !locked_frame(bits, frames, #[trigger] s[i])
}

/// The walk stopped at `level` on entry `e`.
pub open spec fn found(w: Option<(u64, u64, u64)>, level: u64, e: u64) -> bool {
    match w {
        Some(x) => x.0 == level && x.1 == e,
        None => false,
    }
}

/// Bytes that one entry at `level` maps.
pub open spec fn level_size(level: u64) -> int {
    if level == 1 {
        0x1000
    } else if level == 2 {
        0x20_0000
    } else if level == 3 {
        0x4000_0000
    } else if level == 4 {
        0x80_0000_0000
    } else {
        0x1_0000_0000_0000
    }
}

/// Offset of `v`'s page inside the (huge) page of `level`.
pub open spec fn page_offset(level: u64, v: u64) -> int {
    (v as int % level_size(level)) / 4096 * 4096
}

/// Words outside frame number `n` are the same in both memories.
pub open spec fn same_outside(m1: Map<u64, u64>, m2: Map<u64, u64>, n: u64) -> bool {
    forall|k: u64| #[trigger] (k / 512) != n ==> word(m1, k) == word(m2, k)
}

/// Words inside frames of `frames` are the same in both memories.
pub open spec fn same_inside(m1: Map<u64, u64>, m2: Map<u64, u64>, frames: Seq<u64>) -> bool {
    forall|k: u64| #[trigger] frames.contains(k / 512) ==> word(m1, k) == word(m2, k)
}

proof fn lemma_slot(table: u64, i: u64)
    requires
        is_frame_address(table),
        i < 512,
    ensures
        slot(table, i) / 512 == table / 4096,
        (table / 4096) * 512 + i <= u64::MAX,
        slot(table, i) == (table / 4096) * 512 + i,
{
    assert(table & !0x000F_FFFF_FFFF_F000u64 == 0 ==> table <= 0x000F_FFFF_FFFF_F000u64)
        by (bit_vector);
    assert((table / 4096) * 512 + i <= 0x0080_0000_0000_0000) by (nonlinear_arith)
        requires
            table <= 0x000F_FFFF_FFFF_F000u64,
            i < 512,
    ;
    assert(((table / 4096) * 512 + i) / 512 == table / 4096) by (nonlinear_arith)
        requires
            i < 512,
    ;
}

/// Keys of table entries stay inside their table's frame number.
pub proof fn lemma_slot_public(table: u64, i: u64)
    requires
        is_frame_address(table),
        i < 512,
    ensures
        slot(table, i) == (table / 4096) * 512 + i,
        (table / 4096) * 512 + i <= u64::MAX,
{
    lemma_slot(table, i);
}

/// The frame and attribute parts of an entry are well formed.
pub proof fn lemma_frame_address_public(e: u64)
    ensures
        is_frame_address(frame_of(e)),
        frame_of(e) == e & ADDRESS_MASK,
{
    lemma_frame_address(e);
}

proof fn lemma_index_bound(level: u64, v: u64)
    ensures
        table_index(level, v) < 512,
{
    let s = level_shift(level);
    assert((v >> s) & 511u64 < 512) by (bit_vector);
}

proof fn lemma_frame_address(e: u64)
    ensures
        is_frame_address(frame_of(e)),
        is_attribute_set(attributes_of(e)),
{
    assert((e & 0x000F_FFFF_FFFF_F000u64) & !0x000F_FFFF_FFFF_F000u64 == 0) by (bit_vector);
    assert((e & !0x000F_FFFF_FFFF_F000u64) & 0x000F_FFFF_FFFF_F000u64 == 0) by (bit_vector);
}

/// Writing a non-present word at the key that a walk stops at leaves the
/// page unmapped at that depth.
proof fn lemma_walk_cleared(
    mem: Map<u64, u64>,
    table: u64,
    level: u64,
    v: u64,
    target: u64,
    key: u64,
    w: u64,
)
    requires
        walk(mem, table, level, v, target) matches Some(r) && r.2 == key,
        !is_present(w),
    ensures
        walk(mem.insert(key, w), table, level, v, target) is None,
    decreases level,
{
    let m2 = mem.insert(key, w);
    let k = slot(table, table_index(level, v));
    let e = word(mem, k);
    if k != key {
        assert(word(m2, k) == e);
        if !(level == target || (target == 0 && (level == 1 || is_huge(e)))) {
            lemma_walk_cleared(mem, frame_of(e), (level - 1) as u64, v, target, key, w);
        }
    } else {
        assert(word(m2, k) == w);
    }
}

/// Whether `v` holds `x`.
fn vec_contains(v: &Vec<u64>, x: u64) -> (r: bool)
    ensures
        r == v@.contains(x),
{
    let mut i: usize = 0;
    while i < v.len()
        invariant
            i <= v@.len(),
            forall|j: int| 0 <= j < i ==> v@[j] != x,
        decreases v@.len() - i,
    {
        if v[i] == x {
            assert(v@[i as int] == x);
            return true;
        }
        i = i + 1;
    }
    false
}

/// Sole owner of one page-table tree.
pub struct Mapper {
    depth: u64,
    root_frame: u64,
    memory: HashMap<u64, u64>,
}

impl Mapper {
    pub closed spec fn mem(&self) -> Map<u64, u64> {
        self.memory@
    }

    pub closed spec fn depth_spec(&self) -> u64 {
        self.depth
    }

    pub closed spec fn root(&self) -> u64 {
        self.root_frame
    }

    pub closed spec fn wf(&self) -> bool {
        &&& 1 <= self.depth <= MAX_DEPTH
        &&& is_frame_address(self.root_frame)
    }

    /// A well-formed mapper has between one and five levels and a root in
    /// the addressable range.
    pub proof fn lemma_wf_bounds(&self)
        requires
            self.wf(),
        ensures
            1 <= self.depth_spec() <= MAX_DEPTH,
            is_frame_address(self.root()),
    {
    }

    /// The walk of `v` from the root towards `target` (0: the leaf).
    pub open spec fn lookup(&self, v: u64, target: u64) -> Option<(u64, u64, u64)> {
        walk(self.mem(), self.root(), self.depth_spec(), v, target)
    }

    /// The frame that `v`'s page translates to, if mapped.
    pub open spec fn translate(&self, v: u64) -> Option<int> {
        match self.lookup(v, 0) {
            Some((l, e, _)) => Some(frame_of(e) + page_offset(l, v)),
            None => None,
        }
    }

    /// The root table's entries.
    pub open spec fn root_entries(&self) -> Seq<u64> {
        Seq::new(TABLE_ENTRIES as nat, |i: int| word(self.mem(), slot(self.root(), i as u64)))
    }

    /// The word at `key` of the table memory.
    pub fn read_word(&self, key: u64) -> (r: u64)
        ensures
            r == word(self.mem(), key),
    {
        self.read(key)
    }

    fn read(&self, key: u64) -> (r: u64)
        ensures
            r == word(self.mem(), key),
    {
        match self.memory.get(&key) {
            Some(v) => *v,
            None => 0,
        }
    }

    /// Zeroes the table in `table`.
    fn zero_table(&mut self, table: u64)
        requires
            is_frame_address(table),
        ensures
            forall|i: u64| i < 512 ==> word(final(self).mem(), #[trigger] slot(table, i)) == 0,
            same_outside(old(self).mem(), final(self).mem(), table / 4096),
            final(self).depth == old(self).depth,
            final(self).root_frame == old(self).root_frame,
    {
        let mut i: u64 = 0;
        while i < TABLE_ENTRIES
            invariant
                is_frame_address(table),
                i <= 512,
                forall|j: u64| j < i ==> word(self.mem(), #[trigger] slot(table, j)) == 0,
                same_outside(old(self).mem(), self.mem(), table / 4096),
                self.depth == old(self).depth,
                self.root_frame == old(self).root_frame,
            decreases 512 - i,
        {
            proof {
                lemma_slot(table, i);
            }
            let key = (table / 4096) * 512 + i;
            self.memory.insert(key, 0);
            proof {
                assert forall|j: u64| j < i + 1 implies word(self.mem(), #[trigger] slot(table, j))
                    == 0 by {
                    lemma_slot(table, j);
                }
            }
            i = i + 1;
        }
    }

    /// A mapper over a fresh, zeroed root table of `depth` levels.
    pub fn new(depth: u64, pmm: &mut PhysicalMemoryManager) -> (r: Result<Mapper, Error>)
        requires
            1 <= depth <= MAX_DEPTH,
            old(pmm).wf(),
        ensures
            final(pmm).wf(),
            final(pmm).frames() == old(pmm).frames(),
            r matches Ok(m) ==> {
                &&& m.wf()
                &&& m.depth_spec() == depth
                &&& m.root_entries() == Seq::new(512, |i: int| 0u64)
                &&& m.root() % 4096 == 0
                &&& old(pmm).is_first_free(m.root() as int / 4096)
                &&& final(pmm).bits() == old(pmm).bits().update(m.root() as int / 4096, true)
            },
            r is Err ==> r == Err::<Mapper, Error>(Error::AllocationFailure) && final(pmm).bits()
                == old(pmm).bits(),
            forall|i: int| old(pmm).is_first_free(i) && i * 4096 <= 0x000F_FFFF_FFFF_F000 ==> r is Ok,
    {
        let f = match pmm.next_frame() {
            Ok(f) => f as u64,
            Err(_) => return Err(Error::AllocationFailure),
        };
        proof {
            let k = f as int / 4096;
            assert(f as int == k * 4096) by (nonlinear_arith)
                requires f % 4096 == 0, k == f as int / 4096;
            assert(f % 4096 == 0 && f <= 0x000F_FFFF_FFFF_F000u64 ==> f & !0x000F_FFFF_FFFF_F000u64 == 0)
                by (bit_vector);
            assert forall|i: int| #[trigger] old(pmm).is_first_free(i) implies i == k by {
                if i < k {
                    assert(old(pmm).bits()[i]);
                } else if i > k {
                    assert(old(pmm).bits()[k]);
                }
            }
        }
        if f & !ADDRESS_MASK != 0 {
            proof {
                old(pmm).lemma_bounds();
            }
            let _ = pmm.free_frame(f as usize);
            proof {
                assert(pmm.bits() =~= old(pmm).bits());
            }
            return Err(Error::AllocationFailure);
        }
        let mut m = Mapper { depth, root_frame: f, memory: HashMap::new() };
        m.zero_table(f);
        assert(m.root_entries() =~= Seq::new(512, |i: int| 0u64));
        Ok(m)
    }

    /// Walks the tree for `v` towards `target` (0: the leaf).
    fn find(&self, v: u64, target: u64) -> (r: Option<(u64, u64, u64)>)
        requires
            self.wf(),
        ensures
            r == self.lookup(v, target),
            r matches Some(x) ==> 1 <= x.0 <= self.depth_spec(),
    {
        let mut table = self.root_frame;
        let mut level = self.depth;
        while level >= 1
            invariant
                self.wf(),
                level <= self.depth_spec(),
                is_frame_address(table),
                self.lookup(v, target) == walk(self.mem(), table, level, v, target),
            decreases level,
        {
            let i = (v >> (12 + 9 * (level - 1))) & 511u64;
            proof {
                lemma_index_bound(level, v);
                lemma_slot(table, i);
            }
            let key = (table / 4096) * 512 + i;
            let e = self.read(key);
            if e & PRESENT != PRESENT {
                return None;
            }
            let huge = e & HUGE == HUGE;
            if level == target || (target == 0 && (level == 1 || huge)) {
                return Some((level, e, key));
            }
            if level == 1 || huge {
                return None;
            }
            proof {
                lemma_frame_address(e);
            }
            table = e & ADDRESS_MASK;
            level = level - 1;
        }
        None
    }

    /// The level and entry of the leaf that maps `v`.
    pub fn leaf_entry(&self, v: u64) -> (r: Option<(u64, u64)>)
        requires
            self.wf(),
        ensures
            r == match self.lookup(v, 0) {
                Some(x) => Some((x.0, x.1)),
                None => None::<(u64, u64)>,
            },
    {
        match self.find(v, 0) {
            Some((level, e, _)) => Some((level, e)),
            None => None,
        }
    }

    /// Whether `page` is mapped at `depth`, or down to a leaf when `None`.
    pub fn is_mapped(&self, page: u64, depth: Option<u64>) -> (r: bool)
        requires
            self.wf(),
        ensures
            r == self.lookup(
                page,
                match depth {
                    Some(d) => d,
                    None => 0,
                },
            ) is Some,
    {
        let target = match depth {
            Some(d) => d,
            None => 0,
        };
        self.find(page, target).is_some()
    }

    /// The frame that `page` translates to; inside a huge page, the frame at
    /// the page's offset.
    pub fn get_mapped_to(&self, page: u64) -> (r: Option<u64>)
        requires
            self.wf(),
        ensures
            r is Some <==> self.translate(page) is Some,
            r matches Some(f) ==> self.translate(page) == Some(f as int),
    {
        match self.find(page, 0) {
            Some((level, e, _)) => {
                let shift = 12 + 9 * (level - 1);
                let size: u64 = if level == 1 {
                    0x1000
                } else if level == 2 {
                    0x20_0000
                } else if level == 3 {
                    0x4000_0000
                } else if level == 4 {
                    0x80_0000_0000
                } else {
                    0x1_0000_0000_0000
                };
                let offset = (page % size) / 4096 * 4096;
                proof {
                    lemma_frame_address(e);
                    assert(frame_of(e) <= 0x000F_FFFF_FFFF_F000u64 && (e & 0x000F_FFFF_FFFF_F000u64)
                        & !0x000F_FFFF_FFFF_F000u64 == 0 ==> (e & 0x000F_FFFF_FFFF_F000u64)
                        <= 0x000F_FFFF_FFFF_F000u64) by (bit_vector);
                    assert((e & 0x000F_FFFF_FFFF_F000u64) <= 0x000F_FFFF_FFFF_F000u64) by (bit_vector);
                    assert(offset <= page % size);
                }
                Some((e & ADDRESS_MASK) + offset)
            },
            None => None,
        }
    }

    /// Whether `page` translates to `frame`.
    pub fn is_mapped_to(&self, page: u64, frame: u64) -> (r: bool)
        requires
            self.wf(),
        ensures
            r == (self.translate(page) == Some(frame as int)),
    {
        match self.get_mapped_to(page) {
            Some(f) => f == frame,
            None => false,
        }
    }

    /// The attributes of the leaf entry that maps `page`.
    pub fn get_page_attributes(&self, page: u64) -> (r: Option<u64>)
        requires
            self.wf(),
        ensures
            r == match self.lookup(page, 0) {
                Some((_, e, _)) => Some(attributes_of(e)),
                None => None::<u64>,
            },
    {
        match self.find(page, 0) {
            Some((_, e, _)) => Some(e & !ADDRESS_MASK),
            None => None,
        }
    }

    /// Installs `leaf` for `v` at level `target`, under the table in
    /// `table` at `level`; missing tables are taken from `pmm` and zeroed.
    /// `ancestors` holds the frame numbers of the tables above.
    fn map_at(
        &mut self,
        pmm: &mut PhysicalMemoryManager,
        table: u64,
        level: u64,
        v: u64,
        target: u64,
        leaf: u64,
        ancestors: &mut Vec<u64>,
        Ghost(fresh): Ghost<bool>,
    ) -> (r: Result<(), Error>)
        requires
            1 <= target <= level <= MAX_DEPTH,
            is_frame_address(table),
            !old(ancestors)@.contains(table / 4096),
            old(pmm).wf(),
            is_present(leaf),
            target > 1 ==> is_huge(leaf),
            locked_frame(old(pmm).bits(), old(pmm).frames(), table / 4096),
            forall|j: int| 0 <= j < old(ancestors)@.len() ==> locked_frame(old(pmm).bits(), old(pmm).frames(), #[trigger] old(ancestors)@[j]),
            fresh ==> forall|i: u64| i < 512 ==> word(old(self).mem(), #[trigger] slot(table, i)) == 0,
        ensures
            final(pmm).bits().len() == old(pmm).bits().len(),
            forall|i: int| 0 <= i < old(pmm).bits().len() && old(pmm).bits()[i] ==> #[trigger] final(pmm).bits()[i],
            fresh ==> r != Err::<(), Error>(Error::MalformedTable),
            r == Err::<(), Error>(Error::MalformedTable) ==> final(self).mem() == old(self).mem()
                && final(pmm).bits() == old(pmm).bits(),
            r == Err::<(), Error>(Error::MalformedTable) ==> malformed(
                old(ancestors)@ + walk_frames(old(self).mem(), table, level, v, target),
                old(pmm).bits(),
                old(pmm).frames(),
            ),
            final(pmm).wf(),
            final(pmm).frames() == old(pmm).frames(),
            final(ancestors)@ == old(ancestors)@,
            final(self).depth == old(self).depth,
            final(self).root_frame == old(self).root_frame,
            same_inside(old(self).mem(), final(self).mem(), old(ancestors)@),
            r is Ok ==> found(walk(final(self).mem(), table, level, v, target), target, leaf),
            r is Ok ==> found(walk(final(self).mem(), table, level, v, 0), target, leaf),
            r == Err::<(), Error>(Error::AlreadyMapped) ==> match walk(
                old(self).mem(),
                table,
                level,
                v,
                0,
            ) {
                Some(x) => x.0 > target && is_huge(x.1),
                None => false,
            },
            r == Err::<(), Error>(Error::AllocationFailure) ==> (forall|i: int|
                0 <= i < final(pmm).bits().len() ==> #[trigger] final(pmm).bits()[i])
                || final(pmm).frames() > 0x10_0000_0000,
            r != Err::<(), Error>(Error::HugeMisaligned),
            !(r matches Err(Error::Frame(_))),
            r == Err::<(), Error>(Error::AlreadyMapped) ==> final(self).mem() == old(self).mem(),
        decreases level,
    {
        let i = (v >> (12 + 9 * (level - 1))) & 511u64;
        proof {
            lemma_index_bound(level, v);
            lemma_slot(table, i);
        }
        let key = (table / 4096) * 512 + i;
        let tn = table / 4096;
        if level == target {
            self.memory.insert(key, leaf);
            proof {
                assert(word(self.mem(), key) == leaf);
                assert forall|k: u64| #[trigger] old(ancestors)@.contains(k / 512) implies word(
                    old(self).mem(),
                    k,
                ) == word(self.mem(), k) by {
                    if k == key {
                        assert(old(ancestors)@.contains(tn));
                    }
                }
            }
            return Ok(());
        }
        let e = self.read(key);
        let next: u64;
        let ghost existing = e & PRESENT == PRESENT;
        let ghost b_in = pmm.bits();
        if e & PRESENT == PRESENT {
            if e & HUGE == HUGE {
                return Err(Error::AlreadyMapped);
            }
            proof {
                lemma_frame_address(e);
                if fresh {
                    assert(word(old(self).mem(), slot(table, i)) == 0);
                    assert(0u64 & 1u64 != 1u64) by (bit_vector);
                }
                pmm.lemma_bounds();
            }
            next = e & ADDRESS_MASK;
            let path_tail = if next > usize::MAX as u64 {
                false
            } else {
                match pmm.is_locked(next as usize) {
                    Ok(b) => b,
                    Err(_) => false,
                }
            };
            if !path_tail {
                proof {
                    let w = walk_frames(old(self).mem(), table, level, v, target);
                    assert(w == seq![tn] + walk_frames(old(self).mem(), next, (level - 1) as u64, v, target));
                    let s2 = old(ancestors)@ + w;
                    let idx = old(ancestors)@.len() as int + 1;
                    assert(s2[idx] == next / 4096);
                    if next <= usize::MAX as u64 {
                        assert((next as usize) as int / 4096 == (next / 4096) as int);
                    } else {
                        let fr = old(pmm).frames();
                        assert(fr * 4096 <= usize::MAX);
                        assert(next / 4096 >= fr) by (nonlinear_arith)
                            requires next > usize::MAX, fr * 4096 <= usize::MAX;
                    }
                    assert(!locked_frame(old(pmm).bits(), old(pmm).frames(), s2[idx]));
                }
                return Err(Error::MalformedTable);
            }
        } else {
            let f = match pmm.next_frame() {
                Ok(f) => f as u64,
                Err(_) => return Err(Error::AllocationFailure),
            };
            if f & !ADDRESS_MASK != 0 {
                proof {
                    assert(f & !0x000F_FFFF_FFFF_F000u64 != 0 && f % 4096 == 0 ==> f
                        >= 0x10_0000_0000_0000u64) by (bit_vector);
                }
                return Err(Error::AllocationFailure);
            }
            proof {
                assert(!b_in[f as int / 4096]);
                assert(f / 4096 != tn);
                assert forall|j: int| 0 <= j < ancestors@.len() implies ancestors@[j] != f / 4096 by {
                    assert(locked_frame(b_in, old(pmm).frames(), ancestors@[j]));
                }
            }
            if f / 4096 == tn || vec_contains(ancestors, f / 4096) {
                return Err(Error::MalformedTable);
            }
            let ghost m0 = self.mem();
            self.zero_table(f);
            let link = f | TABLE_LINK;
            proof {
                assert(7u64 & 0x000F_FFFF_FFFF_F000u64 == 0) by (bit_vector);
                assert((7u64 & 1u64 == 1u64) && (7u64 & 0x80u64 != 0x80u64)) by (bit_vector);
                lemma_entry_parts(f, TABLE_LINK);
            }
            self.memory.insert(key, link);
            proof {
                assert forall|k: u64| #[trigger] old(ancestors)@.contains(k / 512) implies word(
                    old(self).mem(),
                    k,
                ) == word(self.mem(), k) by {
                    if k == key {
                        assert(old(ancestors)@.contains(tn));
                    }
                    assert(k / 512 != f / 4096);
                }
            }
            next = f;
        }
        if next / 4096 == tn || vec_contains(ancestors, next / 4096) {
            proof {
                if existing {
                    let w = walk_frames(old(self).mem(), table, level, v, target);
                    assert(w == seq![tn] + walk_frames(old(self).mem(), next, (level - 1) as u64, v, target));
                    let s2 = old(ancestors)@ + w;
                    let idx = old(ancestors)@.len() as int + 1;
                    assert(s2[idx] == next / 4096);
                    if next / 4096 == tn {
                        assert(s2[idx - 1] == tn);
                    } else {
                        let j = choose|j: int| 0 <= j < ancestors@.len() && ancestors@[j] == next / 4096;
                        assert(s2[j] == ancestors@[j]);
                    }
                } else {
                    assert(!b_in[next as int / 4096]);
                    assert forall|j: int| 0 <= j < ancestors@.len() implies ancestors@[j] != next / 4096 by {
                        assert(locked_frame(b_in, old(pmm).frames(), ancestors@[j]));
                    }
                }
            }
            return Err(Error::MalformedTable);
        }
        let ghost mid = self.mem();
        let ghost b_mid = pmm.bits();
        let ghost link_word = word(mid, key);
        assert(is_present(link_word) && !is_huge(link_word) && frame_of(link_word) == next);
        proof {
            assert forall|j: int| 0 <= j < ancestors@.len() implies locked_frame(b_mid, old(pmm).frames(), #[trigger] ancestors@[j]) by {
                assert(locked_frame(b_in, old(pmm).frames(), ancestors@[j]));
            }
            assert(locked_frame(b_mid, old(pmm).frames(), tn));
            if !existing {
                assert forall|i2: u64| i2 < 512 implies word(mid, #[trigger] slot(next, i2)) == 0 by {
                    lemma_slot(next, i2);
                }
            }
        }
        ancestors.push(tn);
        proof {
            assert forall|j: int| 0 <= j < ancestors@.len() implies locked_frame(b_mid, old(pmm).frames(), #[trigger] ancestors@[j]) by {
                if j < ancestors@.len() - 1 {
                    assert(ancestors@[j] == old(ancestors)@[j]);
                }
            }
        }
        let r = self.map_at(pmm, next, level - 1, v, target, leaf, ancestors, Ghost(!existing));
        ancestors.pop();
        proof {
            if existing && r == Err::<(), Error>(Error::MalformedTable) {
                let w = walk_frames(old(self).mem(), table, level, v, target);
                assert(w == seq![tn] + walk_frames(old(self).mem(), next, (level - 1) as u64, v, target));
                assert(old(ancestors)@.push(tn) + walk_frames(mid, next, (level - 1) as u64, v, target)
                    =~= old(ancestors)@ + w);
            }
        }
        proof {
            if r == Err::<(), Error>(Error::AlreadyMapped) {
                let i2 = table_index((level - 1) as u64, v);
                lemma_index_bound((level - 1) as u64, v);
                if existing {
                    assert(mid == old(self).mem());
                    assert(walk(old(self).mem(), table, level, v, 0) == walk(
                        old(self).mem(),
                        next,
                        (level - 1) as u64,
                        v,
                        0,
                    ));
                } else {
                    lemma_slot(next, i2);
                    assert(slot(next, i2) != key);
                    assert(word(mid, slot(next, i2)) == 0);
                    assert(0u64 & 1u64 != 1u64) by (bit_vector);
                    assert(!is_present(word(mid, slot(next, i2))));
                    assert(walk(mid, next, (level - 1) as u64, v, 0) is None);
                }
            }
            assert(ancestors@ =~= old(ancestors)@);
            let a2 = old(ancestors)@.push(tn);
            assert(a2.contains(key / 512));
            assert(word(self.mem(), key) == link_word);
            assert forall|k: u64| #[trigger] old(ancestors)@.contains(k / 512) implies word(
                old(self).mem(),
                k,
            ) == word(self.mem(), k) by {
                assert(a2.contains(k / 512));
            }
        }
        r
    }

    /// Maps `page` to `frame` with `attributes` at table level `depth` (1
    /// for a 4 KiB page, 2 for 2 MiB, 3 for 1 GiB). With `lock_frame` the
    /// frame is first locked in `pmm`, which must accept it.
    pub fn map(
        &mut self,
        pmm: &mut PhysicalMemoryManager,
        page: u64,
        depth: u64,
        frame: u64,
        lock_frame: bool,
        attributes: u64,
    ) -> (r: Result<(), Error>)
        requires
            old(self).wf(),
            old(pmm).wf(),
            1 <= depth <= old(self).depth_spec(),
            is_frame_address(frame),
            is_attribute_set(attributes),
            is_present(attributes),
        ensures
            final(self).wf(),
            final(self).depth_spec() == old(self).depth_spec(),
            final(self).root() == old(self).root(),
            final(pmm).wf(),
            final(pmm).frames() == old(pmm).frames(),
            (depth > 1) != is_huge(attributes) ==> r == Err::<(), Error>(Error::HugeMisaligned),
            r is Ok ==> final(self).lookup(page, depth) is Some,
            r is Ok ==> found(final(self).lookup(page, 0), depth, frame | attributes),
            r is Ok ==> final(self).translate(page) == Some(frame + page_offset(depth, page)),
            r is Ok && page as int % level_size(depth) == 0 ==> final(self).translate(page) == Some(
                frame as int,
            ),
            r is Ok ==> lock_frame ==> old(pmm).bits()[PhysicalMemoryManager::index_of(
                frame as usize,
            )] == false,
            (depth > 1) == is_huge(attributes) && lock_frame && PhysicalMemoryManager::index_of(
                frame as usize,
            ) >= old(pmm).frames() ==> r == Err::<(), Error>(
                Error::Frame(FrameError::OutOfBounds(frame as usize)),
            ),
            (depth > 1) == is_huge(attributes) && lock_frame && PhysicalMemoryManager::index_of(
                frame as usize,
            ) < old(pmm).frames() && old(pmm).bits()[PhysicalMemoryManager::index_of(
                frame as usize,
            )] ==> r == Err::<(), Error>(Error::Frame(FrameError::NotFree(frame as usize))),
            ((depth > 1) != is_huge(attributes) || (lock_frame && (PhysicalMemoryManager::index_of(
                frame as usize,
            ) >= old(pmm).frames() || old(pmm).bits()[PhysicalMemoryManager::index_of(
                frame as usize,
            )]))) ==> final(self).mem() == old(self).mem() && final(pmm).bits() == old(pmm).bits(),
            r == Err::<(), Error>(Error::HugeMisaligned) <==> (depth > 1) != is_huge(attributes),
            !lock_frame ==> !(r matches Err(Error::Frame(_))),
            r == Err::<(), Error>(Error::MalformedTable) && !lock_frame ==> final(self).mem() == old(
                self,
            ).mem() && final(pmm).bits() == old(pmm).bits(),
            r == Err::<(), Error>(Error::MalformedTable) ==> malformed(
                walk_frames(old(self).mem(), old(self).root(), old(self).depth_spec(), page, depth),
                if lock_frame {
                    old(pmm).bits().update(PhysicalMemoryManager::index_of(frame as usize), true)
                } else {
                    old(pmm).bits()
                },
                old(pmm).frames(),
            ),
            r == Err::<(), Error>(Error::AlreadyMapped) ==> final(self).mem() == old(self).mem(),
            r == Err::<(), Error>(Error::AlreadyMapped) ==> match old(self).lookup(page, 0) {
                Some(x) => x.0 > depth && is_huge(x.1),
                None => false,
            },
            r == Err::<(), Error>(Error::AllocationFailure) ==> (forall|i: int|
                0 <= i < final(pmm).bits().len() ==> #[trigger] final(pmm).bits()[i])
                || final(pmm).frames() > 0x10_0000_0000,
    {
        if (depth > 1) != (attributes & HUGE == HUGE) {
            return Err(Error::HugeMisaligned);
        }
        if lock_frame {
            match pmm.lock_frame(frame as usize) {
                Ok(()) => {},
                Err(e) => return Err(Error::Frame(e)),
            }
        }
        let leaf = frame | attributes;
        proof {
            lemma_entry_parts(frame, attributes);
        }
        let mut ancestors: Vec<u64> = Vec::new();
        let root = self.root_frame;
        let top = self.depth;
        assert(!ancestors@.contains(root / 4096));
        let root_locked = if root > usize::MAX as u64 {
            false
        } else {
            match pmm.is_locked(root as usize) {
                Ok(b) => b,
                Err(_) => false,
            }
        };
        let ghost b1 = pmm.bits();
        if !root_locked {
            proof {
                pmm.lemma_bounds();
                let w = walk_frames(self.mem(), root, top, page, depth);
                assert(w[0] == root / 4096);
                if root <= usize::MAX as u64 {
                    assert((root as usize) as int / 4096 == (root / 4096) as int);
                } else {
                    assert(root / 4096 >= pmm.frames()) by (nonlinear_arith)
                        requires root > usize::MAX, pmm.frames() * 4096 <= usize::MAX;
                }
                assert(!locked_frame(b1, pmm.frames(), w[0]));
            }
            return Err(Error::MalformedTable);
        }
        proof {
            assert((root as usize) as int == root as int);
            assert(PhysicalMemoryManager::index_of(root as usize) == (root / 4096) as int);
            pmm.lemma_bounds();
            assert(locked_frame(pmm.bits(), pmm.frames(), root / 4096));
            assert(ancestors@ == Seq::<u64>::empty());
        }
        let ghost m_before = self.mem();
        let ghost anc0 = ancestors@;
        let r = self.map_at(pmm, root, top, page, depth, leaf, &mut ancestors, Ghost(false));
        proof {
            assert(m_before == old(self).mem());
            assert(anc0 + walk_frames(m_before, root, top, page, depth) =~= walk_frames(
                old(self).mem(),
                root,
                top,
                page,
                depth,
            ));
        }
        r
    }

    /// Takes a fresh frame from `pmm` and maps `page` to it as a 4 KiB page.
    pub fn auto_map(&mut self, pmm: &mut PhysicalMemoryManager, page: u64, attributes: u64) -> (r:
        Result<(), Error>)
        requires
            old(self).wf(),
            old(pmm).wf(),
            is_attribute_set(attributes),
            is_present(attributes),
            !is_huge(attributes),
        ensures
            final(self).wf(),
            final(self).depth_spec() == old(self).depth_spec(),
            final(self).root() == old(self).root(),
            final(pmm).wf(),
            final(pmm).frames() == old(pmm).frames(),
            r is Ok ==> final(self).lookup(page, 1) is Some,
            r is Ok ==> match final(self).lookup(page, 0) {
                Some(x) => x.0 == 1 && attributes_of(x.1) == attributes,
                None => false,
            },
            (forall|i: int| 0 <= i < old(pmm).bits().len() ==> old(pmm).bits()[i]) <==> r == Err::<
                (),
                Error,
            >(Error::Frame(FrameError::NoneFree)),
            r matches Err(Error::Frame(e)) ==> e == FrameError::NoneFree,
            r == Err::<(), Error>(Error::AlreadyMapped) ==> match old(self).lookup(page, 0) {
                Some(x) => x.0 > 1 && is_huge(x.1),
                None => false,
            },
            r == Err::<(), Error>(Error::AllocationFailure) ==> (forall|i: int|
                0 <= i < final(pmm).bits().len() ==> #[trigger] final(pmm).bits()[i])
                || final(pmm).frames() > 0x10_0000_0000,
            r != Err::<(), Error>(Error::HugeMisaligned),
    {
        let f = match pmm.next_frame() {
            Ok(f) => f as u64,
            Err(e) => return Err(Error::Frame(e)),
        };
        if f & !ADDRESS_MASK != 0 {
            proof {
                assert(f & !0x000F_FFFF_FFFF_F000u64 != 0 && f % 4096 == 0 ==> f
                    >= 0x10_0000_0000_0000u64) by (bit_vector);
            }
            return Err(Error::AllocationFailure);
        }
        proof {
            lemma_entry_parts(f, attributes);
        }
        self.map(pmm, page, 1, f, false, attributes)
    }

    /// Clears the present bit and the frame of the entry that maps `page`
    /// at `to_depth` (the leaf when `None`); with `free_frame` the frame goes
    /// back to `pmm`.
    pub fn unmap(
        &mut self,
        pmm: &mut PhysicalMemoryManager,
        page: u64,
        to_depth: Option<u64>,
        free_frame: bool,
    ) -> (r: Result<(), Error>)
        requires
            old(self).wf(),
            old(pmm).wf(),
        ensures
            final(self).wf(),
            final(self).depth_spec() == old(self).depth_spec(),
            final(self).root() == old(self).root(),
            final(pmm).wf(),
            final(pmm).frames() == old(pmm).frames(),
            old(self).lookup(
                page,
                match to_depth {
                    Some(d) => d,
                    None => 0,
                },
            ) is None <==> r == Err::<(), Error>(Error::NotMapped(page)),
            old(self).lookup(
                page,
                match to_depth {
                    Some(d) => d,
                    None => 0,
                },
            ) is Some ==> final(self).lookup(
                page,
                match to_depth {
                    Some(d) => d,
                    None => 0,
                },
            ) is None,
            !free_frame ==> r is Ok || r == Err::<(), Error>(Error::NotMapped(page)),
            !free_frame ==> final(pmm).bits() == old(pmm).bits(),
            old(self).lookup(page, depth_target(to_depth)) is None ==> final(self).mem() == old(
                self,
            ).mem() && final(pmm).bits() == old(pmm).bits(),
            ({
                let f = match old(self).lookup(page, depth_target(to_depth)) {
                    Some(x) => frame_of(x.1) as usize,
                    None => 0usize,
                };
                let i = PhysicalMemoryManager::index_of(f);
                free_frame && old(self).lookup(page, depth_target(to_depth)) is Some ==> (if i
                    < old(pmm).frames() && old(pmm).bits()[i] {
                    r is Ok && final(pmm).bits() == old(pmm).bits().update(i, false)
                } else {
                    r is Err && final(pmm).bits() == old(pmm).bits()
                })
            }),
    {
        let target = match to_depth {
            Some(d) => d,
            None => 0,
        };
        match self.find(page, target) {
            None => Err(Error::NotMapped(page)),
            Some((_, e, key)) => {
                let cleared = (e & !ADDRESS_MASK) & !PRESENT;
                assert(!is_present(cleared)) by {
                    assert(((e & !0x000F_FFFF_FFFF_F000u64) & !1u64) & 1u64 != 1u64) by (bit_vector);
                }
                proof {
                    lemma_walk_cleared(self.mem(), self.root(), self.depth, page, target, key, cleared);
                }
                self.memory.insert(key, cleared);
                if free_frame {
                    match pmm.free_frame((e & ADDRESS_MASK) as usize) {
                        Ok(()) => {},
                        Err(fe) => return Err(Error::Frame(fe)),
                    }
                }
                Ok(())
            },
        }
    }

    /// Combines the attributes of the entry that maps `page` at `depth` (the
    /// leaf when `None`) with `attributes` as `mode` says.
    pub fn set_page_attributes(
        &mut self,
        page: u64,
        depth: Option<u64>,
        attributes: u64,
        mode: crate::paging::FlagsModify,
    ) -> (r: Result<(), Error>)
        requires
            old(self).wf(),
        ensures
            final(self).wf(),
            final(self).depth_spec() == old(self).depth_spec(),
            final(self).root() == old(self).root(),
            old(self).lookup(
                page,
                match depth {
                    Some(d) => d,
                    None => 0,
                },
            ) is Some ==> r is Ok && final(self).mem() == old(self).mem().insert(
                old(self).lookup(page, match depth { Some(d) => d, None => 0 }).unwrap().2,
                frame_of(old(self).lookup(page, match depth { Some(d) => d, None => 0 }).unwrap().1)
                    | (crate::paging::modify_spec(
                    attributes_of(old(self).lookup(page, match depth { Some(d) => d, None => 0 }).unwrap().1),
                    attributes,
                    mode,
                ) & !ADDRESS_MASK),
            ),
            old(self).lookup(
                page,
                match depth {
                    Some(d) => d,
                    None => 0,
                },
            ) is None ==> r == Err::<(), Error>(Error::NotMapped(page)) && final(self).mem()
                == old(self).mem(),
    {
        let target = match depth {
            Some(d) => d,
            None => 0,
        };
        match self.find(page, target) {
            None => Err(Error::NotMapped(page)),
            Some((_, e, key)) => {
                let mut entry = crate::paging::PageTableEntry { raw: e };
                entry.set_attributes(attributes, mode);
                self.memory.insert(key, entry.raw);
                Ok(())
            },
        }
    }

    /// A new tree whose root shares the kernel half of `kernel`: a fresh
    /// root table in which the upper 256 entries are copied from the
    /// kernel's root and the lower 256 are zero. The kernel's tables are
    /// carried along, so the kernel half walks alike in both.
    pub fn copy_kernel_half(kernel: &Mapper, pmm: &mut PhysicalMemoryManager) -> (r: Result<
        Mapper,
        Error,
    >)
        requires
            kernel.wf(),
            old(pmm).wf(),
        ensures
            final(pmm).wf(),
            final(pmm).frames() == old(pmm).frames(),
            r matches Ok(m) ==> {
                &&& m.wf()
                &&& m.depth_spec() == kernel.depth_spec()
                &&& forall|i: int|
                    256 <= i < 512 ==> #[trigger] m.root_entries()[i] == kernel.root_entries()[i]
                &&& forall|i: int| 0 <= i < 256 ==> #[trigger] m.root_entries()[i] == 0
                &&& m.root() != kernel.root()
                &&& m.root() % 4096 == 0
                &&& old(pmm).is_first_free(m.root() as int / 4096)
                &&& final(pmm).bits() == old(pmm).bits().update(m.root() as int / 4096, true)
            },
            (forall|i: int| 0 <= i < old(pmm).bits().len() ==> old(pmm).bits()[i]) ==> r is Err
                && final(pmm).bits() == old(pmm).bits(),
            forall|i: int|
                old(pmm).is_first_free(i) && i * 4096 != kernel.root() && i * 4096
                    <= 0x000F_FFFF_FFFF_F000 ==> r is Ok,
    {
        let f = match pmm.next_frame() {
            Ok(f) => f as u64,
            Err(_) => return Err(Error::AllocationFailure),
        };
        proof {
            let k = f as int / 4096;
            assert(f as int == k * 4096) by (nonlinear_arith)
                requires f % 4096 == 0, k == f as int / 4096;
            assert(f % 4096 == 0 && f <= 0x000F_FFFF_FFFF_F000u64 ==> f & !0x000F_FFFF_FFFF_F000u64 == 0)
                by (bit_vector);
            assert forall|i: int| #[trigger] old(pmm).is_first_free(i) implies i == k by {
                if i < k {
                    assert(old(pmm).bits()[i]);
                } else if i > k {
                    assert(old(pmm).bits()[k]);
                }
            }
        }
        if f & !ADDRESS_MASK != 0 {
            return Err(Error::AllocationFailure);
        }
        if f == kernel.root_frame {
            return Err(Error::MalformedTable);
        }
        let mut m = Mapper { depth: kernel.depth, root_frame: f, memory: kernel.memory.clone() };
        m.zero_table(f);
        let mut i: u64 = 256;
        while i < TABLE_ENTRIES
            invariant
                kernel.wf(),
                m.wf(),
                m.depth == kernel.depth,
                m.root_frame == f,
                256 <= i <= 512,
                forall|j: u64| j < 256 ==> word(m.mem(), #[trigger] slot(f, j)) == 0,
                forall|j: u64|
                    256 <= j < i ==> word(m.mem(), #[trigger] slot(f, j)) == word(
                        kernel.mem(),
                        slot(kernel.root(), j),
                    ),
            decreases 512 - i,
        {
            proof {
                lemma_slot(f, i);
                lemma_slot(kernel.root_frame, i);
            }
            let value = kernel.read((kernel.root_frame / 4096) * 512 + i);
            m.memory.insert((f / 4096) * 512 + i, value);
            proof {
                assert forall|j: u64| j < 256 implies word(m.mem(), #[trigger] slot(f, j)) == 0 by {
                    lemma_slot(f, j);
                }
                assert forall|j: u64| 256 <= j < i + 1 implies word(m.mem(), #[trigger] slot(f, j))
                    == word(kernel.mem(), slot(kernel.root(), j)) by {
                    lemma_slot(f, j);
                }
            }
            i = i + 1;
        }
        proof {
            assert forall|i: int| 256 <= i < 512 implies #[trigger] m.root_entries()[i]
                == kernel.root_entries()[i] by {
                assert(slot(f, i as u64) == slot(m.root(), i as u64));
            }
            assert forall|i: int| 0 <= i < 256 implies #[trigger] m.root_entries()[i] == 0 by {
                assert(slot(f, i as u64) == slot(m.root(), i as u64));
            }
        }
        Ok(m)
    }

    pub fn depth(&self) -> (r: u64)
        ensures
            r == self.depth_spec(),
    {
        self.depth
    }

    pub fn root_frame(&self) -> (r: u64)
        ensures
            r == self.root(),
    {
        self.root_frame
    }

    /// The root table's entries.
    pub fn view_page_table(&self) -> (r: Vec<u64>)
        requires
            self.wf(),
        ensures
            r@ == self.root_entries(),
    {
        let mut r: Vec<u64> = Vec::new();
        let mut i: u64 = 0;
        while i < TABLE_ENTRIES
            invariant
                self.wf(),
                i <= 512,
                r@.len() == i,
                forall|j: int| 0 <= j < i ==> r@[j] == word(self.mem(), slot(self.root(), j as u64)),
            decreases 512 - i,
        {
            proof {
                lemma_slot(self.root_frame, i);
            }
            r.push(self.read((self.root_frame / 4096) * 512 + i));
            i = i + 1;
        }
        assert(r@ =~= self.root_entries());
        r
    }
}

} // verus!
