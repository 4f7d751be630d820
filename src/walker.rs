//! A read-only walk over the leaves of a page-table tree at one depth,
//! used to find unmapped virtual ranges.
use vstd::prelude::*;
use crate::mapper::{Mapper, slot, table_index, walk, word};
use crate::paging::{ADDRESS_MASK, HUGE, PRESENT, frame_of, is_frame_address, is_huge, is_present};

verus! {

/// `512^k`.
pub open spec fn pow512(k: nat) -> nat
    decreases k,
{
    if k == 0 {
        1
    } else {
        512 * pow512((k - 1) as nat)
    }
}

/// What one entry of the table in `table` at `level` contributes to the
/// leaves at `target`: `None` for each leaf under an absent entry, the
/// entry itself for each leaf that a present leaf or huge entry maps, the
/// leaves of the next table otherwise.
pub open spec fn entry_leaves(mem: Map<u64, u64>, table: u64, level: u64, target: u64, i: nat) -> Seq<
    Option<u64>,
>
    decreases level - target, 0nat,
{
    let e = word(mem, slot(table, i as u64));
    let n = pow512((level - target) as nat);
    if level < target || level < 1 {
        Seq::empty()
    } else if !is_present(e) {
        Seq::new(n, |k: int| None::<u64>)
    } else if level == target || is_huge(e) {
        Seq::new(n, |k: int| Some(e))
    } else {
        leaves_from(mem, frame_of(e), (level - 1) as u64, target, 0)
    }
}

/// The leaves under entries `i..512` of the table in `table` at `level`.
pub open spec fn leaves_from(mem: Map<u64, u64>, table: u64, level: u64, target: u64, i: nat) -> Seq<
    Option<u64>,
>
    decreases level - target, 513 - i,
{
    if i >= 512 || level < target || level < 1 {
        Seq::empty()
    } else {
        entry_leaves(mem, table, level, target, i) + leaves_from(mem, table, level, target, i + 1)
    }
}

/// `count` leaves from `i` are all absent.
pub open spec fn absent_run(s: Seq<Option<u64>>, i: int, count: int) -> bool {
    &&& 0 <= i
    &&& i + count <= s.len()
    &&& forall|j: int| i <= j < i + count ==> s[j] is None
}

/// The scan of the prefix `p` ended with `run` absent leaves and found no
/// run of `count`.
pub open spec fn scanned(p: Seq<Option<u64>>, run: int, count: int) -> bool {
    &&& 0 <= run < count
    &&& run <= p.len()
    &&& forall|j: int| #![trigger absent_run(p, j, count)] !absent_run(p, j, count)
    &&& forall|k: int| p.len() - run <= k < p.len() ==> p[k] is None
    &&& (run == p.len() || p[p.len() - run - 1] is Some)
}

/// Where a scan stands after a table.
pub enum Scan {
    Found(u64),
    Going { pos: u64, run: u64 },
}

proof fn lemma_absent_block(p: Seq<Option<u64>>, run: int, count: int, n: nat)
    requires
        scanned(p, run, count),
        run + n < count,
    ensures
        scanned(p + Seq::new(n, |k: int| None::<u64>), run + n, count),
{
    let q = p + Seq::new(n, |k: int| None::<u64>);
    assert forall|j: int| #![trigger absent_run(q, j, count)] !absent_run(q, j, count) by {
        if absent_run(q, j, count) {
            if j + count <= p.len() {
                assert forall|k: int| j <= k < j + count implies p[k] is None by {
                    assert(q[k] == p[k]);
                }
                assert(absent_run(p, j, count));
            } else {
                // The window reaches back past the current run.
                assert(j <= p.len() - run - 1);
                assert(q[p.len() - run - 1] == p[p.len() - run - 1]);
            }
        }
    }
}

proof fn lemma_absent_found(p: Seq<Option<u64>>, run: int, count: int, n: nat, q: Seq<Option<u64>>)
    requires
        scanned(p, run, count),
        run + n >= count,
        q.len() >= p.len() + n,
        forall|k: int| 0 <= k < p.len() ==> q[k] == p[k],
        forall|k: int| p.len() <= k < p.len() + n ==> q[k] is None,
    ensures
        absent_run(q, p.len() - run, count),
        forall|j: int| 0 <= j < p.len() - run ==> !#[trigger] absent_run(q, j, count),
{
    assert forall|j: int| 0 <= j < p.len() - run implies !#[trigger] absent_run(q, j, count) by {
        if absent_run(q, j, count) {
            if j + count <= p.len() {
                assert forall|k: int| j <= k < j + count implies p[k] is None by {
                    assert(q[k] == p[k]);
                }
                assert(absent_run(p, j, count));
            } else {
                assert(q[p.len() - run - 1] == p[p.len() - run - 1]);
            }
        }
    }
    assert forall|k: int| p.len() - run <= k < p.len() - run + count implies q[k] is None by {
        if k < p.len() {
            assert(q[k] == p[k]);
        }
    }
}

proof fn lemma_present_block(p: Seq<Option<u64>>, run: int, count: int, n: nat, e: u64)
    requires
        scanned(p, run, count),
        n >= 1,
    ensures
        scanned(p + Seq::new(n, |k: int| Some(e)), 0, count),
{
    let q = p + Seq::new(n, |k: int| Some(e));
    assert forall|j: int| #![trigger absent_run(q, j, count)] !absent_run(q, j, count) by {
        if absent_run(q, j, count) {
            if j + count <= p.len() {
                assert forall|k: int| j <= k < j + count implies p[k] is None by {
                    assert(q[k] == p[k]);
                }
                assert(absent_run(p, j, count));
            } else {
                let k = if j >= p.len() {
                    j
                } else {
                    p.len() as int
                };
                assert(q[k] is Some);
            }
        }
    }
}

/// Windows found inside a prefix stay found, and stay first, however the
/// sequence goes on.
proof fn lemma_found_extends(p: Seq<Option<u64>>, i: int, count: int, t: Seq<Option<u64>>)
    requires
        absent_run(p, i, count),
        forall|j: int| 0 <= j < i ==> !#[trigger] absent_run(p, j, count),
    ensures
        absent_run(p + t, i, count),
        forall|j: int| 0 <= j < i ==> !#[trigger] absent_run(p + t, j, count),
{
    assert forall|j: int| 0 <= j < i implies !absent_run(p + t, j, count) by {
        if absent_run(p + t, j, count) {
            assert forall|k: int| j <= k < j + count implies p[k] is None by {
                assert((p + t)[k] == p[k]);
            }
            assert(absent_run(p, j, count));
        }
    }
    assert forall|k: int| i <= k < i + count implies (p + t)[k] is None by {
        assert((p + t)[k] == p[k]);
    }
}

proof fn lemma_pow512_bound(k: nat)
    requires
        k <= 4,
    ensures
        pow512(k) <= 0x10_0000_0000,
{
    reveal_with_fuel(pow512, 5);
    assert(k == 0 || k == 1 || k == 2 || k == 3 || k == 4);
}

pub proof fn lemma_pow512_pos(k: nat)
    ensures
        pow512(k) >= 1,
    decreases k,
{
    if k > 0 {
        lemma_pow512_pos((k - 1) as nat);
    }
}

proof fn lemma_leaves_len(mem: Map<u64, u64>, table: u64, level: u64, target: u64, i: nat)
    requires
        1 <= target <= level,
        i <= 512,
    ensures
        leaves_from(mem, table, level, target, i).len() == (512 - i) * pow512((level - target) as nat),
    decreases level - target, 513 - i,
{
    if i < 512 {
        lemma_leaves_len(mem, table, level, target, i + 1);
        assert(leaves_from(mem, table, level, target, i) == entry_leaves(mem, table, level, target, i)
            + leaves_from(mem, table, level, target, i + 1));
        let e = word(mem, slot(table, i as u64));
        if !(is_present(e) && level != target && !is_huge(e)) {
            assert(entry_leaves(mem, table, level, target, i).len() == pow512((level - target) as nat));
        }
        if is_present(e) && level != target && !is_huge(e) {
            lemma_leaves_len(mem, frame_of(e), (level - 1) as u64, target, 0);
            assert(pow512((level - target) as nat) == 512 * pow512((level - 1 - target) as nat));
            assert(entry_leaves(mem, table, level, target, i) == leaves_from(
                mem,
                frame_of(e),
                (level - 1) as u64,
                target,
                0,
            ));
            assert((((level - 1) as u64) - target) as nat == (level - 1 - target) as nat);
            assert(entry_leaves(mem, table, level, target, i).len() == pow512((level - target) as nat));
        }
        let p = pow512((level - target) as nat);
        assert((512 - i) * p == p + (512 - (i + 1)) * p) by (nonlinear_arith);
        assert(leaves_from(mem, table, level, target, i).len() == entry_leaves(
            mem,
            table,
            level,
            target,
            i,
        ).len() + leaves_from(mem, table, level, target, i + 1).len());
    } else {
        assert(leaves_from(mem, table, level, target, i).len() == 0);
        assert((512 - i) * pow512((level - target) as nat) == 0);
    }
}

pub proof fn lemma_entry_len(mem: Map<u64, u64>, table: u64, level: u64, target: u64, i: nat)
    requires
        1 <= target <= level,
        i < 512,
    ensures
        entry_leaves(mem, table, level, target, i).len() == pow512((level - target) as nat),
{
    let e = word(mem, slot(table, i as u64));
    if is_present(e) && level != target && !is_huge(e) {
        lemma_leaves_len(mem, frame_of(e), (level - 1) as u64, target, 0);
        assert((((level - 1) as u64) - target) as nat == (level - 1 - target) as nat);
        assert(pow512((level - target) as nat) == 512 * pow512((level - 1 - target) as nat));
    }
}

/// Leaf `m` of the entries from `j` lies in entry `j + m / span`, at
/// `m % span`.
proof fn lemma_leaf_index(mem: Map<u64, u64>, table: u64, level: u64, target: u64, j: nat, m: int)
    requires
        1 <= target <= level,
        j < 512,
        0 <= m < (512 - j) * pow512((level - target) as nat),
    ensures
        j + m / (pow512((level - target) as nat) as int) < 512,
        leaves_from(mem, table, level, target, j)[m] == entry_leaves(
            mem,
            table,
            level,
            target,
            (j + m / (pow512((level - target) as nat) as int)) as nat,
        )[m % (pow512((level - target) as nat) as int)],
    decreases 512 - j,
{
    let p = pow512((level - target) as nat) as int;
    lemma_pow512_pos((level - target) as nat);
    lemma_entry_len(mem, table, level, target, j);
    lemma_leaves_len(mem, table, level, target, j + 1);
    assert(leaves_from(mem, table, level, target, j) == entry_leaves(mem, table, level, target, j)
        + leaves_from(mem, table, level, target, j + 1));
    assert((512 - j) * p == p + (512 - (j + 1)) * p) by (nonlinear_arith);
    if m < p {
        assert(m / p == 0 && m % p == m) by (nonlinear_arith)
            requires 0 <= m < p;
    } else {
        assert(m - p < (512 - (j + 1)) * p);
        assert(j + 1 < 512) by (nonlinear_arith)
            requires p <= m < (512 - j) * p, p >= 1, j < 512;
        lemma_leaf_index(mem, table, level, target, j + 1, m - p);
        assert((m - p) / p == m / p - 1 && (m - p) % p == m % p) by (nonlinear_arith)
            requires p <= m, p >= 1;
    }
}

/// The index of level `l`'s table entry for `v` counts `512^(l-1)` pages.
pub proof fn lemma_table_index(l: u64, v: u64)
    requires
        1 <= l <= 5,
    ensures
        table_index(l, v) as int == (v as int / 4096) / (pow512((l - 1) as nat) as int) % 512,
{
    reveal_with_fuel(pow512, 5);
    vstd::arithmetic::div_mod::lemma_div_denominator(v as int, 4096, pow512((l - 1) as nat) as int);
    if l == 1 {
        assert((v >> 12u64) & 511u64 == (v / 0x1000u64) % 512u64) by (bit_vector);
    } else if l == 2 {
        assert((v >> 21u64) & 511u64 == (v / 0x20_0000u64) % 512u64) by (bit_vector);
    } else if l == 3 {
        assert((v >> 30u64) & 511u64 == (v / 0x4000_0000u64) % 512u64) by (bit_vector);
    } else if l == 4 {
        assert((v >> 39u64) & 511u64 == (v / 0x80_0000_0000u64) % 512u64) by (bit_vector);
    } else {
        assert((v >> 48u64) & 511u64 == (v / 0x1_0000_0000_0000u64) % 512u64) by (bit_vector);
    }
}

/// The leaf of page `v`'s number (modulo the leaves the table spans) is
/// absent exactly when the walk of `v` finds no mapping.
pub proof fn lemma_leaf_walk(mem: Map<u64, u64>, table: u64, level: u64, v: u64)
    requires
        1 <= level <= 5,
    ensures
        leaves_from(mem, table, level, 1, 0).len() == pow512(level as nat),
        leaves_from(mem, table, level, 1, 0)[(v as int / 4096) % (pow512(level as nat) as int)] is None
            <==> walk(mem, table, level, v, 0) is None,
    decreases level,
{
    let x = v as int / 4096;
    let p = pow512((level - 1) as nat) as int;
    lemma_pow512_pos((level - 1) as nat);
    assert(pow512(level as nat) == 512 * pow512((level - 1) as nat));
    lemma_leaves_len(mem, table, level, 1, 0);
    let i = x % (pow512(level as nat) as int);
    vstd::arithmetic::div_mod::lemma_mod_breakdown(x, p, 512);
    assert(p * 512 == pow512(level as nat) as int);
    assert(0 <= x % p < p) by (nonlinear_arith)
        requires p >= 1, x >= 0;
    assert(0 <= (x / p) % 512 < 512) by (nonlinear_arith)
        requires p >= 1, x >= 0;
    let k = (x / p) % 512;
    assert(i == p * k + x % p);
    assert(i / p == k && i % p == x % p) by (nonlinear_arith)
        requires i == p * k + x % p, 0 <= x % p < p, p >= 1;
    assert(0 <= i < 512 * p) by (nonlinear_arith)
        requires i == p * k + x % p, 0 <= x % p < p, 0 <= k < 512, p >= 1;
    lemma_leaf_index(mem, table, level, 1, 0, i);
    lemma_table_index(level, v);
    assert(table_index(level, v) as int == k);
    let e = word(mem, slot(table, k as u64));
    if is_present(e) && level != 1 && !is_huge(e) {
        lemma_leaf_walk(mem, frame_of(e), (level - 1) as u64, v);
        assert(((level - 1) as u64) as nat == (level - 1) as nat);
    }
}

/// A walk from the root table of a tree at `root_depth` down to
/// `target_depth`.
pub struct Walker {
    root_table: u64,
    root_depth: u64,
    target_depth: u64,
}

/// Leaves that one entry at `level` spans at `target`.
fn span(level: u64, target: u64) -> (r: u64)
    requires
        1 <= target <= level <= 5,
    ensures
        r == pow512((level - target) as nat),
        r <= 0x10_0000_0000,
{
    proof {
        reveal_with_fuel(pow512, 5);
    }
    let d = level - target;
    if d == 0 {
        1
    } else if d == 1 {
        512
    } else if d == 2 {
        0x4_0000
    } else if d == 3 {
        0x800_0000
    } else {
        0x10_0000_0000
    }
}

impl Walker {
    pub closed spec fn root(&self) -> u64 {
        self.root_table
    }

    pub closed spec fn depth(&self) -> u64 {
        self.root_depth
    }

    pub closed spec fn target(&self) -> u64 {
        self.target_depth
    }

    /// A walk of `mapper`'s tree down to `target_depth`; `None` when the
    /// target lies below the leaf level or above the root.
    pub fn new(mapper: &Mapper, target_depth: u64) -> (r: Option<Walker>)
        requires
            mapper.wf(),
        ensures
            r is Some <==> 1 <= target_depth <= mapper.depth_spec(),
            r matches Some(w) ==> w.root() == mapper.root() && w.depth() == mapper.depth_spec()
                && w.target() == target_depth,
    {
        if target_depth < 1 || target_depth > mapper.depth() {
            None
        } else {
            Some(Walker { root_table: mapper.root_frame(), root_depth: mapper.depth(), target_depth })
        }
    }

    /// Scans the leaves under the table in `table` at `level`, going on
    /// from a scan that has seen `prefix` (`pos` leaves, the last `run` of
    /// them absent).
    fn scan_table(
        &self,
        mapper: &Mapper,
        table: u64,
        level: u64,
        count: u64,
        pos: u64,
        run: u64,
        Ghost(prefix): Ghost<Seq<Option<u64>>>,
    ) -> (r: Scan)
        requires
            1 <= self.target() <= level <= 5,
            is_frame_address(table),
            prefix.len() == pos,
            scanned(prefix, run as int, count as int),
            pos + 512 * pow512((level - self.target()) as nat) <= 0x40_0000_0000_0000,
        ensures
            match r {
                Scan::Found(i) => {
                    &&& absent_run(
                        prefix + leaves_from(mapper.mem(), table, level, self.target(), 0),
                        i as int,
                        count as int,
                    )
                    &&& forall|j: int|
                        0 <= j < i ==> !#[trigger] absent_run(
                            prefix + leaves_from(mapper.mem(), table, level, self.target(), 0),
                            j,
                            count as int,
                        )
                },
                Scan::Going { pos: p2, run: r2 } => {
                    &&& p2 == (prefix + leaves_from(mapper.mem(), table, level, self.target(), 0)).len()
                    &&& scanned(
                        prefix + leaves_from(mapper.mem(), table, level, self.target(), 0),
                        r2 as int,
                        count as int,
                    )
                },
            },
        decreases level,
    {
        let target = self.target_depth;
        let ghost mem = mapper.mem();
        let ghost q = prefix + leaves_from(mem, table, level, target, 0);
        let n = span(level, target);
        let mut i: u64 = 0;
        let mut pos = pos;
        let mut run = run;
        let ghost mut done = prefix;
        assert(done + leaves_from(mem, table, level, target, 0) == q);
        while i < 512
            invariant
                1 <= target <= level <= 5,
                target == self.target(),
                mem == mapper.mem(),
                is_frame_address(table),
                n == pow512((level - target) as nat),
                i <= 512,
                q == prefix + leaves_from(mem, table, level, target, 0),
                done + leaves_from(mem, table, level, target, i as nat) == q,
                done.len() == pos,
                pos == prefix.len() + i * n,
                prefix.len() + 512 * n <= 0x40_0000_0000_0000,
                scanned(done, run as int, count as int),
            decreases 512 - i,
        {
            proof {
                crate::mapper::lemma_slot_public(table, i);
            }
            let key = (table / 4096) * 512 + i;
            let e = mapper.read_word(key);
            let ghost rest = leaves_from(mem, table, level, target, (i + 1) as nat);
            let ghost head = entry_leaves(mem, table, level, target, i as nat);
            assert(leaves_from(mem, table, level, target, i as nat) == head + rest);
            assert((i + 1) * n <= 512 * n) by (nonlinear_arith)
                requires i < 512;
            assert(pos + n == prefix.len() + (i + 1) * n) by (nonlinear_arith)
                requires pos == prefix.len() + i * n;
            if e & PRESENT != PRESENT {
                assert(head =~= Seq::new(n as nat, |k: int| None::<u64>));
                if run + n >= count {
                    proof {
                        assert(q =~= done + head + rest);
                        lemma_absent_found(done, run as int, count as int, n as nat, q);
                    }
                    return Scan::Found(pos - run);
                }
                proof {
                    lemma_absent_block(done, run as int, count as int, n as nat);
                    assert(done + head + rest =~= q);
                    done = done + head;
                }
                run = run + n;
                pos = pos + n;
            } else if level == target || e & HUGE == HUGE {
                assert(head =~= Seq::new(n as nat, |k: int| Some(e)));
                proof {
                    lemma_pow512_pos((level - target) as nat);
                    lemma_present_block(done, run as int, count as int, n as nat, e);
                    assert(done + head + rest =~= q);
                    done = done + head;
                }
                run = 0;
                pos = pos + n;
            } else {
                proof {
                    crate::mapper::lemma_frame_address_public(e);
                    lemma_leaves_len(mem, frame_of(e), (level - 1) as u64, target, 0);
                    assert(n == 512 * pow512((level - 1 - target) as nat));
                }
                let child = e & ADDRESS_MASK;
                match self.scan_table(mapper, child, level - 1, count, pos, run, Ghost(done)) {
                    Scan::Found(found) => {
                        proof {
                            assert(head == leaves_from(mem, child, (level - 1) as u64, target, 0));
                            lemma_found_extends(done + head, found as int, count as int, rest);
                            assert(done + head + rest =~= q);
                        }
                        return Scan::Found(found);
                    },
                    Scan::Going { pos: p2, run: r2 } => {
                        proof {
                            assert(head == leaves_from(mem, child, (level - 1) as u64, target, 0));
                            assert(done + head + rest =~= q);
                            done = done + head;
                        }
                        pos = p2;
                        run = r2;
                    },
                }
            }
            i = i + 1;
        }
        proof {
            assert(done =~= q);
        }
        Scan::Going { pos, run }
    }

    /// The index of the first leaf of the lowest run of `count` absent
    /// leaves, or `None` when there is none.
    pub fn find_absent_run(&self, mapper: &Mapper, count: u64) -> (r: Option<u64>)
        requires
            mapper.wf(),
            self.root() == mapper.root(),
            self.depth() == mapper.depth_spec(),
            1 <= self.target() <= self.depth(),
            count >= 1,
        ensures
            r matches Some(i) ==> absent_run(self.leaves(mapper), i as int, count as int)
                && forall|j: int| 0 <= j < i ==> !#[trigger] absent_run(self.leaves(mapper), j, count as int),
            r is None ==> forall|j: int| !#[trigger] absent_run(self.leaves(mapper), j, count as int),
    {
        proof {
            mapper.lemma_wf_bounds();
            lemma_pow512_bound((self.depth() - self.target()) as nat);
            assert(Seq::<Option<u64>>::empty() + self.leaves(mapper) =~= self.leaves(mapper));
            assert(scanned(Seq::<Option<u64>>::empty(), 0, count as int));
        }
        match self.scan_table(
            mapper,
            self.root_table,
            self.root_depth,
            count,
            0,
            0,
            Ghost(Seq::<Option<u64>>::empty()),
        ) {
            Scan::Found(i) => Some(i),
            Scan::Going { .. } => None,
        }
    }

    /// Leaf `index` of the walk under the table in `table` at `level`.
    fn leaf_under(&self, mapper: &Mapper, table: u64, level: u64, index: u64) -> (r: Option<u64>)
        requires
            mapper.wf(),
            1 <= self.target() <= level <= 5,
            is_frame_address(table),
            index < 512 * pow512((level - self.target()) as nat),
        ensures
            r == leaves_from(mapper.mem(), table, level, self.target(), 0)[index as int],
        decreases level,
    {
        let target = self.target_depth;
        let n = span(level, target);
        proof {
            lemma_pow512_pos((level - target) as nat);
            lemma_leaf_index(mapper.mem(), table, level, target, 0, index as int);
        }
        let k = index / n;
        let m = index % n;
        assert(k < 512) by (nonlinear_arith)
            requires index < 512 * n, n >= 1, k == index / n;
        proof {
            crate::mapper::lemma_slot_public(table, k);
            lemma_entry_len(mapper.mem(), table, level, target, k as nat);
        }
        let e = mapper.read_word((table / 4096) * 512 + k);
        if e & PRESENT != PRESENT {
            None
        } else if level == target || e & HUGE == HUGE {
            Some(e)
        } else {
            proof {
                crate::mapper::lemma_frame_address_public(e);
                assert(n == 512 * pow512((level - 1 - target) as nat));
                assert((((level - 1) as u64) - target) as nat == (level - 1 - target) as nat);
            }
            self.leaf_under(mapper, e & ADDRESS_MASK, level - 1, m)
        }
    }

    /// Leaf `index` of the walk, in address order: `None` when absent, the
    /// entry that maps it otherwise. Visiting the indices in order visits
    /// every leaf in order.
    pub fn leaf(&self, mapper: &Mapper, index: u64) -> (r: Option<u64>)
        requires
            mapper.wf(),
            self.root() == mapper.root(),
            self.depth() == mapper.depth_spec(),
            1 <= self.target() <= self.depth(),
            index < self.leaves(mapper).len(),
        ensures
            r == self.leaves(mapper)[index as int],
    {
        proof {
            mapper.lemma_wf_bounds();
            lemma_leaves_len(mapper.mem(), self.root(), self.depth(), self.target(), 0);
        }
        self.leaf_under(mapper, self.root_table, self.root_depth, index)
    }

    /// The leaves of the walk, in address order.
    pub open spec fn leaves(&self, mapper: &Mapper) -> Seq<Option<u64>> {
        leaves_from(mapper.mem(), self.root(), self.depth(), self.target(), 0)
    }
}

} // verus!
