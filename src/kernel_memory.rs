//! Building the kernel's own mappings: the direct map of every memory-map
//! entry and the kernel's executable segments, each cut into the largest
//! pages that the hardware offers and the range allows.
use vstd::prelude::*;
use crate::address_space::MmapPermissions;
use crate::mapper::{Error, Mapper, level_size, page_offset, table_index, walk};
use crate::walker::{lemma_pow512_pos, lemma_table_index, pow512};
use crate::paging::{HUGE, RO, RW, is_attribute_set, is_frame_address, is_huge, is_present};
use crate::pmm::{EntryType, MemoryMapEntry, PhysicalMemoryManager};
use elf::endian::AnyEndian;
use elf::ElfBytes;

verus! {

pub const PAGE: u64 = 0x1000;
pub const MEGA_PAGE: u64 = 0x20_0000;
pub const GIGA_PAGE: u64 = 0x4000_0000;

/// The table level and size of the next piece of a range that starts at
/// `from` with `remaining` bytes: a giga page where allowed, else a mega
/// page, else a 4 KiB page.
pub open spec fn granularity(from: u64, remaining: u64, giga: bool, mega: bool) -> (u64, u64) {
    if giga && remaining >= GIGA_PAGE && from % GIGA_PAGE == 0 {
        (3, GIGA_PAGE)
    } else if mega && remaining >= MEGA_PAGE && from % MEGA_PAGE == 0 {
        (2, MEGA_PAGE)
    } else {
        (1, PAGE)
    }
}

/// The pieces, `(page, frame, level)`, that a range is mapped in.
pub open spec fn pieces(from: u64, to: u64, remaining: u64, giga: bool, mega: bool) -> Seq<
    (u64, u64, u64),
>
    decreases remaining,
{
    if remaining == 0 {
        Seq::empty()
    } else {
        let (level, size) = granularity(from, remaining, giga, mega);
        let step = if size < remaining {
            size
        } else {
            remaining
        };
        seq![(from, to, level)] + pieces(
            (from + size) as u64,
            (to + size) as u64,
            (remaining - step) as u64,
            giga,
            mega,
        )
    }
}

/// The next piece's level and size.
pub fn page_granularity(from: u64, remaining: u64, giga: bool, mega: bool) -> (r: (u64, u64))
    ensures
        r == granularity(from, remaining, giga, mega),
{
    if giga && remaining >= GIGA_PAGE && from % GIGA_PAGE == 0 {
        (3, GIGA_PAGE)
    } else if mega && remaining >= MEGA_PAGE && from % MEGA_PAGE == 0 {
        (2, MEGA_PAGE)
    } else {
        (1, PAGE)
    }
}

/// The attributes of the direct map of a memory-map entry: read-write for
/// memory in use or free, read-only for reserved memory and the kernel's
/// image; bad memory is not mapped.
pub fn entry_flags(t: EntryType) -> (r: Option<u64>)
    ensures
        r == match t {
            EntryType::Usable | EntryType::AcpiNvs | EntryType::AcpiReclaimable
            | EntryType::BootloaderReclaimable | EntryType::Framebuffer => Some(RW),
            EntryType::Reserved | EntryType::ExecutableAndModules => Some(RO),
            EntryType::BadMemory => None::<u64>,
        },
{
    match t {
        EntryType::Usable | EntryType::AcpiNvs | EntryType::AcpiReclaimable
        | EntryType::BootloaderReclaimable | EntryType::Framebuffer => Some(RW),
        EntryType::Reserved | EntryType::ExecutableAndModules => Some(RO),
        EntryType::BadMemory => None,
    }
}

/// Segment flag bits of an ELF program header.
pub const PF_X: u32 = 0x1;
pub const PF_W: u32 = 0x2;

/// The permissions of an ELF segment: executable segments are read-execute,
/// writable ones read-write, the rest read-only.
pub fn segment_permissions(p_flags: u32) -> (r: MmapPermissions)
    ensures
        r == if p_flags & PF_X != 0 {
            MmapPermissions::ReadExecute
        } else if p_flags & PF_W != 0 {
            MmapPermissions::ReadWrite
        } else {
            MmapPermissions::ReadOnly
        },
{
    if p_flags & PF_X != 0 {
        MmapPermissions::ReadExecute
    } else if p_flags & PF_W != 0 {
        MmapPermissions::ReadWrite
    } else {
        MmapPermissions::ReadOnly
    }
}

/// Where a loadable segment of the kernel goes: its page, its frame and
/// its length (its size in memory, or its alignment when that is larger, so
/// that small aligned segments can take a large page).
pub fn kernel_segment(
    p_vaddr: u64,
    p_memsz: u64,
    p_align: u64,
    physical_base: u64,
    virtual_base: u64,
) -> (r: Option<(u64, u64, u64)>)
    ensures
        r is Some <==> (virtual_base <= p_vaddr && physical_base + (p_vaddr - virtual_base)
            <= u64::MAX),
        r matches Some((page, frame, length)) ==> {
            &&& page == p_vaddr
            &&& frame == physical_base + (p_vaddr - virtual_base)
            &&& length == if p_memsz > p_align {
                p_memsz
            } else {
                p_align
            }
        },
{
    if p_vaddr < virtual_base {
        return None;
    }
    let offset = p_vaddr - virtual_base;
    if physical_base > u64::MAX - offset {
        return None;
    }
    let length = if p_memsz > p_align {
        p_memsz
    } else {
        p_align
    };
    Some((p_vaddr, physical_base + offset, length))
}

/// The walk of some piece of `p` passes a table twice or a table whose
/// frame is not locked.
pub open spec fn bad_piece_walk(m: Mapper, bits: Seq<bool>, frames: nat, p: Seq<(u64, u64, u64)>) -> bool {
    exists|k: int|
        0 <= k < p.len() && crate::mapper::malformed(
            crate::mapper::walk_frames(m.mem(), m.root(), m.depth_spec(), (#[trigger] p[k]).0, p[k].2),
            bits,
            frames,
        )
}

/// Some piece of `p` is covered, in `m`, by a huge entry above its level.
pub open spec fn huge_in_way(m: Mapper, p: Seq<(u64, u64, u64)>) -> bool {
    exists|k: int|
        0 <= k < p.len() && match m.lookup((#[trigger] p[k]).0, 0) {
            Some(x) => x.0 > p[k].2 && is_huge(x.1),
            None => false,
        }
}

/// The attributes that a piece at `level` is mapped with.
pub open spec fn piece_flags(flags: u64, level: u64) -> u64 {
    if level > 1 {
        flags | HUGE
    } else {
        flags
    }
}

/// Every piece of `p` is mapped in `m`: its page's leaf sits at the piece's
/// level with the piece's frame and attributes, and translates to the frame.
pub open spec fn pieces_mapped(m: Mapper, p: Seq<(u64, u64, u64)>, flags: u64) -> bool {
    forall|k: int|
        0 <= k < p.len() ==> {
            let (page, frame, level) = #[trigger] p[k];
            &&& crate::mapper::found(m.lookup(page, 0), level, frame | piece_flags(flags, level))
            &&& m.translate(page) == Some(frame as int)
        }
}

/// Maps `length` bytes from page `from` to frame `to` with `flags`, each
/// piece as large as `giga` and `mega` (the page sizes that the hardware
/// offers) and the range allow; huge pieces carry the huge bit. Returns
/// the pieces in order, each read back from the tables; a piece that does
/// not read back as mapped (a table shared between two parts of the tree)
/// gives `MalformedTable`.
pub fn map_range(
    mapper: &mut Mapper,
    pmm: &mut PhysicalMemoryManager,
    from: u64,
    to: u64,
    length: u64,
    flags: u64,
    giga: bool,
    mega: bool,
) -> (r: Result<Vec<(u64, u64, u64)>, Error>)
    requires
        old(mapper).wf(),
        old(mapper).depth_spec() >= 3,
        old(pmm).wf(),
        from % PAGE == 0,
        to % PAGE == 0,
        from + length <= u64::MAX,
        to + length <= 0x000F_FFFF_FFFF_F000,
        is_attribute_set(flags),
        is_present(flags),
        !is_huge(flags),
    ensures
        final(mapper).wf(),
        final(mapper).depth_spec() == old(mapper).depth_spec(),
        final(mapper).root() == old(mapper).root(),
        final(pmm).wf(),
        final(pmm).frames() == old(pmm).frames(),
        r matches Ok(p) ==> p@ == pieces(from, to, length, giga, mega) && pieces_mapped(
            *final(mapper),
            p@,
            flags,
        ),
        length == 0 ==> (r matches Ok(p) && p@.len() == 0),
        r == Err::<Vec<(u64, u64, u64)>, Error>(Error::AllocationFailure) ==> (forall|i: int|
            0 <= i < final(pmm).bits().len() ==> #[trigger] final(pmm).bits()[i])
            || final(pmm).frames() > 0x10_0000_0000,
        r == Err::<Vec<(u64, u64, u64)>, Error>(Error::HugeMisaligned) ==> false,
        !(r matches Err(Error::Frame(_))),
        r == Err::<Vec<(u64, u64, u64)>, Error>(Error::MalformedTable) ==> bad_piece_walk(
            *final(mapper),
            final(pmm).bits(),
            final(pmm).frames(),
            pieces(from, to, length, giga, mega),
        ) || !pieces_mapped(*final(mapper), pieces(from, to, length, giga, mega), flags),
        r == Err::<Vec<(u64, u64, u64)>, Error>(Error::AlreadyMapped) ==> huge_in_way(
            *final(mapper),
            pieces(from, to, length, giga, mega),
        ),
{
    let mut out: Vec<(u64, u64, u64)> = Vec::new();
    let mut page = from;
    let mut frame = to;
    let mut remaining = length;
    while remaining > 0
        invariant
            mapper.wf(),
            mapper.depth_spec() >= 3,
            mapper.depth_spec() == old(mapper).depth_spec(),
            mapper.root() == old(mapper).root(),
            pmm.wf(),
            pmm.frames() == old(pmm).frames(),
            page % PAGE == 0,
            frame % PAGE == 0,
            remaining > 0 ==> page + remaining <= from + length,
            remaining > 0 ==> frame + remaining <= to + length,
            from + length <= u64::MAX,
            to + length <= 0x000F_FFFF_FFFF_F000,
            is_attribute_set(flags),
            is_present(flags),
            !is_huge(flags),
            out@ + pieces(page, frame, remaining, giga, mega) == pieces(from, to, length, giga, mega),
        decreases remaining,
    {
        let (level, size) = page_granularity(page, remaining, giga, mega);
        let attributes = if level > 1 {
            flags | HUGE
        } else {
            flags
        };
        proof {
            assert(is_attribute_set(flags | HUGE) && (flags | HUGE) & 1 == 1 && (flags | HUGE) & 0x80
                == 0x80) by (bit_vector)
                requires
                    flags & 0x000F_FFFF_FFFF_F000u64 == 0,
                    flags & 1 == 1,
            ;
            assert(frame & !0x000F_FFFF_FFFF_F000u64 == 0) by (bit_vector)
                requires
                    frame % 4096 == 0,
                    frame <= 0x000F_FFFF_FFFF_F000u64,
            ;
        }
        let ghost before_map = *mapper;
        match mapper.map(pmm, page, level, frame, false, attributes) {
            Ok(()) => {},
            Err(e) => {
                proof {
                    if e == Error::MalformedTable {
                        let all = pieces(from, to, length, giga, mega);
                        let k = out@.len() as int;
                        assert(pieces(page, frame, remaining, giga, mega)[0] == (page, frame, level));
                        assert(all[k] == (out@ + pieces(page, frame, remaining, giga, mega))[k]);
                        assert(all[k] == (page, frame, level));
                        assert(bad_piece_walk(*mapper, pmm.bits(), pmm.frames(), all));
                    }
                    if e == Error::AlreadyMapped {
                        let all = pieces(from, to, length, giga, mega);
                        let k = out@.len() as int;
                        assert(pieces(page, frame, remaining, giga, mega)[0] == (page, frame, level));
                        assert(all[k] == (out@ + pieces(page, frame, remaining, giga, mega))[k]);
                        assert(mapper.lookup(page, 0) == before_map.lookup(page, 0));
                        assert(all[k] == (page, frame, level));
                    }
                }
                return Err(e);
            },
        }
        let step = if size < remaining {
            size
        } else {
            remaining
        };
        let ghost before = out@;
        out.push((page, frame, level));
        proof {
            let rest = pieces((page + size) as u64, (frame + size) as u64, (remaining - step) as u64, giga, mega);
            assert(pieces(page, frame, remaining, giga, mega) == seq![(page, frame, level)] + rest);
            assert(out@ + rest =~= before + pieces(page, frame, remaining, giga, mega));
        }
        remaining = remaining - step;
        if remaining > 0 {
            page = page + size;
            frame = frame + size;
        } else {
            proof {
                assert(pieces((page + size) as u64, (frame + size) as u64, 0, giga, mega)
                    == pieces(page, frame, 0, giga, mega));
            }
        }
    }
    proof {
        assert(out@ =~= out@ + pieces(page, frame, 0, giga, mega));
    }
    let mut k: usize = 0;
    while k < out.len()
        invariant
            mapper.wf(),
            mapper.depth_spec() == old(mapper).depth_spec(),
            mapper.root() == old(mapper).root(),
            pmm.wf(),
            pmm.frames() == old(pmm).frames(),
            out@ == pieces(from, to, length, giga, mega),
            k <= out@.len(),
            is_attribute_set(flags),
            forall|j: int|
                0 <= j < k ==> {
                    let (pg, fr, l) = #[trigger] out@[j];
                    &&& crate::mapper::found(mapper.lookup(pg, 0), l, fr | piece_flags(flags, l))
                    &&& mapper.translate(pg) == Some(fr as int)
                },
        decreases out@.len() - k,
    {
        let (pg, fr, l) = out[k];
        let expected = if l > 1 {
            fr | (flags | HUGE)
        } else {
            fr | flags
        };
        let ok1 = match mapper.leaf_entry(pg) {
            Some((level, e)) => level == l && e == expected,
            None => false,
        };
        let ok2 = match mapper.get_mapped_to(pg) {
            Some(f) => f == fr,
            None => false,
        };
        if !ok1 || !ok2 {
            proof {
                assert(out@[k as int] == (pg, fr, l));
                assert(expected == fr | piece_flags(flags, l));
                assert(!(crate::mapper::found(mapper.lookup(pg, 0), l, fr | piece_flags(flags, l))
                    && mapper.translate(pg) == Some(fr as int)));
            }
            return Err(Error::MalformedTable);
        }
        k = k + 1;
    }
    Ok(out)
}

/// The attributes of the direct map of each memory-map entry type.
pub open spec fn flags_for(t: EntryType) -> Option<u64> {
    match t {
        EntryType::Usable | EntryType::AcpiNvs | EntryType::AcpiReclaimable
        | EntryType::BootloaderReclaimable | EntryType::Framebuffer => Some(RW),
        EntryType::Reserved | EntryType::ExecutableAndModules => Some(RO),
        EntryType::BadMemory => None,
    }
}

/// The pieces that entry `e` of the memory map is mapped in, from
/// `hhdm_base + base` to `base`.
pub open spec fn entry_pieces(e: MemoryMapEntry, hhdm_base: u64, giga: bool, mega: bool) -> Seq<
    (u64, u64, u64),
> {
    pieces((hhdm_base + e.base) as u64, e.base as u64, e.length as u64, giga, mega)
}

/// Some piece of a range covers each page-aligned offset `o` of it: the
/// piece starts at a multiple of its size, at most `o` bytes in, within one
/// piece size of `o`, and its frame is as far from `to` as its page is from
/// `from`.
pub proof fn lemma_pieces_cover(from: u64, to: u64, remaining: u64, giga: bool, mega: bool, o: int)
    requires
        from % PAGE == 0,
        from + remaining <= u64::MAX,
        to + remaining <= u64::MAX,
        0 <= o < remaining,
    ensures
        exists|k: int|
            0 <= k < pieces(from, to, remaining, giga, mega).len() && {
                let (p, f, l) = #[trigger] pieces(from, to, remaining, giga, mega)[k];
                &&& 1 <= l <= 3
                &&& from <= p <= from + o < p + level_size(l)
                &&& p as int % level_size(l) == 0
                &&& f == to + (p - from)
            },
    decreases remaining,
{
    let (l, size) = granularity(from, remaining, giga, mega);
    let s = pieces(from, to, remaining, giga, mega);
    let step = if size < remaining {
        size
    } else {
        remaining
    };
    let rest = pieces((from + size) as u64, (to + size) as u64, (remaining - step) as u64, giga, mega);
    assert(s == seq![(from, to, l)] + rest);
    if o < size {
        assert(s[0] == (from, to, l));
    } else {
        assert(step == size);
        lemma_pieces_cover((from + size) as u64, (to + size) as u64, (remaining - size) as u64, giga, mega, o - size);
        let k = choose|k: int|
            0 <= k < rest.len() && {
                let (p, f, l) = #[trigger] rest[k];
                &&& 1 <= l <= 3
                &&& from + size <= p <= from + size + (o - size) < p + level_size(l)
                &&& p as int % level_size(l) == 0
                &&& f == (to + size) + (p - (from + size))
            };
        assert(s[k + 1] == rest[k]);
    }
}

proof fn lemma_pow512_split(a: nat, b: nat)
    ensures
        pow512(a + b) == pow512(a) * pow512(b),
    decreases b,
{
    if b == 0 {
        assert(pow512(0) == 1);
        assert(a + b == a);
    } else {
        lemma_pow512_split(a, (b - 1) as nat);
        assert(pow512(a + b) == 512 * pow512((a + b - 1) as nat));
        assert(pow512(b) == 512 * pow512((b - 1) as nat));
        assert(pow512(a + b) == pow512(a) * pow512(b)) by (nonlinear_arith)
            requires
                pow512(a + b) == 512 * pow512((a + b - 1) as nat),
                pow512(b) == 512 * pow512((b - 1) as nat),
                pow512((a + b - 1) as nat) == pow512(a) * pow512((b - 1) as nat),
        ;
    }
}

/// Addresses inside one aligned region of level `l` use the same table
/// index at every level from `l` up.
pub proof fn lemma_same_region(p: u64, v: u64, l: u64, m: u64)
    requires
        1 <= l <= m <= 5,
        p as int % level_size(l) == 0,
        p <= v,
        v < p + level_size(l),
    ensures
        table_index(m, v) == table_index(m, p),
{
    reveal_with_fuel(pow512, 5);
    lemma_table_index(m, v);
    lemma_table_index(m, p);
    let r = pow512((l - 1) as nat) as int;
    let q = pow512((m - 1) as nat) as int;
    lemma_pow512_split((l - 1) as nat, (m - l) as nat);
    assert(((l - 1) + (m - l)) as nat == (m - 1) as nat);
    let t = pow512((m - l) as nat) as int;
    lemma_pow512_pos((m - l) as nat);
    lemma_pow512_pos((l - 1) as nat);
    assert(q == r * t);
    assert(level_size(l) == 4096 * r) by {
        assert(l == 1 || l == 2 || l == 3 || l == 4 || l == 5);
    }
    let a = p as int / 4096;
    let b = v as int / 4096;
    let c = p as int / (4096 * r);
    vstd::arithmetic::div_mod::lemma_fundamental_div_mod(p as int, 4096 * r);
    assert(p as int == 4096 * (r * c)) by (nonlinear_arith)
        requires p as int == (4096 * r) * c + p as int % (4096 * r), p as int % (4096 * r) == 0;
    vstd::arithmetic::div_mod::lemma_div_multiples_vanish(r * c, 4096);
    assert(a == r * c);
    vstd::arithmetic::div_mod::lemma_fundamental_div_mod(v as int, 4096);
    assert(0 <= v as int % 4096 < 4096) by {
        vstd::arithmetic::div_mod::lemma_mod_bound(v as int, 4096);
    }
    assert(a <= b && b < a + r) by (nonlinear_arith)
        requires
            v as int == 4096 * b + v as int % 4096,
            0 <= v as int % 4096 < 4096,
            p as int == 4096 * a,
            p <= v,
            v < p + 4096 * r,
    ;
    let d = b - a;
    let ct = c / t;
    let cm = c % t;
    vstd::arithmetic::div_mod::lemma_fundamental_div_mod(c, t);
    assert(0 <= cm < t) by {
        vstd::arithmetic::div_mod::lemma_mod_bound(c, t);
    }
    assert(c >= 0) by (nonlinear_arith)
        requires a == r * c, a >= 0, r >= 1;
    assert(a == q * ct + r * cm && 0 <= r * cm + d < q && 0 <= r * cm) by (nonlinear_arith)
        requires
            a == r * c,
            c == t * ct + cm,
            q == r * t,
            0 <= cm < t,
            0 <= d < r,
            r >= 1,
    ;
    vstd::arithmetic::div_mod::lemma_fundamental_div_mod_converse_div(a, q, ct, r * cm);
    vstd::arithmetic::div_mod::lemma_fundamental_div_mod_converse_div(b, q, ct, r * cm + d);
}

/// Walks of two addresses that share every table index from `l` up to
/// `level` end alike when the first one ends at level `l`.
pub proof fn lemma_walk_same_path(mem: Map<u64, u64>, table: u64, level: u64, p: u64, v: u64, l: u64)
    requires
        1 <= l <= level,
        forall|m: u64| l <= m <= level ==> #[trigger] table_index(m, v) == table_index(m, p),
        walk(mem, table, level, p, 0) is Some,
        walk(mem, table, level, p, 0).unwrap().0 == l,
    ensures
        walk(mem, table, level, v, 0) == walk(mem, table, level, p, 0),
    decreases level,
{
    assert(table_index(level, v) == table_index(level, p));
    let e = word_at(mem, table, level, p);
    assert(word_at(mem, table, level, v) == e);
    let key = crate::mapper::slot(table, table_index(level, p));
    assert(crate::mapper::slot(table, table_index(level, v)) == key);
    reveal_with_fuel(walk, 1);
    if !crate::paging::is_present(e) || level == 1 || crate::paging::is_huge(e) {
        assert(walk(mem, table, level, v, 0) == walk(mem, table, level, p, 0));
    } else {
        lemma_walk_level(mem, crate::paging::frame_of(e), (level - 1) as u64, p);
        assert(walk(mem, table, level, p, 0) == walk(mem, crate::paging::frame_of(e), (level - 1) as u64, p, 0));
        lemma_walk_same_path(mem, crate::paging::frame_of(e), (level - 1) as u64, p, v, l);
        assert(walk(mem, table, level, v, 0) == walk(mem, crate::paging::frame_of(e), (level - 1) as u64, v, 0));
        assert(walk(mem, table, level, p, 0) == walk(mem, crate::paging::frame_of(e), (level - 1) as u64, p, 0));
    }
}

proof fn lemma_walk_level(mem: Map<u64, u64>, table: u64, level: u64, v: u64)
    ensures
        walk(mem, table, level, v, 0) is Some ==> walk(mem, table, level, v, 0).unwrap().0 <= level,
    decreases level,
{
    if level >= 1 {
        let e = word_at(mem, table, level, v);
        lemma_walk_level(mem, crate::paging::frame_of(e), (level - 1) as u64, v);
    }
}

/// The word that the walk of `p` reads at `level`.
pub open spec fn word_at(mem: Map<u64, u64>, table: u64, level: u64, p: u64) -> u64 {
    crate::mapper::word(mem, crate::mapper::slot(table, table_index(level, p)))
}

/// A page-aligned address inside a mapped piece translates at its offset
/// from the piece's start.
proof fn lemma_offset_in_piece(m: Mapper, p: u64, f: u64, l: u64, e: u64, v: u64)
    requires
        m.wf(),
        1 <= l <= 3,
        crate::mapper::found(m.lookup(p, 0), l, e),
        m.translate(p) == Some(f as int),
        p as int % level_size(l) == 0,
        p <= v < p + level_size(l),
        v % 4096 == 0,
    ensures
        m.translate(v) == Some(f + (v - p)),
{
    m.lemma_wf_bounds();
    lemma_walk_level(m.mem(), m.root(), m.depth_spec(), p);
    assert forall|lv: u64| l <= lv <= m.depth_spec() implies #[trigger] table_index(lv, v)
        == table_index(lv, p) by {
        lemma_same_region(p, v, l, lv);
    }
    lemma_walk_same_path(m.mem(), m.root(), m.depth_spec(), p, v, l);
    let size = level_size(l);
    assert(p % 4096 == 0 && size % 4096 == 0) by {
        assert(l == 1 || l == 2 || l == 3);
    }
    assert(page_offset(l, p) == 0);
    let c = p as int / size;
    vstd::arithmetic::div_mod::lemma_fundamental_div_mod(p as int, size);
    vstd::arithmetic::div_mod::lemma_fundamental_div_mod_converse_mod(v as int, size, c, v - p);
    assert((v - p) % 4096 == 0);
    assert(page_offset(l, v) == v - p) by (nonlinear_arith)
        requires
            page_offset(l, v) == (v as int % size) / 4096 * 4096,
            v as int % size == v - p,
            (v - p) % 4096 == 0,
            v >= p;
}

/// Every page-aligned offset `o` of a range whose pieces are all mapped
/// translates to `to + o`.
pub proof fn lemma_offset_mapped(
    m: Mapper,
    from: u64,
    to: u64,
    length: u64,
    flags: u64,
    giga: bool,
    mega: bool,
    o: int,
)
    requires
        m.wf(),
        pieces_mapped(m, pieces(from, to, length, giga, mega), flags),
        from % PAGE == 0,
        from + length <= u64::MAX,
        to + length <= u64::MAX,
        0 <= o < length,
        o % 4096 == 0,
    ensures
        m.translate((from + o) as u64) == Some(to + o),
{
    lemma_pieces_cover(from, to, length, giga, mega, o);
    let ps = pieces(from, to, length, giga, mega);
    let k = choose|k: int|
        0 <= k < ps.len() && {
            let (p, f, l) = #[trigger] ps[k];
            &&& 1 <= l <= 3
            &&& from <= p <= from + o < p + level_size(l)
            &&& p as int % level_size(l) == 0
            &&& f == to + (p - from)
        };
    let t = ps[k];
    let (p, f, l) = t;
    lemma_offset_in_piece(m, p, f, l, f | piece_flags(flags, l), (from + o) as u64);
}

/// Reads every piece of `p` back from the tables.
fn check_pieces(mapper: &Mapper, p: &Vec<(u64, u64, u64)>, flags: u64) -> (r: bool)
    requires
        mapper.wf(),
    ensures
        r == pieces_mapped(*mapper, p@, flags),
{
    let mut k: usize = 0;
    while k < p.len()
        invariant
            mapper.wf(),
            k <= p@.len(),
            forall|j: int|
                0 <= j < k ==> {
                    let (pg, fr, l) = #[trigger] p@[j];
                    &&& crate::mapper::found(mapper.lookup(pg, 0), l, fr | piece_flags(flags, l))
                    &&& mapper.translate(pg) == Some(fr as int)
                },
        decreases p@.len() - k,
    {
        let (pg, fr, l) = p[k];
        let expected = if l > 1 {
            fr | (flags | HUGE)
        } else {
            fr | flags
        };
        let ok1 = match mapper.leaf_entry(pg) {
            Some((level, e)) => level == l && e == expected,
            None => false,
        };
        let ok2 = match mapper.get_mapped_to(pg) {
            Some(f) => f == fr,
            None => false,
        };
        if !ok1 || !ok2 {
            proof {
                assert(p@[k as int] == (pg, fr, l));
                assert(!(crate::mapper::found(mapper.lookup(pg, 0), l, fr | piece_flags(flags, l))
                    && mapper.translate(pg) == Some(fr as int)));
            }
            return false;
        }
        k = k + 1;
    }
    true
}

/// Maps every memory-map entry into the direct map at `hhdm_base`: each
/// entry from `hhdm_base + base` to `base`, read-write for memory in use or
/// free, read-only for reserved memory and the kernel's image; bad memory
/// is left out. Once all are mapped, every piece is read back; one that no
/// longer reads back (a later entry's tables overlapping it) gives
/// `MalformedTable`. Stops at the first entry that cannot be mapped.
pub fn map_memory_map(
    mapper: &mut Mapper,
    pmm: &mut PhysicalMemoryManager,
    hhdm_base: u64,
    map: &Vec<MemoryMapEntry>,
    giga: bool,
    mega: bool,
) -> (r: Result<(), Error>)
    requires
        old(mapper).wf(),
        old(mapper).depth_spec() >= 3,
        old(pmm).wf(),
        hhdm_base % PAGE == 0,
        forall|k: int|
            0 <= k < map@.len() ==> {
                let e = #[trigger] map@[k];
                &&& e.base % 0x1000 == 0
                &&& hhdm_base + e.base + e.length <= u64::MAX
                &&& e.base + e.length <= 0x000F_FFFF_FFFF_F000
            },
    ensures
        final(mapper).wf(),
        final(mapper).depth_spec() == old(mapper).depth_spec(),
        final(pmm).wf(),
        final(pmm).frames() == old(pmm).frames(),
        r is Ok ==> forall|k: int|
            0 <= k < map@.len() ==> (flags_for(#[trigger] map@[k].entry_type) matches Some(f)
                ==> pieces_mapped(*final(mapper), entry_pieces(map@[k], hhdm_base, giga, mega), f)),
        r == Err::<(), Error>(Error::AllocationFailure) ==> (forall|i: int|
            0 <= i < final(pmm).bits().len() ==> #[trigger] final(pmm).bits()[i])
            || final(pmm).frames() > 0x10_0000_0000,
        r == Err::<(), Error>(Error::AlreadyMapped) ==> exists|k: int|
            0 <= k < map@.len() && flags_for(#[trigger] map@[k].entry_type) is Some && huge_in_way(
                *final(mapper),
                entry_pieces(map@[k], hhdm_base, giga, mega),
            ),
        r != Err::<(), Error>(Error::HugeMisaligned),
        !(r matches Err(Error::Frame(_))),
        r == Err::<(), Error>(Error::MalformedTable) ==> exists|k: int|
            0 <= k < map@.len() && (flags_for(#[trigger] map@[k].entry_type) matches Some(f) && (
            bad_piece_walk(
                *final(mapper),
                final(pmm).bits(),
                final(pmm).frames(),
                entry_pieces(map@[k], hhdm_base, giga, mega),
            ) || !pieces_mapped(*final(mapper), entry_pieces(map@[k], hhdm_base, giga, mega), f))),
        r is Ok ==> forall|k: int, o: int|
            0 <= k < map@.len() && flags_for(#[trigger] map@[k].entry_type) is Some && 0 <= o
                < map@[k].length && o % 4096 == 0 ==> #[trigger] final(mapper).translate(
                (hhdm_base + map@[k].base + o) as u64,
            ) == Some(map@[k].base + o),
{
    let mut all: Vec<Vec<(u64, u64, u64)>> = Vec::new();
    let mut k: usize = 0;
    while k < map.len()
        invariant
            mapper.wf(),
            mapper.depth_spec() >= 3,
            mapper.depth_spec() == old(mapper).depth_spec(),
            pmm.wf(),
            pmm.frames() == old(pmm).frames(),
            hhdm_base % PAGE == 0,
            all@.len() == k,
            k <= map@.len(),
            forall|j: int|
                0 <= j < map@.len() ==> {
                    let e = #[trigger] map@[j];
                    &&& e.base % 0x1000 == 0
                    &&& hhdm_base + e.base + e.length <= u64::MAX
                    &&& e.base + e.length <= 0x000F_FFFF_FFFF_F000
                },
            forall|j: int|
                0 <= j < k ==> (flags_for(#[trigger] map@[j].entry_type) is Some ==> all@[j]@
                    == entry_pieces(map@[j], hhdm_base, giga, mega)),
        decreases map@.len() - k,
    {
        let e = map[k];
        assert(e == map@[k as int]);
        match entry_flags(e.entry_type) {
            Some(flags) => {
                proof {
                    assert(0x8000_0000_0000_0003u64 & 0x000F_FFFF_FFFF_F000u64 == 0
                        && 0x8000_0000_0000_0003u64 & 1 == 1 && 0x8000_0000_0000_0003u64 & 0x80
                        != 0x80) by (bit_vector);
                    assert(0x8000_0000_0000_0001u64 & 0x000F_FFFF_FFFF_F000u64 == 0
                        && 0x8000_0000_0000_0001u64 & 1 == 1 && 0x8000_0000_0000_0001u64 & 0x80
                        != 0x80) by (bit_vector);
                }
                let base = e.base as u64;
                let length = e.length as u64;
                match map_range(mapper, pmm, hhdm_base + base, base, length, flags, giga, mega) {
                    Ok(p) => {
                        all.push(p);
                    },
                    Err(err) => {
                        proof {
                            if err == Error::AlreadyMapped || err == Error::MalformedTable {
                                assert(flags_for(map@[k as int].entry_type) is Some);
                                assert(entry_pieces(map@[k as int], hhdm_base, giga, mega) == pieces(
                                    (hhdm_base + base) as u64,
                                    base,
                                    length,
                                    giga,
                                    mega,
                                ));
                            }
                        }
                        return Err(err);
                    },
                }
            },
            None => {
                all.push(Vec::new());
            },
        }
        k = k + 1;
    }
    let mut k: usize = 0;
    while k < map.len()
        invariant
            mapper.wf(),
            mapper.depth_spec() == old(mapper).depth_spec(),
            pmm.wf(),
            pmm.frames() == old(pmm).frames(),
            all@.len() == map@.len(),
            k <= map@.len(),
            forall|j: int|
                0 <= j < map@.len() ==> (flags_for(#[trigger] map@[j].entry_type) is Some ==> all@[j]@
                    == entry_pieces(map@[j], hhdm_base, giga, mega)),
            forall|j: int|
                0 <= j < k ==> (flags_for(#[trigger] map@[j].entry_type) matches Some(f)
                    ==> pieces_mapped(*mapper, entry_pieces(map@[j], hhdm_base, giga, mega), f)),
        decreases map@.len() - k,
    {
        let e = map[k];
        assert(e == map@[k as int]);
        match entry_flags(e.entry_type) {
            Some(flags) => {
                if !check_pieces(mapper, &all[k], flags) {
                    proof {
                        assert(flags_for(map@[k as int].entry_type) == Some(flags));
                        assert(all@[k as int]@ == entry_pieces(map@[k as int], hhdm_base, giga, mega));
                    }
                    return Err(Error::MalformedTable);
                }
            },
            None => {},
        }
        k = k + 1;
    }
    proof {
        assert forall|q: int, o: int|
            0 <= q < map@.len() && flags_for(#[trigger] map@[q].entry_type) is Some && 0 <= o
                < map@[q].length && o % 4096 == 0 implies #[trigger] mapper.translate(
            (hhdm_base + map@[q].base + o) as u64,
        ) == Some(map@[q].base + o) by {
            let e = map@[q];
            let f = flags_for(e.entry_type).unwrap();
            assert(pieces_mapped(*mapper, entry_pieces(e, hhdm_base, giga, mega), f));
            lemma_offset_mapped(
                *mapper,
                (hhdm_base + e.base) as u64,
                e.base as u64,
                e.length as u64,
                f,
                giga,
                mega,
                o,
            );
        }
    }
    Ok(())
}

/// The fields of an ELF program header that mapping the kernel reads.
#[derive(Debug, Clone, Copy, PartialEq, Eq, Structural)]
pub struct SegmentHeader {
    pub p_type: u32,
    pub p_flags: u32,
    pub p_vaddr: u64,
    pub p_memsz: u64,
    pub p_align: u64,
}

/// Program-header type of a loadable segment.
pub const PT_LOAD: u32 = 1;

/// The program headers of the ELF file `b`, or `None` where it does not
/// parse.
pub uninterp spec fn elf_segments(b: Seq<u8>) -> Option<Seq<SegmentHeader>>;

/// Relies on `elf::ElfBytes::minimal_parse` and its `segments` table: the
/// program headers of the file, in file order; the result depends on the
/// bytes alone.
#[verifier::external_body]
fn parse_segments(bytes: &Vec<u8>) -> (r: Option<Vec<SegmentHeader>>)
    ensures
        r is None <==> elf_segments(bytes@) is None,
        r matches Some(v) ==> elf_segments(bytes@) == Some(v@),
{
    let file = ElfBytes::<AnyEndian>::minimal_parse(bytes.as_slice()).ok()?;
    let table = file.segments()?;
    Some(
        table.iter().map(
            |h| SegmentHeader {
                p_type: h.p_type,
                p_flags: h.p_flags,
                p_vaddr: h.p_vaddr,
                p_memsz: h.p_memsz,
                p_align: h.p_align,
            },
        ).collect(),
    )
}

/// The loadable segments among `headers`, in order.
pub open spec fn loadable(headers: Seq<SegmentHeader>) -> Seq<SegmentHeader> {
    headers.filter(|h: SegmentHeader| h.p_type == PT_LOAD)
}

/// The loadable segments among `headers`, in order.
pub fn load_segments(headers: &Vec<SegmentHeader>) -> (r: Vec<SegmentHeader>)
    ensures
        r@ == loadable(headers@),
{
    let mut r: Vec<SegmentHeader> = Vec::new();
    let mut i: usize = 0;
    while i < headers.len()
        invariant
            i <= headers@.len(),
            r@ == loadable(headers@.subrange(0, i as int)),
        decreases headers@.len() - i,
    {
        let h = headers[i];
        proof {
            let s = headers@.subrange(0, i + 1);
            assert(s.drop_last() =~= headers@.subrange(0, i as int));
            assert(s.last() == h);
            reveal(Seq::filter);
        }
        if h.p_type == PT_LOAD {
            r.push(h);
        }
        i = i + 1;
    }
    assert(headers@.subrange(0, headers@.len() as int) =~= headers@);
    r
}

/// The loadable segments of the kernel's ELF image, or `None` where it
/// does not parse.
pub fn kernel_load_segments(image: &Vec<u8>) -> (r: Option<Vec<SegmentHeader>>)
    ensures
        r is None <==> elf_segments(image@) is None,
        r matches Some(v) ==> v@ == loadable(elf_segments(image@).unwrap()),
{
    match parse_segments(image) {
        Some(headers) => Some(load_segments(&headers)),
        None => None,
    }
}

/// Why the kernel's segments could not be mapped.
#[derive(Debug, Clone, Copy, PartialEq, Eq, Structural)]
pub enum SegmentError {
    /// A segment lies below the kernel's virtual base, is not page-aligned,
    /// or runs past the addressable range.
    BadSegment,
    /// The mapper refused.
    Mapper(Error),
}

/// The kernel attributes of segment permissions: read-execute, read-write
/// or read-only, never user-accessible.
pub fn kernel_flags(p: MmapPermissions) -> (r: u64)
    ensures
        r == match p {
            MmapPermissions::ReadExecute => crate::paging::RX,
            MmapPermissions::ReadWrite => RW,
            MmapPermissions::ReadOnly => RO,
        },
        is_attribute_set(r),
        is_present(r),
        !is_huge(r),
{
    let r = match p {
        MmapPermissions::ReadExecute => crate::paging::RX,
        MmapPermissions::ReadWrite => RW,
        MmapPermissions::ReadOnly => RO,
    };
    assert(0x1u64 & 0x000F_FFFF_FFFF_F000u64 == 0 && 0x1u64 & 1 == 1 && 0x1u64 & 0x80 != 0x80)
        by (bit_vector);
    assert(0x8000_0000_0000_0003u64 & 0x000F_FFFF_FFFF_F000u64 == 0 && 0x8000_0000_0000_0003u64 & 1
        == 1 && 0x8000_0000_0000_0003u64 & 0x80 != 0x80) by (bit_vector);
    assert(0x8000_0000_0000_0001u64 & 0x000F_FFFF_FFFF_F000u64 == 0 && 0x8000_0000_0000_0001u64 & 1
        == 1 && 0x8000_0000_0000_0001u64 & 0x80 != 0x80) by (bit_vector);
    r
}

/// Where segment `h` goes (page, frame, length), when it lies above the
/// kernel's virtual base.
pub open spec fn segment_place(h: SegmentHeader, physical_base: u64, virtual_base: u64) -> (u64, u64, u64) {
    (
        h.p_vaddr,
        (physical_base + (h.p_vaddr - virtual_base)) as u64,
        if h.p_memsz > h.p_align {
            h.p_memsz
        } else {
            h.p_align
        },
    )
}

/// Segment `h` can be mapped: above the virtual base, page-aligned at both
/// ends of the translation, and inside the address ranges.
pub open spec fn segment_ok(h: SegmentHeader, physical_base: u64, virtual_base: u64) -> bool {
    let (page, frame, length) = segment_place(h, physical_base, virtual_base);
    &&& virtual_base <= h.p_vaddr
    &&& physical_base + (h.p_vaddr - virtual_base) <= u64::MAX
    &&& page % PAGE == 0
    &&& frame % PAGE == 0
    &&& page + length <= u64::MAX
    &&& frame + length <= 0x000F_FFFF_FFFF_F000
}

/// The kernel attributes of segment flags.
pub open spec fn segment_flags(p_flags: u32) -> u64 {
    if p_flags & PF_X != 0 {
        crate::paging::RX
    } else if p_flags & PF_W != 0 {
        RW
    } else {
        RO
    }
}

/// The pieces that segment `h` is mapped in.
pub open spec fn segment_pieces(
    h: SegmentHeader,
    physical_base: u64,
    virtual_base: u64,
    giga: bool,
    mega: bool,
) -> Seq<(u64, u64, u64)> {
    let (page, frame, length) = segment_place(h, physical_base, virtual_base);
    pieces(page, frame, length, giga, mega)
}

/// Maps each segment of the kernel from its virtual address to the
/// matching physical address, with the permissions its flags give; once all
/// are mapped, each is read back. `BadSegment` when a segment cannot be
/// placed; stops at the first failure.
pub fn map_kernel_segments(
    mapper: &mut Mapper,
    pmm: &mut PhysicalMemoryManager,
    segments: &Vec<SegmentHeader>,
    physical_base: u64,
    virtual_base: u64,
    giga: bool,
    mega: bool,
) -> (r: Result<(), SegmentError>)
    requires
        old(mapper).wf(),
        old(mapper).depth_spec() >= 3,
        old(pmm).wf(),
    ensures
        final(mapper).wf(),
        final(mapper).depth_spec() == old(mapper).depth_spec(),
        final(pmm).wf(),
        final(pmm).frames() == old(pmm).frames(),
        r is Ok ==> forall|k: int|
            0 <= k < segments@.len() ==> pieces_mapped(
                *final(mapper),
                segment_pieces(#[trigger] segments@[k], physical_base, virtual_base, giga, mega),
                segment_flags(segments@[k].p_flags),
            ),
        r is Ok ==> forall|k: int, o: int|
            0 <= k < segments@.len() && 0 <= o < segment_place(
                #[trigger] segments@[k],
                physical_base,
                virtual_base,
            ).2 && o % 4096 == 0 ==> #[trigger] final(mapper).translate(
                (segments@[k].p_vaddr + o) as u64,
            ) == Some(segment_place(segments@[k], physical_base, virtual_base).1 + o),
        r == Err::<(), SegmentError>(SegmentError::Mapper(Error::AllocationFailure)) ==> (forall|i: int|
            0 <= i < final(pmm).bits().len() ==> #[trigger] final(pmm).bits()[i])
            || final(pmm).frames() > 0x10_0000_0000,
        r == Err::<(), SegmentError>(SegmentError::Mapper(Error::AlreadyMapped)) ==> exists|k: int|
            0 <= k < segments@.len() && huge_in_way(
                *final(mapper),
                segment_pieces(#[trigger] segments@[k], physical_base, virtual_base, giga, mega),
            ),
        r != Err::<(), SegmentError>(SegmentError::Mapper(Error::HugeMisaligned)),
        r == Err::<(), SegmentError>(SegmentError::Mapper(Error::MalformedTable)) ==> exists|k: int|
            0 <= k < segments@.len() && (bad_piece_walk(
                *final(mapper),
                final(pmm).bits(),
                final(pmm).frames(),
                segment_pieces(#[trigger] segments@[k], physical_base, virtual_base, giga, mega),
            ) || !pieces_mapped(
                *final(mapper),
                segment_pieces(segments@[k], physical_base, virtual_base, giga, mega),
                segment_flags(segments@[k].p_flags),
            )),
        !(r matches Err(SegmentError::Mapper(Error::Frame(_)))),
        r == Err::<(), SegmentError>(SegmentError::BadSegment) ==> exists|k: int|
            0 <= k < segments@.len() && !segment_ok(#[trigger] segments@[k], physical_base, virtual_base),
        (forall|k: int|
            0 <= k < segments@.len() ==> segment_ok(#[trigger] segments@[k], physical_base, virtual_base))
            ==> r != Err::<(), SegmentError>(SegmentError::BadSegment),
{
    let mut all: Vec<Vec<(u64, u64, u64)>> = Vec::new();
    let mut k: usize = 0;
    while k < segments.len()
        invariant
            mapper.wf(),
            mapper.depth_spec() >= 3,
            mapper.depth_spec() == old(mapper).depth_spec(),
            pmm.wf(),
            pmm.frames() == old(pmm).frames(),
            k <= segments@.len(),
            all@.len() == k,
            forall|j: int|
                0 <= j < k ==> #[trigger] all@[j]@ == segment_pieces(
                    segments@[j],
                    physical_base,
                    virtual_base,
                    giga,
                    mega,
                ),
            forall|j: int| 0 <= j < k ==> segment_ok(#[trigger] segments@[j], physical_base, virtual_base),
        decreases segments@.len() - k,
    {
        let h = segments[k];
        assert(h == segments@[k as int]);
        let (page, frame, length) = match kernel_segment(
            h.p_vaddr,
            h.p_memsz,
            h.p_align,
            physical_base,
            virtual_base,
        ) {
            Some(t) => t,
            None => return Err(SegmentError::BadSegment),
        };
        if page % PAGE != 0 || frame % PAGE != 0 || length > u64::MAX - page || frame
            > 0x000F_FFFF_FFFF_F000 || length > 0x000F_FFFF_FFFF_F000 - frame {
            return Err(SegmentError::BadSegment);
        }
        let flags = kernel_flags(segment_permissions(h.p_flags));
        match map_range(mapper, pmm, page, frame, length, flags, giga, mega) {
            Ok(p) => {
                all.push(p);
            },
            Err(e) => {
                proof {
                    if e == Error::AlreadyMapped || e == Error::MalformedTable {
                        assert(segment_pieces(segments@[k as int], physical_base, virtual_base, giga, mega)
                            == pieces(page, frame, length, giga, mega));
                    }
                }
                return Err(SegmentError::Mapper(e));
            },
        }
        k = k + 1;
    }
    let mut k: usize = 0;
    while k < segments.len()
        invariant
            mapper.wf(),
            mapper.depth_spec() == old(mapper).depth_spec(),
            pmm.wf(),
            pmm.frames() == old(pmm).frames(),
            k <= segments@.len(),
            forall|j: int| 0 <= j < segments@.len() ==> segment_ok(#[trigger] segments@[j], physical_base, virtual_base),
            all@.len() == segments@.len(),
            forall|j: int|
                0 <= j < segments@.len() ==> #[trigger] all@[j]@ == segment_pieces(
                    segments@[j],
                    physical_base,
                    virtual_base,
                    giga,
                    mega,
                ),
            forall|j: int|
                0 <= j < k ==> pieces_mapped(
                    *mapper,
                    segment_pieces(#[trigger] segments@[j], physical_base, virtual_base, giga, mega),
                    segment_flags(segments@[j].p_flags),
                ),
        decreases segments@.len() - k,
    {
        let h = segments[k];
        let flags = kernel_flags(segment_permissions(h.p_flags));
        assert(all@[k as int]@ == segment_pieces(segments@[k as int], physical_base, virtual_base, giga, mega));
        if !check_pieces(mapper, &all[k], flags) {
            proof {
                assert(flags == segment_flags(segments@[k as int].p_flags));
            }
            return Err(SegmentError::Mapper(Error::MalformedTable));
        }
        k = k + 1;
    }
    proof {
        assert forall|q: int, o: int|
            0 <= q < segments@.len() && 0 <= o < segment_place(
                #[trigger] segments@[q],
                physical_base,
                virtual_base,
            ).2 && o % 4096 == 0 implies #[trigger] mapper.translate(
            (segments@[q].p_vaddr + o) as u64,
        ) == Some(segment_place(segments@[q], physical_base, virtual_base).1 + o) by {
            let h = segments@[q];
            let (page, frame, length) = segment_place(h, physical_base, virtual_base);
            assert(segment_ok(h, physical_base, virtual_base));
            lemma_offset_mapped(*mapper, page, frame, length, segment_flags(h.p_flags), giga, mega, o);
        }
    }
    Ok(())
}

} // verus!
