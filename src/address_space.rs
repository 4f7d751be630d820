//! Address spaces: a mapper with a permission vocabulary, a private lower
//! half and a kernel half shared with every other address space.
use vstd::prelude::*;
use crate::mapper::{Error as MapperError, Mapper};
use crate::paging::{ADDRESS_MASK, RO, RW, RX, USER, attributes_of, is_attribute_set, is_huge, is_present};
use crate::pmm::PhysicalMemoryManager;
use crate::walker::{Walker, absent_run, leaves_from, lemma_leaf_walk, pow512};

verus! {

/// Bytes of the lower half that user mappings may use.
pub const DEFAULT_USERSPACE_SIZE: u64 = 0x8000_0000_0000;

/// Bytes in one page.
pub const PAGE_BYTES: u64 = 0x1000;

#[derive(Debug, Clone, Copy, PartialEq, Eq, Structural)]
pub enum Error {
    /// No free range of the size asked for.
    OutOfMemory,
    /// The address is not page-aligned.
    MalformedAddress,
    /// The address lies outside the user half.
    InvalidAddress,
    /// The range runs past the end of the user half.
    AddressRangeOverrun,
    /// The page is not mapped.
    NotMapped(u64),
    /// The mapper refused.
    Mapper(MapperError),
}

#[derive(Debug, Clone, Copy, PartialEq, Eq, Structural)]
pub enum MmapPermissions {
    ReadExecute,
    ReadWrite,
    ReadOnly,
}

/// The page-table attributes of a user mapping with `p`.
pub open spec fn user_flags(p: MmapPermissions) -> u64 {
    match p {
        MmapPermissions::ReadExecute => 0x5,
        MmapPermissions::ReadWrite => 0x8000_0000_0000_0007,
        MmapPermissions::ReadOnly => 0x8000_0000_0000_0005,
    }
}

impl MmapPermissions {
    pub fn user_flags(self) -> (r: u64)
        ensures
            r == user_flags(self),
            is_attribute_set(r),
            is_present(r),
            !is_huge(r),
    {
        let r = match self {
            MmapPermissions::ReadExecute => RX | USER,
            MmapPermissions::ReadWrite => RW | USER,
            MmapPermissions::ReadOnly => RO | USER,
        };
        assert(0x5u64 & 0x000F_FFFF_FFFF_F000u64 == 0 && 0x5u64 & 1 == 1 && 0x5u64 & 0x80 != 0x80)
            by (bit_vector);
        assert(0x8000_0000_0000_0007u64 & 0x000F_FFFF_FFFF_F000u64 == 0 && 0x8000_0000_0000_0007u64
            & 1 == 1 && 0x8000_0000_0000_0007u64 & 0x80 != 0x80) by (bit_vector);
        assert(0x8000_0000_0000_0005u64 & 0x000F_FFFF_FFFF_F000u64 == 0 && 0x8000_0000_0000_0005u64
            & 1 == 1 && 0x8000_0000_0000_0005u64 & 0x80 != 0x80) by (bit_vector);
        assert(RX | USER == 0x5u64) by (bit_vector);
        assert(RW | USER == 0x8000_0000_0000_0007u64) by (bit_vector);
        assert(RO | USER == 0x8000_0000_0000_0005u64) by (bit_vector);
        r
    }
}

/// A mapper whose kernel half is shared; a user space may change only its
/// lower half.
pub struct AddressSpace {
    mapper: Mapper,
    user: bool,
}

impl AddressSpace {
    pub closed spec fn mapper_spec(&self) -> Mapper {
        self.mapper
    }

    pub closed spec fn is_user(&self) -> bool {
        self.user
    }

    pub open spec fn wf(&self) -> bool {
        self.mapper_spec().wf()
    }

    /// The kernel address space, over `mapper`.
    pub fn new(mapper: Mapper) -> (r: AddressSpace)
        ensures
            r.mapper_spec() == mapper,
            !r.is_user(),
    {
        AddressSpace { mapper, user: false }
    }

    /// A user address space: a fresh root whose upper half is the kernel's,
    /// entry for entry, and whose lower half is empty.
    pub fn new_userspace(kernel: &AddressSpace, pmm: &mut PhysicalMemoryManager) -> (r: Result<
        AddressSpace,
        Error,
    >)
        requires
            kernel.wf(),
            old(pmm).wf(),
        ensures
            final(pmm).wf(),
            final(pmm).frames() == old(pmm).frames(),
            r matches Ok(u) ==> {
                &&& u.wf()
                &&& u.is_user()
                &&& u.mapper_spec().depth_spec() == kernel.mapper_spec().depth_spec()
                &&& forall|i: int|
                    256 <= i < 512 ==> #[trigger] u.mapper_spec().root_entries()[i]
                        == kernel.mapper_spec().root_entries()[i]
                &&& forall|i: int| 0 <= i < 256 ==> #[trigger] u.mapper_spec().root_entries()[i] == 0
                &&& u.mapper_spec().root() != kernel.mapper_spec().root()
                &&& old(pmm).is_first_free(u.mapper_spec().root() as int / 4096)
                &&& final(pmm).bits() == old(pmm).bits().update(
                    u.mapper_spec().root() as int / 4096,
                    true,
                )
            },
            (forall|i: int| 0 <= i < old(pmm).bits().len() ==> old(pmm).bits()[i]) ==> r is Err
                && final(pmm).bits() == old(pmm).bits(),
            forall|i: int|
                old(pmm).is_first_free(i) && i * 4096 != kernel.mapper_spec().root() && i * 4096
                    <= 0x000F_FFFF_FFFF_F000 ==> r is Ok,
    {
        match Mapper::copy_kernel_half(&kernel.mapper, pmm) {
            Ok(m) => Ok(AddressSpace { mapper: m, user: true }),
            Err(e) => Err(Error::Mapper(e)),
        }
    }

    /// Whether this space is the one whose root is installed now.
    pub fn is_current(&self, current_root: u64) -> (r: bool)
        ensures
            r == (self.mapper_spec().root() == current_root),
    {
        self.mapper.root_frame() == current_root
    }

    /// The root frame to install to switch into this space.
    pub fn root_frame(&self) -> (r: u64)
        ensures
            r == self.mapper_spec().root(),
    {
        self.mapper.root_frame()
    }

    /// The attributes of the leaf that maps `page`.
    pub fn get_flags(&self, page: u64) -> (r: Result<u64, Error>)
        requires
            self.wf(),
        ensures
            r == match self.mapper_spec().lookup(page, 0) {
                Some((_, e, _)) => Ok::<u64, Error>(attributes_of(e)),
                None => Err(Error::NotMapped(page)),
            },
    {
        match self.mapper.get_page_attributes(page) {
            Some(f) => Ok(f),
            None => Err(Error::NotMapped(page)),
        }
    }

    /// Whether `page` is mapped down to a leaf.
    pub fn is_mmapped(&self, page: u64) -> (r: bool)
        requires
            self.wf(),
        ensures
            r == self.mapper_spec().lookup(page, 0) is Some,
    {
        self.mapper.is_mapped(page, None)
    }

    /// The first page of a run of `page_count` unmapped pages in the user
    /// half, found by the walker: the lowest run of `page_count + 1` absent
    /// leaves, less its first leaf, so that the null page stays unmapped.
    fn find_free_run(&self, page_count: u64) -> (r: Option<u64>)
        requires
            self.wf(),
            page_count > 0,
            page_count <= DEFAULT_USERSPACE_SIZE / PAGE_BYTES,
        ensures
            r matches Some(start) ==> {
                &&& start % PAGE_BYTES == 0
                &&& PAGE_BYTES <= start
                &&& start + page_count * PAGE_BYTES <= DEFAULT_USERSPACE_SIZE
                &&& forall|k: int|
                    0 <= k < page_count ==> #[trigger] self.mapper_spec().lookup(
                        (start + k * PAGE_BYTES) as u64,
                        0,
                    ) is None
            },
            r is None ==> forall|j: int|
                #[trigger] absent_run(
                    leaves_from(self.mapper_spec().mem(), self.mapper_spec().root(), self.mapper_spec().depth_spec(), 1, 0),
                    j,
                    page_count + 1,
                ) ==> j >= DEFAULT_USERSPACE_SIZE / PAGE_BYTES - page_count,
    {
        proof {
            self.mapper.lemma_wf_bounds();
        }
        let walker = match Walker::new(&self.mapper, 1) {
            Some(w) => w,
            None => return None,
        };
        match walker.find_absent_run(&self.mapper, page_count + 1) {
            Some(i) => {
                if i >= DEFAULT_USERSPACE_SIZE / PAGE_BYTES - page_count {
                    proof {
                        let lv = walker.leaves(&self.mapper);
                        assert(lv == leaves_from(self.mapper_spec().mem(), self.mapper_spec().root(), self.mapper_spec().depth_spec(), 1, 0));
                        assert forall|j: int| #[trigger] absent_run(lv, j, page_count + 1) implies j
                            >= DEFAULT_USERSPACE_SIZE / PAGE_BYTES - page_count by {
                            if j < i {
                                assert(!absent_run(lv, j, page_count + 1));
                            }
                        }
                    }
                    return None;
                }
                let start = (i + 1) * PAGE_BYTES;
                proof {
                    let m = self.mapper_spec();
                    let leaves = walker.leaves(&self.mapper);
                    assert(absent_run(leaves, i as int, page_count + 1));
                    assert forall|k: int| 0 <= k < page_count implies #[trigger] m.lookup(
                        (start + k * PAGE_BYTES) as u64,
                        0,
                    ) is None by {
                        let page = (start + k * PAGE_BYTES) as u64;
                        let j = i + 1 + k;
                        assert(page as int == j * 4096);
                        assert(page as int / 4096 == j) by (nonlinear_arith)
                            requires page as int == j * 4096;
                        lemma_leaf_walk(m.mem(), m.root(), m.depth_spec(), page);
                        assert(j < leaves.len());
                        assert(j % (pow512(m.depth_spec() as nat) as int) == j) by (nonlinear_arith)
                            requires 0 <= j < pow512(m.depth_spec() as nat);
                        assert(leaves[j] is None);
                    }
                }
                Some(start)
            },
            None => {
                proof {
                    let lv = walker.leaves(&self.mapper);
                    assert(lv == leaves_from(self.mapper_spec().mem(), self.mapper_spec().root(), self.mapper_spec().depth_spec(), 1, 0));
                }
                None
            },
        }
    }

    /// Maps `page_count` pages with `permissions`, each backed by a fresh
    /// frame: at `address` when given (none of the pages may be mapped
    /// already), else at the lowest free run of the user half. Returns the
    /// start and length in bytes.
    pub fn mmap(
        &mut self,
        pmm: &mut PhysicalMemoryManager,
        address: Option<u64>,
        page_count: u64,
        permissions: MmapPermissions,
    ) -> (r: Result<(u64, u64), Error>)
        requires
            old(self).wf(),
            old(pmm).wf(),
            page_count > 0,
        ensures
            final(self).wf(),
            final(pmm).wf(),
            final(pmm).frames() == old(pmm).frames(),
            address matches Some(a) ==> (a % PAGE_BYTES != 0 <==> r == Err::<(u64, u64), Error>(
                Error::MalformedAddress,
            )),
            address matches Some(a) ==> a % PAGE_BYTES == 0 && a + page_count * PAGE_BYTES
                > DEFAULT_USERSPACE_SIZE ==> r == Err::<(u64, u64), Error>(
                Error::AddressRangeOverrun,
            ),
            address matches Some(a) ==> a % PAGE_BYTES == 0 && a + page_count * PAGE_BYTES
                <= DEFAULT_USERSPACE_SIZE && (exists|k: int|
                0 <= k < page_count && #[trigger] old(self).mapper_spec().lookup(
                    (a + k * PAGE_BYTES) as u64,
                    0,
                ) is Some) ==> r == Err::<(u64, u64), Error>(
                Error::Mapper(MapperError::AlreadyMapped),
            ),
            r == Err::<(u64, u64), Error>(Error::Mapper(MapperError::AlreadyMapped)) ==> (final(self).mapper_spec() == old(self).mapper_spec() && final(pmm).bits() == old(pmm).bits()),
            r == Err::<(u64, u64), Error>(Error::OutOfMemory) ==> address is None && (page_count
                > DEFAULT_USERSPACE_SIZE / PAGE_BYTES || forall|j: int|
                #[trigger] absent_run(
                    leaves_from(old(self).mapper_spec().mem(), old(self).mapper_spec().root(), old(self).mapper_spec().depth_spec(), 1, 0),
                    j,
                    page_count + 1,
                ) ==> j >= DEFAULT_USERSPACE_SIZE / PAGE_BYTES - page_count),
            r matches Ok((start, len)) ==> {
                &&& forall|k: int|
                    0 <= k < page_count ==> match #[trigger] final(self).mapper_spec().lookup(
                        (start + k * PAGE_BYTES) as u64,
                        0,
                    ) {
                        Some(x) => x.0 == 1 && attributes_of(x.1) == user_flags(permissions),
                        None => false,
                    }
                &&& len == page_count * PAGE_BYTES
                &&& start % PAGE_BYTES == 0
                &&& start + len <= DEFAULT_USERSPACE_SIZE
                &&& address matches Some(a) ==> start == a
                &&& forall|k: int|
                    0 <= k < page_count ==> #[trigger] old(self).mapper_spec().lookup(
                        (start + k * PAGE_BYTES) as u64,
                        0,
                    ) is None
            },
    {
        if page_count > DEFAULT_USERSPACE_SIZE / PAGE_BYTES {
            assert(page_count * PAGE_BYTES > DEFAULT_USERSPACE_SIZE) by (nonlinear_arith)
                requires page_count > DEFAULT_USERSPACE_SIZE / PAGE_BYTES;
            return match address {
                Some(a) => if a % PAGE_BYTES != 0 {
                    Err(Error::MalformedAddress)
                } else {
                    Err(Error::AddressRangeOverrun)
                },
                None => Err(Error::OutOfMemory),
            };
        }
        let start = match address {
            Some(a) => {
                if a % PAGE_BYTES != 0 {
                    return Err(Error::MalformedAddress);
                }
                assert(page_count * PAGE_BYTES <= DEFAULT_USERSPACE_SIZE) by (nonlinear_arith)
                    requires page_count <= DEFAULT_USERSPACE_SIZE / PAGE_BYTES;
                if a > DEFAULT_USERSPACE_SIZE || page_count * PAGE_BYTES > DEFAULT_USERSPACE_SIZE - a {
                    return Err(Error::AddressRangeOverrun);
                }
                let mut k: u64 = 0;
                while k < page_count
                    invariant
                        self.wf(),
                        self.mapper_spec() == old(self).mapper_spec(),
                        pmm.wf(),
                        pmm.frames() == old(pmm).frames(),
                        address == Some(a),
                        a % PAGE_BYTES == 0,
                        k <= page_count,
                        a + page_count * PAGE_BYTES <= DEFAULT_USERSPACE_SIZE,
                        forall|j: int|
                            0 <= j < k ==> #[trigger] self.mapper_spec().lookup(
                                (a + j * PAGE_BYTES) as u64,
                                0,
                            ) is None,
                    decreases page_count - k,
                {
                    if self.mapper.is_mapped(a + k * PAGE_BYTES, None) {
                        return Err(Error::Mapper(MapperError::AlreadyMapped));
                    }
                    k = k + 1;
                }
                a
            },
            None => match self.find_free_run(page_count) {
                Some(s) => s,
                None => return Err(Error::OutOfMemory),
            },
        };
        let flags = permissions.user_flags();
        let ghost before = self.mapper_spec();
        let mut k: u64 = 0;
        while k < page_count
            invariant
                self.wf(),
                pmm.wf(),
                pmm.frames() == old(pmm).frames(),
                k <= page_count,
                start % PAGE_BYTES == 0,
                address matches Some(a) ==> a == start,
                start + page_count * PAGE_BYTES <= DEFAULT_USERSPACE_SIZE,
                forall|j: int|
                    0 <= j < page_count ==> #[trigger] old(self).mapper_spec().lookup(
                        (start + j * PAGE_BYTES) as u64,
                        0,
                    ) is None,
                is_attribute_set(flags),
                is_present(flags),
                !is_huge(flags),
            decreases page_count - k,
        {
            match self.mapper.auto_map(pmm, start + k * PAGE_BYTES, flags) {
                Ok(()) => {},
                Err(MapperError::AlreadyMapped) => {
                    // The pages were all unmapped a moment ago.
                    return Err(Error::Mapper(MapperError::MalformedTable));
                },
                Err(e) => return Err(Error::Mapper(e)),
            }
            k = k + 1;
        }
        let mut k: u64 = 0;
        while k < page_count
            invariant
                self.wf(),
                pmm.wf(),
                pmm.frames() == old(pmm).frames(),
                k <= page_count,
                start % PAGE_BYTES == 0,
                address matches Some(a) ==> a == start,
                start + page_count * PAGE_BYTES <= DEFAULT_USERSPACE_SIZE,
                flags == user_flags(permissions),
                forall|j: int|
                    0 <= j < page_count ==> #[trigger] old(self).mapper_spec().lookup(
                        (start + j * PAGE_BYTES) as u64,
                        0,
                    ) is None,
                forall|j: int|
                    0 <= j < k ==> match #[trigger] self.mapper_spec().lookup(
                        (start + j * PAGE_BYTES) as u64,
                        0,
                    ) {
                        Some(x) => x.0 == 1 && attributes_of(x.1) == user_flags(permissions),
                        None => false,
                    },
            decreases page_count - k,
        {
            match self.mapper.leaf_entry(start + k * PAGE_BYTES) {
                Some((level, e)) => {
                    if level != 1 || e & !ADDRESS_MASK != flags {
                        return Err(Error::Mapper(MapperError::MalformedTable));
                    }
                },
                None => return Err(Error::Mapper(MapperError::MalformedTable)),
            }
            k = k + 1;
        }
        Ok((start, page_count * PAGE_BYTES))
    }

    /// Replaces the attributes of `page_count` pages from `page`; stops at
    /// the first page that is not mapped. A user space refuses pages outside
    /// its lower half.
    pub fn set_flags(&mut self, page: u64, page_count: u64, flags: u64) -> (r: Result<(), Error>)
        requires
            old(self).wf(),
        ensures
            final(self).wf(),
            page % PAGE_BYTES != 0 ==> r == Err::<(), Error>(Error::MalformedAddress),
            page % PAGE_BYTES == 0 && page as int + page_count * PAGE_BYTES > u64::MAX ==> r == Err::<
                (),
                Error,
            >(Error::AddressRangeOverrun),
            page % PAGE_BYTES == 0 && page as int + page_count * PAGE_BYTES <= u64::MAX
                && old(self).is_user() && page + page_count * PAGE_BYTES > DEFAULT_USERSPACE_SIZE
                ==> r == Err::<(), Error>(Error::InvalidAddress),
            page % PAGE_BYTES == 0 && page as int + page_count * PAGE_BYTES <= u64::MAX && !(old(
                self,
            ).is_user() && page + page_count * PAGE_BYTES > DEFAULT_USERSPACE_SIZE) && page_count
                > 0 && old(self).mapper_spec().lookup(page, 0) is None ==> r == Err::<(), Error>(
                Error::Mapper(MapperError::NotMapped(page)),
            ),
            final(self).is_user() == old(self).is_user(),
    {
        if page % PAGE_BYTES != 0 {
            return Err(Error::MalformedAddress);
        }
        if page_count > (u64::MAX - page) / PAGE_BYTES {
            assert(page + page_count * PAGE_BYTES > 0xFFFF_FFFF_FFFF_FFFFu64) by (nonlinear_arith)
                requires page_count > (0xFFFF_FFFF_FFFF_FFFFu64 - page) / 4096;
            return Err(Error::AddressRangeOverrun);
        }
        assert(page + page_count * PAGE_BYTES <= 0xFFFF_FFFF_FFFF_FFFFu64) by (nonlinear_arith)
            requires page_count <= (0xFFFF_FFFF_FFFF_FFFFu64 - page) / 4096, page <= 0xFFFF_FFFF_FFFF_FFFFu64;
        if self.user && page + page_count * PAGE_BYTES > DEFAULT_USERSPACE_SIZE {
            return Err(Error::InvalidAddress);
        }
        let mut k: u64 = 0;
        while k < page_count
            invariant
                self.wf(),
                k <= page_count,
                page % PAGE_BYTES == 0,
                page + page_count * PAGE_BYTES <= u64::MAX,
                k == 0 ==> self.mapper_spec() == old(self).mapper_spec(),
                self.user == old(self).user,
                !(old(self).is_user() && page + page_count * PAGE_BYTES > DEFAULT_USERSPACE_SIZE),
                k > 0 ==> old(self).mapper_spec().lookup(page, 0) is Some,
            decreases page_count - k,
        {
            match self.mapper.set_page_attributes(
                page + k * PAGE_BYTES,
                None,
                flags,
                crate::paging::FlagsModify::Replace,
            ) {
                Ok(()) => {},
                Err(e) => return Err(Error::Mapper(e)),
            }
            k = k + 1;
        }
        Ok(())
    }
}

} // verus!
