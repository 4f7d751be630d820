//! The interrupt descriptor table: one entry per vector, present for every
//! vector but the reserved ones.
use vstd::prelude::*;

verus! {

/// Number of vectors.
pub const VECTOR_COUNT: usize = 256;

/// Vector of the system call entry.
pub const SYSCALL_VECTOR: usize = 0x80;

/// Type bits of a 64-bit interrupt entry.
pub const INTERRUPT_TYPE_BITS: u16 = 0x0E00;

/// Present bit of an entry's options.
pub const PRESENT_BIT: u16 = 0x8000;

/// Vectors that have no handler: the coprocessor segment overrun and the
/// reserved slots.
pub open spec fn is_reserved_vector(v: int) -> bool {
    v == 9 || v == 15 || (22 <= v <= 27) || v == 31
}

/// Exceptions that push an error code.
pub open spec fn has_error_code(v: int) -> bool {
    v == 8 || (10 <= v <= 14) || v == 17 || v == 21 || v == 29 || v == 30
}

/// The interrupt-stack-table slot (1-based; 0 for none) of each vector:
/// debug, NMI, double fault and machine check have stacks of their own.
pub open spec fn ist_slot(v: int) -> u16 {
    if v == 1 {
        1
    } else if v == 2 {
        2
    } else if v == 8 {
        3
    } else if v == 18 {
        4
    } else {
        0
    }
}

/// The privilege level from which a vector may be raised by software.
pub open spec fn entry_privilege(v: int) -> u16 {
    if v == SYSCALL_VECTOR {
        3
    } else {
        0
    }
}

/// One descriptor entry.
#[derive(Debug, Clone, Copy, PartialEq, Eq, Structural)]
pub struct Entry {
    pub handler: u64,
    pub code_selector: u16,
    pub options: u16,
}

/// The options of an entry: present bit, privilege in bits 13..15, interrupt
/// entry type, stack slot in bits 0..3.
pub open spec fn entry_options(present: bool, dpl: u16, ist: u16) -> int {
    (if present {
        PRESENT_BIT as int
    } else {
        0
    }) + dpl * 0x2000 + INTERRUPT_TYPE_BITS + ist
}

impl Entry {
    /// An absent entry.
    pub fn missing() -> (r: Entry)
        ensures
            r.handler == 0,
            r.code_selector == 0,
            r.options == entry_options(false, 0, 0),
    {
        Entry { handler: 0, code_selector: 0, options: INTERRUPT_TYPE_BITS }
    }

    pub open spec fn present(&self) -> bool {
        self.options >= PRESENT_BIT
    }

    pub fn is_present(&self) -> (r: bool)
        ensures
            r == self.present(),
    {
        self.options >= PRESENT_BIT
    }
}

/// A table of [`VECTOR_COUNT`] entries.
pub struct InterruptDescriptorTable {
    entries: Vec<Entry>,
}

impl InterruptDescriptorTable {
    pub closed spec fn descriptors(&self) -> Seq<Entry> {
        self.entries@
    }

    /// Builds the table from the address of each vector's entry stub.
    pub fn new(stubs: &Vec<u64>, code_selector: u16) -> (r: InterruptDescriptorTable)
        requires
            stubs@.len() == VECTOR_COUNT,
        ensures
            r.descriptors().len() == VECTOR_COUNT,
            forall|v: int|
                0 <= v < VECTOR_COUNT ==> {
                    let e = #[trigger] r.descriptors()[v];
                    if is_reserved_vector(v) {
                        e == Entry {
                            handler: 0,
                            code_selector: 0,
                            options: entry_options(false, 0, 0) as u16,
                        }
                    } else {
                        e == Entry {
                            handler: stubs@[v],
                            code_selector,
                            options: entry_options(true, entry_privilege(v), ist_slot(v)) as u16,
                        }
                    }
                },
    {
        let mut entries: Vec<Entry> = Vec::new();
        let mut v: usize = 0;
        while v < VECTOR_COUNT
            invariant
                v <= VECTOR_COUNT,
                stubs@.len() == VECTOR_COUNT,
                entries@.len() == v,
                forall|u: int|
                    0 <= u < v ==> {
                        let e = #[trigger] entries@[u];
                        if is_reserved_vector(u) {
                            e == Entry {
                                handler: 0,
                                code_selector: 0,
                                options: entry_options(false, 0, 0) as u16,
                            }
                        } else {
                            e == Entry {
                                handler: stubs@[u],
                                code_selector,
                                options: entry_options(true, entry_privilege(u), ist_slot(u)) as u16,
                            }
                        }
                    },
            decreases VECTOR_COUNT - v,
        {
            let reserved = v == 9 || v == 15 || (22 <= v && v <= 27) || v == 31;
            if reserved {
                entries.push(Entry::missing());
            } else {
                let ist: u16 = if v == 1 {
                    1
                } else if v == 2 {
                    2
                } else if v == 8 {
                    3
                } else if v == 18 {
                    4
                } else {
                    0
                };
                let dpl: u16 = if v == SYSCALL_VECTOR {
                    3
                } else {
                    0
                };
                let options: u16 = PRESENT_BIT + dpl * 0x2000 + INTERRUPT_TYPE_BITS + ist;
                entries.push(Entry { handler: stubs[v], code_selector, options });
            }
            v = v + 1;
        }
        InterruptDescriptorTable { entries }
    }

    /// The entry of a vector that pushes no error code; `None` for the
    /// exceptions that do, whose entries are reached by name only.
    pub fn index(&self, vector: u8) -> (r: Option<Entry>)
        requires
            self.descriptors().len() == VECTOR_COUNT,
        ensures
            has_error_code(vector as int) <==> r is None,
            r matches Some(e) ==> e == self.descriptors()[vector as int],
    {
        let v = vector;
        if v == 8 || (10 <= v && v <= 14) || v == 17 || v == 21 || v == 29 || v == 30 {
            None
        } else {
            Some(self.entries[v as usize])
        }
    }

    /// The entry of any vector, error-code exceptions included.
    pub fn entry(&self, vector: u8) -> (r: Entry)
        requires
            self.descriptors().len() == VECTOR_COUNT,
        ensures
            r == self.descriptors()[vector as int],
    {
        self.entries[vector as usize]
    }
}

/// Coverage: in a table built by [`InterruptDescriptorTable::new`], an entry
/// is present exactly when its vector is not reserved.
pub proof fn lemma_idt_coverage(t: InterruptDescriptorTable, stubs: Seq<u64>, code_selector: u16)
    requires
        t.descriptors().len() == VECTOR_COUNT,
        forall|v: int|
            0 <= v < VECTOR_COUNT ==> {
                let e = #[trigger] t.descriptors()[v];
                if is_reserved_vector(v) {
                    e == Entry {
                        handler: 0,
                        code_selector: 0,
                        options: entry_options(false, 0, 0) as u16,
                    }
                } else {
                    e == Entry {
                        handler: stubs[v],
                        code_selector,
                        options: entry_options(true, entry_privilege(v), ist_slot(v)) as u16,
                    }
                }
            },
    ensures
        forall|v: int| 0 <= v < VECTOR_COUNT ==> #[trigger] t.descriptors()[v].present() == !is_reserved_vector(v),
{
    assert forall|v: int| 0 <= v < VECTOR_COUNT implies #[trigger] t.descriptors()[v].present()
        == !is_reserved_vector(v) by {
        let e = t.descriptors()[v];
        if !is_reserved_vector(v) {
            assert(entry_options(true, entry_privilege(v), ist_slot(v)) >= 0x8000);
            assert(entry_options(true, entry_privilege(v), ist_slot(v)) <= 0xFFFF);
        }
    }
}

} // verus!
