//! Values of the x2APIC registers: local vector table entries and the
//! interrupt command register for inter-processor interrupts.
use vstd::prelude::*;
use crate::bits::{field_of, get_bit, get_bits, set_bit, set_bits, with_bit, with_field};

verus! {

/// How an interrupt is delivered.
#[derive(Debug, Clone, Copy, PartialEq, Eq, Structural)]
pub enum InterruptDeliveryMode {
    Fixed,
    LowPriority,
    SystemManagement,
    NonMaskable,
    Init,
    StartUp,
    External,
}

pub open spec fn delivery_code(m: InterruptDeliveryMode) -> u32 {
    match m {
        InterruptDeliveryMode::Fixed => 0b000,
        InterruptDeliveryMode::LowPriority => 0b001,
        InterruptDeliveryMode::SystemManagement => 0b010,
        InterruptDeliveryMode::NonMaskable => 0b100,
        InterruptDeliveryMode::Init => 0b101,
        InterruptDeliveryMode::StartUp => 0b110,
        InterruptDeliveryMode::External => 0b111,
    }
}

impl InterruptDeliveryMode {
    /// The three-bit code of the mode.
    pub fn code(self) -> (r: u32)
        ensures
            r == delivery_code(self),
    {
        match self {
            InterruptDeliveryMode::Fixed => 0b000,
            InterruptDeliveryMode::LowPriority => 0b001,
            InterruptDeliveryMode::SystemManagement => 0b010,
            InterruptDeliveryMode::NonMaskable => 0b100,
            InterruptDeliveryMode::Init => 0b101,
            InterruptDeliveryMode::StartUp => 0b110,
            InterruptDeliveryMode::External => 0b111,
        }
    }
}

#[derive(Debug, Clone, Copy, PartialEq, Eq, Structural)]
pub enum InterruptDestinationMode {
    Physical,
    Logical,
}

#[derive(Debug, Clone, Copy, PartialEq, Eq, Structural)]
pub enum InterruptTriggerMode {
    Edge,
    Level,
}

#[derive(Debug, Clone, Copy, PartialEq, Eq, Structural)]
pub enum InterruptAssertMode {
    Deassert,
    Assert,
}

/// The destination of an inter-processor interrupt: one processor, or a
/// shorthand.
#[derive(Debug, Clone, Copy, PartialEq, Eq, Structural)]
pub enum InterruptDestination {
    Processor { id: u32 },
    OnlySelf,
    AllIncludingSelf,
    AllExcludingSelf,
}

/// Why a command cannot be built.
#[derive(Debug, Clone, Copy, PartialEq, Eq, Structural)]
pub enum CommandError {
    /// De-assert is only valid with INIT delivery and level trigger.
    DeassertNotInitLevel,
    /// A vector may not be given with SMI or INIT delivery.
    VectorWithSmiOrInit,
    /// De-assert is only valid with the all-including-self destination.
    DeassertDestination,
    /// Lowest-priority delivery is not allowed in x2APIC mode.
    LowPriority,
}

/// The value of the interrupt command register, in two halves.
#[derive(Debug, Clone, Copy, PartialEq, Eq, Structural)]
pub struct InterruptCommand {
    high: u32,
    low: u32,
}

/// The error that the arguments of a command give, checked in this order,
/// or `None` when the command is valid.
pub open spec fn command_error(
    vector: Option<u8>,
    destination: InterruptDestination,
    delivery_mode: InterruptDeliveryMode,
    trigger_mode: InterruptTriggerMode,
    assert_mode: InterruptAssertMode,
) -> Option<CommandError> {
    let deassert = assert_mode == InterruptAssertMode::Deassert;
    if deassert && (delivery_mode != InterruptDeliveryMode::Init || trigger_mode
        != InterruptTriggerMode::Level) {
        Some(CommandError::DeassertNotInitLevel)
    } else if vector is Some && (delivery_mode == InterruptDeliveryMode::SystemManagement
        || delivery_mode == InterruptDeliveryMode::Init) {
        Some(CommandError::VectorWithSmiOrInit)
    } else if delivery_mode == InterruptDeliveryMode::LowPriority {
        Some(CommandError::LowPriority)
    } else if deassert && !(destination is AllIncludingSelf) {
        Some(CommandError::DeassertDestination)
    } else {
        None
    }
}

/// The low half: vector in bits 0..8, delivery mode in 8..11, destination
/// mode in 11, assert in 14, trigger in 15, shorthand in 18..20.
pub open spec fn command_low(
    vector: Option<u8>,
    destination: InterruptDestination,
    delivery_mode: InterruptDeliveryMode,
    destination_mode: InterruptDestinationMode,
    trigger_mode: InterruptTriggerMode,
    assert_mode: InterruptAssertMode,
) -> int {
    (match vector {
        Some(v) => v as int,
        None => 0,
    }) + delivery_code(delivery_mode) * 0x100 + (if destination_mode
        == InterruptDestinationMode::Logical {
        0x800int
    } else {
        0
    }) + (if assert_mode == InterruptAssertMode::Assert {
        0x4000int
    } else {
        0
    }) + (if trigger_mode == InterruptTriggerMode::Level {
        0x8000int
    } else {
        0
    }) + match destination {
        InterruptDestination::Processor { .. } => 0int,
        InterruptDestination::OnlySelf => 0x40000,
        InterruptDestination::AllIncludingSelf => 0x80000,
        InterruptDestination::AllExcludingSelf => 0xC0000,
    }
}

/// The high half: the destination processor's id, else zero.
pub open spec fn command_high(destination: InterruptDestination) -> u32 {
    match destination {
        InterruptDestination::Processor { id } => id,
        _ => 0,
    }
}

impl InterruptCommand {
    pub closed spec fn high_spec(&self) -> u32 {
        self.high
    }

    pub closed spec fn low_spec(&self) -> u32 {
        self.low
    }

    /// Builds the command, or names the rule that the arguments break.
    pub fn new(
        vector: Option<u8>,
        destination: InterruptDestination,
        delivery_mode: InterruptDeliveryMode,
        destination_mode: InterruptDestinationMode,
        trigger_mode: InterruptTriggerMode,
        assert_mode: InterruptAssertMode,
    ) -> (r: Result<InterruptCommand, CommandError>)
        ensures
            command_error(vector, destination, delivery_mode, trigger_mode, assert_mode) matches Some(
                e,
            ) ==> r == Err::<InterruptCommand, CommandError>(e),
            command_error(vector, destination, delivery_mode, trigger_mode, assert_mode) is None
                ==> (r matches Ok(c) && c.high_spec() == command_high(destination) && c.low_spec()
                == command_low(
                vector,
                destination,
                delivery_mode,
                destination_mode,
                trigger_mode,
                assert_mode,
            )),
    {
        let deassert = match assert_mode {
            InterruptAssertMode::Deassert => true,
            InterruptAssertMode::Assert => false,
        };
        let is_init = match delivery_mode {
            InterruptDeliveryMode::Init => true,
            _ => false,
        };
        let is_level = match trigger_mode {
            InterruptTriggerMode::Level => true,
            InterruptTriggerMode::Edge => false,
        };
        if deassert && (!is_init || !is_level) {
            return Err(CommandError::DeassertNotInitLevel);
        }
        let smi_or_init = match delivery_mode {
            InterruptDeliveryMode::SystemManagement | InterruptDeliveryMode::Init => true,
            _ => false,
        };
        if vector.is_some() && smi_or_init {
            return Err(CommandError::VectorWithSmiOrInit);
        }
        if let InterruptDeliveryMode::LowPriority = delivery_mode {
            return Err(CommandError::LowPriority);
        }
        let mut low: u32 = match vector {
            Some(v) => v as u32,
            None => 0,
        };
        low = low + delivery_mode.code() * 0x100;
        if let InterruptDestinationMode::Logical = destination_mode {
            low = low + 0x800;
        }
        if !deassert {
            low = low + 0x4000;
        }
        if is_level {
            low = low + 0x8000;
        }
        let high: u32 = match destination {
            InterruptDestination::Processor { id } => {
                if deassert {
                    return Err(CommandError::DeassertDestination);
                }
                id
            },
            InterruptDestination::OnlySelf => {
                if deassert {
                    return Err(CommandError::DeassertDestination);
                }
                low = low + 0x40000;
                0
            },
            InterruptDestination::AllIncludingSelf => {
                low = low + 0x80000;
                0
            },
            InterruptDestination::AllExcludingSelf => {
                if deassert {
                    return Err(CommandError::DeassertDestination);
                }
                low = low + 0xC0000;
                0
            },
        };
        Ok(InterruptCommand { high, low })
    }

    /// INIT to the processor whose APIC id is `apic_id`.
    pub fn new_init(apic_id: u32) -> (r: InterruptCommand)
        ensures
            r.high_spec() == apic_id,
            r.low_spec() == 0x500 + 0x4000 + 0x8000,
    {
        let r = InterruptCommand::new(
            None,
            InterruptDestination::Processor { id: apic_id },
            InterruptDeliveryMode::Init,
            InterruptDestinationMode::Physical,
            InterruptTriggerMode::Level,
            InterruptAssertMode::Assert,
        );
        match r {
            Ok(c) => c,
            Err(_) => {
                assert(false);
                InterruptCommand { high: 0, low: 0 }
            },
        }
    }

    /// Start-up IPI with the page number `vector` to the processor whose
    /// APIC id is `apic_id`; a zero vector is left out.
    pub fn new_sipi(vector: u8, apic_id: u32) -> (r: InterruptCommand)
        ensures
            r.high_spec() == apic_id,
            r.low_spec() == vector + 0x600 + 0x4000,
    {
        let v = if vector == 0 {
            None
        } else {
            Some(vector)
        };
        let r = InterruptCommand::new(
            v,
            InterruptDestination::Processor { id: apic_id },
            InterruptDeliveryMode::StartUp,
            InterruptDestinationMode::Physical,
            InterruptTriggerMode::Edge,
            InterruptAssertMode::Assert,
        );
        match r {
            Ok(c) => c,
            Err(_) => {
                assert(false);
                InterruptCommand { high: 0, low: 0 }
            },
        }
    }

    pub fn high(self) -> (r: u32)
        ensures
            r == self.high_spec(),
    {
        self.high
    }

    pub fn low(self) -> (r: u32)
        ensures
            r == self.low_spec(),
    {
        self.low
    }
}

/// Modes of the local timer.
#[derive(Debug, Clone, Copy, PartialEq, Eq, Structural)]
pub enum TimerMode {
    OneShot,
    Periodic,
    TscDeadline,
}

pub open spec fn timer_mode_code(m: TimerMode) -> u32 {
    match m {
        TimerMode::OneShot => 0b00,
        TimerMode::Periodic => 0b01,
        TimerMode::TscDeadline => 0b10,
    }
}

/// The value of one local vector table register.
#[derive(Debug, Clone, Copy, PartialEq, Eq, Structural)]
pub struct LocalVector {
    pub raw: u32,
}

impl LocalVector {
    pub fn from_raw(raw: u32) -> (r: LocalVector)
        ensures
            r.raw == raw,
    {
        LocalVector { raw }
    }

    /// Bit 12: an interrupt is pending delivery.
    pub fn get_delivery_status(&self) -> (r: bool)
        ensures
            r == ((self.raw >> 12u32) & 1 == 1),
    {
        (self.raw >> 12u32) & 1 == 1
    }

    /// Bit 16: the interrupt is masked.
    pub fn get_masked(&self) -> (r: bool)
        ensures
            r == ((self.raw >> 16u32) & 1 == 1),
    {
        (self.raw >> 16u32) & 1 == 1
    }

    /// Sets or clears bit 16, keeping the others.
    pub fn set_masked(&mut self, masked: bool)
        ensures
            final(self).raw == if masked {
                old(self).raw | 0x1_0000u32
            } else {
                old(self).raw & !0x1_0000u32
            },
            ((final(self).raw >> 16u32) & 1 == 1) == masked,
    {
        let old_raw = self.raw;
        if masked {
            self.raw = old_raw | 0x1_0000u32;
            assert(((old_raw | 0x1_0000u32) >> 16u32) & 1 == 1) by (bit_vector);
        } else {
            self.raw = old_raw & !0x1_0000u32;
            assert(((old_raw & !0x1_0000u32) >> 16u32) & 1 == 0) by (bit_vector);
        }
    }

    /// Bits 0..8: the vector.
    pub fn get_vector(&self) -> (r: u8)
        ensures
            r == self.raw & 0xFF,
    {
        let raw = self.raw;
        assert(raw & 0xFF <= 0xFF) by (bit_vector);
        (raw & 0xFF) as u8
    }

    /// Replaces bits 0..8 with `vector`; vectors 0 to 15 are reserved.
    pub fn set_vector(&mut self, vector: u8)
        requires
            vector > 15,
        ensures
            final(self).raw == (old(self).raw & !0xFFu32) | vector as u32,
            final(self).raw & 0xFF == vector,
    {
        let old_raw = self.raw;
        let v = vector as u32;
        self.raw = (old_raw & !0xFFu32) | v;
        assert(v <= 0xFF ==> ((old_raw & !0xFFu32) | v) & 0xFF == v) by (bit_vector);
    }

    /// Replaces bits 8..11 with the delivery mode's code.
    pub fn set_delivery_mode(&mut self, mode: InterruptDeliveryMode)
        ensures
            final(self).raw == (old(self).raw & !0x700u32) | (delivery_code(mode) << 8u32),
    {
        self.raw = (self.raw & !0x700u32) | (mode.code() << 8u32);
    }

    /// Bits 17..19: the timer mode; `None` for the reserved code.
    pub fn get_mode(&self) -> (r: Option<TimerMode>)
        ensures
            r matches Some(m) ==> timer_mode_code(m) == (self.raw >> 17u32) & 3,
            r is None <==> (self.raw >> 17u32) & 3 == 3,
    {
        let raw = self.raw;
        let code = (raw >> 17u32) & 3;
        assert((raw >> 17u32) & 3 <= 3) by (bit_vector);
        if code == 0 {
            Some(TimerMode::OneShot)
        } else if code == 1 {
            Some(TimerMode::Periodic)
        } else if code == 2 {
            Some(TimerMode::TscDeadline)
        } else {
            None
        }
    }

    /// Replaces bits 17..19 with the timer mode's code. The TSC-deadline mode
    /// needs the CPU to advertise it.
    pub fn set_mode(&mut self, mode: TimerMode, tsc_deadline_supported: bool)
        requires
            mode == TimerMode::TscDeadline ==> tsc_deadline_supported,
        ensures
            final(self).raw == (old(self).raw & !0x6_0000u32) | (timer_mode_code(mode) << 17u32),
    {
        let code: u32 = match mode {
            TimerMode::OneShot => 0,
            TimerMode::Periodic => 1,
            TimerMode::TscDeadline => 2,
        };
        self.raw = (self.raw & !0x6_0000u32) | (code << 17u32);
    }
}

/// Model-specific register numbers of the x2APIC.
#[allow(non_camel_case_types)]
#[derive(Debug, Clone, Copy, PartialEq, Eq, Structural)]
pub enum Register {
    ID,
    VERSION,
    TASK_PRIORITY,
    PROCESSOR_PRIORITY,
    END_OF_INTERRUPT,
    LOCAL_DESTINATION,
    SPURIOUS_VECTOR,
    ERROR_STATUS,
    LVT_CMCI,
    INTERRUPT_COMMAND,
    LVT_TIMER,
    LVT_THERMAL_MONITOR,
    LVT_PERFORMANCE_COUNTER,
    LVT_LINT0,
    LVT_LINT1,
    LVT_ERROR,
    TIMER_INITIAL_COUNT,
    TIMER_CURRENT_COUNT,
    TIMER_DIVIDE_CONFIGURATION,
}

impl Register {
    /// The register's MSR address.
    pub fn address(self) -> (r: u32)
        ensures
            0x802 <= r <= 0x83E,
    {
        match self {
            Register::ID => 0x802,
            Register::VERSION => 0x803,
            Register::TASK_PRIORITY => 0x808,
            Register::PROCESSOR_PRIORITY => 0x80A,
            Register::END_OF_INTERRUPT => 0x80B,
            Register::LOCAL_DESTINATION => 0x80D,
            Register::SPURIOUS_VECTOR => 0x80F,
            Register::ERROR_STATUS => 0x828,
            Register::LVT_CMCI => 0x82F,
            Register::INTERRUPT_COMMAND => 0x830,
            Register::LVT_TIMER => 0x832,
            Register::LVT_THERMAL_MONITOR => 0x833,
            Register::LVT_PERFORMANCE_COUNTER => 0x834,
            Register::LVT_LINT0 => 0x835,
            Register::LVT_LINT1 => 0x836,
            Register::LVT_ERROR => 0x837,
            Register::TIMER_INITIAL_COUNT => 0x838,
            Register::TIMER_CURRENT_COUNT => 0x839,
            Register::TIMER_DIVIDE_CONFIGURATION => 0x83E,
        }
    }
}

/// Divisors of the APIC timer's input clock.
#[derive(Debug, Clone, Copy, PartialEq, Eq, Structural)]
pub enum TimerDivideConfiguration {
    DivideBy1,
    DivideBy2,
    DivideBy4,
    DivideBy8,
    DivideBy16,
    DivideBy32,
    DivideBy64,
    DivideBy128,
}

pub open spec fn divide_code(d: TimerDivideConfiguration) -> u64 {
    match d {
        TimerDivideConfiguration::DivideBy1 => 0b1011,
        TimerDivideConfiguration::DivideBy2 => 0b0000,
        TimerDivideConfiguration::DivideBy4 => 0b0001,
        TimerDivideConfiguration::DivideBy8 => 0b0010,
        TimerDivideConfiguration::DivideBy16 => 0b0011,
        TimerDivideConfiguration::DivideBy32 => 0b1000,
        TimerDivideConfiguration::DivideBy64 => 0b1001,
        TimerDivideConfiguration::DivideBy128 => 0b1010,
    }
}

impl TimerDivideConfiguration {
    pub fn code(self) -> (r: u64)
        ensures
            r == divide_code(self),
    {
        match self {
            TimerDivideConfiguration::DivideBy1 => 0b1011,
            TimerDivideConfiguration::DivideBy2 => 0b0000,
            TimerDivideConfiguration::DivideBy4 => 0b0001,
            TimerDivideConfiguration::DivideBy8 => 0b0010,
            TimerDivideConfiguration::DivideBy16 => 0b0011,
            TimerDivideConfiguration::DivideBy32 => 0b1000,
            TimerDivideConfiguration::DivideBy64 => 0b1001,
            TimerDivideConfiguration::DivideBy128 => 0b1010,
        }
    }

    /// The configuration with `code`, if any.
    pub fn from_code(code: u64) -> (r: Option<TimerDivideConfiguration>)
        ensures
            r matches Some(d) ==> divide_code(d) == code,
            r is None <==> forall|d: TimerDivideConfiguration| divide_code(d) != code,
    {
        let r = if code == 0b1011 {
            Some(TimerDivideConfiguration::DivideBy1)
        } else if code == 0b0000 {
            Some(TimerDivideConfiguration::DivideBy2)
        } else if code == 0b0001 {
            Some(TimerDivideConfiguration::DivideBy4)
        } else if code == 0b0010 {
            Some(TimerDivideConfiguration::DivideBy8)
        } else if code == 0b0011 {
            Some(TimerDivideConfiguration::DivideBy16)
        } else if code == 0b1000 {
            Some(TimerDivideConfiguration::DivideBy32)
        } else if code == 0b1001 {
            Some(TimerDivideConfiguration::DivideBy64)
        } else if code == 0b1010 {
            Some(TimerDivideConfiguration::DivideBy128)
        } else {
            None
        };
        proof {
            if let Some(d) = r {
                assert(divide_code(d) == code);
            }
        }
        r
    }
}

/// Kinds of local vector table entries, by the register that holds them.
pub trait Kind {
    fn register() -> Register;
}

/// Entries whose delivery mode can be chosen.
pub trait Deliverable: Kind {
}

pub struct Timer;

pub struct CMCI;

pub struct LINT0;

pub struct LINT1;

pub struct PerformanceCounter;

pub struct ThermalSensor;

impl Kind for Timer {
    fn register() -> Register {
        Register::LVT_TIMER
    }
}

impl Kind for CMCI {
    fn register() -> Register {
        Register::LVT_CMCI
    }
}

impl Deliverable for CMCI {
}

impl Kind for LINT0 {
    fn register() -> Register {
        Register::LVT_LINT0
    }
}

impl Kind for LINT1 {
    fn register() -> Register {
        Register::LVT_LINT1
    }
}

impl Kind for PerformanceCounter {
    fn register() -> Register {
        Register::LVT_PERFORMANCE_COUNTER
    }
}

impl Deliverable for PerformanceCounter {
}

impl Kind for ThermalSensor {
    fn register() -> Register {
        Register::LVT_THERMAL_MONITOR
    }
}

impl Deliverable for ThermalSensor {
}

/// Vectors that the kernel assigns to the local interrupt sources.
pub const SPURIOUS_VECTOR: u8 = 0xFF;
pub const TIMER_VECTOR: u8 = 0x21;
pub const ERROR_VECTOR: u8 = 0x22;
pub const PERFORMANCE_VECTOR: u8 = 0x23;
pub const THERMAL_VECTOR: u8 = 0x24;
pub const CMCI_VECTOR: u8 = 0x25;

/// The values of the x2APIC's registers on one hardware thread; the caller
/// reads them from and writes them to the model-specific registers.
#[allow(non_camel_case_types)]
#[derive(Debug, Clone, Copy, PartialEq, Eq, Structural)]
pub struct x2Apic {
    pub id: u32,
    pub version: u64,
    pub spurious_vector: u64,
    pub error_status: u64,
    pub interrupt_command: u64,
    pub eoi_register: u64,
    pub lvt_timer: u32,
    pub lvt_lint0: u32,
    pub lvt_lint1: u32,
    pub lvt_error: u32,
    pub lvt_performance_counter: u32,
    pub lvt_thermal_monitor: u32,
    pub lvt_cmci: u32,
    pub timer_initial_count: u32,
    pub timer_current_count: u32,
    pub timer_divide_configuration: u64,
}

/// The entry `raw` with `vector` and the mask bit set to `masked`.
pub open spec fn configured(raw: u32, vector: u8, masked: bool) -> u32 {
    let v = (raw & !0xFFu32) | vector as u32;
    if masked {
        v | 0x1_0000u32
    } else {
        v & !0x1_0000u32
    }
}

fn configure_entry(raw: u32, vector: u8, masked: bool) -> (r: u32)
    requires
        vector > 15,
    ensures
        r == configured(raw, vector, masked),
{
    let mut e = LocalVector::from_raw(raw);
    e.set_vector(vector);
    e.set_masked(masked);
    e.raw
}

impl x2Apic {
    pub fn get_id(&self) -> (r: u32)
        ensures
            r == self.id,
    {
        self.id
    }

    /// Bits 0..8 of the version register.
    pub fn version(&self) -> (r: u8)
        ensures
            r == field_of(self.version, 0, 8),
    {
        let raw = self.version;
        let v = get_bits(raw, 0, 8);
        assert(v <= 0xFF) by (bit_vector)
            requires v == (raw >> 0u64) & (0xFFFF_FFFF_FFFF_FFFFu64 >> 56u64);
        v as u8
    }

    /// Bit 24 of the version register.
    pub fn can_suppress_eoi_broadcast(&self) -> (r: bool)
        ensures
            r == crate::bits::bit_of(self.version, 24),
    {
        get_bit(self.version, 24)
    }

    /// Bits 16..24 of the version register: the highest LVT entry index.
    pub fn max_lvt_entry(&self) -> (r: u8)
        ensures
            r == field_of(self.version, 16, 8),
    {
        let raw = self.version;
        let v = get_bits(raw, 16, 8);
        assert(v <= 0xFF) by (bit_vector)
            requires v == (raw >> 16u64) & (0xFFFF_FFFF_FFFF_FFFFu64 >> 56u64);
        v as u8
    }

    /// Bits 0..8 of the spurious-vector register.
    pub fn get_spurious_vector(&self) -> (r: u8)
        ensures
            r == field_of(self.spurious_vector, 0, 8),
    {
        let raw = self.spurious_vector;
        let v = get_bits(raw, 0, 8);
        assert(v <= 0xFF) by (bit_vector)
            requires v == (raw >> 0u64) & (0xFFFF_FFFF_FFFF_FFFFu64 >> 56u64);
        v as u8
    }

    /// Replaces bits 0..8 of the spurious-vector register; vectors 0 to 15
    /// are reserved.
    pub fn set_spurious_vector(&mut self, vector: u8)
        requires
            vector > 15,
        ensures
            *final(self) == (x2Apic {
                spurious_vector: with_field(old(self).spurious_vector, 0, 8, vector as u64),
                ..*old(self)
            }),
    {
        self.spurious_vector = set_bits(self.spurious_vector, 0, 8, vector as u64);
    }

    /// Bit 8 of the spurious-vector register: the APIC is software-enabled.
    pub fn get_enabled(&self) -> (r: bool)
        ensures
            r == crate::bits::bit_of(self.spurious_vector, 8),
    {
        get_bit(self.spurious_vector, 8)
    }

    pub fn set_enabled(&mut self, value: bool)
        ensures
            *final(self) == (x2Apic {
                spurious_vector: with_bit(old(self).spurious_vector, 8, value),
                ..*old(self)
            }),
    {
        self.spurious_vector = set_bit(self.spurious_vector, 8, value);
    }

    /// Bit 12 of the spurious-vector register.
    pub fn get_eoi_broadcast_suppression(&self) -> (r: bool)
        ensures
            r == crate::bits::bit_of(self.spurious_vector, 12),
    {
        get_bit(self.spurious_vector, 12)
    }

    pub fn set_eoi_broadcast_suppression(&mut self, value: bool)
        ensures
            *final(self) == (x2Apic {
                spurious_vector: with_bit(old(self).spurious_vector, 12, value),
                ..*old(self)
            }),
    {
        self.spurious_vector = set_bit(self.spurious_vector, 12, value);
    }

    /// The error bits (0..8) of the error-status register.
    pub fn get_error_status(&self) -> (r: u64)
        ensures
            r == field_of(self.error_status, 0, 8),
    {
        get_bits(self.error_status, 0, 8)
    }

    pub fn get_timer_initial_count(&self) -> (r: u32)
        ensures
            r == self.timer_initial_count,
    {
        self.timer_initial_count
    }

    pub fn set_timer_initial_count(&mut self, value: u32)
        ensures
            *final(self) == (x2Apic { timer_initial_count: value, ..*old(self) }),
    {
        self.timer_initial_count = value;
    }

    pub fn get_timer_current_count(&self) -> (r: u32)
        ensures
            r == self.timer_current_count,
    {
        self.timer_current_count
    }

    /// The divide configuration; `None` for a code that names none.
    pub fn get_timer_divide_configuration(&self) -> (r: Option<TimerDivideConfiguration>)
        ensures
            r matches Some(d) ==> divide_code(d) == self.timer_divide_configuration,
            r is None <==> forall|d: TimerDivideConfiguration|
                divide_code(d) != self.timer_divide_configuration,
    {
        TimerDivideConfiguration::from_code(self.timer_divide_configuration)
    }

    pub fn set_timer_divide_configuration(&mut self, value: TimerDivideConfiguration)
        ensures
            *final(self) == (x2Apic { timer_divide_configuration: divide_code(value), ..*old(self) }),
    {
        self.timer_divide_configuration = value.code();
    }

    /// Writes the command: the high half in bits 32..64, the low half below.
    /// Lowest-priority delivery is not allowed in x2APIC mode.
    pub fn send_interrupt_command(&mut self, command: InterruptCommand)
        requires
            (command.low_spec() / 0x100) % 8 != 1,
        ensures
            *final(self) == (x2Apic {
                interrupt_command: (command.high_spec() as u64 * 0x1_0000_0000 + command.low_spec()) as u64,
                ..*old(self)
            }),
    {
        let high = command.high() as u64;
        let low = command.low() as u64;
        self.interrupt_command = high * 0x1_0000_0000 + low;
    }

    /// Signals the end of the interrupt being handled: zero goes to the EOI
    /// register.
    pub fn end_of_interrupt(&mut self)
        ensures
            *final(self) == (x2Apic { eoi_register: 0, ..*old(self) }),
    {
        self.eoi_register = 0;
    }

    pub fn lvt_lint0(&self) -> (r: LocalVector)
        ensures
            r.raw == self.lvt_lint0,
    {
        LocalVector::from_raw(self.lvt_lint0)
    }

    pub fn lvt_lint1(&self) -> (r: LocalVector)
        ensures
            r.raw == self.lvt_lint1,
    {
        LocalVector::from_raw(self.lvt_lint1)
    }

    pub fn lvt_error(&self) -> (r: LocalVector)
        ensures
            r.raw == self.lvt_error,
    {
        LocalVector::from_raw(self.lvt_error)
    }

    pub fn lvt_timer(&self) -> (r: LocalVector)
        ensures
            r.raw == self.lvt_timer,
    {
        LocalVector::from_raw(self.lvt_timer)
    }

    /// The performance-counter entry, present from LVT index 4.
    pub fn lvt_performance_counter(&self) -> (r: Option<LocalVector>)
        ensures
            r is Some <==> field_of(self.version, 16, 8) >= 4,
            r matches Some(v) ==> v.raw == self.lvt_performance_counter,
    {
        if self.max_lvt_entry() >= 4 {
            Some(LocalVector::from_raw(self.lvt_performance_counter))
        } else {
            None
        }
    }

    /// The thermal-sensor entry, present from LVT index 5.
    pub fn lvt_thermal_monitor(&self) -> (r: Option<LocalVector>)
        ensures
            r is Some <==> field_of(self.version, 16, 8) >= 5,
            r matches Some(v) ==> v.raw == self.lvt_thermal_monitor,
    {
        if self.max_lvt_entry() >= 5 {
            Some(LocalVector::from_raw(self.lvt_thermal_monitor))
        } else {
            None
        }
    }

    /// The CMCI entry, present from LVT index 6.
    pub fn lvt_cmci(&self) -> (r: Option<LocalVector>)
        ensures
            r is Some <==> field_of(self.version, 16, 8) >= 6,
            r matches Some(v) ==> v.raw == self.lvt_cmci,
    {
        if self.max_lvt_entry() >= 6 {
            Some(LocalVector::from_raw(self.lvt_cmci))
        } else {
            None
        }
    }

    /// The reset sequence: software-disable, install the spurious vector,
    /// give each local source its vector (the timer masked, the others
    /// unmasked; the optional ones only where present), then software-enable
    /// it again.
    pub fn reset(&mut self)
        ensures
            crate::bits::bit_of(final(self).spurious_vector, 8),
            field_of(final(self).spurious_vector, 0, 8) == SPURIOUS_VECTOR,
            final(self).lvt_error == configured(old(self).lvt_error, ERROR_VECTOR, false),
            final(self).lvt_timer == configured(old(self).lvt_timer, TIMER_VECTOR, true),
            final(self).lvt_performance_counter == if field_of(old(self).version, 16, 8) >= 4 {
                configured(old(self).lvt_performance_counter, PERFORMANCE_VECTOR, false)
            } else {
                old(self).lvt_performance_counter
            },
            final(self).lvt_thermal_monitor == if field_of(old(self).version, 16, 8) >= 5 {
                configured(old(self).lvt_thermal_monitor, THERMAL_VECTOR, false)
            } else {
                old(self).lvt_thermal_monitor
            },
            final(self).lvt_cmci == if field_of(old(self).version, 16, 8) >= 6 {
                configured(old(self).lvt_cmci, CMCI_VECTOR, false)
            } else {
                old(self).lvt_cmci
            },
            final(self).lvt_lint0 == old(self).lvt_lint0,
            final(self).lvt_lint1 == old(self).lvt_lint1,
            final(self).version == old(self).version,
            final(self).id == old(self).id,
    {
        self.set_enabled(false);
        self.set_spurious_vector(SPURIOUS_VECTOR);
        self.lvt_error = configure_entry(self.lvt_error, ERROR_VECTOR, false);
        self.lvt_timer = configure_entry(self.lvt_timer, TIMER_VECTOR, true);
        if self.max_lvt_entry() >= 4 {
            self.lvt_performance_counter = configure_entry(
                self.lvt_performance_counter,
                PERFORMANCE_VECTOR,
                false,
            );
        }
        if self.max_lvt_entry() >= 5 {
            self.lvt_thermal_monitor = configure_entry(self.lvt_thermal_monitor, THERMAL_VECTOR, false);
        }
        if self.max_lvt_entry() >= 6 {
            self.lvt_cmci = configure_entry(self.lvt_cmci, CMCI_VECTOR, false);
        }
        let s = self.spurious_vector;
        let ghost s0 = old(self).spurious_vector;
        self.set_enabled(true);
        let t = self.spurious_vector;
        assert(((t >> 8u64) & 1 == 1) && ((t >> 0u64) & (0xFFFF_FFFF_FFFF_FFFFu64 >> 56u64) == 0xFF))
            by (bit_vector)
            requires
                s == ((s0 & !(1u64 << 8u64)) & !((0xFFFF_FFFF_FFFF_FFFFu64 >> 56u64) << 0u64)) | ((0xFFu64
                    & (0xFFFF_FFFF_FFFF_FFFFu64 >> 56u64)) << 0u64),
                t == s | (1u64 << 8u64),
        ;
    }
}

/// The id of the running hardware thread: its x2APIC id.
pub fn get_hwthread_id(apic: &x2Apic) -> (r: u32)
    ensures
        r == apic.id,
{
    apic.get_id()
}

/// IPI validation: a command is refused exactly when it de-asserts without
/// INIT and level trigger, gives a vector with SMI or INIT, or asks for
/// lowest-priority delivery, or de-asserts to another destination than all
/// processors including self.
pub proof fn lemma_command_rejections(
    vector: Option<u8>,
    destination: InterruptDestination,
    delivery_mode: InterruptDeliveryMode,
    trigger_mode: InterruptTriggerMode,
    assert_mode: InterruptAssertMode,
)
    ensures
        command_error(vector, destination, delivery_mode, trigger_mode, assert_mode) is Some <==> (
        (assert_mode == InterruptAssertMode::Deassert && (delivery_mode
            != InterruptDeliveryMode::Init || trigger_mode != InterruptTriggerMode::Level)) || (
        vector is Some && (delivery_mode == InterruptDeliveryMode::SystemManagement
            || delivery_mode == InterruptDeliveryMode::Init)) || delivery_mode
            == InterruptDeliveryMode::LowPriority || (assert_mode == InterruptAssertMode::Deassert
            && !(destination is AllIncludingSelf))),
{
}

} // verus!
