//! Register information for the local APIC interrupt command register.
use vstd::prelude::*;

pub mod x2apic;

verus! {

/// Specify IPI Delivery Mode
#[derive(Debug, PartialEq, Eq, Structural)]
pub enum DeliveryMode {
    /// Delivers the interrupt specified in the vector field to the target processor or processors.
    Fixed,
    /// Same as fixed mode, except that the interrupt is delivered to the processor executing at the
    /// lowest priority among the set of processors specified in the destination field.
    LowestPriority,
    /// Delivers an SMI interrupt to the target processor or processors.
    SMI,
    /// Reserved
    _Reserved,
    /// Delivers an NMI interrupt to the target processor or processors.
    NMI,
    /// Delivers an INIT request to the target processor or processors.
    Init,
    /// Sends a special start-up IPI (called a SIPI) to the target processor or processors.
    StartUp,
}

/// Specify IPI Destination Mode.
#[derive(Debug, PartialEq, Eq, Structural)]
pub enum DestinationMode {
    Physical,
    Logical,
}

/// Specify Delivery Status
#[derive(Debug, PartialEq, Eq, Structural)]
pub enum DeliveryStatus {
    Idle,
    SendPending,
}

/// IPI Level
#[derive(Debug, PartialEq, Eq, Structural)]
pub enum Level {
    Deassert,
    Assert,
}

/// IPI Trigger Mode
#[derive(Debug, PartialEq, Eq, Structural)]
pub enum TriggerMode {
    Edge,
    Level,
}

/// IPI Destination Shorthand
#[derive(Debug, PartialEq, Eq, Structural)]
pub enum DestinationShorthand {
    NoShorthand,
    Myself,
    AllIncludingSelf,
    AllExcludingSelf,
}

/// Encodes the id of a core.
#[derive(Debug, PartialEq, Eq, Structural, Copy, Clone)]
pub enum ApicId {
    /// A core destination encoded as an xAPIC ID.
    XApic(u8),
    /// A core destination encoded as an x2APIC ID.
    X2Apic(u32),
}

impl DeliveryMode {
    /// The 3-bit field value of this delivery mode.
    pub open spec fn spec_bits(&self) -> u64 {
        match self {
            DeliveryMode::Fixed => 0b000,
            DeliveryMode::LowestPriority => 0b001,
            DeliveryMode::SMI => 0b010,
            DeliveryMode::_Reserved => 0b011,
            DeliveryMode::NMI => 0b100,
            DeliveryMode::Init => 0b101,
            DeliveryMode::StartUp => 0b110,
        }
    }

    /// The 3-bit field value of this delivery mode.
    pub fn bits(&self) -> (r: u64)
        ensures
            r == self.spec_bits(),
    {
        match self {
            DeliveryMode::Fixed => 0b000,
            DeliveryMode::LowestPriority => 0b001,
            DeliveryMode::SMI => 0b010,
            DeliveryMode::_Reserved => 0b011,
            DeliveryMode::NMI => 0b100,
            DeliveryMode::Init => 0b101,
            DeliveryMode::StartUp => 0b110,
        }
    }
}

impl DestinationMode {
    pub open spec fn spec_bits(&self) -> u64 {
        match self {
            DestinationMode::Physical => 0,
            DestinationMode::Logical => 1,
        }
    }

    /// The 1-bit field value of this destination mode.
    pub fn bits(&self) -> (r: u64)
        ensures
            r == self.spec_bits(),
    {
        match self {
            DestinationMode::Physical => 0,
            DestinationMode::Logical => 1,
        }
    }
}

impl DeliveryStatus {
    pub open spec fn spec_bits(&self) -> u64 {
        match self {
            DeliveryStatus::Idle => 0,
            DeliveryStatus::SendPending => 1,
        }
    }

    /// The 1-bit field value of this delivery status.
    pub fn bits(&self) -> (r: u64)
        ensures
            r == self.spec_bits(),
    {
        match self {
            DeliveryStatus::Idle => 0,
            DeliveryStatus::SendPending => 1,
        }
    }
}

impl Level {
    pub open spec fn spec_bits(&self) -> u64 {
        match self {
            Level::Deassert => 0,
            Level::Assert => 1,
        }
    }

    /// The 1-bit field value of this level.
    pub fn bits(&self) -> (r: u64)
        ensures
            r == self.spec_bits(),
    {
        match self {
            Level::Deassert => 0,
            Level::Assert => 1,
        }
    }
}

impl TriggerMode {
    pub open spec fn spec_bits(&self) -> u64 {
        match self {
            TriggerMode::Edge => 0,
            TriggerMode::Level => 1,
        }
    }

    /// The 1-bit field value of this trigger mode.
    pub fn bits(&self) -> (r: u64)
        ensures
            r == self.spec_bits(),
    {
        match self {
            TriggerMode::Edge => 0,
            TriggerMode::Level => 1,
        }
    }
}

impl DestinationShorthand {
    pub open spec fn spec_bits(&self) -> u64 {
        match self {
            DestinationShorthand::NoShorthand => 0b00,
            DestinationShorthand::Myself => 0b01,
            DestinationShorthand::AllIncludingSelf => 0b10,
            DestinationShorthand::AllExcludingSelf => 0b11,
        }
    }

    /// The 2-bit field value of this shorthand.
    pub fn bits(&self) -> (r: u64)
        ensures
            r == self.spec_bits(),
    {
        match self {
            DestinationShorthand::NoShorthand => 0b00,
            DestinationShorthand::Myself => 0b01,
            DestinationShorthand::AllIncludingSelf => 0b10,
            DestinationShorthand::AllExcludingSelf => 0b11,
        }
    }
}

/// The value of the interrupt command register for the given fields: the
/// destination in bits 63:56, the shorthand in 19:18, trigger mode in 15,
/// level in 14, delivery status in 12, destination mode in 11, delivery
/// mode in 10:8 and the vector in 7:0.
pub open spec fn icr_value(
    vector: u8,
    destination: u8,
    destination_shorthand: u64,
    delivery_mode: u64,
    destination_mode: u64,
    delivery_status: u64,
    level: u64,
    trigger_mode: u64,
) -> u64 {
    (destination as u64) << 56u64 | destination_shorthand << 18u64 | trigger_mode << 15u64 | level
        << 14u64 | delivery_status << 12u64 | destination_mode << 11u64 | delivery_mode << 8u64
        | (vector as u64)
}

/// Abstract the IPI control register
#[derive(Debug, PartialEq, Eq, Structural)]
pub struct Icr(u64);

impl Icr {
    /// The raw 64-bit register value.
    pub closed spec fn spec_value(&self) -> u64 {
        self.0
    }

    /// Short-hand to create a Icr value.
    ///
    /// Only xAPIC destinations can be encoded.
    #[allow(clippy::too_many_arguments)]
    pub fn new(
        vector: u8,
        destination: ApicId,
        destination_shorthand: DestinationShorthand,
        delivery_mode: DeliveryMode,
        destination_mode: DestinationMode,
        delivery_status: DeliveryStatus,
        level: Level,
        trigger_mode: TriggerMode,
    ) -> (r: Icr)
        requires
            destination is XApic,
        ensures
            r.spec_value() == icr_value(
                vector,
                destination->XApic_0,
                destination_shorthand.spec_bits(),
                delivery_mode.spec_bits(),
                destination_mode.spec_bits(),
                delivery_status.spec_bits(),
                level.spec_bits(),
                trigger_mode.spec_bits(),
            ),
    {
        let destination: u8 = match destination {
            ApicId::XApic(d) => d,
            ApicId::X2Apic(_d) => 0,
        };
        Icr(
            (destination as u64) << 56u64 | destination_shorthand.bits() << 18u64
                | trigger_mode.bits() << 15u64 | level.bits() << 14u64 | delivery_status.bits()
                << 12u64 | destination_mode.bits() << 11u64 | delivery_mode.bits() << 8u64
                | (vector as u64),
        )
    }

    /// Get lower 32-bits of the Icr register.
    pub fn lower(&self) -> (r: u32)
        ensures
            r == self.spec_value() as u32,
    {
        self.0 as u32
    }

    /// Get upper 32-bits of the Icr register.
    pub fn upper(&self) -> (r: u32)
        ensures
            r == (self.spec_value() >> 32u64) as u32,
    {
        (self.0 >> 32u64) as u32
    }
}

/// Abstracts common interface of local APIC (x2APIC, xAPIC) hardware devices.
pub trait ApicControl {
    /// Is a bootstrap processor?
    fn bsp(&self) -> bool;

    /// Return APIC ID.
    fn id(&self) -> u32;

    /// Read APIC version
    fn version(&self) -> u32;

    /// End Of Interrupt -- Acknowledge interrupt delivery.
    fn eoi(&mut self);

    /// Enable TSC deadline timer.
    fn tsc_enable(&mut self, vector: u8);

    /// Set TSC deadline value.
    fn tsc_set(&self, value: u64);

    /// Send a INIT IPI to a core.
    fn ipi_init(&mut self, core: ApicId);

    /// Deassert INIT IPI.
    fn ipi_init_deassert(&mut self);

    /// Send a STARTUP IPI to a core.
    fn ipi_startup(&mut self, core: ApicId, start_page: u8);

    /// Send a generic IPI.
    fn send_ipi(&mut self, icr: Icr);
}

} // verus!
