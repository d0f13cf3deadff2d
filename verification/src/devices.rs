//! The error taxonomy of the block-device layer and the ATA driver, and
//! how the ATA error-register bits map onto device errors.

use vstd::prelude::*;

verus! {

/// Bad Block
pub const BBK: u8 = 0b1000_0000;

/// Uncorrectable Data Error
pub const UNC: u8 = 0b0100_0000;

/// Media Changed
pub const MC: u8 = 0b0010_0000;

/// ID Mark Not Found
pub const IDNF: u8 = 0b0001_0000;

/// Media Change Requested
pub const MCR: u8 = 0b0000_1000;

/// Command Aborted
pub const ABRT: u8 = 0b0000_0100;

/// Track 0 Not Found
pub const TK0NF: u8 = 0b0000_0010;

/// Address Mark Not Found
pub const AMNF: u8 = 0b0000_0001;

/// The contents of the ATA error register, one flag per bit.
#[derive(Clone, Copy, Debug, PartialEq, Eq, Structural)]
pub struct ErrorRegisterFlags {
    pub bits: u8,
}

/// An error reported by a block device.
#[derive(Clone, Copy, Debug, PartialEq, Eq, Structural)]
pub enum BlockDeviceError {
    /// A bad sector has been written to or read from
    BadSector,
    /// A retryable error has occured
    Retry,
    /// The operation has tried to access an out-of-range item
    OutOfRange,
    /// The operation tried to add a partition when no additional partitions can be added
    TooManyPartitions,
    /// Unknown error
    Unknown(u8),
}

impl ErrorRegisterFlags {
    /// The device error a single error-register flag stands for.
    pub open spec fn spec_device_error(self) -> BlockDeviceError {
        if self.bits == ABRT || self.bits == MCR || self.bits == MC {
            BlockDeviceError::Retry
        } else if self.bits == BBK || self.bits == UNC {
            BlockDeviceError::BadSector
        } else {
            BlockDeviceError::Unknown(self.bits)
        }
    }

    /// Maps the error-register contents to a device error: aborted and
    /// media-change conditions ask for a retry, bad-block and
    /// uncorrectable-data conditions mark a bad sector, and anything else
    /// is passed through raw.
    pub fn to_device_error(self) -> (r: BlockDeviceError)
        ensures
            r == self.spec_device_error(),
    {
        if self.bits == ABRT || self.bits == MCR || self.bits == MC {
            BlockDeviceError::Retry
        } else if self.bits == BBK || self.bits == UNC {
            BlockDeviceError::BadSector
        } else {
            BlockDeviceError::Unknown(self.bits)
        }
    }
}

/// An error on the ATA bus: either a device error that is already mapped,
/// or raw error-register flags.
#[derive(Clone, Copy, Debug, PartialEq, Eq, Structural)]
pub enum BusError {
    BlockDeviceError(BlockDeviceError),
    ATAError(ErrorRegisterFlags),
}

impl BusError {
    /// The device error a bus error stands for.
    pub open spec fn spec_device_error(self) -> BlockDeviceError {
        match self {
            BusError::BlockDeviceError(e) => e,
            BusError::ATAError(e) => e.spec_device_error(),
        }
    }

    /// Collapses a bus error into a device error.
    pub fn to_device_error(self) -> (r: BlockDeviceError)
        ensures
            r == self.spec_device_error(),
    {
        match self {
            BusError::BlockDeviceError(e) => e,
            BusError::ATAError(e) => e.to_device_error(),
        }
    }
}

/// Why identifying an ATA device failed.
#[derive(Clone, Copy, Debug, PartialEq, Eq, Structural)]
pub enum ATAIdentifyError {
    BusNotConnected,
    NoDevice,
    DeviceIsNotATA,
    DeviceIsATAPI,
    DeviceIsSATA,
    Unknown,
}

impl ATAIdentifyError {
    /// The text `description` promises.
    pub open spec fn spec_description(self) -> Seq<char> {
        match self {
            ATAIdentifyError::BusNotConnected => "Bus not connected"@,
            ATAIdentifyError::NoDevice => "No device"@,
            ATAIdentifyError::DeviceIsNotATA => "Device is not ATA"@,
            ATAIdentifyError::DeviceIsATAPI => "Device is ATAPI"@,
            ATAIdentifyError::DeviceIsSATA => "Device is SATA"@,
            ATAIdentifyError::Unknown => "Unknown"@,
        }
    }

    /// A short description of the failure.
    pub fn description(self) -> (r: &'static str)
        ensures
            r@ == self.spec_description(),
    {
        match self {
            ATAIdentifyError::BusNotConnected => "Bus not connected",
            ATAIdentifyError::NoDevice => "No device",
            ATAIdentifyError::DeviceIsNotATA => "Device is not ATA",
            ATAIdentifyError::DeviceIsATAPI => "Device is ATAPI",
            ATAIdentifyError::DeviceIsSATA => "Device is SATA",
            ATAIdentifyError::Unknown => "Unknown",
        }
    }
}

/// The ATA command bytes the driver issues.
#[derive(Clone, Copy, Debug, PartialEq, Eq, PartialOrd, Ord)]
#[non_exhaustive]
pub enum ATACommands {
    Identify,
    WriteSectors,
    ReadSectors,
    CacheFlush,
}

impl ATACommands {
    /// The byte each command puts on the command register.
    pub open spec fn spec_command_byte(self) -> u8 {
        match self {
            ATACommands::Identify => 0xEC,
            ATACommands::WriteSectors => 0x30,
            ATACommands::ReadSectors => 0x20,
            ATACommands::CacheFlush => 0xE7,
        }
    }

    /// The byte each command puts on the command register.
    pub fn command_byte(self) -> (r: u8)
        ensures
            r == self.spec_command_byte(),
    {
        match self {
            ATACommands::Identify => 0xEC,
            ATACommands::WriteSectors => 0x30,
            ATACommands::ReadSectors => 0x20,
            ATACommands::CacheFlush => 0xE7,
        }
    }
}

/// The verdict `handle_identify_error` reaches from the error flags and
/// the two signature bytes.
pub open spec fn spec_identify_error(
    error: ErrorRegisterFlags,
    lba_mid: u8,
    lba_high: u8,
) -> ATAIdentifyError {
    if error.bits != ABRT {
        ATAIdentifyError::DeviceIsATAPI
    } else if lba_mid == 0x14 && lba_high == 0xEB {
        ATAIdentifyError::DeviceIsATAPI
    } else if lba_mid == 0x3C && lba_high == 0xC3 {
        ATAIdentifyError::DeviceIsSATA
    } else if lba_mid == 0 && lba_high == 0 {
        ATAIdentifyError::Unknown
    } else {
        ATAIdentifyError::DeviceIsNotATA
    }
}

/// Classifies a failed identify command from the error flags and the
/// device-signature bytes read off the two LBA registers: anything but a
/// plain abort is ATAPI, and an abort is judged by the signature.
pub fn handle_identify_error(
    error: ErrorRegisterFlags,
    lba_mid: u8,
    lba_high: u8,
) -> (r: ATAIdentifyError)
    ensures
        r == spec_identify_error(error, lba_mid, lba_high),
{
    if error.bits != ABRT {
        return ATAIdentifyError::DeviceIsATAPI;
    }
    match (lba_mid, lba_high) {
        (0x14, 0xEB) => ATAIdentifyError::DeviceIsATAPI,
        (0x3C, 0xC3) => ATAIdentifyError::DeviceIsSATA,
        (0, 0) => ATAIdentifyError::Unknown,
        (_, _) => ATAIdentifyError::DeviceIsNotATA,
    }
}

/// The boot-signature test a bootable block device applies to its first
/// sector: the two magic bytes that end a master boot record.
pub fn sector_has_boot_signature(sector: &[u8; 512]) -> (r: bool)
    ensures
        r == (sector@[510] == 0x55 && sector@[511] == 0xAA),
{
    sector[510] == 0x55 && sector[511] == 0xAA
}

/// The name `get_disk_name` returns for each bus and position.
pub open spec fn spec_disk_name(primary_bus: bool, master_disk: bool) -> Seq<char> {
    if primary_bus {
        if master_disk {
            "ATA Primary Master"@
        } else {
            "ATA Primary Slave"@
        }
    } else {
        if master_disk {
            "ATA Secondary Master"@
        } else {
            "ATA Secondary Slave"@
        }
    }
}

/// Names a disk after the bus it hangs on and its position on that bus.
pub fn get_disk_name(primary_bus: bool, master_disk: bool) -> (r: &'static str)
    ensures
        r@ == spec_disk_name(primary_bus, master_disk),
{
    match (primary_bus, master_disk) {
        (false, false) => "ATA Secondary Slave",
        (false, true) => "ATA Secondary Master",
        (true, false) => "ATA Primary Slave",
        (true, true) => "ATA Primary Master",
    }
}

} // verus!
