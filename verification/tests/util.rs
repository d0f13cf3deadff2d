use kernel_core::devices::{
    get_disk_name, handle_identify_error, sector_has_boot_signature, ATACommands,
    ATAIdentifyError, BlockDeviceError, BusError, ErrorRegisterFlags, ABRT, BBK, MC, MCR, UNC,
};
use kernel_core::display::{format_size, scale_size, HexNumber};
use kernel_core::div_255_fast;
use kernel_core::framebuffer::{KernelFrameBuffer, PixelFormat};
use kernel_core::pic::{InterruptIndex, PIC_1_OFFSET, PIC_2_OFFSET};
use kernel_core::rtc::{bcd_to_binary, rtc_time_from_registers, RtcFormatFlags, RTC_BINARY, RTC_FULL_HOUR};
use kernel_core::structures::Permanent;

#[test]
fn format_size_picks_units() {
    assert_eq!(format_size(0), "0 B");
    assert_eq!(format_size(123), "123 B");
    assert_eq!(format_size(4095), "4095 B");
    assert_eq!(format_size(4096), "4 KiB");
    assert_eq!(format_size(4 * 1048576 - 1), "4095 KiB");
    assert_eq!(format_size(4 * 1048576), "4 MiB");
    assert_eq!(format_size(4 * 1073741824 - 1), "4095 MiB");
    assert_eq!(format_size(4 * 1073741824), "4 GiB");
    assert_eq!(format_size(64 * 1073741824), "64 GiB");
}

#[test]
fn scale_size_picks_report_units() {
    assert_eq!(scale_size(0), (0, "B"));
    assert_eq!(scale_size(2047), (2047, "B"));
    assert_eq!(scale_size(2048), (2, "KiB"));
    assert_eq!(scale_size(2 * 1048576 - 1), (2047, "KiB"));
    assert_eq!(scale_size(2 * 1048576), (2, "MiB"));
    assert_eq!(scale_size(3 * 1073741824), (3, "GiB"));
}

#[test]
fn separated_hex_renders_all_groups() {
    assert_eq!(0u64.to_separated_hex(), "0x0000_0000_0000_0000");
    assert_eq!(0xDEAD_BEEFu64.to_separated_hex(), "0x0000_0000_DEAD_BEEF");
    assert_eq!(u64::MAX.to_separated_hex(), "0xFFFF_FFFF_FFFF_FFFF");
    assert_eq!(0x0123_4567_89AB_CDEFu64.to_separated_hex(), "0x0123_4567_89AB_CDEF");
}

#[test]
fn div_255_fast_matches_division() {
    assert_eq!(div_255_fast(0), 0);
    assert_eq!(div_255_fast(254), 0);
    assert_eq!(div_255_fast(255), 1);
    assert_eq!(div_255_fast(510), 2);
    assert_eq!(div_255_fast(12345), 48);
    assert_eq!(div_255_fast(65025), 255);
    assert_eq!(div_255_fast(65026), 255);
    assert_eq!(div_255_fast(65278), 255);
}

#[test]
fn bcd_decoding() {
    assert_eq!(bcd_to_binary(0x00), 0);
    assert_eq!(bcd_to_binary(0x09), 9);
    assert_eq!(bcd_to_binary(0x10), 10);
    assert_eq!(bcd_to_binary(0x59), 59);
    assert_eq!(bcd_to_binary(0x99), 99);
}

#[test]
fn rtc_time_bcd_12_hour() {
    // BCD, 12-hour clock: 7:45:30 PM on 2024-12-21
    let format = RtcFormatFlags::from_bits_truncate(0);
    let t = rtc_time_from_registers(0x30, 0x45, 0x87, 0x21, 0x12, 0x24, format);
    assert_eq!(t.year, 2024);
    assert_eq!(t.month, 12);
    assert_eq!(t.day, 21);
    assert_eq!(t.hour, 19);
    assert_eq!(t.minute, 45);
    assert_eq!(t.second, 30);
}

#[test]
fn rtc_time_binary_24_hour() {
    let format = RtcFormatFlags::from_bits_truncate(RTC_BINARY | RTC_FULL_HOUR);
    let t = rtc_time_from_registers(7, 8, 23, 31, 1, 30, format);
    assert_eq!(t.year, 2030);
    assert_eq!(t.month, 1);
    assert_eq!(t.day, 31);
    assert_eq!(t.hour, 23);
    assert_eq!(t.minute, 8);
    assert_eq!(t.second, 7);
}

#[test]
fn rtc_time_renders_with_padding() {
    let format = RtcFormatFlags::from_bits_truncate(0);
    let t = rtc_time_from_registers(0x30, 0x45, 0x87, 0x21, 0x12, 0x24, format);
    assert_eq!(t.to_display_string(), "2024-12-21T19:45:30");
    let binary = RtcFormatFlags::from_bits_truncate(RTC_BINARY | RTC_FULL_HOUR);
    let early = rtc_time_from_registers(7, 8, 3, 1, 2, 5, binary);
    assert_eq!(early.to_display_string(), "2005-02-01T03:08:07");
}

#[test]
fn rtc_format_flags() {
    let f = RtcFormatFlags::from_bits_truncate(0xFF);
    assert_eq!(f.bits, RTC_BINARY | RTC_FULL_HOUR);
    assert!(f.contains(RTC_BINARY));
    assert!(f.contains(RTC_FULL_HOUR));
    let none = RtcFormatFlags::from_bits_truncate(0);
    assert!(!none.contains(RTC_BINARY));
}

#[test]
fn error_register_mapping() {
    assert_eq!(
        ErrorRegisterFlags { bits: ABRT }.to_device_error(),
        BlockDeviceError::Retry
    );
    assert_eq!(
        ErrorRegisterFlags { bits: MCR }.to_device_error(),
        BlockDeviceError::Retry
    );
    assert_eq!(
        ErrorRegisterFlags { bits: MC }.to_device_error(),
        BlockDeviceError::Retry
    );
    assert_eq!(
        ErrorRegisterFlags { bits: BBK }.to_device_error(),
        BlockDeviceError::BadSector
    );
    assert_eq!(
        ErrorRegisterFlags { bits: UNC }.to_device_error(),
        BlockDeviceError::BadSector
    );
    assert_eq!(
        ErrorRegisterFlags { bits: 0b11 }.to_device_error(),
        BlockDeviceError::Unknown(0b11)
    );
}

#[test]
fn bus_error_mapping() {
    assert_eq!(
        BusError::BlockDeviceError(BlockDeviceError::OutOfRange).to_device_error(),
        BlockDeviceError::OutOfRange
    );
    assert_eq!(
        BusError::BlockDeviceError(BlockDeviceError::TooManyPartitions).to_device_error(),
        BlockDeviceError::TooManyPartitions
    );
    assert_eq!(
        BusError::ATAError(ErrorRegisterFlags { bits: ABRT }).to_device_error(),
        BlockDeviceError::Retry
    );
}

#[test]
fn identify_error_classification() {
    let abort = ErrorRegisterFlags { bits: ABRT };
    assert_eq!(handle_identify_error(abort, 0x14, 0xEB), ATAIdentifyError::DeviceIsATAPI);
    assert_eq!(handle_identify_error(abort, 0x3C, 0xC3), ATAIdentifyError::DeviceIsSATA);
    assert_eq!(handle_identify_error(abort, 0, 0), ATAIdentifyError::Unknown);
    assert_eq!(handle_identify_error(abort, 7, 9), ATAIdentifyError::DeviceIsNotATA);
    let other = ErrorRegisterFlags { bits: BBK };
    assert_eq!(handle_identify_error(other, 0, 0), ATAIdentifyError::DeviceIsATAPI);
}

#[test]
fn identify_error_descriptions() {
    assert_eq!(ATAIdentifyError::BusNotConnected.description(), "Bus not connected");
    assert_eq!(ATAIdentifyError::NoDevice.description(), "No device");
    assert_eq!(ATAIdentifyError::DeviceIsNotATA.description(), "Device is not ATA");
    assert_eq!(ATAIdentifyError::DeviceIsATAPI.description(), "Device is ATAPI");
    assert_eq!(ATAIdentifyError::DeviceIsSATA.description(), "Device is SATA");
    assert_eq!(ATAIdentifyError::Unknown.description(), "Unknown");
}

#[test]
fn ata_command_bytes() {
    assert_eq!(ATACommands::Identify.command_byte(), 0xEC);
    assert_eq!(ATACommands::WriteSectors.command_byte(), 0x30);
    assert_eq!(ATACommands::ReadSectors.command_byte(), 0x20);
    assert_eq!(ATACommands::CacheFlush.command_byte(), 0xE7);
}

#[test]
fn boot_signature_detection() {
    let mut sector = [0u8; 512];
    assert!(!sector_has_boot_signature(&sector));
    sector[510] = 0x55;
    sector[511] = 0xAA;
    assert!(sector_has_boot_signature(&sector));
    sector[511] = 0xAB;
    assert!(!sector_has_boot_signature(&sector));
}

#[test]
fn disk_names() {
    assert_eq!(get_disk_name(true, true), "ATA Primary Master");
    assert_eq!(get_disk_name(true, false), "ATA Primary Slave");
    assert_eq!(get_disk_name(false, true), "ATA Secondary Master");
    assert_eq!(get_disk_name(false, false), "ATA Secondary Slave");
}

#[test]
fn interrupt_indices() {
    assert_eq!(PIC_1_OFFSET, 32);
    assert_eq!(PIC_2_OFFSET, 40);
    assert_eq!(InterruptIndex::Timer.as_u8(), 32);
    assert_eq!(InterruptIndex::Keyboard.as_u8(), 33);
    assert_eq!(InterruptIndex::Timer.as_usize(), 32);
    assert_eq!(InterruptIndex::Keyboard.as_usize(), 33);
}

#[test]
fn permanent_wraps_a_value() {
    let p = Permanent::new(42u64);
    assert_eq!(p.get(), 42);
    let q = Permanent::new("fixed");
    assert_eq!(q.get(), "fixed");
}

#[test]
fn frame_buffer_fields() {
    let fb = KernelFrameBuffer::new(1024, 768, PixelFormat::BGR, 4, 1024, 0xA000_0000);
    assert_eq!(fb.width, 1024);
    assert_eq!(fb.height, 768);
    assert_eq!(fb.format, PixelFormat::BGR);
    assert_eq!(fb.bytes_per_pixel, 4);
    assert_eq!(fb.stride, 1024);
    assert_eq!(fb.buffer.get(), 0xA000_0000);
}
