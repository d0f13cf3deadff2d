//! Decoding the real-time clock: the raw register bytes the hardware
//! hands over become a calendar time, honouring the clock's BCD and
//! 12-hour format flags.

use vstd::prelude::*;
use crate::display::{dec_digits, push_dec_padded, zero_pad};

verus! {

/// Binary mode: register values arrive as plain binary, not BCD.
pub const RTC_BINARY: u8 = 0b0000_0100;

/// 24-Hour format: no AM/PM bit in the hours register.
pub const RTC_FULL_HOUR: u8 = 0b0000_0010;

/// The format bits of the clock's status register.
#[derive(Clone, Copy, Debug, PartialEq, Eq, Structural)]
pub struct RtcFormatFlags {
    pub bits: u8,
}

impl RtcFormatFlags {
    /// Keeps only the format bits of a raw status byte.
    pub fn from_bits_truncate(bits: u8) -> (r: Self)
        ensures
            r.bits == bits & (RTC_BINARY | RTC_FULL_HOUR),
    {
        RtcFormatFlags { bits: bits & (RTC_BINARY | RTC_FULL_HOUR) }
    }

    /// All the given flag bits are present.
    pub open spec fn spec_contains(self, mask: u8) -> bool {
        self.bits & mask == mask
    }

    /// All the given flag bits are present.
    pub fn contains(self, mask: u8) -> (r: bool)
        ensures
            r == self.spec_contains(mask),
    {
        self.bits & mask == mask
    }
}

/// A calendar date and time as read from the real-time clock.
#[derive(Clone, Copy, Debug, PartialEq, Eq, Structural)]
pub struct RtcTime {
    pub year: u16,
    pub month: u8,
    pub day: u8,
    pub hour: u8,
    pub minute: u8,
    pub second: u8,
}

impl RtcTime {
    /// The text `to_display_string` promises: date and time with
    /// zero-padded fields.
    pub open spec fn spec_display(self) -> Seq<char> {
        zero_pad(dec_digits(self.year as int), 4) + "-"@ + zero_pad(
            dec_digits(self.month as int),
            2,
        ) + "-"@ + zero_pad(dec_digits(self.day as int), 2) + "T"@ + zero_pad(
            dec_digits(self.hour as int),
            2,
        ) + ":"@ + zero_pad(dec_digits(self.minute as int), 2) + ":"@ + zero_pad(
            dec_digits(self.second as int),
            2,
        )
    }

    /// Renders the time in the kernel log's timestamp form.
    pub fn to_display_string(self) -> (r: String)
        ensures
            r@ == self.spec_display(),
    {
        let mut r = String::new();
        push_dec_padded(self.year as u64, 4, &mut r);
        r.append("-");
        push_dec_padded(self.month as u64, 2, &mut r);
        r.append("-");
        push_dec_padded(self.day as u64, 2, &mut r);
        r.append("T");
        push_dec_padded(self.hour as u64, 2, &mut r);
        r.append(":");
        push_dec_padded(self.minute as u64, 2, &mut r);
        r.append(":");
        push_dec_padded(self.second as u64, 2, &mut r);
        proof {
            assert(r@ =~= self.spec_display());
        }
        r
    }
}

/// The number a binary-coded-decimal byte encodes: ten times the high
/// nibble plus the low nibble.
pub open spec fn spec_bcd_value(bcd: u8) -> int {
    10 * (bcd / 16) + bcd % 16
}

/// Decodes a binary-coded-decimal byte with shifts and adds.
pub fn bcd_to_binary(bcd: u8) -> (r: u8)
    ensures
        r == spec_bcd_value(bcd),
{
    proof {
        lemma_bcd_decode(bcd);
    }
    ((bcd & 0xF0) >> 1) + ((bcd & 0xF0) >> 3) + (bcd & 0xF)
}

proof fn lemma_bcd_decode(bcd: u8)
    by (bit_vector)
    ensures
        ((bcd & 0xF0) >> 1) + ((bcd & 0xF0) >> 3) + (bcd & 0xF) < 256,
        (((bcd & 0xF0) >> 1) + ((bcd & 0xF0) >> 3) + (bcd & 0xF)) == 10 * (bcd / 16) + bcd % 16,
{
}

/// The decoded value of one clock register: taken raw in binary mode,
/// decoded from BCD otherwise.
pub open spec fn spec_register_value(raw: u8, format: RtcFormatFlags) -> int {
    if format.spec_contains(RTC_BINARY) {
        raw as int
    } else {
        spec_bcd_value(raw)
    }
}

/// The hour of day the hours register encodes: bit 7 marks PM in 12-hour
/// mode, and noon and midnight wrap.
pub open spec fn spec_hour_value(hours: u8, format: RtcFormatFlags) -> int {
    let pm = hours >= 0x80;
    let masked = hours % 0x80;
    let h = spec_register_value(masked as u8, format);
    if !format.spec_contains(RTC_FULL_HOUR) && pm {
        if h + 12 == 12 {
            0
        } else {
            h + 12
        }
    } else {
        h
    }
}

/// The calendar time a consistent set of raw register reads encodes.
pub open spec fn spec_rtc_time(
    seconds: u8,
    minutes: u8,
    hours: u8,
    days: u8,
    months: u8,
    years: u8,
    format: RtcFormatFlags,
) -> RtcTime {
    RtcTime {
        year: (2000 + spec_register_value(years, format)) as u16,
        month: spec_register_value(months, format) as u8,
        day: spec_register_value(days, format) as u8,
        hour: spec_hour_value(hours, format) as u8,
        minute: spec_register_value(minutes, format) as u8,
        second: spec_register_value(seconds, format) as u8,
    }
}

/// Decodes one consistent set of raw clock registers into a calendar
/// time. Reading the registers until two passes agree is the hardware
/// side's job; this is the decoding the clock's format flags call for.
pub fn rtc_time_from_registers(
    seconds: u8,
    minutes: u8,
    hours: u8,
    days: u8,
    months: u8,
    years: u8,
    format: RtcFormatFlags,
) -> (t: RtcTime)
    ensures
        t == spec_rtc_time(seconds, minutes, hours, days, months, years, format),
{
    let mut seconds = seconds;
    let mut minutes = minutes;
    let mut hours = hours;
    let mut days = days;
    let mut months = months;
    let mut years = years;

    let hour_is_pm = hours >= 0x80;
    proof {
        lemma_hour_mask(hours);
    }
    hours = hours & 0x7F;

    if !format.contains(RTC_BINARY) {
        seconds = bcd_to_binary(seconds);
        minutes = bcd_to_binary(minutes);
        hours = bcd_to_binary(hours);
        days = bcd_to_binary(days);
        months = bcd_to_binary(months);
        years = bcd_to_binary(years);
    }

    if !format.contains(RTC_FULL_HOUR) && hour_is_pm {
        hours = hours + 12;
        if hours == 12 {
            hours = 0;
        }
    }

    RtcTime {
        year: 2000 + (years as u16),
        month: months,
        day: days,
        hour: hours,
        minute: minutes,
        second: seconds,
    }
}

proof fn lemma_hour_mask(hours: u8)
    by (bit_vector)
    ensures
        hours & 0x7F == hours % 0x80,
{
}

} // verus!
