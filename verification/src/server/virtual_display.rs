//! The virtual monitor of the indirect display driver.

use vstd::prelude::*;
use vstd::slice::slice_subrange;

use crate::encode::amf::ffi::{utf16, utf16_units};
use crate::text::{decimal, hex, push_decimal, push_hex};

verus! {

/// The control code of a function of the driver: device type `0x22`, the access
/// that the function needs, its number, buffered transfer.
pub open spec fn control_code(access: u32, function: u32) -> u32 {
    (0x22u32 << 16) | (access << 14) | (function << 2)
}

/// The control code of a function that needs write access.
pub fn ctl_code_write(function: u32) -> (code: u32)
    ensures
        code == control_code(2, function),
{
    (0x22u32 << 16) | (2u32 << 14) | (function << 2)
}

/// The control code of a function that needs read access.
pub fn ctl_code_read(function: u32) -> (code: u32)
    ensures
        code == control_code(1, function),
{
    (0x22u32 << 16) | (1u32 << 14) | (function << 2)
}

/// The parts of a control code do not run into each other, where the access has
/// two bits and the number of the function has twelve.
pub proof fn law_control_code_fields(access: u32, function: u32)
    requires
        access < 4,
        function < 0x1000,
    ensures
        control_code(access, function) == 0x22_0000 + access * 0x4000 + function * 4,
{
    assert((0x22u32 << 16) | (access << 14) | (function << 2) == 0x22_0000 + access * 0x4000
        + function * 4) by (bit_vector)
        requires
            access < 4,
            function < 0x1000,
    ;
}

/// Function that plugs the monitor in.
pub const FUNCTION_PLUG_IN: u32 = 0x900;

/// Function that plugs the monitor out.
pub const FUNCTION_PLUG_OUT: u32 = 0x901;

/// Function that tells the state of the driver.
pub const FUNCTION_GET_STATUS: u32 = 0x902;

/// A mode of the monitor.
#[derive(Debug, Clone, Copy, PartialEq, Eq, Structural)]
pub struct MonitorMode {
    pub width: u32,
    pub height: u32,
    pub refresh_hz: u32,
}

/// The state of the driver.
#[derive(Debug, Clone, Copy, PartialEq, Eq, Structural)]
pub struct DriverStatus {
    pub d0_entry_ran: u32,
    pub adapter_init_async_status: i32,
    pub adapter_init_status: i32,
    pub adapter_ready: u32,
    pub monitor_plugged_in: u32,
    pub monitor_operation_in_progress: u32,
    pub adapter_init_finished_entry_count: u32,
    pub device_init_config_status: i32,
    pub device_initialize_status: i32,
    pub adapter_handle_nonnull: u32,
    pub adapter_config_size: u32,
    pub adapter_caps_size: u32,
    pub iddcx_version_major: u32,
    pub iddcx_version_minor: u32,
    pub iddcx_minimum_version_required: u32,
}

/// Size of the state of the driver as it is told.
pub const DRIVER_STATUS_SIZE: u32 = 60;

/// Checks that the driver told its whole state.
pub fn check_status_size(returned: u32) -> (result: Result<(), String>)
    ensures
        if returned == DRIVER_STATUS_SIZE {
            result is Ok
        } else {
            result matches Err(e) && e@ == "IOCTL_FLUXIDD_GET_STATUS returned "@ + decimal(
                returned as nat,
            ) + " bytes, expected 60"@
        },
{
    if returned == DRIVER_STATUS_SIZE {
        return Ok(());
    }
    let mut text = "IOCTL_FLUXIDD_GET_STATUS returned ".to_string();
    push_decimal(&mut text, returned as u64);
    text.append(" bytes, expected 60");
    Err(text)
}

/// A status code as an unsigned number.
pub open spec fn unsigned(status: i32) -> nat {
    (if status < 0 {
        status + 0x1_0000_0000
    } else {
        status as int
    }) as nat
}

fn push_status(out: &mut String, status: i32)
    ensures
        final(out)@ == old(out)@ + hex(unsigned(status), 8),
{
    let value: u64 = if status < 0 {
        (status as i64 + 0x1_0000_0000) as u64
    } else {
        status as u64
    };
    push_hex(out, value, 8);
}

/// The text of the state of the driver.
pub open spec fn status_text(context: Seq<char>, status: DriverStatus) -> Seq<char> {
    "FluxIdd status "@ + context + ": d0_entry_ran="@ + decimal(status.d0_entry_ran as nat)
        + ", adapter_init_async_status=0x"@ + hex(unsigned(status.adapter_init_async_status), 8)
        + ", adapter_init_status=0x"@ + hex(unsigned(status.adapter_init_status), 8)
        + ", adapter_ready="@ + decimal(status.adapter_ready as nat) + ", monitor_plugged_in="@
        + decimal(status.monitor_plugged_in as nat) + ", monitor_operation_in_progress="@ + decimal(
        status.monitor_operation_in_progress as nat,
    ) + ", adapter_init_finished_entry_count="@ + decimal(
        status.adapter_init_finished_entry_count as nat,
    ) + ", device_init_config_status=0x"@ + hex(unsigned(status.device_init_config_status), 8)
        + ", device_initialize_status=0x"@ + hex(unsigned(status.device_initialize_status), 8)
        + ", adapter_handle_nonnull="@ + decimal(status.adapter_handle_nonnull as nat)
        + ", adapter_config_size="@ + decimal(status.adapter_config_size as nat)
        + ", adapter_caps_size="@ + decimal(status.adapter_caps_size as nat) + ", iddcx_version="@
        + decimal(status.iddcx_version_major as nat) + "."@ + decimal(
        status.iddcx_version_minor as nat,
    ) + " min="@ + decimal(status.iddcx_minimum_version_required as nat)
}

/// The text of the state of the driver, for the log.
pub fn log_status(context: &str, status: &DriverStatus) -> (text: String)
    ensures
        text@ == status_text(context@, *status),
{
    let mut text = "FluxIdd status ".to_string();
    text.append(context);
    text.append(": d0_entry_ran=");
    push_decimal(&mut text, status.d0_entry_ran as u64);
    text.append(", adapter_init_async_status=0x");
    push_status(&mut text, status.adapter_init_async_status);
    text.append(", adapter_init_status=0x");
    push_status(&mut text, status.adapter_init_status);
    text.append(", adapter_ready=");
    push_decimal(&mut text, status.adapter_ready as u64);
    text.append(", monitor_plugged_in=");
    push_decimal(&mut text, status.monitor_plugged_in as u64);
    text.append(", monitor_operation_in_progress=");
    push_decimal(&mut text, status.monitor_operation_in_progress as u64);
    text.append(", adapter_init_finished_entry_count=");
    push_decimal(&mut text, status.adapter_init_finished_entry_count as u64);
    text.append(", device_init_config_status=0x");
    push_status(&mut text, status.device_init_config_status);
    text.append(", device_initialize_status=0x");
    push_status(&mut text, status.device_initialize_status);
    text.append(", adapter_handle_nonnull=");
    push_decimal(&mut text, status.adapter_handle_nonnull as u64);
    text.append(", adapter_config_size=");
    push_decimal(&mut text, status.adapter_config_size as u64);
    text.append(", adapter_caps_size=");
    push_decimal(&mut text, status.adapter_caps_size as u64);
    text.append(", iddcx_version=");
    push_decimal(&mut text, status.iddcx_version_major as u64);
    text.append(".");
    push_decimal(&mut text, status.iddcx_version_minor as u64);
    text.append(" min=");
    push_decimal(&mut text, status.iddcx_minimum_version_required as u64);
    text
}

/// What plugging in at the driver came to.
#[derive(Debug)]
pub enum PlugIn {
    /// The monitor is plugged in.
    Plugged,
    /// It is not, for this reason; and this is the state of the driver, where it
    /// could be had.
    Failed { reason: String, status: Option<DriverStatus> },
}

/// Whether a monitor is plugged in already and nothing is being done to it.
pub open spec fn can_adopt(status: DriverStatus) -> bool {
    status.monitor_plugged_in != 0 && status.monitor_operation_in_progress == 0
}

/// The text for a monitor that cannot be plugged in.
pub open spec fn plug_in_text(reason: Seq<char>, path: Seq<char>, mode: MonitorMode) -> Seq<char> {
    "IOCTL_FLUXIDD_PLUG_IN failed: "@ + reason + " (device="@ + path + ", mode="@ + decimal(
        mode.width as nat,
    ) + "x"@ + decimal(mode.height as nat) + "@"@ + decimal(mode.refresh_hz as nat) + "Hz, code=0x"@
        + hex(control_code(2, FUNCTION_PLUG_IN) as nat, 8) + ")"@
}

/// The hold on the monitor. One that was plugged in through it goes with it.
#[derive(Debug)]
pub struct VirtualDisplay {
    owns_monitor: bool,
}

impl VirtualDisplay {
    /// Whether the monitor was plugged in through this hold.
    pub closed spec fn owned(self) -> bool {
        self.owns_monitor
    }

    /// Takes hold of the monitor. One that is there already is adopted when
    /// plugging in fails.
    pub fn plug_in(outcome: PlugIn, path: &str, mode: MonitorMode) -> (result: Result<Self, String>)
        ensures
            match outcome {
                PlugIn::Plugged => result matches Ok(display) && display.owned(),
                PlugIn::Failed { reason, status } => if status matches Some(s) && can_adopt(s) {
                    result matches Ok(display) && !display.owned()
                } else {
                    result matches Err(e) && e@ == plug_in_text(reason@, path@, mode)
                },
            },
    {
        match outcome {
            PlugIn::Plugged => Ok(VirtualDisplay { owns_monitor: true }),
            PlugIn::Failed { reason, status } => {
                if let Some(status) = status {
                    if status.monitor_plugged_in != 0 && status.monitor_operation_in_progress == 0 {
                        return Ok(VirtualDisplay { owns_monitor: false });
                    }
                }
                let mut text = "IOCTL_FLUXIDD_PLUG_IN failed: ".to_string();
                text.append(reason.as_str());
                text.append(" (device=");
                text.append(path);
                text.append(", mode=");
                push_decimal(&mut text, mode.width as u64);
                text.append("x");
                push_decimal(&mut text, mode.height as u64);
                text.append("@");
                push_decimal(&mut text, mode.refresh_hz as u64);
                text.append("Hz, code=0x");
                push_hex(&mut text, ctl_code_write(FUNCTION_PLUG_IN) as u64, 8);
                text.append(")");
                Err(text)
            },
        }
    }

    /// Whether the monitor was there already.
    pub fn was_adopted(&self) -> (adopted: bool)
        ensures
            adopted == !self.owned(),
    {
        !self.owns_monitor
    }

    /// Takes in that the monitor was plugged out, or why not.
    pub fn unplug(&mut self, outcome: Result<(), String>) -> (result: Result<(), String>)
        ensures
            result == outcome,
            final(self).owned() == if outcome is Ok {
                false
            } else {
                old(self).owned()
            },
    {
        outcome?;
        self.owns_monitor = false;
        Ok(())
    }

    /// Takes in that the monitor was plugged in again, or why not.
    pub fn plug_in_mode(&mut self, outcome: Result<(), String>) -> (result: Result<(), String>)
        ensures
            result == outcome,
            final(self).owned() == if outcome is Ok {
                true
            } else {
                old(self).owned()
            },
    {
        outcome?;
        self.owns_monitor = true;
        Ok(())
    }

    /// Whether the monitor is plugged out when the hold is given up.
    pub fn plugs_out_on_drop(&self) -> (plugs_out: bool)
        ensures
            plugs_out == self.owned(),
    {
        self.owns_monitor
    }
}

/// Where the first text in a list of zero-terminated ones ends.
pub open spec fn first_zero(units: Seq<u16>, from: int) -> int
    decreases units.len() - from,
{
    if from >= units.len() {
        units.len() as int
    } else if units[from] == 0 {
        from
    } else {
        first_zero(units, from + 1)
    }
}

/// The length of a text that ends at the first zero, or where the units end.
pub fn wide_length(units: &[u16]) -> (length: usize)
    ensures
        length == first_zero(units@, 0),
        length <= units@.len(),
{
    let mut at: usize = 0;
    while at < units.len() && units[at] != 0
        invariant
            at <= units@.len(),
            first_zero(units@, 0) == first_zero(units@, at as int),
        decreases units@.len() - at,
    {
        at = at + 1;
    }
    at
}

/// The text that units of UTF-16 stand for: a unit outside the surrogates for its
/// own character, a pair of a leading and a trailing surrogate for one beyond them,
/// and a surrogate without its pair for the replacement character.
pub open spec fn utf16_lossy(units: Seq<u16>) -> Seq<char>
    decreases units.len(),
{
    if units.len() == 0 {
        Seq::empty()
    } else if units[0] < 0xD800 || units[0] >= 0xE000 {
        seq![units[0] as int as char] + utf16_lossy(units.skip(1))
    } else if units[0] < 0xDC00 && units.len() > 1 && 0xDC00 <= units[1] < 0xE000 {
        let code = 0x1_0000 + (units[0] - 0xD800) * 0x400 + (units[1] - 0xDC00);
        seq![code as char] + utf16_lossy(units.skip(2))
    } else {
        seq!['\u{FFFD}'] + utf16_lossy(units.skip(1))
    }
}

/// `String::from_utf16_lossy`: the units decoded, with the replacement character in
/// place of what is invalid.
#[verifier::external_body]
fn text_of_units(units: &[u16]) -> (text: String)
    ensures
        text@ == utf16_lossy(units@),
{
    String::from_utf16_lossy(units)
}

/// The text up to the first zero, or up to where the units end.
pub fn wide_text(units: &[u16]) -> (text: String)
    ensures
        text@ == utf16_lossy(units@.take(first_zero(units@, 0))),
{
    let length: usize = wide_length(units);
    assert(units@.subrange(0, length as int) =~= units@.take(length as int));
    text_of_units(slice_subrange(units, 0, length))
}

/// The first path in a list of device paths. There is none where the list is
/// empty, or where nothing ends it.
pub fn first_device_path(units: &[u16]) -> (result: Result<String, &'static str>)
    ensures
        ({
            let length = first_zero(units@, 0);
            if length == 0 || length == units@.len() {
                result matches Err(text) && text@ == "no FluxIdd device interface present"@
            } else {
                result matches Ok(path) && path@ == utf16_lossy(units@.take(length))
            }
        }),
{
    let length: usize = wide_length(units);
    if length == 0 || length == units.len() {
        Err("no FluxIdd device interface present")
    } else {
        Ok(wide_text(units))
    }
}

/// A text comes back from its UTF-16 form.
pub proof fn law_wide_text_round_trip(text: Seq<char>)
    ensures
        utf16_lossy(utf16(text)) == text,
{
    lemma_decoded(text, Seq::empty());
    assert(utf16(text) + Seq::<u16>::empty() =~= utf16(text));
    assert(text + Seq::<char>::empty() =~= text);
}

proof fn lemma_decoded(text: Seq<char>, rest: Seq<u16>)
    ensures
        utf16_lossy(utf16(text) + rest) == text + utf16_lossy(rest),
    decreases text.len(),
{
    if text.len() == 0 {
        assert(utf16(text) + rest =~= rest);
        assert(text + utf16_lossy(rest) =~= utf16_lossy(rest));
    } else {
        let c = text.last();
        let behind = utf16_units(c) + rest;
        lemma_decoded(text.drop_last(), behind);
        assert(utf16(text) + rest =~= utf16(text.drop_last()) + behind);
        lemma_unit_decoded(c, rest);
        assert(text.drop_last() + (seq![c] + utf16_lossy(rest)) =~= text + utf16_lossy(rest));
    }
}

proof fn lemma_unit_decoded(c: char, rest: Seq<u16>)
    ensures
        utf16_lossy(utf16_units(c) + rest) == seq![c] + utf16_lossy(rest),
{
    let units = utf16_units(c) + rest;
    let code = c as int;
    assert(0 <= code < 0xD800 || 0xE000 <= code < 0x11_0000);
    if code < 0x1_0000 {
        assert(units.skip(1) =~= rest);
    } else {
        assert(units.skip(2) =~= rest);
    }
}

/// The control codes of the driver: plugging a monitor in, plugging it out, and
/// asking for the status, which has 60 bytes.
pub proof fn law_driver_codes()
    ensures
        control_code(2, FUNCTION_PLUG_IN) == 0x22_a400,
        control_code(2, FUNCTION_PLUG_OUT) == 0x22_a404,
        control_code(1, FUNCTION_GET_STATUS) == 0x22_6408,
        FUNCTION_PLUG_IN == 0x900,
        FUNCTION_PLUG_OUT == 0x901,
        FUNCTION_GET_STATUS == 0x902,
        DRIVER_STATUS_SIZE == 60,
{
    law_control_code_fields(2, 0x900);
    law_control_code_fields(2, 0x901);
    law_control_code_fields(1, 0x902);
}

/// A status is shown in two's complement.
pub proof fn law_statuses_are_unsigned(status: i32)
    ensures
        status >= 0 ==> unsigned(status) == status,
        status < 0 ==> unsigned(status) == status + 0x1_0000_0000,
{
}

/// The text of the driver's status holds each of its fields behind its name.
pub proof fn law_status_texts(context: Seq<char>, status: DriverStatus)
    ensures
        status_text(context, status) == "FluxIdd status "@ + context + ": d0_entry_ran="@ + decimal(
            status.d0_entry_ran as nat,
        ) + ", adapter_init_async_status=0x"@ + hex(unsigned(status.adapter_init_async_status), 8)
            + ", adapter_init_status=0x"@ + hex(unsigned(status.adapter_init_status), 8)
            + ", adapter_ready="@ + decimal(status.adapter_ready as nat) + ", monitor_plugged_in="@
            + decimal(status.monitor_plugged_in as nat) + ", monitor_operation_in_progress="@
            + decimal(status.monitor_operation_in_progress as nat)
            + ", adapter_init_finished_entry_count="@ + decimal(
            status.adapter_init_finished_entry_count as nat,
        ) + ", device_init_config_status=0x"@ + hex(unsigned(status.device_init_config_status), 8)
            + ", device_initialize_status=0x"@ + hex(unsigned(status.device_initialize_status), 8)
            + ", adapter_handle_nonnull="@ + decimal(status.adapter_handle_nonnull as nat)
            + ", adapter_config_size="@ + decimal(status.adapter_config_size as nat)
            + ", adapter_caps_size="@ + decimal(status.adapter_caps_size as nat)
            + ", iddcx_version="@ + decimal(status.iddcx_version_major as nat) + "."@ + decimal(
            status.iddcx_version_minor as nat,
        ) + " min="@ + decimal(status.iddcx_minimum_version_required as nat),
{
}

/// A monitor is adopted where one is plugged in and nothing is under way.
pub proof fn law_idle_monitors_are_adopted(
    status: DriverStatus,
    reason: Seq<char>,
    path: Seq<char>,
    mode: MonitorMode,
)
    ensures
        can_adopt(status) <==> status.monitor_plugged_in != 0
            && status.monitor_operation_in_progress == 0,
        plug_in_text(reason, path, mode) == "IOCTL_FLUXIDD_PLUG_IN failed: "@ + reason
            + " (device="@ + path + ", mode="@ + decimal(mode.width as nat) + "x"@ + decimal(
            mode.height as nat,
        ) + "@"@ + decimal(mode.refresh_hz as nat) + "Hz, code=0x"@ + hex(0x22_a400, 8) + ")"@,
{
    law_driver_codes();
}

/// A text ends before its first zero, or with its units where none is zero.
pub proof fn law_texts_end_at_the_first_zero(units: Seq<u16>, from: int)
    requires
        0 <= from <= units.len(),
    ensures
        ({
            let end = first_zero(units, from);
            &&& from <= end <= units.len()
            &&& end < units.len() ==> units[end] == 0
            &&& forall|i: int| from <= i < end ==> #[trigger] units[i] != 0
        }),
    decreases units.len() - from,
{
    if from < units.len() && units[from] != 0 {
        law_texts_end_at_the_first_zero(units, from + 1);
    }
}

/// The first units of a text: one outside the surrogates is a character, a high
/// surrogate with a low one behind it is a character as well, and any other
/// surrogate is replaced.
pub proof fn law_surrogates_are_joined(units: Seq<u16>)
    requires
        units.len() > 0,
    ensures
        ({
            let first = units[0];
            let text = utf16_lossy(units);
            let paired = 0xd800 <= first < 0xdc00 && units.len() > 1 && 0xdc00 <= units[1]
                < 0xe000;
            &&& text.len() > 0
            &&& first < 0xd800 || first >= 0xe000 ==> text[0] as int == first
            &&& paired ==> text[0] as int == 0x1_0000 + (first - 0xd800) * 0x400 + (units[1]
                - 0xdc00)
            &&& 0xd800 <= first < 0xe000 && !paired ==> text[0] as int == 0xfffd
            &&& text.skip(1) == if paired {
                utf16_lossy(units.skip(2))
            } else {
                utf16_lossy(units.skip(1))
            }
            &&& utf16_lossy(Seq::empty()) == Seq::<char>::empty()
        }),
{
    let text = utf16_lossy(units);
    let paired = 0xd800 <= units[0] < 0xdc00 && units.len() > 1 && 0xdc00 <= units[1] < 0xe000;
    let rest = if paired {
        utf16_lossy(units.skip(2))
    } else {
        utf16_lossy(units.skip(1))
    };
    assert(text =~= seq![text[0]] + rest);
    assert(text.skip(1) =~= rest);
}

} // verus!
