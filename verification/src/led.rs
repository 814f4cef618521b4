//! The front-panel LEDs: which attributes of which LED are written for each
//! pattern, and which pattern a severity calls for.
//!
//! Every LED is a device of the kernel's LED class with the attributes
//! `brightness`, `trigger`, `delay_on` and `delay_off`. The functions here
//! return the writes in the order in which they are to be made.
use crate::number::{decimal, decimal_is_injective, to_decimal};
use crate::socket::Level;
use crate::text::{chars, holds, same_chars, texts, trim, trimmed};
use vstd::prelude::*;

verus! {

/// One write to an attribute of an LED.
#[derive(Debug, Clone)]
pub struct LedWrite {
    pub led: String,
    pub attr: String,
    pub value: String,
}

/// What a `LedWrite` holds.
pub struct WriteView {
    pub led: Seq<char>,
    pub attr: Seq<char>,
    pub value: Seq<char>,
}

impl View for LedWrite {
    type V = WriteView;

    open spec fn view(&self) -> WriteView {
        WriteView { led: self.led@, attr: self.attr@, value: self.value@ }
    }
}

/// What a sequence of writes holds.
pub open spec fn writes(s: Seq<LedWrite>) -> Seq<WriteView> {
    s.map_values(|w: LedWrite| w@)
}

/// The status-LED patterns.
#[derive(Debug, Clone, Copy, PartialEq, Eq, Structural)]
pub enum StatusPattern {
    /// Solid green.
    Healthy,
    /// Solid amber: green and red both on.
    Warning,
    /// Green solid, red flashing every half second.
    Degraded,
    /// Solid red.
    Failed,
    /// Red flashing every second, green off.
    CriticalFlashing,
}

/// What the LEDs of a drive bay show.
#[derive(Debug, Clone, Copy, PartialEq, Eq, Structural)]
pub enum BayState {
    Normal,
    /// A confirmed SMART failure: solid red.
    Failed,
    /// An error or critical message named this bay: red flashing.
    Alert,
    /// The drive is spun down: green flashing slowly.
    Standby,
}

/// What the LEDs of a network port show.
#[derive(Debug, Clone, Copy, PartialEq, Eq, Structural)]
pub enum NicLedMode {
    /// Solid while connected.
    Link,
    /// Dark at idle, flashing on traffic.
    Activity,
}

impl StatusPattern {
    /// The name of a pattern.
    pub open spec fn name(self) -> Seq<char> {
        match self {
            StatusPattern::Healthy => "Ok"@,
            StatusPattern::Warning => "Warning"@,
            StatusPattern::Degraded => "Degraded"@,
            StatusPattern::Failed => "Failed"@,
            StatusPattern::CriticalFlashing => "CriticalFlashing"@,
        }
    }

    /// The name of a pattern.
    pub fn label(self) -> (r: &'static str)
        ensures
            r@ == self.name(),
    {
        match self {
            StatusPattern::Healthy => "Ok",
            StatusPattern::Warning => "Warning",
            StatusPattern::Degraded => "Degraded",
            StatusPattern::Failed => "Failed",
            StatusPattern::CriticalFlashing => "CriticalFlashing",
        }
    }
}

impl BayState {
    /// The name of a state.
    pub open spec fn name(self) -> Seq<char> {
        match self {
            BayState::Normal => "Normal"@,
            BayState::Failed => "Failed"@,
            BayState::Alert => "Alert"@,
            BayState::Standby => "Standby"@,
        }
    }

    /// The name of a state.
    pub fn label(self) -> (r: &'static str)
        ensures
            r@ == self.name(),
    {
        match self {
            BayState::Normal => "Normal",
            BayState::Failed => "Failed",
            BayState::Alert => "Alert",
            BayState::Standby => "Standby",
        }
    }
}

/// One write.
pub open spec fn write(led: Seq<char>, attr: Seq<char>, value: Seq<char>) -> WriteView {
    WriteView { led, attr, value }
}

/// The writes that turn an LED on or off.
pub open spec fn solid(led: Seq<char>, on: bool) -> Seq<WriteView> {
    seq![
        write(led, "trigger"@, "none"@),
        write(
            led,
            "brightness"@,
            if on {
                "1"@
            } else {
                "0"@
            },
        ),
    ]
}

/// The writes that let an LED flash.
pub open spec fn blink(led: Seq<char>, on_ms: nat, off_ms: nat) -> Seq<WriteView> {
    seq![
        write(led, "trigger"@, "timer"@),
        write(led, "delay_on"@, decimal(on_ms)),
        write(led, "delay_off"@, decimal(off_ms)),
    ]
}

/// The writes for a status pattern.
pub open spec fn status_writes(pattern: StatusPattern) -> Seq<WriteView> {
    let green = "green:status"@;
    let red = "red:status"@;
    match pattern {
        StatusPattern::Healthy => solid(green, true) + seq![write(red, "trigger"@, "none"@)] + solid(
            red,
            false,
        ),
        StatusPattern::Warning => solid(green, true) + solid(red, true),
        StatusPattern::Degraded => solid(green, true) + blink(red, 500, 500),
        StatusPattern::Failed => solid(green, false) + solid(red, true),
        StatusPattern::CriticalFlashing => solid(green, false) + blink(red, 1000, 1000),
    }
}

/// The name of a bay's green LED.
pub open spec fn bay_green(bay: u32) -> Seq<char> {
    "sata"@ + decimal(bay as nat) + ":green:disk"@
}

/// The name of a bay's red LED.
pub open spec fn bay_red(bay: u32) -> Seq<char> {
    "sata"@ + decimal(bay as nat) + ":red:disk"@
}

/// The name of the kernel's activity trigger for a bay.
pub open spec fn bay_trigger(bay: u32) -> Seq<char> {
    "asustor-sata"@ + decimal(bay as nat)
}

/// The writes for the state of a bay.
pub open spec fn bay_writes(bay: u32, state: BayState) -> Seq<WriteView> {
    let green = bay_green(bay);
    let red = bay_red(bay);
    match state {
        BayState::Normal => seq![write(green, "trigger"@, bay_trigger(bay))] + solid(red, false),
        BayState::Failed => seq![write(green, "trigger"@, "none"@)] + solid(green, false) + solid(
            red,
            true,
        ),
        BayState::Alert => seq![write(green, "trigger"@, "none"@)] + solid(green, false) + blink(
            red,
            1000,
            1000,
        ),
        BayState::Standby => blink(green, 250, 9750) + solid(red, false),
    }
}

/// The name of one of the two LEDs of a network port.
pub open spec fn nic_led(iface: Seq<char>, chip: Seq<char>) -> Seq<char> {
    iface + chip
}

/// The writes that darken one LED of a network port.
pub open spec fn nic_led_dark(led: Seq<char>) -> Seq<WriteView> {
    seq![
        write(led, "link_10"@, "0"@),
        write(led, "link_100"@, "0"@),
        write(led, "link_1000"@, "0"@),
        write(led, "link_2500"@, "0"@),
        write(led, "rx"@, "0"@),
        write(led, "tx"@, "0"@),
    ]
}

/// The writes that darken both LEDs of a network port.
pub open spec fn nic_dark(iface: Seq<char>) -> Seq<WriteView> {
    nic_led_dark(nic_led(iface, "-0::lan"@)) + nic_led_dark(nic_led(iface, "-1::lan"@))
}

/// The writes of `nic_dark` for each of some ports.
pub open spec fn nics_dark(ifaces: Seq<Seq<char>>) -> Seq<WriteView>
    decreases ifaces.len(),
{
    if ifaces.len() == 0 {
        Seq::empty()
    } else {
        nics_dark(ifaces.drop_last()) + nic_dark(ifaces.last())
    }
}

/// The three slower link speeds of one LED set to a value.
pub open spec fn slow_links(led: Seq<char>, value: Seq<char>) -> Seq<WriteView> {
    seq![
        write(led, "link_10"@, value),
        write(led, "link_100"@, value),
        write(led, "link_1000"@, value),
    ]
}

/// The writes that let the LEDs of a network port show the link again.
pub open spec fn nic_lit(iface: Seq<char>) -> Seq<WriteView> {
    seq![write(nic_led(iface, "-0::lan"@), "link_2500"@, "1"@)] + slow_links(
        nic_led(iface, "-1::lan"@),
        "1"@,
    )
}

/// The writes of `nic_lit` for each of some ports.
pub open spec fn nics_lit(ifaces: Seq<Seq<char>>) -> Seq<WriteView>
    decreases ifaces.len(),
{
    if ifaces.len() == 0 {
        Seq::empty()
    } else {
        nics_lit(ifaces.drop_last()) + nic_lit(ifaces.last())
    }
}

/// The writes that darken a bay's green LED.
pub open spec fn bay_dark(bay: u32) -> Seq<WriteView> {
    seq![write(bay_green(bay), "trigger"@, "none"@)] + solid(bay_green(bay), false)
}

/// The write that hands a bay's green LED back to the kernel.
pub open spec fn bay_lit(bay: u32) -> Seq<WriteView> {
    seq![write(bay_green(bay), "trigger"@, bay_trigger(bay))]
}

/// The writes for the status and bay LEDs at the start of the night.
pub open spec fn night_fixed() -> Seq<WriteView> {
    seq![write("green:status"@, "trigger"@, "none"@)] + solid("green:status"@, false) + seq![
        write("red:status"@, "trigger"@, "none"@),
    ] + solid("red:status"@, false) + bay_dark(1) + bay_dark(2) + bay_dark(3) + bay_dark(4)
        + solid("green:usb"@, false) + seq![write("green:usb"@, "trigger"@, "none"@)]
}

/// The writes at the start of the night: everything dark but the red bay LEDs.
pub open spec fn night_writes(ifaces: Seq<Seq<char>>) -> Seq<WriteView> {
    night_fixed() + nics_dark(ifaces)
}

/// The writes for the status and bay LEDs at the end of the night. The trigger of
/// the red status LED is the last of its writes, since switching an LED off takes
/// its trigger away.
pub open spec fn day_fixed() -> Seq<WriteView> {
    seq![write("green:status"@, "trigger"@, "none"@)] + solid("green:status"@, true) + solid(
        "red:status"@,
        false,
    ) + seq![write("red:status"@, "trigger"@, "panic"@)] + bay_lit(1) + bay_lit(2) + bay_lit(3)
        + bay_lit(4) + seq![write("green:usb"@, "trigger"@, "asustor-front-usb"@)]
}

/// The writes at the end of the night.
pub open spec fn day_writes(ifaces: Seq<Seq<char>>) -> Seq<WriteView> {
    day_fixed() + nics_lit(ifaces)
}

/// The writes that put the LEDs of a network port in a mode.
pub open spec fn nic_mode_writes(iface: Seq<char>, mode: NicLedMode) -> Seq<WriteView> {
    let a = nic_led(iface, "-0::lan"@);
    let b = nic_led(iface, "-1::lan"@);
    let link = if mode == NicLedMode::Link {
        "1"@
    } else {
        "0"@
    };
    let traffic = if mode == NicLedMode::Link {
        "0"@
    } else {
        "1"@
    };
    seq![
        write(a, "trigger"@, "netdev"@),
        write(a, "link_2500"@, link),
        write(a, "rx"@, traffic),
        write(a, "tx"@, traffic),
        write(b, "trigger"@, "netdev"@),
    ] + slow_links(b, link)
}

/// The writes of `nic_mode_writes` for each of some ports.
pub open spec fn nics_mode_writes(ifaces: Seq<Seq<char>>, mode: NicLedMode) -> Seq<WriteView>
    decreases ifaces.len(),
{
    if ifaces.len() == 0 {
        Seq::empty()
    } else {
        nics_mode_writes(ifaces.drop_last(), mode) + nic_mode_writes(ifaces.last(), mode)
    }
}

/// The pattern that a severity calls for, where it overrides what the health
/// of the machine calls for.
pub open spec fn level_pattern(level: Level) -> Option<StatusPattern> {
    match level {
        Level::Error => Some(StatusPattern::Failed),
        Level::Critical => Some(StatusPattern::CriticalFlashing),
        _ => None,
    }
}

fn write_attr(out: &mut Vec<LedWrite>, led: &str, attr: &str, value: &str)
    ensures
        writes(final(out)@) == writes(old(out)@).push(write(led@, attr@, value@)),
{
    out.push(LedWrite { led: led.to_owned(), attr: attr.to_owned(), value: value.to_owned() });
    assert(writes(out@) =~= writes(old(out)@).push(write(led@, attr@, value@)));
}

/// Turns an LED on or off.
pub fn set_solid(out: &mut Vec<LedWrite>, led: &str, on: bool)
    ensures
        writes(final(out)@) == writes(old(out)@) + solid(led@, on),
{
    write_attr(out, led, "trigger", "none");
    write_attr(
        out,
        led,
        "brightness",
        if on {
            "1"
        } else {
            "0"
        },
    );
    assert(writes(out@) =~= writes(old(out)@) + solid(led@, on));
}

/// Lets an LED flash.
pub fn set_blink(out: &mut Vec<LedWrite>, led: &str, on_ms: u32, off_ms: u32)
    ensures
        writes(final(out)@) == writes(old(out)@) + blink(led@, on_ms as nat, off_ms as nat),
{
    write_attr(out, led, "trigger", "timer");
    write_attr(out, led, "delay_on", to_decimal(on_ms as u64).as_str());
    write_attr(out, led, "delay_off", to_decimal(off_ms as u64).as_str());
    assert(writes(out@) =~= writes(old(out)@) + blink(led@, on_ms as nat, off_ms as nat));
}

/// The writes for a status pattern.
pub fn set_status(pattern: StatusPattern) -> (r: Vec<LedWrite>)
    ensures
        writes(r@) == status_writes(pattern),
{
    let mut out: Vec<LedWrite> = Vec::new();
    match pattern {
        StatusPattern::Healthy => {
            set_solid(&mut out, "green:status", true);
            write_attr(&mut out, "red:status", "trigger", "none");
            set_solid(&mut out, "red:status", false);
        },
        StatusPattern::Warning => {
            set_solid(&mut out, "green:status", true);
            set_solid(&mut out, "red:status", true);
        },
        StatusPattern::Degraded => {
            set_solid(&mut out, "green:status", true);
            set_blink(&mut out, "red:status", 500, 500);
        },
        StatusPattern::Failed => {
            set_solid(&mut out, "green:status", false);
            set_solid(&mut out, "red:status", true);
        },
        StatusPattern::CriticalFlashing => {
            set_solid(&mut out, "green:status", false);
            set_blink(&mut out, "red:status", 1000, 1000);
        },
    }
    assert(writes(out@) =~= status_writes(pattern));
    out
}

/// The pattern that a pushed severity calls for: error and critical override
/// the pattern of the machine's health, info and warn do not.
pub fn pattern_for_level(level: Level) -> (r: Option<StatusPattern>)
    ensures
        r == level_pattern(level),
{
    match level {
        Level::Error => Some(StatusPattern::Failed),
        Level::Critical => Some(StatusPattern::CriticalFlashing),
        Level::Info | Level::Warn => None,
    }
}

fn numbered(before: &str, n: u32, after: &str) -> (r: String)
    ensures
        r@ == before@ + decimal(n as nat) + after@,
{
    let mut r = before.to_owned();
    crate::number::push_decimal(&mut r, n as u64);
    r.append(after);
    r
}

/// The writes for the state of a bay.
pub fn set_bay(bay: u32, state: BayState) -> (r: Vec<LedWrite>)
    ensures
        writes(r@) == bay_writes(bay, state),
{
    let green = numbered("sata", bay, ":green:disk");
    let red = numbered("sata", bay, ":red:disk");
    let mut out: Vec<LedWrite> = Vec::new();
    match state {
        BayState::Normal => {
            let mut trigger = "asustor-sata".to_owned();
            crate::number::push_decimal(&mut trigger, bay as u64);
            write_attr(&mut out, green.as_str(), "trigger", trigger.as_str());
            set_solid(&mut out, red.as_str(), false);
        },
        BayState::Failed => {
            write_attr(&mut out, green.as_str(), "trigger", "none");
            set_solid(&mut out, green.as_str(), false);
            set_solid(&mut out, red.as_str(), true);
        },
        BayState::Alert => {
            write_attr(&mut out, green.as_str(), "trigger", "none");
            set_solid(&mut out, green.as_str(), false);
            set_blink(&mut out, red.as_str(), 1000, 1000);
        },
        BayState::Standby => {
            set_blink(&mut out, green.as_str(), 250, 9750);
            set_solid(&mut out, red.as_str(), false);
        },
    }
    assert(writes(out@) =~= bay_writes(bay, state));
    out
}

fn darken_bay(out: &mut Vec<LedWrite>, bay: u32)
    ensures
        writes(final(out)@) == writes(old(out)@) + bay_dark(bay),
{
    let green = numbered("sata", bay, ":green:disk");
    write_attr(out, green.as_str(), "trigger", "none");
    set_solid(out, green.as_str(), false);
    assert(writes(out@) =~= writes(old(out)@) + bay_dark(bay));
}

fn light_bay(out: &mut Vec<LedWrite>, bay: u32)
    ensures
        writes(final(out)@) == writes(old(out)@) + bay_lit(bay),
{
    let green = numbered("sata", bay, ":green:disk");
    let mut trigger = "asustor-sata".to_owned();
    crate::number::push_decimal(&mut trigger, bay as u64);
    write_attr(out, green.as_str(), "trigger", trigger.as_str());
    assert(writes(out@) =~= writes(old(out)@) + bay_lit(bay));
}

fn nic_led_name(iface: &str, chip: &str) -> (r: String)
    ensures
        r@ == nic_led(iface@, chip@),
{
    let mut r = iface.to_owned();
    r.append(chip);
    r
}

fn darken_nic_led(out: &mut Vec<LedWrite>, led: &str)
    ensures
        writes(final(out)@) == writes(old(out)@) + nic_led_dark(led@),
{
    write_attr(out, led, "link_10", "0");
    write_attr(out, led, "link_100", "0");
    write_attr(out, led, "link_1000", "0");
    write_attr(out, led, "link_2500", "0");
    write_attr(out, led, "rx", "0");
    write_attr(out, led, "tx", "0");
    assert(writes(out@) =~= writes(old(out)@) + nic_led_dark(led@));
}

fn set_slow_links(out: &mut Vec<LedWrite>, led: &str, value: &str)
    ensures
        writes(final(out)@) == writes(old(out)@) + slow_links(led@, value@),
{
    write_attr(out, led, "link_10", value);
    write_attr(out, led, "link_100", value);
    write_attr(out, led, "link_1000", value);
    assert(writes(out@) =~= writes(old(out)@) + slow_links(led@, value@));
}

/// The writes at the start of the night: the status, network, USB and green bay
/// LEDs go dark. The red bay LEDs are left alone, so that a failed drive still
/// shows.
pub fn enter_night_mode(nic_ifaces: &Vec<String>) -> (r: Vec<LedWrite>)
    ensures
        writes(r@) == night_writes(texts(nic_ifaces@)),
{
    let mut out: Vec<LedWrite> = Vec::new();
    write_attr(&mut out, "green:status", "trigger", "none");
    set_solid(&mut out, "green:status", false);
    write_attr(&mut out, "red:status", "trigger", "none");
    set_solid(&mut out, "red:status", false);
    darken_bay(&mut out, 1);
    darken_bay(&mut out, 2);
    darken_bay(&mut out, 3);
    darken_bay(&mut out, 4);
    set_solid(&mut out, "green:usb", false);
    write_attr(&mut out, "green:usb", "trigger", "none");
    assert(writes(out@) =~= night_fixed());
    let ghost names = texts(nic_ifaces@);
    assert(night_fixed() + nics_dark(names.take(0)) =~= night_fixed());
    for i in 0..nic_ifaces.len()
        invariant
            names == texts(nic_ifaces@),
            writes(out@) == night_fixed() + nics_dark(names.take(i as int)),
    {
        let a = nic_led_name(nic_ifaces[i].as_str(), "-0::lan");
        let b = nic_led_name(nic_ifaces[i].as_str(), "-1::lan");
        darken_nic_led(&mut out, a.as_str());
        darken_nic_led(&mut out, b.as_str());
        assert(names.take(i + 1).drop_last() == names.take(i as int));
        assert(names.take(i + 1).last() == nic_ifaces@[i as int]@);
        assert(writes(out@) =~= night_fixed() + nics_dark(names.take(i + 1)));
    }
    assert(names.take(names.len() as int) == names);
    out
}

/// The writes at the end of the night: automatic behaviour again for what went
/// dark. The trigger of the red status LED comes last of its writes, because
/// turning an LED off takes its trigger away.
pub fn exit_night_mode(nic_ifaces: &Vec<String>) -> (r: Vec<LedWrite>)
    ensures
        writes(r@) == day_writes(texts(nic_ifaces@)),
{
    let mut out: Vec<LedWrite> = Vec::new();
    write_attr(&mut out, "green:status", "trigger", "none");
    set_solid(&mut out, "green:status", true);
    set_solid(&mut out, "red:status", false);
    write_attr(&mut out, "red:status", "trigger", "panic");
    light_bay(&mut out, 1);
    light_bay(&mut out, 2);
    light_bay(&mut out, 3);
    light_bay(&mut out, 4);
    write_attr(&mut out, "green:usb", "trigger", "asustor-front-usb");
    assert(writes(out@) =~= day_fixed());
    let ghost names = texts(nic_ifaces@);
    assert(day_fixed() + nics_lit(names.take(0)) =~= day_fixed());
    for i in 0..nic_ifaces.len()
        invariant
            names == texts(nic_ifaces@),
            writes(out@) == day_fixed() + nics_lit(names.take(i as int)),
    {
        let a = nic_led_name(nic_ifaces[i].as_str(), "-0::lan");
        let b = nic_led_name(nic_ifaces[i].as_str(), "-1::lan");
        write_attr(&mut out, a.as_str(), "link_2500", "1");
        set_slow_links(&mut out, b.as_str(), "1");
        assert(names.take(i + 1).drop_last() == names.take(i as int));
        assert(names.take(i + 1).last() == nic_ifaces@[i as int]@);
        assert(writes(out@) =~= day_fixed() + nics_lit(names.take(i + 1)));
    }
    assert(names.take(names.len() as int) == names);
    out
}

/// The writes that put the LEDs of a network port in a mode.
pub fn set_nic_mode(iface: &str, mode: NicLedMode) -> (r: Vec<LedWrite>)
    ensures
        writes(r@) == nic_mode_writes(iface@, mode),
{
    let a = nic_led_name(iface, "-0::lan");
    let b = nic_led_name(iface, "-1::lan");
    let mut out: Vec<LedWrite> = Vec::new();
    let (link, traffic) = match mode {
        NicLedMode::Link => ("1", "0"),
        NicLedMode::Activity => ("0", "1"),
    };
    write_attr(&mut out, a.as_str(), "trigger", "netdev");
    write_attr(&mut out, a.as_str(), "link_2500", link);
    write_attr(&mut out, a.as_str(), "rx", traffic);
    write_attr(&mut out, a.as_str(), "tx", traffic);
    write_attr(&mut out, b.as_str(), "trigger", "netdev");
    set_slow_links(&mut out, b.as_str(), link);
    assert(writes(out@) =~= nic_mode_writes(iface@, mode));
    out
}

/// Whether a carrier file, where it could be read, says that the link is down.
pub open spec fn carrier_down(carrier: Option<Seq<char>>) -> bool {
    carrier matches Some(c) && trimmed(c) == "0"@
}

/// Whether an interface's link is down, by the content of its carrier file; a
/// file that cannot be read says nothing.
pub fn link_is_down(carrier: Option<&str>) -> (r: bool)
    ensures
        r == carrier_down(
            match carrier {
                Some(c) => Some(c@),
                None => None,
            },
        ),
{
    match carrier {
        Some(c) => {
            let v = chars(c);
            same_chars(trim(v.as_slice()), chars("0").as_slice())
        },
        None => false,
    }
}

/// Whether the kernel can let an LED flash, by the attributes that the red
/// status LED has.
pub fn ledtrig_timer_loaded(red_status_attrs: &Vec<String>) -> (r: bool)
    ensures
        r == texts(red_status_attrs@).contains("delay_on"@),
{
    holds(red_status_attrs, "delay_on")
}

/// Whether the LED driver is loaded, by the LED devices that there are.
pub fn driver_present(led_dirs: &Vec<String>) -> (r: bool)
    ensures
        r == (texts(led_dirs@).contains("power:lcd"@) && texts(led_dirs@).contains(
            "sata1:red:disk"@,
        ) && texts(led_dirs@).contains("green:status"@)),
{
    holds(led_dirs, "power:lcd") && holds(led_dirs, "sata1:red:disk") && holds(
        led_dirs,
        "green:status",
    )
}

/// What a sequence of writes leaves in an attribute of an LED, where it writes
/// to it.
pub open spec fn setting(w: Seq<WriteView>, led: Seq<char>, attr: Seq<char>) -> Option<Seq<char>>
    decreases w.len(),
{
    if w.len() == 0 {
        None
    } else if w.last().led == led && w.last().attr == attr {
        Some(w.last().value)
    } else {
        setting(w.drop_last(), led, attr)
    }
}

proof fn lemma_setting_push(w: Seq<WriteView>, x: WriteView, led: Seq<char>, attr: Seq<char>)
    ensures
        setting(w.push(x), led, attr) == if x.led == led && x.attr == attr {
            Some(x.value)
        } else {
            setting(w, led, attr)
        },
{
    assert(w.push(x).drop_last() =~= w);
}

proof fn lemma_solid(w: Seq<WriteView>, led: Seq<char>, on: bool, other: Seq<char>, attr: Seq<char>)
    ensures
        setting(w + solid(led, on), led, "brightness"@) == Some(
            if on {
                "1"@
            } else {
                "0"@
            },
        ),
        setting(w + solid(led, on), led, "trigger"@) == Some("none"@),
        led != other ==> setting(w + solid(led, on), other, attr) == setting(w, other, attr),
{
    reveal_strlit("trigger");
    reveal_strlit("brightness");
    let a = solid(led, on)[0];
    let b = solid(led, on)[1];
    assert(w + solid(led, on) =~= w.push(a).push(b));
    assert("trigger"@.len() != "brightness"@.len());
    lemma_setting_push(w, a, led, "trigger"@);
    lemma_setting_push(w.push(a), b, led, "trigger"@);
    lemma_setting_push(w.push(a), b, led, "brightness"@);
    lemma_setting_push(w, a, other, attr);
    lemma_setting_push(w.push(a), b, other, attr);
}

proof fn lemma_blink(
    w: Seq<WriteView>,
    led: Seq<char>,
    on_ms: nat,
    off_ms: nat,
    other: Seq<char>,
    attr: Seq<char>,
)
    ensures
        setting(w + blink(led, on_ms, off_ms), led, "trigger"@) == Some("timer"@),
        setting(w + blink(led, on_ms, off_ms), led, "delay_on"@) == Some(decimal(on_ms)),
        setting(w + blink(led, on_ms, off_ms), led, "delay_off"@) == Some(decimal(off_ms)),
        led != other ==> setting(w + blink(led, on_ms, off_ms), other, attr) == setting(
            w,
            other,
            attr,
        ),
{
    reveal_strlit("trigger");
    reveal_strlit("delay_on");
    reveal_strlit("delay_off");
    let s = blink(led, on_ms, off_ms);
    let (a, b, c) = (s[0], s[1], s[2]);
    assert(w + s =~= w.push(a).push(b).push(c));
    assert("trigger"@.len() == 7 && "delay_on"@.len() == 8 && "delay_off"@.len() == 9);
    lemma_setting_push(w, a, led, "trigger"@);
    lemma_setting_push(w.push(a), b, led, "trigger"@);
    lemma_setting_push(w.push(a).push(b), c, led, "trigger"@);
    lemma_setting_push(w.push(a), b, led, "delay_on"@);
    lemma_setting_push(w.push(a).push(b), c, led, "delay_on"@);
    lemma_setting_push(w.push(a).push(b), c, led, "delay_off"@);
    lemma_setting_push(w, a, other, attr);
    lemma_setting_push(w.push(a), b, other, attr);
    lemma_setting_push(w.push(a).push(b), c, other, attr);
}

/// What a pattern leaves in the two status LEDs: green is on but where something
/// failed; red is off, on, or flashing.
pub proof fn status_leds(pattern: StatusPattern)
    ensures
        ({
            let w = status_writes(pattern);
            let green = "green:status"@;
            let red = "red:status"@;
            let lit = pattern != StatusPattern::Failed && pattern
                != StatusPattern::CriticalFlashing;
            &&& setting(w, green, "trigger"@) == Some("none"@)
            &&& setting(w, green, "brightness"@) == Some(
                if lit {
                    "1"@
                } else {
                    "0"@
                },
            )
            &&& pattern == StatusPattern::Healthy ==> setting(w, red, "trigger"@) == Some("none"@)
                && setting(w, red, "brightness"@) == Some("0"@)
            &&& (pattern == StatusPattern::Warning || pattern == StatusPattern::Failed) ==> setting(
                w,
                red,
                "trigger"@,
            ) == Some("none"@) && setting(w, red, "brightness"@) == Some("1"@)
            &&& pattern == StatusPattern::Degraded ==> setting(w, red, "trigger"@) == Some(
                "timer"@,
            ) && setting(w, red, "delay_on"@) == Some(decimal(500)) && setting(w, red, "delay_off"@)
                == Some(decimal(500))
            &&& pattern == StatusPattern::CriticalFlashing ==> setting(w, red, "trigger"@) == Some(
                "timer"@,
            ) && setting(w, red, "delay_on"@) == Some(decimal(1000)) && setting(
                w,
                red,
                "delay_off"@,
            ) == Some(decimal(1000))
        }),
{
    reveal_strlit("green:status");
    reveal_strlit("red:status");
    let green = "green:status"@;
    let red = "red:status"@;
    assert(green.len() != red.len());
    let none = Seq::<WriteView>::empty();
    let lit = pattern != StatusPattern::Failed && pattern != StatusPattern::CriticalFlashing;
    let w = solid(green, lit);
    assert(none + w =~= w);
    lemma_solid(none, green, lit, red, "trigger"@);
    let x = write(red, "trigger"@, "none"@);
    assert(w + seq![x] =~= w.push(x));
    lemma_setting_push(w, x, green, "trigger"@);
    lemma_setting_push(w, x, green, "brightness"@);
    lemma_solid(w + seq![x], red, false, green, "trigger"@);
    lemma_solid(w + seq![x], red, false, green, "brightness"@);
    lemma_solid(w, red, true, green, "trigger"@);
    lemma_solid(w, red, true, green, "brightness"@);
    lemma_blink(w, red, 500, 500, green, "trigger"@);
    lemma_blink(w, red, 500, 500, green, "brightness"@);
    lemma_blink(w, red, 1000, 1000, green, "trigger"@);
    lemma_blink(w, red, 1000, 1000, green, "brightness"@);
}

/// Whether none of some writes is to the given LED.
pub open spec fn spares(w: Seq<WriteView>, led: Seq<char>) -> bool {
    forall|i: int| 0 <= i < w.len() ==> (#[trigger] w[i]).led != led
}

proof fn lemma_nics_dark_spare(ifaces: Seq<Seq<char>>, bay: u32)
    ensures
        spares(nics_dark(ifaces), bay_red(bay)),
    decreases ifaces.len(),
{
    if ifaces.len() > 0 {
        lemma_nics_dark_spare(ifaces.drop_last(), bay);
        reveal_strlit("-0::lan");
        reveal_strlit("-1::lan");
        reveal_strlit(":red:disk");
        let iface = ifaces.last();
        assert(nic_led(iface, "-0::lan"@).last() == 'n');
        assert(nic_led(iface, "-1::lan"@).last() == 'n');
        assert(bay_red(bay).last() == 'k');
        assert(spares(nic_dark(iface), bay_red(bay)));
        let (a, b) = (nics_dark(ifaces.drop_last()), nic_dark(iface));
        assert forall|i: int| 0 <= i < (a + b).len() implies (#[trigger] (a + b)[i]).led != bay_red(
            bay,
        ) by {
            if i >= a.len() {
                assert((a + b)[i] == b[i - a.len()]);
            }
        }
    }
}

/// The night leaves the red LEDs of the bays alone: a failed drive still shows.
pub proof fn night_spares_red_bays(ifaces: Seq<Seq<char>>, bay: u32)
    ensures
        spares(night_writes(ifaces), bay_red(bay)),
{
    reveal_strlit("green:status");
    reveal_strlit("red:status");
    reveal_strlit("green:usb");
    reveal_strlit(":green:disk");
    reveal_strlit(":red:disk");
    let red = bay_red(bay);
    assert(red.last() == 'k' && red[red.len() - 6] == 'd');
    assert("green:status"@.last() == 's' && "red:status"@.last() == 's' && "green:usb"@.last()
        == 'b');
    assert forall|b: u32| #[trigger] bay_green(b) != red by {
        let green = bay_green(b);
        assert(green[green.len() - 6] == 'n');
    }
    assert(spares(night_fixed(), red));
    lemma_nics_dark_spare(ifaces, bay);
    let (a, b) = (night_fixed(), nics_dark(ifaces));
    assert forall|i: int| 0 <= i < (a + b).len() implies (#[trigger] (a + b)[i]).led != red by {
        if i >= a.len() {
            assert((a + b)[i] == b[i - a.len()]);
        }
    }
}

/// Whether some of the writes is to the given LED.
pub open spec fn touches(w: Seq<WriteView>, led: Seq<char>) -> bool {
    exists|i: int| 0 <= i < w.len() && (#[trigger] w[i]).led == led
}

proof fn lemma_touches_sum(a: Seq<WriteView>, b: Seq<WriteView>, led: Seq<char>)
    ensures
        touches(a + b, led) == (touches(a, led) || touches(b, led)),
{
    if touches(a, led) {
        let i = choose|i: int| 0 <= i < a.len() && (#[trigger] a[i]).led == led;
        assert((a + b)[i] == a[i]);
    }
    if touches(b, led) {
        let i = choose|i: int| 0 <= i < b.len() && (#[trigger] b[i]).led == led;
        assert((a + b)[a.len() + i] == b[i]);
    }
    if touches(a + b, led) {
        let i = choose|i: int| 0 <= i < (a + b).len() && (#[trigger] (a + b)[i]).led == led;
        if i < a.len() {
            assert(a[i].led == led);
        } else {
            assert(b[i - a.len()].led == led);
        }
    }
}

proof fn lemma_nics_come_back(ifaces: Seq<Seq<char>>, led: Seq<char>)
    ensures
        touches(nics_dark(ifaces), led) ==> touches(nics_lit(ifaces), led),
    decreases ifaces.len(),
{
    if ifaces.len() > 0 {
        let rest = ifaces.drop_last();
        let iface = ifaces.last();
        lemma_nics_come_back(rest, led);
        lemma_touches_sum(nics_dark(rest), nic_dark(iface), led);
        lemma_touches_sum(nics_lit(rest), nic_lit(iface), led);
        if touches(nic_dark(iface), led) {
            let lit = nic_lit(iface);
            assert(lit[0].led == nic_led(iface, "-0::lan"@));
            assert(lit[1].led == nic_led(iface, "-1::lan"@));
        }
    }
}

proof fn lemma_setting_sum(
    a: Seq<WriteView>,
    b: Seq<WriteView>,
    led: Seq<char>,
    attr: Seq<char>,
)
    ensures
        setting(a + b, led, attr) == match setting(b, led, attr) {
            Some(v) => Some(v),
            None => setting(a, led, attr),
        },
    decreases b.len(),
{
    if b.len() == 0 {
        assert(a + b =~= a);
    } else {
        assert((a + b).drop_last() =~= a + b.drop_last());
        lemma_setting_sum(a, b.drop_last(), led, attr);
    }
}

proof fn lemma_untouched(w: Seq<WriteView>, led: Seq<char>, attr: Seq<char>)
    requires
        spares(w, led),
    ensures
        setting(w, led, attr) is None,
    decreases w.len(),
{
    if w.len() > 0 {
        let rest = w.drop_last();
        assert(w[w.len() - 1].led != led);
        assert forall|i: int| 0 <= i < rest.len() implies (#[trigger] rest[i]).led != led by {
            assert(rest[i] == w[i]);
        }
        lemma_untouched(rest, led, attr);
    }
}

/// Writes that all have one value leave it in whatever they write to.
proof fn lemma_uniform(
    w: Seq<WriteView>,
    led: Seq<char>,
    attr: Seq<char>,
    value: Seq<char>,
    i: int,
)
    requires
        0 <= i < w.len(),
        w[i].led == led,
        w[i].attr == attr,
        forall|j: int| 0 <= j < w.len() ==> (#[trigger] w[j]).value == value,
    ensures
        setting(w, led, attr) == Some(value),
    decreases w.len(),
{
    assert(w[w.len() - 1].value == value);
    if i < w.len() - 1 {
        let rest = w.drop_last();
        assert(rest[i] == w[i]);
        assert forall|j: int| 0 <= j < rest.len() implies (#[trigger] rest[j]).value == value by {
            assert(rest[j] == w[j]);
        }
        lemma_uniform(rest, led, attr, value, i);
    }
}

proof fn lemma_nics_lit(ifaces: Seq<Seq<char>>)
    ensures
        forall|i: int|
            0 <= i < nics_lit(ifaces).len() ==> (#[trigger] nics_lit(ifaces)[i]).value == "1"@,
        forall|i: int|
            0 <= i < nics_lit(ifaces).len() ==> (#[trigger] nics_lit(ifaces)[i]).led.len() > 0
                && nics_lit(ifaces)[i].led.last() == 'n',
    decreases ifaces.len(),
{
    if ifaces.len() > 0 {
        lemma_nics_lit(ifaces.drop_last());
        reveal_strlit("-0::lan");
        reveal_strlit("-1::lan");
        let (a, b) = (nics_lit(ifaces.drop_last()), nic_lit(ifaces.last()));
        assert(nic_led(ifaces.last(), "-0::lan"@).last() == 'n');
        assert(nic_led(ifaces.last(), "-1::lan"@).last() == 'n');
        assert forall|i: int| 0 <= i < (a + b).len() implies (#[trigger] (a + b)[i]).value == "1"@
            && (a + b)[i].led.len() > 0 && (a + b)[i].led.last() == 'n' by {
            if i < a.len() {
                assert((a + b)[i] == a[i]);
            } else {
                assert((a + b)[i] == b[i - a.len()]);
            }
        }
    }
}

/// The place of the writes for a port among those for some ports.
proof fn lemma_nic_place(ifaces: Seq<Seq<char>>, k: int) -> (p: int)
    requires
        0 <= k < ifaces.len(),
    ensures
        0 <= p,
        p + 4 <= nics_lit(ifaces).len(),
        nics_lit(ifaces).subrange(p, p + 4) == nic_lit(ifaces[k]),
    decreases ifaces.len(),
{
    let rest = ifaces.drop_last();
    let (a, b) = (nics_lit(rest), nic_lit(ifaces.last()));
    assert(b.len() == 4);
    if k == ifaces.len() - 1 {
        assert((a + b).subrange(a.len() as int, a.len() as int + 4) =~= b);
        a.len() as int
    } else {
        let p = lemma_nic_place(rest, k);
        assert((a + b).subrange(p, p + 4) =~= a.subrange(p, p + 4));
        p
    }
}

/// The number of a bay that has an LED of its own.
pub open spec fn is_bay(b: u32) -> bool {
    1 <= b <= 4
}

/// What the end of the night leaves in the LEDs that went dark: the automatic
/// triggers of the red status LED, of the bays and of the USB port, the green
/// status LED on, and the link speeds of every network port.
pub proof fn day_brings_back_the_night(ifaces: Seq<Seq<char>>)
    ensures
        setting(day_writes(ifaces), "red:status"@, "trigger"@) == Some("panic"@),
        setting(day_writes(ifaces), "red:status"@, "brightness"@) == Some("0"@),
        setting(day_writes(ifaces), "green:status"@, "trigger"@) == Some("none"@),
        setting(day_writes(ifaces), "green:status"@, "brightness"@) == Some("1"@),
        setting(day_writes(ifaces), "green:usb"@, "trigger"@) == Some("asustor-front-usb"@),
        forall|b: u32|
            is_bay(b) ==> setting(day_writes(ifaces), #[trigger] bay_green(b), "trigger"@) == Some(
                bay_trigger(b),
            ),
        forall|k: int|
            #![trigger ifaces[k]]
            0 <= k < ifaces.len() ==> {
                let a = nic_led(ifaces[k], "-0::lan"@);
                let b = nic_led(ifaces[k], "-1::lan"@);
                &&& setting(day_writes(ifaces), a, "link_2500"@) == Some("1"@)
                &&& setting(day_writes(ifaces), b, "link_10"@) == Some("1"@)
                &&& setting(day_writes(ifaces), b, "link_100"@) == Some("1"@)
                &&& setting(day_writes(ifaces), b, "link_1000"@) == Some("1"@)
            },
{
    let day = day_fixed();
    let lit = nics_lit(ifaces);
    lemma_nics_lit(ifaces);
    assert forall|k: int|
        #![trigger ifaces[k]]
        0 <= k < ifaces.len() implies {
        let a = nic_led(ifaces[k], "-0::lan"@);
        let b = nic_led(ifaces[k], "-1::lan"@);
        &&& setting(day_writes(ifaces), a, "link_2500"@) == Some("1"@)
        &&& setting(day_writes(ifaces), b, "link_10"@) == Some("1"@)
        &&& setting(day_writes(ifaces), b, "link_100"@) == Some("1"@)
        &&& setting(day_writes(ifaces), b, "link_1000"@) == Some("1"@)
    } by {
        let a = nic_led(ifaces[k], "-0::lan"@);
        let b = nic_led(ifaces[k], "-1::lan"@);
        let p = lemma_nic_place(ifaces, k);
        let own = lit.subrange(p, p + 4);
        assert(lit[p] == own[0] && lit[p + 1] == own[1] && lit[p + 2] == own[2] && lit[p + 3]
            == own[3]);
        lemma_uniform(lit, a, "link_2500"@, "1"@, p);
        lemma_uniform(lit, b, "link_10"@, "1"@, p + 1);
        lemma_uniform(lit, b, "link_100"@, "1"@, p + 2);
        lemma_uniform(lit, b, "link_1000"@, "1"@, p + 3);
        lemma_setting_sum(day, lit, a, "link_2500"@);
        lemma_setting_sum(day, lit, b, "link_10"@);
        lemma_setting_sum(day, lit, b, "link_100"@);
        lemma_setting_sum(day, lit, b, "link_1000"@);
    }
    lemma_day_status(ifaces);
    lemma_day_triggers(ifaces);
}

proof fn lemma_spared_by_nics(ifaces: Seq<Seq<char>>, led: Seq<char>, attr: Seq<char>)
    requires
        led.len() > 0,
        led.last() != 'n',
    ensures
        setting(day_writes(ifaces), led, attr) == setting(day_fixed(), led, attr),
{
    lemma_nics_lit(ifaces);
    lemma_untouched(nics_lit(ifaces), led, attr);
    lemma_setting_sum(day_fixed(), nics_lit(ifaces), led, attr);
}

/// The writes of `day_fixed` after those for the status LEDs.
spec fn day_tail() -> Seq<WriteView> {
    bay_lit(1) + bay_lit(2) + bay_lit(3) + bay_lit(4) + seq![
        write("green:usb"@, "trigger"@, "asustor-front-usb"@),
    ]
}

proof fn lemma_day_status(ifaces: Seq<Seq<char>>)
    ensures
        setting(day_writes(ifaces), "red:status"@, "trigger"@) == Some("panic"@),
        setting(day_writes(ifaces), "red:status"@, "brightness"@) == Some("0"@),
        setting(day_writes(ifaces), "green:status"@, "trigger"@) == Some("none"@),
        setting(day_writes(ifaces), "green:status"@, "brightness"@) == Some("1"@),
{
    reveal_strlit("green:status");
    reveal_strlit("red:status");
    reveal_strlit("green:usb");
    reveal_strlit(":green:disk");
    reveal_strlit("trigger");
    reveal_strlit("brightness");
    let green = "green:status"@;
    let red = "red:status"@;
    assert(green.len() != red.len() && "trigger"@.len() != "brightness"@.len());
    assert(green.last() == 's' && red.last() == 's' && "green:usb"@.last() == 'b');
    assert forall|b: u32| (#[trigger] bay_green(b)).last() == 'k' by {}
    let first = write(green, "trigger"@, "none"@);
    let w0 = seq![first];
    let w1 = w0 + solid(green, true);
    let w2 = w1 + solid(red, false);
    let panic = write(red, "trigger"@, "panic"@);
    let w3 = w2.push(panic);
    let tail = day_tail();
    assert(day_fixed() =~= w3 + tail);
    assert(spares(tail, green) && spares(tail, red));
    lemma_solid(w0, green, true, red, "trigger"@);
    lemma_solid(w1, red, false, green, "trigger"@);
    lemma_solid(w1, red, false, green, "brightness"@);
    lemma_setting_push(w2, panic, green, "trigger"@);
    lemma_setting_push(w2, panic, green, "brightness"@);
    lemma_setting_push(w2, panic, red, "trigger"@);
    lemma_setting_push(w2, panic, red, "brightness"@);
    lemma_untouched(tail, green, "trigger"@);
    lemma_untouched(tail, green, "brightness"@);
    lemma_untouched(tail, red, "trigger"@);
    lemma_untouched(tail, red, "brightness"@);
    lemma_setting_sum(w3, tail, green, "trigger"@);
    lemma_setting_sum(w3, tail, green, "brightness"@);
    lemma_setting_sum(w3, tail, red, "trigger"@);
    lemma_setting_sum(w3, tail, red, "brightness"@);
    lemma_spared_by_nics(ifaces, green, "trigger"@);
    lemma_spared_by_nics(ifaces, green, "brightness"@);
    lemma_spared_by_nics(ifaces, red, "trigger"@);
    lemma_spared_by_nics(ifaces, red, "brightness"@);
}

proof fn lemma_bay_green_distinct(a: u32, b: u32)
    ensures
        bay_green(a) == bay_green(b) ==> a == b,
{
    if bay_green(a) == bay_green(b) {
        let (x, y) = (decimal(a as nat), decimal(b as nat));
        let (p, q) = ("sata"@.len() as int, ":green:disk"@.len() as int);
        assert(bay_green(a).len() == p + x.len() + q);
        assert(bay_green(b).len() == p + y.len() + q);
        assert(bay_green(a).subrange(p, p + x.len()) =~= x);
        assert(bay_green(b).subrange(p, p + y.len()) =~= y);
        decimal_is_injective(a as nat, b as nat);
    }
}

proof fn lemma_day_triggers(ifaces: Seq<Seq<char>>)
    ensures
        setting(day_writes(ifaces), "green:usb"@, "trigger"@) == Some("asustor-front-usb"@),
        forall|b: u32|
            is_bay(b) ==> setting(day_writes(ifaces), #[trigger] bay_green(b), "trigger"@) == Some(
                bay_trigger(b),
            ),
{
    reveal_strlit("green:usb");
    reveal_strlit(":green:disk");
    let usb = write("green:usb"@, "trigger"@, "asustor-front-usb"@);
    assert("green:usb"@.last() == 'b');
    assert forall|b: u32| (#[trigger] bay_green(b)).last() == 'k' by {}
    let day = day_fixed();
    let w0 = day.take(6);
    let b1 = bay_lit(1)[0];
    let b2 = bay_lit(2)[0];
    let b3 = bay_lit(3)[0];
    let b4 = bay_lit(4)[0];
    let w1 = w0.push(b1);
    let w2 = w1.push(b2);
    let w3 = w2.push(b3);
    let w4 = w3.push(b4);
    assert(day =~= w4.push(usb));
    lemma_setting_push(w4, usb, "green:usb"@, "trigger"@);
    lemma_spared_by_nics(ifaces, "green:usb"@, "trigger"@);
    assert forall|b: u32| is_bay(b) implies setting(
        day_writes(ifaces),
        #[trigger] bay_green(b),
        "trigger"@,
    ) == Some(bay_trigger(b)) by {
        let led = bay_green(b);
        lemma_bay_green_distinct(b, 1);
        lemma_bay_green_distinct(b, 2);
        lemma_bay_green_distinct(b, 3);
        lemma_bay_green_distinct(b, 4);
        lemma_setting_push(w0, b1, led, "trigger"@);
        lemma_setting_push(w1, b2, led, "trigger"@);
        lemma_setting_push(w2, b3, led, "trigger"@);
        lemma_setting_push(w3, b4, led, "trigger"@);
        lemma_setting_push(w4, usb, led, "trigger"@);
        lemma_spared_by_nics(ifaces, led, "trigger"@);
    }
}

/// Every LED that the night darkens is written again at its end.
pub proof fn day_covers_the_night(ifaces: Seq<Seq<char>>, led: Seq<char>)
    ensures
        touches(night_writes(ifaces), led) ==> touches(day_writes(ifaces), led),
{
    lemma_touches_sum(night_fixed(), nics_dark(ifaces), led);
    lemma_touches_sum(day_fixed(), nics_lit(ifaces), led);
    lemma_nics_come_back(ifaces, led);
    if touches(night_fixed(), led) {
        let day = day_fixed();
        assert(day[0].led == "green:status"@);
        assert(day[3].led == "red:status"@);
        assert(day[6].led == bay_green(1) && day[7].led == bay_green(2) && day[8].led == bay_green(
            3,
        ) && day[9].led == bay_green(4) && day[10].led == "green:usb"@);
    }
}

/// What a state leaves in the two LEDs of a bay. Normal: green shows the drive's
/// activity, red is off. Failed: green is off, red is on. Alert: green is off, red
/// flashes every two seconds. Standby: green flashes shortly every ten seconds, red is
/// off.
pub proof fn bay_leds(bay: u32, state: BayState)
    ensures
        ({
            let w = bay_writes(bay, state);
            let green = "sata"@ + decimal(bay as nat) + ":green:disk"@;
            let red = "sata"@ + decimal(bay as nat) + ":red:disk"@;
            &&& state == BayState::Normal ==> setting(w, green, "trigger"@) == Some(
                "asustor-sata"@ + decimal(bay as nat),
            ) && setting(w, red, "trigger"@) == Some("none"@) && setting(w, red, "brightness"@)
                == Some("0"@)
            &&& state == BayState::Failed ==> setting(w, green, "trigger"@) == Some("none"@)
                && setting(w, green, "brightness"@) == Some("0"@) && setting(w, red, "trigger"@)
                == Some("none"@) && setting(w, red, "brightness"@) == Some("1"@)
            &&& state == BayState::Alert ==> setting(w, green, "trigger"@) == Some("none"@)
                && setting(w, green, "brightness"@) == Some("0"@) && setting(w, red, "trigger"@)
                == Some("timer"@) && setting(w, red, "delay_on"@) == Some(decimal(1000))
                && setting(w, red, "delay_off"@) == Some(decimal(1000))
            &&& state == BayState::Standby ==> setting(w, green, "trigger"@) == Some("timer"@)
                && setting(w, green, "delay_on"@) == Some(decimal(250)) && setting(
                w,
                green,
                "delay_off"@,
            ) == Some(decimal(9750)) && setting(w, red, "trigger"@) == Some("none"@) && setting(
                w,
                red,
                "brightness"@,
            ) == Some("0"@)
        }),
{
    reveal_strlit(":green:disk");
    reveal_strlit(":red:disk");
    let green = bay_green(bay);
    let red = bay_red(bay);
    assert(green.len() != red.len());
    let none = Seq::<WriteView>::empty();
    let back = write(green, "trigger"@, bay_trigger(bay));
    let off = write(green, "trigger"@, "none"@);
    assert(seq![back] =~= none.push(back));
    assert(seq![off] =~= none.push(off));
    lemma_setting_push(none, back, green, "trigger"@);
    lemma_solid(seq![back], red, false, green, "trigger"@);
    let dark = seq![off] + solid(green, false);
    lemma_solid(seq![off], green, false, red, "trigger"@);
    lemma_solid(dark, red, true, green, "trigger"@);
    lemma_solid(dark, red, true, green, "brightness"@);
    lemma_blink(dark, red, 1000, 1000, green, "trigger"@);
    lemma_blink(dark, red, 1000, 1000, green, "brightness"@);
    let slow = blink(green, 250, 9750);
    assert(none + slow =~= slow);
    lemma_blink(none, green, 250, 9750, red, "trigger"@);
    lemma_solid(slow, red, false, green, "trigger"@);
    lemma_solid(slow, red, false, green, "delay_on"@);
    lemma_solid(slow, red, false, green, "delay_off"@);
}

/// Which pattern a message asks for, where it asks for one.
pub proof fn patterns_of_messages(level: Level)
    ensures
        level == Level::Critical ==> level_pattern(level) == Some(StatusPattern::CriticalFlashing),
        level == Level::Error ==> level_pattern(level) == Some(StatusPattern::Failed),
        level == Level::Warn || level == Level::Info ==> level_pattern(level) is None,
{
}

/// What a mode leaves in the LEDs of a network port: both follow the port, and show
/// its link or its traffic, the first the fastest link, the second the slower ones.
pub proof fn leds_of_a_port(iface: Seq<char>, mode: NicLedMode)
    ensures
        ({
            let w = nic_mode_writes(iface, mode);
            let a = iface + "-0::lan"@;
            let b = iface + "-1::lan"@;
            let link = if mode == NicLedMode::Link {
                "1"@
            } else {
                "0"@
            };
            let traffic = if mode == NicLedMode::Link {
                "0"@
            } else {
                "1"@
            };
            &&& setting(w, a, "trigger"@) == Some("netdev"@)
            &&& setting(w, b, "trigger"@) == Some("netdev"@)
            &&& setting(w, a, "link_2500"@) == Some(link)
            &&& setting(w, a, "rx"@) == Some(traffic)
            &&& setting(w, a, "tx"@) == Some(traffic)
            &&& setting(w, b, "link_10"@) == Some(link)
            &&& setting(w, b, "link_100"@) == Some(link)
            &&& setting(w, b, "link_1000"@) == Some(link)
        }),
{
    reveal_strlit("trigger");
    reveal_strlit("link_2500");
    reveal_strlit("rx");
    reveal_strlit("tx");
    reveal_strlit("link_10");
    reveal_strlit("link_100");
    reveal_strlit("link_1000");
    reveal_strlit("-0::lan");
    reveal_strlit("-1::lan");
    let w = nic_mode_writes(iface, mode);
    let a = iface + "-0::lan"@;
    let b = iface + "-1::lan"@;
    let n = iface.len() as int;
    assert(a[n + 1] == '0' && b[n + 1] == '1');
    assert("rx"@[0] == 'r' && "tx"@[0] == 't');
    assert("trigger"@.len() == 7 && "link_10"@.len() == 7 && "trigger"@[0] == 't' && "link_10"@[0]
        == 'l');
    assert("link_2500"@.len() == 9 && "link_1000"@.len() == 9 && "link_2500"@[5] == '2'
        && "link_1000"@[5] == '1');
    assert("link_100"@.len() == 8);
    lemma_only_write(w, 0);
    lemma_only_write(w, 1);
    lemma_only_write(w, 2);
    lemma_only_write(w, 3);
    lemma_only_write(w, 4);
    lemma_only_write(w, 5);
    lemma_only_write(w, 6);
    lemma_only_write(w, 7);
}

/// The only write to an attribute is what it is left with.
proof fn lemma_only_write(w: Seq<WriteView>, i: int)
    requires
        0 <= i < w.len(),
        forall|j: int|
            i < j < w.len() ==> (#[trigger] w[j]).led != w[i].led || w[j].attr != w[i].attr,
    ensures
        setting(w, w[i].led, w[i].attr) == Some(w[i].value),
    decreases w.len(),
{
    if i < w.len() - 1 {
        let rest = w.drop_last();
        assert(rest[i] == w[i]);
        assert forall|j: int| i < j < rest.len() implies (#[trigger] rest[j]).led != rest[i].led
            || rest[j].attr != rest[i].attr by {
            assert(rest[j] == w[j]);
        }
        lemma_only_write(rest, i);
        assert(w[w.len() - 1].led != w[i].led || w[w.len() - 1].attr != w[i].attr);
    }
}

/// Whether some writes stand among others at a place.
pub open spec fn stands_at(w: Seq<WriteView>, part: Seq<WriteView>, p: int) -> bool {
    0 <= p && p + part.len() <= w.len() && w.subrange(p, p + part.len()) == part
}

/// Every port gets its mode: what stands for it is written, whatever the other ports
/// are.
pub proof fn every_port_gets_its_mode(ifaces: Seq<Seq<char>>, mode: NicLedMode, i: int)
    requires
        0 <= i < ifaces.len(),
    ensures
        exists|p: int|
            stands_at(nics_mode_writes(ifaces, mode), nic_mode_writes(ifaces[i], mode), p),
    decreases ifaces.len(),
{
    let rest = ifaces.drop_last();
    let a = nics_mode_writes(rest, mode);
    let b = nic_mode_writes(ifaces.last(), mode);
    let w = nics_mode_writes(ifaces, mode);
    let own = nic_mode_writes(ifaces[i], mode);
    assert(w == a + b);
    if i == ifaces.len() - 1 {
        let p = a.len() as int;
        assert(w.subrange(p, p + own.len()) =~= own);
        assert(stands_at(w, own, p));
    } else {
        assert(rest[i] == ifaces[i]);
        every_port_gets_its_mode(rest, mode, i);
        let p = choose|p: int| stands_at(a, own, p);
        assert(w.subrange(p, p + own.len()) =~= a.subrange(p, p + own.len()));
        assert(stands_at(w, own, p));
    }
}

/// Whether a write darkens: it takes a trigger away, or sets anything else to zero.
pub open spec fn darkens(w: WriteView) -> bool {
    if w.attr == "trigger"@ {
        w.value == "none"@
    } else {
        w.value == "0"@
    }
}

proof fn lemma_dark(w: Seq<WriteView>, i: int)
    requires
        0 <= i < w.len(),
        forall|j: int| 0 <= j < w.len() ==> darkens(#[trigger] w[j]),
    ensures
        setting(w, w[i].led, w[i].attr) == Some(
            if w[i].attr == "trigger"@ {
                "none"@
            } else {
                "0"@
            },
        ),
    decreases w.len(),
{
    assert(darkens(w[w.len() - 1]));
    if !(w.last().led == w[i].led && w.last().attr == w[i].attr) {
        let rest = w.drop_last();
        assert(rest[i] == w[i]);
        assert forall|j: int| 0 <= j < rest.len() implies darkens(#[trigger] rest[j]) by {
            assert(rest[j] == w[j]);
        }
        lemma_dark(rest, i);
    }
}

proof fn lemma_attrs_differ()
    ensures
        "trigger"@ != "brightness"@,
        "trigger"@ != "link_10"@,
        "trigger"@ != "link_100"@,
        "trigger"@ != "link_1000"@,
        "trigger"@ != "link_2500"@,
        "trigger"@ != "rx"@,
        "trigger"@ != "tx"@,
{
    reveal_strlit("trigger");
    reveal_strlit("brightness");
    reveal_strlit("link_10");
    reveal_strlit("link_100");
    reveal_strlit("link_1000");
    reveal_strlit("link_2500");
    reveal_strlit("rx");
    reveal_strlit("tx");
    assert("trigger"@[0] == 't' && "link_10"@[0] == 'l');
    assert("trigger"@.len() == 7 && "rx"@.len() == 2 && "tx"@.len() == 2);
}

proof fn lemma_nics_darken(ifaces: Seq<Seq<char>>)
    ensures
        forall|j: int| 0 <= j < nics_dark(ifaces).len() ==> darkens(#[trigger] nics_dark(ifaces)[j]),
    decreases ifaces.len(),
{
    if ifaces.len() > 0 {
        lemma_attrs_differ();
        lemma_nics_darken(ifaces.drop_last());
        let (a, b) = (nics_dark(ifaces.drop_last()), nic_dark(ifaces.last()));
        assert forall|j: int| 0 <= j < (a + b).len() implies darkens(#[trigger] (a + b)[j]) by {
            if j < a.len() {
                assert((a + b)[j] == a[j]);
            } else {
                assert((a + b)[j] == b[j - a.len()]);
            }
        }
    }
}

proof fn lemma_dark_port(ifaces: Seq<Seq<char>>, k: int) -> (p: int)
    requires
        0 <= k < ifaces.len(),
    ensures
        0 <= p,
        p + 12 <= nics_dark(ifaces).len(),
        nics_dark(ifaces).subrange(p, p + 12) == nic_dark(ifaces[k]),
    decreases ifaces.len(),
{
    let rest = ifaces.drop_last();
    let (a, b) = (nics_dark(rest), nic_dark(ifaces.last()));
    assert(b.len() == 12);
    if k == ifaces.len() - 1 {
        assert((a + b).subrange(a.len() as int, a.len() as int + 12) =~= b);
        a.len() as int
    } else {
        let p = lemma_dark_port(rest, k);
        assert((a + b).subrange(p, p + 12) =~= a.subrange(p, p + 12));
        p
    }
}

/// What the start of the night leaves in the LEDs: both status LEDs, the green LEDs of
/// the bays and the one of the USB port are off and follow nothing, and no LED of a
/// network port shows a link or traffic.
pub proof fn night_is_dark(ifaces: Seq<Seq<char>>, k: int)
    ensures
        ({
            let w = night_writes(ifaces);
            let is_off = |led: Seq<char>|
                setting(w, led, "trigger"@) == Some("none"@) && setting(w, led, "brightness"@)
                    == Some("0"@);
            &&& is_off("green:status"@) && is_off("red:status"@) && is_off("green:usb"@)
            &&& is_off(bay_green(1)) && is_off(bay_green(2)) && is_off(bay_green(3)) && is_off(
                bay_green(4),
            )
        }),
        0 <= k < ifaces.len() ==> ({
            let w = night_writes(ifaces);
            let a = ifaces[k] + "-0::lan"@;
            let b = ifaces[k] + "-1::lan"@;
            &&& setting(w, a, "link_2500"@) == Some("0"@) && setting(w, b, "link_2500"@) == Some(
                "0"@,
            )
            &&& setting(w, a, "link_1000"@) == Some("0"@) && setting(w, b, "link_1000"@) == Some(
                "0"@,
            )
            &&& setting(w, a, "link_100"@) == Some("0"@) && setting(w, b, "link_100"@) == Some(
                "0"@,
            )
            &&& setting(w, a, "link_10"@) == Some("0"@) && setting(w, b, "link_10"@) == Some("0"@)
            &&& setting(w, a, "rx"@) == Some("0"@) && setting(w, b, "rx"@) == Some("0"@)
            &&& setting(w, a, "tx"@) == Some("0"@) && setting(w, b, "tx"@) == Some("0"@)
        }),
{
    lemma_attrs_differ();
    lemma_nics_darken(ifaces);
    let w = night_writes(ifaces);
    let f = night_fixed();
    let d = nics_dark(ifaces);
    assert(f.len() == 21);
    assert forall|j: int| 0 <= j < w.len() implies darkens(#[trigger] w[j]) by {
        if j >= f.len() {
            assert(w[j] == d[j - f.len()]);
        }
    }
    // The green and the red status LED.
    lemma_dark(w, 1);
    lemma_dark(w, 2);
    lemma_dark(w, 4);
    lemma_dark(w, 5);
    // The bays.
    lemma_dark(w, 7);
    lemma_dark(w, 8);
    lemma_dark(w, 10);
    lemma_dark(w, 11);
    lemma_dark(w, 13);
    lemma_dark(w, 14);
    lemma_dark(w, 16);
    lemma_dark(w, 17);
    // The USB port.
    lemma_dark(w, 18);
    lemma_dark(w, 19);
    if 0 <= k < ifaces.len() {
        let p = lemma_dark_port(ifaces, k);
        let own = d.subrange(p, p + 12);
        let q = p + f.len();
        assert forall|j: int| 0 <= j < 12 implies #[trigger] own[j] == w[q + j] by {
            assert(own[j] == d[p + j]);
        }
        assert(own[0] == w[q] && own[1] == w[q + 1] && own[2] == w[q + 2] && own[3] == w[q + 3]
            && own[4] == w[q + 4] && own[5] == w[q + 5] && own[6] == w[q + 6] && own[7] == w[q
            + 7] && own[8] == w[q + 8] && own[9] == w[q + 9] && own[10] == w[q + 10] && own[11]
            == w[q + 11]);
        lemma_dark(w, q);
        lemma_dark(w, q + 1);
        lemma_dark(w, q + 2);
        lemma_dark(w, q + 3);
        lemma_dark(w, q + 4);
        lemma_dark(w, q + 5);
        lemma_dark(w, q + 6);
        lemma_dark(w, q + 7);
        lemma_dark(w, q + 8);
        lemma_dark(w, q + 9);
        lemma_dark(w, q + 10);
        lemma_dark(w, q + 11);
    }
}

/// A link is down exactly where its carrier file could be read and says so.
pub proof fn link_is_down_by_its_carrier(carrier: Seq<char>)
    ensures
        carrier_down(Some(carrier)) <==> trimmed(carrier) == "0"@,
        !carrier_down(None),
{
}

} // verus!
