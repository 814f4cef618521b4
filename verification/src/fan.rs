//! Fan control: the curve from temperature to output, and the care for a fan
//! that does not turn.
//!
//! At or below the lower temperature of a curve the output is `min_pwm`, at or
//! above the upper one it is `max_pwm`. In between it is a straight line that
//! starts at `min_stop_pwm`, not at `min_pwm`.
//!
//! A fan that stands still is kicked with `min_start_pwm` for a second before
//! it is left to the curve. Reading and writing the hardware is up to the
//! caller: it hands in what was read, gets an order, and reports whether the
//! order could be carried out.
use crate::celsius::MilliC;
use crate::clock::{deadline_in, have_secs_passed, in_secs, secs_passed, Deadline, Instant};
use crate::config::FanConfig;
use crate::text::opt_text;
use vstd::prelude::*;

verus! {

/// How long a fan that stands still is kicked, in seconds.
pub const KICK_SECS: u64 = 1;

/// A curve from temperature to output.
#[derive(Debug, Clone, Copy, PartialEq, Eq, Structural)]
pub struct Curve {
    pub min_temp: MilliC,
    pub max_temp: MilliC,
    pub min_pwm: u8,
    pub min_stop_pwm: u8,
    pub max_pwm: u8,
}

/// The whole number nearest to the straight line from `from` at `min` to `to`
/// at `max`, upwards from halves.
pub open spec fn ramp(t: int, min: int, max: int, from: int, to: int) -> int {
    let d = max - min;
    (2 * ((t - min) * to + (max - t) * from) + d) / (2 * d)
}

impl Curve {
    /// The output for a temperature.
    pub open spec fn at(self, t: int) -> int {
        if t <= self.min_temp {
            self.min_pwm as int
        } else if t >= self.max_temp {
            self.max_pwm as int
        } else {
            ramp(
                t,
                self.min_temp as int,
                self.max_temp as int,
                self.min_stop_pwm as int,
                self.max_pwm as int,
            )
        }
    }
}

proof fn lemma_ramp(t: int, min: int, max: int, from: int, to: int)
    requires
        min <= t <= max,
        min < max,
    ensures
        from <= to ==> from <= ramp(t, min, max, from, to) <= to,
        to <= from ==> to <= ramp(t, min, max, from, to) <= from,
{
    let d = max - min;
    let a = t - min;
    let b = max - t;
    let n = 2 * (a * to + b * from) + d;
    let lo = if from <= to {
        from
    } else {
        to
    };
    let hi = if from <= to {
        to
    } else {
        from
    };
    assert(a * lo <= a * to <= a * hi) by (nonlinear_arith)
        requires
            a >= 0,
            lo <= to <= hi,
    ;
    assert(b * lo <= b * from <= b * hi) by (nonlinear_arith)
        requires
            b >= 0,
            lo <= from <= hi,
    ;
    assert(a * lo + b * lo == d * lo && a * hi + b * hi == d * hi) by (nonlinear_arith)
        requires
            d == a + b,
    ;
    assert(lo <= n / (2 * d) <= hi) by (nonlinear_arith)
        requires
            d > 0,
            2 * (d * lo) + d <= n <= 2 * (d * hi) + d,
    ;
}

/// The line of a curve starts at the output at which a running fan may stop,
/// and ends at the highest output.
pub proof fn ramp_ends(min: int, max: int, from: int, to: int)
    requires
        min < max,
    ensures
        ramp(min, min, max, from, to) == from,
        ramp(max, min, max, from, to) == to,
{
    let d = max - min;
    assert((2 * (d * from) + d) / (2 * d) == from) by (nonlinear_arith)
        requires
            d > 0,
    ;
    assert((2 * (d * to) + d) / (2 * d) == to) by (nonlinear_arith)
        requires
            d > 0,
    ;
}

/// The output of a curve lies within those that the curve names.
pub proof fn curve_stays_within(c: Curve, t: int)
    ensures
        0 <= c.at(t) <= 255,
        c.min_pwm <= c.min_stop_pwm <= c.max_pwm ==> c.min_pwm <= c.at(t) <= c.max_pwm,
{
    if c.min_temp < t < c.max_temp {
        lemma_ramp(
            t,
            c.min_temp as int,
            c.max_temp as int,
            c.min_stop_pwm as int,
            c.max_pwm as int,
        );
    }
}

/// A higher temperature never gives a lower output, where the outputs of a
/// curve ascend.
pub proof fn curve_is_monotone(c: Curve, t: int, u: int)
    requires
        c.min_pwm <= c.min_stop_pwm <= c.max_pwm,
        t <= u,
    ensures
        c.at(t) <= c.at(u),
{
    let (min, max) = (c.min_temp as int, c.max_temp as int);
    let (from, to) = (c.min_stop_pwm as int, c.max_pwm as int);
    if min < t < max {
        lemma_ramp(t, min, max, from, to);
    }
    if min < u < max {
        lemma_ramp(u, min, max, from, to);
    }
    if min < t && u < max {
        let d = max - min;
        let n = 2 * ((t - min) * to + (max - t) * from) + d;
        let m = 2 * ((u - min) * to + (max - u) * from) + d;
        assert(n <= m) by (nonlinear_arith)
            requires
                n == 2 * ((t - min) * to + (max - t) * from) + d,
                m == 2 * ((u - min) * to + (max - u) * from) + d,
                t <= u,
                from <= to,
        ;
        vstd::arithmetic::div_mod::lemma_div_is_ordered(n, m, 2 * d);
    }
}

/// The output of a curve for a temperature.
pub fn curve_pwm(c: Curve, temp: MilliC) -> (r: u8)
    ensures
        r == c.at(temp as int),
{
    proof {
        curve_stays_within(c, temp as int);
    }
    if temp <= c.min_temp {
        c.min_pwm
    } else if temp >= c.max_temp {
        c.max_pwm
    } else {
        let d: i64 = c.max_temp as i64 - c.min_temp as i64;
        let a: i64 = temp as i64 - c.min_temp as i64;
        let b: i64 = c.max_temp as i64 - temp as i64;
        let to: i64 = c.max_pwm as i64;
        let from: i64 = c.min_stop_pwm as i64;
        assert(0 <= a * to <= 0x1_0000_0000 * 255 && 0 <= b * from <= 0x1_0000_0000 * 255)
            by (nonlinear_arith)
            requires
                0 <= a <= 0x1_0000_0000,
                0 <= b <= 0x1_0000_0000,
                0 <= to <= 255,
                0 <= from <= 255,
        ;
        let n: i64 = 2 * (a * to + b * from) + d;
        (n / (2 * d)) as u8
    }
}

/// What the caller is to do to a fan.
#[derive(Debug, Clone, Copy, PartialEq, Eq, Structural)]
pub enum FanOrder {
    Nothing,
    /// Write an output that starts a fan which stands still.
    Kick(u8),
    /// Take control of the output, then write it.
    Drive(u8),
}

/// The curve of a single fan.
pub open spec fn config_curve(cfg: FanConfig) -> Curve {
    Curve {
        min_temp: cfg.min_temp_c,
        max_temp: cfg.max_temp_c,
        min_pwm: cfg.min_pwm,
        min_stop_pwm: cfg.min_stop_pwm,
        max_pwm: cfg.max_pwm,
    }
}

/// The output of a fan's curve for a temperature.
pub fn compute_pwm(temp_c: MilliC, cfg: &FanConfig) -> (r: u8)
    ensures
        r == config_curve(*cfg).at(temp_c as int),
{
    curve_pwm(
        Curve {
            min_temp: cfg.min_temp_c,
            max_temp: cfg.max_temp_c,
            min_pwm: cfg.min_pwm,
            min_stop_pwm: cfg.min_stop_pwm,
            max_pwm: cfg.max_pwm,
        },
        temp_c,
    )
}

/// The higher of two temperatures, as far as they are known.
pub open spec fn hotter(a: Option<MilliC>, b: Option<MilliC>) -> Option<MilliC> {
    match (a, b) {
        (Some(x), Some(y)) => if x < y {
            Some(y)
        } else {
            Some(x)
        },
        (Some(_), None) => a,
        (None, _) => b,
    }
}

/// The highest of some temperatures.
pub open spec fn hottest(temps: Seq<MilliC>) -> Option<MilliC>
    decreases temps.len(),
{
    if temps.len() == 0 {
        None
    } else {
        hotter(hottest(temps.drop_last()), Some(temps.last()))
    }
}

/// The highest of some temperatures is one of them, and none is higher.
pub proof fn hottest_is_greatest(temps: Seq<MilliC>)
    ensures
        hottest(temps) is None <==> temps.len() == 0,
        hottest(temps) matches Some(m) ==> temps.contains(m) && forall|i: int|
            0 <= i < temps.len() ==> #[trigger] temps[i] <= m,
    decreases temps.len(),
{
    if temps.len() > 0 {
        let rest = temps.drop_last();
        hottest_is_greatest(rest);
        let m = hottest(temps)->0;
        if m == temps.last() {
            assert(temps[temps.len() - 1] == m);
        } else {
            let i = choose|i: int| 0 <= i < rest.len() && rest[i] == m;
            assert(temps[i] == m);
        }
        assert forall|i: int| 0 <= i < temps.len() implies #[trigger] temps[i] <= m by {
            if i < rest.len() {
                assert(temps[i] == rest[i]);
            }
        }
    }
}

fn hotter_of(a: Option<MilliC>, b: Option<MilliC>) -> (r: Option<MilliC>)
    ensures
        r == hotter(a, b),
{
    match (a, b) {
        (Some(x), Some(y)) => if x < y {
            Some(y)
        } else {
            Some(x)
        },
        (Some(_), None) => a,
        (None, _) => b,
    }
}

/// The highest of some temperatures.
pub fn hottest_of(temps: &Vec<MilliC>) -> (r: Option<MilliC>)
    ensures
        r == hottest(temps@),
{
    let mut r: Option<MilliC> = None;
    assert(temps@.take(0) =~= Seq::empty());
    for i in 0..temps.len()
        invariant
            r == hottest(temps@.take(i as int)),
    {
        assert(temps@.take(i + 1).drop_last() =~= temps@.take(i as int));
        r = hotter_of(r, Some(temps[i]));
    }
    assert(temps@.take(temps@.len() as int) =~= temps@);
    r
}

/// Whether a fan stands still: its output was switched off, or its tachometer
/// reads zero. A tachometer that cannot be read is no evidence.
pub open spec fn stands_still(last_pwm: Option<u8>, rpm: Option<u32>) -> bool {
    last_pwm is None || last_pwm == Some(0u8) || rpm == Some(0u32)
}

/// Whether a fan is being kicked.
pub open spec fn kicking(kick_until: Option<Deadline>, now: Instant) -> bool {
    kick_until matches Some(t) && now < t
}

/// Whether a fan stands still.
pub fn is_standing_still(last_pwm: Option<u8>, rpm: Option<u32>) -> (r: bool)
    ensures
        r == stands_still(last_pwm, rpm),
{
    let off = match last_pwm {
        Some(p) => p == 0,
        None => true,
    };
    let zero = match rpm {
        Some(n) => n == 0,
        None => false,
    };
    off || zero
}

/// Whether a fan is being kicked.
pub fn is_kicking(kick_until: Option<Deadline>, now: Instant) -> (r: bool)
    ensures
        r == kicking(kick_until, now),
{
    match kick_until {
        Some(t) => (now as u128) < t,
        None => false,
    }
}

/// A fan that follows the processor and the drives.
#[derive(Debug)]
pub struct FanState {
    hwmon: Option<String>,
    last_pwm: Option<u8>,
    kick_until: Option<Deadline>,
    last_drive_temp_refresh: Option<Instant>,
    cached_max_drive_temp: Option<MilliC>,
}

/// What a `FanState` holds.
pub struct FanView {
    /// The directory of the chip that drives the fan.
    pub hwmon: Option<Seq<char>>,
    /// The output that was written last.
    pub last_pwm: Option<u8>,
    /// Until when the fan is kicked.
    pub kick_until: Option<Deadline>,
    /// When the drives were last read, and the highest that they read.
    pub last_drive_temp_refresh: Option<Instant>,
    pub cached_max_drive_temp: Option<MilliC>,
}

impl View for FanState {
    type V = FanView;

    closed spec fn view(&self) -> FanView {
        FanView {
            hwmon: opt_text(self.hwmon),
            last_pwm: self.last_pwm,
            kick_until: self.kick_until,
            last_drive_temp_refresh: self.last_drive_temp_refresh,
            cached_max_drive_temp: self.cached_max_drive_temp,
        }
    }
}

/// Whether the drives are to be read again: at least a second and at least the
/// configured interval after the last time.
pub open spec fn drives_due(last: Option<Instant>, min_secs: u64, now: Instant) -> bool {
    match last {
        None => true,
        Some(t) => secs_passed(
            now,
            t,
            if min_secs < 1 {
                1
            } else {
                min_secs
            },
        ),
    }
}

impl FanView {
    /// A fan that nothing is known of.
    pub open spec fn initial() -> FanView {
        FanView {
            hwmon: None,
            last_pwm: None,
            kick_until: None,
            last_drive_temp_refresh: None,
            cached_max_drive_temp: None,
        }
    }

    /// The fan after its chip was looked for, where it was not known.
    pub open spec fn with_chip(self, enabled: bool, found: Option<Seq<char>>) -> FanView {
        if enabled && self.hwmon is None {
            FanView { hwmon: found, ..self }
        } else {
            self
        }
    }

    /// The fan after the drives were read, where that was due.
    pub open spec fn with_drives(self, cfg: FanConfig, drives: Seq<MilliC>, now: Instant) -> FanView {
        if drives_due(self.last_drive_temp_refresh, cfg.drive_temp_min_secs, now) {
            FanView {
                last_drive_temp_refresh: Some(now),
                cached_max_drive_temp: hottest(drives),
                ..self
            }
        } else {
            self
        }
    }

    /// What the fan is to do, and the state that it is in then.
    pub open spec fn decide(
        self,
        cfg: FanConfig,
        cpu: Option<MilliC>,
        drives: Seq<MilliC>,
        rpm: Option<u32>,
        now: Instant,
    ) -> (FanView, FanOrder) {
        let read = self.with_drives(cfg, drives, now);
        if !cfg.enabled || self.hwmon is None {
            (self, FanOrder::Nothing)
        } else {
            match hotter(cpu, read.cached_max_drive_temp) {
                None => (read, FanOrder::Nothing),
                Some(temp) => if kicking(self.kick_until, now) {
                    (read, FanOrder::Nothing)
                } else {
                    (
                        FanView { kick_until: None, ..read },
                        if stands_still(self.last_pwm, rpm) {
                            FanOrder::Kick(cfg.min_start_pwm)
                        } else {
                            FanOrder::Drive(config_curve(cfg).at(temp as int) as u8)
                        },
                    )
                },
            }
        }
    }

    /// The fan after an order was carried out, or could not be: then its chip is
    /// looked for again.
    pub open spec fn carried_out(self, order: FanOrder, ok: bool, now: Instant) -> FanView {
        match order {
            FanOrder::Nothing => self,
            FanOrder::Kick(pwm) => if ok {
                FanView {
                    last_pwm: Some(pwm),
                    kick_until: Some(in_secs(now, KICK_SECS)),
                    ..self
                }
            } else {
                FanView { hwmon: None, ..self }
            },
            FanOrder::Drive(pwm) => if ok {
                FanView { last_pwm: Some(pwm), ..self }
            } else {
                FanView { hwmon: None, ..self }
            },
        }
    }
}

impl FanState {
    /// A fan that nothing is known of.
    pub fn new() -> (r: Self)
        ensures
            r@ == FanView::initial(),
    {
        FanState {
            hwmon: None,
            last_pwm: None,
            kick_until: None,
            last_drive_temp_refresh: None,
            cached_max_drive_temp: None,
        }
    }

    /// Takes in the chip that was found, where none is known yet, and returns
    /// the directory of the one that is.
    pub fn resolve(&mut self, cfg: &FanConfig, found: Option<String>) -> (r: Option<String>)
        ensures
            final(self)@ == old(self)@.with_chip(cfg.enabled, opt_text(found)),
            opt_text(r) == final(self)@.hwmon,
    {
        if cfg.enabled && self.hwmon.is_none() {
            self.hwmon = found;
        }
        match &self.hwmon {
            Some(h) => Some(h.clone()),
            None => None,
        }
    }

    /// Whether `update` asks for the temperatures of the drives.
    pub fn drive_temps_due(&self, cfg: &FanConfig, now: Instant) -> (r: bool)
        ensures
            r == drives_due(self@.last_drive_temp_refresh, cfg.drive_temp_min_secs, now),
    {
        match self.last_drive_temp_refresh {
            None => true,
            Some(t) => have_secs_passed(
                now,
                t,
                if cfg.drive_temp_min_secs < 1 {
                    1
                } else {
                    cfg.drive_temp_min_secs
                },
            ),
        }
    }

    /// Makes out what the fan is to do: the hotter of the processor and the
    /// hottest drive decides. `drives` counts only where it is due.
    pub fn update(
        &mut self,
        cfg: &FanConfig,
        cpu: Option<MilliC>,
        drives: &Vec<MilliC>,
        rpm: Option<u32>,
        now: Instant,
    ) -> (r: FanOrder)
        ensures
            final(self)@ == old(self)@.decide(*cfg, cpu, drives@, rpm, now).0,
            r == old(self)@.decide(*cfg, cpu, drives@, rpm, now).1,
    {
        if !cfg.enabled || self.hwmon.is_none() {
            return FanOrder::Nothing;
        }
        let temp = match self.control_temp(cfg, cpu, drives, now) {
            Some(t) => t,
            None => return FanOrder::Nothing,
        };
        if is_kicking(self.kick_until, now) {
            return FanOrder::Nothing;
        }
        self.kick_until = None;
        proof {
            curve_stays_within(config_curve(*cfg), temp as int);
        }
        if is_standing_still(self.last_pwm, rpm) {
            FanOrder::Kick(cfg.min_start_pwm)
        } else {
            FanOrder::Drive(compute_pwm(temp, cfg))
        }
    }

    /// Takes in whether an order could be carried out.
    pub fn written(&mut self, order: FanOrder, ok: bool, now: Instant)
        ensures
            final(self)@ == old(self)@.carried_out(order, ok, now),
    {
        match order {
            FanOrder::Nothing => {},
            FanOrder::Kick(pwm) => if ok {
                self.last_pwm = Some(pwm);
                self.kick_until = Some(deadline_in(now, KICK_SECS));
            } else {
                self.hwmon = None;
            },
            FanOrder::Drive(pwm) => if ok {
                self.last_pwm = Some(pwm);
            } else {
                self.hwmon = None;
            },
        }
    }

    fn control_temp(
        &mut self,
        cfg: &FanConfig,
        cpu: Option<MilliC>,
        drives: &Vec<MilliC>,
        now: Instant,
    ) -> (r: Option<MilliC>)
        ensures
            final(self)@ == old(self)@.with_drives(*cfg, drives@, now),
            r == hotter(cpu, final(self)@.cached_max_drive_temp),
    {
        if self.drive_temps_due(cfg, now) {
            self.cached_max_drive_temp = hottest_of(drives);
            self.last_drive_temp_refresh = Some(now);
        }
        hotter_of(cpu, self.cached_max_drive_temp)
    }
}

/// What drives a running fan is the hottest of what it follows: a hot drive
/// counts though the processor is idle, and the other way round.
pub proof fn hottest_decides(
    f: FanView,
    cfg: FanConfig,
    cpu: Option<MilliC>,
    drives: Seq<MilliC>,
    rpm: Option<u32>,
    now: Instant,
)
    requires
        cfg.min_pwm <= cfg.min_stop_pwm <= cfg.max_pwm,
        f.decide(cfg, cpu, drives, rpm, now).1 is Drive,
    ensures
        ({
            let pwm = f.decide(cfg, cpu, drives, rpm, now).1->Drive_0;
            let drive = f.with_drives(cfg, drives, now).cached_max_drive_temp;
            &&& cpu matches Some(t) ==> pwm >= config_curve(cfg).at(t as int)
            &&& drive matches Some(t) ==> pwm >= config_curve(cfg).at(t as int)
        }),
{
    let c = config_curve(cfg);
    let drive = f.with_drives(cfg, drives, now).cached_max_drive_temp;
    let t = hotter(cpu, drive)->0;
    curve_stays_within(c, t as int);
    if let Some(u) = cpu {
        curve_is_monotone(c, u as int, t as int);
    }
    if let Some(u) = drive {
        curve_is_monotone(c, u as int, t as int);
    }
}

/// A fan that stands still is never left to the curve: it is kicked, with the
/// output that starts it, and then has a second to get going.
pub proof fn still_fan_is_kicked(
    f: FanView,
    cfg: FanConfig,
    cpu: Option<MilliC>,
    drives: Seq<MilliC>,
    rpm: Option<u32>,
    now: Instant,
)
    requires
        stands_still(f.last_pwm, rpm),
    ensures
        ({
            let (after, order) = f.decide(cfg, cpu, drives, rpm, now);
            &&& order == FanOrder::Nothing || order == FanOrder::Kick(cfg.min_start_pwm)
            &&& order is Kick ==> kicking(
                after.carried_out(order, true, now).kick_until,
                now,
            )
        }),
{
}

/// Whether `pwm` is the output at `t` of a curve: `low` up to `min`, `high` from
/// `max` on, and in between the whole number nearest to the straight line from
/// `start` at `min` to `high` at `max`, the upper one of two that are as near.
pub open spec fn on_curve(
    t: int,
    min: int,
    max: int,
    low: int,
    start: int,
    high: int,
    pwm: int,
) -> bool {
    let off = 2 * (pwm - start) * (max - min) - 2 * (t - min) * (high - start);
    &&& t <= min ==> pwm == low
    &&& t > min && t >= max ==> pwm == high
    &&& min < t < max ==> -(max - min) < off <= max - min
}

proof fn lemma_ramp_is_nearest(t: int, min: int, max: int, from: int, to: int)
    requires
        min < t < max,
    ensures
        ({
            let off = 2 * (ramp(t, min, max, from, to) - from) * (max - min) - 2 * (t - min) * (to
                - from);
            -(max - min) < off <= max - min
        }),
{
    let d = max - min;
    let a = t - min;
    let n = 2 * (a * to + (max - t) * from) + d;
    let q = ramp(t, min, max, from, to);
    assert(q == n / (2 * d));
    assert(n - 2 * d < 2 * d * q <= n) by (nonlinear_arith)
        requires
            d > 0,
            q == n / (2 * d),
    ;
    assert(2 * (q - from) * d - 2 * a * (to - from) == 2 * d * q - n + d) by (nonlinear_arith)
        requires
            d == max - min,
            a == t - min,
            n == 2 * (a * to + (max - t) * from) + d,
    ;
}

/// The output of a curve lies within one half of the straight line through its
/// lower temperature with `min_stop_pwm` and its upper temperature with `max_pwm`.
/// At or below the lower temperature it is `min_pwm`, at or above the upper one
/// `max_pwm`.
pub proof fn curve_follows_the_line(c: Curve, t: int)
    ensures
        t <= c.min_temp ==> c.at(t) == c.min_pwm,
        t > c.min_temp && t >= c.max_temp ==> c.at(t) == c.max_pwm,
        c.min_temp < t < c.max_temp ==> ({
            let d = c.max_temp - c.min_temp;
            let off = 2 * (c.at(t) - c.min_stop_pwm) * d - 2 * (t - c.min_temp) * (c.max_pwm
                - c.min_stop_pwm);
            -d < off <= d
        }),
{
    if c.min_temp < t < c.max_temp {
        lemma_ramp_is_nearest(
            t,
            c.min_temp as int,
            c.max_temp as int,
            c.min_stop_pwm as int,
            c.max_pwm as int,
        );
    }
}

/// The output of a fan follows the line that its settings give.
pub proof fn settings_give_the_line(cfg: FanConfig, t: int)
    ensures
        on_curve(
            t,
            cfg.min_temp_c as int,
            cfg.max_temp_c as int,
            cfg.min_pwm as int,
            cfg.min_stop_pwm as int,
            cfg.max_pwm as int,
            config_curve(cfg).at(t),
        ),
{
    curve_follows_the_line(config_curve(cfg), t);
}

/// When the drives are read: at first, and then once both a second and the
/// configured interval have gone by.
pub proof fn drives_are_read_in_time(last: Instant, min_secs: u64, now: Instant)
    ensures
        drives_due(None, min_secs, now),
        drives_due(Some(last), min_secs, now) <==> now >= last + 1_000_000_000 && now >= last
            + min_secs * 1_000_000_000,
{
}

/// What a fan is told. Without a chip, without a temperature, or while it is being
/// kicked it is told nothing. One that was switched off or reads zero is kicked
/// with the output that starts it. Any other is driven with the output that its
/// curve gives for the hotter of the processor and the hottest drive, as far as
/// they are known.
pub proof fn fan_is_told_right(
    f: FanView,
    cfg: FanConfig,
    cpu: Option<MilliC>,
    drives: Seq<MilliC>,
    rpm: Option<u32>,
    now: Instant,
)
    ensures
        ({
            let (after, order) = f.decide(cfg, cpu, drives, rpm, now);
            let drive = after.cached_max_drive_temp;
            let asked = cfg.enabled && f.hwmon is Some;
            let kicked = f.kick_until matches Some(k) && now < k;
            let still = f.last_pwm is None || f.last_pwm == Some(0u8) || rpm == Some(0u32);
            let told = asked && (cpu is Some || drive is Some) && !kicked;
            &&& !asked ==> after == f
            &&& !told ==> order == FanOrder::Nothing
            &&& told && still ==> order == FanOrder::Kick(cfg.min_start_pwm)
            &&& told && !still ==> order is Drive
            &&& told && !still && cpu is Some && (drive is Some ==> drive->0 <= cpu->0)
                ==> on_curve(
                cpu->0 as int,
                cfg.min_temp_c as int,
                cfg.max_temp_c as int,
                cfg.min_pwm as int,
                cfg.min_stop_pwm as int,
                cfg.max_pwm as int,
                order->Drive_0 as int,
            )
            &&& told && !still && drive is Some && (cpu is Some ==> cpu->0 <= drive->0)
                ==> on_curve(
                drive->0 as int,
                cfg.min_temp_c as int,
                cfg.max_temp_c as int,
                cfg.min_pwm as int,
                cfg.min_stop_pwm as int,
                cfg.max_pwm as int,
                order->Drive_0 as int,
            )
            &&& after.hwmon == f.hwmon && after.last_pwm == f.last_pwm
            &&& asked && f.last_drive_temp_refresh is None ==> after.last_drive_temp_refresh
                == Some(now)
            &&& asked && after.last_drive_temp_refresh == f.last_drive_temp_refresh && f.last_drive_temp_refresh
                != Some(now) ==> drive == f.cached_max_drive_temp
            &&& asked && after.last_drive_temp_refresh != f.last_drive_temp_refresh ==> (drive is None
                <==> drives.len() == 0) && (drive is Some ==> drives.contains(drive->0) && forall|
                i: int,
            |
                0 <= i < drives.len() ==> #[trigger] drives[i] <= drive->0)
        }),
{
    hottest_is_greatest(drives);
    let (after, order) = f.decide(cfg, cpu, drives, rpm, now);
    if order is Drive {
        let t = hotter(cpu, after.cached_max_drive_temp)->0;
        settings_give_the_line(cfg, t as int);
        curve_stays_within(config_curve(cfg), t as int);
    }
}

/// What carrying an order out comes to. A kick lasts a second; what was written is
/// remembered; a chip that cannot be written to is looked for again.
pub proof fn orders_are_remembered(f: FanView, pwm: u8, now: Instant)
    ensures
        ({
            let kicked = f.carried_out(FanOrder::Kick(pwm), true, now);
            let driven = f.carried_out(FanOrder::Drive(pwm), true, now);
            &&& kicked.last_pwm == Some(pwm) && driven.last_pwm == Some(pwm)
            &&& kicked.kick_until == Some((now + 1_000_000_000) as Deadline)
            &&& driven.kick_until == f.kick_until
            &&& kicked.hwmon == f.hwmon && driven.hwmon == f.hwmon
            &&& f.carried_out(FanOrder::Kick(pwm), false, now) == (FanView { hwmon: None, ..f })
            &&& f.carried_out(FanOrder::Drive(pwm), false, now) == (FanView { hwmon: None, ..f })
            &&& f.carried_out(FanOrder::Nothing, true, now) == f
        }),
{
}

/// A fan's chip is looked for only while it is not known, and only for a fan that is
/// enabled; nothing else changes by it.
pub proof fn chip_is_looked_for_once(s: FanView, enabled: bool, found: Option<Seq<char>>)
    ensures
        s.hwmon is Some ==> s.with_chip(enabled, found) == s,
        !enabled ==> s.with_chip(enabled, found) == s,
        enabled && s.hwmon is None ==> s.with_chip(enabled, found) == (FanView {
            hwmon: found,
            ..s
        }),
{
}

} // verus!
