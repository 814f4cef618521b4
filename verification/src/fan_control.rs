//! One controller for each configured fan: it samples the fan's sensors, each
//! at its own pace, drives the output from the hottest, restarts a fan that
//! stands still, and reports a fan that does not turn as it should.
//!
//! Reading and writing the hardware is up to the caller: it asks what is due,
//! hands in what was read, gets an order, and reports whether the order could be
//! carried out.
use crate::celsius::MilliC;
use crate::clock::{deadline_in, have_secs_passed, in_secs, secs_passed, Deadline, Instant};
use crate::config::{FanProfile, SensorSelector};
use crate::fan::{
    curve_follows_the_line, curve_pwm, curve_stays_within, is_kicking, is_standing_still, kicking,
    on_curve, stands_still, Curve, FanOrder, KICK_SECS,
};
use crate::monitor::is_about;
use crate::number::{decimal, push_decimal};
use crate::socket::{worst_of, worst_of_is_greatest, Level};
use crate::syslog::{log, logs, push_log, LogEntry, LogView, Priority};
use crate::text::opt_text;
use vstd::prelude::*;

verus! {

/// After this many attempts in a row to restart it a fan is unresponsive.
pub const UNRESPONSIVE_AFTER_STALLS: u32 = 3;

/// How a fan turns.
#[derive(Debug, Clone, Copy, PartialEq, Eq, Structural)]
pub enum FanHealth {
    Good,
    /// It turns, but slower than it should.
    Slow,
    /// It stood still though it was driven; a restart was tried.
    Stalled,
    /// It stood still again and again.
    Unresponsive,
}

impl FanHealth {
    /// The severity of a fan's health.
    pub open spec fn severity(self) -> Level {
        match self {
            FanHealth::Good => Level::Info,
            FanHealth::Slow => Level::Warn,
            FanHealth::Stalled => Level::Warn,
            FanHealth::Unresponsive => Level::Critical,
        }
    }

    /// The severity of a fan's health.
    pub fn level(self) -> (r: Level)
        ensures
            r == self.severity(),
    {
        match self {
            FanHealth::Good => Level::Info,
            FanHealth::Slow => Level::Warn,
            FanHealth::Stalled => Level::Warn,
            FanHealth::Unresponsive => Level::Critical,
        }
    }
}

/// What a sensor selector read last, and when.
#[derive(Debug, Clone, Copy, PartialEq, Eq, Structural)]
pub struct Sample {
    pub at: Option<Instant>,
    /// The highest of its connected inputs.
    pub temp: Option<MilliC>,
}

/// The controller of one fan.
pub struct FanController {
    profile: FanProfile,
    hwmon: Option<String>,
    last_tick: Option<Instant>,
    last_pwm: Option<u8>,
    kick_until: Option<Deadline>,
    samples: Vec<Sample>,
    stalls: u32,
    health: FanHealth,
    rpm: Option<u32>,
}

/// What a `FanController` holds.
pub struct ControlView {
    pub profile: FanProfile,
    /// The directory of the chip that drives the fan.
    pub hwmon: Option<Seq<char>>,
    /// When the curve was last evaluated.
    pub last_tick: Option<Instant>,
    /// The output that was written last.
    pub last_pwm: Option<u8>,
    /// Until when the fan is kicked.
    pub kick_until: Option<Deadline>,
    /// One for each sensor of the profile.
    pub samples: Seq<Sample>,
    /// How often in a row the fan stood still though it was driven.
    pub stalls: int,
    pub health: FanHealth,
    /// The speed that was read last.
    pub rpm: Option<u32>,
}

impl View for FanController {
    type V = ControlView;

    closed spec fn view(&self) -> ControlView {
        ControlView {
            profile: self.profile,
            hwmon: opt_text(self.hwmon),
            last_tick: self.last_tick,
            last_pwm: self.last_pwm,
            kick_until: self.kick_until,
            samples: self.samples@,
            stalls: self.stalls as int,
            health: self.health,
            rpm: self.rpm,
        }
    }
}

/// The curve of a fan for one of its sensors: with the sensor's own ends where
/// it has them.
pub open spec fn sensor_curve(p: FanProfile, s: SensorSelector) -> Curve {
    Curve {
        min_temp: match s.min_temp_c {
            Some(t) => t,
            None => p.min_temp_c,
        },
        max_temp: match s.max_temp_c {
            Some(t) => t,
            None => p.max_temp_c,
        },
        min_pwm: p.min_pwm,
        min_stop_pwm: p.min_stop_pwm,
        max_pwm: p.max_pwm,
    }
}

/// Whether a sensor is to be read again.
pub open spec fn sample_due(p: FanProfile, s: SensorSelector, sample: Sample, now: Instant) -> bool {
    match sample.at {
        None => true,
        Some(t) => secs_passed(
            now,
            t,
            match s.min_resample_secs {
                Some(n) => n,
                None => p.update_secs,
            },
        ),
    }
}

/// The highest output that the first `n` sensors ask for.
pub open spec fn demand(p: FanProfile, samples: Seq<Sample>, n: int) -> Option<int>
    decreases n,
{
    if n <= 0 {
        None
    } else {
        let rest = demand(p, samples, n - 1);
        match samples[n - 1].temp {
            Some(t) => {
                let own = sensor_curve(p, p.sensors@[n - 1]).at(t as int);
                match rest {
                    Some(r) => Some(
                        if r < own {
                            own
                        } else {
                            r
                        },
                    ),
                    None => Some(own),
                }
            },
            None => rest,
        }
    }
}

/// Every sensor that reads something is heeded: the output that it asks for is
/// reached.
pub proof fn demand_heeds_every_sensor(p: FanProfile, samples: Seq<Sample>, n: int, i: int)
    requires
        0 <= i < n,
        samples[i].temp is Some,
    ensures
        demand(p, samples, n) matches Some(pwm) && pwm >= sensor_curve(p, p.sensors@[i]).at(
            samples[i].temp->0 as int,
        ),
    decreases n,
{
    if i < n - 1 {
        demand_heeds_every_sensor(p, samples, n - 1, i);
    }
}

/// A sensor at the upper end of its own curve asks for the highest output,
/// whatever the others read.
pub proof fn hot_sensor_gets_full_speed(p: FanProfile, samples: Seq<Sample>, n: int, i: int)
    requires
        0 <= i < n,
        samples[i].temp matches Some(t) && t >= sensor_curve(p, p.sensors@[i]).max_temp && t
            > sensor_curve(p, p.sensors@[i]).min_temp,
    ensures
        demand(p, samples, n) matches Some(pwm) && pwm >= p.max_pwm,
{
    demand_heeds_every_sensor(p, samples, n, i);
}

/// A fan without a sensor that reads something is left alone.
pub proof fn no_reading_no_demand(p: FanProfile, samples: Seq<Sample>, n: int)
    requires
        forall|i: int| 0 <= i < n ==> (#[trigger] samples[i]).temp is None,
    ensures
        demand(p, samples, n) is None,
    decreases n,
{
    if n > 0 {
        no_reading_no_demand(p, samples, n - 1);
    }
}

proof fn lemma_demand_range(p: FanProfile, samples: Seq<Sample>, n: int)
    ensures
        demand(p, samples, n) matches Some(pwm) ==> 0 <= pwm <= 255,
    decreases n,
{
    if n > 0 {
        lemma_demand_range(p, samples, n - 1);
        if let Some(t) = samples[n - 1].temp {
            curve_stays_within(sensor_curve(p, p.sensors@[n - 1]), t as int);
        }
    }
}

/// How often in a row the fan stood still though it was driven.
pub open spec fn stalls_after(stalls: int, last_pwm: Option<u8>, rpm: Option<u32>) -> int {
    match rpm {
        Some(n) => if n > 0 || last_pwm is None || last_pwm == Some(0u8) {
            0
        } else if stalls < UNRESPONSIVE_AFTER_STALLS {
            stalls + 1
        } else {
            stalls
        },
        None => stalls,
    }
}

/// The health of a fan by its speed. A speed that cannot be read, and a fan that
/// was switched off, say nothing.
pub open spec fn health_after(
    p: FanProfile,
    health: FanHealth,
    stalls: int,
    last_pwm: Option<u8>,
    rpm: Option<u32>,
) -> FanHealth {
    match rpm {
        Some(n) => if last_pwm is None || last_pwm == Some(0u8) {
            health
        } else if n == 0 {
            if stalls >= UNRESPONSIVE_AFTER_STALLS {
                FanHealth::Unresponsive
            } else {
                FanHealth::Stalled
            }
        } else if p.min_expected_rpm matches Some(min) && n < min {
            FanHealth::Slow
        } else {
            FanHealth::Good
        },
        None => health,
    }
}

/// What there is to report when the health of a fan changes, nothing while it
/// does not.
pub open spec fn health_report(
    p: FanProfile,
    before: FanHealth,
    after: FanHealth,
    rpm: int,
) -> Seq<LogView> {
    let name = p.name@;
    if before == after {
        Seq::empty()
    } else {
        match after {
            FanHealth::Good => seq![
                log(
                    Priority::Notice,
                    "fan "@ + name + ": back to normal ("@ + decimal(rpm as nat) + " RPM)"@,
                ),
            ],
            FanHealth::Slow => seq![
                log(
                    Priority::Warning,
                    "fan "@ + name + ": only "@ + decimal(rpm as nat) + " RPM, expected at least "@
                        + decimal(
                        match p.min_expected_rpm {
                            Some(min) => min as nat,
                            None => 0,
                        },
                    ) + " RPM"@,
                ),
            ],
            FanHealth::Stalled => seq![
                log(Priority::Warning, "fan "@ + name + ": stalled (0 RPM), trying to restart it"@),
            ],
            FanHealth::Unresponsive => seq![
                log(
                    Priority::Critical,
                    "fan "@ + name + ": stalled (0 RPM), unresponsive after "@ + decimal(
                        UNRESPONSIVE_AFTER_STALLS as nat,
                    ) + " attempts to restart it"@,
                ),
            ],
        }
    }
}

/// Whether a fan is to be controlled at all.
pub open spec fn in_use(p: FanProfile) -> bool {
    p.enabled && p.pwm_chip@.len() > 0
}

impl ControlView {
    /// A controller that nothing is known to.
    pub open spec fn initial(profile: FanProfile) -> ControlView {
        ControlView {
            profile,
            hwmon: None,
            last_tick: None,
            last_pwm: None,
            kick_until: None,
            samples: Seq::new(profile.sensors@.len(), |i: int| Sample { at: None, temp: None }),
            stalls: 0,
            health: FanHealth::Good,
            rpm: None,
        }
    }

    /// What holds in every state.
    pub open spec fn wf(self) -> bool {
        &&& self.samples.len() == self.profile.sensors@.len()
        &&& 0 <= self.stalls <= UNRESPONSIVE_AFTER_STALLS
    }

    /// Whether the curve is to be evaluated: at once, and then at the fan's own
    /// pace.
    pub open spec fn due(self, now: Instant) -> bool {
        in_use(self.profile) && match self.last_tick {
            None => true,
            Some(t) => secs_passed(now, t, self.profile.update_secs),
        }
    }

    /// The controller after its chip was looked for, where it was not known.
    pub open spec fn with_chip(self, found: Option<Seq<char>>) -> ControlView {
        if in_use(self.profile) && self.hwmon is None {
            ControlView { hwmon: found, ..self }
        } else {
            self
        }
    }

    /// The samples after the sensors that were due were read.
    pub open spec fn sampled(self, read: Seq<Option<MilliC>>, now: Instant) -> Seq<Sample> {
        Seq::new(
            self.samples.len(),
            |i: int|
                if sample_due(self.profile, self.profile.sensors@[i], self.samples[i], now) {
                    Sample { at: Some(now), temp: read[i] }
                } else {
                    self.samples[i]
                },
        )
    }

    /// What the fan is to do, the state that it is in then, and what there is to
    /// report.
    pub open spec fn decide(self, read: Seq<Option<MilliC>>, rpm: Option<u32>, now: Instant) -> (
        ControlView,
        FanOrder,
        Seq<LogView>,
    ) {
        let ticked = ControlView {
            last_tick: Some(now),
            samples: self.sampled(read, now),
            rpm,
            ..self
        };
        let want = demand(self.profile, ticked.samples, ticked.samples.len() as int);
        if !self.due(now) || self.hwmon is None {
            (self, FanOrder::Nothing, Seq::empty())
        } else if want is None || kicking(self.kick_until, now) {
            (ticked, FanOrder::Nothing, Seq::empty())
        } else {
            let stalls = stalls_after(self.stalls, self.last_pwm, rpm);
            let health = health_after(self.profile, self.health, stalls, self.last_pwm, rpm);
            (
                ControlView { kick_until: None, stalls, health, ..ticked },
                if stands_still(self.last_pwm, rpm) {
                    FanOrder::Kick(self.profile.min_start_pwm)
                } else {
                    FanOrder::Drive(want->0 as u8)
                },
                health_report(
                    self.profile,
                    self.health,
                    health,
                    match rpm {
                        Some(n) => n as int,
                        None => 0,
                    },
                ),
            )
        }
    }

    /// The controller after an order was carried out, or could not be: then its
    /// chip is looked for again.
    pub open spec fn carried_out(self, order: FanOrder, ok: bool, now: Instant) -> ControlView {
        match order {
            FanOrder::Nothing => self,
            FanOrder::Kick(pwm) => if ok {
                ControlView {
                    last_pwm: Some(pwm),
                    kick_until: Some(in_secs(now, KICK_SECS)),
                    ..self
                }
            } else {
                ControlView { hwmon: None, ..self }
            },
            FanOrder::Drive(pwm) => if ok {
                ControlView { last_pwm: Some(pwm), ..self }
            } else {
                ControlView { hwmon: None, ..self }
            },
        }
    }

    /// The fan in a line: its name, its output, its speed and its health.
    pub open spec fn line(self) -> Seq<char> {
        self.profile.name@ + ": pwm="@ + (match self.last_pwm {
            Some(p) => decimal(p as nat),
            None => "?"@,
        }) + " rpm="@ + (match self.rpm {
            Some(n) => decimal(n as nat),
            None => "?"@,
        }) + " health="@ + self.health.severity().name()
    }
}

/// A change in the health of a fan is reported once: the report of a decision is
/// empty exactly where the health stays the same.
pub proof fn health_is_reported_once(
    c: ControlView,
    read: Seq<Option<MilliC>>,
    rpm: Option<u32>,
    now: Instant,
)
    ensures
        c.decide(read, rpm, now).2.len() == 0 <==> c.decide(read, rpm, now).0.health == c.health,
        c.decide(read, rpm, now).2.len() <= 1,
{
}

/// One stall alone is never critical, and a fan that turns again as it should is
/// good again.
pub proof fn single_stall_is_no_fault(
    c: ControlView,
    read: Seq<Option<MilliC>>,
    rpm: Option<u32>,
    now: Instant,
)
    requires
        c.stalls == 0,
        c.health != FanHealth::Unresponsive,
    ensures
        c.decide(read, rpm, now).0.health != FanHealth::Unresponsive,
{
}

/// A fan that turns fast enough is in good health, and its stalls are forgotten.
pub proof fn turning_fan_recovers(
    c: ControlView,
    read: Seq<Option<MilliC>>,
    rpm: u32,
    now: Instant,
)
    requires
        c.decide(read, Some(rpm), now).1 is Drive,
        rpm > 0,
        c.profile.min_expected_rpm matches Some(min) ==> rpm >= min,
    ensures
        c.decide(read, Some(rpm), now).0.health == FanHealth::Good,
        c.decide(read, Some(rpm), now).0.stalls == 0,
{
}

impl FanController {
    /// Whether the controller is in order.
    pub open spec fn wf(&self) -> bool {
        self@.wf()
    }

    /// A controller for a fan.
    pub fn new(profile: FanProfile) -> (r: Self)
        ensures
            r.wf(),
            r@ == ControlView::initial(profile),
    {
        let mut samples: Vec<Sample> = Vec::new();
        for i in 0..profile.sensors.len()
            invariant
                samples@.len() == i,
                forall|j: int| 0 <= j < i ==> samples@[j] == (Sample { at: None, temp: None }),
        {
            samples.push(Sample { at: None, temp: None });
        }
        let r = FanController {
            profile,
            hwmon: None,
            last_tick: None,
            last_pwm: None,
            kick_until: None,
            samples,
            stalls: 0,
            health: FanHealth::Good,
            rpm: None,
        };
        assert(r@.samples =~= ControlView::initial(profile).samples);
        r
    }

    fn is_in_use(&self) -> (r: bool)
        ensures
            r == in_use(self@.profile),
    {
        self.profile.enabled && crate::text::chars(self.profile.pwm_chip.as_str()).len() > 0
    }

    /// Whether the curve is to be evaluated now.
    pub fn tick_due(&self, now: Instant) -> (r: bool)
        ensures
            r == self@.due(now),
    {
        self.is_in_use() && match self.last_tick {
            None => true,
            Some(t) => have_secs_passed(now, t, self.profile.update_secs),
        }
    }

    /// The fan's settings.
    pub fn profile(&self) -> (r: &FanProfile)
        ensures
            *r == self@.profile,
    {
        &self.profile
    }

    /// Takes in the chip that was found, where none is known yet, and returns
    /// the directory of the one that is.
    pub fn resolve(&mut self, found: Option<String>) -> (r: Option<String>)
        requires
            old(self).wf(),
        ensures
            final(self).wf(),
            final(self)@ == old(self)@.with_chip(opt_text(found)),
            opt_text(r) == final(self)@.hwmon,
    {
        if self.is_in_use() && self.hwmon.is_none() {
            self.hwmon = found;
        }
        match &self.hwmon {
            Some(h) => Some(h.clone()),
            None => None,
        }
    }

    /// Whether a sensor is to be read for `tick`.
    pub fn sensor_due(&self, i: usize, now: Instant) -> (r: bool)
        requires
            self.wf(),
            i < self@.profile.sensors@.len(),
        ensures
            r == sample_due(
                self@.profile,
                self@.profile.sensors@[i as int],
                self@.samples[i as int],
                now,
            ),
    {
        match self.samples[i].at {
            None => true,
            Some(t) => have_secs_passed(
                now,
                t,
                match self.profile.sensors[i].min_resample_secs {
                    Some(n) => n,
                    None => self.profile.update_secs,
                },
            ),
        }
    }

    fn take_samples(&mut self, read: &Vec<Option<MilliC>>, now: Instant)
        requires
            old(self).wf(),
            read@.len() == old(self)@.samples.len(),
        ensures
            final(self)@ == (ControlView { samples: old(self)@.sampled(read@, now), ..old(self)@ }),
    {
        let n: usize = self.samples.len();
        for i in 0..n
            invariant
                self.wf(),
                n == old(self)@.samples.len(),
                self@.samples.len() == n,
                read@.len() == n,
                self@ == (ControlView { samples: self@.samples, ..old(self)@ }),
                forall|j: int|
                    0 <= j < i ==> self@.samples[j] == old(self)@.sampled(read@, now)[j],
                forall|j: int| i <= j < n ==> self@.samples[j] == old(self)@.samples[j],
        {
            if self.sensor_due(i, now) {
                self.samples.set(i, Sample { at: Some(now), temp: read[i] });
            }
        }
        assert(self@.samples =~= old(self)@.sampled(read@, now));
    }

    fn demanded(&self) -> (r: Option<u8>)
        requires
            self.wf(),
        ensures
            match r {
                Some(pwm) => demand(self@.profile, self@.samples, self@.samples.len() as int)
                    == Some(pwm as int),
                None => demand(self@.profile, self@.samples, self@.samples.len() as int) is None,
            },
    {
        let mut r: Option<u8> = None;
        for i in 0..self.samples.len()
            invariant
                self.wf(),
                match r {
                    Some(pwm) => demand(self@.profile, self@.samples, i as int) == Some(pwm as int),
                    None => demand(self@.profile, self@.samples, i as int) is None,
                },
        {
            if let Some(t) = self.samples[i].temp {
                let s = &self.profile.sensors[i];
                let own: u8 = curve_pwm(
                    Curve {
                        min_temp: match s.min_temp_c {
                            Some(t) => t,
                            None => self.profile.min_temp_c,
                        },
                        max_temp: match s.max_temp_c {
                            Some(t) => t,
                            None => self.profile.max_temp_c,
                        },
                        min_pwm: self.profile.min_pwm,
                        min_stop_pwm: self.profile.min_stop_pwm,
                        max_pwm: self.profile.max_pwm,
                    },
                    t,
                );
                r = match r {
                    Some(p) => Some(
                        if p < own {
                            own
                        } else {
                            p
                        },
                    ),
                    None => Some(own),
                };
            }
        }
        r
    }

    /// Makes out what the fan is to do. `read` holds for each sensor of the
    /// profile what it reads, the highest of its connected inputs; it counts
    /// only where the sensor is due.
    pub fn tick(
        &mut self,
        read: &Vec<Option<MilliC>>,
        rpm: Option<u32>,
        now: Instant,
        out: &mut Vec<LogEntry>,
    ) -> (r: FanOrder)
        requires
            old(self).wf(),
            read@.len() == old(self)@.profile.sensors@.len(),
        ensures
            final(self).wf(),
            final(self)@ == old(self)@.decide(read@, rpm, now).0,
            r == old(self)@.decide(read@, rpm, now).1,
            logs(final(out)@) == logs(old(out)@) + old(self)@.decide(read@, rpm, now).2,
    {
        assert(logs(out@) + Seq::empty() =~= logs(out@));
        if !self.tick_due(now) || self.hwmon.is_none() {
            return FanOrder::Nothing;
        }
        self.take_samples(read, now);
        self.last_tick = Some(now);
        self.rpm = rpm;
        let want: u8 = match self.demanded() {
            Some(pwm) => pwm,
            None => return FanOrder::Nothing,
        };
        if is_kicking(self.kick_until, now) {
            return FanOrder::Nothing;
        }
        self.kick_until = None;
        self.judge(rpm, out);
        if is_standing_still(self.last_pwm, rpm) {
            FanOrder::Kick(self.profile.min_start_pwm)
        } else {
            FanOrder::Drive(want)
        }
    }

    /// Takes in the speed of the fan, and reports where its health changes.
    fn judge(&mut self, rpm: Option<u32>, out: &mut Vec<LogEntry>)
        requires
            old(self).wf(),
        ensures
            final(self).wf(),
            ({
                let c = old(self)@;
                let stalls = stalls_after(c.stalls, c.last_pwm, rpm);
                let health = health_after(c.profile, c.health, stalls, c.last_pwm, rpm);
                &&& final(self)@ == (ControlView { stalls, health, ..c })
                &&& logs(final(out)@) == logs(old(out)@) + health_report(
                    c.profile,
                    c.health,
                    health,
                    match rpm {
                        Some(n) => n as int,
                        None => 0,
                    },
                )
            }),
    {
        assert(logs(out@) + Seq::empty() =~= logs(out@));
        let n: u32 = match rpm {
            Some(n) => n,
            None => return ,
        };
        let off = match self.last_pwm {
            Some(p) => p == 0,
            None => true,
        };
        if off {
            self.stalls = 0;
            return ;
        }
        let health = if n == 0 {
            if self.stalls < UNRESPONSIVE_AFTER_STALLS {
                self.stalls = self.stalls + 1;
            }
            if self.stalls >= UNRESPONSIVE_AFTER_STALLS {
                FanHealth::Unresponsive
            } else {
                FanHealth::Stalled
            }
        } else {
            self.stalls = 0;
            let slow = match self.profile.min_expected_rpm {
                Some(min) => n < min,
                None => false,
            };
            if slow {
                FanHealth::Slow
            } else {
                FanHealth::Good
            }
        };
        let before = self.health;
        self.health = health;
        self.report(before, n, out);
    }

    fn report(&self, before: FanHealth, rpm: u32, out: &mut Vec<LogEntry>)
        ensures
            logs(final(out)@) == logs(old(out)@) + health_report(
                self@.profile,
                before,
                self@.health,
                rpm as int,
            ),
    {
        let ghost want = health_report(self@.profile, before, self@.health, rpm as int);
        assert(logs(out@) + Seq::empty() =~= logs(out@));
        if before == self.health {
            return ;
        }
        let mut text = "fan ".to_owned();
        text.append(self.profile.name.as_str());
        let priority = match self.health {
            FanHealth::Good => {
                text.append(": back to normal (");
                push_decimal(&mut text, rpm as u64);
                text.append(" RPM)");
                Priority::Notice
            },
            FanHealth::Slow => {
                text.append(": only ");
                push_decimal(&mut text, rpm as u64);
                text.append(" RPM, expected at least ");
                let min: u32 = match self.profile.min_expected_rpm {
                    Some(min) => min,
                    None => 0,
                };
                push_decimal(&mut text, min as u64);
                text.append(" RPM");
                Priority::Warning
            },
            FanHealth::Stalled => {
                text.append(": stalled (0 RPM), trying to restart it");
                Priority::Warning
            },
            FanHealth::Unresponsive => {
                text.append(": stalled (0 RPM), unresponsive after ");
                push_decimal(&mut text, UNRESPONSIVE_AFTER_STALLS as u64);
                text.append(" attempts to restart it");
                Priority::Critical
            },
        };
        assert(want =~= seq![log(priority, text@)]);
        push_log(out, priority, text);
        assert(logs(out@) =~= logs(old(out)@) + want);
    }

    /// Takes in whether an order could be carried out.
    pub fn written(&mut self, order: FanOrder, ok: bool, now: Instant)
        requires
            old(self).wf(),
        ensures
            final(self).wf(),
            final(self)@ == old(self)@.carried_out(order, ok, now),
    {
        match order {
            FanOrder::Nothing => {},
            FanOrder::Kick(pwm) => if ok {
                self.last_pwm = Some(pwm);
                self.kick_until = Some(deadline_in(now, KICK_SECS));
            } else {
                self.hwmon = None;
            },
            FanOrder::Drive(pwm) => if ok {
                self.last_pwm = Some(pwm);
            } else {
                self.hwmon = None;
            },
        }
    }

    /// The severity of the fan's health.
    pub fn health_level(&self) -> (r: Level)
        ensures
            r == self@.health.severity(),
    {
        self.health.level()
    }

    /// The fan in a line, for the report.
    pub fn status_line(&self) -> (r: String)
        ensures
            r@ == self@.line(),
    {
        let mut r = self.profile.name.clone();
        r.append(": pwm=");
        match self.last_pwm {
            Some(p) => push_decimal(&mut r, p as u64),
            None => r.append("?"),
        }
        r.append(" rpm=");
        match self.rpm {
            Some(n) => push_decimal(&mut r, n as u64),
            None => r.append("?"),
        }
        r.append(" health=");
        r.append(self.health.level().label());
        r
    }
}

/// The levels of some fans.
pub open spec fn fan_levels(fans: Seq<FanController>) -> Seq<Level> {
    fans.map_values(|f: FanController| f@.health.severity())
}

/// The worst health of a fan, `Info` where there is none.
pub fn worst_fan_health(fans: &Vec<FanController>) -> (r: Level)
    ensures
        r == worst_of(fan_levels(fans@)),
{
    let mut worst = Level::Info;
    let ghost all = fan_levels(fans@);
    assert(all.take(0) =~= Seq::empty());
    for i in 0..fans.len()
        invariant
            all == fan_levels(fans@),
            worst == worst_of(all.take(i as int)),
    {
        assert(all.take(i + 1).drop_last() =~= all.take(i as int));
        assert(all.take(i + 1).last() == fans@[i as int]@.health.severity());
        worst = worst.worse(fans[i].health_level());
    }
    assert(all.take(all.len() as int) =~= all);
    worst
}

/// The lower end of a sensor's curve: its own where it has one, else the fan's.
pub open spec fn low_end(p: FanProfile, i: int) -> int {
    match p.sensors@[i].min_temp_c {
        Some(t) => t as int,
        None => p.min_temp_c as int,
    }
}

/// The upper end of a sensor's curve: its own where it has one, else the fan's.
pub open spec fn high_end(p: FanProfile, i: int) -> int {
    match p.sensors@[i].max_temp_c {
        Some(t) => t as int,
        None => p.max_temp_c as int,
    }
}

/// Whether `pwm` is the output that sensor `i` asks for at its temperature.
pub open spec fn asks_for(p: FanProfile, samples: Seq<Sample>, i: int, pwm: int) -> bool {
    samples[i].temp is Some && on_curve(
        samples[i].temp->0 as int,
        low_end(p, i),
        high_end(p, i),
        p.min_pwm as int,
        p.min_stop_pwm as int,
        p.max_pwm as int,
        pwm,
    )
}

proof fn lemma_asks_for(p: FanProfile, samples: Seq<Sample>, i: int)
    requires
        samples[i].temp is Some,
    ensures
        asks_for(p, samples, i, sensor_curve(p, p.sensors@[i]).at(samples[i].temp->0 as int)),
{
    curve_follows_the_line(sensor_curve(p, p.sensors@[i]), samples[i].temp->0 as int);
}

/// The output that a fan is to have is one that a sensor asks for, and no sensor asks
/// for more.
pub proof fn demand_is_the_greatest(p: FanProfile, samples: Seq<Sample>, n: int)
    requires
        0 <= n,
    ensures
        demand(p, samples, n) is None <==> forall|i: int|
            0 <= i < n ==> (#[trigger] samples[i]).temp is None,
        demand(p, samples, n) is Some ==> exists|i: int|
            0 <= i < n && #[trigger] asks_for(p, samples, i, demand(p, samples, n)->0),
        forall|i: int|
            0 <= i < n && (#[trigger] samples[i]).temp is Some ==> exists|own: int| #[trigger]
                asks_for(p, samples, i, own) && own <= demand(p, samples, n)->0,
    decreases n,
{
    if n > 0 {
        demand_is_the_greatest(p, samples, n - 1);
        let rest = demand(p, samples, n - 1);
        let all = demand(p, samples, n);
        if samples[n - 1].temp is Some {
            lemma_asks_for(p, samples, n - 1);
            let own = sensor_curve(p, p.sensors@[n - 1]).at(samples[n - 1].temp->0 as int);
            assert(all is Some && own <= all->0);
            if all == Some(own) {
                assert(asks_for(p, samples, n - 1, all->0));
            }
        }
        if rest is Some && all == rest {
            let i = choose|i: int| 0 <= i < n - 1 && #[trigger] asks_for(p, samples, i, rest->0);
            assert(asks_for(p, samples, i, all->0));
        }
        assert forall|i: int| 0 <= i < n && (#[trigger] samples[i]).temp is Some implies exists|
            own: int,
        | #[trigger] asks_for(p, samples, i, own) && own <= all->0 by {
            if i < n - 1 {
                let own = choose|own: int| #[trigger]
                    asks_for(p, samples, i, own) && own <= rest->0;
                assert(asks_for(p, samples, i, own) && own <= all->0);
            } else {
                lemma_asks_for(p, samples, n - 1);
            }
        }
        if all is None {
            assert forall|i: int| 0 <= i < n implies (#[trigger] samples[i]).temp is None by {
                if i < n - 1 {
                    assert(rest is None);
                }
            }
        }
    }
}

/// When a fan is looked after: where it is in use, at once, and then at its own pace.
/// And when each of its sensors is read: at first, and then at the sensor's own pace
/// where it has one, else at the fan's.
pub proof fn fan_is_looked_after_in_time(
    c: ControlView,
    read: Seq<Option<MilliC>>,
    now: Instant,
    i: int,
)
    requires
        0 <= i < c.samples.len(),
    ensures
        ({
            let p = c.profile;
            let pace = match p.sensors@[i].min_resample_secs {
                Some(n) => n,
                None => p.update_secs,
            };
            let due = match c.samples[i].at {
                None => true,
                Some(t) => pace == 0 || now >= t + pace * 1_000_000_000,
            };
            &&& c.due(now) <==> p.enabled && p.pwm_chip@.len() > 0 && (c.last_tick is None
                || p.update_secs == 0 || now >= c.last_tick->0 + p.update_secs * 1_000_000_000)
            &&& sample_due(p, p.sensors@[i], c.samples[i], now) <==> due
            &&& due ==> c.sampled(read, now)[i] == (Sample { at: Some(now), temp: read[i] })
            &&& !due ==> c.sampled(read, now)[i] == c.samples[i]
            &&& c.sampled(read, now).len() == c.samples.len()
        }),
{
}

/// What a fan is told. Nothing where it is not due, its chip is not known, no sensor
/// reads anything, or it is being kicked. A kick with the output that starts it where
/// it was switched off or reads zero. Else to be driven with the output that its
/// sensors ask for.
pub proof fn controlled_fan_is_told_right(
    c: ControlView,
    read: Seq<Option<MilliC>>,
    rpm: Option<u32>,
    now: Instant,
)
    requires
        c.wf(),
    ensures
        ({
            let (after, order, out) = c.decide(read, rpm, now);
            let asked = c.due(now) && c.hwmon is Some;
            let samples = c.sampled(read, now);
            let want = demand(c.profile, samples, samples.len() as int);
            let kicked = c.kick_until matches Some(k) && now < k;
            let still = c.last_pwm is None || c.last_pwm == Some(0u8) || rpm == Some(0u32);
            let told = asked && want is Some && !kicked;
            &&& !asked ==> after == c
            &&& asked ==> after.last_tick == Some(now) && after.samples == samples && after.rpm
                == rpm
            &&& !told ==> order == FanOrder::Nothing && out.len() == 0 && after.health == c.health
                && after.stalls == c.stalls
            &&& told && still ==> order == FanOrder::Kick(c.profile.min_start_pwm)
            &&& told && !still ==> order is Drive && order->Drive_0 == want->0
            &&& told ==> after.kick_until is None
            &&& after.profile == c.profile && after.hwmon == c.hwmon && after.last_pwm
                == c.last_pwm
        }),
{
    let samples = c.sampled(read, now);
    lemma_demand_range(c.profile, samples, samples.len() as int);
}

/// How the health of a fan follows from its speed, where it is told something. One that
/// stands still though it was driven has stalled, and is unresponsive from the third
/// time in a row on. One that turns slower than it should is slow, and any other that
/// turns is good. A speed that cannot be read, and a fan that was switched off, say
/// nothing.
pub proof fn health_follows_the_speed(
    c: ControlView,
    read: Seq<Option<MilliC>>,
    rpm: Option<u32>,
    now: Instant,
)
    requires
        c.wf(),
        !(c.decide(read, rpm, now).1 is Nothing),
    ensures
        ({
            let after = c.decide(read, rpm, now).0;
            let driven = c.last_pwm is Some && c.last_pwm != Some(0u8);
            let slow = c.profile.min_expected_rpm is Some && rpm is Some && rpm->0
                < c.profile.min_expected_rpm->0;
            &&& driven && rpm == Some(0u32) ==> after.health == (if c.stalls >= 2 {
                FanHealth::Unresponsive
            } else {
                FanHealth::Stalled
            })
            &&& driven && rpm == Some(0u32) ==> after.stalls == (if c.stalls >= 2 {
                3
            } else {
                c.stalls + 1
            })
            &&& driven && rpm is Some && rpm->0 > 0 ==> after.stalls == 0 && after.health == (
            if slow {
                FanHealth::Slow
            } else {
                FanHealth::Good
            })
            &&& rpm is None || !driven ==> after.health == c.health
            &&& rpm is None ==> after.stalls == c.stalls
            &&& !driven && rpm is Some ==> after.stalls == 0
        }),
{
}

/// How severe the health of a fan is, and what is logged when it changes: a notice when
/// it is good again, a warning when it is slow or has stalled, and a critical entry when
/// it is unresponsive; about the fan by its name.
pub proof fn health_is_logged_as_severe_as_it_is(
    p: FanProfile,
    before: FanHealth,
    after: FanHealth,
    rpm: int,
)
    ensures
        after.severity() == match after {
            FanHealth::Good => Level::Info,
            FanHealth::Slow => Level::Warn,
            FanHealth::Stalled => Level::Warn,
            FanHealth::Unresponsive => Level::Critical,
        },
        ({
            let out = health_report(p, before, after, rpm);
            &&& before == after ==> out.len() == 0
            &&& before != after ==> out.len() == 1 && out[0].priority == match after {
                FanHealth::Good => Priority::Notice,
                FanHealth::Slow => Priority::Warning,
                FanHealth::Stalled => Priority::Warning,
                FanHealth::Unresponsive => Priority::Critical,
            }
            &&& before != after ==> is_about(out[0].text, "fan "@ + p.name@)
        }),
{
    let out = health_report(p, before, after, rpm);
    let about = "fan "@ + p.name@;
    if before != after {
        assert(out[0].text.take(about.len() as int) =~= about);
    }
}

/// What carrying an order out comes to. A kick lasts a second; what was written is
/// remembered; a chip that cannot be written to is looked for again.
pub proof fn control_orders_are_remembered(c: ControlView, pwm: u8, now: Instant)
    ensures
        c.carried_out(FanOrder::Kick(pwm), true, now) == (ControlView {
            last_pwm: Some(pwm),
            kick_until: Some((now + 1_000_000_000) as Deadline),
            ..c
        }),
        c.carried_out(FanOrder::Drive(pwm), true, now) == (ControlView {
            last_pwm: Some(pwm),
            ..c
        }),
        c.carried_out(FanOrder::Kick(pwm), false, now) == (ControlView { hwmon: None, ..c }),
        c.carried_out(FanOrder::Drive(pwm), false, now) == (ControlView { hwmon: None, ..c }),
        c.carried_out(FanOrder::Nothing, true, now) == c,
{
}

/// The worst health of some fans is critical exactly where one is unresponsive, and a
/// warning exactly where none is and one is slow or has stalled.
pub proof fn worst_fan_counts(fans: Seq<FanController>)
    ensures
        ({
            let worst = worst_of(fan_levels(fans));
            let bad = exists|i: int|
                0 <= i < fans.len() && (#[trigger] fans[i])@.health == FanHealth::Unresponsive;
            let poor = exists|i: int|
                0 <= i < fans.len() && ((#[trigger] fans[i])@.health == FanHealth::Slow
                    || fans[i]@.health == FanHealth::Stalled);
            &&& worst == Level::Critical <==> bad
            &&& worst == Level::Warn <==> !bad && poor
            &&& worst == Level::Info <==> !bad && !poor
        }),
{
    let levels = fan_levels(fans);
    let worst = worst_of(levels);
    worst_of_is_greatest(levels);
    assert forall|i: int| 0 <= i < fans.len() implies (#[trigger] fans[i])@.health.severity().rank()
        <= worst.rank() by {
        assert(levels[i].rank() <= worst.rank());
    }
    if worst != Level::Info {
        let i = choose|i: int| 0 <= i < levels.len() && levels[i] == worst;
        assert(fans[i]@.health.severity() == worst);
    }
}

/// A controller's chip is looked for only while it is not known, and only where the fan
/// is in use; nothing else changes by it.
pub proof fn controlled_chip_is_looked_for_once(s: ControlView, found: Option<Seq<char>>)
    ensures
        s.hwmon is Some ==> s.with_chip(found) == s,
        !in_use(s.profile) ==> s.with_chip(found) == s,
        in_use(s.profile) && s.hwmon is None ==> s.with_chip(found) == (ControlView {
            hwmon: found,
            ..s
        }),
{
}

} // verus!
