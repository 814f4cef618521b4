//! Health monitoring: what to report to the system log as the temperatures, the
//! pools and the drives change.
//!
//! A condition is reported once when it comes up and once when it clears, never
//! again while it lasts. What the status LED needs to know is the current state
//! and is kept beside it.
use crate::celsius::{push_tenths_celsius, tenths_celsius, MilliC};
use crate::clock::{have_secs_passed, secs_passed, Instant};
use crate::config::{resolve_temp_threshold, thresholds_for, Config, TemperatureConfig};
use crate::led::BayState;
use crate::number::{decimal, push_decimal};
use crate::socket::Level;
use crate::syslog::{log, logs, push_log, LogEntry, LogView, Priority};
use crate::table::Table;
use crate::text::{pairs, same};
use vstd::prelude::*;

verus! {

/// A temperature sensor that is connected, and what it reads.
#[derive(Debug, Clone)]
pub struct SensorReading {
    /// The chip that the sensor belongs to.
    pub chip: String,
    /// What the log calls the sensor.
    pub label: String,
    pub temp: MilliC,
}

/// What a `SensorReading` holds.
pub struct ReadingView {
    pub chip: Seq<char>,
    pub label: Seq<char>,
    pub temp: MilliC,
}

impl View for SensorReading {
    type V = ReadingView;

    open spec fn view(&self) -> ReadingView {
        ReadingView { chip: self.chip@, label: self.label@, temp: self.temp }
    }
}

/// What a sequence of readings holds.
pub open spec fn readings(s: Seq<SensorReading>) -> Seq<ReadingView> {
    s.map_values(|r: SensorReading| r@)
}

/// What the monitor knows.
pub struct MonitorView {
    /// The level of each sensor that was connected at the last check.
    pub temps: Map<Seq<char>, Level>,
    /// The last known health of each pool.
    pub pools: Map<Seq<char>, Seq<char>>,
    /// The last known state of each bay.
    pub bays: Map<u32, BayState>,
    /// When the temperatures were last checked.
    pub last_temp_check: Option<Instant>,
}

/// The level of a temperature under the given limits.
pub open spec fn level_under(temp: MilliC, warn: MilliC, critical: MilliC) -> Level {
    if temp >= critical {
        Level::Critical
    } else if temp >= warn {
        Level::Warn
    } else {
        Level::Info
    }
}

/// The level of a reading.
pub open spec fn reading_level(cfg: TemperatureConfig, r: ReadingView) -> Level {
    let (warn, critical) = thresholds_for(cfg, r.chip);
    level_under(r.temp, warn, critical)
}

/// The levels after some readings.
pub open spec fn temps_after(
    temps: Map<Seq<char>, Level>,
    cfg: TemperatureConfig,
    rs: Seq<ReadingView>,
) -> Map<Seq<char>, Level>
    decreases rs.len(),
{
    if rs.len() == 0 {
        temps
    } else {
        temps_after(temps, cfg, rs.drop_last()).insert(
            rs.last().label,
            reading_level(cfg, rs.last()),
        )
    }
}

/// What there is to report of a reading, by the level that its sensor had.
pub open spec fn temp_report(
    prev: Option<Level>,
    cfg: TemperatureConfig,
    r: ReadingView,
) -> Seq<LogView> {
    let (warn, critical) = thresholds_for(cfg, r.chip);
    let level = reading_level(cfg, r);
    if prev == Some(level) {
        Seq::empty()
    } else {
        match level {
            Level::Critical => seq![
                log(
                    Priority::Critical,
                    r.label + ": "@ + tenths_celsius(r.temp as int)
                        + "C, at or above critical threshold ("@ + tenths_celsius(critical as int)
                        + "C)"@,
                ),
            ],
            Level::Warn => seq![
                log(
                    Priority::Warning,
                    r.label + ": "@ + tenths_celsius(r.temp as int)
                        + "C, at or above warning threshold ("@ + tenths_celsius(warn as int)
                        + "C)"@,
                ),
            ],
            _ => if prev is Some {
                seq![
                    log(
                        Priority::Notice,
                        r.label + ": back to "@ + tenths_celsius(r.temp as int)
                            + "C, below warning threshold"@,
                    ),
                ]
            } else {
                Seq::empty()
            },
        }
    }
}

/// The value of a key, where it has one.
pub open spec fn lookup<K, V>(m: Map<K, V>, k: K) -> Option<V> {
    if m.contains_key(k) {
        Some(m[k])
    } else {
        None
    }
}

/// What there is to report of some readings, taken one after the other.
pub open spec fn temps_report(
    temps: Map<Seq<char>, Level>,
    cfg: TemperatureConfig,
    rs: Seq<ReadingView>,
) -> Seq<LogView>
    decreases rs.len(),
{
    if rs.len() == 0 {
        Seq::empty()
    } else {
        temps_report(temps, cfg, rs.drop_last()) + temp_report(
            lookup(temps_after(temps, cfg, rs.drop_last()), rs.last().label),
            cfg,
            rs.last(),
        )
    }
}

/// The labels of some readings.
pub open spec fn labels(rs: Seq<ReadingView>) -> Set<Seq<char>> {
    Set::new(|l: Seq<char>| exists|i: int| 0 <= i < rs.len() && #[trigger] rs[i].label == l)
}

/// The healths after some pools were looked at.
pub open spec fn pools_after(
    pools: Map<Seq<char>, Seq<char>>,
    seen: Seq<(Seq<char>, Seq<char>)>,
) -> Map<Seq<char>, Seq<char>>
    decreases seen.len(),
{
    if seen.len() == 0 {
        pools
    } else {
        pools_after(pools, seen.drop_last()).insert(seen.last().0, seen.last().1)
    }
}

/// What there is to report of a pool, by the health that it had.
pub open spec fn pool_report(
    prev: Option<Seq<char>>,
    name: Seq<char>,
    health: Seq<char>,
) -> Seq<LogView> {
    if prev == Some(health) {
        Seq::empty()
    } else if health == "ONLINE"@ {
        match prev {
            Some(p) => seq![
                log(Priority::Notice, "pool "@ + name + ": back to ONLINE (was "@ + p + ")"@),
            ],
            None => Seq::empty(),
        }
    } else if health == "DEGRADED"@ {
        seq![log(Priority::Warning, "pool "@ + name + ": DEGRADED"@)]
    } else {
        seq![log(Priority::Critical, "pool "@ + name + ": "@ + health)]
    }
}

/// What there is to report of some pools, taken one after the other.
pub open spec fn pools_report(
    pools: Map<Seq<char>, Seq<char>>,
    seen: Seq<(Seq<char>, Seq<char>)>,
) -> Seq<LogView>
    decreases seen.len(),
{
    if seen.len() == 0 {
        Seq::empty()
    } else {
        pools_report(pools, seen.drop_last()) + pool_report(
            lookup(pools_after(pools, seen.drop_last()), seen.last().0),
            seen.last().0,
            seen.last().1,
        )
    }
}

/// The states after some bays were looked at.
pub open spec fn bays_after(
    bays: Map<u32, BayState>,
    seen: Seq<(u32, BayState)>,
) -> Map<u32, BayState>
    decreases seen.len(),
{
    if seen.len() == 0 {
        bays
    } else {
        bays_after(bays, seen.drop_last()).insert(seen.last().0, seen.last().1)
    }
}

/// What there is to report of a bay, by the state that it had.
pub open spec fn bay_report(prev: Option<BayState>, bay: u32, state: BayState) -> Seq<LogView> {
    if prev == Some(state) {
        Seq::empty()
    } else if state == BayState::Failed {
        seq![log(Priority::Critical, "bay "@ + decimal(bay as nat) + ": SMART reports FAILED"@)]
    } else if prev == Some(BayState::Failed) {
        seq![
            log(
                Priority::Notice,
                "bay "@ + decimal(bay as nat) + ": SMART no longer reports FAILED"@,
            ),
        ]
    } else {
        Seq::empty()
    }
}

/// What there is to report of some bays, taken one after the other.
pub open spec fn bays_report(
    bays: Map<u32, BayState>,
    seen: Seq<(u32, BayState)>,
) -> Seq<LogView>
    decreases seen.len(),
{
    if seen.len() == 0 {
        Seq::empty()
    } else {
        bays_report(bays, seen.drop_last()) + bay_report(
            lookup(bays_after(bays, seen.drop_last()), seen.last().0),
            seen.last().0,
            seen.last().1,
        )
    }
}

/// Whether some sensor has a level.
pub open spec fn some_at(temps: Map<Seq<char>, Level>, level: Level) -> bool {
    exists|k: Seq<char>| #[trigger] temps.contains_key(k) && temps[k] == level
}

/// The highest level that some sensor has.
pub open spec fn worst_temp(temps: Map<Seq<char>, Level>) -> Level {
    if some_at(temps, Level::Critical) {
        Level::Critical
    } else if some_at(temps, Level::Error) {
        Level::Error
    } else if some_at(temps, Level::Warn) {
        Level::Warn
    } else {
        Level::Info
    }
}

/// Whether some bay reports a failure.
pub open spec fn some_bay_failed(bays: Map<u32, BayState>) -> bool {
    exists|b: u32| #[trigger] bays.contains_key(b) && bays[b] == BayState::Failed
}

/// Whether the time for the next check of the temperatures has come: at least a
/// second and at least the configured interval after the last.
pub open spec fn temp_check_due(last: Option<Instant>, min_secs: u64, now: Instant) -> bool {
    match last {
        None => true,
        Some(t) => secs_passed(
            now,
            t,
            if min_secs < 1 {
                1
            } else {
                min_secs
            },
        ),
    }
}

impl MonitorView {
    /// What is known before anything was looked at.
    pub open spec fn initial() -> MonitorView {
        MonitorView {
            temps: Map::empty(),
            pools: Map::empty(),
            bays: Map::empty(),
            last_temp_check: None,
        }
    }

    /// What is known after the temperatures were read. A sensor that is gone is
    /// no longer tracked.
    pub open spec fn with_temps(self, cfg: TemperatureConfig, rs: Seq<ReadingView>) -> MonitorView {
        MonitorView { temps: temps_after(self.temps, cfg, rs).restrict(labels(rs)), ..self }
    }

    /// What is known after the pools were looked at.
    pub open spec fn with_pools(self, seen: Seq<(Seq<char>, Seq<char>)>) -> MonitorView {
        MonitorView { pools: pools_after(self.pools, seen), ..self }
    }

    /// What is known after the bays were looked at.
    pub open spec fn with_bays(self, seen: Seq<(u32, BayState)>) -> MonitorView {
        MonitorView { bays: bays_after(self.bays, seen), ..self }
    }

    /// What is known after the temperatures could have been read.
    pub open spec fn with_temps_if_due(
        self,
        cfg: Config,
        now: Instant,
        rs: Seq<ReadingView>,
    ) -> MonitorView {
        if temp_check_due(self.last_temp_check, cfg.refresh.temperature_min_secs, now) {
            MonitorView { last_temp_check: Some(now), ..self.with_temps(cfg.temperature, rs) }
        } else {
            self
        }
    }

    /// What there is to report where the temperatures could have been read.
    pub open spec fn temps_report_if_due(
        self,
        cfg: Config,
        now: Instant,
        rs: Seq<ReadingView>,
    ) -> Seq<LogView> {
        if temp_check_due(self.last_temp_check, cfg.refresh.temperature_min_secs, now) {
            temps_report(self.temps, cfg.temperature, rs)
        } else {
            Seq::empty()
        }
    }
}

/// Keeps track of the machine's health.
pub struct HealthMonitor {
    temp_levels: Table<String, Level>,
    pool_healths: Table<String, String>,
    bay_states: Table<u32, BayState>,
    last_temp_check: Option<Instant>,
}

impl View for HealthMonitor {
    type V = MonitorView;

    closed spec fn view(&self) -> MonitorView {
        MonitorView {
            temps: self.temp_levels@,
            pools: self.pool_healths@.map_values(|h: String| h@),
            bays: self.bay_states@,
            last_temp_check: self.last_temp_check,
        }
    }
}

fn level_of_temp(temp: MilliC, warn: MilliC, critical: MilliC) -> (r: Level)
    ensures
        r == level_under(temp, warn, critical),
{
    if temp >= critical {
        Level::Critical
    } else if temp >= warn {
        Level::Warn
    } else {
        Level::Info
    }
}

fn limit_text(label: &str, temp: MilliC, words: &str, limit: MilliC) -> (r: String)
    ensures
        r@ == label@ + ": "@ + tenths_celsius(temp as int) + words@ + tenths_celsius(limit as int)
            + "C)"@,
{
    let mut r = label.to_owned();
    r.append(": ");
    push_tenths_celsius(&mut r, temp);
    r.append(words);
    push_tenths_celsius(&mut r, limit);
    r.append("C)");
    r
}

/// Reports one reading.
fn report_temp(
    out: &mut Vec<LogEntry>,
    prev: Option<Level>,
    cfg: &TemperatureConfig,
    r: &SensorReading,
)
    ensures
        logs(final(out)@) == logs(old(out)@) + temp_report(prev, *cfg, r@),
{
    let (warn, critical) = resolve_temp_threshold(cfg, r.chip.as_str());
    let level = level_of_temp(r.temp, warn, critical);
    let unchanged = match prev {
        Some(p) => p == level,
        None => false,
    };
    if !unchanged {
        match level {
            Level::Critical => {
                let text = limit_text(
                    r.label.as_str(),
                    r.temp,
                    "C, at or above critical threshold (",
                    critical,
                );
                push_log(out, Priority::Critical, text);
            },
            Level::Warn => {
                let text = limit_text(
                    r.label.as_str(),
                    r.temp,
                    "C, at or above warning threshold (",
                    warn,
                );
                push_log(out, Priority::Warning, text);
            },
            _ => {
                if prev.is_some() {
                    let mut text = r.label.clone();
                    text.append(": back to ");
                    push_tenths_celsius(&mut text, r.temp);
                    text.append("C, below warning threshold");
                    push_log(out, Priority::Notice, text);
                }
            },
        }
    }
    assert(logs(out@) =~= logs(old(out)@) + temp_report(prev, *cfg, r@));
}

fn report_pool(out: &mut Vec<LogEntry>, prev: Option<String>, name: &str, health: &str)
    ensures
        logs(final(out)@) == logs(old(out)@) + pool_report(
            match prev {
                Some(p) => Some(p@),
                None => None,
            },
            name@,
            health@,
        ),
{
    let unchanged = match &prev {
        Some(p) => same(p.as_str(), health),
        None => false,
    };
    if !unchanged {
        let mut text = "pool ".to_owned();
        text.append(name);
        if same(health, "ONLINE") {
            if let Some(p) = &prev {
                text.append(": back to ONLINE (was ");
                text.append(p.as_str());
                text.append(")");
                push_log(out, Priority::Notice, text);
            }
        } else if same(health, "DEGRADED") {
            text.append(": DEGRADED");
            push_log(out, Priority::Warning, text);
        } else {
            text.append(": ");
            text.append(health);
            push_log(out, Priority::Critical, text);
        }
    }
    assert(logs(out@) =~= logs(old(out)@) + pool_report(
        match prev {
            Some(p) => Some(p@),
            None => None,
        },
        name@,
        health@,
    ));
}

fn report_bay(out: &mut Vec<LogEntry>, prev: Option<BayState>, bay: u32, state: BayState)
    ensures
        logs(final(out)@) == logs(old(out)@) + bay_report(prev, bay, state),
{
    let unchanged = match prev {
        Some(p) => p == state,
        None => false,
    };
    let was_failed = match prev {
        Some(p) => p == BayState::Failed,
        None => false,
    };
    if !unchanged {
        let mut text = "bay ".to_owned();
        push_decimal(&mut text, bay as u64);
        if state == BayState::Failed {
            text.append(": SMART reports FAILED");
            push_log(out, Priority::Critical, text);
        } else if was_failed {
            text.append(": SMART no longer reports FAILED");
            push_log(out, Priority::Notice, text);
        }
    }
    assert(logs(out@) =~= logs(old(out)@) + bay_report(prev, bay, state));
}

impl HealthMonitor {
    /// Whether the monitor is in order.
    pub closed spec fn wf(&self) -> bool {
        self.temp_levels.wf() && self.pool_healths.wf() && self.bay_states.wf()
    }

    /// A monitor that has not looked at anything yet.
    pub fn new() -> (r: Self)
        ensures
            r.wf(),
            r@ == MonitorView::initial(),
    {
        let r = HealthMonitor {
            temp_levels: Table::new(),
            pool_healths: Table::new(),
            bay_states: Table::new(),
            last_temp_check: None,
        };
        assert(r@.pools =~= Map::empty());
        r
    }

    /// Whether the temperatures are to be read now.
    pub fn temps_due(&self, cfg: &Config, now: Instant) -> (r: bool)
        ensures
            r == temp_check_due(self@.last_temp_check, cfg.refresh.temperature_min_secs, now),
    {
        match self.last_temp_check {
            None => true,
            Some(t) => have_secs_passed(
                now,
                t,
                if cfg.refresh.temperature_min_secs < 1 {
                    1
                } else {
                    cfg.refresh.temperature_min_secs
                },
            ),
        }
    }

    /// Checks the temperatures where the time for it has come. Whether the
    /// temperature screen is shown plays no part in it.
    pub fn maybe_check_temps(
        &mut self,
        cfg: &Config,
        now: Instant,
        rs: &Vec<SensorReading>,
    ) -> (out: Vec<LogEntry>)
        requires
            old(self).wf(),
        ensures
            final(self).wf(),
            final(self)@ == old(self)@.with_temps_if_due(*cfg, now, readings(rs@)),
            logs(out@) == old(self)@.temps_report_if_due(*cfg, now, readings(rs@)),
    {
        if !self.temps_due(cfg, now) {
            return Vec::new();
        }
        self.last_temp_check = Some(now);
        self.check_temps(&cfg.temperature, rs)
    }

    /// Compares every connected sensor with the limits of its chip.
    pub fn check_temps(
        &mut self,
        cfg: &TemperatureConfig,
        rs: &Vec<SensorReading>,
    ) -> (out: Vec<LogEntry>)
        requires
            old(self).wf(),
        ensures
            final(self).wf(),
            final(self)@ == old(self)@.with_temps(*cfg, readings(rs@)),
            logs(out@) == temps_report(old(self)@.temps, *cfg, readings(rs@)),
    {
        let mut out: Vec<LogEntry> = Vec::new();
        let mut names: Vec<String> = Vec::new();
        let ghost seen = readings(rs@);
        assert(seen.take(0) == Seq::<ReadingView>::empty());
        for i in 0..rs.len()
            invariant
                self.wf(),
                seen == readings(rs@),
                self@ == (MonitorView {
                    temps: temps_after(old(self)@.temps, *cfg, seen.take(i as int)),
                    ..old(self)@
                }),
                logs(out@) == temps_report(old(self)@.temps, *cfg, seen.take(i as int)),
                names@.len() == i,
                forall|j: int| 0 <= j < i ==> #[trigger] names@[j]@ == seen[j].label,
        {
            let r = &rs[i];
            let (warn, critical) = resolve_temp_threshold(cfg, r.chip.as_str());
            let level = level_of_temp(r.temp, warn, critical);
            let prev = self.temp_levels.put(&r.label, level);
            names.push(r.label.clone());
            assert(seen[i as int] == r@);
            assert(seen.take(i + 1).drop_last() == seen.take(i as int));
            assert(seen.take(i + 1).last() == r@);
            report_temp(&mut out, prev, cfg, r);
        }
        assert(seen.take(seen.len() as int) == seen);
        self.temp_levels.keep(&names);
        assert(Set::new(
            |k: Seq<char>| exists|i: int| 0 <= i < names@.len() && #[trigger] names@[i]@ == k,
        ) =~= labels(seen)) by {
            assert forall|l: Seq<char>|
                (exists|i: int| 0 <= i < names@.len() && #[trigger] names@[i]@ == l)
                    == #[trigger] labels(seen).contains(l) by {
                if exists|i: int| 0 <= i < names@.len() && #[trigger] names@[i]@ == l {
                    let i = choose|i: int| 0 <= i < names@.len() && #[trigger] names@[i]@ == l;
                    assert(seen[i].label == l);
                }
                if labels(seen).contains(l) {
                    let i = choose|i: int| 0 <= i < seen.len() && #[trigger] seen[i].label == l;
                    assert(names@[i]@ == l);
                }
            }
        }
        out
    }

    /// The highest level of a connected sensor.
    pub fn worst_temp_level(&self) -> (r: Level)
        requires
            self.wf(),
        ensures
            r == worst_temp(self@.temps),
    {
        let mut worst = Level::Info;
        proof {
            self.temp_levels.rows_are_view();
        }
        let ghost rows = self.temp_levels.rows();
        let n: usize = self.temp_levels.len();
        for i in 0..n
            invariant
                rows == self.temp_levels.rows(),
                n == rows.len(),
                forall|j: int| 0 <= j < i ==> (#[trigger] rows[j]).1.rank() <= worst.rank(),
                worst == Level::Info || exists|j: int| 0 <= j < i && (#[trigger] rows[j]).1 == worst,
        {
            worst = worst.worse(*self.temp_levels.value(i));
            assert(rows[i as int].1.rank() <= worst.rank());
        }
        proof {
            let temps = self@.temps;
            if worst != Level::Info {
                let j = choose|j: int| 0 <= j < rows.len() && (#[trigger] rows[j]).1 == worst;
                assert(temps.contains_key(rows[j].0@));
            }
            assert forall|k: Seq<char>| #[trigger] temps.contains_key(k) implies temps[k].rank()
                <= worst.rank() by {
                let j = choose|j: int|
                    0 <= j < rows.len() && (#[trigger] rows[j]).0@ == k && rows[j].1 == temps[k];
                assert(rows[j].1.rank() <= worst.rank());
            }
        }
        worst
    }

    /// Whether some bay reports a failed drive.
    pub fn any_bay_failed(&self) -> (r: bool)
        requires
            self.wf(),
        ensures
            r == some_bay_failed(self@.bays),
    {
        proof {
            self.bay_states.rows_are_view();
        }
        let ghost rows = self.bay_states.rows();
        let n: usize = self.bay_states.len();
        for i in 0..n
            invariant
                self.wf(),
                rows == self.bay_states.rows(),
                n == rows.len(),
                forall|j: int| 0 <= j < i ==> (#[trigger] rows[j]).1 != BayState::Failed,
        {
            if *self.bay_states.value(i) == BayState::Failed {
                proof {
                    self.bay_states.rows_are_view();
                    assert(self.bay_states@.contains_key(self.bay_states.rows()[i as int].0@));
                }
                return true;
            }
        }
        assert forall|b: u32| #[trigger] self@.bays.contains_key(b) implies self@.bays[b]
            != BayState::Failed by {
            let j = choose|j: int|
                0 <= j < rows.len() && (#[trigger] rows[j]).0@ == b && rows[j].1 == self@.bays[b];
            assert(rows[j].1 != BayState::Failed);
        }
        false
    }

    /// Compares each pool's health with the last known.
    pub fn check_pools(&mut self, healths: &Vec<(String, String)>) -> (out: Vec<LogEntry>)
        requires
            old(self).wf(),
        ensures
            final(self).wf(),
            final(self)@ == old(self)@.with_pools(pairs(healths@)),
            logs(out@) == pools_report(old(self)@.pools, pairs(healths@)),
    {
        let mut out: Vec<LogEntry> = Vec::new();
        let ghost seen = pairs(healths@);
        assert(seen.take(0) == Seq::<(Seq<char>, Seq<char>)>::empty());
        for i in 0..healths.len()
            invariant
                self.wf(),
                seen == pairs(healths@),
                self@ == old(self)@.with_pools(seen.take(i as int)),
                logs(out@) == pools_report(old(self)@.pools, seen.take(i as int)),
        {
            let name = &healths[i].0;
            let health = &healths[i].1;
            let ghost before = self@;
            let ghost table = self.pool_healths@;
            let prev = self.pool_healths.put(name, health.clone());
            assert(seen[i as int] == (name@, health@));
            assert(seen.take(i + 1).drop_last() == seen.take(i as int));
            assert(seen.take(i + 1).last() == (name@, health@));
            assert(self@.pools =~= before.pools.insert(name@, health@));
            assert(lookup(before.pools, name@) == match prev {
                Some(p) => Some(p@),
                None => None,
            });
            report_pool(&mut out, prev, name.as_str(), health.as_str());
        }
        assert(seen.take(seen.len() as int) == seen);
        out
    }

    /// Compares each bay's state with the last known. Only a failed drive is
    /// reported.
    pub fn check_bays(&mut self, states: &Vec<(u32, BayState)>) -> (out: Vec<LogEntry>)
        requires
            old(self).wf(),
        ensures
            final(self).wf(),
            final(self)@ == old(self)@.with_bays(states@),
            logs(out@) == bays_report(old(self)@.bays, states@),
    {
        let mut out: Vec<LogEntry> = Vec::new();
        assert(states@.take(0) == Seq::<(u32, BayState)>::empty());
        for i in 0..states.len()
            invariant
                self.wf(),
                self@ == old(self)@.with_bays(states@.take(i as int)),
                logs(out@) == bays_report(old(self)@.bays, states@.take(i as int)),
        {
            let (bay, state) = states[i];
            let prev = self.bay_states.put(&bay, state);
            assert(states@.take(i + 1).drop_last() == states@.take(i as int));
            assert(states@.take(i + 1).last() == (bay, state));
            report_bay(&mut out, prev, bay, state);
        }
        assert(states@.take(states@.len() as int) == states@);
        out
    }
}

proof fn lemma_temps_after(
    temps: Map<Seq<char>, Level>,
    cfg: TemperatureConfig,
    rs: Seq<ReadingView>,
    i: int,
)
    requires
        0 <= i < rs.len(),
        forall|j: int, k: int|
            0 <= j < k < rs.len() ==> (#[trigger] rs[j]).label != (#[trigger] rs[k]).label,
    ensures
        temps_after(temps, cfg, rs).contains_key(rs[i].label),
        temps_after(temps, cfg, rs)[rs[i].label] == reading_level(cfg, rs[i]),
    decreases rs.len(),
{
    if i < rs.len() - 1 {
        let rest = rs.drop_last();
        assert(rest[i] == rs[i]);
        assert forall|j: int, k: int| 0 <= j < k < rest.len() implies (#[trigger] rest[j]).label
            != (#[trigger] rest[k]).label by {
            assert(rest[j] == rs[j] && rest[k] == rs[k]);
        }
        lemma_temps_after(temps, cfg, rest, i);
        assert(rs[i].label != rs[rs.len() - 1].label);
    }
}

proof fn lemma_known_temps_are_silent(
    temps: Map<Seq<char>, Level>,
    cfg: TemperatureConfig,
    rs: Seq<ReadingView>,
)
    requires
        forall|i: int|
            0 <= i < rs.len() ==> temps.contains_key((#[trigger] rs[i]).label)
                && temps[rs[i].label] == reading_level(cfg, rs[i]),
    ensures
        temps_report(temps, cfg, rs) == Seq::<LogView>::empty(),
        temps_after(temps, cfg, rs) == temps,
    decreases rs.len(),
{
    if rs.len() > 0 {
        let rest = rs.drop_last();
        assert forall|i: int| 0 <= i < rest.len() implies temps.contains_key(
            (#[trigger] rest[i]).label,
        ) && temps[rest[i].label] == reading_level(cfg, rest[i]) by {
            assert(rest[i] == rs[i]);
        }
        lemma_known_temps_are_silent(temps, cfg, rest);
        assert(rs[rs.len() - 1] == rs.last());
        assert(temps.insert(rs.last().label, reading_level(cfg, rs.last())) =~= temps);
        assert(Seq::<LogView>::empty() + Seq::<LogView>::empty() =~= Seq::<LogView>::empty());
    }
}

/// A level that lasts is not reported again: while every sensor stays at its
/// level, whatever it reads, there is nothing to report.
pub proof fn lasting_temps_are_silent(
    m: MonitorView,
    cfg: TemperatureConfig,
    first: Seq<ReadingView>,
    next: Seq<ReadingView>,
)
    requires
        forall|j: int, k: int|
            0 <= j < k < first.len() ==> (#[trigger] first[j]).label != (#[trigger] first[k]).label,
        next.len() == first.len(),
        forall|i: int|
            0 <= i < next.len() ==> (#[trigger] next[i]).label == first[i].label && reading_level(
                cfg,
                next[i],
            ) == reading_level(cfg, first[i]),
    ensures
        temps_report(m.with_temps(cfg, first).temps, cfg, next) == Seq::<LogView>::empty(),
{
    let temps = m.with_temps(cfg, first).temps;
    assert forall|i: int| 0 <= i < next.len() implies temps.contains_key((#[trigger] next[i]).label)
        && temps[next[i].label] == reading_level(cfg, next[i]) by {
        lemma_temps_after(m.temps, cfg, first, i);
        assert(labels(first).contains(first[i].label));
    }
    lemma_known_temps_are_silent(temps, cfg, next);
}

/// A sensor that comes to a limit is reported, and so is one that comes back
/// below it; nothing else is.
pub proof fn only_changes_are_reported(prev: Option<Level>, cfg: TemperatureConfig, r: ReadingView)
    ensures
        temp_report(prev, cfg, r).len() == 0 <==> match prev {
            Some(p) => p == reading_level(cfg, r),
            None => reading_level(cfg, r) == Level::Info,
        },
        temp_report(prev, cfg, r).len() <= 1,
{
}

/// A sensor that is gone is forgotten: when it comes back it counts as new.
pub proof fn gone_sensor_is_forgotten(
    m: MonitorView,
    cfg: TemperatureConfig,
    rs: Seq<ReadingView>,
    label: Seq<char>,
)
    requires
        forall|i: int| 0 <= i < rs.len() ==> (#[trigger] rs[i]).label != label,
    ensures
        lookup(m.with_temps(cfg, rs).temps, label) is None,
{
}

proof fn lemma_pools_after(
    pools: Map<Seq<char>, Seq<char>>,
    seen: Seq<(Seq<char>, Seq<char>)>,
    i: int,
)
    requires
        0 <= i < seen.len(),
        forall|j: int, k: int| 0 <= j < k < seen.len() ==> (#[trigger] seen[j]).0 != (#[trigger] seen[k]).0,
    ensures
        pools_after(pools, seen).contains_key(seen[i].0),
        pools_after(pools, seen)[seen[i].0] == seen[i].1,
    decreases seen.len(),
{
    if i < seen.len() - 1 {
        let rest = seen.drop_last();
        assert(rest[i] == seen[i]);
        assert forall|j: int, k: int| 0 <= j < k < rest.len() implies (#[trigger] rest[j]).0
            != (#[trigger] rest[k]).0 by {
            assert(rest[j] == seen[j] && rest[k] == seen[k]);
        }
        lemma_pools_after(pools, rest, i);
        assert(seen[i].0 != seen[seen.len() - 1].0);
    }
}

proof fn lemma_known_pools_are_silent(
    pools: Map<Seq<char>, Seq<char>>,
    seen: Seq<(Seq<char>, Seq<char>)>,
)
    requires
        forall|i: int|
            0 <= i < seen.len() ==> pools.contains_key((#[trigger] seen[i]).0) && pools[seen[i].0]
                == seen[i].1,
    ensures
        pools_report(pools, seen) == Seq::<LogView>::empty(),
        pools_after(pools, seen) == pools,
    decreases seen.len(),
{
    if seen.len() > 0 {
        let rest = seen.drop_last();
        assert forall|i: int| 0 <= i < rest.len() implies pools.contains_key((#[trigger] rest[i]).0)
            && pools[rest[i].0] == rest[i].1 by {
            assert(rest[i] == seen[i]);
        }
        lemma_known_pools_are_silent(pools, rest);
        assert(seen[seen.len() - 1] == seen.last());
        assert(pools.insert(seen.last().0, seen.last().1) =~= pools);
        assert(Seq::<LogView>::empty() + Seq::<LogView>::empty() =~= Seq::<LogView>::empty());
    }
}

/// The health of a pool that lasts is not reported again.
pub proof fn lasting_pools_are_silent(m: MonitorView, seen: Seq<(Seq<char>, Seq<char>)>)
    requires
        forall|j: int, k: int| 0 <= j < k < seen.len() ==> (#[trigger] seen[j]).0 != (#[trigger] seen[k]).0,
    ensures
        pools_report(m.with_pools(seen).pools, seen) == Seq::<LogView>::empty(),
{
    let pools = m.with_pools(seen).pools;
    assert forall|i: int| 0 <= i < seen.len() implies pools.contains_key((#[trigger] seen[i]).0)
        && pools[seen[i].0] == seen[i].1 by {
        lemma_pools_after(m.pools, seen, i);
    }
    lemma_known_pools_are_silent(pools, seen);
}

proof fn lemma_bays_after(bays: Map<u32, BayState>, seen: Seq<(u32, BayState)>, i: int)
    requires
        0 <= i < seen.len(),
        forall|j: int, k: int| 0 <= j < k < seen.len() ==> (#[trigger] seen[j]).0 != (#[trigger] seen[k]).0,
    ensures
        bays_after(bays, seen).contains_key(seen[i].0),
        bays_after(bays, seen)[seen[i].0] == seen[i].1,
    decreases seen.len(),
{
    if i < seen.len() - 1 {
        let rest = seen.drop_last();
        assert(rest[i] == seen[i]);
        assert forall|j: int, k: int| 0 <= j < k < rest.len() implies (#[trigger] rest[j]).0
            != (#[trigger] rest[k]).0 by {
            assert(rest[j] == seen[j] && rest[k] == seen[k]);
        }
        lemma_bays_after(bays, rest, i);
        assert(seen[i].0 != seen[seen.len() - 1].0);
    }
}

proof fn lemma_known_bays_are_silent(bays: Map<u32, BayState>, seen: Seq<(u32, BayState)>)
    requires
        forall|i: int|
            0 <= i < seen.len() ==> bays.contains_key((#[trigger] seen[i]).0) && bays[seen[i].0]
                == seen[i].1,
    ensures
        bays_report(bays, seen) == Seq::<LogView>::empty(),
        bays_after(bays, seen) == bays,
    decreases seen.len(),
{
    if seen.len() > 0 {
        let rest = seen.drop_last();
        assert forall|i: int| 0 <= i < rest.len() implies bays.contains_key((#[trigger] rest[i]).0)
            && bays[rest[i].0] == rest[i].1 by {
            assert(rest[i] == seen[i]);
        }
        lemma_known_bays_are_silent(bays, rest);
        assert(seen[seen.len() - 1] == seen.last());
        assert(bays.insert(seen.last().0, seen.last().1) =~= bays);
        assert(Seq::<LogView>::empty() + Seq::<LogView>::empty() =~= Seq::<LogView>::empty());
    }
}

/// A failed drive that stays failed is not reported again.
pub proof fn lasting_bays_are_silent(m: MonitorView, seen: Seq<(u32, BayState)>)
    requires
        forall|j: int, k: int| 0 <= j < k < seen.len() ==> (#[trigger] seen[j]).0 != (#[trigger] seen[k]).0,
    ensures
        bays_report(m.with_bays(seen).bays, seen) == Seq::<LogView>::empty(),
{
    let bays = m.with_bays(seen).bays;
    assert forall|i: int| 0 <= i < seen.len() implies bays.contains_key((#[trigger] seen[i]).0)
        && bays[seen[i].0] == seen[i].1 by {
        lemma_bays_after(m.bays, seen, i);
    }
    lemma_known_bays_are_silent(bays, seen);
}

/// A reading is critical exactly where it is at or above the critical limit of its
/// own chip, a warning exactly where it is below that and at or above the warning
/// limit of its own chip, and nothing to speak of otherwise.
pub proof fn reading_is_at_its_own_level(cfg: TemperatureConfig, r: ReadingView)
    ensures
        ({
            let (warn, critical) = thresholds_for(cfg, r.chip);
            let level = reading_level(cfg, r);
            &&& level == Level::Critical <==> r.temp >= critical
            &&& level == Level::Warn <==> r.temp < critical && r.temp >= warn
            &&& level == Level::Info <==> r.temp < critical && r.temp < warn
        }),
{
}

/// Whether a text begins with what it is about.
pub open spec fn is_about(text: Seq<char>, what: Seq<char>) -> bool {
    what.len() <= text.len() && text.take(what.len() as int) == what
}

/// What is logged of a reading is of its severity, and begins with its label: a
/// critical entry where it comes to the critical limit of its chip, a warning where
/// it comes to the warning limit, a notice where it comes back below both, and
/// nothing while it stays where it was.
pub proof fn log_has_the_severity_of_the_reading(
    prev: Option<Level>,
    cfg: TemperatureConfig,
    r: ReadingView,
)
    ensures
        ({
            let (warn, critical) = thresholds_for(cfg, r.chip);
            let out = temp_report(prev, cfg, r);
            let hot = r.temp >= critical;
            let warm = !hot && r.temp >= warn;
            let cool = !hot && !warm;
            &&& hot && prev != Some(Level::Critical) ==> out == seq![
                log(
                    Priority::Critical,
                    r.label + ": "@ + tenths_celsius(r.temp as int)
                        + "C, at or above critical threshold ("@ + tenths_celsius(critical as int)
                        + "C)"@,
                ),
            ]
            &&& warm && prev != Some(Level::Warn) ==> out == seq![
                log(
                    Priority::Warning,
                    r.label + ": "@ + tenths_celsius(r.temp as int)
                        + "C, at or above warning threshold ("@ + tenths_celsius(warn as int)
                        + "C)"@,
                ),
            ]
            &&& cool && prev is Some && prev != Some(Level::Info) ==> out == seq![
                log(
                    Priority::Notice,
                    r.label + ": back to "@ + tenths_celsius(r.temp as int)
                        + "C, below warning threshold"@,
                ),
            ]
            &&& (hot && prev == Some(Level::Critical)) || (warm && prev == Some(Level::Warn)) || (
            cool && (prev is None || prev == Some(Level::Info))) ==> out.len() == 0
            &&& forall|k: int| 0 <= k < out.len() ==> is_about((#[trigger] out[k]).text, r.label)
        }),
{
    let out = temp_report(prev, cfg, r);
    if out.len() > 0 {
        assert(out[0].text.take(r.label.len() as int) =~= r.label);
    }
}

proof fn lemma_untouched_label(
    temps: Map<Seq<char>, Level>,
    cfg: TemperatureConfig,
    rs: Seq<ReadingView>,
    label: Seq<char>,
)
    requires
        forall|i: int| 0 <= i < rs.len() ==> (#[trigger] rs[i]).label != label,
    ensures
        lookup(temps_after(temps, cfg, rs), label) == lookup(temps, label),
    decreases rs.len(),
{
    if rs.len() > 0 {
        let rest = rs.drop_last();
        assert forall|i: int| 0 <= i < rest.len() implies (#[trigger] rest[i]).label != label by {
            assert(rest[i] == rs[i]);
        }
        lemma_untouched_label(temps, cfg, rest, label);
        assert(rs[rs.len() - 1].label != label);
    }
}

/// Whether a log holds an entry of a priority about something.
pub open spec fn tells(out: Seq<LogView>, priority: Priority, what: Seq<char>) -> bool {
    exists|k: int|
        0 <= k < out.len() && (#[trigger] out[k]).priority == priority && is_about(
            out[k].text,
            what,
        )
}

proof fn lemma_tells_sum(a: Seq<LogView>, b: Seq<LogView>, priority: Priority, what: Seq<char>)
    ensures
        tells(a, priority, what) || tells(b, priority, what) ==> tells(a + b, priority, what),
{
    if tells(a, priority, what) {
        let k = choose|k: int|
            0 <= k < a.len() && (#[trigger] a[k]).priority == priority && is_about(a[k].text, what);
        assert((a + b)[k] == a[k]);
    }
    if tells(b, priority, what) {
        let k = choose|k: int|
            0 <= k < b.len() && (#[trigger] b[k]).priority == priority && is_about(b[k].text, what);
        assert((a + b)[a.len() + k] == b[k]);
    }
}

/// A sensor that comes to a limit of its own chip is told of with that severity,
/// whatever the others read, and so is one that comes back below both.
pub proof fn change_of_a_sensor_is_told(
    temps: Map<Seq<char>, Level>,
    cfg: TemperatureConfig,
    rs: Seq<ReadingView>,
    i: int,
)
    requires
        0 <= i < rs.len(),
        forall|j: int| 0 <= j < rs.len() && j != i ==> (#[trigger] rs[j]).label != rs[i].label,
    ensures
        ({
            let (warn, critical) = thresholds_for(cfg, rs[i].chip);
            let out = temps_report(temps, cfg, rs);
            let label = rs[i].label;
            let temp = rs[i].temp;
            let was = |l: Level| temps.contains_key(label) && temps[label] == l;
            &&& temp >= critical && !was(Level::Critical) ==> tells(out, Priority::Critical, label)
            &&& warn <= temp < critical && !was(Level::Warn) ==> tells(out, Priority::Warning, label)
            &&& temp < warn && temp < critical && temps.contains_key(label) && !was(Level::Info)
                ==> tells(out, Priority::Notice, label)
        }),
    decreases rs.len(),
{
    let rest = rs.drop_last();
    let label = rs[i].label;
    assert forall|j: int| 0 <= j < rest.len() && j != i implies (#[trigger] rest[j]).label != label by {
        assert(rest[j] == rs[j]);
    }
    let a = temps_report(temps, cfg, rest);
    let before = lookup(temps_after(temps, cfg, rest), rs.last().label);
    let b = temp_report(before, cfg, rs.last());
    lemma_tells_sum(a, b, Priority::Critical, label);
    lemma_tells_sum(a, b, Priority::Warning, label);
    lemma_tells_sum(a, b, Priority::Notice, label);
    if i < rest.len() {
        assert(rest[i] == rs[i]);
        change_of_a_sensor_is_told(temps, cfg, rest, i);
    } else {
        lemma_untouched_label(temps, cfg, rest, label);
        log_has_the_severity_of_the_reading(before, cfg, rs.last());
        if b.len() > 0 {
            assert(is_about(b[0].text, label));
        }
    }
}

/// Nothing is told that no sensor reads: every entry is about one of the readings,
/// and is critical, a warning or a notice by the limits of its own chip. No reading
/// is told of twice.
pub proof fn only_readings_are_told(
    temps: Map<Seq<char>, Level>,
    cfg: TemperatureConfig,
    rs: Seq<ReadingView>,
    k: int,
)
    requires
        0 <= k < temps_report(temps, cfg, rs).len(),
    ensures
        temps_report(temps, cfg, rs).len() <= rs.len(),
        exists|i: int|
            0 <= i < rs.len() && is_about(
                temps_report(temps, cfg, rs)[k].text,
                (#[trigger] rs[i]).label,
            ) && ({
                let (warn, critical) = thresholds_for(cfg, rs[i].chip);
                match temps_report(temps, cfg, rs)[k].priority {
                    Priority::Critical => rs[i].temp >= critical,
                    Priority::Warning => warn <= rs[i].temp < critical,
                    Priority::Notice => rs[i].temp < warn && rs[i].temp < critical,
                    Priority::Info => false,
                }
            }),
    decreases rs.len(),
{
    let rest = rs.drop_last();
    let a = temps_report(temps, cfg, rest);
    let before = lookup(temps_after(temps, cfg, rest), rs.last().label);
    let b = temp_report(before, cfg, rs.last());
    log_has_the_severity_of_the_reading(before, cfg, rs.last());
    if a.len() > 0 {
        only_readings_are_told(temps, cfg, rest, 0);
    }
    if k < a.len() {
        only_readings_are_told(temps, cfg, rest, k);
        let i = choose|i: int|
            0 <= i < rest.len() && is_about(a[k].text, (#[trigger] rest[i]).label) && ({
                let (warn, critical) = thresholds_for(cfg, rest[i].chip);
                match a[k].priority {
                    Priority::Critical => rest[i].temp >= critical,
                    Priority::Warning => warn <= rest[i].temp < critical,
                    Priority::Notice => rest[i].temp < warn && rest[i].temp < critical,
                    Priority::Info => false,
                }
            });
        assert(rs[i] == rest[i]);
    } else {
        assert(temps_report(temps, cfg, rs)[k] == b[k - a.len()]);
        assert(rs[rs.len() - 1] == rs.last());
    }
}

/// What is known of the sensors after a check: those that read something and no
/// others, each at the level of its reading under the limits of its own chip.
pub proof fn sensors_are_known_at_their_level(
    m: MonitorView,
    cfg: TemperatureConfig,
    rs: Seq<ReadingView>,
)
    requires
        forall|j: int, k: int|
            0 <= j < k < rs.len() ==> (#[trigger] rs[j]).label != (#[trigger] rs[k]).label,
    ensures
        ({
            let temps = m.with_temps(cfg, rs).temps;
            &&& forall|i: int|
                0 <= i < rs.len() ==> temps.contains_key((#[trigger] rs[i]).label) && ({
                    let (warn, critical) = thresholds_for(cfg, rs[i].chip);
                    let level = temps[rs[i].label];
                    &&& level == Level::Critical <==> rs[i].temp >= critical
                    &&& level == Level::Warn <==> warn <= rs[i].temp < critical
                    &&& level == Level::Info <==> rs[i].temp < warn && rs[i].temp < critical
                })
            &&& forall|l: Seq<char>| #[trigger]
                temps.contains_key(l) ==> exists|i: int|
                    0 <= i < rs.len() && (#[trigger] rs[i]).label == l
        }),
        m.with_temps(cfg, rs).pools == m.pools,
        m.with_temps(cfg, rs).bays == m.bays,
{
    let temps = m.with_temps(cfg, rs).temps;
    assert forall|i: int| 0 <= i < rs.len() implies temps.contains_key((#[trigger] rs[i]).label)
        && temps[rs[i].label] == reading_level(cfg, rs[i]) by {
        lemma_temps_after(m.temps, cfg, rs, i);
        assert(labels(rs).contains(rs[i].label));
    }
    assert forall|l: Seq<char>| #[trigger] temps.contains_key(l) implies exists|i: int|
        0 <= i < rs.len() && (#[trigger] rs[i]).label == l by {
        assert(labels(rs).contains(l));
    }
}

/// The worst temperature is critical exactly where some sensor is at or above the
/// critical limit of its own chip, and a warning exactly where none is and some
/// sensor is at or above the warning limit of its own chip.
pub proof fn worst_temp_is_of_a_sensor(
    m: MonitorView,
    cfg: TemperatureConfig,
    rs: Seq<ReadingView>,
)
    requires
        forall|j: int, k: int|
            0 <= j < k < rs.len() ==> (#[trigger] rs[j]).label != (#[trigger] rs[k]).label,
    ensures
        ({
            let worst = worst_temp(m.with_temps(cfg, rs).temps);
            let hot = exists|i: int|
                0 <= i < rs.len() && (#[trigger] rs[i]).temp >= thresholds_for(cfg, rs[i].chip).1;
            let warm = exists|i: int|
                0 <= i < rs.len() && (#[trigger] rs[i]).temp >= thresholds_for(cfg, rs[i].chip).0;
            &&& worst == Level::Critical <==> hot
            &&& worst == Level::Warn <==> warm && !hot
            &&& worst == Level::Info <==> !warm && !hot
        }),
{
    sensors_are_known_at_their_level(m, cfg, rs);
    let temps = m.with_temps(cfg, rs).temps;
    assert forall|l: Seq<char>| #[trigger] temps.contains_key(l) implies exists|i: int|
        0 <= i < rs.len() && (#[trigger] rs[i]).label == l && temps[l] == reading_level(cfg, rs[i]) by {
        let i = choose|i: int| 0 <= i < rs.len() && (#[trigger] rs[i]).label == l;
        assert(temps.contains_key(rs[i].label));
    }
    assert forall|i: int| 0 <= i < rs.len() implies temps.contains_key((#[trigger] rs[i]).label)
        && temps[rs[i].label] == reading_level(cfg, rs[i]) by {}
}

/// The worst level of some sensors: `Critical` where one is critical, and so on
/// down the severities.
pub proof fn worst_temp_is_the_worst(temps: Map<Seq<char>, Level>, l: Seq<char>)
    requires
        temps.contains_key(l),
    ensures
        temps[l] == Level::Critical ==> worst_temp(temps) == Level::Critical,
        temps[l] == Level::Error ==> worst_temp(temps) == Level::Critical || worst_temp(temps)
            == Level::Error,
        temps[l] == Level::Warn ==> worst_temp(temps) != Level::Info,
        worst_temp(temps) == Level::Info || exists|k: Seq<char>| #[trigger]
            temps.contains_key(k) && temps[k] == worst_temp(temps),
{
}

/// When the temperatures are checked: at first, and then once both a second and
/// the configured interval have gone by. Otherwise nothing changes and nothing is
/// told.
pub proof fn temps_are_checked_in_time(
    m: MonitorView,
    cfg: Config,
    now: Instant,
    rs: Seq<ReadingView>,
)
    ensures
        ({
            let due = match m.last_temp_check {
                None => true,
                Some(t) => now >= t + 1_000_000_000 && now >= t
                    + cfg.refresh.temperature_min_secs * 1_000_000_000,
            };
            let after = m.with_temps_if_due(cfg, now, rs);
            let out = m.temps_report_if_due(cfg, now, rs);
            &&& due ==> after.last_temp_check == Some(now) && after.temps == m.with_temps(
                cfg.temperature,
                rs,
            ).temps && out == temps_report(m.temps, cfg.temperature, rs)
            &&& !due ==> after == m && out.len() == 0
            &&& after.pools == m.pools && after.bays == m.bays
        }),
{
}

/// What is logged of a pool: a warning where it becomes degraded, a notice where it
/// comes back online, a critical entry where it comes to any other health, and
/// nothing while its health lasts or where it is online from the start.
pub proof fn log_has_the_severity_of_the_pool(
    prev: Option<Seq<char>>,
    name: Seq<char>,
    health: Seq<char>,
)
    ensures
        ({
            let out = pool_report(prev, name, health);
            let changed = prev != Some(health);
            &&& out.len() <= 1
            &&& !changed ==> out.len() == 0
            &&& health == "ONLINE"@ && prev is None ==> out.len() == 0
            &&& changed && health == "ONLINE"@ && prev is Some ==> out == seq![
                log(
                    Priority::Notice,
                    "pool "@ + name + ": back to ONLINE (was "@ + prev->0 + ")"@,
                ),
            ]
            &&& changed && health == "DEGRADED"@ ==> out == seq![
                log(Priority::Warning, "pool "@ + name + ": DEGRADED"@),
            ]
            &&& changed && health != "ONLINE"@ && health != "DEGRADED"@ ==> out == seq![
                log(Priority::Critical, "pool "@ + name + ": "@ + health),
            ]
        }),
{
    reveal_strlit("ONLINE");
    reveal_strlit("DEGRADED");
}

/// What is logged of a bay: a critical entry where its drive comes to report a
/// failure, a notice where it no longer does, and nothing else.
pub proof fn log_has_the_severity_of_the_bay(prev: Option<BayState>, bay: u32, state: BayState)
    ensures
        ({
            let out = bay_report(prev, bay, state);
            let was = prev == Some(BayState::Failed);
            let failed = state == BayState::Failed;
            &&& failed && !was ==> out == seq![
                log(
                    Priority::Critical,
                    "bay "@ + decimal(bay as nat) + ": SMART reports FAILED"@,
                ),
            ]
            &&& was && !failed ==> out == seq![
                log(
                    Priority::Notice,
                    "bay "@ + decimal(bay as nat) + ": SMART no longer reports FAILED"@,
                ),
            ]
            &&& was == failed ==> out.len() == 0
        }),
{
}

proof fn lemma_untouched_pool(
    pools: Map<Seq<char>, Seq<char>>,
    seen: Seq<(Seq<char>, Seq<char>)>,
    name: Seq<char>,
)
    requires
        forall|i: int| 0 <= i < seen.len() ==> (#[trigger] seen[i]).0 != name,
    ensures
        lookup(pools_after(pools, seen), name) == lookup(pools, name),
    decreases seen.len(),
{
    if seen.len() > 0 {
        let rest = seen.drop_last();
        assert forall|i: int| 0 <= i < rest.len() implies (#[trigger] rest[i]).0 != name by {
            assert(rest[i] == seen[i]);
        }
        lemma_untouched_pool(pools, rest, name);
        assert(seen[seen.len() - 1].0 != name);
    }
}

/// A pool whose health changes for the worse is told of, whatever the others do:
/// as a warning where it is degraded, as critical where it is neither that nor
/// online. One that comes back online is told of as a notice.
pub proof fn change_of_a_pool_is_told(
    pools: Map<Seq<char>, Seq<char>>,
    seen: Seq<(Seq<char>, Seq<char>)>,
    i: int,
)
    requires
        0 <= i < seen.len(),
        forall|j: int| 0 <= j < seen.len() && j != i ==> (#[trigger] seen[j]).0 != seen[i].0,
        !(pools.contains_key(seen[i].0) && pools[seen[i].0] == seen[i].1),
    ensures
        ({
            let (name, health) = seen[i];
            let out = pools_report(pools, seen);
            let about = "pool "@ + name;
            &&& health == "DEGRADED"@ ==> tells(out, Priority::Warning, about)
            &&& health != "DEGRADED"@ && health != "ONLINE"@ ==> tells(
                out,
                Priority::Critical,
                about,
            )
            &&& health == "ONLINE"@ && pools.contains_key(name) ==> tells(
                out,
                Priority::Notice,
                about,
            )
        }),
    decreases seen.len(),
{
    let rest = seen.drop_last();
    let (name, health) = seen[i];
    let about = "pool "@ + name;
    assert forall|j: int| 0 <= j < rest.len() && j != i implies (#[trigger] rest[j]).0 != name by {
        assert(rest[j] == seen[j]);
    }
    let a = pools_report(pools, rest);
    let before = lookup(pools_after(pools, rest), seen.last().0);
    let b = pool_report(before, seen.last().0, seen.last().1);
    lemma_tells_sum(a, b, Priority::Critical, about);
    lemma_tells_sum(a, b, Priority::Warning, about);
    lemma_tells_sum(a, b, Priority::Notice, about);
    if i < rest.len() {
        assert(rest[i] == seen[i]);
        change_of_a_pool_is_told(pools, rest, i);
    } else {
        lemma_untouched_pool(pools, rest, name);
        log_has_the_severity_of_the_pool(before, name, health);
        if b.len() > 0 {
            assert(b[0].text.take(about.len() as int) =~= about);
            assert(is_about(b[0].text, about));
        }
    }
}

proof fn lemma_untouched_bay(bays: Map<u32, BayState>, seen: Seq<(u32, BayState)>, bay: u32)
    requires
        forall|i: int| 0 <= i < seen.len() ==> (#[trigger] seen[i]).0 != bay,
    ensures
        lookup(bays_after(bays, seen), bay) == lookup(bays, bay),
    decreases seen.len(),
{
    if seen.len() > 0 {
        let rest = seen.drop_last();
        assert forall|i: int| 0 <= i < rest.len() implies (#[trigger] rest[i]).0 != bay by {
            assert(rest[i] == seen[i]);
        }
        lemma_untouched_bay(bays, rest, bay);
        assert(seen[seen.len() - 1].0 != bay);
    }
}

/// A drive that comes to report a failure is told of as critical, whatever the
/// others do, and one that no longer does as a notice.
pub proof fn change_of_a_bay_is_told(
    bays: Map<u32, BayState>,
    seen: Seq<(u32, BayState)>,
    i: int,
)
    requires
        0 <= i < seen.len(),
        forall|j: int| 0 <= j < seen.len() && j != i ==> (#[trigger] seen[j]).0 != seen[i].0,
    ensures
        ({
            let (bay, state) = seen[i];
            let out = bays_report(bays, seen);
            let about = "bay "@ + decimal(bay as nat) + ": "@;
            let was = bays.contains_key(bay) && bays[bay] == BayState::Failed;
            &&& state == BayState::Failed && !was ==> tells(out, Priority::Critical, about)
            &&& state != BayState::Failed && was ==> tells(out, Priority::Notice, about)
        }),
    decreases seen.len(),
{
    let rest = seen.drop_last();
    let (bay, state) = seen[i];
    let about = "bay "@ + decimal(bay as nat) + ": "@;
    assert forall|j: int| 0 <= j < rest.len() && j != i implies (#[trigger] rest[j]).0 != bay by {
        assert(rest[j] == seen[j]);
    }
    let a = bays_report(bays, rest);
    let before = lookup(bays_after(bays, rest), seen.last().0);
    let b = bay_report(before, seen.last().0, seen.last().1);
    lemma_tells_sum(a, b, Priority::Critical, about);
    lemma_tells_sum(a, b, Priority::Notice, about);
    if i < rest.len() {
        assert(rest[i] == seen[i]);
        change_of_a_bay_is_told(bays, rest, i);
    } else {
        lemma_untouched_bay(bays, rest, bay);
        log_has_the_severity_of_the_bay(before, bay, state);
        if b.len() > 0 {
            reveal_strlit(": ");
            reveal_strlit(": SMART reports FAILED");
            reveal_strlit(": SMART no longer reports FAILED");
            assert(b[0].text.take(about.len() as int) =~= about);
            assert(is_about(b[0].text, about));
        }
    }
}

/// What is known of the pools and the bays after they were looked at: the last that
/// was seen of each, and what was known before of those that were not seen.
pub proof fn last_seen_is_known(
    m: MonitorView,
    pools: Seq<(Seq<char>, Seq<char>)>,
    bays: Seq<(u32, BayState)>,
    i: int,
    j: int,
    name: Seq<char>,
    bay: u32,
)
    ensures
        0 <= i < pools.len() && (forall|k: int|
            i < k < pools.len() ==> (#[trigger] pools[k]).0 != pools[i].0) ==> m.with_pools(
            pools,
        ).pools.contains_key(pools[i].0) && m.with_pools(pools).pools[pools[i].0] == pools[i].1,
        0 <= j < bays.len() && (forall|k: int| j < k < bays.len() ==> (#[trigger] bays[k]).0 != bays[j].0)
            ==> m.with_bays(bays).bays.contains_key(bays[j].0) && m.with_bays(bays).bays[bays[j].0]
            == bays[j].1,
        (forall|k: int| 0 <= k < pools.len() ==> (#[trigger] pools[k]).0 != name) ==> lookup(
            m.with_pools(pools).pools,
            name,
        ) == lookup(m.pools, name),
        (forall|k: int| 0 <= k < bays.len() ==> (#[trigger] bays[k]).0 != bay) ==> lookup(
            m.with_bays(bays).bays,
            bay,
        ) == lookup(m.bays, bay),
        m.with_pools(pools) == (MonitorView { pools: m.with_pools(pools).pools, ..m }),
        m.with_bays(bays) == (MonitorView { bays: m.with_bays(bays).bays, ..m }),
{
    if 0 <= i < pools.len() && (forall|k: int|
        i < k < pools.len() ==> (#[trigger] pools[k]).0 != pools[i].0) {
        lemma_last_pool(m.pools, pools, i);
    }
    if 0 <= j < bays.len() && (forall|k: int|
        j < k < bays.len() ==> (#[trigger] bays[k]).0 != bays[j].0) {
        lemma_last_bay(m.bays, bays, j);
    }
    if forall|k: int| 0 <= k < pools.len() ==> (#[trigger] pools[k]).0 != name {
        lemma_untouched_pool(m.pools, pools, name);
    }
    if forall|k: int| 0 <= k < bays.len() ==> (#[trigger] bays[k]).0 != bay {
        lemma_untouched_bay(m.bays, bays, bay);
    }
}

proof fn lemma_last_pool(
    pools: Map<Seq<char>, Seq<char>>,
    seen: Seq<(Seq<char>, Seq<char>)>,
    i: int,
)
    requires
        0 <= i < seen.len(),
        forall|k: int| i < k < seen.len() ==> (#[trigger] seen[k]).0 != seen[i].0,
    ensures
        pools_after(pools, seen).contains_key(seen[i].0),
        pools_after(pools, seen)[seen[i].0] == seen[i].1,
    decreases seen.len(),
{
    if i < seen.len() - 1 {
        let rest = seen.drop_last();
        assert(rest[i] == seen[i]);
        assert forall|k: int| i < k < rest.len() implies (#[trigger] rest[k]).0 != rest[i].0 by {
            assert(rest[k] == seen[k]);
        }
        lemma_last_pool(pools, rest, i);
        assert(seen[seen.len() - 1].0 != seen[i].0);
    }
}

proof fn lemma_last_bay(bays: Map<u32, BayState>, seen: Seq<(u32, BayState)>, i: int)
    requires
        0 <= i < seen.len(),
        forall|k: int| i < k < seen.len() ==> (#[trigger] seen[k]).0 != seen[i].0,
    ensures
        bays_after(bays, seen).contains_key(seen[i].0),
        bays_after(bays, seen)[seen[i].0] == seen[i].1,
    decreases seen.len(),
{
    if i < seen.len() - 1 {
        let rest = seen.drop_last();
        assert(rest[i] == seen[i]);
        assert forall|k: int| i < k < rest.len() implies (#[trigger] rest[k]).0 != rest[i].0 by {
            assert(rest[k] == seen[k]);
        }
        lemma_last_bay(bays, rest, i);
        assert(seen[seen.len() - 1].0 != seen[i].0);
    }
}

/// A bay counts as failed exactly where its last known state is that.
pub proof fn failed_bay_counts(bays: Map<u32, BayState>)
    ensures
        some_bay_failed(bays) <==> exists|b: u32| #[trigger]
            bays.contains_key(b) && bays[b] == BayState::Failed,
{
}

} // verus!
