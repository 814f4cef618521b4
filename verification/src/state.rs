//! The daemon's state machine: status rotation, the action menu, the confirm
//! screen, pushed messages and sleep, all in one place, so that what happens
//! where they meet is decided in one spot. What each event does is stated in
//! `model`.
use crate::clock::{deadline_in, have_secs_passed, Deadline, Instant};
use crate::config::{Config, NetworkConfig};
use crate::hal::{append_screens, screens, Screen};
use crate::led::{
    enter_night_mode, exit_night_mode, night_writes, nics_mode_writes, pattern_for_level, set_bay,
    set_nic_mode, set_status, writes, BayState, LedWrite, StatusPattern,
};
use crate::model::{
    bays_out, down_count, is_faulted, leds, log_outputs, may_replace, menu_options, monitored,
    network_health, next_of, previous_of, reached, some_pool_degraded, some_pool_faulted, stale,
    AppView, CacheView, EffectView, GatheredView, HealthView, OutputView, OverrideView,
    SummaryView,
};
use crate::monitor::{readings, HealthMonitor, SensorReading};
use crate::number::push_decimal;
use crate::protocol::Key;
use crate::scroll::{truncate, Scroll};
use crate::socket::{worst_of, Level, SocketCommand};
use crate::syslog::{logs, LogEntry};
use crate::text::{holds, pairs, same, texts};
use vstd::prelude::*;

verus! {

/// What the action menu offers.
#[derive(Debug, Clone, Copy, PartialEq, Eq, Structural)]
pub enum Action {
    Shutdown,
    Restart,
    Eject,
}

impl Action {
    /// What the panel calls an action.
    pub open spec fn name(self) -> Seq<char> {
        match self {
            Action::Shutdown => "SHUTDOWN"@,
            Action::Restart => "RESTART"@,
            Action::Eject => "EJECT USB"@,
        }
    }

    /// What the panel calls an action.
    pub fn label(self) -> (r: &'static str)
        ensures
            r@ == self.name(),
    {
        match self {
            Action::Shutdown => "SHUTDOWN",
            Action::Restart => "RESTART",
            Action::Eject => "EJECT USB",
        }
    }
}

/// What the panel is busy with.
#[derive(Debug, Clone, Copy, PartialEq, Eq, Structural)]
pub enum Mode {
    /// The screens, or a message in their place.
    Status,
    /// The choice of an action; `eject` tells whether ejecting is one of them.
    ActionMenu { eject: bool, selection: usize },
    /// An action was chosen and is to be confirmed.
    Confirm { action: Action, deadline: Deadline },
}

/// What is to be gathered for a refresh.
#[derive(Debug, Clone, Copy, PartialEq, Eq, Structural)]
pub struct RefreshPlan {
    /// The network screens.
    pub network: bool,
    /// The health of the pools.
    pub pools: bool,
    /// The pool screens.
    pub pool_screens: bool,
    /// The drives are due, whether or not they have screens.
    pub hdd: bool,
    /// The drive screens.
    pub hdd_screens: bool,
    /// The temperature screens.
    pub temperature: bool,
    /// What the temperature sensors read.
    pub sensors: bool,
    /// The container screens.
    pub docker: bool,
    /// The states of the bays.
    pub bays: bool,
}

impl RefreshPlan {
    /// The plan to gather nothing.
    pub open spec fn nothing() -> RefreshPlan {
        RefreshPlan {
            network: false,
            pools: false,
            pool_screens: false,
            hdd: false,
            hdd_screens: false,
            temperature: false,
            sensors: false,
            docker: false,
            bays: false,
        }
    }

    /// The plan to gather nothing.
    pub fn empty() -> (r: Self)
        ensures
            r == RefreshPlan::nothing(),
    {
        RefreshPlan {
            network: false,
            pools: false,
            pool_screens: false,
            hdd: false,
            hdd_screens: false,
            temperature: false,
            sensors: false,
            docker: false,
            bays: false,
        }
    }
}

/// What was gathered for a refresh, each part with the time when it was.
#[derive(Debug, Clone)]
pub struct Gathered {
    pub network: Vec<Screen>,
    pub network_at: Instant,
    pub pool_healths: Vec<(String, String)>,
    pub pools: Vec<Screen>,
    pub pools_at: Instant,
    pub hdd: Vec<Screen>,
    pub hdd_at: Instant,
    pub temperature: Vec<Screen>,
    pub temperature_at: Instant,
    pub sensors: Vec<SensorReading>,
    pub docker: Vec<Screen>,
    pub docker_at: Instant,
    pub bays: Vec<(u32, BayState)>,
}

impl View for Gathered {
    type V = GatheredView;

    open spec fn view(&self) -> GatheredView {
        GatheredView {
            network: screens(self.network@),
            network_at: self.network_at,
            pool_healths: pairs(self.pool_healths@),
            pools: screens(self.pools@),
            pools_at: self.pools_at,
            hdd: screens(self.hdd@),
            hdd_at: self.hdd_at,
            temperature: screens(self.temperature@),
            temperature_at: self.temperature_at,
            sensors: readings(self.sensors@),
            docker: screens(self.docker@),
            docker_at: self.docker_at,
            bays: self.bays@,
        }
    }
}

impl Gathered {
    /// Nothing, at a point in time.
    pub fn nothing(now: Instant) -> (r: Self)
        ensures
            r@ == (GatheredView {
                network: Seq::empty(),
                network_at: now,
                pool_healths: Seq::empty(),
                pools: Seq::empty(),
                pools_at: now,
                hdd: Seq::empty(),
                hdd_at: now,
                temperature: Seq::empty(),
                temperature_at: now,
                sensors: Seq::empty(),
                docker: Seq::empty(),
                docker_at: now,
                bays: Seq::empty(),
            }),
    {
        let r = Gathered {
            network: Vec::new(),
            network_at: now,
            pool_healths: Vec::new(),
            pools: Vec::new(),
            pools_at: now,
            hdd: Vec::new(),
            hdd_at: now,
            temperature: Vec::new(),
            temperature_at: now,
            sensors: Vec::new(),
            docker: Vec::new(),
            docker_at: now,
            bays: Vec::new(),
        };
        assert(r@.network =~= Seq::empty());
        assert(r@.pool_healths =~= Seq::empty());
        assert(r@.sensors =~= Seq::empty());
        r
    }
}

/// What an event asks of the outside.
#[derive(Debug, Clone)]
pub enum Output {
    /// Write to an LED.
    Led(LedWrite),
    /// Let the status LED show the machine's health, see `health_summary`.
    ShowHealth,
    /// Write to the log.
    Log(LogEntry),
}

impl View for Output {
    type V = OutputView;

    open spec fn view(&self) -> OutputView {
        match self {
            Output::Led(w) => OutputView::Led(w@),
            Output::ShowHealth => OutputView::ShowHealth,
            Output::Log(e) => OutputView::Log(e@),
        }
    }
}

/// What a sequence of outputs holds.
pub open spec fn outputs(s: Seq<Output>) -> Seq<OutputView> {
    s.map_values(|o: Output| o@)
}

/// What the panel is to do after an event.
#[derive(Debug, Clone)]
pub enum Effect {
    /// Show two lines.
    Render(String, String),
    /// Do what was confirmed.
    RunAction(Action),
    /// Switch the panel on or off.
    SetLcdPower(bool),
    Nothing,
}

impl View for Effect {
    type V = EffectView;

    open spec fn view(&self) -> EffectView {
        match self {
            Effect::Render(a, b) => EffectView::Render(a@, b@),
            Effect::RunAction(a) => EffectView::RunAction(*a),
            Effect::SetLcdPower(on) => EffectView::SetLcdPower(*on),
            Effect::Nothing => EffectView::Nothing,
        }
    }
}

#[derive(Debug, Clone)]
struct Override {
    level: Level,
    expires_at: Option<Deadline>,
    bay: Option<u32>,
    line0: String,
    line1: String,
}

impl Override {
    closed spec fn view(&self) -> OverrideView {
        OverrideView {
            level: self.level,
            expires_at: self.expires_at,
            bay: self.bay,
            line0: self.line0@,
            line1: self.line1@,
        }
    }
}

closed spec fn over_view(o: Option<Override>) -> Option<OverrideView> {
    match o {
        Some(o) => Some(o.view()),
        None => None,
    }
}

/// The screens of one category and when they were last refreshed, so that each
/// category keeps to its own interval.
struct CategoryCache {
    screens: Vec<Screen>,
    last_refresh: Option<Instant>,
}

impl CategoryCache {
    closed spec fn view(&self) -> CacheView {
        CacheView { screens: screens(self.screens@), last_refresh: self.last_refresh }
    }

    fn new() -> (r: Self)
        ensures
            r.view() == (CacheView { screens: Seq::empty(), last_refresh: None }),
    {
        let r = CategoryCache { screens: Vec::new(), last_refresh: None };
        assert(r.view().screens =~= Seq::empty());
        r
    }

    fn stale(&self, floor_secs: u64, now: Instant) -> (r: bool)
        ensures
            r == stale(self.view().last_refresh, floor_secs, now),
    {
        match self.last_refresh {
            Some(t) => have_secs_passed(now, t, floor_secs),
            None => true,
        }
    }

    /// Takes in new screens, where there are any, and the time of the refresh.
    fn refresh(&mut self, due: bool, shown: bool, from: &Vec<Screen>, at: Instant)
        ensures
            final(self).view() == old(self).view().refreshed(due, shown, screens(from@), at),
    {
        if due {
            if shown {
                let mut copies: Vec<Screen> = Vec::new();
                append_screens(&mut copies, from);
                assert(screens(copies@) =~= screens(from@));
                self.screens = copies;
            }
            self.last_refresh = Some(at);
        }
    }
}

/// The state of the daemon.
pub struct AppState {
    cfg: Config,
    network_cache: CategoryCache,
    pools_cache: CategoryCache,
    hdd_cache: CategoryCache,
    temperature_cache: CategoryCache,
    docker_cache: CategoryCache,
    screens: Vec<Screen>,
    index: usize,
    auto_rotate: bool,
    resume_at: Option<Deadline>,
    last_dwell: Instant,
    mode: Mode,
    over: Option<Override>,
    pending_over: Option<Override>,
    alert_bay: Option<u32>,
    sleeping: bool,
    night_leds: bool,
    schedule_wants_sleep: bool,
    awake_override_until: Option<Deadline>,
    scroll0: Scroll,
    scroll1: Scroll,
    eject_available: bool,
    monitor: HealthMonitor,
    fan_health: Level,
}

impl View for AppState {
    type V = AppView;

    closed spec fn view(&self) -> AppView {
        AppView {
            cfg: self.cfg,
            network: self.network_cache.view(),
            pools: self.pools_cache.view(),
            hdd: self.hdd_cache.view(),
            temperature: self.temperature_cache.view(),
            docker: self.docker_cache.view(),
            screens: screens(self.screens@),
            index: self.index as int,
            auto_rotate: self.auto_rotate,
            resume_at: self.resume_at,
            last_dwell: self.last_dwell,
            mode: self.mode,
            over: over_view(self.over),
            pending_over: over_view(self.pending_over),
            alert_bay: self.alert_bay,
            sleeping: self.sleeping,
            night_leds: self.night_leds,
            schedule_wants_sleep: self.schedule_wants_sleep,
            awake_override_until: self.awake_override_until,
            scroll0: self.scroll0@,
            scroll1: self.scroll1@,
            eject_available: self.eject_available,
            monitor: self.monitor@,
            fan_health: self.fan_health,
        }
    }
}

/// What the health of the machine is made out from, besides the state.
#[derive(Debug, Clone)]
pub struct HealthInputs {
    /// The pools and their health.
    pub pools: Vec<(String, String)>,
    /// The interfaces that have an address.
    pub configured: Vec<String>,
    /// The interfaces whose link is down.
    pub down: Vec<String>,
}

impl View for HealthInputs {
    type V = HealthView;

    open spec fn view(&self) -> HealthView {
        HealthView {
            pools: pairs(self.pools@),
            configured: texts(self.configured@),
            down: texts(self.down@),
        }
    }
}

/// Everything that feeds the status LED, and the pattern that follows from it.
#[derive(Debug, Clone)]
pub struct HealthSummary {
    pub pool_healths: Vec<(String, String)>,
    pub pool_degraded: bool,
    pub pool_faulted: bool,
    pub bay_failed: bool,
    pub temp_level: Level,
    pub network_level: Level,
    pub fan_health: Level,
    pub overall: Level,
    pub pattern: StatusPattern,
}

impl View for HealthSummary {
    type V = SummaryView;

    open spec fn view(&self) -> SummaryView {
        SummaryView {
            pool_healths: pairs(self.pool_healths@),
            pool_degraded: self.pool_degraded,
            pool_faulted: self.pool_faulted,
            bay_failed: self.bay_failed,
            temp_level: self.temp_level,
            network_level: self.network_level,
            fan_health: self.fan_health,
            overall: self.overall,
            pattern: self.pattern,
        }
    }
}

/// Adds writes to LEDs.
fn push_leds(out: &mut Vec<Output>, ws: Vec<LedWrite>)
    ensures
        outputs(final(out)@) == outputs(old(out)@) + leds(writes(ws@)),
{
    for i in 0..ws.len()
        invariant
            outputs(out@) == outputs(old(out)@) + leds(writes(ws@)).take(i as int),
    {
        let w = &ws[i];
        let ghost before = outputs(out@);
        out.push(
            Output::Led(
                LedWrite { led: w.led.clone(), attr: w.attr.clone(), value: w.value.clone() },
            ),
        );
        assert(outputs(out@) =~= before.push(OutputView::Led(w@)));
        assert(outputs(out@) =~= outputs(old(out)@) + leds(writes(ws@)).take(i + 1));
    }
    assert(leds(writes(ws@)).take(ws@.len() as int) =~= leds(writes(ws@)));
}

/// Adds log entries.
fn push_logs(out: &mut Vec<Output>, entries: Vec<LogEntry>)
    ensures
        outputs(final(out)@) == outputs(old(out)@) + log_outputs(logs(entries@)),
{
    for i in 0..entries.len()
        invariant
            outputs(out@) == outputs(old(out)@) + log_outputs(logs(entries@)).take(i as int),
    {
        let e = &entries[i];
        let ghost before = outputs(out@);
        out.push(Output::Log(LogEntry { priority: e.priority, text: e.text.clone() }));
        assert(outputs(out@) =~= before.push(OutputView::Log(e@)));
        assert(outputs(out@) =~= outputs(old(out)@) + log_outputs(logs(entries@)).take(i + 1));
    }
    assert(log_outputs(logs(entries@)).take(entries@.len() as int) =~= log_outputs(logs(entries@)));
}

/// The index after `i`, around the end.
fn next_index(i: usize, n: usize) -> (r: usize)
    requires
        i < n,
    ensures
        r == next_of(i as int, n as int),
        r < n,
{
    if i + 1 < n {
        i + 1
    } else {
        0
    }
}

/// The index before `i`, around the start.
fn previous_index(i: usize, n: usize) -> (r: usize)
    requires
        i < n,
    ensures
        r == previous_of(i as int, n as int),
        r < n,
{
    if i > 0 {
        i - 1
    } else {
        n - 1
    }
}

/// Whether a deadline has come.
fn has_come(now: Instant, deadline: Option<Deadline>) -> (r: bool)
    ensures
        r == reached(now, deadline),
{
    match deadline {
        Some(t) => now as u128 >= t,
        None => false,
    }
}

/// How many actions the menu offers.
fn menu_len(eject: bool) -> (r: usize)
    ensures
        r == menu_options(eject).len(),
        r > 0,
{
    if eject {
        3
    } else {
        2
    }
}

/// An action that the menu offers.
fn menu_option(eject: bool, selection: usize) -> (r: Action)
    requires
        selection < menu_options(eject).len(),
    ensures
        r == menu_options(eject)[selection as int],
{
    if selection == 0 {
        Action::Shutdown
    } else if selection == 1 {
        Action::Restart
    } else {
        Action::Eject
    }
}

/// Whether a message of a level may take the place of another.
fn level_may_replace(level: Level, other: &Option<Override>) -> (r: bool)
    ensures
        r == may_replace(level, over_view(*other)),
{
    match other {
        Some(o) => o.level.severity() <= level.severity(),
        None => true,
    }
}

/// Copies of some pools and their health.
fn copied_pools(pools: &Vec<(String, String)>) -> (r: Vec<(String, String)>)
    ensures
        pairs(r@) == pairs(pools@),
{
    let mut r: Vec<(String, String)> = Vec::new();
    for i in 0..pools.len()
        invariant
            pairs(r@) == pairs(pools@).take(i as int),
    {
        let ghost before = pairs(r@);
        r.push((pools[i].0.clone(), pools[i].1.clone()));
        assert(pairs(r@) =~= before.push((pools@[i as int].0@, pools@[i as int].1@)));
        assert(pairs(r@) =~= pairs(pools@).take(i + 1));
    }
    assert(pairs(pools@).take(pools@.len() as int) =~= pairs(pools@));
    r
}

/// The interfaces whose links count: those that the settings name, else those
/// that have an address.
pub fn counted_nics(cfg: &NetworkConfig, configured: &Vec<String>) -> (r: Vec<String>)
    ensures
        texts(r@) == monitored(*cfg, texts(configured@)),
{
    let from = if cfg.monitored_nics.len() == 0 {
        configured
    } else {
        &cfg.monitored_nics
    };
    let mut r: Vec<String> = Vec::new();
    for i in 0..from.len()
        invariant
            texts(r@) == texts(from@).take(i as int),
    {
        let ghost before = texts(r@);
        r.push(from[i].clone());
        assert(texts(r@) =~= before.push(from@[i as int]@));
        assert(texts(r@) =~= texts(from@).take(i + 1));
    }
    assert(texts(from@).take(from@.len() as int) =~= texts(from@));
    r
}

/// Whether some pool is degraded.
fn any_degraded(pools: &Vec<(String, String)>) -> (r: bool)
    ensures
        r == some_pool_degraded(pairs(pools@)),
{
    let ghost seen = pairs(pools@);
    for i in 0..pools.len()
        invariant
            seen == pairs(pools@),
            forall|j: int| 0 <= j < i ==> (#[trigger] seen[j]).1 != "DEGRADED"@,
    {
        assert(seen[i as int].1 == pools@[i as int].1@);
        if same(pools[i].1.as_str(), "DEGRADED") {
            return true;
        }
    }
    false
}

/// Whether some pool serves no data.
fn any_faulted(pools: &Vec<(String, String)>) -> (r: bool)
    ensures
        r == some_pool_faulted(pairs(pools@)),
{
    let ghost seen = pairs(pools@);
    for i in 0..pools.len()
        invariant
            seen == pairs(pools@),
            forall|j: int| 0 <= j < i ==> !is_faulted((#[trigger] seen[j]).1),
    {
        assert(seen[i as int].1 == pools@[i as int].1@);
        let health = pools[i].1.as_str();
        if same(health, "FAULTED") || same(health, "UNAVAIL") || same(health, "OFFLINE") {
            return true;
        }
    }
    false
}

/// What is put out piece by piece is put out together.
proof fn lemma_joined(a: Seq<OutputView>, b: Seq<OutputView>, c: Seq<OutputView>)
    ensures
        a + b + c == a + (b + c),
{
    assert(a + b + c =~= a + (b + c));
}

impl AppState {
    /// Whether the parts of the state are in order.
    pub closed spec fn parts_wf(&self) -> bool {
        self.monitor.wf()
    }

    /// Whether the state is in order.
    pub open spec fn wf(&self) -> bool {
        self.parts_wf() && self@.wf()
    }

    /// The first state.
    pub fn new(cfg: Config, now: Instant) -> (r: Self)
        ensures
            r.wf(),
            r@ == AppView::initial(cfg, now),
    {
        let r = AppState {
            cfg,
            network_cache: CategoryCache::new(),
            pools_cache: CategoryCache::new(),
            hdd_cache: CategoryCache::new(),
            temperature_cache: CategoryCache::new(),
            docker_cache: CategoryCache::new(),
            screens: Vec::new(),
            index: 0,
            auto_rotate: true,
            resume_at: None,
            last_dwell: now,
            mode: Mode::Status,
            over: None,
            pending_over: None,
            alert_bay: None,
            sleeping: false,
            night_leds: false,
            schedule_wants_sleep: false,
            awake_override_until: None,
            scroll0: Scroll::new(),
            scroll1: Scroll::new(),
            eject_available: false,
            monitor: HealthMonitor::new(),
            fan_health: Level::Info,
        };
        assert(r@.screens =~= Seq::empty());
        r
    }

    /// Takes in the worst health of a fan.
    pub fn set_fan_health(&mut self, level: Level)
        requires
            old(self).wf(),
        ensures
            final(self).wf(),
            final(self)@ == (AppView { fan_health: level, ..old(self)@ }),
    {
        self.fan_health = level;
    }

    /// Takes in whether there is something to eject.
    pub fn set_eject_available(&mut self, available: bool)
        requires
            old(self).wf(),
        ensures
            final(self).wf(),
            final(self)@ == (AppView { eject_available: available, ..old(self)@ }),
    {
        self.eject_available = available;
    }

    /// Takes in whether the schedule wants the panel to sleep; `tick` decides
    /// whether it does.
    pub fn set_schedule_sleep_wanted(&mut self, wanted: bool)
        requires
            old(self).wf(),
        ensures
            final(self).wf(),
            final(self)@ == (AppView { schedule_wants_sleep: wanted, ..old(self)@ }),
    {
        self.schedule_wants_sleep = wanted;
    }

    /// Puts the LEDs in order at the start of the daemon.
    pub fn init_leds(
        &mut self,
        nics: &Vec<String>,
        bays: &Vec<(u32, BayState)>,
        out: &mut Vec<Output>,
    )
        requires
            old(self).wf(),
        ensures
            final(self).wf(),
            final(self)@ == old(self)@.init_leds(texts(nics@), bays@).state,
            outputs(final(out)@) == outputs(old(out)@) + old(self)@.init_leds(
                texts(nics@),
                bays@,
            ).out,
    {
        self.set_nic_modes(nics, out);
        self.update_health_leds(bays, out);
        assert(outputs(out@) =~= outputs(old(out)@) + old(self)@.init_leds(
            texts(nics@),
            bays@,
        ).out);
    }

    fn set_nic_modes(&self, nics: &Vec<String>, out: &mut Vec<Output>)
        ensures
            outputs(final(out)@) == outputs(old(out)@) + leds(
                nics_mode_writes(texts(nics@), self@.cfg.led.nic_mode),
            ),
    {
        let ghost names = texts(nics@);
        let ghost mode = self@.cfg.led.nic_mode;
        assert(leds(nics_mode_writes(names.take(0), mode)) =~= Seq::empty());
        for i in 0..nics.len()
            invariant
                names == texts(nics@),
                mode == self@.cfg.led.nic_mode,
                outputs(out@) == outputs(old(out)@) + leds(
                    nics_mode_writes(names.take(i as int), mode),
                ),
        {
            push_leds(out, set_nic_mode(nics[i].as_str(), self.cfg.led.nic_mode));
            assert(names.take(i + 1).drop_last() == names.take(i as int));
            assert(names.take(i + 1).last() == nics@[i as int]@);
            assert(outputs(out@) =~= outputs(old(out)@) + leds(
                nics_mode_writes(names.take(i + 1), mode),
            ));
        }
        assert(names.take(names.len() as int) == names);
    }

    /// Shows the states of the bays on their LEDs, reports the drives that
    /// failed, and brings the status LED up to date.
    fn update_health_leds(&mut self, bays: &Vec<(u32, BayState)>, out: &mut Vec<Output>)
        requires
            old(self).wf(),
        ensures
            final(self).wf(),
            final(self)@ == old(self)@.update_health_leds(bays@).state,
            outputs(final(out)@) == outputs(old(out)@) + old(self)@.update_health_leds(bays@).out,
    {
        assert(bays@.take(0) =~= Seq::empty());
        for i in 0..bays.len()
            invariant
                outputs(out@) == outputs(old(out)@) + bays_out(bays@.take(i as int)),
        {
            let (bay, state) = bays[i];
            push_leds(out, set_bay(bay, state));
            assert(bays@.take(i + 1).drop_last() == bays@.take(i as int));
            assert(bays@.take(i + 1).last() == (bay, state));
            assert(outputs(out@) =~= outputs(old(out)@) + bays_out(bays@.take(i + 1)));
        }
        assert(bays@.take(bays@.len() as int) == bays@);
        push_logs(out, self.monitor.check_bays(bays));
        self.reapply_bay_alert(out);
        self.recompute_status_led(out);
        assert(outputs(out@) =~= outputs(old(out)@) + old(self)@.update_health_leds(bays@).out);
    }

    /// The bay that the message that shows is about, where the message is one
    /// that is always visible.
    fn visible_bay(&self) -> (r: Option<u32>)
        ensures
            r == self@.visible_bay(),
    {
        match &self.over {
            Some(o) => if o.level.always_visible() {
                o.bay
            } else {
                None
            },
            None => None,
        }
    }

    /// Lets the bay that the message that shows is about flash.
    fn reapply_bay_alert(&self, out: &mut Vec<Output>)
        ensures
            outputs(final(out)@) == outputs(old(out)@) + self@.alert_out(),
    {
        if let Some(bay) = self.visible_bay() {
            push_leds(out, set_bay(bay, BayState::Alert));
        }
        assert(outputs(out@) =~= outputs(old(out)@) + self@.alert_out());
    }

    /// Brings the LEDs in line with the message that shows.
    fn sync_leds_to_override(&mut self, out: &mut Vec<Output>)
        requires
            old(self).parts_wf(),
        ensures
            final(self).parts_wf(),
            final(self)@ == old(self)@.sync_leds().state,
            outputs(final(out)@) == outputs(old(out)@) + old(self)@.sync_leds().out,
    {
        let want = self.visible_bay();
        if self.alert_bay != want {
            if let Some(bay) = self.alert_bay {
                push_leds(out, set_bay(bay, BayState::Normal));
            }
            self.alert_bay = want;
        }
        self.reapply_bay_alert(out);
        self.recompute_status_led(out);
        assert(outputs(out@) =~= outputs(old(out)@) + old(self)@.sync_leds().out);
    }

    /// Sets the status LED to what the message that shows calls for, else lets
    /// it show the machine's health.
    fn recompute_status_led(&self, out: &mut Vec<Output>)
        ensures
            outputs(final(out)@) == outputs(old(out)@) + self@.status_out(),
    {
        let pattern = match &self.over {
            Some(o) => pattern_for_level(o.level),
            None => None,
        };
        match pattern {
            Some(p) => push_leds(out, set_status(p)),
            None => out.push(Output::ShowHealth),
        }
        assert(outputs(out@) =~= outputs(old(out)@) + self@.status_out());
    }

    /// What is to be gathered for `refresh_stale`: the categories whose
    /// interval has gone by.
    pub fn refresh_plan(&self, now: Instant) -> (r: RefreshPlan)
        ensures
            r == self@.plan(now),
    {
        let floors = &self.cfg.refresh;
        let shown = &self.cfg.screens;
        let pools = self.pools_cache.stale(floors.pools_min_secs, now);
        let hdd = self.hdd_cache.stale(floors.hdd_min_secs, now);
        RefreshPlan {
            network: shown.network && self.network_cache.stale(floors.network_min_secs, now),
            pools,
            pool_screens: pools && shown.pools,
            hdd,
            hdd_screens: hdd && shown.hdd,
            temperature: shown.temperature && self.temperature_cache.stale(
                floors.temperature_min_secs,
                now,
            ),
            sensors: self.monitor.temps_due(&self.cfg, now),
            docker: shown.docker && self.docker_cache.stale(floors.docker_min_secs, now),
            bays: pools || hdd,
        }
    }

    /// What is to be gathered for `refresh_all`: every category that is in use.
    pub fn full_plan(&self, now: Instant) -> (r: RefreshPlan)
        ensures
            r == self@.expired().plan(now),
    {
        let shown = &self.cfg.screens;
        RefreshPlan {
            network: shown.network,
            pools: true,
            pool_screens: shown.pools,
            hdd: true,
            hdd_screens: shown.hdd,
            temperature: shown.temperature,
            sensors: self.monitor.temps_due(&self.cfg, now),
            docker: shown.docker,
            bays: true,
        }
    }

    /// Takes in what was gathered for every category, whatever its interval.
    pub fn refresh_all(&mut self, g: &Gathered, now: Instant, out: &mut Vec<Output>)
        requires
            old(self).wf(),
        ensures
            final(self).wf(),
            final(self)@ == old(self)@.refresh_all(g@, now).state,
            outputs(final(out)@) == outputs(old(out)@) + old(self)@.refresh_all(g@, now).out,
    {
        self.network_cache.last_refresh = None;
        self.pools_cache.last_refresh = None;
        self.hdd_cache.last_refresh = None;
        self.temperature_cache.last_refresh = None;
        self.docker_cache.last_refresh = None;
        self.refresh_stale(g, now, out);
    }

    /// Takes in what was gathered for the categories whose interval has gone
    /// by. Whether a category is shown plays no part in health monitoring.
    pub fn refresh_stale(&mut self, g: &Gathered, now: Instant, out: &mut Vec<Output>)
        requires
            old(self).wf(),
        ensures
            final(self).wf(),
            final(self)@ == old(self)@.refresh(g@, now).state,
            outputs(final(out)@) == outputs(old(out)@) + old(self)@.refresh(g@, now).out,
    {
        let plan = self.refresh_plan(now);
        self.take_in(plan, g, now, out);
        self.assemble();
        if plan.bays {
            self.update_health_leds(&g.bays, out);
        }
        assert(outputs(out@) =~= outputs(old(out)@) + old(self)@.refresh(g@, now).out);
    }

    /// Takes in what was gathered for the categories of a plan.
    fn take_in(&mut self, plan: RefreshPlan, g: &Gathered, now: Instant, out: &mut Vec<Output>)
        requires
            old(self).wf(),
        ensures
            final(self).wf(),
            final(self)@ == old(self)@.with_gathered(plan, g@, now),
            outputs(final(out)@) == outputs(old(out)@) + old(self)@.gathered_report(plan, g@, now),
    {
        self.network_cache.refresh(plan.network, plan.network, &g.network, g.network_at);
        if plan.pools {
            push_logs(out, self.monitor.check_pools(&g.pool_healths));
        }
        self.pools_cache.refresh(plan.pools, plan.pool_screens, &g.pools, g.pools_at);
        self.hdd_cache.refresh(plan.hdd, plan.hdd_screens, &g.hdd, g.hdd_at);
        self.temperature_cache.refresh(
            plan.temperature,
            plan.temperature,
            &g.temperature,
            g.temperature_at,
        );
        push_logs(out, self.monitor.maybe_check_temps(&self.cfg, now, &g.sensors));
        self.docker_cache.refresh(plan.docker, plan.docker, &g.docker, g.docker_at);
        assert(outputs(out@) =~= outputs(old(out)@) + old(self)@.gathered_report(plan, g@, now));
    }

    /// Puts the screens of all categories together.
    fn assemble(&mut self)
        requires
            old(self).wf(),
        ensures
            final(self).wf(),
            final(self)@ == old(self)@.assembled(),
    {
        let mut all: Vec<Screen> = Vec::new();
        append_screens(&mut all, &self.network_cache.screens);
        append_screens(&mut all, &self.pools_cache.screens);
        append_screens(&mut all, &self.hdd_cache.screens);
        append_screens(&mut all, &self.temperature_cache.screens);
        append_screens(&mut all, &self.docker_cache.screens);
        assert(screens(all@) =~= self@.network.screens + self@.pools.screens + self@.hdd.screens
            + self@.temperature.screens + self@.docker.screens);
        if all.len() == 0 {
            all.push(
                Screen { line0: "LCM-STATUS".to_owned(), line1: "no screens enabled".to_owned() },
            );
        }
        assert(screens(all@) =~= self@.all_screens());
        if self.index >= all.len() {
            self.index = 0;
        }
        self.screens = all;
    }

    /// What is to be gathered before `handle_key`.
    pub fn key_plan(&self, now: Instant) -> (r: RefreshPlan)
        ensures
            r == self@.key_plan(now),
    {
        if self.sleeping {
            self.full_plan(now)
        } else {
            RefreshPlan::empty()
        }
    }

    /// Handles a key. While the panel sleeps any key wakes it, and does nothing
    /// else.
    pub fn handle_key(
        &mut self,
        key: Key,
        g: &Gathered,
        now: Instant,
        out: &mut Vec<Output>,
    ) -> (r: Effect)
        requires
            old(self).wf(),
        ensures
            final(self).wf(),
            final(self)@ == old(self)@.handle_key(key, g@, now).0.state,
            outputs(final(out)@) == outputs(old(out)@) + old(self)@.handle_key(
                key,
                g@,
                now,
            ).0.out,
            r@ == old(self)@.handle_key(key, g@, now).1,
    {
        if self.sleeping {
            self.sleeping = false;
            self.awake_override_until = Some(
                deadline_in(now, self.cfg.rotation.resume_after_secs),
            );
            self.refresh_all(g, now, out);
            return Effect::SetLcdPower(true);
        }
        self.awake_key(key, now, out)
    }

    #[verifier::spinoff_prover]
    fn awake_key(&mut self, key: Key, now: Instant, out: &mut Vec<Output>) -> (r: Effect)
        requires
            old(self).wf(),
            !old(self)@.sleeping,
        ensures
            final(self).wf(),
            final(self)@ == old(self)@.key(key, now).0.state,
            outputs(final(out)@) == outputs(old(out)@) + old(self)@.key(key, now).0.out,
            r@ == old(self)@.key(key, now).1,
    {
        assert(outputs(out@) + Seq::empty() =~= outputs(out@));
        match self.mode {
            Mode::Status => {
                match key {
                    Key::Up => self.page(true, now),
                    Key::Down => self.page(false, now),
                    Key::Enter => {
                        self.mode = Mode::ActionMenu { eject: self.eject_available, selection: 0 };
                    },
                    _ => {},
                }
                Effect::Nothing
            },
            Mode::ActionMenu { eject, selection } => self.menu_key(eject, selection, key, now, out),
            Mode::Confirm { action, deadline: _ } => match key {
                Key::Enter => {
                    self.close_menu(out);
                    Effect::RunAction(action)
                },
                Key::Back => {
                    self.close_menu(out);
                    Effect::Nothing
                },
                _ => Effect::Nothing,
            },
        }
    }

    #[verifier::spinoff_prover]
    fn menu_key(
        &mut self,
        eject: bool,
        selection: usize,
        key: Key,
        now: Instant,
        out: &mut Vec<Output>,
    ) -> (r: Effect)
        requires
            old(self).wf(),
            !old(self)@.sleeping,
            old(self)@.mode == (Mode::ActionMenu { eject, selection }),
        ensures
            final(self).wf(),
            final(self)@ == old(self)@.key(key, now).0.state,
            outputs(final(out)@) == outputs(old(out)@) + old(self)@.key(key, now).0.out,
            r@ == old(self)@.key(key, now).1,
    {
        assert(outputs(out@) + Seq::empty() =~= outputs(out@));
        let n: usize = menu_len(eject);
        match key {
            Key::Up => {
                self.mode = Mode::ActionMenu { eject, selection: previous_index(selection, n) };
            },
            Key::Down => {
                self.mode = Mode::ActionMenu { eject, selection: next_index(selection, n) };
            },
            Key::Enter => {
                self.mode = Mode::Confirm {
                    action: menu_option(eject, selection),
                    deadline: deadline_in(now, self.cfg.menu.confirm_timeout_secs),
                };
            },
            Key::Back => self.close_menu(out),
            _ => {},
        }
        Effect::Nothing
    }

    /// Pages through the screens; the rotation rests for a while.
    fn page(&mut self, up: bool, now: Instant)
        requires
            old(self).wf(),
        ensures
            final(self).wf(),
            final(self)@ == old(self)@.page(up, now),
    {
        if self.screens.len() == 0 {
            return;
        }
        if up {
            self.index = previous_index(self.index, self.screens.len());
        } else {
            self.index = next_index(self.index, self.screens.len());
        }
        self.auto_rotate = false;
        self.resume_at = Some(deadline_in(now, self.cfg.rotation.resume_after_secs));
        self.last_dwell = now;
        self.reset_scroll();
    }

    fn reset_scroll(&mut self)
        ensures
            old(self).parts_wf() ==> final(self).parts_wf(),
            final(self)@ == old(self)@.reset_scroll(),
    {
        self.scroll0 = Scroll::new();
        self.scroll1 = Scroll::new();
    }

    /// Puts another message, or none, in place of the one that shows.
    fn show(&mut self, over: Option<Override>, out: &mut Vec<Output>)
        requires
            old(self).parts_wf(),
        ensures
            final(self).parts_wf(),
            final(self)@ == old(self)@.show(over_view(over)).state,
            outputs(final(out)@) == outputs(old(out)@) + old(self)@.show(over_view(over)).out,
    {
        self.over = over;
        self.reset_scroll();
        self.sync_leds_to_override(out);
    }

    /// Leaves the menu. The message that waited shows now, unless a more severe
    /// one does.
    fn close_menu(&mut self, out: &mut Vec<Output>)
        requires
            old(self).wf(),
            !old(self)@.sleeping,
        ensures
            final(self).wf(),
            final(self)@ == old(self)@.close_menu().state,
            outputs(final(out)@) == outputs(old(out)@) + old(self)@.close_menu().out,
    {
        self.mode = Mode::Status;
        self.apply_pending_override(out);
    }

    fn apply_pending_override(&mut self, out: &mut Vec<Output>)
        requires
            old(self).parts_wf(),
        ensures
            final(self).parts_wf(),
            final(self)@ == old(self)@.apply_pending().state,
            outputs(final(out)@) == outputs(old(out)@) + old(self)@.apply_pending().out,
    {
        assert(outputs(out@) + Seq::empty() =~= outputs(out@));
        let pending = self.pending_over.take();
        if let Some(ov) = pending {
            if level_may_replace(ov.level, &self.over) {
                self.show(Some(ov), out);
            }
        }
    }

    /// Takes in what a connection asks for. A status request changes nothing.
    #[verifier::spinoff_prover]
    pub fn apply_socket_command(
        &mut self,
        cmd: SocketCommand,
        now: Instant,
        out: &mut Vec<Output>,
    ) -> (r: Effect)
        requires
            old(self).wf(),
        ensures
            final(self).wf(),
            final(self)@ == old(self)@.command(cmd@, now).0.state,
            outputs(final(out)@) == outputs(old(out)@) + old(self)@.command(cmd@, now).0.out,
            r@ == old(self)@.command(cmd@, now).1,
    {
        assert(outputs(out@) + Seq::empty() =~= outputs(out@));
        match cmd {
            SocketCommand::Clear { bay } => {
                let current = match &self.over {
                    Some(o) => o.bay,
                    None => None,
                };
                if !self.sleeping && (bay.is_none() || bay == current) {
                    self.over = None;
                    self.sync_leds_to_override(out);
                }
                Effect::Nothing
            },
            SocketCommand::Show { level, ttl_secs, bay, line0, line1 } => {
                let expires_at = if level.always_visible() || ttl_secs == 0 {
                    None
                } else {
                    Some(deadline_in(now, ttl_secs))
                };
                self.push_message(Override { level, expires_at, bay, line0, line1 }, out)
            },
            SocketCommand::StatusRequest => Effect::Nothing,
        }
    }

    #[verifier::spinoff_prover]
    fn push_message(&mut self, ov: Override, out: &mut Vec<Output>) -> (r: Effect)
        requires
            old(self).wf(),
            ov.level.visible() ==> ov.expires_at is None,
        ensures
            final(self).wf(),
            final(self)@ == old(self)@.push_message(ov.view()).0.state,
            outputs(final(out)@) == outputs(old(out)@) + old(self)@.push_message(ov.view()).0.out,
            r@ == old(self)@.push_message(ov.view()).1,
    {
        assert(outputs(out@) + Seq::empty() =~= outputs(out@));
        if self.mode != Mode::Status {
            if level_may_replace(ov.level, &self.pending_over) {
                self.pending_over = Some(ov);
            }
            return Effect::Nothing;
        }
        if !level_may_replace(ov.level, &self.over) {
            return Effect::Nothing;
        }
        if self.sleeping && !ov.level.always_visible() {
            return Effect::Nothing;
        }
        let woke = self.sleeping;
        self.sleeping = false;
        self.show(Some(ov), out);
        if woke {
            Effect::SetLcdPower(true)
        } else {
            Effect::Nothing
        }
    }

    /// What is to be gathered before `tick`.
    pub fn tick_plan(&self, now: Instant) -> (r: RefreshPlan)
        ensures
            r == self@.tick_plan(now),
    {
        if self.falls_asleep(now) {
            RefreshPlan::empty()
        } else if self.day_breaks() {
            self.full_plan(now)
        } else if self.sleeping {
            RefreshPlan::empty()
        } else {
            self.refresh_plan(now)
        }
    }

    fn in_grace(&self, now: Instant) -> (r: bool)
        ensures
            r == self@.in_grace(now),
    {
        match self.awake_override_until {
            Some(t) => (now as u128) < t,
            None => false,
        }
    }

    fn falls_asleep(&self, now: Instant) -> (r: bool)
        ensures
            r == self@.falls_asleep(now),
    {
        self.schedule_wants_sleep && !self.sleeping && !self.in_grace(now) && self.over.is_none()
            && self.mode == Mode::Status
    }

    fn day_breaks(&self) -> (r: bool)
        ensures
            r == self@.day_breaks(),
    {
        !self.schedule_wants_sleep && self.night_leds
    }

    /// Whether a tick puts the LEDs to sleep or wakes them. The network ports count
    /// for such a tick only.
    pub fn night_changes(&self, now: Instant) -> (r: bool)
        ensures
            r == self@.night_changes(now),
    {
        self.falls_asleep(now) || self.day_breaks()
    }

    /// Does what the passing of time asks for: sleeps or wakes, refreshes,
    /// drops what has expired, turns to the next screen, and shows it. `nics`
    /// are the network ports, `now` is the time at the start, and `later` the
    /// time after what was gathered.
    #[verifier::spinoff_prover]
    pub fn tick(
        &mut self,
        nics: &Vec<String>,
        g: &Gathered,
        now: Instant,
        later: Instant,
        out: &mut Vec<Output>,
    ) -> (r: Effect)
        requires
            old(self).wf(),
        ensures
            final(self).wf(),
            final(self)@ == old(self)@.tick(texts(nics@), g@, now, later).0.state,
            outputs(final(out)@) == outputs(old(out)@) + old(self)@.tick(
                texts(nics@),
                g@,
                now,
                later,
            ).0.out,
            r@ == old(self)@.tick(texts(nics@), g@, now, later).1,
    {
        if self.falls_asleep(now) {
            self.tick_at_dusk(nics, g, now, later, out)
        } else if self.day_breaks() {
            self.tick_at_dawn(nics, g, now, later, out)
        } else {
            self.tick_between(nics, g, now, later, out)
        }
    }

    #[verifier::spinoff_prover]
    fn tick_at_dusk(
        &mut self,
        nics: &Vec<String>,
        g: &Gathered,
        now: Instant,
        later: Instant,
        out: &mut Vec<Output>,
    ) -> (r: Effect)
        requires
            old(self).wf(),
            old(self)@.falls_asleep(now),
        ensures
            final(self).wf(),
            final(self)@ == old(self)@.tick(texts(nics@), g@, now, later).0.state,
            outputs(final(out)@) == outputs(old(out)@) + old(self)@.tick(
                texts(nics@),
                g@,
                now,
                later,
            ).0.out,
            r@ == old(self)@.tick(texts(nics@), g@, now, later).1,
    {
        self.check_grace(now);
        self.fall_asleep(nics, out);
        Effect::SetLcdPower(false)
    }

    #[verifier::spinoff_prover]
    fn tick_at_dawn(
        &mut self,
        nics: &Vec<String>,
        g: &Gathered,
        now: Instant,
        later: Instant,
        out: &mut Vec<Output>,
    ) -> (r: Effect)
        requires
            old(self).wf(),
            !old(self)@.falls_asleep(now),
            old(self)@.day_breaks(),
        ensures
            final(self).wf(),
            final(self)@ == old(self)@.tick(texts(nics@), g@, now, later).0.state,
            outputs(final(out)@) == outputs(old(out)@) + old(self)@.tick(
                texts(nics@),
                g@,
                now,
                later,
            ).0.out,
            r@ == old(self)@.tick(texts(nics@), g@, now, later).1,
    {
        let asleep = self.sleeping;
        self.check_grace(now);
        if asleep {
            self.wake(nics, g, now, out);
            return Effect::SetLcdPower(true);
        }
        self.run_at_dawn(nics, g, now, later, out)
    }

    #[verifier::spinoff_prover]
    fn tick_between(
        &mut self,
        nics: &Vec<String>,
        g: &Gathered,
        now: Instant,
        later: Instant,
        out: &mut Vec<Output>,
    ) -> (r: Effect)
        requires
            old(self).wf(),
            !old(self)@.falls_asleep(now),
            !old(self)@.day_breaks(),
        ensures
            final(self).wf(),
            final(self)@ == old(self)@.tick(texts(nics@), g@, now, later).0.state,
            outputs(final(out)@) == outputs(old(out)@) + old(self)@.tick(
                texts(nics@),
                g@,
                now,
                later,
            ).0.out,
            r@ == old(self)@.tick(texts(nics@), g@, now, later).1,
    {
        self.check_grace(now);
        if self.sleeping {
            assert(outputs(out@) + Seq::empty() =~= outputs(out@));
            return Effect::Nothing;
        }
        self.run(g, now, later, out)
    }

    /// Forgets a period of grace that is over.
    fn check_grace(&mut self, now: Instant)
        requires
            old(self).wf(),
        ensures
            final(self).wf(),
            final(self)@ == old(self)@.grace_checked(now),
    {
        if !self.in_grace(now) {
            self.awake_override_until = None;
        }
    }

    fn fall_asleep(&mut self, nics: &Vec<String>, out: &mut Vec<Output>)
        requires
            old(self).wf(),
            old(self)@.over is None,
            old(self)@.mode == Mode::Status,
        ensures
            final(self).wf(),
            final(self)@ == (AppView { sleeping: true, night_leds: true, ..old(self)@ }),
            outputs(final(out)@) == outputs(old(out)@) + leds(night_writes(texts(nics@))),
    {
        self.sleeping = true;
        self.night_leds = true;
        push_leds(out, enter_night_mode(nics));
    }

    fn wake(&mut self, nics: &Vec<String>, g: &Gathered, now: Instant, out: &mut Vec<Output>)
        requires
            old(self).wf(),
        ensures
            final(self).wf(),
            final(self)@ == old(self)@.wake(texts(nics@), g@, now).state,
            outputs(final(out)@) == outputs(old(out)@) + old(self)@.wake(
                texts(nics@),
                g@,
                now,
            ).out,
    {
        self.sleeping = false;
        self.night_leds = false;
        push_leds(out, exit_night_mode(nics));
        self.set_nic_modes(nics, out);
        self.refresh_all(g, now, out);
        assert(outputs(out@) =~= outputs(old(out)@) + old(self)@.wake(texts(nics@), g@, now).out);
    }

    #[verifier::spinoff_prover]
    fn run_at_dawn(
        &mut self,
        nics: &Vec<String>,
        g: &Gathered,
        now: Instant,
        later: Instant,
        out: &mut Vec<Output>,
    ) -> (r: Effect)
        requires
            old(self).wf(),
        ensures
            final(self).wf(),
            final(self)@ == old(self)@.run_at_dawn(texts(nics@), g@, now, later).0.state,
            outputs(final(out)@) == outputs(old(out)@) + old(self)@.run_at_dawn(
                texts(nics@),
                g@,
                now,
                later,
            ).0.out,
            r@ == old(self)@.run_at_dawn(texts(nics@), g@, now, later).1,
    {
        let ghost s = self@;
        let ghost o = outputs(out@);
        self.wake(nics, g, now, out);
        let ghost t = self@;
        let effect = self.advance(later, out);
        proof {
            lemma_joined(o, s.wake(texts(nics@), g@, now).out, t.advance(later).0.out);
        }
        effect
    }

    #[verifier::spinoff_prover]
    fn run(&mut self, g: &Gathered, now: Instant, later: Instant, out: &mut Vec<Output>) -> (r:
        Effect)
        requires
            old(self).wf(),
            !old(self)@.sleeping,
        ensures
            final(self).wf(),
            final(self)@ == old(self)@.run(g@, now, later).0.state,
            outputs(final(out)@) == outputs(old(out)@) + old(self)@.run(g@, now, later).0.out,
            r@ == old(self)@.run(g@, now, later).1,
    {
        let ghost s = self@;
        let ghost o = outputs(out@);
        self.refresh_stale(g, now, out);
        let ghost t = self@;
        let effect = self.advance(later, out);
        proof {
            lemma_joined(o, s.refresh(g@, now).out, t.advance(later).0.out);
        }
        effect
    }

    /// The part of a tick that follows the refresh.
    #[verifier::spinoff_prover]
    fn advance(&mut self, now: Instant, out: &mut Vec<Output>) -> (r: Effect)
        requires
            old(self).wf(),
            !old(self)@.sleeping,
        ensures
            final(self).wf(),
            final(self)@ == old(self)@.advance(now).0.state,
            outputs(final(out)@) == outputs(old(out)@) + old(self)@.advance(now).0.out,
            r@ == old(self)@.advance(now).1,
    {
        self.expire_message(now, out);
        self.resume_rotation(now);
        self.cancel_confirm(now, out);
        self.rotate(now);
        assert(outputs(out@) =~= outputs(old(out)@) + old(self)@.advance(now).0.out);
        self.render(now)
    }

    fn resume_rotation(&mut self, now: Instant)
        requires
            old(self).wf(),
        ensures
            final(self).wf(),
            final(self)@ == old(self)@.resume_rotation(now),
    {
        if !self.auto_rotate && has_come(now, self.resume_at) {
            self.auto_rotate = true;
            self.resume_at = None;
        }
    }

    fn expire_message(&mut self, now: Instant, out: &mut Vec<Output>)
        requires
            old(self).wf(),
        ensures
            final(self).wf(),
            final(self)@ == old(self)@.expire_message(now).state,
            outputs(final(out)@) == outputs(old(out)@) + old(self)@.expire_message(now).out,
    {
        assert(outputs(out@) + Seq::empty() =~= outputs(out@));
        let expired = match &self.over {
            Some(o) => has_come(now, o.expires_at),
            None => false,
        };
        if expired {
            self.show(None, out);
        }
    }

    fn cancel_confirm(&mut self, now: Instant, out: &mut Vec<Output>)
        requires
            old(self).wf(),
            !old(self)@.sleeping,
        ensures
            final(self).wf(),
            final(self)@ == old(self)@.cancel_confirm(now).state,
            outputs(final(out)@) == outputs(old(out)@) + old(self)@.cancel_confirm(now).out,
    {
        assert(outputs(out@) + Seq::empty() =~= outputs(out@));
        if let Mode::Confirm { action: _, deadline } = self.mode {
            if now as u128 >= deadline {
                self.close_menu(out);
            }
        }
    }

    /// Turns to the next screen where it is its turn, and nothing is scrolling
    /// that nobody could have read yet.
    fn rotate(&mut self, now: Instant)
        requires
            old(self).wf(),
        ensures
            final(self).wf(),
            final(self)@ == old(self)@.rotate(now),
    {
        if self.mode == Mode::Status && self.over.is_none() && self.auto_rotate
            && self.screens.len() > 0 && !self.is_scrolling() && have_secs_passed(
            now,
            self.last_dwell,
            self.cfg.rotation.dwell_secs,
        ) {
            self.index = next_index(self.index, self.screens.len());
            self.last_dwell = now;
            self.reset_scroll();
        }
    }

    /// Whether a line has yet to scroll by for the first time.
    fn is_scrolling(&self) -> (r: bool)
        ensures
            r == self@.scrolling(),
    {
        self.scroll0.is_pending() || self.scroll1.is_pending()
    }

    /// The two lines to show, before they are cut and scrolled.
    fn lines(&self) -> (r: (String, String))
        requires
            self.wf(),
        ensures
            r.0@ == self@.lines().0,
            r.1@ == self@.lines().1,
    {
        match self.mode {
            Mode::Status => match &self.over {
                Some(o) => (o.line0.clone(), o.line1.clone()),
                None => if self.index < self.screens.len() {
                    let s = &self.screens[self.index];
                    (s.line0.clone(), s.line1.clone())
                } else {
                    (String::new(), String::new())
                },
            },
            Mode::ActionMenu { eject, selection } => {
                let mut line0 = ">".to_owned();
                line0.append(menu_option(eject, selection).label());
                (line0, "UP/DN ENTER BACK".to_owned())
            },
            Mode::Confirm { action, deadline: _ } => {
                let mut line0 = "CONFIRM ".to_owned();
                line0.append(action.label());
                line0.append("?");
                (line0, "ENTER=yes BACK=no".to_owned())
            },
        }
    }

    /// What the panel shows now.
    fn render(&mut self, now: Instant) -> (r: Effect)
        requires
            old(self).wf(),
        ensures
            final(self).wf(),
            final(self)@ == old(self)@.rendered(now),
            r@ == EffectView::Render(final(self)@.scroll0.shown(), final(self)@.scroll1.shown()),
    {
        let (raw0, raw1) = self.lines();
        let cap: usize = self.cfg.display.scroll_max_chars;
        let line0 = self.scroll0.step(truncate(raw0.as_str(), cap), &self.cfg.display, now);
        let line1 = self.scroll1.step(truncate(raw1.as_str(), cap), &self.cfg.display, now);
        Effect::Render(line0, line1)
    }

    /// The interfaces whose links count for the health of the machine.
    pub fn monitored_nics(&self, configured: &Vec<String>) -> (r: Vec<String>)
        ensures
            texts(r@) == monitored(self@.cfg.network, texts(configured@)),
    {
        counted_nics(&self.cfg.network, configured)
    }

    /// The network's part in the health of the machine.
    fn network_health_level(&self, configured: &Vec<String>, down: &Vec<String>) -> (r: Level)
        ensures
            r == self@.network_health(texts(configured@), texts(down@)),
    {
        if !self.cfg.network.enabled {
            return Level::Info;
        }
        let nics = self.monitored_nics(configured);
        let ghost names = texts(nics@);
        let ghost gone = texts(down@);
        let mut n: usize = 0;
        for i in 0..nics.len()
            invariant
                names == texts(nics@),
                gone == texts(down@),
                n == down_count(names.take(i as int), gone),
                n <= i,
        {
            assert(names.take(i + 1).drop_last() == names.take(i as int));
            assert(names.take(i + 1).last() == nics@[i as int]@);
            if holds(down, nics[i].as_str()) {
                n = n + 1;
            }
        }
        assert(names.take(names.len() as int) == names);
        if n == 0 {
            Level::Info
        } else if n == nics.len() {
            Level::from(self.cfg.network.all_down_level)
        } else {
            Level::from(self.cfg.network.some_down_level)
        }
    }

    /// The health of the machine: what the status LED shows while no message
    /// overrides it. A message that shows plays no part in it.
    pub fn health_summary(&self, h: &HealthInputs) -> (r: HealthSummary)
        requires
            self.wf(),
        ensures
            r@ == self@.health(h@),
    {
        let pool_degraded = any_degraded(&h.pools);
        let pool_faulted = any_faulted(&h.pools);
        let bay_failed = self.monitor.any_bay_failed();
        let temp_level = self.monitor.worst_temp_level();
        let network_level = self.network_health_level(&h.configured, &h.down);
        let bay_level = if bay_failed {
            Level::Error
        } else {
            Level::Info
        };
        let overall = Level::Info.worse(self.fan_health).worse(temp_level).worse(
            network_level,
        ).worse(bay_level);
        proof {
            reveal_with_fuel(worst_of, 5);
            let all = seq![self.fan_health, temp_level, network_level, bay_level];
            assert(all.drop_last() =~= seq![self.fan_health, temp_level, network_level]);
            assert(all.drop_last().drop_last() =~= seq![self.fan_health, temp_level]);
            assert(all.drop_last().drop_last().drop_last() =~= seq![self.fan_health]);
            assert(all.drop_last().drop_last().drop_last().drop_last() =~= Seq::empty());
        }
        let pattern = if overall == Level::Critical {
            StatusPattern::CriticalFlashing
        } else if pool_faulted || overall == Level::Error {
            StatusPattern::Failed
        } else if pool_degraded {
            StatusPattern::Degraded
        } else if overall == Level::Warn {
            StatusPattern::Warning
        } else {
            StatusPattern::Healthy
        };
        HealthSummary {
            pool_healths: copied_pools(&h.pools),
            pool_degraded,
            pool_faulted,
            bay_failed,
            temp_level,
            network_level,
            fan_health: self.fan_health,
            overall,
            pattern,
        }
    }

    /// The message that shows, in words.
    pub fn override_summary(&self) -> (r: Option<String>)
        ensures
            match r {
                Some(s) => self@.override_text() == Some(s@),
                None => self@.override_text() is None,
            },
    {
        match &self.over {
            Some(o) => {
                let mut s = o.level.label().to_owned();
                if let Some(bay) = o.bay {
                    s.append(" bay=");
                    push_decimal(&mut s, bay as u64);
                }
                assert(s@ =~= o.level.name() + match o.bay {
                    Some(b) => " bay="@ + crate::number::decimal(b as nat),
                    None => Seq::empty(),
                });
                s.append(": ");
                s.append(o.line0.as_str());
                s.append(" / ");
                s.append(o.line1.as_str());
                Some(s)
            },
            None => None,
        }
    }
}

} // verus!
