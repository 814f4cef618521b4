//! The state machine of the daemon as a mathematical model: what each event does
//! to the state, and what it asks of the hardware and of the log.
//!
//! The status rotation, the action menu, the confirm screen, pushed messages and
//! the nightly sleep meet here. `state` implements the model.
use crate::clock::{in_secs, secs_passed, Deadline, Instant};
use crate::config::{network_level, Config, NetworkConfig};
use crate::hal::{screen, ScreenView};
use crate::led::{
    bay_writes, day_writes, level_pattern, night_writes, nics_mode_writes, status_writes, BayState,
    StatusPattern, WriteView,
};
use crate::monitor::{
    bays_report, pools_report, some_bay_failed, temp_check_due, worst_temp, MonitorView,
    ReadingView,
};
use crate::number::decimal;
use crate::protocol::Key;
use crate::scroll::{truncated, ScrollView};
use crate::socket::{worst_of, CommandView, Level};
use crate::state::{Action, Mode, RefreshPlan};
use crate::syslog::LogView;
use crate::text::texts;
use vstd::prelude::*;

verus! {

/// What a pushed message holds.
pub struct OverrideView {
    pub level: Level,
    pub expires_at: Option<Deadline>,
    pub bay: Option<u32>,
    pub line0: Seq<char>,
    pub line1: Seq<char>,
}

/// The screens of one category, and when they were last refreshed.
pub struct CacheView {
    pub screens: Seq<ScreenView>,
    pub last_refresh: Option<Instant>,
}

/// What was gathered for a refresh, and when.
pub struct GatheredView {
    pub network: Seq<ScreenView>,
    pub network_at: Instant,
    pub pool_healths: Seq<(Seq<char>, Seq<char>)>,
    pub pools: Seq<ScreenView>,
    pub pools_at: Instant,
    pub hdd: Seq<ScreenView>,
    pub hdd_at: Instant,
    pub temperature: Seq<ScreenView>,
    pub temperature_at: Instant,
    pub sensors: Seq<ReadingView>,
    pub docker: Seq<ScreenView>,
    pub docker_at: Instant,
    pub bays: Seq<(u32, BayState)>,
}

/// What an event asks of the outside, in order.
pub enum OutputView {
    /// Write to an LED.
    Led(WriteView),
    /// Let the status LED show the machine's health.
    ShowHealth,
    /// Write to the log.
    Log(LogView),
}

/// What the panel is to do after an event.
pub enum EffectView {
    Render(Seq<char>, Seq<char>),
    RunAction(Action),
    SetLcdPower(bool),
    Nothing,
}

/// The state of the daemon.
pub struct AppView {
    pub cfg: Config,
    pub network: CacheView,
    pub pools: CacheView,
    pub hdd: CacheView,
    pub temperature: CacheView,
    pub docker: CacheView,
    /// The screens that rotate, and the one that shows.
    pub screens: Seq<ScreenView>,
    pub index: int,
    pub auto_rotate: bool,
    /// When the rotation goes on after a manual page.
    pub resume_at: Option<Deadline>,
    /// When the screen that shows came up.
    pub last_dwell: Instant,
    pub mode: Mode,
    /// The message that shows in place of the screens.
    pub over: Option<OverrideView>,
    /// The message that waits for the menu to close.
    pub pending_over: Option<OverrideView>,
    /// The bay whose LED flashes for the message that shows.
    pub alert_bay: Option<u32>,
    pub sleeping: bool,
    /// Whether the LEDs are dark for the night. They stay so where the panel wakes
    /// during the night.
    pub night_leds: bool,
    pub schedule_wants_sleep: bool,
    /// Until when a key keeps the panel awake.
    pub awake_override_until: Option<Deadline>,
    pub scroll0: ScrollView,
    pub scroll1: ScrollView,
    pub eject_available: bool,
    pub monitor: MonitorView,
    /// The worst health of a fan.
    pub fan_health: Level,
}

/// The state after an event, and what the event asked of the outside.
pub struct Step {
    pub state: AppView,
    pub out: Seq<OutputView>,
}

/// Writes to LEDs as outputs.
pub open spec fn leds(w: Seq<WriteView>) -> Seq<OutputView> {
    w.map_values(|x: WriteView| OutputView::Led(x))
}

/// Log entries as outputs.
pub open spec fn log_outputs(l: Seq<LogView>) -> Seq<OutputView> {
    l.map_values(|x: LogView| OutputView::Log(x))
}

/// The writes for the states of some bays.
pub open spec fn bays_out(states: Seq<(u32, BayState)>) -> Seq<OutputView>
    decreases states.len(),
{
    if states.len() == 0 {
        Seq::empty()
    } else {
        bays_out(states.drop_last()) + leds(bay_writes(states.last().0, states.last().1))
    }
}

/// The actions that the menu offers.
pub open spec fn menu_options(eject: bool) -> Seq<Action> {
    if eject {
        seq![Action::Shutdown, Action::Restart, Action::Eject]
    } else {
        seq![Action::Shutdown, Action::Restart]
    }
}

/// The index after `i` among `n`, around the end.
pub open spec fn next_of(i: int, n: int) -> int {
    if i + 1 < n {
        i + 1
    } else {
        0
    }
}

/// The index before `i` among `n`, around the start.
pub open spec fn previous_of(i: int, n: int) -> int {
    if i > 0 {
        i - 1
    } else {
        n - 1
    }
}

/// Whether a category is due for a refresh.
pub open spec fn stale(last: Option<Instant>, floor_secs: u64, now: Instant) -> bool {
    match last {
        Some(t) => secs_passed(now, t, floor_secs),
        None => true,
    }
}

/// Whether a deadline has come.
pub open spec fn reached(now: Instant, deadline: Option<Deadline>) -> bool {
    deadline matches Some(t) && now >= t
}

impl CacheView {
    /// The category after a refresh, where it was due: with new screens where
    /// it has any.
    pub open spec fn refreshed(
        self,
        due: bool,
        shown: bool,
        screens: Seq<ScreenView>,
        at: Instant,
    ) -> CacheView {
        if !due {
            self
        } else if shown {
            CacheView { screens, last_refresh: Some(at) }
        } else {
            CacheView { last_refresh: Some(at), ..self }
        }
    }
}

impl OverrideView {
    /// The message that a command shows. Error and critical messages persist
    /// whatever the command says.
    pub open spec fn pushed(
        level: Level,
        ttl_secs: u64,
        bay: Option<u32>,
        line0: Seq<char>,
        line1: Seq<char>,
        now: Instant,
    ) -> OverrideView {
        OverrideView {
            level,
            expires_at: if level.visible() || ttl_secs == 0 {
                None
            } else {
                Some(in_secs(now, ttl_secs))
            },
            bay,
            line0,
            line1,
        }
    }
}

/// Whether a message of a level may take the place of another: a lower level
/// never takes the place of a higher one.
pub open spec fn may_replace(level: Level, other: Option<OverrideView>) -> bool {
    other matches Some(o) ==> o.level.rank() <= level.rank()
}

impl AppView {
    /// What holds in every state.
    pub open spec fn wf(self) -> bool {
        // The menu's selection is one of its options.
        &&& self.mode matches Mode::ActionMenu { eject, selection } ==> selection < menu_options(
            eject,
        ).len()
        // The screen that shows is one of those that there are.
        &&& self.screens.len() > 0 ==> 0 <= self.index < self.screens.len()
        &&& self.screens.len() == 0 ==> self.index == 0
        &&& self.scroll0.wf()
        &&& self.scroll1.wf()
        // The panel sleeps only where nothing asks for attention.
        &&& self.sleeping ==> self.mode == Mode::Status && self.over is None
        // The LEDs are dark while the panel sleeps.
        &&& self.sleeping ==> self.night_leds
        // A message waits only while the menu is open.
        &&& self.mode == Mode::Status ==> self.pending_over is None
        // The bay that flashes is the one of the message that shows.
        &&& self.alert_bay == self.visible_bay()
        // Error and critical messages do not expire.
        &&& self.over matches Some(o) ==> (o.level.visible() ==> o.expires_at is None)
        &&& self.pending_over matches Some(o) ==> (o.level.visible() ==> o.expires_at is None)
        // The rotation rests exactly while there is a time for it to go on.
        &&& self.auto_rotate == (self.resume_at is None)
    }

    /// The bay that the message that shows is about, where the message is one
    /// that is always visible.
    pub open spec fn visible_bay(self) -> Option<u32> {
        match self.over {
            Some(o) => if o.level.visible() {
                o.bay
            } else {
                None
            },
            None => None,
        }
    }

    /// The first state.
    pub open spec fn initial(cfg: Config, now: Instant) -> AppView {
        let none = CacheView { screens: Seq::empty(), last_refresh: None };
        AppView {
            cfg,
            network: none,
            pools: none,
            hdd: none,
            temperature: none,
            docker: none,
            screens: Seq::empty(),
            index: 0,
            auto_rotate: true,
            resume_at: None,
            last_dwell: now,
            mode: Mode::Status,
            over: None,
            pending_over: None,
            alert_bay: None,
            sleeping: false,
            night_leds: false,
            schedule_wants_sleep: false,
            awake_override_until: None,
            scroll0: ScrollView::initial(),
            scroll1: ScrollView::initial(),
            eject_available: false,
            monitor: MonitorView::initial(),
            fan_health: Level::Info,
        }
    }

    /// The flashing of the bay that the message that shows is about.
    pub open spec fn alert_out(self) -> Seq<OutputView> {
        match self.visible_bay() {
            Some(bay) => leds(bay_writes(bay, BayState::Alert)),
            None => Seq::empty(),
        }
    }

    /// The pattern that the message that shows calls for.
    pub open spec fn override_pattern(self) -> Option<StatusPattern> {
        match self.over {
            Some(o) => level_pattern(o.level),
            None => None,
        }
    }

    /// The status LED: what the message that shows calls for, else the health.
    pub open spec fn status_out(self) -> Seq<OutputView> {
        match self.override_pattern() {
            Some(p) => leds(status_writes(p)),
            None => seq![OutputView::ShowHealth],
        }
    }

    /// The LEDs after the message that shows has changed.
    pub open spec fn sync_leds(self) -> Step {
        let want = self.visible_bay();
        let state = AppView { alert_bay: want, ..self };
        let restored = if self.alert_bay != want {
            match self.alert_bay {
                Some(bay) => leds(bay_writes(bay, BayState::Normal)),
                None => Seq::empty(),
            }
        } else {
            Seq::empty()
        };
        Step { state, out: restored + state.alert_out() + state.status_out() }
    }

    /// The LEDs after the bays were looked at. A bay that a message is about
    /// goes on flashing.
    pub open spec fn update_health_leds(self, bays: Seq<(u32, BayState)>) -> Step {
        Step {
            state: AppView { monitor: self.monitor.with_bays(bays), ..self },
            out: bays_out(bays) + log_outputs(bays_report(self.monitor.bays, bays))
                + self.alert_out() + self.status_out(),
        }
    }

    pub open spec fn reset_scroll(self) -> AppView {
        AppView { scroll0: ScrollView::initial(), scroll1: ScrollView::initial(), ..self }
    }

    /// The state with another message.
    pub open spec fn show(self, over: Option<OverrideView>) -> Step {
        (AppView { over, ..self.reset_scroll() }).sync_leds()
    }

    /// The message that waited shows, unless a more severe one does.
    pub open spec fn apply_pending(self) -> Step {
        let state = AppView { pending_over: None, ..self };
        match self.pending_over {
            Some(ov) => if may_replace(ov.level, self.over) {
                state.show(Some(ov))
            } else {
                Step { state, out: Seq::empty() }
            },
            None => Step { state, out: Seq::empty() },
        }
    }

    /// Back to the screens.
    pub open spec fn close_menu(self) -> Step {
        (AppView { mode: Mode::Status, ..self }).apply_pending()
    }

    /// Which categories are due for a refresh.
    pub open spec fn plan(self, now: Instant) -> RefreshPlan {
        let pools = stale(self.pools.last_refresh, self.cfg.refresh.pools_min_secs, now);
        let hdd = stale(self.hdd.last_refresh, self.cfg.refresh.hdd_min_secs, now);
        RefreshPlan {
            network: self.cfg.screens.network && stale(
                self.network.last_refresh,
                self.cfg.refresh.network_min_secs,
                now,
            ),
            pools,
            pool_screens: pools && self.cfg.screens.pools,
            hdd,
            hdd_screens: hdd && self.cfg.screens.hdd,
            temperature: self.cfg.screens.temperature && stale(
                self.temperature.last_refresh,
                self.cfg.refresh.temperature_min_secs,
                now,
            ),
            sensors: temp_check_due(
                self.monitor.last_temp_check,
                self.cfg.refresh.temperature_min_secs,
                now,
            ),
            docker: self.cfg.screens.docker && stale(
                self.docker.last_refresh,
                self.cfg.refresh.docker_min_secs,
                now,
            ),
            bays: pools || hdd,
        }
    }

    /// The state with the categories of a plan refreshed.
    pub open spec fn with_gathered(self, plan: RefreshPlan, g: GatheredView, now: Instant) -> AppView {
        AppView {
            network: self.network.refreshed(plan.network, plan.network, g.network, g.network_at),
            pools: self.pools.refreshed(plan.pools, plan.pool_screens, g.pools, g.pools_at),
            hdd: self.hdd.refreshed(plan.hdd, plan.hdd_screens, g.hdd, g.hdd_at),
            temperature: self.temperature.refreshed(
                plan.temperature,
                plan.temperature,
                g.temperature,
                g.temperature_at,
            ),
            docker: self.docker.refreshed(plan.docker, plan.docker, g.docker, g.docker_at),
            monitor: if plan.pools {
                self.monitor.with_pools(g.pool_healths)
            } else {
                self.monitor
            }.with_temps_if_due(self.cfg, now, g.sensors),
            ..self
        }
    }

    /// What the monitor reports of what was gathered.
    pub open spec fn gathered_report(
        self,
        plan: RefreshPlan,
        g: GatheredView,
        now: Instant,
    ) -> Seq<OutputView> {
        let pools = if plan.pools {
            log_outputs(pools_report(self.monitor.pools, g.pool_healths))
        } else {
            Seq::empty()
        };
        let monitor = if plan.pools {
            self.monitor.with_pools(g.pool_healths)
        } else {
            self.monitor
        };
        pools + log_outputs(monitor.temps_report_if_due(self.cfg, now, g.sensors))
    }

    /// The screens of all categories, or one that says that there is none.
    pub open spec fn all_screens(self) -> Seq<ScreenView> {
        let all = self.network.screens + self.pools.screens + self.hdd.screens
            + self.temperature.screens + self.docker.screens;
        if all.len() == 0 {
            seq![screen("LCM-STATUS"@, "no screens enabled"@)]
        } else {
            all
        }
    }

    /// The state with its screens put together.
    pub open spec fn assembled(self) -> AppView {
        let all = self.all_screens();
        AppView {
            screens: all,
            index: if self.index >= all.len() {
                0
            } else {
                self.index
            },
            ..self
        }
    }

    /// Takes in what was gathered for the categories that are due.
    pub open spec fn refresh(self, g: GatheredView, now: Instant) -> Step {
        let plan = self.plan(now);
        let state = self.with_gathered(plan, g, now).assembled();
        let report = self.gathered_report(plan, g, now);
        if plan.bays {
            let step = state.update_health_leds(g.bays);
            Step { state: step.state, out: report + step.out }
        } else {
            Step { state, out: report }
        }
    }

    /// The state with every category due.
    pub open spec fn expired(self) -> AppView {
        AppView {
            network: CacheView { last_refresh: None, ..self.network },
            pools: CacheView { last_refresh: None, ..self.pools },
            hdd: CacheView { last_refresh: None, ..self.hdd },
            temperature: CacheView { last_refresh: None, ..self.temperature },
            docker: CacheView { last_refresh: None, ..self.docker },
            ..self
        }
    }

    /// Takes in what was gathered for every category.
    pub open spec fn refresh_all(self, g: GatheredView, now: Instant) -> Step {
        self.expired().refresh(g, now)
    }

    /// The screen before, or the next.
    pub open spec fn page(self, up: bool, now: Instant) -> AppView {
        if self.screens.len() == 0 {
            self
        } else {
            AppView {
                index: if up {
                    previous_of(self.index, self.screens.len() as int)
                } else {
                    next_of(self.index, self.screens.len() as int)
                },
                auto_rotate: false,
                resume_at: Some(in_secs(now, self.cfg.rotation.resume_after_secs)),
                last_dwell: now,
                ..self.reset_scroll()
            }
        }
    }

    /// A key while the panel sleeps wakes it, and does nothing else.
    pub open spec fn wake_by_key(self, g: GatheredView, now: Instant) -> Step {
        (AppView {
            sleeping: false,
            awake_override_until: Some(in_secs(now, self.cfg.rotation.resume_after_secs)),
            ..self
        }).refresh_all(g, now)
    }

    /// A key while the panel is awake.
    pub open spec fn key(self, key: Key, now: Instant) -> (Step, EffectView) {
        let stay = Step { state: self, out: Seq::empty() };
        match self.mode {
            Mode::Status => match key {
                Key::Up => (
                    Step { state: self.page(true, now), out: Seq::empty() },
                    EffectView::Nothing,
                ),
                Key::Down => (
                    Step { state: self.page(false, now), out: Seq::empty() },
                    EffectView::Nothing,
                ),
                Key::Enter => (
                    Step {
                        state: AppView {
                            mode: Mode::ActionMenu { eject: self.eject_available, selection: 0 },
                            ..self
                        },
                        out: Seq::empty(),
                    },
                    EffectView::Nothing,
                ),
                _ => (stay, EffectView::Nothing),
            },
            Mode::ActionMenu { eject, selection } => {
                let n = menu_options(eject).len() as int;
                match key {
                    Key::Up => (self.selecting(eject, previous_of(selection as int, n)), EffectView::Nothing),
                    Key::Down => (self.selecting(eject, next_of(selection as int, n)), EffectView::Nothing),
                    Key::Enter => (
                        Step {
                            state: AppView {
                                mode: Mode::Confirm {
                                    action: menu_options(eject)[selection as int],
                                    deadline: in_secs(now, self.cfg.menu.confirm_timeout_secs),
                                },
                                ..self
                            },
                            out: Seq::empty(),
                        },
                        EffectView::Nothing,
                    ),
                    Key::Back => (self.close_menu(), EffectView::Nothing),
                    _ => (stay, EffectView::Nothing),
                }
            },
            Mode::Confirm { action, deadline } => match key {
                Key::Enter => (self.close_menu(), EffectView::RunAction(action)),
                Key::Back => (self.close_menu(), EffectView::Nothing),
                _ => (stay, EffectView::Nothing),
            },
        }
    }

    /// The menu with another selection.
    pub open spec fn selecting(self, eject: bool, selection: int) -> Step {
        Step {
            state: AppView {
                mode: Mode::ActionMenu { eject, selection: selection as usize },
                ..self
            },
            out: Seq::empty(),
        }
    }

    /// A key.
    pub open spec fn handle_key(self, key: Key, g: GatheredView, now: Instant) -> (
        Step,
        EffectView,
    ) {
        if self.sleeping {
            (self.wake_by_key(g, now), EffectView::SetLcdPower(true))
        } else {
            self.key(key, now)
        }
    }

    /// A message that is pushed. It waits while the menu is open; it is dropped
    /// where a more severe one shows, or where the panel sleeps and the message
    /// is not one that is always visible.
    pub open spec fn push_message(self, ov: OverrideView) -> (Step, EffectView) {
        let stay = Step { state: self, out: Seq::empty() };
        if self.mode != Mode::Status {
            let state = AppView {
                pending_over: if may_replace(ov.level, self.pending_over) {
                    Some(ov)
                } else {
                    self.pending_over
                },
                ..self
            };
            (Step { state, out: Seq::empty() }, EffectView::Nothing)
        } else if !may_replace(ov.level, self.over) || (self.sleeping && !ov.level.visible()) {
            (stay, EffectView::Nothing)
        } else {
            (
                (AppView { sleeping: false, ..self }).show(Some(ov)),
                if self.sleeping {
                    EffectView::SetLcdPower(true)
                } else {
                    EffectView::Nothing
                },
            )
        }
    }

    /// The message that shows goes away. With a bay, only a message about it. While
    /// the panel sleeps none shows, and the LEDs stay dark.
    pub open spec fn clear(self, bay: Option<u32>) -> Step {
        let current = match self.over {
            Some(o) => o.bay,
            None => None,
        };
        if !self.sleeping && (bay is None || bay == current) {
            (AppView { over: None, ..self }).sync_leds()
        } else {
            Step { state: self, out: Seq::empty() }
        }
    }

    /// What a connection asks for. A status request changes nothing.
    pub open spec fn command(self, cmd: CommandView, now: Instant) -> (Step, EffectView) {
        match cmd {
            CommandView::Clear { bay } => (self.clear(bay), EffectView::Nothing),
            CommandView::Show { level, ttl_secs, bay, line0, line1 } => self.push_message(
                OverrideView::pushed(level, ttl_secs, bay, line0, line1, now),
            ),
            CommandView::StatusRequest => (
                Step { state: self, out: Seq::empty() },
                EffectView::Nothing,
            ),
        }
    }

    /// Whether a key keeps the panel awake.
    pub open spec fn in_grace(self, now: Instant) -> bool {
        self.awake_override_until matches Some(t) && now < t
    }

    /// Whether the panel is to fall asleep: the schedule wants it, no key keeps
    /// it awake, no message shows, and the menu is not open.
    pub open spec fn falls_asleep(self, now: Instant) -> bool {
        self.schedule_wants_sleep && !self.sleeping && !self.in_grace(now) && self.over is None
            && self.mode == Mode::Status
    }

    /// Whether the night ends: the schedule no longer wants the panel to sleep,
    /// and the LEDs are still dark, whether or not something woke the panel.
    pub open spec fn day_breaks(self) -> bool {
        !self.schedule_wants_sleep && self.night_leds
    }

    /// Whether a tick puts the LEDs to sleep or wakes them.
    pub open spec fn night_changes(self, now: Instant) -> bool {
        self.falls_asleep(now) || self.day_breaks()
    }

    /// The state without a period of grace that is over.
    pub open spec fn grace_checked(self, now: Instant) -> AppView {
        if self.in_grace(now) {
            self
        } else {
            AppView { awake_override_until: None, ..self }
        }
    }

    /// A message whose time is over goes away.
    pub open spec fn expire_message(self, now: Instant) -> Step {
        match self.over {
            Some(o) => if reached(now, o.expires_at) {
                self.show(None)
            } else {
                Step { state: self, out: Seq::empty() }
            },
            None => Step { state: self, out: Seq::empty() },
        }
    }

    /// The rotation goes on some time after a manual page.
    pub open spec fn resume_rotation(self, now: Instant) -> AppView {
        if !self.auto_rotate && reached(now, self.resume_at) {
            AppView { auto_rotate: true, resume_at: None, ..self }
        } else {
            self
        }
    }

    /// A confirm screen that nobody answers closes.
    pub open spec fn cancel_confirm(self, now: Instant) -> Step {
        match self.mode {
            Mode::Confirm { deadline, .. } => if now >= deadline {
                self.close_menu()
            } else {
                Step { state: self, out: Seq::empty() }
            },
            _ => Step { state: self, out: Seq::empty() },
        }
    }

    /// Whether a line has yet to scroll by for the first time.
    pub open spec fn scrolling(self) -> bool {
        self.scroll0.pending() || self.scroll1.pending()
    }

    /// Whether it is the next screen's turn.
    pub open spec fn turn_due(self, now: Instant) -> bool {
        self.mode == Mode::Status && self.over is None && self.auto_rotate && self.screens.len() > 0
            && !self.scrolling() && secs_passed(
            now,
            self.last_dwell,
            self.cfg.rotation.dwell_secs,
        )
    }

    /// The next screen, where it is its turn.
    pub open spec fn rotate(self, now: Instant) -> AppView {
        if self.turn_due(now) {
            AppView {
                index: next_of(self.index, self.screens.len() as int),
                last_dwell: now,
                ..self.reset_scroll()
            }
        } else {
            self
        }
    }

    /// The two lines to show, before they are cut and scrolled.
    pub open spec fn lines(self) -> (Seq<char>, Seq<char>) {
        match self.mode {
            Mode::Status => match self.over {
                Some(o) => (o.line0, o.line1),
                None => if self.index < self.screens.len() {
                    (self.screens[self.index].line0, self.screens[self.index].line1)
                } else {
                    (Seq::empty(), Seq::empty())
                },
            },
            Mode::ActionMenu { eject, selection } => (
                ">"@ + menu_options(eject)[selection as int].name(),
                "UP/DN ENTER BACK"@,
            ),
            Mode::Confirm { action, .. } => (
                "CONFIRM "@ + action.name() + "?"@,
                "ENTER=yes BACK=no"@,
            ),
        }
    }

    /// A line of the display with its text, a step further where one is due.
    pub open spec fn scrolled(self, s: ScrollView, text: Seq<char>, now: Instant) -> ScrollView {
        s.with_text(truncated(text, self.cfg.display.scroll_max_chars as int), now).stepped(
            self.cfg.display.scroll_step_ms,
            self.cfg.display.scroll_pause_ms,
            now,
        )
    }

    /// The state with both lines of the display up to date.
    pub open spec fn rendered(self, now: Instant) -> AppView {
        AppView {
            scroll0: self.scrolled(self.scroll0, self.lines().0, now),
            scroll1: self.scrolled(self.scroll1, self.lines().1, now),
            ..self
        }
    }

    /// The part of a tick that follows the refresh.
    pub open spec fn advance(self, now: Instant) -> (Step, EffectView) {
        let a = self.expire_message(now);
        let b = a.state.resume_rotation(now).cancel_confirm(now);
        let c = b.state.rotate(now).rendered(now);
        (
            Step { state: c, out: a.out + b.out },
            EffectView::Render(c.scroll0.shown(), c.scroll1.shown()),
        )
    }

    /// The end of the night: the LEDs come back, and everything is refreshed.
    pub open spec fn wake(self, nics: Seq<Seq<char>>, g: GatheredView, now: Instant) -> Step {
        let step = (AppView { sleeping: false, night_leds: false, ..self }).refresh_all(g, now);
        Step {
            state: step.state,
            out: leds(day_writes(nics)) + leds(nics_mode_writes(nics, self.cfg.led.nic_mode))
                + step.out,
        }
    }

    /// A tick while the panel is awake.
    pub open spec fn run(self, g: GatheredView, now: Instant, later: Instant) -> (
        Step,
        EffectView,
    ) {
        let a = self.refresh(g, now);
        let (b, effect) = a.state.advance(later);
        (Step { state: b.state, out: a.out + b.out }, effect)
    }

    /// A tick at which the night ends while the panel is awake.
    pub open spec fn run_at_dawn(
        self,
        nics: Seq<Seq<char>>,
        g: GatheredView,
        now: Instant,
        later: Instant,
    ) -> (Step, EffectView) {
        let a = self.wake(nics, g, now);
        let (b, effect) = a.state.advance(later);
        (Step { state: b.state, out: a.out + b.out }, effect)
    }

    /// One tick. `nics` are the network ports, `now` is the time at its start,
    /// and `later` the time after the refresh.
    pub open spec fn tick(
        self,
        nics: Seq<Seq<char>>,
        g: GatheredView,
        now: Instant,
        later: Instant,
    ) -> (Step, EffectView) {
        let s = self.grace_checked(now);
        if self.falls_asleep(now) {
            (
                Step {
                    state: AppView { sleeping: true, night_leds: true, ..s },
                    out: leds(night_writes(nics)),
                },
                EffectView::SetLcdPower(false),
            )
        } else if self.day_breaks() && self.sleeping {
            (s.wake(nics, g, now), EffectView::SetLcdPower(true))
        } else if self.day_breaks() {
            s.run_at_dawn(nics, g, now, later)
        } else if self.sleeping {
            (Step { state: s, out: Seq::empty() }, EffectView::Nothing)
        } else {
            s.run(g, now, later)
        }
    }

    /// What is to be gathered before a tick.
    pub open spec fn tick_plan(self, now: Instant) -> RefreshPlan {
        if self.falls_asleep(now) {
            RefreshPlan::nothing()
        } else if self.day_breaks() {
            self.expired().plan(now)
        } else if self.sleeping {
            RefreshPlan::nothing()
        } else {
            self.plan(now)
        }
    }

    /// What is to be gathered before a key is handled.
    pub open spec fn key_plan(self, now: Instant) -> RefreshPlan {
        if self.sleeping {
            self.expired().plan(now)
        } else {
            RefreshPlan::nothing()
        }
    }

    /// The LEDs at the start of the daemon.
    pub open spec fn init_leds(self, nics: Seq<Seq<char>>, bays: Seq<(u32, BayState)>) -> Step {
        let step = self.update_health_leds(bays);
        Step {
            state: step.state,
            out: leds(nics_mode_writes(nics, self.cfg.led.nic_mode)) + step.out,
        }
    }

    /// The contribution of the network to the health: none where it does not
    /// count or nothing is monitored.
    pub open spec fn network_health(self, configured: Seq<Seq<char>>, down: Seq<Seq<char>>) -> Level {
        network_health(self.cfg.network, configured, down)
    }

    /// The health of the machine.
    pub open spec fn health(self, h: HealthView) -> SummaryView {
        let bay_failed = some_bay_failed(self.monitor.bays);
        let temp_level = worst_temp(self.monitor.temps);
        let network_level = self.network_health(h.configured, h.down);
        let overall = worst_of(
            seq![
                self.fan_health,
                temp_level,
                network_level,
                if bay_failed {
                    Level::Error
                } else {
                    Level::Info
                },
            ],
        );
        let pool_degraded = some_pool_degraded(h.pools);
        let pool_faulted = some_pool_faulted(h.pools);
        SummaryView {
            pool_healths: h.pools,
            pool_degraded,
            pool_faulted,
            bay_failed,
            temp_level,
            network_level,
            fan_health: self.fan_health,
            overall,
            pattern: health_pattern(overall, pool_degraded, pool_faulted),
        }
    }

    /// The message that shows, in words.
    pub open spec fn override_text(self) -> Option<Seq<char>> {
        match self.over {
            Some(o) => Some(
                o.level.name() + (match o.bay {
                    Some(b) => " bay="@ + decimal(b as nat),
                    None => Seq::empty(),
                }) + ": "@ + o.line0 + " / "@ + o.line1,
            ),
            None => None,
        }
    }
}

/// What the health of the machine is made out from, besides the state.
pub struct HealthView {
    /// The pools and their health.
    pub pools: Seq<(Seq<char>, Seq<char>)>,
    /// The interfaces that have an address.
    pub configured: Seq<Seq<char>>,
    /// The interfaces whose link is down.
    pub down: Seq<Seq<char>>,
}

/// The health of the machine.
pub struct SummaryView {
    pub pool_healths: Seq<(Seq<char>, Seq<char>)>,
    pub pool_degraded: bool,
    pub pool_faulted: bool,
    pub bay_failed: bool,
    pub temp_level: Level,
    pub network_level: Level,
    pub fan_health: Level,
    pub overall: Level,
    pub pattern: StatusPattern,
}

/// Whether some pool is degraded.
pub open spec fn some_pool_degraded(pools: Seq<(Seq<char>, Seq<char>)>) -> bool {
    exists|i: int| 0 <= i < pools.len() && (#[trigger] pools[i]).1 == "DEGRADED"@
}

/// Whether a pool with this health serves no data.
pub open spec fn is_faulted(health: Seq<char>) -> bool {
    health == "FAULTED"@ || health == "UNAVAIL"@ || health == "OFFLINE"@
}

/// Whether some pool serves no data.
pub open spec fn some_pool_faulted(pools: Seq<(Seq<char>, Seq<char>)>) -> bool {
    exists|i: int| 0 <= i < pools.len() && is_faulted((#[trigger] pools[i]).1)
}

/// The interfaces whose links count: those that the settings name, else those
/// that have an address.
pub open spec fn monitored(cfg: NetworkConfig, configured: Seq<Seq<char>>) -> Seq<Seq<char>> {
    if cfg.monitored_nics@.len() == 0 {
        configured
    } else {
        texts(cfg.monitored_nics@)
    }
}

/// How many of some interfaces are down.
pub open spec fn down_count(nics: Seq<Seq<char>>, down: Seq<Seq<char>>) -> nat
    decreases nics.len(),
{
    if nics.len() == 0 {
        0
    } else {
        down_count(nics.drop_last(), down) + if down.contains(nics.last()) {
            1nat
        } else {
            0
        }
    }
}

/// The severity of the links that are down.
pub open spec fn network_health(
    cfg: NetworkConfig,
    configured: Seq<Seq<char>>,
    down: Seq<Seq<char>>,
) -> Level {
    let nics = monitored(cfg, configured);
    let n = down_count(nics, down);
    if !cfg.enabled || n == 0 {
        Level::Info
    } else if n == nics.len() {
        network_level(cfg.all_down_level)
    } else {
        network_level(cfg.some_down_level)
    }
}

/// The pattern of the status LED. A degraded pool has a pattern of its own,
/// between those of an error and of a warning.
pub open spec fn health_pattern(
    overall: Level,
    pool_degraded: bool,
    pool_faulted: bool,
) -> StatusPattern {
    if overall == Level::Critical {
        StatusPattern::CriticalFlashing
    } else if pool_faulted || overall == Level::Error {
        StatusPattern::Failed
    } else if pool_degraded {
        StatusPattern::Degraded
    } else if overall == Level::Warn {
        StatusPattern::Warning
    } else {
        StatusPattern::Healthy
    }
}

} // verus!
