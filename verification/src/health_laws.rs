//! What the status LED, the bays' LEDs and the screens can be relied on for: that
//! nothing bad is hidden, that nothing is made worse than it is, and that what shows
//! is what was gathered last.
use crate::clock::Instant;
use crate::config::{NetworkConfig, NetworkLevel};
use crate::hal::ScreenView;
use crate::led::{bay_writes, nics_mode_writes, status_writes, BayState, StatusPattern};
use crate::model::{
    bays_out, down_count, leds, log_outputs, network_health, AppView, CacheView, EffectView,
    GatheredView, HealthView, OutputView,
};
use crate::monitor::{bays_report, pools_report, worst_temp};
use crate::scroll::{line_scrolls_in_time, truncated, ScrollView};
use crate::socket::{worst_of_is_greatest, Level};
use crate::state::{Mode, RefreshPlan};
use crate::text::texts;
use vstd::prelude::*;

verus! {

/// Whether a level is `want` or worse.
pub open spec fn at_least(level: Level, want: Level) -> bool {
    match want {
        Level::Info => true,
        Level::Warn => level != Level::Info,
        Level::Error => level == Level::Error || level == Level::Critical,
        Level::Critical => level == Level::Critical,
    }
}

/// The overall level hides nothing: it is as severe as that of the fans, of the
/// temperatures and of the network, and at least an error where a bay has failed.
/// And it makes nothing worse: it is one of these, or `Info`.
pub proof fn overall_is_the_worst(s: AppView, h: HealthView)
    ensures
        ({
            let r = s.health(h);
            &&& at_least(r.overall, r.fan_health)
            &&& at_least(r.overall, r.temp_level)
            &&& at_least(r.overall, r.network_level)
            &&& r.bay_failed ==> at_least(r.overall, Level::Error)
            &&& r.overall == Level::Info || r.overall == r.fan_health || r.overall == r.temp_level
                || r.overall == r.network_level || (r.bay_failed && r.overall == Level::Error)
        }),
{
    let r = s.health(h);
    let all = seq![
        s.fan_health,
        r.temp_level,
        r.network_level,
        if r.bay_failed {
            Level::Error
        } else {
            Level::Info
        },
    ];
    worst_of_is_greatest(all);
    assert(all[0].rank() <= r.overall.rank());
    assert(all[1].rank() <= r.overall.rank());
    assert(all[2].rank() <= r.overall.rank());
    assert(all[3].rank() <= r.overall.rank());
}

/// What the summary is made from: the health of the fans that was set last, the
/// worst level of a connected sensor, the links, whether some bay's last known state
/// is a failure, and the pools as they were read.
pub proof fn summary_is_of_the_machine(s: AppView, h: HealthView)
    ensures
        ({
            let r = s.health(h);
            &&& r.fan_health == s.fan_health
            &&& r.temp_level == worst_temp(s.monitor.temps)
            &&& r.network_level == network_health(s.cfg.network, h.configured, h.down)
            &&& r.bay_failed <==> exists|b: u32| #[trigger]
                s.monitor.bays.contains_key(b) && s.monitor.bays[b] == BayState::Failed
            &&& r.pool_healths == h.pools
            &&& r.pool_degraded <==> exists|i: int|
                0 <= i < h.pools.len() && (#[trigger] h.pools[i]).1 == "DEGRADED"@
            &&& r.pool_faulted <==> exists|i: int|
                0 <= i < h.pools.len() && ((#[trigger] h.pools[i]).1 == "FAULTED"@ || h.pools[i].1
                    == "UNAVAIL"@ || h.pools[i].1 == "OFFLINE"@)
        }),
{
}

/// The pattern of the status LED, by what is worst: flashing red for a critical
/// condition, red for an error, a failed bay or a pool that serves no data, a
/// pattern of its own for a degraded pool, then a warning, else healthy.
pub proof fn pattern_is_of_the_worst(s: AppView, h: HealthView)
    ensures
        ({
            let r = s.health(h);
            let critical = r.fan_health == Level::Critical || r.temp_level == Level::Critical
                || r.network_level == Level::Critical;
            let failed = r.fan_health == Level::Error || r.temp_level == Level::Error
                || r.network_level == Level::Error || r.bay_failed || r.pool_faulted;
            let warned = r.fan_health == Level::Warn || r.temp_level == Level::Warn
                || r.network_level == Level::Warn;
            &&& r.pattern == StatusPattern::CriticalFlashing <==> critical
            &&& r.pattern == StatusPattern::Failed <==> !critical && failed
            &&& r.pattern == StatusPattern::Degraded <==> !critical && !failed && r.pool_degraded
            &&& r.pattern == StatusPattern::Warning <==> !critical && !failed && !r.pool_degraded
                && warned
            &&& r.pattern == StatusPattern::Healthy <==> !critical && !failed && !r.pool_degraded
                && !warned
        }),
{
    overall_is_the_worst(s, h);
}

proof fn lemma_down_count(nics: Seq<Seq<char>>, down: Seq<Seq<char>>)
    ensures
        0 <= down_count(nics, down) <= nics.len(),
        down_count(nics, down) == 0 <==> forall|i: int|
            0 <= i < nics.len() ==> !down.contains(#[trigger] nics[i]),
        down_count(nics, down) == nics.len() <==> forall|i: int|
            0 <= i < nics.len() ==> down.contains(#[trigger] nics[i]),
    decreases nics.len(),
{
    if nics.len() > 0 {
        let rest = nics.drop_last();
        lemma_down_count(rest, down);
        assert(forall|i: int| 0 <= i < rest.len() ==> rest[i] == nics[i]);
        assert(nics[nics.len() - 1] == nics.last());
        if forall|i: int| 0 <= i < nics.len() ==> !down.contains(#[trigger] nics[i]) {
            assert forall|i: int| 0 <= i < rest.len() implies !down.contains(#[trigger] rest[i]) by {
                assert(rest[i] == nics[i]);
            }
        }
        if forall|i: int| 0 <= i < nics.len() ==> down.contains(#[trigger] nics[i]) {
            assert forall|i: int| 0 <= i < rest.len() implies down.contains(#[trigger] rest[i]) by {
                assert(rest[i] == nics[i]);
            }
        }
        if down_count(nics, down) == 0 {
            assert forall|i: int| 0 <= i < nics.len() implies !down.contains(#[trigger] nics[i]) by {
                if i < rest.len() {
                    assert(nics[i] == rest[i]);
                }
            }
        }
        if down_count(nics, down) == nics.len() {
            assert forall|i: int| 0 <= i < nics.len() implies down.contains(#[trigger] nics[i]) by {
                if i < rest.len() {
                    assert(nics[i] == rest[i]);
                }
            }
        }
    }
}

/// Whether none of some links is down.
pub open spec fn all_up(nics: Seq<Seq<char>>, down: Seq<Seq<char>>) -> bool {
    forall|i: int| 0 <= i < nics.len() ==> !down.contains(#[trigger] nics[i])
}

/// Whether every one of some links is down.
pub open spec fn all_down(nics: Seq<Seq<char>>, down: Seq<Seq<char>>) -> bool {
    forall|i: int| 0 <= i < nics.len() ==> down.contains(#[trigger] nics[i])
}

/// What the links come to. Those that count are the ones that the settings name, or
/// all that have an address where the settings name none. Nothing where monitoring is
/// off or all of them are up; the level for all where none is up; the level for some
/// otherwise.
pub proof fn links_that_are_down_count(
    cfg: NetworkConfig,
    configured: Seq<Seq<char>>,
    down: Seq<Seq<char>>,
    nics: Seq<Seq<char>>,
)
    requires
        cfg.monitored_nics@.len() == 0 ==> nics == configured,
        cfg.monitored_nics@.len() > 0 ==> nics == texts(cfg.monitored_nics@),
    ensures
        ({
            let level = network_health(cfg, configured, down);
            &&& !cfg.enabled || all_up(nics, down) ==> level == Level::Info
            &&& cfg.enabled && !all_up(nics, down) && all_down(nics, down) ==> level
                == match cfg.all_down_level {
                NetworkLevel::Warning => Level::Warn,
                NetworkLevel::Error => Level::Error,
            }
            &&& cfg.enabled && !all_up(nics, down) && !all_down(nics, down) ==> level
                == match cfg.some_down_level {
                NetworkLevel::Warning => Level::Warn,
                NetworkLevel::Error => Level::Error,
            }
        }),
{
    lemma_down_count(nics, down);
}

/// Whether a category that was last refreshed at `last` is due at `now`.
pub open spec fn is_due(last: Option<Instant>, secs: u64, now: Instant) -> bool {
    match last {
        None => true,
        Some(t) => secs == 0 || now >= t + secs * 1_000_000_000,
    }
}

/// What is gathered: each category once its interval has gone by, the pools and the
/// drives whether or not they have screens, and the states of the bays with either.
pub proof fn plan_is_what_is_due(s: AppView, now: Instant)
    ensures
        ({
            let plan = s.plan(now);
            let f = s.cfg.refresh;
            &&& plan.network <==> s.cfg.screens.network && is_due(
                s.network.last_refresh,
                f.network_min_secs,
                now,
            )
            &&& plan.pools <==> is_due(s.pools.last_refresh, f.pools_min_secs, now)
            &&& plan.pool_screens <==> plan.pools && s.cfg.screens.pools
            &&& plan.hdd <==> is_due(s.hdd.last_refresh, f.hdd_min_secs, now)
            &&& plan.hdd_screens <==> plan.hdd && s.cfg.screens.hdd
            &&& plan.temperature <==> s.cfg.screens.temperature && is_due(
                s.temperature.last_refresh,
                f.temperature_min_secs,
                now,
            )
            &&& plan.docker <==> s.cfg.screens.docker && is_due(
                s.docker.last_refresh,
                f.docker_min_secs,
                now,
            )
            &&& plan.bays <==> plan.pools || plan.hdd
            &&& plan.sensors <==> is_due(
                s.monitor.last_temp_check,
                if f.temperature_min_secs == 0 {
                    1
                } else {
                    f.temperature_min_secs
                },
                now,
            )
        }),
{
}

/// What a refresh leaves in the caches: what was gathered of each category that was
/// due and has screens, and what was there before of any other.
pub proof fn refresh_takes_what_was_gathered(s: AppView, g: GatheredView, now: Instant)
    ensures
        ({
            let plan = s.plan(now);
            let r = s.refresh(g, now).state;
            &&& r.network == if plan.network {
                CacheView { screens: g.network, last_refresh: Some(g.network_at) }
            } else {
                s.network
            }
            &&& r.temperature == if plan.temperature {
                CacheView { screens: g.temperature, last_refresh: Some(g.temperature_at) }
            } else {
                s.temperature
            }
            &&& r.docker == if plan.docker {
                CacheView { screens: g.docker, last_refresh: Some(g.docker_at) }
            } else {
                s.docker
            }
            &&& r.pools.screens == if plan.pools && s.cfg.screens.pools {
                g.pools
            } else {
                s.pools.screens
            }
            &&& r.pools.last_refresh == if plan.pools {
                Some(g.pools_at)
            } else {
                s.pools.last_refresh
            }
            &&& r.hdd.screens == if plan.hdd && s.cfg.screens.hdd {
                g.hdd
            } else {
                s.hdd.screens
            }
            &&& r.hdd.last_refresh == if plan.hdd {
                Some(g.hdd_at)
            } else {
                s.hdd.last_refresh
            }
        }),
{
}

/// The screens after a refresh: those of the network, the pools, the drives, the
/// temperatures and the containers, in this order; a notice where there is none. The
/// screen that shows stays where it was, or is the first where there are fewer.
pub proof fn screens_after_a_refresh(s: AppView, g: GatheredView, now: Instant)
    ensures
        ({
            let r = s.refresh(g, now).state;
            let all = r.network.screens + r.pools.screens + r.hdd.screens + r.temperature.screens
                + r.docker.screens;
            &&& all.len() > 0 ==> r.screens == all
            &&& all.len() == 0 ==> r.screens == seq![
                ScreenView { line0: "LCM-STATUS"@, line1: "no screens enabled"@ },
            ]
            &&& r.index == if s.index < r.screens.len() {
                s.index
            } else {
                0
            }
        }),
{
}

/// What the monitor learns from a refresh: the pools where they were due, the bays
/// where the pools or the drives were, and the sensors at their own pace.
pub proof fn monitor_after_a_refresh(s: AppView, g: GatheredView, now: Instant)
    ensures
        ({
            let plan = s.plan(now);
            let m = s.refresh(g, now).state.monitor;
            &&& m.pools == if plan.pools {
                s.monitor.with_pools(g.pool_healths).pools
            } else {
                s.monitor.pools
            }
            &&& m.bays == if plan.pools || plan.hdd {
                s.monitor.with_bays(g.bays).bays
            } else {
                s.monitor.bays
            }
            &&& m.temps == if plan.sensors {
                s.monitor.with_temps(s.cfg.temperature, g.sensors).temps
            } else {
                s.monitor.temps
            }
            &&& m.last_temp_check == if plan.sensors {
                Some(now)
            } else {
                s.monitor.last_temp_check
            }
        }),
{
}

/// Everything is due after everything has expired: a refresh of all takes in all
/// that has screens, whenever the last one was.
pub proof fn refresh_of_all_is_of_all(s: AppView, g: GatheredView, now: Instant)
    ensures
        ({
            let r = s.refresh_all(g, now).state;
            let c = s.cfg.screens;
            &&& c.network ==> r.network.screens == g.network
            &&& c.pools ==> r.pools.screens == g.pools
            &&& c.hdd ==> r.hdd.screens == g.hdd
            &&& c.temperature ==> r.temperature.screens == g.temperature
            &&& c.docker ==> r.docker.screens == g.docker
            &&& r.monitor.bays == s.monitor.with_bays(g.bays).bays
            &&& r.monitor.pools == s.monitor.with_pools(g.pool_healths).pools
        }),
{
}

proof fn lemma_bay_is_written(states: Seq<(u32, BayState)>, i: int) -> (p: int)
    requires
        0 <= i < states.len(),
    ensures
        0 <= p,
        p + bay_writes(states[i].0, states[i].1).len() <= bays_out(states).len(),
        bays_out(states).subrange(p, p + bay_writes(states[i].0, states[i].1).len()) == leds(
            bay_writes(states[i].0, states[i].1),
        ),
    decreases states.len(),
{
    let rest = states.drop_last();
    let a = bays_out(rest);
    let b = leds(bay_writes(states.last().0, states.last().1));
    if i == states.len() - 1 {
        assert((a + b).subrange(a.len() as int, a.len() as int + b.len()) =~= b);
        a.len() as int
    } else {
        assert(rest[i] == states[i]);
        let p = lemma_bay_is_written(rest, i);
        let n = bay_writes(states[i].0, states[i].1).len() as int;
        assert((a + b).subrange(p, p + n) =~= a.subrange(p, p + n));
        p
    }
}

/// Every bay that is looked at is shown: what stands for its state is written to its
/// LEDs, whatever the other bays do.
pub proof fn every_bay_is_shown(s: AppView, bays: Seq<(u32, BayState)>, i: int)
    requires
        0 <= i < bays.len(),
    ensures
        ({
            let out = s.update_health_leds(bays).out;
            let own = leds(bay_writes(bays[i].0, bays[i].1));
            exists|p: int|
                0 <= p && p + own.len() <= out.len() && #[trigger] out.subrange(p, p + own.len())
                    == own
        }),
{
    let out = s.update_health_leds(bays).out;
    let own = leds(bay_writes(bays[i].0, bays[i].1));
    let p = lemma_bay_is_written(bays, i);
    assert(out.subrange(p, p + own.len()) =~= bays_out(bays).subrange(p, p + own.len()));
}

/// What is put out when the bays are looked at: the LEDs of the bays, what there is
/// to log of them, the flashing of the bay that an urgent message names, and then the
/// status LED: as the message asks where it is urgent, else as the health does.
pub proof fn outputs_for_the_bays(s: AppView, bays: Seq<(u32, BayState)>)
    ensures
        ({
            let step = s.update_health_leds(bays);
            let urgent = s.over is Some && (s.over->0.level == Level::Error || s.over->0.level
                == Level::Critical);
            let flashing = if urgent && s.over->0.bay is Some {
                leds(bay_writes(s.over->0.bay->0, BayState::Alert))
            } else {
                Seq::empty()
            };
            let status = if urgent && s.over->0.level == Level::Critical {
                leds(status_writes(StatusPattern::CriticalFlashing))
            } else if urgent {
                leds(status_writes(StatusPattern::Failed))
            } else {
                seq![OutputView::ShowHealth]
            };
            &&& step.out == bays_out(bays) + log_outputs(bays_report(s.monitor.bays, bays))
                + flashing + status
            &&& step.state == (AppView { monitor: s.monitor.with_bays(bays), ..s })
        }),
{
}

/// What a refresh puts out: first what there is to log of the pools that were due,
/// then of the sensors that were, then what the bays come to where they were.
pub proof fn outputs_of_a_refresh(s: AppView, g: GatheredView, now: Instant)
    ensures
        ({
            let plan = s.plan(now);
            let step = s.refresh(g, now);
            let pools = if plan.pools {
                log_outputs(pools_report(s.monitor.pools, g.pool_healths))
            } else {
                Seq::empty()
            };
            let temps = log_outputs(s.monitor.temps_report_if_due(s.cfg, now, g.sensors));
            let bays = if plan.pools || plan.hdd {
                s.update_health_leds(g.bays).out
            } else {
                Seq::empty()
            };
            step.out == pools + temps + bays
        }),
{
    let plan = s.plan(now);
    let step = s.refresh(g, now);
    let report = s.gathered_report(plan, g, now);
    assert(report + Seq::<OutputView>::empty() =~= report);
}

/// The LEDs at the start: those of the network ports in their mode, then the bays and
/// the status LED.
pub proof fn leds_at_the_start(s: AppView, nics: Seq<Seq<char>>, bays: Seq<(u32, BayState)>)
    ensures
        s.init_leds(nics, bays).out == leds(nics_mode_writes(nics, s.cfg.led.nic_mode))
            + s.update_health_leds(bays).out,
        s.init_leds(nics, bays).state.monitor.bays == s.monitor.with_bays(bays).bays,
{
}

proof fn lemma_rendered(s: AppView, now: Instant)
    ensures
        ({
            let t = s.rendered(now);
            let max = s.cfg.display.scroll_max_chars as int;
            &&& t.cfg == s.cfg
            &&& t.lines() == s.lines()
            &&& t.scroll0.text == truncated(s.lines().0, max)
            &&& t.scroll1.text == truncated(s.lines().1, max)
        }),
{
}

/// What a tick shows while the panel is awake: the two lines, cut to the configured
/// length, each as far as it has scrolled; a line that fits shows as it is.
pub proof fn tick_shows_the_lines(s: AppView, now: Instant)
    requires
        s.wf(),
    ensures
        ({
            let (step, effect) = s.advance(now);
            let t = step.state;
            let max = t.cfg.display.scroll_max_chars as int;
            let (a, b) = t.lines();
            &&& effect == EffectView::Render(t.scroll0.shown(), t.scroll1.shown())
            &&& t.scroll0.text == if a.len() <= max {
                a
            } else {
                a.take(max)
            }
            &&& t.scroll1.text == if b.len() <= max {
                b
            } else {
                b.take(max)
            }
            &&& a.len() <= 16 && a.len() <= max ==> t.scroll0.shown() == a
            &&& b.len() <= 16 && b.len() <= max ==> t.scroll1.shown() == b
        }),
{
    let a = s.expire_message(now);
    let b = a.state.resume_rotation(now).cancel_confirm(now);
    lemma_rendered(b.state.rotate(now), now);
}

/// A tick turns to the next screen exactly where that is due, and otherwise stays
/// where it is.
pub proof fn tick_turns_in_time(s: AppView, now: Instant)
    requires
        s.wf(),
        s.mode == Mode::Status,
        s.over is None,
        s.screens.len() > 0,
        s.cfg.rotation.dwell_secs > 0,
    ensures
        ({
            let goes_on = s.auto_rotate || (s.resume_at is Some && now >= s.resume_at->0);
            let due = goes_on && (s.scroll0.text.len() <= 16 || s.scroll0.completed_a_pass) && (
            s.scroll1.text.len() <= 16 || s.scroll1.completed_a_pass) && now >= s.last_dwell
                + s.cfg.rotation.dwell_secs * 1_000_000_000;
            let t = s.advance(now).0.state;
            &&& t.auto_rotate == goes_on
            &&& due ==> t.index == if s.index + 1 < s.screens.len() {
                s.index + 1
            } else {
                0
            }
            &&& due ==> t.last_dwell == now
            &&& !due ==> t.index == s.index && t.last_dwell == s.last_dwell
            &&& t.screens == s.screens
        }),
{
}

/// Both lines scroll at the configured pace. A line whose text stays is moved on by one
/// character once the pause and the step time of the settings are over since it last
/// started and last moved, and stays where it is until then.
pub proof fn lines_scroll_at_the_configured_pace(s: AppView, now: Instant)
    requires
        s.wf(),
        s.cfg.display.scroll_step_ms > 0,
        s.cfg.display.scroll_pause_ms > 0,
    ensures
        ({
            let d = s.cfg.display;
            let t = s.rendered(now);
            &&& s.lines().0 == s.scroll0.text && s.scroll0.text.len() <= d.scroll_max_chars
                ==> moved_in_time(s.scroll0, t.scroll0, d.scroll_step_ms, d.scroll_pause_ms, now)
            &&& s.lines().1 == s.scroll1.text && s.scroll1.text.len() <= d.scroll_max_chars
                ==> moved_in_time(s.scroll1, t.scroll1, d.scroll_step_ms, d.scroll_pause_ms, now)
        }),
{
    line_scrolls_in_time(
        s.scroll0,
        s.cfg.display.scroll_step_ms,
        s.cfg.display.scroll_pause_ms,
        now,
    );
    line_scrolls_in_time(
        s.scroll1,
        s.cfg.display.scroll_step_ms,
        s.cfg.display.scroll_pause_ms,
        now,
    );
}

/// Whether a line has moved by as much as is due: by one character, or back to its
/// front from its end, once both times are over; else not at all.
pub open spec fn moved_in_time(
    before: ScrollView,
    after: ScrollView,
    step_ms: u64,
    pause_ms: u64,
    now: Instant,
) -> bool {
    let due = before.text.len() > 16 && (before.started is None || now >= before.started->0
        + pause_ms * 1_000_000) && before.last_step is Some && now >= before.last_step->0 + step_ms
        * 1_000_000;
    &&& !due ==> after == before
    &&& due ==> after.last_step == Some(now) && after.text == before.text
    &&& due && before.offset < before.text.len() + 4 ==> after.offset == before.offset + 1
        && after.started == before.started
    &&& due && before.offset >= before.text.len() + 4 ==> after.offset == 0 && after.started
        == Some(now) && after.completed_a_pass
}

/// A key that wakes the panel has everything gathered anew that the panel shows, and
/// so has the end of the night; a panel that sleeps, or falls asleep, needs nothing.
pub proof fn plan_of_an_event(s: AppView, now: Instant)
    ensures
        ({
            let p = s.key_plan(now);
            let none = |q: RefreshPlan|
                !q.network && !q.pools && !q.pool_screens && !q.hdd && !q.hdd_screens
                    && !q.temperature && !q.sensors && !q.docker && !q.bays;
            let all = |q: RefreshPlan|
                q.pools && q.hdd && q.bays && q.network == s.cfg.screens.network && q.pool_screens
                    == s.cfg.screens.pools && q.hdd_screens == s.cfg.screens.hdd && q.temperature
                    == s.cfg.screens.temperature && q.docker == s.cfg.screens.docker;
            let q = s.tick_plan(now);
            let kept_awake = s.awake_override_until is Some && now < s.awake_override_until->0;
            &&& !s.sleeping ==> none(p)
            &&& s.sleeping ==> all(p)
            &&& !s.schedule_wants_sleep && s.night_leds ==> all(q)
            &&& s.sleeping && (s.schedule_wants_sleep || !s.night_leds) ==> none(q)
            &&& s.schedule_wants_sleep && !s.sleeping && s.over is None && s.mode == Mode::Status
                && !kept_awake ==> none(q)
            &&& !s.sleeping && (if s.schedule_wants_sleep {
                s.over is Some || s.mode != Mode::Status || kept_awake
            } else {
                !s.night_leds
            }) ==> q == s.plan(now)
        }),
{
}

} // verus!
