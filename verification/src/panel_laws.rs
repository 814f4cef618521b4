//! What the one in front of the panel can count on: which screen comes up when,
//! what a key does, and how long a message shows.
use crate::clock::Instant;
use crate::config::Config;
use crate::model::{leds, AppView, EffectView, GatheredView, OutputView, OverrideView, Step};
use crate::led::{bay_writes, status_writes, BayState, StatusPattern};
use crate::protocol::Key;
use crate::socket::{CommandView, Level};
use crate::state::{Action, Mode};
use vstd::prelude::*;

verus! {

proof fn lemma_wraps(i: int, n: int)
    requires
        0 <= i < n,
    ensures
        (i + 1) % n == if i + 1 < n {
            i + 1
        } else {
            0
        },
        (i + n - 1) % n == if i > 0 {
            i - 1
        } else {
            n - 1
        },
{
    if i + 1 < n {
        vstd::arithmetic::div_mod::lemma_small_mod((i + 1) as nat, n as nat);
    } else {
        vstd::arithmetic::div_mod::lemma_mod_self_0(n);
    }
    if i > 0 {
        vstd::arithmetic::div_mod::lemma_mod_add_multiples_vanish(i - 1, n);
        vstd::arithmetic::div_mod::lemma_small_mod((i - 1) as nat, n as nat);
    } else {
        vstd::arithmetic::div_mod::lemma_small_mod((n - 1) as nat, n as nat);
    }
}

/// A turn of the rotation and the key DOWN lead from screen `i` of `n` to screen
/// `(i + 1) mod n`, the key UP to screen `(i - 1) mod n`.
pub proof fn screens_come_in_turn(s: AppView, g: GatheredView, now: Instant)
    requires
        s.wf(),
        s.screens.len() > 0,
    ensures
        s.turn_due(now) ==> s.rotate(now).index == (s.index + 1) % (s.screens.len() as int),
        !s.turn_due(now) ==> s.rotate(now).index == s.index,
        !s.sleeping && s.mode == Mode::Status ==> s.handle_key(Key::Down, g, now).0.state.index == (
        s.index + 1) % (s.screens.len() as int),
        !s.sleeping && s.mode == Mode::Status ==> s.handle_key(Key::Up, g, now).0.state.index == (
        s.index + s.screens.len() - 1) % (s.screens.len() as int),
        s.rotate(now).screens == s.screens,
        s.page(true, now).screens == s.screens,
        s.page(false, now).screens == s.screens,
{
    lemma_wraps(s.index, s.screens.len() as int);
}

/// The state after some turns of the rotation, at the given times.
pub open spec fn after_turns(s: AppView, times: Seq<Instant>) -> AppView
    decreases times.len(),
{
    if times.len() == 0 {
        s
    } else {
        after_turns(s, times.drop_last()).rotate(times.last())
    }
}

/// Whether a turn is due at each of the given times.
pub open spec fn turns_are_due(s: AppView, times: Seq<Instant>) -> bool
    decreases times.len(),
{
    times.len() > 0 ==> turns_are_due(s, times.drop_last()) && after_turns(
        s,
        times.drop_last(),
    ).turn_due(times.last())
}

/// The state after some presses of the key DOWN, at the given times.
pub open spec fn after_downs(s: AppView, times: Seq<Instant>) -> AppView
    decreases times.len(),
{
    if times.len() == 0 {
        s
    } else {
        after_downs(s, times.drop_last()).page(false, times.last())
    }
}

proof fn lemma_one_further(i: int, k: int, n: int)
    requires
        0 <= k,
        0 <= i < n,
    ensures
        0 <= (i + k) % n < n,
        ((i + k) % n + 1) % n == (i + k + 1) % n,
{
    vstd::arithmetic::div_mod::lemma_mod_bound(i + k, n);
    vstd::arithmetic::div_mod::lemma_add_mod_noop_right(1, i + k, n);
}

/// `k` turns, or `k` presses of DOWN, lead from screen `i` of `n` to screen
/// `(i + k) mod n`.
pub proof fn turns_add_up(s: AppView, times: Seq<Instant>)
    requires
        s.wf(),
        s.screens.len() > 0,
    ensures
        turns_are_due(s, times) ==> after_turns(s, times).index == (s.index + times.len())
            % s.screens.len() as int,
        turns_are_due(s, times) ==> after_turns(s, times).screens == s.screens,
        after_downs(s, times).index == (s.index + times.len()) % s.screens.len() as int,
        after_downs(s, times).screens == s.screens,
    decreases times.len(),
{
    let n = s.screens.len() as int;
    if times.len() == 0 {
        vstd::arithmetic::div_mod::lemma_small_mod(s.index as nat, n as nat);
    } else {
        let before = times.drop_last();
        turns_add_up(s, before);
        lemma_one_further(s.index, before.len() as int, n);
        lemma_wraps((s.index + before.len()) % n, n);
    }
}

/// As many turns, or presses of DOWN, as there are screens show every one of them
/// exactly once.
pub proof fn every_screen_comes_up_once(s: AppView, times: Seq<Instant>, j: int)
    requires
        s.wf(),
        0 <= j < s.screens.len(),
        times.len() == s.screens.len(),
        forall|k: int| 0 <= k <= times.len() ==> turns_are_due(s, #[trigger] times.take(k)),
    ensures
        exists|k: int|
            0 <= k < times.len() && after_turns(s, #[trigger] times.take(k)).index == j
                && after_downs(s, times.take(k)).index == j,
        forall|k: int, m: int|
            0 <= k < m < times.len() ==> after_turns(s, #[trigger] times.take(k)).index
                != after_turns(s, #[trigger] times.take(m)).index && after_downs(
                s,
                times.take(k),
            ).index != after_downs(s, times.take(m)).index,
{
    let n = s.screens.len() as int;
    let k = if j >= s.index {
        j - s.index
    } else {
        j - s.index + n
    };
    turns_add_up(s, times.take(k));
    if j >= s.index {
        vstd::arithmetic::div_mod::lemma_small_mod(j as nat, n as nat);
    } else {
        vstd::arithmetic::div_mod::lemma_mod_add_multiples_vanish(j, n);
        vstd::arithmetic::div_mod::lemma_small_mod(j as nat, n as nat);
    }
    assert(after_turns(s, times.take(k)).index == j);
    assert forall|k: int, m: int| 0 <= k < m < times.len() implies after_turns(
        s,
        #[trigger] times.take(k),
    ).index != after_turns(s, #[trigger] times.take(m)).index && after_downs(
        s,
        times.take(k),
    ).index != after_downs(s, times.take(m)).index by {
        turns_add_up(s, times.take(k));
        turns_add_up(s, times.take(m));
        let (a, b) = (s.index + k, s.index + m);
        if a % n == b % n {
            vstd::arithmetic::div_mod::lemma_fundamental_div_mod(a, n);
            vstd::arithmetic::div_mod::lemma_fundamental_div_mod(b, n);
            let q = b / n - a / n;
            assert(b - a == n * q) by (nonlinear_arith)
                requires
                    a == n * (a / n) + a % n,
                    b == n * (b / n) + b % n,
                    a % n == b % n,
                    q == b / n - a / n,
            ;
            assert(false) by (nonlinear_arith)
                requires
                    b - a == n * q,
                    0 < b - a < n,
            ;
        }
    }
}

/// When the next screen comes up: where the screens show, no message is in their
/// place, no manual page rests, no line has yet to scroll by for the first time, and
/// the screen has been up for its time.
pub proof fn turn_is_due_in_time(s: AppView, now: Instant)
    requires
        s.screens.len() > 0,
        s.cfg.rotation.dwell_secs > 0,
    ensures
        s.turn_due(now) <==> s.mode == Mode::Status && s.over is None && s.auto_rotate && (
        s.scroll0.text.len() <= 16 || s.scroll0.completed_a_pass) && (s.scroll1.text.len() <= 16
            || s.scroll1.completed_a_pass) && now >= s.last_dwell + s.cfg.rotation.dwell_secs
            * 1_000_000_000,
        s.turn_due(now) ==> s.rotate(now).last_dwell == now,
{
}

/// A manual page stops the rotation for the configured time, and starts the time
/// of the screen that it leads to. The rotation goes on once that time is over.
pub proof fn manual_page_stops_the_rotation(s: AppView, up: bool, t: Instant, now: Instant)
    requires
        s.screens.len() > 0,
    ensures
        ({
            let p = s.page(up, t);
            let until = t + s.cfg.rotation.resume_after_secs * 1_000_000_000;
            &&& !p.auto_rotate && p.last_dwell == t
            &&& p.resume_at is Some && p.resume_at->0 == until
            &&& p.resume_rotation(now).auto_rotate <==> now >= until
            &&& p.mode == s.mode && p.over == s.over
        }),
{
}

/// What shows in place of what: the menu and the confirm screen before a message,
/// a message before the screens.
pub proof fn lines_are_of_what_shows(s: AppView)
    requires
        s.wf(),
    ensures
        s.mode == Mode::Status && s.over is Some ==> s.lines() == (s.over->0.line0, s.over->0.line1),
        s.mode == Mode::Status && s.over is None && s.screens.len() > 0 ==> s.lines() == (
            s.screens[s.index].line0,
            s.screens[s.index].line1,
        ),
        s.mode == Mode::Status && s.over is None && s.screens.len() == 0 ==> s.lines().0.len() == 0
            && s.lines().1.len() == 0,
        s.mode matches Mode::ActionMenu { eject, selection } ==> s.lines() == (
            ">"@ + (if selection == 0 {
                "SHUTDOWN"@
            } else if selection == 1 {
                "RESTART"@
            } else {
                "EJECT USB"@
            }),
            "UP/DN ENTER BACK"@,
        ),
        s.mode matches Mode::Confirm { action, .. } ==> s.lines() == (
            "CONFIRM "@ + (match action {
                Action::Shutdown => "SHUTDOWN"@,
                Action::Restart => "RESTART"@,
                Action::Eject => "EJECT USB"@,
            }) + "?"@,
            "ENTER=yes BACK=no"@,
        ),
{
}

/// What a key does to the screens: UP and DOWN page, ENTER opens the menu with
/// shutting down selected, and no other key does anything.
pub proof fn keys_on_the_screens(s: AppView, key: Key, g: GatheredView, now: Instant)
    requires
        s.wf(),
        !s.sleeping,
        s.mode == Mode::Status,
    ensures
        ({
            let (step, effect) = s.handle_key(key, g, now);
            &&& effect == EffectView::Nothing && step.out.len() == 0
            &&& key == Key::Enter ==> step.state == (AppView {
                mode: Mode::ActionMenu { eject: s.eject_available, selection: 0 },
                ..s
            })
            &&& key != Key::Enter ==> step.state.mode == Mode::Status
            &&& key != Key::Enter && key != Key::Up && key != Key::Down ==> step.state == s
            &&& step.state.over == s.over && step.state.screens == s.screens
        }),
{
}

/// What a key does in the menu: UP and DOWN go round the two or three actions, ENTER
/// asks to confirm the one that is selected, within the configured time, BACK leads
/// back to the screens, and no other key does anything.
pub proof fn keys_in_the_menu(s: AppView, key: Key, g: GatheredView, now: Instant)
    requires
        s.wf(),
        s.mode is ActionMenu,
    ensures
        ({
            let (step, effect) = s.handle_key(key, g, now);
            let eject = s.mode->eject;
            let selection = s.mode->selection;
            let n: int = if eject {
                3
            } else {
                2
            };
            &&& effect == EffectView::Nothing
            &&& key == Key::Down ==> step.state == (AppView {
                mode: Mode::ActionMenu { eject, selection: ((selection + 1) % n) as usize },
                ..s
            })
            &&& key == Key::Up ==> step.state == (AppView {
                mode: Mode::ActionMenu { eject, selection: ((selection + n - 1) % n) as usize },
                ..s
            })
            &&& key == Key::Enter ==> step.state == (AppView {
                mode: Mode::Confirm {
                    action: if selection == 0 {
                        Action::Shutdown
                    } else if selection == 1 {
                        Action::Restart
                    } else {
                        Action::Eject
                    },
                    deadline: (now + s.cfg.menu.confirm_timeout_secs * 1_000_000_000) as u128,
                },
                ..s
            })
            &&& key == Key::Back ==> step.state.mode == Mode::Status
            &&& key != Key::Down && key != Key::Up && key != Key::Enter && key != Key::Back
                ==> step.state == s
            &&& key != Key::Back ==> step.out.len() == 0
        }),
{
    let eject = s.mode->eject;
    let selection = s.mode->selection;
    let n: int = if eject {
        3
    } else {
        2
    };
    lemma_wraps(selection as int, n);
}

/// What a key does on the confirm screen: ENTER runs the action, BACK does not, and
/// both lead back to the screens. No other key does anything.
pub proof fn keys_on_the_confirm_screen(s: AppView, key: Key, g: GatheredView, now: Instant)
    requires
        s.wf(),
        s.mode is Confirm,
    ensures
        ({
            let (step, effect) = s.handle_key(key, g, now);
            let action = s.mode->action;
            &&& key == Key::Enter ==> effect == EffectView::RunAction(action) && step.state.mode
                == Mode::Status
            &&& key == Key::Back ==> effect == EffectView::Nothing && step.state.mode
                == Mode::Status
            &&& key != Key::Enter && key != Key::Back ==> effect == EffectView::Nothing
                && step.state == s && step.out.len() == 0
        }),
{
}

/// A confirm screen stays up as long as nobody answers it, and no longer than until
/// its deadline.
pub proof fn confirm_screen_waits(s: AppView, now: Instant)
    requires
        s.wf(),
        s.mode is Confirm,
    ensures
        ({
            let deadline = s.mode->deadline;
            &&& now < deadline ==> s.cancel_confirm(now).state == s
            &&& now >= deadline ==> s.cancel_confirm(now).state.mode == Mode::Status
        }),
{
}

/// How severe a level is, and which levels are always seen.
pub proof fn levels_in_order(a: Level, b: Level)
    ensures
        Level::Info.rank() < Level::Warn.rank() < Level::Error.rank() < Level::Critical.rank(),
        a.visible() <==> a == Level::Error || a == Level::Critical,
        a.rank() == b.rank() ==> a == b,
{
}

/// Until when a message shows: an error or a critical one until it is cleared, and
/// any other for its seconds, or until it is cleared where it comes with none.
pub proof fn time_of_a_message(
    level: Level,
    ttl_secs: u64,
    bay: Option<u32>,
    line0: Seq<char>,
    line1: Seq<char>,
    now: Instant,
)
    ensures
        ({
            let ov = OverrideView::pushed(level, ttl_secs, bay, line0, line1, now);
            &&& ov.level == level && ov.bay == bay && ov.line0 == line0 && ov.line1 == line1
            &&& ov.expires_at is None <==> ttl_secs == 0 || level == Level::Error || level
                == Level::Critical
            &&& ov.expires_at is Some ==> ov.expires_at->0 == now + ttl_secs * 1_000_000_000
        }),
{
}

/// A message that comes in while the panel is awake and the screens show takes the
/// place of the one that shows, unless that one is more severe. What it replaces is
/// gone, and it starts to scroll from its front.
pub proof fn message_takes_its_place(s: AppView, ov: OverrideView)
    requires
        s.wf(),
        !s.sleeping,
        s.mode == Mode::Status,
    ensures
        ({
            let (step, effect) = s.push_message(ov);
            let severe = s.over matches Some(o) && match ov.level {
                Level::Info => o.level != Level::Info,
                Level::Warn => o.level == Level::Error || o.level == Level::Critical,
                Level::Error => o.level == Level::Critical,
                Level::Critical => false,
            };
            &&& effect == EffectView::Nothing
            &&& severe ==> step.state == s && step.out.len() == 0
            &&& !severe ==> step.state.over == Some(ov) && step.state.lines() == (
                ov.line0,
                ov.line1,
            ) && step.state.scroll0.text.len() == 0 && step.state.scroll1.text.len() == 0
            &&& step.state.mode == Mode::Status && step.state.index == s.index
        }),
{
}

/// A message shows until its time is over, and goes away with the next tick then;
/// one without a time stays.
pub proof fn message_shows_for_its_time(s: AppView, now: Instant)
    requires
        s.wf(),
        s.mode == Mode::Status,
        s.over is Some,
    ensures
        ({
            let after = s.advance(now).0.state;
            let until = s.over->0.expires_at;
            &&& until is None ==> after.over == s.over
            &&& until is Some && now < until->0 ==> after.over == s.over
            &&& until is Some && now >= until->0 ==> after.over is None
        }),
{
}

/// What a message does to the LEDs. A critical one makes the status LED flash, an
/// error lets it show a failure, and any other leaves it to the machine's health.
/// The bay that an error or a critical message names flashes; the bay that flashed
/// before goes back to normal.
pub proof fn leds_of_a_message(s: AppView, ov: OverrideView)
    requires
        s.wf(),
    ensures
        ({
            let step = s.show(Some(ov));
            let urgent = ov.level == Level::Error || ov.level == Level::Critical;
            let bay = if urgent {
                ov.bay
            } else {
                None
            };
            let restored = if s.alert_bay is Some && s.alert_bay != bay {
                leds(bay_writes(s.alert_bay->0, BayState::Normal))
            } else {
                Seq::empty()
            };
            let flashing = if bay is Some {
                leds(bay_writes(bay->0, BayState::Alert))
            } else {
                Seq::empty()
            };
            let status = match ov.level {
                Level::Critical => leds(status_writes(StatusPattern::CriticalFlashing)),
                Level::Error => leds(status_writes(StatusPattern::Failed)),
                _ => seq![OutputView::ShowHealth],
            };
            &&& step.out == restored + flashing + status
            &&& step.state.alert_bay == bay
            &&& step.state.over == Some(ov)
        }),
{
}

/// What CLEAR does while the panel is awake: without a bay it drops the message,
/// with one only a message about that bay. The bay that flashed for it goes back to
/// normal, and the status LED shows the machine's health again.
pub proof fn leds_of_clearing(s: AppView, bay: Option<u32>, now: Instant)
    requires
        s.wf(),
        !s.sleeping,
    ensures
        ({
            let (step, effect) = s.command(CommandView::Clear { bay }, now);
            let current = match s.over {
                Some(o) => o.bay,
                None => None,
            };
            let meant = bay is None || bay == current;
            let restored = match s.alert_bay {
                Some(b) => leds(bay_writes(b, BayState::Normal)),
                None => Seq::empty(),
            };
            &&& effect == EffectView::Nothing
            &&& meant ==> step.state == (AppView { over: None, alert_bay: None, ..s }) && step.out
                == restored + seq![OutputView::ShowHealth]
            &&& !meant ==> step.state == s && step.out.len() == 0
        }),
{
    let (step, effect) = s.command(CommandView::Clear { bay }, now);
    let restored = match s.alert_bay {
        Some(b) => leds(bay_writes(b, BayState::Normal)),
        None => Seq::empty(),
    };
    assert(restored + Seq::<OutputView>::empty() =~= restored);
}

/// What a connection's message comes to: it is pushed with its own level, time, bay
/// and lines. A status request changes nothing.
pub proof fn commands_are_followed(
    s: AppView,
    level: Level,
    ttl_secs: u64,
    bay: Option<u32>,
    line0: Seq<char>,
    line1: Seq<char>,
    now: Instant,
)
    ensures
        s.command(CommandView::Show { level, ttl_secs, bay, line0, line1 }, now) == s.push_message(
            OverrideView {
                level,
                expires_at: if level == Level::Error || level == Level::Critical || ttl_secs == 0 {
                    None
                } else {
                    Some((now + ttl_secs * 1_000_000_000) as u128)
                },
                bay,
                line0,
                line1,
            },
        ),
        s.command(CommandView::StatusRequest, now) == (
            Step { state: s, out: Seq::empty() },
            EffectView::Nothing,
        ),
{
}

/// A key that wakes the panel keeps it awake for the time that a manual page rests,
/// and until then only: the panel is kept awake exactly while a time was set and has
/// not come.
pub proof fn key_keeps_the_panel_awake(s: AppView, key: Key, g: GatheredView, t: Instant, now: Instant)
    requires
        s.wf(),
        s.sleeping,
    ensures
        ({
            let woken = s.handle_key(key, g, t).0.state;
            let until = t + s.cfg.rotation.resume_after_secs * 1_000_000_000;
            &&& woken.awake_override_until is Some && woken.awake_override_until->0 == until
            &&& woken.in_grace(now) <==> now < until
        }),
        !(AppView { awake_override_until: None, ..s }).in_grace(now),
{
}

/// When the panel falls asleep: where the schedule wants it to, it is awake, no key
/// keeps it awake, no message shows, and neither the menu nor a confirm screen is
/// open. And when the night ends.
pub proof fn sleep_in_time(s: AppView, now: Instant)
    ensures
        s.falls_asleep(now) <==> s.schedule_wants_sleep && !s.sleeping && s.over is None && s.mode
            == Mode::Status && !(s.awake_override_until is Some && now
            < s.awake_override_until->0),
        s.day_breaks() <==> !s.schedule_wants_sleep && s.night_leds,
{
}

/// A key wakes a sleeping panel: the display comes on, everything that it shows is as
/// it was just gathered, and the key does nothing else.
pub proof fn key_wakes_the_panel(s: AppView, key: Key, g: GatheredView, now: Instant)
    requires
        s.sleeping,
    ensures
        ({
            let (step, effect) = s.handle_key(key, g, now);
            let t = step.state;
            &&& effect == EffectView::SetLcdPower(true)
            &&& !t.sleeping
            &&& t.night_leds == s.night_leds
            &&& t.mode == s.mode && t.over == s.over && t.auto_rotate == s.auto_rotate
            &&& s.cfg.screens.network ==> t.network.screens == g.network
            &&& s.cfg.screens.pools ==> t.pools.screens == g.pools
            &&& s.cfg.screens.hdd ==> t.hdd.screens == g.hdd
            &&& s.cfg.screens.temperature ==> t.temperature.screens == g.temperature
            &&& s.cfg.screens.docker ==> t.docker.screens == g.docker
        }),
{
}

/// A tick at the end of the day puts the panel to sleep, changes nothing else, and has
/// the display switched off. One during the night leaves the panel as it is, but for a
/// time to stay awake that is over.
pub proof fn tick_at_night(
    s: AppView,
    nics: Seq<Seq<char>>,
    g: GatheredView,
    now: Instant,
    later: Instant,
)
    requires
        s.schedule_wants_sleep || (s.sleeping && !s.night_leds),
    ensures
        ({
            let (step, effect) = s.tick(nics, g, now, later);
            let kept = s.awake_override_until is Some && now < s.awake_override_until->0;
            &&& s.sleeping ==> effect == EffectView::Nothing && step.out.len() == 0 && step.state
                == (AppView {
                awake_override_until: if kept {
                    s.awake_override_until
                } else {
                    None
                },
                ..s
            })
            &&& !s.sleeping && !kept && s.over is None && s.mode == Mode::Status ==> effect
                == EffectView::SetLcdPower(false) && step.state == (AppView {
                sleeping: true,
                night_leds: true,
                awake_override_until: None,
                ..s
            })
        }),
{
}

/// A tick in the morning wakes a sleeping panel and has the display switched on; the
/// LEDs are no longer those of the night.
pub proof fn tick_in_the_morning(
    s: AppView,
    nics: Seq<Seq<char>>,
    g: GatheredView,
    now: Instant,
    later: Instant,
)
    requires
        !s.schedule_wants_sleep,
        s.night_leds,
        s.sleeping,
    ensures
        ({
            let (step, effect) = s.tick(nics, g, now, later);
            &&& effect == EffectView::SetLcdPower(true)
            &&& !step.state.sleeping
            &&& !step.state.night_leds
            &&& s.cfg.screens.network ==> step.state.network.screens == g.network
            &&& s.cfg.screens.pools ==> step.state.pools.screens == g.pools
            &&& s.cfg.screens.hdd ==> step.state.hdd.screens == g.hdd
            &&& s.cfg.screens.temperature ==> step.state.temperature.screens == g.temperature
            &&& s.cfg.screens.docker ==> step.state.docker.screens == g.docker
        }),
{
}

/// At the start the panel is awake and shows its first screen, without a menu, a
/// message or anything known of the machine.
pub proof fn panel_at_the_start(cfg: Config, now: Instant)
    ensures
        ({
            let s = AppView::initial(cfg, now);
            &&& s.cfg == cfg
            &&& !s.sleeping && !s.night_leds && !s.schedule_wants_sleep
            &&& s.awake_override_until is None && s.resume_at is None
            &&& s.index == 0 && s.auto_rotate && s.last_dwell == now
            &&& s.mode == Mode::Status && !s.eject_available
            &&& s.over is None && s.pending_over is None && s.alert_bay is None
            &&& s.fan_health == Level::Info
            &&& s.scroll0.text.len() == 0 && s.scroll1.text.len() == 0
        }),
{
}

/// When the menu closes, the message that waited shows, unless the one that shows is
/// more severe; either way none waits any longer.
pub proof fn waiting_message_takes_its_turn(s: AppView)
    ensures
        ({
            let t = s.close_menu().state;
            let severe = s.over is Some && s.pending_over is Some && match s.pending_over->0.level {
                Level::Info => s.over->0.level != Level::Info,
                Level::Warn => s.over->0.level == Level::Error || s.over->0.level
                    == Level::Critical,
                Level::Error => s.over->0.level == Level::Critical,
                Level::Critical => false,
            };
            &&& t.mode == Mode::Status
            &&& t.pending_over is None
            &&& t.over == if s.pending_over is Some && !severe {
                s.pending_over
            } else {
                s.over
            }
            &&& t.sleeping == s.sleeping && t.index == s.index && t.screens == s.screens
        }),
{
}

} // verus!
