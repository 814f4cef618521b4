//! What holds of the state machine as a whole.
use crate::clock::{elapsed, in_secs, Instant, NANOS_PER_SEC};
use crate::daemon::{effect_commands, PanelView};
use crate::led::{
    bay_writes, day_writes, nics_mode_writes, night_writes, BayState, StatusPattern,
};
use crate::model::{
    health_pattern, leds, may_replace, menu_options, next_of, AppView, EffectView, GatheredView, HealthView,
    OutputView, OverrideView, Step,
};
use crate::protocol::Key;
use crate::scroll::{shown_fits, WIDTH};
use crate::socket::{CommandView, Level};
use crate::state::{Action, Mode};
use vstd::prelude::*;

verus! {

/// The severity of the message that shows, below that of any where none does.
pub open spec fn shown_rank(s: AppView) -> int {
    match s.over {
        Some(o) => o.level.rank(),
        None => -1,
    }
}

/// A message never takes the place of a more severe one.
pub proof fn severity_never_drops(s: AppView, ov: OverrideView)
    ensures
        shown_rank(s.push_message(ov).0.state) >= shown_rank(s),
{
}

/// A message that waited for the menu to close never takes the place of a more
/// severe one, and a message that waits never of a more severe one that waits.
pub proof fn severity_never_drops_by_waiting(s: AppView, ov: OverrideView)
    ensures
        shown_rank(s.close_menu().state) >= shown_rank(s),
        s.mode != Mode::Status ==> (s.pending_over matches Some(p) ==> s.push_message(
            ov,
        ).0.state.pending_over matches Some(q) && q.level.rank() >= p.level.rank()),
{
}

/// A message never interrupts the menu or a confirm screen: nothing on the
/// panel changes.
pub proof fn menu_is_not_interrupted(s: AppView, ov: OverrideView)
    requires
        s.mode != Mode::Status,
    ensures
        s.push_message(ov) == (
            Step {
                state: AppView { pending_over: s.push_message(ov).0.state.pending_over, ..s },
                out: Seq::empty(),
            },
            EffectView::Nothing,
        ),
        s.push_message(ov).0.state.lines() == s.lines(),
{
}

/// The message that came in while the menu was open shows once it closes,
/// unless a more severe one shows or waits.
pub proof fn waiting_message_shows(s: AppView, ov: OverrideView)
    requires
        s.wf(),
        s.mode != Mode::Status,
        may_replace(ov.level, s.pending_over),
        shown_rank(s) <= ov.level.rank(),
    ensures
        s.push_message(ov).0.state.close_menu().state.over == Some(ov),
        s.push_message(ov).0.state.close_menu().state.lines() == (ov.line0, ov.line1),
{
}

/// A message that is not urgent is dropped while the panel sleeps.
pub proof fn routine_message_does_not_wake(s: AppView, ov: OverrideView)
    requires
        s.wf(),
        s.sleeping,
        !ov.level.visible(),
    ensures
        s.push_message(ov) == (Step { state: s, out: Seq::empty() }, EffectView::Nothing),
{
}

/// An error or a critical message wakes the panel and shows.
pub proof fn urgent_message_wakes(s: AppView, ov: OverrideView)
    requires
        s.wf(),
        s.sleeping,
        ov.level.visible(),
    ensures
        s.push_message(ov).1 == EffectView::SetLcdPower(true),
        !s.push_message(ov).0.state.sleeping,
        s.push_message(ov).0.state.over == Some(ov),
        s.push_message(ov).0.state.lines() == (ov.line0, ov.line1),
{
}

/// Error and critical messages persist, whatever time to live they come with.
pub proof fn urgent_message_has_no_end(
    level: Level,
    ttl_secs: u64,
    bay: Option<u32>,
    line0: Seq<char>,
    line1: Seq<char>,
    now: Instant,
)
    requires
        level.visible(),
    ensures
        OverrideView::pushed(level, ttl_secs, bay, line0, line1, now).expires_at is None,
{
}

/// A refresh changes the screens, the caches and what the monitor knows, and
/// nothing else.
proof fn refresh_frame(s: AppView, g: GatheredView, now: Instant)
    ensures
        ({
            let r = s.refresh(g, now).state;
            r == AppView {
                network: r.network,
                pools: r.pools,
                hdd: r.hdd,
                temperature: r.temperature,
                docker: r.docker,
                screens: r.screens,
                index: r.index,
                monitor: r.monitor,
                ..s
            }
        }),
        s.refresh(g, now).state.screens.len() > 0,
        s.wf() ==> s.refresh(g, now).state.wf(),
{
}

proof fn refresh_all_frame(s: AppView, g: GatheredView, now: Instant)
    ensures
        ({
            let r = s.refresh_all(g, now).state;
            r == AppView {
                network: r.network,
                pools: r.pools,
                hdd: r.hdd,
                temperature: r.temperature,
                docker: r.docker,
                screens: r.screens,
                index: r.index,
                monitor: r.monitor,
                ..s
            }
        }),
        s.refresh_all(g, now).state.screens.len() > 0,
        s.wf() ==> s.refresh_all(g, now).state.wf(),
{
    refresh_frame(s.expired(), g, now);
}

/// What follows a refresh neither wakes the panel nor puts it to sleep, and ends
/// with something to show.
proof fn advance_frame(s: AppView, now: Instant)
    ensures
        s.advance(now).0.state.sleeping == s.sleeping,
        s.advance(now).0.state.night_leds == s.night_leds,
        s.advance(now).1 is Render,
{
}

/// Where a tick leaves the panel and the LEDs.
proof fn tick_frame(
    s: AppView,
    nics: Seq<Seq<char>>,
    g: GatheredView,
    now: Instant,
    later: Instant,
)
    ensures
        ({
            let (step, effect) = s.tick(nics, g, now, later);
            if s.falls_asleep(now) {
                step.state.sleeping && step.state.night_leds && effect == EffectView::SetLcdPower(
                    false,
                )
            } else if s.day_breaks() {
                !step.state.sleeping && !step.state.night_leds && if s.sleeping {
                    effect == EffectView::SetLcdPower(true)
                } else {
                    effect is Render
                }
            } else {
                step.state.sleeping == s.sleeping && step.state.night_leds == s.night_leds
                    && if s.sleeping {
                    effect is Nothing
                } else {
                    effect is Render
                }
            }
        }),
{
    let s1 = s.grace_checked(now);
    refresh_frame(s1, g, now);
    advance_frame(s1.refresh(g, now).state, later);
    refresh_all_frame(AppView { sleeping: false, night_leds: false, ..s1 }, g, now);
    advance_frame(s1.wake(nics, g, now).state, later);
}

/// Where a key leaves the panel and the LEDs.
proof fn key_frame(s: AppView, key: Key, g: GatheredView, now: Instant)
    ensures
        ({
            let (step, effect) = s.handle_key(key, g, now);
            &&& !step.state.sleeping
            &&& step.state.night_leds == s.night_leds
            &&& (effect is SetLcdPower) == s.sleeping
            &&& effect is SetLcdPower ==> effect == EffectView::SetLcdPower(true)
        }),
{
    refresh_all_frame(
        AppView {
            sleeping: false,
            awake_override_until: Some(in_secs(now, s.cfg.rotation.resume_after_secs)),
            ..s
        },
        g,
        now,
    );
}

/// An error or a critical message stays until it is cleared, or another at
/// least as severe takes its place: time alone does not remove it.
pub proof fn urgent_message_stays(
    s: AppView,
    nics: Seq<Seq<char>>,
    g: GatheredView,
    now: Instant,
    later: Instant,
)
    requires
        s.wf(),
        s.over matches Some(o) && o.level.visible(),
    ensures
        s.mode == Mode::Status ==> s.tick(nics, g, now, later).0.state.over == s.over,
        shown_rank(s.tick(nics, g, now, later).0.state) >= shown_rank(s),
{
    let s1 = s.grace_checked(now);
    refresh_frame(s1, g, now);
    let r = s1.refresh(g, now).state;
    severity_never_drops_by_waiting(r.resume_rotation(later), s.over->0);
    refresh_all_frame(AppView { sleeping: false, night_leds: false, ..s1 }, g, now);
    let w = s1.wake(nics, g, now).state;
    severity_never_drops_by_waiting(w.resume_rotation(later), s.over->0);
}

/// The panel never falls asleep over a message or over the menu.
pub proof fn no_sleep_while_busy(
    s: AppView,
    nics: Seq<Seq<char>>,
    g: GatheredView,
    now: Instant,
    later: Instant,
)
    requires
        s.over is Some || s.mode != Mode::Status,
        !s.sleeping,
    ensures
        s.tick(nics, g, now, later).1 is Render,
        !s.tick(nics, g, now, later).0.state.sleeping,
{
    tick_frame(s, nics, g, now, later);
}

/// While the panel sleeps and the schedule wants it to, time changes nothing
/// but the end of a period of grace: no LED and no line of the log is written.
pub proof fn sleep_is_silent(
    s: AppView,
    nics: Seq<Seq<char>>,
    g: GatheredView,
    now: Instant,
    later: Instant,
)
    requires
        s.sleeping,
        s.schedule_wants_sleep,
    ensures
        s.tick(nics, g, now, later) == (
            Step { state: s.grace_checked(now), out: Seq::empty() },
            EffectView::Nothing,
        ),
{
}

/// The panel sleeps from the tick on at which the schedule wants it to and
/// nothing keeps it awake, and is awake from the tick on at which the schedule
/// no longer does.
pub proof fn schedule_is_followed(
    s: AppView,
    nics: Seq<Seq<char>>,
    g: GatheredView,
    now: Instant,
    later: Instant,
)
    requires
        s.wf(),
    ensures
        s.schedule_wants_sleep && s.over is None && s.mode == Mode::Status && !s.in_grace(now)
            ==> s.tick(nics, g, now, later).0.state.sleeping,
        !s.schedule_wants_sleep ==> !s.tick(nics, g, now, later).0.state.sleeping,
{
    tick_frame(s, nics, g, now, later);
}

/// What is written to the LEDs when the night ends, before what the refresh adds.
pub open spec fn day_outputs(s: AppView, nics: Seq<Seq<char>>) -> Seq<OutputView> {
    leds(day_writes(nics)) + leds(nics_mode_writes(nics, s.cfg.led.nic_mode))
}

/// The LEDs go dark at the tick at which the panel falls asleep, and come back at
/// the first tick at which the schedule no longer wants it to sleep, whether or
/// not something woke the panel in between. No other tick changes which of the
/// two they are.
pub proof fn leds_follow_the_night(
    s: AppView,
    nics: Seq<Seq<char>>,
    g: GatheredView,
    now: Instant,
    later: Instant,
)
    requires
        s.wf(),
    ensures
        ({
            let (step, _) = s.tick(nics, g, now, later);
            &&& s.falls_asleep(now) ==> step.state.night_leds && step.out == leds(
                night_writes(nics),
            )
            &&& !s.schedule_wants_sleep ==> !step.state.night_leds
            &&& !s.schedule_wants_sleep && s.night_leds ==> day_outputs(s, nics).is_prefix_of(
                step.out,
            )
            &&& !s.falls_asleep(now) && s.schedule_wants_sleep ==> step.state.night_leds
                == s.night_leds
        }),
{
    tick_frame(s, nics, g, now, later);
    if s.day_breaks() {
        lemma_day_comes_first(s, nics, g, now, later);
    }
}

proof fn lemma_day_comes_first(
    s: AppView,
    nics: Seq<Seq<char>>,
    g: GatheredView,
    now: Instant,
    later: Instant,
)
    requires
        s.day_breaks(),
    ensures
        day_outputs(s, nics).is_prefix_of(s.tick(nics, g, now, later).0.out),
{
    let s1 = s.grace_checked(now);
    let day = day_outputs(s, nics);
    let woken = s1.wake(nics, g, now);
    let more = (AppView { sleeping: false, night_leds: false, ..s1 }).refresh_all(g, now).out;
    assert(woken.out == day + more);
    let rest = woken.state.advance(later).0.out;
    assert(day =~= woken.out.subrange(0, day.len() as int));
    assert(day =~= (woken.out + rest).subrange(0, day.len() as int));
}

/// The network ports count only for a tick that puts the LEDs to sleep or wakes
/// them.
pub proof fn ports_count_at_night_and_dawn(
    s: AppView,
    nics: Seq<Seq<char>>,
    others: Seq<Seq<char>>,
    g: GatheredView,
    now: Instant,
    later: Instant,
)
    requires
        !s.night_changes(now),
    ensures
        s.tick(nics, g, now, later) == s.tick(others, g, now, later),
{
}

/// Neither a key nor a message ends the night of the LEDs, even where it wakes
/// the panel.
pub proof fn only_time_ends_the_night(
    s: AppView,
    key: Key,
    cmd: CommandView,
    g: GatheredView,
    now: Instant,
)
    ensures
        s.handle_key(key, g, now).0.state.night_leds == s.night_leds,
        s.command(cmd, now).0.state.night_leds == s.night_leds,
{
    key_frame(s, key, g, now);
}

/// Whatever woke the panel during the night, the LEDs come back at the first tick
/// at which the schedule no longer wants it to sleep.
pub proof fn woken_panel_gets_its_leds_back(
    s: AppView,
    key: Key,
    cmd: CommandView,
    g: GatheredView,
    now: Instant,
    nics: Seq<Seq<char>>,
    g2: GatheredView,
    now2: Instant,
    later2: Instant,
)
    requires
        s.wf(),
        s.sleeping,
    ensures
        ({
            let by_key = AppView {
                schedule_wants_sleep: false,
                ..s.handle_key(key, g, now).0.state
            };
            let by_message = AppView {
                schedule_wants_sleep: false,
                ..s.command(cmd, now).0.state
            };
            let a = by_key.tick(nics, g2, now2, later2).0;
            let b = by_message.tick(nics, g2, now2, later2).0;
            &&& !a.state.night_leds && day_outputs(s, nics).is_prefix_of(a.out)
            &&& !b.state.night_leds && day_outputs(s, nics).is_prefix_of(b.out)
        }),
{
    let woken = AppView {
        sleeping: false,
        awake_override_until: Some(in_secs(now, s.cfg.rotation.resume_after_secs)),
        ..s
    };
    refresh_all_frame(woken, g, now);
    only_time_ends_the_night(s, key, cmd, g, now);
    let by_key = AppView { schedule_wants_sleep: false, ..s.handle_key(key, g, now).0.state };
    let by_message = AppView { schedule_wants_sleep: false, ..s.command(cmd, now).0.state };
    leds_follow_the_night(by_key, nics, g2, now2, later2);
    leds_follow_the_night(by_message, nics, g2, now2, later2);
}

/// A panel that sleeps on is dark: a message that does not wake it, clearing
/// included, changes nothing and writes to no LED.
pub proof fn sleeping_panel_stays_dark(s: AppView, cmd: CommandView, now: Instant)
    requires
        s.wf(),
        s.sleeping,
        s.command(cmd, now).0.state.sleeping,
    ensures
        s.command(cmd, now) == (Step { state: s, out: Seq::empty() }, EffectView::Nothing),
{
}

/// Whenever the panel wakes, whatever wakes it, its power comes on and its start
/// sequence is sent; whenever it falls asleep, its power goes off. Nothing else
/// switches it.
pub proof fn panel_power_follows_sleep(
    s: AppView,
    key: Key,
    cmd: CommandView,
    nics: Seq<Seq<char>>,
    g: GatheredView,
    now: Instant,
    later: Instant,
)
    requires
        s.wf(),
    ensures
        power_follows(s, s.handle_key(key, g, now).0.state, s.handle_key(key, g, now).1),
        power_follows(s, s.command(cmd, now).0.state, s.command(cmd, now).1),
        power_follows(s, s.tick(nics, g, now, later).0.state, s.tick(nics, g, now, later).1),
        effect_commands(EffectView::SetLcdPower(true)) == seq![
            PanelView::Power("1"@),
            PanelView::Init,
        ],
        effect_commands(EffectView::SetLcdPower(false)) == seq![PanelView::Power("0"@)],
{
    tick_frame(s, nics, g, now, later);
    key_frame(s, key, g, now);
}

/// Whether the effect of an event switches the panel exactly where the event
/// wakes it or puts it to sleep.
pub open spec fn power_follows(before: AppView, after: AppView, effect: EffectView) -> bool {
    &&& (before.sleeping && !after.sleeping) == (effect == EffectView::SetLcdPower(true))
    &&& (!before.sleeping && after.sleeping) == (effect == EffectView::SetLcdPower(false))
}

/// The key that wakes the panel is not acted on: whichever it is, the panel
/// wakes to the screens.
pub proof fn waking_key_is_not_acted_on(
    s: AppView,
    key: Key,
    other: Key,
    g: GatheredView,
    now: Instant,
)
    requires
        s.wf(),
        s.sleeping,
    ensures
        s.handle_key(key, g, now) == s.handle_key(other, g, now),
        s.handle_key(key, g, now).1 == EffectView::SetLcdPower(true),
        s.handle_key(key, g, now).0.state.mode == Mode::Status,
        !s.handle_key(key, g, now).0.state.sleeping,
{
    refresh_all_frame(
        AppView {
            sleeping: false,
            awake_override_until: Some(in_secs(now, s.cfg.rotation.resume_after_secs)),
            ..s
        },
        g,
        now,
    );
}

/// After a key has woken the panel it stays awake for as long as a manual page
/// stops the rotation, though the schedule wants it to sleep.
pub proof fn woken_panel_stays_awake(
    s: AppView,
    key: Key,
    g: GatheredView,
    now: Instant,
    nics: Seq<Seq<char>>,
    g2: GatheredView,
    now2: Instant,
    later2: Instant,
)
    requires
        s.wf(),
        s.sleeping,
        now2 < in_secs(now, s.cfg.rotation.resume_after_secs),
    ensures
        s.handle_key(key, g, now).0.state.tick(nics, g2, now2, later2).1 is Render,
{
    let woken = AppView {
        sleeping: false,
        awake_override_until: Some(in_secs(now, s.cfg.rotation.resume_after_secs)),
        ..s
    };
    refresh_all_frame(woken, g, now);
    let s2 = woken.refresh_all(g, now).state;
    refresh_frame(s2, g2, now2);
    refresh_all_frame(AppView { night_leds: false, ..s2 }, g2, now2);
}

/// Nothing runs without confirmation: an action runs only where its confirm
/// screen shows and is answered with ENTER.
pub proof fn actions_are_confirmed(s: AppView, key: Key, g: GatheredView, now: Instant, a: Action)
    ensures
        s.handle_key(key, g, now).1 == EffectView::RunAction(a) <==> (!s.sleeping && key
            == Key::Enter && (s.mode matches Mode::Confirm { action, .. } && action == a)),
{
}

/// Neither time nor a message runs an action.
pub proof fn only_keys_run_actions(
    s: AppView,
    cmd: CommandView,
    nics: Seq<Seq<char>>,
    g: GatheredView,
    now: Instant,
    later: Instant,
)
    ensures
        !(s.command(cmd, now).1 is RunAction),
        !(s.tick(nics, g, now, later).1 is RunAction),
{
}

/// A confirm screen comes up only from the menu, by ENTER, for the action that
/// is selected there, which is one that the menu offers.
pub proof fn confirm_comes_from_menu(s: AppView, key: Key, g: GatheredView, now: Instant, a: Action)
    requires
        s.wf(),
        !(s.mode is Confirm),
        s.handle_key(key, g, now).0.state.mode matches Mode::Confirm { action, .. } && action == a,
    ensures
        key == Key::Enter,
        s.mode matches Mode::ActionMenu { eject, selection } && selection < menu_options(
            eject,
        ).len() && a == menu_options(eject)[selection as int],
{
    if s.sleeping {
        waking_key_is_not_acted_on(s, key, key, g, now);
    }
}

/// Ejecting is offered exactly where there was something to eject when the
/// menu opened.
pub proof fn eject_is_offered_when_available(s: AppView, g: GatheredView, now: Instant)
    requires
        !s.sleeping,
        s.mode == Mode::Status,
    ensures
        s.handle_key(Key::Enter, g, now).0.state.mode matches Mode::ActionMenu { eject, selection }
            && selection == 0 && menu_options(eject).contains(Action::Eject) == s.eject_available,
{
    let options = menu_options(s.eject_available);
    if s.eject_available {
        assert(options[2] == Action::Eject);
    }
}

/// A confirm screen that nobody answers in time closes without running
/// anything.
pub proof fn unanswered_confirm_closes(
    s: AppView,
    nics: Seq<Seq<char>>,
    g: GatheredView,
    now: Instant,
    later: Instant,
)
    requires
        s.wf(),
        s.mode matches Mode::Confirm { deadline, .. } && later >= deadline,
    ensures
        s.tick(nics, g, now, later).0.state.mode == Mode::Status,
        s.tick(nics, g, now, later).1 is Render,
{
    let s1 = s.grace_checked(now);
    refresh_frame(s1, g, now);
    refresh_all_frame(AppView { sleeping: false, night_leds: false, ..s1 }, g, now);
}

/// Paging down and then up comes back to the same screen, and so does paging
/// up and then down.
pub proof fn paging_is_undone(s: AppView, t: Instant, u: Instant)
    requires
        s.wf(),
    ensures
        s.page(false, t).page(true, u).index == s.index,
        s.page(true, t).page(false, u).index == s.index,
{
}

/// A manual page shows its screen until the rotation goes on: time does not
/// turn it away before.
pub proof fn manual_page_rests(s: AppView, up: bool, t: Instant, now: Instant)
    requires
        s.screens.len() > 0,
        now < in_secs(t, s.cfg.rotation.resume_after_secs),
    ensures
        s.page(up, t).advance(now).0.state.index == s.page(up, t).index,
{
}

/// The rotation never turns away from a line that has yet to scroll by for the
/// first time, nor from a screen that has not been up for its time.
pub proof fn rotation_waits(s: AppView, now: Instant)
    requires
        s.scrolling() || elapsed(now, s.last_dwell) < s.cfg.rotation.dwell_secs * NANOS_PER_SEC,
    ensures
        s.rotate(now) == s,
{
}

/// Where nothing holds it up, the rotation turns to the next screen, and from
/// the last to the first.
pub proof fn rotation_turns(s: AppView, now: Instant)
    requires
        s.turn_due(now),
    ensures
        s.rotate(now).index == next_of(s.index, s.screens.len() as int),
        s.rotate(now).last_dwell == now,
{
}

/// What a tick shows fits on the display.
pub proof fn rendered_lines_fit(
    s: AppView,
    nics: Seq<Seq<char>>,
    g: GatheredView,
    now: Instant,
    later: Instant,
)
    ensures
        s.tick(nics, g, now, later).1 matches EffectView::Render(a, b) ==> a.len() <= WIDTH
            && b.len() <= WIDTH,
{
    let r = s.grace_checked(now).refresh(g, now).state.advance(later).0.state;
    shown_fits(r.scroll0);
    shown_fits(r.scroll1);
    let w = s.grace_checked(now).wake(nics, g, now).state.advance(later).0.state;
    shown_fits(w.scroll0);
    shown_fits(w.scroll1);
}

/// What the caches hold for a category is refreshed no sooner than its interval
/// allows.
pub proof fn intervals_are_kept(s: AppView, g: GatheredView, now: Instant, next: Instant)
    ensures
        ({
            let plan = s.plan(now);
            let then = s.refresh(g, now).state.plan(next);
            let floors = s.cfg.refresh;
            &&& plan.network && elapsed(next, g.network_at) < floors.network_min_secs
                * NANOS_PER_SEC ==> !then.network
            &&& plan.pools && elapsed(next, g.pools_at) < floors.pools_min_secs * NANOS_PER_SEC
                ==> !then.pools && !then.pool_screens
            &&& plan.hdd && elapsed(next, g.hdd_at) < floors.hdd_min_secs * NANOS_PER_SEC
                ==> !then.hdd && !then.hdd_screens
            &&& plan.temperature && elapsed(next, g.temperature_at) < floors.temperature_min_secs
                * NANOS_PER_SEC ==> !then.temperature
            &&& plan.sensors && elapsed(next, now) < floors.temperature_min_secs * NANOS_PER_SEC
                ==> !then.sensors
            &&& plan.docker && elapsed(next, g.docker_at) < floors.docker_min_secs * NANOS_PER_SEC
                ==> !then.docker
        }),
{
}

/// What is gathered without being in the plan plays no part.
pub proof fn only_the_plan_counts(s: AppView, g: GatheredView, h: GatheredView, now: Instant)
    requires
        ({
            let plan = s.plan(now);
            &&& plan.network ==> g.network == h.network && g.network_at == h.network_at
            &&& plan.pools ==> g.pool_healths == h.pool_healths && g.pools_at == h.pools_at
            &&& plan.pool_screens ==> g.pools == h.pools
            &&& plan.hdd ==> g.hdd_at == h.hdd_at
            &&& plan.hdd_screens ==> g.hdd == h.hdd
            &&& plan.temperature ==> g.temperature == h.temperature && g.temperature_at
                == h.temperature_at
            &&& plan.sensors ==> g.sensors == h.sensors
            &&& plan.docker ==> g.docker == h.docker && g.docker_at == h.docker_at
            &&& plan.bays ==> g.bays == h.bays
        }),
    ensures
        s.refresh(g, now) == s.refresh(h, now),
{
    let plan = s.plan(now);
    assert(s.with_gathered(plan, g, now) == s.with_gathered(plan, h, now));
    assert(s.gathered_report(plan, g, now) == s.gathered_report(plan, h, now));
}

/// Which screens are shown plays no part in health monitoring: what the monitor
/// learns and reports, and what the LEDs show, is the same.
pub proof fn monitoring_ignores_screens(s: AppView, t: AppView, g: GatheredView, now: Instant)
    requires
        s.cfg.refresh == t.cfg.refresh,
        s.cfg.temperature == t.cfg.temperature,
        s.monitor == t.monitor,
        s.over == t.over,
        s.pools.last_refresh == t.pools.last_refresh,
        s.hdd.last_refresh == t.hdd.last_refresh,
    ensures
        s.refresh(g, now).state.monitor == t.refresh(g, now).state.monitor,
        s.refresh(g, now).out == t.refresh(g, now).out,
{
    let a = s.with_gathered(s.plan(now), g, now).assembled();
    let b = t.with_gathered(t.plan(now), g, now).assembled();
    assert(s.gathered_report(s.plan(now), g, now) == t.gathered_report(t.plan(now), g, now));
    assert(a.monitor == b.monitor);
    assert(a.alert_out() == b.alert_out());
    assert(a.status_out() == b.status_out());
}

/// The health of the machine does not depend on the message that shows, nor on
/// what the panel is busy with.
pub proof fn health_ignores_messages(
    s: AppView,
    h: HealthView,
    over: Option<OverrideView>,
    mode: Mode,
    sleeping: bool,
)
    ensures
        (AppView { over, mode, sleeping, ..s }).health(h) == s.health(h),
{
}

/// What follows the refresh in a tick does not change the health: an output
/// that lets the status LED show it means the same at the end of the tick.
pub proof fn health_is_stable(s: AppView, h: HealthView, now: Instant)
    ensures
        s.advance(now).0.state.health(h) == s.health(h),
{
    let a = s.expire_message(now).state;
    assert(a.monitor == s.monitor && a.fan_health == s.fan_health && a.cfg == s.cfg);
    let b = a.resume_rotation(now).cancel_confirm(now).state;
    assert(b.monitor == s.monitor && b.fan_health == s.fan_health && b.cfg == s.cfg);
}

/// The severity of a pattern of the status LED.
pub open spec fn pattern_rank(p: StatusPattern) -> int {
    match p {
        StatusPattern::Healthy => 0,
        StatusPattern::Warning => 1,
        StatusPattern::Degraded => 2,
        StatusPattern::Failed => 3,
        StatusPattern::CriticalFlashing => 4,
    }
}

/// When something gets worse and nothing gets better, the status LED never
/// shows a milder pattern.
pub proof fn pattern_is_monotone(
    a: Level,
    degraded_a: bool,
    faulted_a: bool,
    b: Level,
    degraded_b: bool,
    faulted_b: bool,
)
    requires
        a.rank() <= b.rank(),
        degraded_a ==> degraded_b,
        faulted_a ==> faulted_b,
    ensures
        pattern_rank(health_pattern(a, degraded_a, faulted_a)) <= pattern_rank(
            health_pattern(b, degraded_b, faulted_b),
        ),
{
}

/// Clearing without a bay drops the message whatever it is about; clearing a
/// bay drops it exactly where it is about that bay.
pub proof fn clearing(s: AppView, bay: u32)
    requires
        s.wf(),
    ensures
        s.clear(None).state.over is None,
        s.clear(Some(bay)).state.over == if s.over matches Some(o) && o.bay == Some(bay) {
            None
        } else {
            s.over
        },
{
}

/// When the message that makes a bay flash is cleared, be it by its bay or not, the
/// bay's LEDs go back to normal, and the status LED shows the health again.
pub proof fn cleared_bay_is_restored(s: AppView, bay: u32)
    requires
        s.wf(),
        s.alert_bay == Some(bay),
    ensures
        s.clear(None).state.alert_bay is None,
        s.clear(None).out == leds(bay_writes(bay, BayState::Normal)) + seq![OutputView::ShowHealth],
        s.clear(Some(bay)).state.alert_bay is None,
        s.clear(Some(bay)).out == leds(bay_writes(bay, BayState::Normal)) + seq![
            OutputView::ShowHealth,
        ],
{
    let normal = leds(bay_writes(bay, BayState::Normal));
    assert(normal + Seq::<OutputView>::empty() =~= normal);
}

/// A bay that a message makes flash goes on flashing when the bays are looked
/// at: the last that is written to it is the flashing.
pub proof fn alert_outlasts_health(s: AppView, bays: Seq<(u32, BayState)>, bay: u32)
    requires
        s.wf(),
        s.alert_bay == Some(bay),
    ensures
        ({
            let out = s.update_health_leds(bays).out;
            let flashing = leds(bay_writes(bay, BayState::Alert));
            let status = s.status_out();
            out.len() >= flashing.len() + status.len() && out.skip(
                out.len() - flashing.len() - status.len(),
            ) == flashing + status
        }),
{
    let out = s.update_health_leds(bays).out;
    let flashing = leds(bay_writes(bay, BayState::Alert));
    let status = s.status_out();
    assert(out.skip(out.len() - flashing.len() - status.len()) =~= flashing + status);
}

} // verus!
