use lcm_status::config::{Config, NetworkLevel};
use lcm_status::hal::Screen;
use lcm_status::led::{BayState, StatusPattern};
use lcm_status::monitor::SensorReading;
use lcm_status::protocol::Key;
use lcm_status::socket::{Level, SocketCommand};
use lcm_status::state::{Action, AppState, Effect, Gathered, HealthInputs, Output};

const SEC: u64 = 1_000_000_000;

fn screens(names: &[&str]) -> Vec<Screen> {
    names.iter().map(|n| Screen { line0: n.to_string(), line1: String::new() }).collect()
}

fn gathered(names: &[&str]) -> Gathered {
    let mut g = Gathered::nothing(0);
    g.network = screens(names);
    g
}

fn started(names: &[&str]) -> (AppState, Gathered) {
    let mut s = AppState::new(Config::default(), 0);
    let g = gathered(names);
    s.refresh_all(&g, 0, &mut vec![]);
    (s, g)
}

fn show(level: Level, ttl_secs: u64, bay: Option<u32>, line0: &str) -> SocketCommand {
    SocketCommand::Show { level, ttl_secs, bay, line0: line0.to_string(), line1: "second".to_string() }
}

fn line0(e: Effect) -> String {
    match e {
        Effect::Render(a, _) => a,
        other => panic!("expected Render, got {other:?}"),
    }
}

fn tick(s: &mut AppState, g: &Gathered, now: u64) -> Effect {
    let mut g = g.clone();
    g.network_at = now;
    g.pools_at = now;
    g.hdd_at = now;
    g.temperature_at = now;
    g.docker_at = now;
    s.tick(&vec!["eth0".to_string()], &g, now, now, &mut vec![])
}

fn key(s: &mut AppState, k: Key, now: u64) -> Effect {
    s.handle_key(k, &Gathered::nothing(now), now, &mut vec![])
}

fn push(s: &mut AppState, c: SocketCommand, now: u64) -> Effect {
    s.apply_socket_command(c, now, &mut vec![])
}

#[test]
fn screens_rotate_after_their_dwell() {
    let (mut s, g) = started(&["a", "b"]);
    assert_eq!(line0(tick(&mut s, &g, 0)), "a");
    assert_eq!(line0(tick(&mut s, &g, 5 * SEC - 1)), "a");
    assert_eq!(line0(tick(&mut s, &g, 5 * SEC)), "b");
    assert_eq!(line0(tick(&mut s, &g, 10 * SEC)), "a");
}

#[test]
fn no_screens_at_all() {
    let (mut s, g) = started(&[]);
    match tick(&mut s, &g, 0) {
        Effect::Render(a, b) => {
            assert_eq!(a, "LCM-STATUS");
            assert_eq!(b, "no screens enabl");
        }
        other => panic!("{other:?}"),
    }
}

#[test]
fn rotation_waits_for_a_scrolling_line() {
    let (mut s, g) = started(&["a line that is too long", "b"]);
    tick(&mut s, &g, 0);
    tick(&mut s, &g, SEC);
    assert_ne!(line0(tick(&mut s, &g, 6 * SEC)), "b");
}

#[test]
fn paging_wraps_and_rests_the_rotation() {
    let (mut s, g) = started(&["a", "b", "c"]);
    key(&mut s, Key::Up, 0);
    assert_eq!(line0(tick(&mut s, &g, 0)), "c");
    key(&mut s, Key::Down, 0);
    assert_eq!(line0(tick(&mut s, &g, 0)), "a");
    assert_eq!(line0(tick(&mut s, &g, 29 * SEC)), "a");
    assert_eq!(line0(tick(&mut s, &g, 30 * SEC)), "b");
}

#[test]
fn menu_needs_confirmation() {
    let (mut s, g) = started(&["a"]);
    key(&mut s, Key::Enter, 0);
    match tick(&mut s, &g, 0) {
        Effect::Render(a, b) => assert_eq!((a.as_str(), b.as_str()), (">SHUTDOWN", "UP/DN ENTER BACK")),
        other => panic!("{other:?}"),
    }
    key(&mut s, Key::Up, 0);
    assert_eq!(line0(tick(&mut s, &g, 0)), ">RESTART");
    assert!(matches!(key(&mut s, Key::Enter, 0), Effect::Nothing));
    assert_eq!(line0(tick(&mut s, &g, 0)), "CONFIRM RESTART?");
    assert!(matches!(key(&mut s, Key::Up, 0), Effect::Nothing));
    assert!(matches!(key(&mut s, Key::Enter, 0), Effect::RunAction(Action::Restart)));
    assert_eq!(line0(tick(&mut s, &g, 0)), "a");
}

#[test]
fn eject_is_offered_where_available() {
    let (mut s, g) = started(&["a"]);
    s.set_eject_available(true);
    key(&mut s, Key::Enter, 0);
    key(&mut s, Key::Up, 0);
    assert_eq!(line0(tick(&mut s, &g, 0)), ">EJECT USB");
    key(&mut s, Key::Down, 0);
    assert_eq!(line0(tick(&mut s, &g, 0)), ">SHUTDOWN");
    key(&mut s, Key::Back, 0);
    assert_eq!(line0(tick(&mut s, &g, 0)), "a");
}

#[test]
fn unanswered_confirm_goes_away() {
    let (mut s, g) = started(&["a"]);
    key(&mut s, Key::Enter, 0);
    key(&mut s, Key::Enter, 0);
    assert_eq!(line0(tick(&mut s, &g, 10 * SEC - 1)), "CONFIRM SHUTDOWN");
    assert_eq!(line0(tick(&mut s, &g, 10 * SEC)), "a");
}

#[test]
fn lower_level_never_replaces_a_higher_one() {
    let (mut s, g) = started(&["a"]);
    push(&mut s, show(Level::Error, 0, None, "bad"), 0);
    push(&mut s, show(Level::Warn, 0, None, "meh"), 0);
    assert_eq!(line0(tick(&mut s, &g, 0)), "bad");
    push(&mut s, show(Level::Error, 0, None, "worse"), 0);
    assert_eq!(line0(tick(&mut s, &g, 0)), "worse");
    push(&mut s, show(Level::Critical, 0, None, "worst"), 0);
    assert_eq!(line0(tick(&mut s, &g, 0)), "worst");
}

#[test]
fn messages_expire_unless_urgent() {
    let (mut s, g) = started(&["a"]);
    push(&mut s, show(Level::Info, 3, None, "hello"), 0);
    assert_eq!(line0(tick(&mut s, &g, 3 * SEC - 1)), "hello");
    assert_eq!(line0(tick(&mut s, &g, 3 * SEC)), "a");
    push(&mut s, show(Level::Error, 3, None, "bad"), 0);
    assert_eq!(line0(tick(&mut s, &g, 1000 * SEC)), "bad");
    push(&mut s, SocketCommand::Clear { bay: Some(1) }, 0);
    assert_eq!(line0(tick(&mut s, &g, 1000 * SEC)), "bad");
    push(&mut s, SocketCommand::Clear { bay: None }, 0);
    assert_eq!(line0(tick(&mut s, &g, 1000 * SEC)), "a");
    push(&mut s, show(Level::Warn, 0, None, "stays"), 0);
    assert_eq!(line0(tick(&mut s, &g, 2000 * SEC)), "stays");
}

#[test]
fn menu_is_never_interrupted() {
    let (mut s, g) = started(&["a"]);
    key(&mut s, Key::Enter, 0);
    push(&mut s, show(Level::Critical, 0, None, "worst"), 0);
    push(&mut s, show(Level::Info, 0, None, "low"), 0);
    assert_eq!(line0(tick(&mut s, &g, 0)), ">SHUTDOWN");
    key(&mut s, Key::Back, 0);
    assert_eq!(line0(tick(&mut s, &g, 0)), "worst");
}

#[test]
fn waiting_message_does_not_replace_a_higher_one() {
    let (mut s, g) = started(&["a"]);
    push(&mut s, show(Level::Critical, 0, None, "worst"), 0);
    key(&mut s, Key::Enter, 0);
    push(&mut s, show(Level::Info, 0, None, "low"), 0);
    key(&mut s, Key::Back, 0);
    assert_eq!(line0(tick(&mut s, &g, 0)), "worst");
}

fn leds(out: &[Output]) -> Vec<String> {
    out.iter()
        .filter_map(|o| match o {
            Output::Led(w) => Some(format!("{}/{}={}", w.led, w.attr, w.value)),
            _ => None,
        })
        .collect()
}

#[test]
fn urgent_message_flashes_its_bay() {
    let (mut s, _) = started(&["a"]);
    let mut out = vec![];
    s.apply_socket_command(show(Level::Critical, 0, Some(2), "x"), 0, &mut out);
    let w = leds(&out);
    assert!(w.contains(&"sata2:red:disk/trigger=timer".to_string()));
    assert!(w.contains(&"red:status/delay_on=1000".to_string()));
    let mut out = vec![];
    s.apply_socket_command(SocketCommand::Clear { bay: Some(2) }, 0, &mut out);
    assert!(leds(&out).contains(&"sata2:green:disk/trigger=asustor-sata2".to_string()));
    assert!(matches!(out.last(), Some(Output::ShowHealth)));
}

#[test]
fn start_sets_port_and_bay_leds() {
    let (mut s, _) = started(&["a"]);
    let mut out = vec![];
    s.init_leds(&vec!["eth0".to_string()], &vec![(1, BayState::Failed)], &mut out);
    let w = leds(&out);
    assert_eq!(w[0], "eth0-0::lan/trigger=netdev");
    assert!(w.contains(&"sata1:red:disk/brightness=1".to_string()));
    assert!(out.iter().any(|o| matches!(o, Output::Log(e) if e.text == "bay 1: SMART reports FAILED")));
}

#[test]
fn sleep_and_wake_by_schedule() {
    let (mut s, g) = started(&["a"]);
    s.set_schedule_sleep_wanted(true);
    assert!(matches!(tick(&mut s, &g, 0), Effect::SetLcdPower(false)));
    assert!(matches!(tick(&mut s, &g, SEC), Effect::Nothing));
    assert!(matches!(push(&mut s, show(Level::Warn, 0, None, "meh"), SEC), Effect::Nothing));
    s.set_schedule_sleep_wanted(false);
    assert!(matches!(tick(&mut s, &g, 2 * SEC), Effect::SetLcdPower(true)));
    assert_eq!(line0(tick(&mut s, &g, 2 * SEC)), "a");
}

#[test]
fn urgent_message_wakes_the_panel() {
    let (mut s, g) = started(&["a"]);
    s.set_schedule_sleep_wanted(true);
    tick(&mut s, &g, 0);
    assert!(matches!(push(&mut s, show(Level::Error, 0, None, "bad"), SEC), Effect::SetLcdPower(true)));
    assert_eq!(line0(tick(&mut s, &g, 2 * SEC)), "bad");
    push(&mut s, SocketCommand::Clear { bay: None }, SEC);
    assert!(matches!(tick(&mut s, &g, 3 * SEC), Effect::SetLcdPower(false)));
}

#[test]
fn key_wakes_the_panel_for_a_while() {
    let (mut s, g) = started(&["a"]);
    s.set_schedule_sleep_wanted(true);
    tick(&mut s, &g, 0);
    assert!(s.key_plan(SEC).pools);
    assert!(matches!(key(&mut s, Key::Enter, SEC), Effect::SetLcdPower(true)));
    assert_eq!(line0(tick(&mut s, &g, 30 * SEC)), "a");
    assert!(matches!(tick(&mut s, &g, 31 * SEC), Effect::SetLcdPower(false)));
}

/// The effect of a tick, and whether it gives the USB LED back to the kernel.
fn tick_leds(s: &mut AppState, g: &Gathered, now: u64) -> (Effect, bool) {
    let mut out = vec![];
    let effect = s.tick(&vec!["eth0".to_string()], g, now, now, &mut out);
    let back = out.iter().any(|o| {
        matches!(o, Output::Led(w) if w.led == "green:usb" && w.attr == "trigger" && w.value == "asustor-front-usb")
    });
    (effect, back)
}

#[test]
fn leds_come_back_though_a_message_woke_the_panel() {
    let (mut s, g) = started(&["a"]);
    s.set_schedule_sleep_wanted(true);
    assert!(matches!(tick_leds(&mut s, &g, 0), (Effect::SetLcdPower(false), false)));
    push(&mut s, show(Level::Critical, 0, None, "bad"), SEC);
    assert!(!tick_leds(&mut s, &g, 2 * SEC).1);
    s.set_schedule_sleep_wanted(false);
    assert!(s.tick_plan(3 * SEC).bays);
    let (effect, back) = tick_leds(&mut s, &g, 3 * SEC);
    assert!(back);
    assert_eq!(line0(effect), "bad");
    assert!(!s.tick_plan(4 * SEC).bays);
    assert!(!tick_leds(&mut s, &g, 4 * SEC).1);
}

#[test]
fn leds_come_back_though_a_key_woke_the_panel() {
    let (mut s, g) = started(&["a"]);
    s.set_schedule_sleep_wanted(true);
    tick(&mut s, &g, 0);
    key(&mut s, Key::Up, SEC);
    assert!(!tick_leds(&mut s, &g, 2 * SEC).1);
    s.set_schedule_sleep_wanted(false);
    assert!(tick_leds(&mut s, &g, 3 * SEC).1);
    assert!(!tick_leds(&mut s, &g, 4 * SEC).1);
}

#[test]
fn leds_come_back_with_the_panel() {
    let (mut s, g) = started(&["a"]);
    assert!(!tick_leds(&mut s, &g, 0).1);
    s.set_schedule_sleep_wanted(true);
    tick(&mut s, &g, 0);
    s.set_schedule_sleep_wanted(false);
    assert!(matches!(tick_leds(&mut s, &g, SEC), (Effect::SetLcdPower(true), true)));
    assert!(!tick_leds(&mut s, &g, 2 * SEC).1);
}

#[test]
fn ports_count_when_the_leds_change() {
    let (mut s, g) = started(&["a"]);
    assert!(!s.night_changes(0));
    s.set_schedule_sleep_wanted(true);
    assert!(s.night_changes(0));
    tick(&mut s, &g, 0);
    assert!(!s.night_changes(SEC));
    key(&mut s, Key::Up, SEC);
    assert!(!s.night_changes(2 * SEC));
    s.set_schedule_sleep_wanted(false);
    assert!(s.night_changes(2 * SEC));
    tick(&mut s, &g, 2 * SEC);
    assert!(!s.night_changes(3 * SEC));
}

#[test]
fn message_waits_behind_a_milder_one_and_shows() {
    let (mut s, g) = started(&["a"]);
    key(&mut s, Key::Enter, 0);
    push(&mut s, show(Level::Info, 0, None, "mild"), 0);
    push(&mut s, show(Level::Warn, 0, None, "worse"), 0);
    push(&mut s, show(Level::Info, 0, None, "late"), 0);
    key(&mut s, Key::Back, SEC);
    assert_eq!(line0(tick(&mut s, &g, SEC)), "worse");
}

#[test]
fn clearing_by_bay_restores_the_bay() {
    for clear in [None, Some(2)] {
        let (mut s, _) = started(&["a"]);
        push(&mut s, show(Level::Error, 0, Some(2), "bad"), 0);
        let mut out = vec![];
        s.apply_socket_command(SocketCommand::Clear { bay: clear }, SEC, &mut out);
        let normal = |o: &Output| {
            matches!(o, Output::Led(w) if w.led == "sata2:green:disk" && w.attr == "trigger" && w.value == "asustor-sata2")
        };
        assert!(out.iter().any(normal));
        assert!(matches!(out.last(), Some(Output::ShowHealth)));
    }
}

#[test]
fn clearing_leaves_a_sleeping_panel_dark() {
    let (mut s, g) = started(&["a"]);
    s.set_schedule_sleep_wanted(true);
    tick(&mut s, &g, 0);
    for bay in [None, Some(1)] {
        let mut out = vec![];
        assert!(matches!(s.apply_socket_command(SocketCommand::Clear { bay }, SEC, &mut out), Effect::Nothing));
        assert!(out.is_empty());
    }
    assert!(matches!(tick(&mut s, &g, 2 * SEC), Effect::Nothing));
}

#[test]
fn menu_keeps_the_panel_awake() {
    let (mut s, g) = started(&["a"]);
    key(&mut s, Key::Enter, 0);
    s.set_schedule_sleep_wanted(true);
    assert_eq!(line0(tick(&mut s, &g, 0)), ">SHUTDOWN");
}

#[test]
fn plan_keeps_to_the_intervals() {
    let (mut s, _) = started(&["a"]);
    let p = s.refresh_plan(SEC);
    assert!(!p.network && !p.pools && !p.hdd && !p.temperature && !p.docker && !p.sensors && !p.bays);
    let p = s.refresh_plan(10 * SEC);
    assert!(p.network && p.temperature && p.sensors && p.docker);
    let p = s.full_plan(SEC);
    assert!(p.network && p.pools && p.hdd && p.bays && !p.sensors);
    s.set_schedule_sleep_wanted(true);
    let p = s.tick_plan(100_000 * SEC);
    assert!(!p.network && !p.pools);
}

#[test]
fn monitoring_does_not_depend_on_screens() {
    let mut cfg = Config::default();
    cfg.screens.pools = false;
    cfg.screens.temperature = false;
    let mut s = AppState::new(cfg, 0);
    let mut g = Gathered::nothing(0);
    g.pool_healths = vec![("tank".to_string(), "DEGRADED".to_string())];
    g.pools = screens(&["hidden"]);
    g.sensors =
        vec![SensorReading { chip: "x".to_string(), label: "x temp1".to_string(), temp: 99_000 }];
    let mut out = vec![];
    s.refresh_all(&g, 0, &mut out);
    let n = out.iter().filter(|o| matches!(o, Output::Log(_))).count();
    assert_eq!(n, 2);
    assert_eq!(line0(tick(&mut s, &g, 0)), "LCM-STATUS");
}

fn health(pools: &[(&str, &str)], configured: &[&str], down: &[&str]) -> HealthInputs {
    HealthInputs {
        pools: pools.iter().map(|p| (p.0.to_string(), p.1.to_string())).collect(),
        configured: configured.iter().map(|x| x.to_string()).collect(),
        down: down.iter().map(|x| x.to_string()).collect(),
    }
}

#[test]
fn health_patterns() {
    let (mut s, _) = started(&["a"]);
    let p = |s: &AppState, h: HealthInputs| s.health_summary(&h).pattern;
    assert_eq!(p(&s, health(&[("t", "ONLINE")], &["e0", "e1"], &[])), StatusPattern::Healthy);
    assert_eq!(p(&s, health(&[], &["e0", "e1"], &["e0"])), StatusPattern::Warning);
    assert_eq!(p(&s, health(&[("t", "DEGRADED")], &["e0", "e1"], &["e0"])), StatusPattern::Degraded);
    assert_eq!(p(&s, health(&[("t", "DEGRADED"), ("u", "UNAVAIL")], &[], &[])), StatusPattern::Failed);
    assert_eq!(p(&s, health(&[], &["e0", "e1"], &["e1", "e0"])), StatusPattern::Failed);
    assert_eq!(p(&s, health(&[], &[], &["e1", "e0"])), StatusPattern::Healthy);
    s.set_fan_health(Level::Critical);
    assert_eq!(p(&s, health(&[("t", "FAULTED")], &[], &[])), StatusPattern::CriticalFlashing);
    assert_eq!(s.health_summary(&health(&[], &[], &[])).overall, Level::Critical);
}

#[test]
fn network_settings_count() {
    let mut cfg = Config::default();
    cfg.network.monitored_nics = vec!["x".to_string(), "y".to_string()];
    cfg.network.some_down_level = NetworkLevel::Error;
    let s = AppState::new(cfg.clone(), 0);
    assert_eq!(s.monitored_nics(&vec!["z".to_string()]), vec!["x".to_string(), "y".to_string()]);
    assert_eq!(s.health_summary(&health(&[], &["z"], &["y"])).network_level, Level::Error);
    assert_eq!(s.health_summary(&health(&[], &["z"], &["z"])).network_level, Level::Info);
    cfg.network.enabled = false;
    let s = AppState::new(cfg, 0);
    assert_eq!(s.health_summary(&health(&[], &["z"], &["y"])).network_level, Level::Info);
}

#[test]
fn override_in_words() {
    let (mut s, _) = started(&["a"]);
    assert_eq!(s.override_summary(), None);
    push(&mut s, show(Level::Critical, 0, Some(2), "x"), 0);
    assert_eq!(s.override_summary(), Some("Critical bay=2: x / second".to_string()));
    push(&mut s, SocketCommand::Clear { bay: None }, 0);
    push(&mut s, show(Level::Warn, 0, None, "y"), 0);
    assert_eq!(s.override_summary(), Some("Warn: y / second".to_string()));
    push(&mut s, SocketCommand::StatusRequest, 0);
    assert_eq!(s.override_summary(), Some("Warn: y / second".to_string()));
}

#[test]
fn data_outside_the_plan_is_ignored() {
    let (mut s, g) = started(&["a"]);
    let mut other = g.clone();
    other.network = screens(&["z"]);
    other.bays = vec![(1, BayState::Failed)];
    let mut out = vec![];
    let e = s.tick(&vec![], &other, SEC, SEC, &mut out);
    assert_eq!(line0(e), "a");
    assert!(out.is_empty());
}

#[test]
fn flashing_bay_goes_on_flashing() {
    let (mut s, _) = started(&["a"]);
    push(&mut s, show(Level::Critical, 0, Some(1), "x"), 0);
    let mut out = vec![];
    s.init_leds(&vec![], &vec![(1, BayState::Normal), (2, BayState::Normal)], &mut out);
    let w = leds(&out);
    let last = w.iter().rev().find(|x| x.starts_with("sata1:red:disk/trigger=")).unwrap();
    assert_eq!(last, "sata1:red:disk/trigger=timer");
    assert!(!out.iter().any(|o| matches!(o, Output::ShowHealth)));
}

#[test]
fn health_does_not_depend_on_messages() {
    let (mut s, _) = started(&["a"]);
    let h = health(&[("t", "DEGRADED")], &[], &[]);
    let before = s.health_summary(&h).pattern;
    push(&mut s, show(Level::Critical, 0, None, "x"), 0);
    assert_eq!(s.health_summary(&h).pattern, before);
}
