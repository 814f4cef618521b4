use lcm_status::config::{default_fans, FanProfile};
use lcm_status::fan::FanOrder;
use lcm_status::fan_control::{worst_fan_health, FanController};
use lcm_status::socket::Level;
use lcm_status::syslog::{LogEntry, Priority};

const SEC: u64 = 1_000_000_000;

fn running() -> FanController {
    let mut f = FanController::new(default_fans().remove(0));
    f.resolve(Some("/hw".to_string()));
    let order = f.tick(&vec![Some(40_000), None, None], Some(900), 0, &mut vec![]);
    assert_eq!(order, FanOrder::Kick(60));
    f.written(order, true, 0);
    f
}

#[test]
fn hottest_demand_wins() {
    let mut f = running();
    let r = f.tick(&vec![Some(40_000), None, None], Some(900), SEC, &mut vec![]);
    assert_eq!(r, FanOrder::Drive(50));
    assert!(f.sensor_due(0, 2 * SEC));
    assert!(!f.sensor_due(1, 2 * SEC));
    assert!(f.sensor_due(1, 30 * SEC));
    let r = f.tick(&vec![Some(40_000), Some(60_000), None], Some(900), 30 * SEC, &mut vec![]);
    assert_eq!(r, FanOrder::Drive(255));
    let r = f.tick(&vec![Some(67_500), Some(20_000), None], Some(900), 31 * SEC, &mut vec![]);
    assert_eq!(r, FanOrder::Drive(255));
    let r = f.tick(&vec![Some(67_500), Some(20_000), None], Some(900), 60 * SEC, &mut vec![]);
    assert_eq!(r, FanOrder::Drive(155));
}

#[test]
fn controller_keeps_its_pace() {
    let mut f = running();
    assert!(!f.tick_due(SEC - 1));
    assert_eq!(f.tick(&vec![Some(40_000), None, None], Some(900), SEC - 1, &mut vec![]), FanOrder::Nothing);
    assert!(f.tick_due(SEC));
}

#[test]
fn no_reading_leaves_the_fan_alone() {
    let mut f = running();
    assert_eq!(f.tick(&vec![None, None, None], Some(900), SEC, &mut vec![]), FanOrder::Nothing);
}

#[test]
fn profile_without_chip_or_disabled_does_nothing() {
    let mut f = FanController::new(FanProfile::default());
    assert_eq!(f.resolve(Some("/hw".to_string())), None);
    assert!(!f.tick_due(0));
    assert_eq!(f.tick(&vec![], None, 0, &mut vec![]), FanOrder::Nothing);
    let mut p = default_fans().remove(0);
    p.enabled = false;
    let f = FanController::new(p);
    assert!(!f.tick_due(0));
}

fn texts(v: &[LogEntry]) -> Vec<(Priority, String)> {
    v.iter().map(|e| (e.priority, e.text.clone())).collect()
}

#[test]
fn stalls_become_critical_and_clear() {
    let mut f = running();
    let mut log = vec![];
    let read = vec![Some(67_500), None, None];
    let mut now = SEC;
    let order = f.tick(&read, Some(900), now, &mut log);
    f.written(order, true, now);
    assert!(log.is_empty());
    for _ in 0..5 {
        now += 2 * SEC;
        let order = f.tick(&read, Some(0), now, &mut log);
        assert_eq!(order, FanOrder::Kick(60));
        f.written(order, true, now);
    }
    assert_eq!(
        texts(&log),
        [
            (Priority::Warning, "fan chassis: stalled (0 RPM), trying to restart it".to_string()),
            (
                Priority::Critical,
                "fan chassis: stalled (0 RPM), unresponsive after 3 attempts to restart it".to_string()
            ),
        ]
    );
    assert_eq!(f.health_level(), Level::Critical);
    assert_eq!(f.status_line(), "chassis: pwm=60 rpm=0 health=Critical");
    log.clear();
    now += 2 * SEC;
    f.tick(&read, Some(300), now, &mut log);
    assert_eq!(
        texts(&log),
        [(Priority::Warning, "fan chassis: only 300 RPM, expected at least 500 RPM".to_string())]
    );
    assert_eq!(f.health_level(), Level::Warn);
    log.clear();
    now += 2 * SEC;
    f.tick(&read, Some(900), now, &mut log);
    assert_eq!(texts(&log), [(Priority::Notice, "fan chassis: back to normal (900 RPM)".to_string())]);
    log.clear();
    now += 2 * SEC;
    f.tick(&read, Some(901), now, &mut log);
    assert!(log.is_empty());
}

#[test]
fn worst_fan_counts() {
    assert_eq!(worst_fan_health(&vec![]), Level::Info);
    let mut bad = running();
    let read = vec![Some(67_500), None, None];
    bad.tick(&read, Some(0), SEC, &mut vec![]);
    assert_eq!(bad.health_level(), Level::Warn);
    assert_eq!(worst_fan_health(&vec![running(), bad, running()]), Level::Warn);
}

#[test]
fn controller_looks_for_its_chip_again() {
    let mut f = running();
    let order = f.tick(&vec![Some(67_500), None, None], Some(900), SEC, &mut vec![]);
    f.written(order, false, SEC);
    assert_eq!(f.resolve(None), None);
    assert_eq!(f.resolve(Some("/other".to_string())), Some("/other".to_string()));
    assert_eq!(f.profile().name, "chassis");
}
