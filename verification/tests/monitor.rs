use lcm_status::config::{Config, TemperatureConfig};
use lcm_status::led::BayState;
use lcm_status::monitor::{HealthMonitor, SensorReading};
use lcm_status::socket::Level;
use lcm_status::syslog::{LogEntry, Priority};

const SEC: u64 = 1_000_000_000;

fn reading(label: &str, temp: i32) -> SensorReading {
    SensorReading { chip: "acpi".to_string(), label: label.to_string(), temp }
}

fn texts(v: &[LogEntry]) -> Vec<(Priority, String)> {
    v.iter().map(|e| (e.priority, e.text.clone())).collect()
}

#[test]
fn temperatures_are_reported_once() {
    let cfg = TemperatureConfig::default();
    let mut m = HealthMonitor::new();
    assert!(m.check_temps(&cfg, &vec![reading("acpi temp1", 40_000)]).is_empty());
    assert_eq!(
        texts(&m.check_temps(&cfg, &vec![reading("acpi temp1", 75_000)])),
        [(Priority::Warning, "acpi temp1: 75.0C, at or above warning threshold (75.0C)".to_string())]
    );
    assert!(m.check_temps(&cfg, &vec![reading("acpi temp1", 80_000)]).is_empty());
    assert_eq!(m.worst_temp_level(), Level::Warn);
    assert_eq!(
        texts(&m.check_temps(&cfg, &vec![reading("acpi temp1", 90_000)])),
        [(Priority::Critical, "acpi temp1: 90.0C, at or above critical threshold (85.0C)".to_string())]
    );
    assert_eq!(m.worst_temp_level(), Level::Critical);
    assert_eq!(
        texts(&m.check_temps(&cfg, &vec![reading("acpi temp1", 60_000)])),
        [(Priority::Notice, "acpi temp1: back to 60.0C, below warning threshold".to_string())]
    );
    assert_eq!(m.worst_temp_level(), Level::Info);
}

#[test]
fn gone_sensors_are_forgotten() {
    let cfg = TemperatureConfig::default();
    let mut m = HealthMonitor::new();
    m.check_temps(&cfg, &vec![reading("a", 90_000), reading("b", 20_000)]);
    assert_eq!(m.worst_temp_level(), Level::Critical);
    m.check_temps(&cfg, &vec![reading("b", 20_000)]);
    assert_eq!(m.worst_temp_level(), Level::Info);
    assert_eq!(m.check_temps(&cfg, &vec![reading("a", 90_000)]).len(), 1);
}

#[test]
fn temperatures_are_checked_at_their_own_pace() {
    let mut cfg = Config::default();
    cfg.refresh.temperature_min_secs = 0;
    cfg.screens.temperature = false;
    let mut m = HealthMonitor::new();
    assert!(m.temps_due(&cfg, 0));
    assert_eq!(m.maybe_check_temps(&cfg, 0, &vec![reading("a", 90_000)]).len(), 1);
    assert!(!m.temps_due(&cfg, SEC - 1));
    assert!(m.maybe_check_temps(&cfg, SEC - 1, &vec![]).is_empty());
    assert_eq!(m.worst_temp_level(), Level::Critical);
    m.maybe_check_temps(&cfg, SEC, &vec![]);
    assert_eq!(m.worst_temp_level(), Level::Info);
}

#[test]
fn pools_are_reported_once() {
    let pool = |h: &str| vec![("tank".to_string(), h.to_string())];
    let mut m = HealthMonitor::new();
    assert!(m.check_pools(&pool("ONLINE")).is_empty());
    assert_eq!(
        texts(&m.check_pools(&pool("DEGRADED"))),
        [(Priority::Warning, "pool tank: DEGRADED".to_string())]
    );
    assert!(m.check_pools(&pool("DEGRADED")).is_empty());
    assert_eq!(
        texts(&m.check_pools(&pool("FAULTED"))),
        [(Priority::Critical, "pool tank: FAULTED".to_string())]
    );
    assert_eq!(
        texts(&m.check_pools(&pool("ONLINE"))),
        [(Priority::Notice, "pool tank: back to ONLINE (was FAULTED)".to_string())]
    );
}

#[test]
fn failed_bays_are_reported_once() {
    let mut m = HealthMonitor::new();
    assert!(m.check_bays(&vec![(1, BayState::Normal), (2, BayState::Standby)]).is_empty());
    assert!(!m.any_bay_failed());
    assert_eq!(
        texts(&m.check_bays(&vec![(1, BayState::Failed)])),
        [(Priority::Critical, "bay 1: SMART reports FAILED".to_string())]
    );
    assert!(m.check_bays(&vec![(1, BayState::Failed)]).is_empty());
    assert!(m.any_bay_failed());
    assert_eq!(
        texts(&m.check_bays(&vec![(1, BayState::Normal)])),
        [(Priority::Notice, "bay 1: SMART no longer reports FAILED".to_string())]
    );
    assert!(!m.any_bay_failed());
}
