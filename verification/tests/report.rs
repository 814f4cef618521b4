use lcm_status::config::{default_fans, Config};
use lcm_status::fan_control::FanController;
use lcm_status::led::BayState;
use lcm_status::monitor::SensorReading;
use lcm_status::report::{build, NicState, ReportInputs};
use lcm_status::socket::{Level, SocketCommand};
use lcm_status::state::{AppState, HealthInputs};

fn reading(chip: &str, label: &str, temp: i32) -> SensorReading {
    SensorReading { chip: chip.to_string(), label: label.to_string(), temp }
}

#[test]
fn empty_report() {
    let cfg = Config::default();
    let state = AppState::new(cfg.clone(), 0);
    let inputs = ReportInputs {
        temps: vec![],
        bays: vec![],
        health: HealthInputs { pools: vec![], configured: vec![], down: vec![] },
        nics: vec![],
        ips: vec![],
    };
    assert_eq!(
        build(&state, &vec![], &cfg, &inputs),
        "=== lcm-status report ===\n\n\
         -- Fans --\n  (none configured)\n\n\
         -- Temperatures --\n  (no connected sensors found)\n\n\
         -- Pools --\n  (none found)\n\n\
         -- Drive bays (SMART) --\n  (none found)\n\n\
         -- Network --\n\n\
         -- Active override --\n  none\n\n\
         -- Overall status LED --\n  pattern: Ok\n  severity: Info  (fan=Info temp=Info network=Info \
         pool_degraded=false pool_faulted=false bay_failed=false)\n"
    );
}

#[test]
fn full_report() {
    let cfg = Config::default();
    let mut state = AppState::new(cfg.clone(), 0);
    state.apply_socket_command(
        SocketCommand::Show {
            level: Level::Error,
            ttl_secs: 0,
            bay: Some(1),
            line0: "one".to_string(),
            line1: "two".to_string(),
        },
        0,
        &mut vec![],
    );
    let fans = vec![FanController::new(default_fans().remove(0))];
    let inputs = ReportInputs {
        temps: vec![
            reading("nvme", "nvme temp1", 65_000),
            reading("drivetemp", "drivetemp temp1", 30_000),
            reading("drivetemp", "drivetemp temp1", 29_000),
            reading("acpi", "acpi temp1", 90_000),
        ],
        bays: vec![(1, BayState::Normal), (2, BayState::Standby)],
        health: HealthInputs {
            pools: vec![("tank".to_string(), "DEGRADED".to_string())],
            configured: vec!["eth0".to_string()],
            down: vec![],
        },
        nics: vec![
            NicState { name: "eth0".to_string(), carrier: Some("1\n".to_string()) },
            NicState { name: "eth1".to_string(), carrier: Some("0\n".to_string()) },
        ],
        ips: vec![("eth0".to_string(), "10.0.0.1".to_string())],
    };
    let want = format!(
        "=== lcm-status report ===\n\n\
         -- Fans --\n  chassis: pwm=? rpm=? health=Info\n\n\
         -- Temperatures --\n\
         {}{}{}{}\n\
         -- Pools --\n  {:<16} DEGRADED\n\n\
         -- Drive bays (SMART) --\n  bay 1: Normal\n  bay 2: Standby\n\n\
         -- Network --\n  {:<10} {:<20} monitored, link up\n  {:<10} {:<20} not monitored, link down\n\n\
         -- Active override --\n  Error bay=1: one / two\n\n\
         -- Overall status LED --\n  pattern: Degraded\n  severity: Info  (fan=Info temp=Info network=Info \
         pool_degraded=true pool_faulted=false bay_failed=false)\n",
        temp("acpi temp1", 90.0, "CRITICAL", 75.0, 85.0),
        temp("drivetemp temp1", 30.0, "ok", 50.0, 60.0),
        temp("drivetemp temp1", 29.0, "ok", 50.0, 60.0),
        temp("nvme temp1", 65.0, "WARNING", 60.0, 70.0),
        "tank",
        "eth0",
        "10.0.0.1",
        "eth1",
        "no link",
    );
    assert_eq!(build(&state, &fans, &cfg, &inputs), want);
}

fn temp(label: &str, t: f32, level: &str, warn: f32, crit: f32) -> String {
    format!("  {label:<40} {t:>6.1}C  [{level:<8}] (warn {warn:.1}C / crit {crit:.1}C)\n")
}
