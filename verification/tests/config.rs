use lcm_status::config::{
    default_fans, default_temp_thresholds, resolve_temp_threshold, Config, ConfigFile, FanProfile,
    NetworkLevel, TempUnits, TemperatureConfig,
};
use lcm_status::socket::Level;

#[test]
fn defaults_without_a_file() {
    for file in [ConfigFile::Unreadable, ConfigFile::Invalid] {
        let c = Config::load(file);
        assert_eq!(c.display.serial_device, "/dev/ttyS1");
        assert_eq!(c.display.scroll_max_chars, 64);
        assert_eq!(c.rotation.dwell_secs, 5);
        assert_eq!(c.menu.confirm_timeout_secs, 10);
        assert!(!c.sleep.enabled);
        assert_eq!(c.sleep.start, "23:00");
        assert_eq!(c.temperature.units, TempUnits::C);
        assert_eq!(c.temperature.warn_threshold, 75_000);
        assert!(c.network.enabled);
        assert_eq!(c.fans.len(), 1);
    }
}

#[test]
fn settings_of_a_file_are_kept() {
    let mut c = Config::default();
    c.rotation.dwell_secs = 77;
    c.fans.clear();
    let r = Config::load(ConfigFile::Parsed(c));
    assert_eq!(r.rotation.dwell_secs, 77);
    assert!(r.fans.is_empty());
}

#[test]
fn limits_of_single_chips() {
    let t = TemperatureConfig::default();
    assert_eq!(resolve_temp_threshold(&t, "drivetemp"), (50_000, 60_000));
    assert_eq!(resolve_temp_threshold(&t, "nvme"), (60_000, 70_000));
    assert_eq!(resolve_temp_threshold(&t, "it8625"), (75_000, 85_000));
    assert_eq!(default_temp_thresholds().len(), 3);
}

#[test]
fn default_ramps_are_the_default_limits() {
    let t = TemperatureConfig::default();
    for s in &default_fans()[0].sensors[1..] {
        let (warn, critical) = resolve_temp_threshold(&t, &s.chip);
        assert_eq!((s.min_temp_c, s.max_temp_c), (Some(warn), Some(critical)));
    }
}

#[test]
fn bare_fan_profile_has_no_chip() {
    let f = FanProfile::default();
    assert!(f.pwm_chip.is_empty());
    assert!(f.sensors.is_empty());
    assert_eq!((f.min_pwm, f.min_stop_pwm, f.min_start_pwm, f.max_pwm), (50, 55, 60, 255));
}

#[test]
fn network_levels_map_to_severities() {
    assert_eq!(Level::from(NetworkLevel::Warning), Level::Warn);
    assert_eq!(Level::from(NetworkLevel::Error), Level::Error);
}
