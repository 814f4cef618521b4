use lcm_status::config::FanConfig;
use lcm_status::fan::{compute_pwm, hottest_of, FanOrder, FanState};

fn cfg() -> FanConfig {
    FanConfig {
        enabled: true,
        update_secs: 1,
        min_temp_c: 45_000,
        max_temp_c: 90_000,
        min_start_pwm: 60,
        min_stop_pwm: 55,
        min_pwm: 50,
        max_pwm: 255,
        drive_temp_min_secs: 30,
    }
}

const SEC: u64 = 1_000_000_000;

#[test]
fn at_or_below_min_temp_is_flat_min_pwm() {
    assert_eq!(compute_pwm(30_000, &cfg()), 50);
    assert_eq!(compute_pwm(45_000, &cfg()), 50);
}

#[test]
fn at_or_above_max_temp_is_flat_max_pwm() {
    assert_eq!(compute_pwm(90_000, &cfg()), 255);
    assert_eq!(compute_pwm(120_000, &cfg()), 255);
}

#[test]
fn just_above_min_temp_starts_near_min_stop_not_min_pwm() {
    let pwm = compute_pwm(45_010, &cfg());
    assert!((54..=56).contains(&pwm), "got {pwm}");
}

#[test]
fn midpoint_interpolates_from_min_stop_to_max_pwm() {
    let pwm = compute_pwm(67_500, &cfg());
    let expected = 55 + (255 - 55) / 2;
    assert!((pwm as i32 - expected as i32).abs() <= 1, "got {pwm}");
}

#[test]
fn matches_the_actual_curve_used_before_this_replaced_fancontrol() {
    let pwm = compute_pwm(60_000, &cfg());
    assert!((100..=170).contains(&pwm), "got {pwm}");
}

fn single_precision(temp_c: f32, c: &FanConfig) -> u8 {
    let (lo, hi) = (c.min_temp_c as f32 / 1000.0, c.max_temp_c as f32 / 1000.0);
    let raw = if temp_c <= lo {
        c.min_pwm as f32
    } else if temp_c >= hi {
        c.max_pwm as f32
    } else {
        (temp_c - lo) * (c.max_pwm as f32 - c.min_stop_pwm as f32) / (hi - lo) + c.min_stop_pwm as f32
    };
    raw.round().clamp(0.0, 255.0) as u8
}

#[test]
fn curve_agrees_with_single_precision_at_whole_degrees() {
    for lo in [30, 45, 50] {
        for hi in [60, 70, 90, 100] {
            for stop in [0u8, 20, 55, 120, 255] {
                let c = FanConfig {
                    min_temp_c: lo * 1000,
                    max_temp_c: hi * 1000,
                    min_stop_pwm: stop,
                    ..cfg()
                };
                for t in -20..=125 {
                    assert_eq!(compute_pwm(t * 1000, &c), single_precision(t as f32, &c), "{t}");
                }
            }
        }
    }
}

#[test]
fn default_curve_agrees_with_single_precision() {
    for t in -20_000..=125_000 {
        assert_eq!(compute_pwm(t, &cfg()), single_precision(t as f32 / 1000.0, &cfg()), "{t}");
    }
}

#[test]
fn curve_has_exact_values() {
    assert_eq!(compute_pwm(67_500, &cfg()), 155);
    assert_eq!(compute_pwm(60_000, &cfg()), 122);
    assert_eq!(compute_pwm(89_999, &cfg()), 255);
}

#[test]
fn curve_never_falls_with_temperature() {
    let c = cfg();
    let mut last = 0;
    for t in (-20_000..=125_000).step_by(10) {
        let pwm = compute_pwm(t, &c);
        assert!(pwm >= last);
        last = pwm;
    }
}

#[test]
fn hottest_of_none_and_some() {
    assert_eq!(hottest_of(&vec![]), None);
    assert_eq!(hottest_of(&vec![40_000, 55_000, 41_000]), Some(55_000));
}

#[test]
fn fan_state_kicks_then_follows_the_curve() {
    let c = cfg();
    let mut f = FanState::new();
    assert_eq!(f.update(&c, Some(67_500), &vec![], Some(900), 0), FanOrder::Nothing);
    assert_eq!(f.resolve(&c, Some("/hw".to_string())), Some("/hw".to_string()));
    let order = f.update(&c, Some(67_500), &vec![], Some(900), 0);
    assert_eq!(order, FanOrder::Kick(60));
    f.written(order, true, 0);
    assert_eq!(f.update(&c, Some(67_500), &vec![], Some(900), SEC / 2), FanOrder::Nothing);
    let order = f.update(&c, Some(67_500), &vec![], Some(900), SEC);
    assert_eq!(order, FanOrder::Drive(155));
    f.written(order, true, SEC);
    assert_eq!(f.update(&c, Some(67_500), &vec![], Some(0), 2 * SEC), FanOrder::Kick(60));
    assert_eq!(f.update(&c, Some(67_500), &vec![], None, 2 * SEC), FanOrder::Drive(155));
}

#[test]
fn fan_state_heeds_a_hot_drive_and_caches_it() {
    let c = cfg();
    let mut f = FanState::new();
    f.resolve(&c, Some("/hw".to_string()));
    assert!(f.drive_temps_due(&c, 0));
    let order = f.update(&c, Some(30_000), &vec![30_000, 90_000], Some(900), 0);
    f.written(order, true, 0);
    assert!(!f.drive_temps_due(&c, 29 * SEC));
    assert_eq!(f.update(&c, Some(30_000), &vec![], Some(900), 29 * SEC), FanOrder::Drive(255));
    assert!(f.drive_temps_due(&c, 30 * SEC));
    assert_eq!(f.update(&c, Some(30_000), &vec![], Some(900), 30 * SEC), FanOrder::Drive(50));
    assert_eq!(f.update(&c, None, &vec![], Some(900), 31 * SEC), FanOrder::Nothing);
}

#[test]
fn fan_state_looks_for_its_chip_again_after_a_failed_write() {
    let c = cfg();
    let mut f = FanState::new();
    f.resolve(&c, Some("/a".to_string()));
    let order = f.update(&c, Some(50_000), &vec![], None, 0);
    f.written(order, false, 0);
    assert_eq!(f.update(&c, Some(50_000), &vec![], None, 0), FanOrder::Nothing);
    assert_eq!(f.resolve(&c, Some("/b".to_string())), Some("/b".to_string()));
    let off = FanConfig { enabled: false, ..cfg() };
    assert_eq!(f.update(&off, Some(50_000), &vec![], None, 0), FanOrder::Nothing);
    assert_eq!(FanState::new().resolve(&off, Some("/c".to_string())), None);
}
