use lcm_status::fan_calibrate::{
    closing_text, fan_indices, find_pwm_candidates, inventory_line, is_yes, opening_text, proposed_toml,
    pwm_indices, restore, result_line, sensor_inventory, CalibrationResult, ChipFiles, OutputWrite, Phase,
    PwmCandidate,
};
use lcm_status::hwmon::{Chip, TempInput};

fn s(v: &[&str]) -> Vec<String> {
    v.iter().map(|x| x.to_string()).collect()
}

/// Runs a calibration against a fan whose speed follows from the output.
fn run(fans: &[u32], speed: impl Fn(u8, bool) -> Vec<u32>) -> (CalibrationResult, Vec<String>, usize) {
    let fans = fans.to_vec();
    let mut out = vec![];
    let mut phase = Phase::first(&fans, &mut out);
    let mut steps = 0;
    let mut turning = true;
    while let Some((pwm, _)) = phase.command() {
        let rpms = speed(pwm, turning);
        turning = rpms.iter().any(|&n| n > 0);
        phase = phase.next(&fans, rpms, &mut out);
        steps += 1;
    }
    (phase.result().unwrap(), out, steps)
}

#[test]
fn fan_that_stalls_and_restarts() {
    let (r, out, _) = run(&[1, 2], |pwm, turning| {
        let turns = pwm >= 80 || (turning && pwm >= 40);
        vec![if turns { pwm as u32 * 5 } else { 0 }, 0]
    });
    assert_eq!(
        r,
        CalibrationResult::Found { fan_index: 1, min_start_pwm: 80, min_stop_pwm: 45, max_pwm_rpm: 1275 }
    );
    assert!(out.contains(&"  stalled below pwm=30 -- min_stop_pwm candidate: 45".to_string()));
    assert!(out.contains(&"  restarts at pwm=80 -- min_start_pwm candidate: 80".to_string()));
    assert!(out.contains(&"  fan1 responds (confirmed causally, ~1275 RPM at pwm=255)".to_string()));
}

#[test]
fn fan_that_never_stalls() {
    let (r, out, steps) = run(&[3], |pwm, _| vec![200 + pwm as u32 * 4]);
    assert_eq!(
        r,
        CalibrationResult::Found { fan_index: 3, min_start_pwm: 1, min_stop_pwm: 1, max_pwm_rpm: 1220 }
    );
    assert!(out.iter().any(|l| l.starts_with("  never stalled, even at pwm=0")));
    assert!(out.iter().any(|l| l.starts_with("  min_stop_pwm=0 as a floor only")));
    assert_eq!(steps, 3 + 17);
}

#[test]
fn steady_fan_is_not_a_response() {
    let (r, out, steps) = run(&[1], |_, _| vec![1000]);
    assert_eq!(r, CalibrationResult::NoFanDetected);
    assert_eq!(steps, 3);
    assert!(out.last().unwrap().starts_with("  no fan showed a real response"));
    let (r, _, _) = run(&[], |_, _| vec![]);
    assert_eq!(r, CalibrationResult::NoFanDetected);
}

/// What a chip with one tachometer comes to by the readings of the three probes.
fn probed(hi1: u32, lo: u32, hi2: u32) -> Phase {
    let fans = vec![1];
    let mut out = vec![];
    Phase::first(&fans, &mut out)
        .next(&fans, vec![hi1], &mut out)
        .next(&fans, vec![lo], &mut out)
        .next(&fans, vec![hi2], &mut out)
}

#[test]
fn response_takes_a_fall_and_a_recovery() {
    assert_eq!(probed(2000, 0, 0).result(), Some(CalibrationResult::NoFanDetected));
    assert_eq!(probed(2000, 900, 800).result(), Some(CalibrationResult::NoFanDetected));
    assert_eq!(probed(2000, 800, 800).result(), Some(CalibrationResult::NoFanDetected));
    assert_eq!(probed(2000, 1400, 1900).result(), Some(CalibrationResult::NoFanDetected));
    assert_eq!(probed(2000, 800, 1000).result(), None);
    assert_eq!(probed(2000, 1000, 1300).result(), None);
    assert_eq!(probed(300, 600, 1200).result(), Some(CalibrationResult::NoFanDetected));
    assert_eq!(probed(0, 0, 1200).result(), Some(CalibrationResult::NoFanDetected));
    assert_eq!(probed(2000, 600, 1200).result(), None);
    assert_eq!(probed(2000, 600, 1200).command(), Some((240, 1500)));
}

#[test]
fn outputs_are_put_back() {
    let pwm = |v: &str| OutputWrite::Pwm(v.to_string());
    let mode = |v: &str| OutputWrite::Mode(v.to_string());
    assert_eq!(restore(Some("128\n"), Some(" 2\n")), [pwm("128"), mode("2")]);
    assert_eq!(restore(Some("128"), None), [pwm("128")]);
    assert_eq!(restore(None, Some("5\n")), [mode("5")]);
    assert_eq!(restore(None, None), []);

    let fans = vec![1];
    let mut out = vec![];
    let mut written = vec![];
    let mut phase = Phase::first(&fans, &mut out);
    assert_eq!(phase.writes(&fans, Some("128\n"), Some("2\n")), [mode("1"), pwm("255")]);
    while phase.result().is_none() {
        written.extend(phase.writes(&fans, Some("128\n"), Some("2\n")));
        let (pwm, _) = phase.command().unwrap();
        phase = phase.next(&fans, vec![pwm as u32 * 4], &mut out);
    }
    written.extend(phase.writes(&fans, Some("128\n"), Some("2\n")));
    assert_eq!(written[2..4], [mode("1"), pwm("20")]);
    assert_eq!(written[written.len() - 2..], [pwm("128"), mode("2")]);

    let none = Phase::first(&vec![], &mut out);
    assert_eq!(none.writes(&vec![], Some("128\n"), Some("2\n")), []);
    let idle = probed(1000, 1000, 1000);
    assert_eq!(idle.writes(&fans, Some("128\n"), Some("2\n")), [pwm("128"), mode("2")]);
}

#[test]
fn response_is_under_seven_tenths() {
    let (r, _, _) = run(&[1], |pwm, _| vec![if pwm == 20 { 700 } else { 1000 }]);
    assert_eq!(r, CalibrationResult::NoFanDetected);
    let (r, _, _) = run(&[1], |pwm, _| vec![if pwm == 20 { 699 } else { 1000 }]);
    assert!(matches!(r, CalibrationResult::Found { fan_index: 1, .. }));
}

#[test]
fn largest_drop_wins_and_the_last_of_equals() {
    let (r, _, _) = run(&[1, 2, 3], |pwm, _| {
        if pwm == 20 {
            vec![500, 100, 100]
        } else {
            vec![1000, 1000, 1000]
        }
    });
    assert!(matches!(r, CalibrationResult::Found { fan_index: 3, .. }));
}

#[test]
fn fan_that_does_not_restart() {
    let (r, _, steps) = run(&[1], |pwm, _| vec![if pwm == 255 { 1000 } else { 0 }]);
    assert_eq!(
        r,
        CalibrationResult::Found { fan_index: 1, min_start_pwm: 255, min_stop_pwm: 255, max_pwm_rpm: 1000 }
    );
    assert!(steps < 600);
}

#[test]
fn commands_set_outputs_and_wait() {
    let mut out = vec![];
    let fans = vec![1];
    let p = Phase::first(&fans, &mut out);
    assert_eq!(p.command(), Some((255, 2000)));
    assert!(p.result().is_none());
    let p = p.next(&fans, vec![1000], &mut out);
    assert_eq!(p.command(), Some((20, 3000)));
    let p = p.next(&fans, vec![100], &mut out);
    assert_eq!(p.command(), Some((255, 3000)));
    let p = p.next(&fans, vec![1000], &mut out);
    assert_eq!(p.command(), Some((240, 1500)));
}

#[test]
fn outputs_and_tachometers_by_file_name() {
    let files = s(&["pwm10", "pwm2", "pwm1_enable", "pwm", "pwm+3", "fan2_input", "fan1_input", "fan1_alarm", "fan_input"]);
    assert_eq!(pwm_indices(&files), vec![2, 10]);
    assert_eq!(fan_indices(&files), vec![1, 2]);
    let chips = vec![
        ChipFiles { hwmon: "/h0".to_string(), chip_name: String::new(), files: files.clone() },
        ChipFiles { hwmon: "/h1".to_string(), chip_name: "it8625".to_string(), files },
    ];
    let c = find_pwm_candidates(&chips);
    let got: Vec<_> = c.iter().map(|x| (x.hwmon.as_str(), x.chip_name.as_str(), x.pwm_index)).collect();
    assert_eq!(got, [("/h1", "it8625", 2), ("/h1", "it8625", 10)]);
}

fn candidate() -> PwmCandidate {
    PwmCandidate { hwmon: "/h1".to_string(), chip_name: "it8625".to_string(), pwm_index: 1 }
}

#[test]
fn results_in_lines() {
    let c = candidate();
    let r = CalibrationResult::Found { fan_index: 1, min_start_pwm: 80, min_stop_pwm: 45, max_pwm_rpm: 1275 };
    assert_eq!(
        result_line(&c, r),
        "  it8625 pwm1 -> fan1: min_start_pwm=80 min_stop_pwm=45 (max ~1275 RPM)"
    );
    assert_eq!(
        result_line(&c, CalibrationResult::NoFanDetected),
        "  it8625 pwm1 -> no fan responded, skipping"
    );
}

#[test]
fn proposed_settings_block() {
    let t = proposed_toml(0, &candidate(), 1, 80, 45);
    assert!(t.starts_with("[[fans]]\nname = \"chassis\"\npwm_chip = \"it8625\"\npwm_index = 1\nfan_index = 1\n"));
    assert!(t.contains("\nmin_start_pwm = 80\nmin_stop_pwm = 45\nmin_pwm = 45\nmax_pwm = 255\n"));
    assert!(proposed_toml(2, &candidate(), 1, 80, 45).contains("name = \"fan2\""));
}

#[test]
fn inventory_lines() {
    let input = |label: Option<&str>, value: Option<i32>| TempInput {
        name: "temp1".to_string(),
        label: label.map(|x| x.to_string()),
        fault: None,
        value,
        raw: value.map(i64::from),
    };
    assert_eq!(
        inventory_line("coretemp", &input(Some("Package id 0\n"), Some(45_000))),
        "  [connected]    coretemp temp1 \"Package id 0\": 45.0C"
    );
    assert_eq!(
        inventory_line("it8625", &input(None, Some(-128_000))),
        "  [unconnected]  it8625 temp1: -128.0C raw (fault flag set, or outside plausible range)"
    );
    assert_eq!(
        inventory_line("it8625", &input(None, None)),
        "  [unconnected]  it8625 temp1: unreadable (fault flag set, or outside plausible range)"
    );
}

#[test]
fn raw_readings_in_single_precision() {
    let mut raws: Vec<i64> = vec![
        -30, -50, 0, 49, 50, 51, 150, 250, 350, 125_050, 16_777_215, 16_777_216, 16_777_217, 16_777_250,
        33_554_431, 99_999_950, 2_147_483_647, -2_147_483_648, 8_388_608_050, 4_294_967_295,
        123_456_789_012, 999_999_999_999_999, i64::MAX, i64::MIN,
    ];
    let mut n: i64 = 17_000_003;
    while n < i64::MAX / 3 {
        raws.push(n);
        raws.push(-n - 25);
        n += n / 7 + 50;
    }
    for raw in raws {
        let input = TempInput {
            name: "temp1".to_string(),
            label: None,
            fault: Some("1\n".to_string()),
            value: Some(40_000),
            raw: Some(raw),
        };
        assert_eq!(
            inventory_line("x", &input),
            format!(
                "  [unconnected]  x temp1: {:.1}C raw (fault flag set, or outside plausible range)",
                raw as f32 / 1000.0
            )
        );
    }
    let fraction = TempInput {
        name: "temp1".to_string(),
        label: None,
        fault: Some("1".to_string()),
        value: Some(40_000),
        raw: None,
    };
    assert_eq!(
        inventory_line("x", &fraction),
        "  [unconnected]  x temp1: unreadable (fault flag set, or outside plausible range)"
    );
}

#[test]
fn yes_in_any_case() {
    assert!(is_yes("y\n"));
    assert!(is_yes(" YES \n"));
    assert!(!is_yes("yep"));
    assert!(!is_yes(""));
}

#[test]
fn texts_before_and_after_a_sweep() {
    assert_eq!(opening_text(&vec![]), "No pwm-capable hwmon chips found. Nothing to calibrate.\n");
    let t = opening_text(&vec![candidate()]);
    assert!(t.starts_with("== PWM outputs found ==\n  it8625 pwm1 (chip at /h1)\n\nAbout to sweep 1 pwm output(s)"));
    let none = closing_text(&vec![(candidate(), CalibrationResult::NoFanDetected)], "/etc/x.toml");
    assert_eq!(
        none,
        "\n== Results ==\n  it8625 pwm1 -> no fan responded, skipping\n\n\
         No fans detected on any pwm output. Nothing to propose.\n"
    );
    let r = CalibrationResult::Found { fan_index: 1, min_start_pwm: 80, min_stop_pwm: 45, max_pwm_rpm: 1275 };
    let some = closing_text(&vec![(candidate(), CalibrationResult::NoFanDetected), (candidate(), r)], "/etc/x.toml");
    assert!(some.contains("\n\n[[fans]]\nname = \"fan1\"\n"));
    assert!(some.contains("# label = \"Package\"\n\n# min_temp_c/max_temp_c above"));
    assert!(some.ends_with(
        "Append the block(s) above to /etc/x.toml under `[[fans]]`,\n\
         or replace its existing `[[fans]]` entries, then restart lcm-status.service.\n"
    ));
}

#[test]
fn inventory_of_all_sensors() {
    assert_eq!(sensor_inventory(&vec![]), "== Temp sensors found ==\n  (none found)\n\n");
    let chip = Chip {
        name: "nvme".to_string(),
        inputs: vec![TempInput {
            name: "temp1".to_string(),
            label: None,
            fault: None,
            value: Some(40_000),
            raw: Some(40_000),
        }],
    };
    assert_eq!(
        sensor_inventory(&vec![Chip { name: "x".to_string(), inputs: vec![] }, chip]),
        "== Temp sensors found ==\n  [connected]    nvme temp1: 40.0C\n\n"
    );
}
