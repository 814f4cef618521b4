use lcm_status::celsius::{push_whole_celsius, push_whole_fahrenheit, to_tenths_celsius};

fn whole_c(t: i32) -> String {
    let mut s = String::new();
    push_whole_celsius(&mut s, t);
    s
}

fn whole_f(t: i32) -> String {
    let mut s = String::new();
    push_whole_fahrenheit(&mut s, t);
    s
}

#[test]
fn tenths_agree_with_single_precision() {
    for t in -20_000..=125_000 {
        assert_eq!(to_tenths_celsius(t), format!("{:.1}", t as f32 / 1000.0), "{t}");
    }
}

#[test]
fn whole_degrees_agree_with_single_precision() {
    for t in -20_000..=125_000 {
        assert_eq!(whole_c(t), format!("{:.0}", t as f32 / 1000.0), "{t}");
    }
}

#[test]
fn whole_fahrenheit_agrees_with_single_precision() {
    for t in -20_000..=125_000 {
        assert_eq!(whole_f(t), format!("{:.0}", t as f32 / 1000.0 * 9.0 / 5.0 + 32.0), "{t}");
    }
}

#[test]
fn temperatures_have_exact_texts() {
    assert_eq!(whole_c(45_499), "45");
    assert_eq!(whole_c(45_500), "46");
    assert_eq!(whole_c(44_500), "44");
    assert_eq!(whole_c(-1_000), "-1");
    assert_eq!(whole_f(100_000), "212");
    assert_eq!(to_tenths_celsius(75_000), "75.0");
    assert_eq!(to_tenths_celsius(-5_250), format!("{:.1}", -5.25f32));
}
