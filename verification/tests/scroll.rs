use lcm_status::config::DisplayConfig;
use lcm_status::scroll::{truncate, Scroll};

const MS: u64 = 1_000_000;

#[test]
fn short_lines_stand_still() {
    let cfg = DisplayConfig::default();
    let mut s = Scroll::new();
    for i in 0..100 {
        assert_eq!(s.step("0123456789abcdef".to_string(), &cfg, i * 1000 * MS), "0123456789abcdef");
    }
    assert!(!s.is_pending());
}

#[test]
fn long_lines_pause_scroll_and_start_over() {
    let cfg = DisplayConfig::default();
    let text = "0123456789abcdefX";
    let mut s = Scroll::new();
    let mut now = 0;
    assert_eq!(s.step(text.to_string(), &cfg, now), "0123456789abcdef");
    assert!(s.is_pending());
    now += 799 * MS;
    assert_eq!(s.step(text.to_string(), &cfg, now), "0123456789abcdef");
    now += MS;
    assert_eq!(s.step(text.to_string(), &cfg, now), "123456789abcdefX");
    let mut shown = String::new();
    for _ in 0..20 {
        now += 300 * MS;
        shown = s.step(text.to_string(), &cfg, now);
        assert_eq!(shown.chars().count(), 16);
    }
    assert!(s.is_pending());
    assert_eq!(shown, "0123456789abcdef");
    now += 300 * MS;
    assert_eq!(s.step(text.to_string(), &cfg, now), "0123456789abcdef");
    assert!(!s.is_pending());
    now += 799 * MS;
    assert_eq!(s.step(text.to_string(), &cfg, now), "0123456789abcdef");
}

#[test]
fn gap_between_end_and_start() {
    let cfg = DisplayConfig { scroll_pause_ms: 0, ..DisplayConfig::default() };
    let text = "0123456789abcdefX";
    let mut s = Scroll::new();
    let mut now = 0;
    s.step(text.to_string(), &cfg, now);
    let mut shown = String::new();
    for _ in 0..10 {
        now += 300 * MS;
        shown = s.step(text.to_string(), &cfg, now);
    }
    assert_eq!(shown, "abcdefX    01234");
}

#[test]
fn every_character_comes_to_stand_first() {
    let cfg = DisplayConfig { scroll_pause_ms: 0, ..DisplayConfig::default() };
    let text: String = ('a'..='z').collect();
    let mut s = Scroll::new();
    let mut firsts = vec![s.step(text.clone(), &cfg, 0).chars().next().unwrap()];
    for i in 1..26 {
        firsts.push(s.step(text.clone(), &cfg, i * 300 * MS).chars().next().unwrap());
    }
    assert_eq!(firsts.iter().collect::<String>(), text);
}

#[test]
fn truncation_counts_characters() {
    assert_eq!(truncate("äöüß", 2), "äö");
    assert_eq!(truncate("ab", 5), "ab");
    assert_eq!(truncate("ab", 0), "");
}
