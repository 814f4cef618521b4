use lcm_status::led::{
    driver_present, enter_night_mode, exit_night_mode, ledtrig_timer_loaded, link_is_down,
    pattern_for_level, set_bay, set_nic_mode, set_status, BayState, LedWrite, NicLedMode, StatusPattern,
};
use lcm_status::socket::Level;

fn show(w: &[LedWrite]) -> Vec<String> {
    w.iter().map(|x| format!("{}/{}={}", x.led, x.attr, x.value)).collect()
}

#[test]
fn status_patterns_write_both_leds() {
    assert_eq!(
        show(&set_status(StatusPattern::Healthy)),
        [
            "green:status/trigger=none",
            "green:status/brightness=1",
            "red:status/trigger=none",
            "red:status/trigger=none",
            "red:status/brightness=0",
        ]
    );
    assert_eq!(
        show(&set_status(StatusPattern::Warning)),
        [
            "green:status/trigger=none",
            "green:status/brightness=1",
            "red:status/trigger=none",
            "red:status/brightness=1",
        ]
    );
    assert_eq!(
        show(&set_status(StatusPattern::Degraded))[2..],
        ["red:status/trigger=timer", "red:status/delay_on=500", "red:status/delay_off=500"]
    );
    assert_eq!(
        show(&set_status(StatusPattern::Failed)),
        [
            "green:status/trigger=none",
            "green:status/brightness=0",
            "red:status/trigger=none",
            "red:status/brightness=1",
        ]
    );
    assert_eq!(
        show(&set_status(StatusPattern::CriticalFlashing)),
        [
            "green:status/trigger=none",
            "green:status/brightness=0",
            "red:status/trigger=timer",
            "red:status/delay_on=1000",
            "red:status/delay_off=1000",
        ]
    );
}

#[test]
fn bay_states_write_both_leds() {
    assert_eq!(
        show(&set_bay(2, BayState::Normal)),
        ["sata2:green:disk/trigger=asustor-sata2", "sata2:red:disk/trigger=none", "sata2:red:disk/brightness=0"]
    );
    assert!(show(&set_bay(3, BayState::Failed)).contains(&"sata3:red:disk/brightness=1".to_string()));
    assert!(show(&set_bay(3, BayState::Alert)).contains(&"sata3:red:disk/delay_on=1000".to_string()));
    let standby = show(&set_bay(4, BayState::Standby));
    assert!(standby.contains(&"sata4:green:disk/delay_on=250".to_string()));
    assert!(standby.contains(&"sata4:green:disk/delay_off=9750".to_string()));
}

#[test]
fn night_spares_red_bays_on_an_example() {
    let nics = vec!["eth0".to_string()];
    let night = enter_night_mode(&nics);
    assert!(night.iter().all(|w| !w.led.ends_with(":red:disk")));
    let day = exit_night_mode(&nics);
    for w in &night {
        assert!(day.iter().any(|d| d.led == w.led), "{}", w.led);
    }
    assert!(show(&night).contains(&"eth0-0::lan/link_2500=0".to_string()));
    assert!(show(&day).contains(&"green:usb/trigger=asustor-front-usb".to_string()));
}

/// The value that an attribute of an LED is left with.
fn last<'a>(writes: &'a [LedWrite], led: &str, attr: &str) -> Option<&'a str> {
    writes.iter().rev().find(|w| w.led == led && w.attr == attr).map(|w| w.value.as_str())
}

#[test]
fn day_brings_back_the_night_on_an_example() {
    let nics = vec!["eth0".to_string(), "eth1".to_string()];
    let day = exit_night_mode(&nics);
    assert_eq!(last(&day, "red:status", "trigger"), Some("panic"));
    assert_eq!(last(&day, "red:status", "brightness"), Some("0"));
    assert_eq!(last(&day, "green:status", "trigger"), Some("none"));
    assert_eq!(last(&day, "green:status", "brightness"), Some("1"));
    for bay in 1..=4 {
        let led = format!("sata{}:green:disk", bay);
        let trigger = format!("asustor-sata{}", bay);
        assert_eq!(last(&day, &led, "trigger"), Some(trigger.as_str()));
    }
    assert_eq!(last(&day, "green:usb", "trigger"), Some("asustor-front-usb"));
    for nic in &nics {
        assert_eq!(last(&day, &format!("{}-0::lan", nic), "link_2500"), Some("1"));
        for attr in ["link_10", "link_100", "link_1000"] {
            assert_eq!(last(&day, &format!("{}-1::lan", nic), attr), Some("1"));
        }
    }
}

#[test]
fn nic_modes_switch_link_and_traffic() {
    assert_eq!(
        show(&set_nic_mode("eth1", NicLedMode::Activity)),
        [
            "eth1-0::lan/trigger=netdev",
            "eth1-0::lan/link_2500=0",
            "eth1-0::lan/rx=1",
            "eth1-0::lan/tx=1",
            "eth1-1::lan/trigger=netdev",
            "eth1-1::lan/link_10=0",
            "eth1-1::lan/link_100=0",
            "eth1-1::lan/link_1000=0",
        ]
    );
    assert_eq!(show(&set_nic_mode("eth1", NicLedMode::Link))[1], "eth1-0::lan/link_2500=1");
}

#[test]
fn only_urgent_levels_have_a_pattern() {
    assert_eq!(pattern_for_level(Level::Critical), Some(StatusPattern::CriticalFlashing));
    assert_eq!(pattern_for_level(Level::Error), Some(StatusPattern::Failed));
    assert_eq!(pattern_for_level(Level::Warn), None);
    assert_eq!(pattern_for_level(Level::Info), None);
}

#[test]
fn carrier_tells_of_the_link() {
    assert!(link_is_down(Some("0\n")));
    assert!(!link_is_down(Some("1\n")));
    assert!(!link_is_down(None));
}

#[test]
fn driver_and_trigger_detection() {
    let s = |v: &[&str]| v.iter().map(|x| x.to_string()).collect::<Vec<_>>();
    assert!(driver_present(&s(&["power:lcd", "green:status", "sata1:red:disk", "x"])));
    assert!(!driver_present(&s(&["power:lcd", "green:status"])));
    assert!(ledtrig_timer_loaded(&s(&["trigger", "delay_on"])));
    assert!(!ledtrig_timer_loaded(&s(&["trigger"])));
}
