use lcm_status::config::Config;
use lcm_status::daemon::{
    apply_effect, in_sleep_window, next_wake_ms, now_hhmm, parse_args, start_message, Invocation, PanelCommand,
};
use lcm_status::state::{Action, Effect};

fn args(v: &[&str]) -> Vec<String> {
    v.iter().map(|x| x.to_string()).collect()
}

#[test]
fn local_time_of_day() {
    assert_eq!(now_hhmm(0, 0), (0, 0));
    assert_eq!(now_hhmm(86_400 + 3_661, 0), (1, 1));
    assert_eq!(now_hhmm(0, -3_600), (23, 0));
    assert_eq!(now_hhmm(23 * 3_600, 7_200), (1, 0));
}

#[test]
fn sleep_windows() {
    assert!(in_sleep_window("23:00", "07:00", (23, 0)));
    assert!(in_sleep_window("23:00", "07:00", (6, 59)));
    assert!(!in_sleep_window("23:00", "07:00", (7, 0)));
    assert!(in_sleep_window("01:00", "02:30", (2, 29)));
    assert!(!in_sleep_window("01:00", "02:30", (2, 30)));
    assert!(!in_sleep_window("01:00", "01:00", (1, 0)));
    assert!(!in_sleep_window("1", "07:00", (3, 0)));
    assert!(!in_sleep_window("23:00", "07:00:00", (3, 0)));
    assert!(!in_sleep_window("23:00", "x:00", (3, 0)));
    assert!(in_sleep_window("4294967295:0", "07:00", (3, 0)));
}

#[test]
fn window_and_its_opposite_share_the_day() {
    for h in 0..24 {
        for m in 0..60 {
            assert_ne!(in_sleep_window("23:00", "07:00", (h, m)), in_sleep_window("07:00", "23:00", (h, m)));
        }
    }
}

#[test]
fn effects_come_to_commands() {
    let r = apply_effect(Effect::Render("a".to_string(), "b".to_string()));
    assert!(matches!(&r[..], [PanelCommand::Text(0, a), PanelCommand::Text(1, b)] if a == "a" && b == "b"));
    let r = apply_effect(Effect::SetLcdPower(true));
    assert!(matches!(r[..], [PanelCommand::Power("1"), PanelCommand::Init]));
    let r = apply_effect(Effect::SetLcdPower(false));
    assert!(matches!(r[..], [PanelCommand::Power("0")]));
    let r = apply_effect(Effect::RunAction(Action::Shutdown));
    assert!(matches!(r[..], [PanelCommand::Systemctl("poweroff")]));
    let r = apply_effect(Effect::RunAction(Action::Restart));
    assert!(matches!(r[..], [PanelCommand::Systemctl("reboot")]));
    let r = apply_effect(Effect::RunAction(Action::Eject));
    assert!(matches!(r[..], [PanelCommand::EjectNotice]));
    assert!(apply_effect(Effect::Nothing).is_empty());
    assert_eq!(next_wake_ms(), 100);
}

#[test]
fn start_message_counts_enabled_fans() {
    let mut c = Config::default();
    assert_eq!(start_message(&c), "starting: 1 fan(s) configured, temperature warn/critical at 75C/85C");
    c.fans[0].enabled = false;
    assert_eq!(start_message(&c), "starting: 0 fan(s) configured, temperature warn/critical at 75C/85C");
}

#[test]
fn command_lines() {
    let p = |v: &[&str]| parse_args(&args(v));
    assert!(matches!(p(&[]), Invocation::Daemon(x) if x == "/etc/lcm-status.toml"));
    assert!(matches!(p(&["l"]), Invocation::Daemon(x) if x == "/etc/lcm-status.toml"));
    assert!(matches!(p(&["l", "daemon"]), Invocation::Daemon(x) if x == "/etc/lcm-status.toml"));
    assert!(matches!(p(&["l", "/x"]), Invocation::Daemon(x) if x == "/x"));
    assert!(matches!(p(&["l", "check-config", "/y"]), Invocation::CheckConfig(x) if x == "/y"));
    assert!(matches!(p(&["l", "status"]), Invocation::Status(x) if x == "/etc/lcm-status.toml"));
    assert!(matches!(p(&["l", "hal-test"]), Invocation::HalTest));
    assert!(matches!(p(&["l", "init"]), Invocation::Init));
    assert!(matches!(p(&["l", "settext", "1", "HI"]), Invocation::SetText(1, x) if x == "HI"));
    assert!(matches!(p(&["l", "settext", "300"]), Invocation::SetText(0, x) if x.is_empty()));
    assert!(matches!(p(&["l", "listen"]), Invocation::Listen(300)));
    assert!(matches!(p(&["l", "listen", "60"]), Invocation::Listen(60)));
    assert!(matches!(
        p(&["l", "fan-profile", "--yes", "/z"]),
        Invocation::FanProfile { config, yes: true } if config == "/z"
    ));
    assert!(matches!(
        p(&["l", "fan-profile"]),
        Invocation::FanProfile { config, yes: false } if config == "/etc/lcm-status.toml"
    ));
}
