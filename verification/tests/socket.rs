use lcm_status::socket::{parse_message, parse_request, Level, SocketCommand};

fn lines(s: &str) -> Vec<String> {
    s.lines().map(String::from).collect()
}

#[test]
fn parses_show_critical() {
    let cmd = parse_message(&lines("SHOW critical 0\nDISK FAILURE\nCheck bay 3")).unwrap();
    match cmd {
        SocketCommand::Show { level, ttl_secs, bay, line0, line1 } => {
            assert_eq!(level, Level::Critical);
            assert_eq!(ttl_secs, 0);
            assert_eq!(bay, None);
            assert_eq!(line0, "DISK FAILURE");
            assert_eq!(line1, "Check bay 3");
        }
        _ => panic!("expected Show"),
    }
}

#[test]
fn parses_show_with_bay() {
    let cmd = parse_message(&lines("SHOW error 0 bay=2\nDISK DEAD\nBay 2 offline")).unwrap();
    match cmd {
        SocketCommand::Show { level, bay, .. } => {
            assert_eq!(level, Level::Error);
            assert_eq!(bay, Some(2));
        }
        _ => panic!("expected Show"),
    }
}

#[test]
fn parses_clear_with_bay() {
    let cmd = parse_message(&lines("CLEAR bay=2")).unwrap();
    match cmd {
        SocketCommand::Clear { bay } => assert_eq!(bay, Some(2)),
        _ => panic!("expected Clear"),
    }
}

#[test]
fn error_and_critical_are_always_visible() {
    assert!(Level::Error.always_visible());
    assert!(Level::Critical.always_visible());
    assert!(!Level::Warn.always_visible());
    assert!(!Level::Info.always_visible());
}

#[test]
fn parses_bare_text_shorthand() {
    let cmd = parse_message(&lines("hello there\nsecond line")).unwrap();
    match cmd {
        SocketCommand::Show { level, ttl_secs, bay, line0, line1 } => {
            assert_eq!(level, Level::Info);
            assert_eq!(ttl_secs, 5);
            assert_eq!(bay, None);
            assert_eq!(line0, "hello there");
            assert_eq!(line1, "second line");
        }
        _ => panic!("expected Show"),
    }
}

#[test]
fn parses_clear() {
    assert!(matches!(
        parse_message(&lines("CLEAR")),
        Some(SocketCommand::Clear { bay: None })
    ));
}

#[test]
fn bare_single_line_leaves_line1_blank() {
    let cmd = parse_message(&lines("just one line")).unwrap();
    match cmd {
        SocketCommand::Show { line1, .. } => assert_eq!(line1, ""),
        _ => panic!("expected Show"),
    }
}

#[test]
fn levels_parse_in_any_case() {
    assert_eq!(Level::parse("WARNING"), Level::Warn);
    assert_eq!(Level::parse("warn"), Level::Warn);
    assert_eq!(Level::parse("Error"), Level::Error);
    assert_eq!(Level::parse("CRITICAL"), Level::Critical);
    assert_eq!(Level::parse("nonsense"), Level::Info);
    assert!(Level::Info < Level::Warn && Level::Warn < Level::Error && Level::Error < Level::Critical);
}

#[test]
fn broken_headers_are_dropped() {
    assert!(parse_message(&lines("SHOW error")).is_none());
    assert!(parse_message(&lines("SHOW error soon")).is_none());
    assert!(parse_message(&lines("   ")).is_none());
    assert!(parse_message(&[]).is_none());
}

#[test]
fn headers_in_any_case_with_the_first_bay() {
    match parse_message(&lines("  show WARN 7 x bay=z bay=4 bay=5")).unwrap() {
        SocketCommand::Show { level, ttl_secs, bay, line0, line1 } => {
            assert_eq!((level, ttl_secs, bay), (Level::Warn, 7, Some(4)));
            assert_eq!((line0.as_str(), line1.as_str()), ("", ""));
        }
        _ => panic!("expected Show"),
    }
}

#[test]
fn status_requests() {
    assert!(matches!(parse_request(&lines(" status ")), Some(SocketCommand::StatusRequest)));
    assert!(matches!(parse_request(&lines("STATUS now")), Some(SocketCommand::Show { .. })));
    assert!(parse_request(&[]).is_none());
}
