//! What the daemon's main loop decides: the sleep schedule, what an effect comes
//! to, and what the command line asks for.
use crate::celsius::{push_whole_celsius, whole_celsius};
use crate::config::{Config, FanProfile, DEFAULT_CONFIG_PATH};
use crate::model::EffectView;
use crate::number::{
    decimal, is_digit, lemma_decimal_digits, parse_max, parse_u32, parsed, parsed_inverts_decimal,
    push_decimal,
};
use crate::state::{Action, Effect};
use crate::text::{
    begins_with, chars, find, holds, lemma_until, same, starts, texts, until,
};
use vstd::prelude::*;
use vstd::slice::slice_subrange;

verus! {

/// How long the main loop waits for the panel at a time, in milliseconds.
pub const WAKE_MS: i32 = 100;

/// How many seconds a day has.
pub const DAY_SECS: i128 = 86400;

/// The time of the day in seconds, at a place whose clocks are `offset` seconds
/// ahead of universal time.
pub open spec fn second_of_day(unix_secs: int, offset: int) -> int {
    (unix_secs + offset) % (DAY_SECS as int)
}

/// The local time in hours and minutes. `unix_secs` counts from the start of
/// 1970, universal time; `offset` is how many seconds local clocks are ahead.
pub fn now_hhmm(unix_secs: u64, offset: i64) -> (r: (u32, u32))
    ensures
        r.0 == second_of_day(unix_secs as int, offset as int) / 3600,
        r.1 == second_of_day(unix_secs as int, offset as int) % 3600 / 60,
        r.0 < 24,
        r.1 < 60,
{
    let t: i128 = unix_secs as i128 + offset as i128;
    // The remainder of a negative number is negative.
    let days: i128 = 0x1_0000_0000_0000_0000;
    let s: i128 = (t + days * DAY_SECS) % DAY_SECS;
    proof {
        vstd::arithmetic::div_mod::lemma_mod_multiples_vanish(
            days as int,
            t as int,
            DAY_SECS as int,
        );
    }
    ((s / 3600) as u32, (s % 3600 / 60) as u32)
}

/// The time of the day in minutes that a text with hours and minutes denotes.
pub open spec fn minutes_of(s: Seq<char>) -> Option<int> {
    let n = until(s, ':');
    if n >= s.len() {
        None
    } else {
        match (
            parsed(s.take(n as int), u32::MAX as int),
            parsed(s.skip(n as int + 1), u32::MAX as int),
        ) {
            (Some(h), Some(m)) => Some(h * 60 + m),
            _ => None,
        }
    }
}

/// Whether a time lies in a window. A window that ends before it starts goes on
/// past midnight.
pub open spec fn in_window(start: int, end: int, now: int) -> bool {
    if start <= end {
        start <= now < end
    } else {
        now >= start || now < end
    }
}

fn parse_minutes(s: &str) -> (r: Option<u64>)
    ensures
        match r {
            Some(m) => minutes_of(s@) == Some(m as int),
            None => minutes_of(s@) is None,
        },
{
    let v = chars(s);
    let n = find(v.as_slice(), ':');
    if n >= v.len() {
        return None;
    }
    let hours = slice_subrange(v.as_slice(), 0, n);
    let minutes = slice_subrange(v.as_slice(), n + 1, v.len());
    assert(hours@ =~= s@.take(n as int));
    assert(minutes@ =~= s@.skip(n + 1));
    match (parse_u32(hours), parse_u32(minutes)) {
        (Some(h), Some(m)) => Some(h as u64 * 60 + m as u64),
        _ => None,
    }
}

/// Whether the schedule wants the panel to sleep. A schedule that cannot be read
/// never does.
pub fn in_sleep_window(start: &str, end: &str, now: (u32, u32)) -> (r: bool)
    ensures
        r == match (minutes_of(start@), minutes_of(end@)) {
            (Some(s), Some(e)) => in_window(s, e, now.0 * 60 + now.1),
            _ => false,
        },
{
    let n: u64 = now.0 as u64 * 60 + now.1 as u64;
    match (parse_minutes(start), parse_minutes(end)) {
        (Some(s), Some(e)) => if s <= e {
            n >= s && n < e
        } else {
            n >= s || n < e
        },
        _ => false,
    }
}

/// A window and the window from its end to its start share the day: every time
/// lies in exactly one of the two.
pub proof fn windows_are_complementary(start: int, end: int, now: int)
    requires
        start != end,
    ensures
        in_window(start, end, now) != in_window(end, start, now),
{
}

/// How long to wait for the panel, in milliseconds.
pub fn next_wake_ms() -> (r: i32)
    ensures
        r == WAKE_MS,
{
    WAKE_MS
}

/// What is to be done to the panel or the system.
#[derive(Debug, Clone)]
pub enum PanelCommand {
    /// Show a text on a line.
    Text(u8, String),
    /// Write to the file that switches the panel's power.
    Power(&'static str),
    /// Send the sequence that the panel needs after it was switched on.
    Init,
    /// Call `systemctl`.
    Systemctl(&'static str),
    /// Tell that nothing can be ejected yet.
    EjectNotice,
}

/// What a `PanelCommand` holds.
pub enum PanelView {
    Text(u8, Seq<char>),
    Power(Seq<char>),
    Init,
    Systemctl(Seq<char>),
    EjectNotice,
}

impl View for PanelCommand {
    type V = PanelView;

    open spec fn view(&self) -> PanelView {
        match self {
            PanelCommand::Text(line, text) => PanelView::Text(*line, text@),
            PanelCommand::Power(value) => PanelView::Power(value@),
            PanelCommand::Init => PanelView::Init,
            PanelCommand::Systemctl(verb) => PanelView::Systemctl(verb@),
            PanelCommand::EjectNotice => PanelView::EjectNotice,
        }
    }
}

/// What a sequence of commands holds.
pub open spec fn commands(s: Seq<PanelCommand>) -> Seq<PanelView> {
    s.map_values(|c: PanelCommand| c@)
}

/// What an effect comes to. The panel loses its state with its power, so
/// switching it on takes the start sequence too.
pub open spec fn effect_commands(e: EffectView) -> Seq<PanelView> {
    match e {
        EffectView::Render(a, b) => seq![PanelView::Text(0, a), PanelView::Text(1, b)],
        EffectView::RunAction(Action::Shutdown) => seq![PanelView::Systemctl("poweroff"@)],
        EffectView::RunAction(Action::Restart) => seq![PanelView::Systemctl("reboot"@)],
        EffectView::RunAction(Action::Eject) => seq![PanelView::EjectNotice],
        EffectView::SetLcdPower(true) => seq![PanelView::Power("1"@), PanelView::Init],
        EffectView::SetLcdPower(false) => seq![PanelView::Power("0"@)],
        EffectView::Nothing => Seq::empty(),
    }
}

/// What an effect comes to.
pub fn apply_effect(effect: Effect) -> (r: Vec<PanelCommand>)
    ensures
        commands(r@) == effect_commands(effect@),
{
    let ghost want = effect_commands(effect@);
    let mut r: Vec<PanelCommand> = Vec::new();
    match effect {
        Effect::Render(line0, line1) => {
            r.push(PanelCommand::Text(0, line0));
            r.push(PanelCommand::Text(1, line1));
        },
        Effect::RunAction(action) => r.push(run_action(action)),
        Effect::SetLcdPower(on) => if on {
            r.push(PanelCommand::Power("1"));
            r.push(PanelCommand::Init);
        } else {
            r.push(PanelCommand::Power("0"));
        },
        Effect::Nothing => {},
    }
    assert(commands(r@) =~= want);
    r
}

fn run_action(action: Action) -> (r: PanelCommand)
    ensures
        seq![r@] == effect_commands(EffectView::RunAction(action)),
{
    match action {
        Action::Shutdown => PanelCommand::Systemctl("poweroff"),
        Action::Restart => PanelCommand::Systemctl("reboot"),
        Action::Eject => PanelCommand::EjectNotice,
    }
}

/// How many of some fans are enabled.
pub open spec fn enabled_count(fans: Seq<FanProfile>) -> nat
    decreases fans.len(),
{
    if fans.len() == 0 {
        0
    } else {
        enabled_count(fans.drop_last()) + if fans.last().enabled {
            1nat
        } else {
            0
        }
    }
}

/// What the daemon says when it starts.
pub open spec fn start_text(cfg: Config) -> Seq<char> {
    "starting: "@ + decimal(enabled_count(cfg.fans@))
        + " fan(s) configured, temperature warn/critical at "@ + whole_celsius(
        cfg.temperature.warn_threshold as int,
    ) + "C/"@ + whole_celsius(cfg.temperature.critical_threshold as int) + "C"@
}

/// What the daemon says when it starts.
pub fn start_message(cfg: &Config) -> (r: String)
    ensures
        r@ == start_text(*cfg),
{
    let mut n: usize = 0;
    assert(cfg.fans@.take(0) =~= Seq::empty());
    for i in 0..cfg.fans.len()
        invariant
            n == enabled_count(cfg.fans@.take(i as int)),
            n <= i,
    {
        assert(cfg.fans@.take(i + 1).drop_last() =~= cfg.fans@.take(i as int));
        assert(cfg.fans@.take(i + 1).last() == cfg.fans@[i as int]);
        if cfg.fans[i].enabled {
            n = n + 1;
        }
    }
    assert(cfg.fans@.take(cfg.fans@.len() as int) =~= cfg.fans@);
    let mut r = "starting: ".to_owned();
    push_decimal(&mut r, n as u64);
    r.append(" fan(s) configured, temperature warn/critical at ");
    push_whole_celsius(&mut r, cfg.temperature.warn_threshold);
    r.append("C/");
    push_whole_celsius(&mut r, cfg.temperature.critical_threshold);
    r.append("C");
    r
}

/// What the command line asks for.
#[derive(Debug, Clone)]
pub enum Invocation {
    /// Print the settings of a configuration file.
    CheckConfig(String),
    /// Print what the screens would show.
    HalTest,
    /// Send the panel's start sequence.
    Init,
    /// Show a text on a line of the panel.
    SetText(u8, String),
    /// Print what the panel sends, for some seconds.
    Listen(u64),
    /// Calibrate the fan outputs, without a question where `yes` is set.
    FanProfile { config: String, yes: bool },
    /// Print the report of the daemon that runs.
    Status(String),
    /// Run the daemon.
    Daemon(String),
}

/// What an `Invocation` holds.
pub enum InvocationView {
    CheckConfig(Seq<char>),
    HalTest,
    Init,
    SetText(u8, Seq<char>),
    Listen(u64),
    FanProfile { config: Seq<char>, yes: bool },
    Status(Seq<char>),
    Daemon(Seq<char>),
}

impl View for Invocation {
    type V = InvocationView;

    open spec fn view(&self) -> InvocationView {
        match self {
            Invocation::CheckConfig(path) => InvocationView::CheckConfig(path@),
            Invocation::HalTest => InvocationView::HalTest,
            Invocation::Init => InvocationView::Init,
            Invocation::SetText(line, text) => InvocationView::SetText(*line, text@),
            Invocation::Listen(secs) => InvocationView::Listen(*secs),
            Invocation::FanProfile { config, yes } => InvocationView::FanProfile {
                config: config@,
                yes: *yes,
            },
            Invocation::Status(path) => InvocationView::Status(path@),
            Invocation::Daemon(path) => InvocationView::Daemon(path@),
        }
    }
}

/// An argument, or another text where there are fewer.
pub open spec fn arg_or(args: Seq<Seq<char>>, i: int, other: Seq<char>) -> Seq<char> {
    if i < args.len() {
        args[i]
    } else {
        other
    }
}

/// The first of some arguments that is no flag, or the default path.
pub open spec fn first_path(args: Seq<Seq<char>>) -> Seq<char>
    decreases args.len(),
{
    if args.len() == 0 {
        DEFAULT_CONFIG_PATH@
    } else if !begins_with(args[0], "-"@) {
        args[0]
    } else {
        first_path(args.drop_first())
    }
}

/// The number that an argument denotes, or another where it denotes none.
pub open spec fn number_or(args: Seq<Seq<char>>, i: int, max: int, other: int) -> int {
    if i < args.len() {
        match parsed(args[i], max) {
            Some(n) => n,
            None => other,
        }
    } else {
        other
    }
}

/// What a command line asks for. The first argument is the program itself.
pub open spec fn invocation_of(args: Seq<Seq<char>>) -> InvocationView {
    let cmd = arg_or(args, 1, Seq::empty());
    if cmd == "check-config"@ {
        InvocationView::CheckConfig(arg_or(args, 2, DEFAULT_CONFIG_PATH@))
    } else if cmd == "hal-test"@ {
        InvocationView::HalTest
    } else if cmd == "init"@ {
        InvocationView::Init
    } else if cmd == "settext"@ {
        InvocationView::SetText(
            number_or(args, 2, u8::MAX as int, 0) as u8,
            arg_or(args, 3, Seq::empty()),
        )
    } else if cmd == "listen"@ {
        InvocationView::Listen(number_or(args, 2, u64::MAX as int, 300) as u64)
    } else if cmd == "fan-profile"@ {
        InvocationView::FanProfile {
            config: first_path(args.skip(2)),
            yes: args.contains("--yes"@) || args.contains("-y"@),
        }
    } else if cmd == "status"@ {
        InvocationView::Status(arg_or(args, 2, DEFAULT_CONFIG_PATH@))
    } else if args.len() < 2 || cmd == "daemon"@ {
        InvocationView::Daemon(DEFAULT_CONFIG_PATH@)
    } else {
        InvocationView::Daemon(cmd)
    }
}

fn argument(args: &Vec<String>, i: usize, other: &str) -> (r: String)
    ensures
        r@ == arg_or(texts(args@), i as int, other@),
{
    if i < args.len() {
        args[i].clone()
    } else {
        other.to_owned()
    }
}

fn find_path(args: &Vec<String>) -> (r: String)
    requires
        args@.len() >= 2,
    ensures
        r@ == first_path(texts(args@).skip(2)),
{
    let ghost all = texts(args@);
    for i in 2..args.len()
        invariant
            all == texts(args@),
            first_path(all.skip(2)) == first_path(all.skip(i as int)),
    {
        assert(all.skip(i as int)[0] == args@[i as int]@);
        assert(all.skip(i as int).drop_first() =~= all.skip(i + 1));
        let v = chars(args[i].as_str());
        if !starts(v.as_slice(), "-") {
            return args[i].clone();
        }
    }
    assert(all.skip(args@.len() as int) =~= Seq::empty());
    DEFAULT_CONFIG_PATH.to_owned()
}

fn number_argument(args: &Vec<String>, i: usize, max: u64, other: u64) -> (r: u64)
    requires
        other <= max,
    ensures
        r == number_or(texts(args@), i as int, max as int, other as int),
        r <= max,
{
    if i < args.len() {
        let v = chars(args[i].as_str());
        assert(texts(args@)[i as int] == v@);
        match parse_max(v.as_slice(), max) {
            Some(n) => n,
            None => other,
        }
    } else {
        other
    }
}

/// Reads the command line. The first argument is the program itself.
pub fn parse_args(args: &Vec<String>) -> (r: Invocation)
    ensures
        r@ == invocation_of(texts(args@)),
{
    let none = String::new();
    assert(none@ =~= Seq::empty());
    let cmd = argument(args, 1, none.as_str());
    if same(cmd.as_str(), "check-config") {
        Invocation::CheckConfig(argument(args, 2, DEFAULT_CONFIG_PATH))
    } else if same(cmd.as_str(), "hal-test") {
        Invocation::HalTest
    } else if same(cmd.as_str(), "init") {
        Invocation::Init
    } else if same(cmd.as_str(), "settext") {
        Invocation::SetText(
            number_argument(args, 2, u8::MAX as u64, 0) as u8,
            argument(args, 3, none.as_str()),
        )
    } else if same(cmd.as_str(), "listen") {
        Invocation::Listen(number_argument(args, 2, u64::MAX, 300))
    } else if same(cmd.as_str(), "fan-profile") {
        proof {
            reveal_strlit("fan-profile");
            assert(cmd@.len() > 0);
        }
        Invocation::FanProfile {
            config: find_path(args),
            yes: holds(args, "--yes") || holds(args, "-y"),
        }
    } else if same(cmd.as_str(), "status") {
        Invocation::Status(argument(args, 2, DEFAULT_CONFIG_PATH))
    } else if args.len() < 2 || same(cmd.as_str(), "daemon") {
        Invocation::Daemon(DEFAULT_CONFIG_PATH.to_owned())
    } else {
        Invocation::Daemon(cmd)
    }
}

/// A time of the day lies in a window exactly where it comes sooner after the start
/// than the end does, going round the clock.
pub proof fn window_goes_round_the_clock(start: int, end: int, now: int)
    requires
        0 <= start < 1440,
        0 <= end < 1440,
        0 <= now < 1440,
    ensures
        in_window(start, end, now) <==> (now - start) % 1440 < (end - start) % 1440,
{
}

/// The second of the day is within the day, and whole days away from the time.
pub proof fn second_is_of_the_day(unix_secs: int, offset: int)
    ensures
        0 <= second_of_day(unix_secs, offset) < 86400,
        (unix_secs + offset - second_of_day(unix_secs, offset)) % 86400 == 0,
{
}

proof fn lemma_until_after_digits(a: Seq<char>, b: Seq<char>, c: char)
    requires
        forall|i: int| 0 <= i < a.len() ==> #[trigger] a[i] != c,
    ensures
        until(a + seq![c] + b, c) == a.len(),
{
    let s = a + seq![c] + b;
    lemma_until(s, c);
    let n = until(s, c) as int;
    assert(s[a.len() as int] == c);
    if n < a.len() {
        assert(s[n] == a[n]);
    }
}

/// Hours and minutes with a colon between them denote the minutes since midnight.
pub proof fn clock_time_is_understood(h: u32, m: u32)
    ensures
        minutes_of(decimal(h as nat) + seq![':'] + decimal(m as nat)) == Some(h * 60 + m),
{
    let a = decimal(h as nat);
    let b = decimal(m as nat);
    let s = a + seq![':'] + b;
    lemma_decimal_digits(h as nat);
    parsed_inverts_decimal(h as nat, u32::MAX as int);
    parsed_inverts_decimal(m as nat, u32::MAX as int);
    assert forall|i: int| 0 <= i < a.len() implies #[trigger] a[i] != ':' by {
        assert(is_digit(a[i]));
    }
    lemma_until_after_digits(a, b, ':');
    assert(s.take(a.len() as int) =~= a);
    assert(s.skip(a.len() as int + 1) =~= b);
}

/// What an effect comes to on the panel and in the system.
pub proof fn effects_are_carried_out(a: Seq<char>, b: Seq<char>)
    ensures
        effect_commands(EffectView::Render(a, b)) == seq![
            PanelView::Text(0, a),
            PanelView::Text(1, b),
        ],
        effect_commands(EffectView::RunAction(Action::Shutdown)) == seq![
            PanelView::Systemctl("poweroff"@),
        ],
        effect_commands(EffectView::RunAction(Action::Restart)) == seq![
            PanelView::Systemctl("reboot"@),
        ],
        effect_commands(EffectView::RunAction(Action::Eject)) == seq![PanelView::EjectNotice],
        effect_commands(EffectView::SetLcdPower(true)) == seq![
            PanelView::Power("1"@),
            PanelView::Init,
        ],
        effect_commands(EffectView::SetLcdPower(false)) == seq![PanelView::Power("0"@)],
        effect_commands(EffectView::Nothing).len() == 0,
{
}

proof fn lemma_command_names()
    ensures
        "check-config"@.len() == 12,
        "hal-test"@.len() == 8,
        "init"@.len() == 4,
        "settext"@.len() == 7,
        "fan-profile"@.len() == 11,
        "listen"@.len() == 6,
        "status"@.len() == 6,
        "daemon"@.len() == 6,
        "listen"@ != "status"@,
        "listen"@ != "daemon"@,
        "status"@ != "daemon"@,
{
    reveal_strlit("check-config");
    reveal_strlit("status");
    reveal_strlit("hal-test");
    reveal_strlit("init");
    reveal_strlit("daemon");
    reveal_strlit("fan-profile");
    reveal_strlit("settext");
    reveal_strlit("listen");
    assert("status"@[0] == 's' && "daemon"@[0] == 'd' && "listen"@[0] == 'l');
}

/// What the command line asks for: a command by its name, with the arguments after it;
/// the daemon where there is none, and the daemon with other settings where the
/// argument is no command.
pub proof fn commands_by_name(args: Seq<Seq<char>>)
    requires
        args.len() >= 2,
    ensures
        ({
            let r = invocation_of(args);
            let path = if args.len() > 2 {
                args[2]
            } else {
                "/etc/lcm-status.toml"@
            };
            &&& args[1] == "check-config"@ ==> r == InvocationView::CheckConfig(path)
            &&& args[1] == "status"@ ==> r == InvocationView::Status(path)
            &&& args[1] == "hal-test"@ ==> r == InvocationView::HalTest
            &&& args[1] == "init"@ ==> r == InvocationView::Init
            &&& args[1] == "daemon"@ ==> r == InvocationView::Daemon("/etc/lcm-status.toml"@)
            &&& args[1] == "fan-profile"@ ==> r is FanProfile && (r->yes <==> args.contains(
                "--yes"@,
            ) || args.contains("-y"@))
            &&& args[1] == "settext"@ && args.len() > 3 ==> r is SetText && r->SetText_1 == args[3]
            &&& args[1] == "listen"@ && args.len() == 2 ==> r == InvocationView::Listen(300)
            &&& args[1] != "check-config"@ && args[1] != "status"@ && args[1] != "hal-test"@
                && args[1] != "init"@ && args[1] != "daemon"@ && args[1] != "fan-profile"@
                && args[1] != "settext"@ && args[1] != "listen"@ ==> r == InvocationView::Daemon(
                args[1],
            )
        }),
{
    lemma_command_names();
}

/// A number in the command line is the one that its digits denote.
pub proof fn numbers_in_the_command_line(program: Seq<char>, line: u8, text: Seq<char>, secs: u64)
    ensures
        invocation_of(seq![program, "settext"@, decimal(line as nat), text])
            == InvocationView::SetText(line, text),
        invocation_of(seq![program, "listen"@, decimal(secs as nat)]) == InvocationView::Listen(
            secs,
        ),
{
    lemma_command_names();
    parsed_inverts_decimal(line as nat, u8::MAX as int);
    parsed_inverts_decimal(secs as nat, u64::MAX as int);
}

/// The settings of `fan-profile` are the first argument after it that is no flag.
pub proof fn first_path_is_no_flag(args: Seq<Seq<char>>, i: int)
    requires
        0 <= i < args.len(),
        !begins_with(args[i], "-"@),
        forall|j: int| 0 <= j < i ==> begins_with(#[trigger] args[j], "-"@),
    ensures
        first_path(args) == args[i],
    decreases i,
{
    if i > 0 {
        assert(begins_with(args[0], "-"@));
        let rest = args.drop_first();
        assert forall|j: int| 0 <= j < i - 1 implies begins_with(#[trigger] rest[j], "-"@) by {
            assert(rest[j] == args[j + 1]);
        }
        first_path_is_no_flag(rest, i - 1);
    }
}

/// The fans that are enabled are counted, each once.
pub proof fn enabled_fans_are_counted(fans: Seq<FanProfile>)
    ensures
        enabled_count(fans) == fans.filter(|f: FanProfile| f.enabled).len(),
    decreases fans.len(),
{
    reveal(Seq::filter);
    if fans.len() > 0 {
        enabled_fans_are_counted(fans.drop_last());
    }
}

} // verus!
