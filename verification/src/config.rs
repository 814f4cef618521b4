//! The daemon's settings, each with a default, so that it runs with no
//! configuration file at all. Temperatures are in millidegrees Celsius.
use crate::celsius::MilliC;
use crate::led::NicLedMode;
use crate::socket::Level;
use crate::text::same;
use vstd::prelude::*;

verus! {

pub const DEFAULT_CONFIG_PATH: &'static str = "/etc/lcm-status.toml";

/// All settings.
#[derive(Debug, Clone)]
pub struct Config {
    pub display: DisplayConfig,
    pub rotation: RotationConfig,
    pub menu: MenuConfig,
    pub sleep: SleepConfig,
    pub socket: SocketConfig,
    pub screens: ScreensConfig,
    pub refresh: RefreshConfig,
    pub temperature: TemperatureConfig,
    pub docker: DockerConfig,
    pub led: LedConfig,
    pub network: NetworkConfig,
    /// One entry for each fan to control.
    pub fans: Vec<FanProfile>,
}

/// What reading the configuration file came to.
#[derive(Debug, Clone)]
pub enum ConfigFile {
    /// The file could not be read.
    Unreadable,
    /// The file was read, but its content is no configuration.
    Invalid,
    /// The file's settings.
    Parsed(Config),
}

/// Settings of the network's part in the status LED.
#[derive(Debug, Clone)]
pub struct NetworkConfig {
    /// Whether the state of the links counts for the status LED.
    pub enabled: bool,
    /// The interfaces whose links count; none for all that have an address.
    pub monitored_nics: Vec<String>,
    /// The severity while some of them, not all, are down.
    pub some_down_level: NetworkLevel,
    /// The severity while all of them are down.
    pub all_down_level: NetworkLevel,
}

/// The severities that a lost link can have.
#[derive(Debug, Clone, Copy, PartialEq, Eq, Structural)]
pub enum NetworkLevel {
    Warning,
    Error,
}

/// Settings of the display.
#[derive(Debug, Clone)]
pub struct DisplayConfig {
    /// The serial device of the panel.
    pub serial_device: String,
    /// Milliseconds for each step of a scrolling line.
    pub scroll_step_ms: u64,
    /// How many characters of a scrolling line are kept.
    pub scroll_max_chars: usize,
    /// Milliseconds before a scrolling line starts to move, and again each time
    /// it starts over.
    pub scroll_pause_ms: u64,
}

/// Settings of the rotation of the screens.
#[derive(Debug, Clone)]
pub struct RotationConfig {
    /// How long a screen is shown.
    pub dwell_secs: u64,
    /// How long after a manual page the rotation goes on.
    pub resume_after_secs: u64,
}

/// Settings of the action menu.
#[derive(Debug, Clone)]
pub struct MenuConfig {
    /// How long a confirm screen waits.
    pub confirm_timeout_secs: u64,
}

/// Settings of the nightly sleep.
#[derive(Debug, Clone)]
pub struct SleepConfig {
    pub enabled: bool,
    /// Local time, as hours and minutes with a colon between.
    pub start: String,
    pub end: String,
    /// The file that switches the panel's power.
    pub lcd_power_path: String,
}

/// Settings of the front LEDs.
#[derive(Debug, Clone)]
pub struct LedConfig {
    pub nic_mode: NicLedMode,
}

/// Settings of the control socket.
#[derive(Debug, Clone)]
pub struct SocketConfig {
    pub path: String,
    /// The group that may connect.
    pub group: String,
}

/// Which screens are shown.
#[derive(Debug, Clone)]
pub struct ScreensConfig {
    pub network: bool,
    pub pools: bool,
    pub hdd: bool,
    pub temperature: bool,
    pub docker: bool,
}

/// The least number of seconds between two refreshes of each category.
#[derive(Debug, Clone)]
pub struct RefreshConfig {
    pub network_min_secs: u64,
    pub pools_min_secs: u64,
    pub hdd_min_secs: u64,
    pub temperature_min_secs: u64,
    pub docker_min_secs: u64,
}

/// Settings of the temperature screen and of temperature monitoring.
#[derive(Debug, Clone)]
pub struct TemperatureConfig {
    pub units: TempUnits,
    /// At this temperature a sensor without limits of its own is warm.
    pub warn_threshold: MilliC,
    /// At this temperature a sensor without limits of its own is too hot.
    pub critical_threshold: MilliC,
    /// Limits for the sensors of single chips.
    pub thresholds: Vec<TempThresholdOverride>,
}

/// The limits for the sensors of one chip.
#[derive(Debug, Clone)]
pub struct TempThresholdOverride {
    pub chip: String,
    pub warn_threshold: MilliC,
    pub critical_threshold: MilliC,
}

/// The unit in which the temperature screen shows temperatures.
#[derive(Debug, Clone, Copy, PartialEq, Eq, Structural)]
pub enum TempUnits {
    C,
    F,
}

/// Settings of the container screen.
#[derive(Debug, Clone)]
pub struct DockerConfig {
    /// Containers that are never reported.
    pub ignore: Vec<String>,
}

/// The curve and the timing of a single fan that follows the processor and the
/// drives.
#[derive(Debug, Clone)]
pub struct FanConfig {
    pub enabled: bool,
    pub update_secs: u64,
    pub min_temp_c: MilliC,
    pub max_temp_c: MilliC,
    pub min_start_pwm: u8,
    pub min_stop_pwm: u8,
    pub min_pwm: u8,
    pub max_pwm: u8,
    /// The least number of seconds between two readings of the drives.
    pub drive_temp_min_secs: u64,
}

/// One fan: the output that drives it, the sensors that it follows, and its
/// curve.
#[derive(Debug, Clone)]
pub struct FanProfile {
    /// A label for the log.
    pub name: String,
    pub enabled: bool,
    /// The chip of the output.
    pub pwm_chip: String,
    pub pwm_index: u32,
    /// The tachometer of the fan, where it has one.
    pub fan_index: Option<u32>,
    /// Seconds between two evaluations of the curve.
    pub update_secs: u64,
    /// At or below this temperature the output is `min_pwm`.
    pub min_temp_c: MilliC,
    /// At or above this temperature the output is `max_pwm`.
    pub max_temp_c: MilliC,
    /// The output that starts a stopped fan.
    pub min_start_pwm: u8,
    /// The output at the lower end of the ramp.
    pub min_stop_pwm: u8,
    pub min_pwm: u8,
    pub max_pwm: u8,
    pub sensors: Vec<SensorSelector>,
    /// Below this speed a running fan is too slow.
    pub min_expected_rpm: Option<u32>,
}

/// Some temperature inputs of the sensors chips.
#[derive(Debug, Clone)]
pub struct SensorSelector {
    /// The chip; its name may go on after this.
    pub chip: String,
    /// One input of the chip; all of them where not given.
    pub input: Option<String>,
    /// A part of the input's label; an input without a label has none.
    pub label: Option<String>,
    /// Seconds between two readings, where they differ from the fan's.
    pub min_resample_secs: Option<u64>,
    /// The ends of the ramp for this sensor, where they differ from the fan's.
    pub min_temp_c: Option<MilliC>,
    pub max_temp_c: Option<MilliC>,
}

impl vstd::std_specs::convert::FromSpecImpl<NetworkLevel> for Level {
    open spec fn obeys_from_spec() -> bool {
        true
    }

    open spec fn from_spec(l: NetworkLevel) -> Level {
        network_level(l)
    }
}

impl From<NetworkLevel> for Level {
    fn from(l: NetworkLevel) -> (r: Level) {
        match l {
            NetworkLevel::Warning => Level::Warn,
            NetworkLevel::Error => Level::Error,
        }
    }
}

/// The severity that a setting stands for.
pub open spec fn network_level(l: NetworkLevel) -> Level {
    match l {
        NetworkLevel::Warning => Level::Warn,
        NetworkLevel::Error => Level::Error,
    }
}

/// The default network settings.
pub open spec fn is_default_network(c: NetworkConfig) -> bool {
    &&& c.enabled
    &&& c.monitored_nics@.len() == 0
    &&& c.some_down_level == NetworkLevel::Warning
    &&& c.all_down_level == NetworkLevel::Error
}

impl Default for NetworkConfig {
    fn default() -> (r: Self)
        ensures
            is_default_network(r),
    {
        NetworkConfig {
            enabled: true,
            monitored_nics: Vec::new(),
            some_down_level: NetworkLevel::Warning,
            all_down_level: NetworkLevel::Error,
        }
    }
}

/// The default display settings.
pub open spec fn is_default_display(c: DisplayConfig) -> bool {
    &&& c.serial_device@ == "/dev/ttyS1"@
    &&& c.scroll_step_ms == 300
    &&& c.scroll_max_chars == 64
    &&& c.scroll_pause_ms == 800
}

impl Default for DisplayConfig {
    fn default() -> (r: Self)
        ensures
            is_default_display(r),
    {
        DisplayConfig {
            serial_device: "/dev/ttyS1".to_owned(),
            scroll_step_ms: 300,
            scroll_max_chars: 64,
            scroll_pause_ms: 800,
        }
    }
}

impl Default for RotationConfig {
    fn default() -> (r: Self)
        ensures
            r == (RotationConfig { dwell_secs: 5, resume_after_secs: 30 }),
    {
        RotationConfig { dwell_secs: 5, resume_after_secs: 30 }
    }
}

impl Default for MenuConfig {
    fn default() -> (r: Self)
        ensures
            r == (MenuConfig { confirm_timeout_secs: 10 }),
    {
        MenuConfig { confirm_timeout_secs: 10 }
    }
}

/// The default sleep settings.
pub open spec fn is_default_sleep(c: SleepConfig) -> bool {
    &&& !c.enabled
    &&& c.start@ == "23:00"@
    &&& c.end@ == "07:00"@
    &&& c.lcd_power_path@ == "/sys/class/leds/power:lcd/brightness"@
}

impl Default for SleepConfig {
    fn default() -> (r: Self)
        ensures
            is_default_sleep(r),
    {
        SleepConfig {
            enabled: false,
            start: "23:00".to_owned(),
            end: "07:00".to_owned(),
            lcd_power_path: "/sys/class/leds/power:lcd/brightness".to_owned(),
        }
    }
}

impl Default for LedConfig {
    fn default() -> (r: Self)
        ensures
            r == (LedConfig { nic_mode: NicLedMode::Link }),
    {
        LedConfig { nic_mode: NicLedMode::Link }
    }
}

/// The default socket settings.
pub open spec fn is_default_socket(c: SocketConfig) -> bool {
    &&& c.path@ == "/run/lcm-status.sock"@
    &&& c.group@ == "lcm-status"@
}

impl Default for SocketConfig {
    fn default() -> (r: Self)
        ensures
            is_default_socket(r),
    {
        SocketConfig { path: "/run/lcm-status.sock".to_owned(), group: "lcm-status".to_owned() }
    }
}

impl Default for ScreensConfig {
    fn default() -> (r: Self)
        ensures
            r == (ScreensConfig {
                network: true,
                pools: true,
                hdd: true,
                temperature: true,
                docker: true,
            }),
    {
        ScreensConfig { network: true, pools: true, hdd: true, temperature: true, docker: true }
    }
}

impl Default for RefreshConfig {
    fn default() -> (r: Self)
        ensures
            r == (RefreshConfig {
                network_min_secs: 10,
                pools_min_secs: 30,
                hdd_min_secs: 300,
                temperature_min_secs: 10,
                docker_min_secs: 10,
            }),
    {
        RefreshConfig {
            network_min_secs: 10,
            pools_min_secs: 30,
            hdd_min_secs: 300,
            temperature_min_secs: 10,
            docker_min_secs: 10,
        }
    }
}

/// The given limits for a chip.
pub open spec fn is_threshold(
    t: TempThresholdOverride,
    chip: Seq<char>,
    warn: int,
    critical: int,
) -> bool {
    &&& t.chip@ == chip
    &&& t.warn_threshold == warn
    &&& t.critical_threshold == critical
}

impl Default for TempThresholdOverride {
    fn default() -> (r: Self)
        ensures
            is_threshold(r, Seq::empty(), 75_000, 85_000),
    {
        TempThresholdOverride {
            chip: String::new(),
            warn_threshold: 75_000,
            critical_threshold: 85_000,
        }
    }
}

/// The default limits of single chips.
pub open spec fn are_default_thresholds(s: Seq<TempThresholdOverride>) -> bool {
    &&& s.len() == 3
    &&& is_threshold(s[0], "coretemp"@, 85_000, 100_000)
    &&& is_threshold(s[1], "drivetemp"@, 50_000, 60_000)
    &&& is_threshold(s[2], "nvme"@, 60_000, 70_000)
}

/// The default limits of single chips, from the data sheets of the parts: the
/// processor's throttling point, the drives' and the SSD's operating range.
pub fn default_temp_thresholds() -> (r: Vec<TempThresholdOverride>)
    ensures
        are_default_thresholds(r@),
{
    let mut r: Vec<TempThresholdOverride> = Vec::new();
    r.push(
        TempThresholdOverride {
            chip: "coretemp".to_owned(),
            warn_threshold: 85_000,
            critical_threshold: 100_000,
        },
    );
    r.push(
        TempThresholdOverride {
            chip: "drivetemp".to_owned(),
            warn_threshold: 50_000,
            critical_threshold: 60_000,
        },
    );
    r.push(
        TempThresholdOverride {
            chip: "nvme".to_owned(),
            warn_threshold: 60_000,
            critical_threshold: 70_000,
        },
    );
    r
}

/// The limits that apply to the sensors of a chip: those of the first entry for
/// it, else the general ones.
pub open spec fn thresholds_for(cfg: TemperatureConfig, chip: Seq<char>) -> (MilliC, MilliC) {
    thresholds_from(cfg, chip, 0)
}

/// The limits for a chip by the entries from `i` on.
pub open spec fn thresholds_from(cfg: TemperatureConfig, chip: Seq<char>, i: int) -> (
    MilliC,
    MilliC,
)
    decreases cfg.thresholds@.len() - i,
{
    if i < 0 || i >= cfg.thresholds@.len() {
        (cfg.warn_threshold, cfg.critical_threshold)
    } else if cfg.thresholds@[i].chip@ == chip {
        (cfg.thresholds@[i].warn_threshold, cfg.thresholds@[i].critical_threshold)
    } else {
        thresholds_from(cfg, chip, i + 1)
    }
}

/// The limits, warm and too hot, that apply to the sensors of a chip.
pub fn resolve_temp_threshold(cfg: &TemperatureConfig, chip: &str) -> (r: (MilliC, MilliC))
    ensures
        r == thresholds_for(*cfg, chip@),
{
    for i in 0..cfg.thresholds.len()
        invariant
            thresholds_for(*cfg, chip@) == thresholds_from(*cfg, chip@, i as int),
    {
        if same(cfg.thresholds[i].chip.as_str(), chip) {
            return (cfg.thresholds[i].warn_threshold, cfg.thresholds[i].critical_threshold);
        }
    }
    (cfg.warn_threshold, cfg.critical_threshold)
}

/// The default temperature settings.
pub open spec fn is_default_temperature(c: TemperatureConfig) -> bool {
    &&& c.units == TempUnits::C
    &&& c.warn_threshold == 75_000
    &&& c.critical_threshold == 85_000
    &&& are_default_thresholds(c.thresholds@)
}

impl Default for TemperatureConfig {
    fn default() -> (r: Self)
        ensures
            is_default_temperature(r),
    {
        TemperatureConfig {
            units: TempUnits::C,
            warn_threshold: 75_000,
            critical_threshold: 85_000,
            thresholds: default_temp_thresholds(),
        }
    }
}

impl Default for DockerConfig {
    fn default() -> (r: Self)
        ensures
            r.ignore@.len() == 0,
    {
        DockerConfig { ignore: Vec::new() }
    }
}

/// The curve of the default fan.
pub open spec fn has_default_curve(f: FanProfile) -> bool {
    &&& f.enabled
    &&& f.pwm_index == 1
    &&& f.update_secs == 1
    &&& f.min_temp_c == 45_000
    &&& f.max_temp_c == 90_000
    &&& f.min_start_pwm == 60
    &&& f.min_stop_pwm == 55
    &&& f.min_pwm == 50
    &&& f.max_pwm == 255
}

impl Default for FanProfile {
    fn default() -> (r: Self)
        ensures
            has_default_curve(r),
            r.name@ == "fan"@,
            r.pwm_chip@.len() == 0,
            r.fan_index is None,
            r.sensors@.len() == 0,
            r.min_expected_rpm is None,
    {
        FanProfile {
            name: "fan".to_owned(),
            enabled: true,
            pwm_chip: String::new(),
            pwm_index: 1,
            fan_index: None,
            update_secs: 1,
            min_temp_c: 45_000,
            max_temp_c: 90_000,
            min_start_pwm: 60,
            min_stop_pwm: 55,
            min_pwm: 50,
            max_pwm: 255,
            sensors: Vec::new(),
            min_expected_rpm: None,
        }
    }
}

impl Default for SensorSelector {
    fn default() -> (r: Self)
        ensures
            r.chip@.len() == 0,
            r.input is None,
            r.label is None,
            r.min_resample_secs is None,
            r.min_temp_c is None,
            r.max_temp_c is None,
    {
        SensorSelector {
            chip: String::new(),
            input: None,
            label: None,
            min_resample_secs: None,
            min_temp_c: None,
            max_temp_c: None,
        }
    }
}

/// The default fans: the one fan of the chassis. The ramps of the drives and of
/// the SSD are their own limits, so that a drive at its critical temperature
/// means full speed.
pub open spec fn are_default_fans(s: Seq<FanProfile>) -> bool {
    &&& s.len() == 1
    &&& has_default_curve(s[0])
    &&& s[0].name@ == "chassis"@
    &&& s[0].pwm_chip@ == "it8625"@
    &&& s[0].fan_index == Some(1u32)
    &&& s[0].min_expected_rpm == Some(500u32)
    &&& s[0].sensors@.len() == 3
    &&& s[0].sensors@[0].chip@ == "coretemp"@
    &&& s[0].sensors@[0].input is None
    &&& s[0].sensors@[0].label matches Some(l) && l@ == "Package"@
    &&& s[0].sensors@[0].min_resample_secs is None
    &&& s[0].sensors@[0].min_temp_c is None
    &&& s[0].sensors@[0].max_temp_c is None
    &&& is_slow_sensor(s[0].sensors@[1], "drivetemp"@, 50_000, 60_000)
    &&& is_slow_sensor(s[0].sensors@[2], "nvme"@, 60_000, 70_000)
}

/// All inputs of a chip, read every thirty seconds, with a ramp of their own.
pub open spec fn is_slow_sensor(s: SensorSelector, chip: Seq<char>, low: int, high: int) -> bool {
    &&& s.chip@ == chip
    &&& s.input is None
    &&& s.label is None
    &&& s.min_resample_secs == Some(30u64)
    &&& s.min_temp_c matches Some(t) && t == low
    &&& s.max_temp_c matches Some(t) && t == high
}

/// The default fans.
pub fn default_fans() -> (r: Vec<FanProfile>)
    ensures
        are_default_fans(r@),
{
    let mut sensors: Vec<SensorSelector> = Vec::new();
    sensors.push(
        SensorSelector {
            chip: "coretemp".to_owned(),
            input: None,
            label: Some("Package".to_owned()),
            min_resample_secs: None,
            min_temp_c: None,
            max_temp_c: None,
        },
    );
    sensors.push(
        SensorSelector {
            chip: "drivetemp".to_owned(),
            input: None,
            label: None,
            min_resample_secs: Some(30),
            min_temp_c: Some(50_000),
            max_temp_c: Some(60_000),
        },
    );
    sensors.push(
        SensorSelector {
            chip: "nvme".to_owned(),
            input: None,
            label: None,
            min_resample_secs: Some(30),
            min_temp_c: Some(60_000),
            max_temp_c: Some(70_000),
        },
    );
    let mut fans: Vec<FanProfile> = Vec::new();
    fans.push(
        FanProfile {
            name: "chassis".to_owned(),
            enabled: true,
            pwm_chip: "it8625".to_owned(),
            pwm_index: 1,
            fan_index: Some(1),
            update_secs: 1,
            min_temp_c: 45_000,
            max_temp_c: 90_000,
            min_start_pwm: 60,
            min_stop_pwm: 55,
            min_pwm: 50,
            max_pwm: 255,
            sensors,
            min_expected_rpm: Some(500),
        },
    );
    fans
}

/// The default settings.
pub open spec fn is_default_config(c: Config) -> bool {
    &&& is_default_display(c.display)
    &&& c.rotation == (RotationConfig { dwell_secs: 5, resume_after_secs: 30 })
    &&& c.menu == (MenuConfig { confirm_timeout_secs: 10 })
    &&& is_default_sleep(c.sleep)
    &&& is_default_socket(c.socket)
    &&& c.screens == (ScreensConfig {
        network: true,
        pools: true,
        hdd: true,
        temperature: true,
        docker: true,
    })
    &&& c.refresh == (RefreshConfig {
        network_min_secs: 10,
        pools_min_secs: 30,
        hdd_min_secs: 300,
        temperature_min_secs: 10,
        docker_min_secs: 10,
    })
    &&& is_default_temperature(c.temperature)
    &&& c.docker.ignore@.len() == 0
    &&& c.led == (LedConfig { nic_mode: NicLedMode::Link })
    &&& is_default_network(c.network)
    &&& are_default_fans(c.fans@)
}

impl Default for Config {
    fn default() -> (r: Self)
        ensures
            is_default_config(r),
    {
        Config {
            display: DisplayConfig::default(),
            rotation: RotationConfig::default(),
            menu: MenuConfig::default(),
            sleep: SleepConfig::default(),
            socket: SocketConfig::default(),
            screens: ScreensConfig::default(),
            refresh: RefreshConfig::default(),
            temperature: TemperatureConfig::default(),
            docker: DockerConfig::default(),
            led: LedConfig::default(),
            network: NetworkConfig::default(),
            fans: default_fans(),
        }
    }
}

impl Config {
    /// The settings of the configuration file, or the defaults where the file is
    /// missing or is no configuration.
    pub fn load(file: ConfigFile) -> (r: Config)
        ensures
            file matches ConfigFile::Parsed(c) ==> r == c,
            !(file is Parsed) ==> is_default_config(r),
    {
        match file {
            ConfigFile::Parsed(c) => c,
            ConfigFile::Unreadable | ConfigFile::Invalid => Config::default(),
        }
    }
}

/// The ends of the default fan's curve for drives and NVMe controllers are the
/// default limits of their sensors: one that is too hot gets full speed.
pub proof fn default_curves_match_limits(fans: Seq<FanProfile>, cfg: TemperatureConfig)
    requires
        are_default_fans(fans),
        is_default_temperature(cfg),
    ensures
        forall|i: int|
            1 <= i < 3 ==> (#[trigger] fans[0].sensors@[i]).min_temp_c == Some(
                thresholds_for(cfg, fans[0].sensors@[i].chip@).0,
            ) && fans[0].sensors@[i].max_temp_c == Some(
                thresholds_for(cfg, fans[0].sensors@[i].chip@).1,
            ),
{
    reveal_strlit("drivetemp");
    reveal_strlit("nvme");
    reveal_strlit("coretemp");
    assert("coretemp"@.len() == 8 && "drivetemp"@.len() == 9 && "nvme"@.len() == 4);
    assert(thresholds_from(cfg, "drivetemp"@, 1) == (50_000i32, 60_000i32));
    assert(thresholds_from(cfg, "drivetemp"@, 0) == (50_000i32, 60_000i32));
    assert(thresholds_from(cfg, "nvme"@, 2) == (60_000i32, 70_000i32));
    assert(thresholds_from(cfg, "nvme"@, 1) == (60_000i32, 70_000i32));
    assert(thresholds_from(cfg, "nvme"@, 0) == (60_000i32, 70_000i32));
}

proof fn lemma_first_entry(cfg: TemperatureConfig, chip: Seq<char>, i: int, k: int)
    requires
        0 <= i <= k <= cfg.thresholds@.len(),
        forall|j: int| i <= j < k ==> (#[trigger] cfg.thresholds@[j]).chip@ != chip,
    ensures
        thresholds_from(cfg, chip, i) == thresholds_from(cfg, chip, k),
    decreases k - i,
{
    if i < k {
        lemma_first_entry(cfg, chip, i + 1, k);
    }
}

/// The limits of a chip are those of the first entry with its very name, and the
/// general ones where no entry has it.
pub proof fn limits_are_the_chips_own(cfg: TemperatureConfig, chip: Seq<char>, i: int)
    ensures
        0 <= i < cfg.thresholds@.len() && cfg.thresholds@[i].chip@ == chip && (forall|j: int|
            0 <= j < i ==> (#[trigger] cfg.thresholds@[j]).chip@ != chip) ==> thresholds_for(cfg, chip)
            == (cfg.thresholds@[i].warn_threshold, cfg.thresholds@[i].critical_threshold),
        (forall|j: int|
            0 <= j < cfg.thresholds@.len() ==> (#[trigger] cfg.thresholds@[j]).chip@ != chip)
            ==> thresholds_for(cfg, chip) == (cfg.warn_threshold, cfg.critical_threshold),
{
    let n = cfg.thresholds@.len() as int;
    if 0 <= i < n && forall|j: int| 0 <= j < i ==> (#[trigger] cfg.thresholds@[j]).chip@ != chip {
        lemma_first_entry(cfg, chip, 0, i);
    }
    if forall|j: int| 0 <= j < n ==> (#[trigger] cfg.thresholds@[j]).chip@ != chip {
        lemma_first_entry(cfg, chip, 0, n);
    }
}

/// The defaults in figures: the times in seconds and milliseconds, the temperatures in
/// thousandths of a degree.
pub proof fn defaults_in_figures(c: Config)
    requires
        is_default_config(c),
    ensures
        c.display.scroll_step_ms == 300 && c.display.scroll_pause_ms == 800
            && c.display.scroll_max_chars == 64 && c.display.serial_device@ == "/dev/ttyS1"@,
        c.rotation.dwell_secs == 5 && c.rotation.resume_after_secs == 30,
        c.menu.confirm_timeout_secs == 10,
        c.refresh.network_min_secs == 10 && c.refresh.pools_min_secs == 30
            && c.refresh.hdd_min_secs == 300 && c.refresh.temperature_min_secs == 10
            && c.refresh.docker_min_secs == 10,
        c.screens.network && c.screens.pools && c.screens.hdd && c.screens.temperature
            && c.screens.docker,
        c.temperature.units == TempUnits::C && c.temperature.warn_threshold == 75_000
            && c.temperature.critical_threshold == 85_000,
        c.docker.ignore@.len() == 0,
        c.led.nic_mode == NicLedMode::Link,
        c.network.enabled && c.network.monitored_nics@.len() == 0 && c.network.some_down_level
            == NetworkLevel::Warning && c.network.all_down_level == NetworkLevel::Error,
        c.fans@.len() == 1 && c.fans@[0].enabled && c.fans@[0].pwm_index == 1
            && c.fans@[0].update_secs == 1 && c.fans@[0].min_temp_c == 45_000
            && c.fans@[0].max_temp_c == 90_000 && c.fans@[0].min_start_pwm == 60
            && c.fans@[0].min_stop_pwm == 55 && c.fans@[0].min_pwm == 50 && c.fans@[0].max_pwm == 255,
        c.fans@[0].sensors@.len() == 3,
        forall|i: int|
            1 <= i < 3 ==> (#[trigger] c.fans@[0].sensors@[i]).input is None
                && c.fans@[0].sensors@[i].label is None && c.fans@[0].sensors@[i].min_resample_secs
                == Some(30u64),
{
}

} // verus!
