//! The report that a status request is answered with. It is made from the same
//! computations as the status LED, so that the two cannot disagree.
use crate::celsius::{tenths_celsius, to_tenths_celsius};
use crate::config::{resolve_temp_threshold, thresholds_for, Config, TemperatureConfig};
use crate::fan_control::FanController;
use crate::hal::{link_text, nic_link_text};
use crate::led::{carrier_down, link_is_down, BayState, StatusPattern};
use crate::model::{monitored, AppView, SummaryView};
use crate::monitor::{reading_level, readings, ReadingView, SensorReading};
use crate::number::{decimal, push_decimal};
use crate::order::{
    has_a_place, indices, order, order_of, ordered, ordered_items_are_the_items,
};
use crate::socket::Level;
use crate::state::{counted_nics, AppState, HealthInputs, HealthSummary};
use crate::text::{
    contains_text, holds, occurs_at, opt_text, pad_left, pad_right, padded_left, padded_right,
    pairs, same, texts, trimmed, truth, truth_of,
};
use vstd::prelude::*;

verus! {

/// A network port and the content of its carrier file.
#[derive(Debug, Clone)]
pub struct NicState {
    pub name: String,
    pub carrier: Option<String>,
}

/// What is read for a report.
#[derive(Debug, Clone)]
pub struct ReportInputs {
    /// Every connected temperature sensor.
    pub temps: Vec<SensorReading>,
    /// The states of the bays.
    pub bays: Vec<(u32, BayState)>,
    /// What the health of the machine is made out from.
    pub health: HealthInputs,
    /// The network ports.
    pub nics: Vec<NicState>,
    /// The addresses of the interfaces.
    pub ips: Vec<(String, String)>,
}

/// The lines of the fans.
pub open spec fn fan_lines(fans: Seq<FanController>) -> Seq<char>
    decreases fans.len(),
{
    if fans.len() == 0 {
        Seq::empty()
    } else {
        fan_lines(fans.drop_last()) + ("  "@ + fans.last()@.line() + "\n"@)
    }
}

/// The section on the fans.
pub open spec fn fan_section(fans: Seq<FanController>) -> Seq<char> {
    "-- Fans --\n"@ + (if fans.len() == 0 {
        "  (none configured)\n"@
    } else {
        fan_lines(fans)
    }) + "\n"@
}

/// The sensors in the order of their labels; equal labels keep their order.
pub open spec fn by_label(temps: Seq<ReadingView>) -> Seq<ReadingView> {
    ordered(temps, temps.map_values(|r: ReadingView| (r.label, Seq::empty())))
}

/// The level of a temperature as a word.
pub open spec fn temp_word(r: ReadingView, cfg: TemperatureConfig) -> Seq<char> {
    let (warn, critical) = thresholds_for(cfg, r.chip);
    if r.temp >= critical {
        "CRITICAL"@
    } else if r.temp >= warn {
        "WARNING"@
    } else {
        "ok"@
    }
}

/// The line of a sensor.
pub open spec fn temp_line(r: ReadingView, cfg: TemperatureConfig) -> Seq<char> {
    let (warn, critical) = thresholds_for(cfg, r.chip);
    "  "@ + padded_right(r.label, 40) + " "@ + padded_left(tenths_celsius(r.temp as int), 6)
        + "C  ["@ + padded_right(temp_word(r, cfg), 8) + "] (warn "@ + tenths_celsius(warn as int)
        + "C / crit "@ + tenths_celsius(critical as int) + "C)\n"@
}

/// The lines of some sensors.
pub open spec fn temp_lines(temps: Seq<ReadingView>, cfg: TemperatureConfig) -> Seq<char>
    decreases temps.len(),
{
    if temps.len() == 0 {
        Seq::empty()
    } else {
        temp_lines(temps.drop_last(), cfg) + temp_line(temps.last(), cfg)
    }
}

/// The section on the temperatures.
pub open spec fn temp_section(temps: Seq<ReadingView>, cfg: TemperatureConfig) -> Seq<char> {
    "-- Temperatures --\n"@ + (if temps.len() == 0 {
        "  (no connected sensors found)\n"@
    } else {
        temp_lines(by_label(temps), cfg)
    }) + "\n"@
}

/// The lines of the pools.
pub open spec fn pool_lines(pools: Seq<(Seq<char>, Seq<char>)>) -> Seq<char>
    decreases pools.len(),
{
    if pools.len() == 0 {
        Seq::empty()
    } else {
        pool_lines(pools.drop_last()) + ("  "@ + padded_right(pools.last().0, 16) + " "@
            + pools.last().1 + "\n"@)
    }
}

/// The section on the pools.
pub open spec fn pool_section(pools: Seq<(Seq<char>, Seq<char>)>) -> Seq<char> {
    "-- Pools --\n"@ + (if pools.len() == 0 {
        "  (none found)\n"@
    } else {
        pool_lines(pools)
    }) + "\n"@
}

/// The lines of the bays.
pub open spec fn bay_lines(bays: Seq<(u32, BayState)>) -> Seq<char>
    decreases bays.len(),
{
    if bays.len() == 0 {
        Seq::empty()
    } else {
        bay_lines(bays.drop_last()) + ("  bay "@ + decimal(bays.last().0 as nat) + ": "@
            + bays.last().1.name() + "\n"@)
    }
}

/// The section on the bays.
pub open spec fn bay_section(bays: Seq<(u32, BayState)>) -> Seq<char> {
    "-- Drive bays (SMART) --\n"@ + (if bays.len() == 0 {
        "  (none found)\n"@
    } else {
        bay_lines(bays)
    }) + "\n"@
}

/// The address of an interface: the last that is known of it.
pub open spec fn address_of(ips: Seq<(Seq<char>, Seq<char>)>, iface: Seq<char>) -> Option<Seq<char>>
    decreases ips.len(),
{
    if ips.len() == 0 {
        None
    } else if ips.last().0 == iface {
        Some(ips.last().1)
    } else {
        address_of(ips.drop_last(), iface)
    }
}

/// The line of a network port.
pub open spec fn nic_line(
    n: NicState,
    ips: Seq<(Seq<char>, Seq<char>)>,
    cfg: Config,
    configured: Seq<Seq<char>>,
) -> Seq<char> {
    let address = match address_of(ips, n.name@) {
        Some(ip) => ip,
        None => link_text(opt_text(n.carrier)),
    };
    let counts = cfg.network.enabled && monitored(cfg.network, configured).contains(n.name@);
    "  "@ + padded_right(n.name@, 10) + " "@ + padded_right(address, 20) + " "@ + (if counts {
        "monitored"@
    } else {
        "not monitored"@
    }) + ", link "@ + (if carrier_down(opt_text(n.carrier)) {
        "down"@
    } else {
        "up"@
    }) + "\n"@
}

/// The lines of the network ports.
pub open spec fn nic_lines(
    nics: Seq<NicState>,
    ips: Seq<(Seq<char>, Seq<char>)>,
    cfg: Config,
    configured: Seq<Seq<char>>,
) -> Seq<char>
    decreases nics.len(),
{
    if nics.len() == 0 {
        Seq::empty()
    } else {
        nic_lines(nics.drop_last(), ips, cfg, configured) + nic_line(
            nics.last(),
            ips,
            cfg,
            configured,
        )
    }
}

/// The section on the network.
pub open spec fn network_section(
    nics: Seq<NicState>,
    ips: Seq<(Seq<char>, Seq<char>)>,
    cfg: Config,
    configured: Seq<Seq<char>>,
) -> Seq<char> {
    "-- Network --\n"@ + nic_lines(nics, ips, cfg, configured) + "\n"@
}

/// The section on the message that shows.
pub open spec fn override_section(message: Option<Seq<char>>) -> Seq<char> {
    "-- Active override --\n  "@ + (match message {
        Some(m) => m,
        None => "none"@,
    }) + "\n\n"@
}

/// The section on the status LED.
pub open spec fn status_section(s: SummaryView) -> Seq<char> {
    "-- Overall status LED --\n  pattern: "@ + s.pattern.name() + "\n  severity: "@
        + s.overall.name() + "  (fan="@ + s.fan_health.name() + " temp="@ + s.temp_level.name()
        + " network="@ + s.network_level.name() + " pool_degraded="@ + truth(s.pool_degraded)
        + " pool_faulted="@ + truth(s.pool_faulted) + " bay_failed="@ + truth(s.bay_failed)
        + ")\n"@
}

/// The report.
pub open spec fn report_text(
    state: AppView,
    fans: Seq<FanController>,
    cfg: Config,
    inputs: ReportInputs,
) -> Seq<char> {
    let summary = state.health(inputs.health@);
    "=== lcm-status report ===\n\n"@ + fan_section(fans) + temp_section(
        readings(inputs.temps@),
        cfg.temperature,
    ) + pool_section(summary.pool_healths) + bay_section(inputs.bays@) + network_section(
        inputs.nics@,
        pairs(inputs.ips@),
        cfg,
        inputs.health@.configured,
    ) + override_section(state.override_text()) + status_section(summary)
}

fn push_fans(out: &mut String, fans: &Vec<FanController>)
    ensures
        final(out)@ == old(out)@ + fan_section(fans@),
{
    out.append("-- Fans --\n");
    if fans.len() == 0 {
        out.append("  (none configured)\n");
    }
    let ghost before = out@;
    assert(fans@.take(0) =~= Seq::empty());
    for i in 0..fans.len()
        invariant
            out@ == before + fan_lines(fans@.take(i as int)),
    {
        assert(fans@.take(i + 1).drop_last() =~= fans@.take(i as int));
        assert(fans@.take(i + 1).last() == fans@[i as int]);
        out.append("  ");
        out.append(fans[i].status_line().as_str());
        out.append("\n");
        assert(out@ =~= before + fan_lines(fans@.take(i + 1)));
    }
    assert(fans@.take(fans@.len() as int) =~= fans@);
    out.append("\n");
    assert(out@ =~= old(out)@ + fan_section(fans@));
}

fn push_temp(out: &mut String, r: &SensorReading, cfg: &TemperatureConfig)
    ensures
        final(out)@ == old(out)@ + temp_line(r@, *cfg),
{
    let (warn, critical) = resolve_temp_threshold(cfg, r.chip.as_str());
    let word = if r.temp >= critical {
        "CRITICAL"
    } else if r.temp >= warn {
        "WARNING"
    } else {
        "ok"
    };
    out.append("  ");
    out.append(pad_right(r.label.as_str(), 40).as_str());
    out.append(" ");
    out.append(pad_left(to_tenths_celsius(r.temp).as_str(), 6).as_str());
    out.append("C  [");
    out.append(pad_right(word, 8).as_str());
    out.append("] (warn ");
    out.append(to_tenths_celsius(warn).as_str());
    out.append("C / crit ");
    out.append(to_tenths_celsius(critical).as_str());
    out.append("C)\n");
    assert(out@ =~= old(out)@ + temp_line(r@, *cfg));
}

fn push_temps(out: &mut String, temps: &Vec<SensorReading>, cfg: &TemperatureConfig)
    ensures
        final(out)@ == old(out)@ + temp_section(readings(temps@), *cfg),
{
    let ghost all = readings(temps@);
    out.append("-- Temperatures --\n");
    if temps.len() == 0 {
        out.append("  (no connected sensors found)\n");
    }
    let ghost before = out@;
    let mut keys: Vec<(String, String)> = Vec::new();
    for i in 0..temps.len()
        invariant
            keys@.len() == i,
            forall|k: int|
                0 <= k < i ==> (#[trigger] keys@[k]).0@ == temps@[k].label@ && keys@[k].1@
                    == Seq::<char>::empty(),
    {
        keys.push((temps[i].label.clone(), String::new()));
    }
    assert(pairs(keys@) =~= all.map_values(|r: ReadingView| (r.label, Seq::empty())));
    let o = order(&keys);
    let ghost sorted = by_label(all);
    assert(sorted.len() == o@.len());
    assert(sorted.take(0) =~= Seq::empty());
    for i in 0..o.len()
        invariant
            all == readings(temps@),
            sorted == by_label(all),
            sorted.len() == o@.len(),
            indices(o@) == order_of(all.map_values(|r: ReadingView| (r.label, Seq::empty()))),
            forall|k: int| 0 <= k < o@.len() ==> #[trigger] o@[k] < temps@.len(),
            out@ == before + temp_lines(sorted.take(i as int), *cfg),
    {
        let r = &temps[o[i]];
        assert(sorted.take(i + 1).drop_last() =~= sorted.take(i as int));
        assert(indices(o@)[i as int] == o@[i as int]);
        assert(sorted.take(i + 1).last() == r@);
        push_temp(out, r, cfg);
        assert(out@ =~= before + temp_lines(sorted.take(i + 1), *cfg));
    }
    assert(sorted.take(sorted.len() as int) =~= sorted);
    assert(temps@.len() == 0 ==> temp_lines(sorted, *cfg) =~= Seq::empty());
    out.append("\n");
    assert(out@ =~= old(out)@ + temp_section(all, *cfg));
}

fn push_pools(out: &mut String, pools: &Vec<(String, String)>)
    ensures
        final(out)@ == old(out)@ + pool_section(pairs(pools@)),
{
    let ghost all = pairs(pools@);
    out.append("-- Pools --\n");
    if pools.len() == 0 {
        out.append("  (none found)\n");
    }
    let ghost before = out@;
    assert(all.take(0) =~= Seq::empty());
    for i in 0..pools.len()
        invariant
            all == pairs(pools@),
            out@ == before + pool_lines(all.take(i as int)),
    {
        assert(all.take(i + 1).drop_last() =~= all.take(i as int));
        assert(all.take(i + 1).last() == (pools@[i as int].0@, pools@[i as int].1@));
        out.append("  ");
        out.append(pad_right(pools[i].0.as_str(), 16).as_str());
        out.append(" ");
        out.append(pools[i].1.as_str());
        out.append("\n");
        assert(out@ =~= before + pool_lines(all.take(i + 1)));
    }
    assert(all.take(all.len() as int) =~= all);
    out.append("\n");
    assert(out@ =~= old(out)@ + pool_section(all));
}

fn push_bays(out: &mut String, bays: &Vec<(u32, BayState)>)
    ensures
        final(out)@ == old(out)@ + bay_section(bays@),
{
    out.append("-- Drive bays (SMART) --\n");
    if bays.len() == 0 {
        out.append("  (none found)\n");
    }
    let ghost before = out@;
    assert(bays@.take(0) =~= Seq::empty());
    for i in 0..bays.len()
        invariant
            out@ == before + bay_lines(bays@.take(i as int)),
    {
        assert(bays@.take(i + 1).drop_last() =~= bays@.take(i as int));
        assert(bays@.take(i + 1).last() == bays@[i as int]);
        let (bay, state) = bays[i];
        out.append("  bay ");
        push_decimal(out, bay as u64);
        out.append(": ");
        out.append(state.label());
        out.append("\n");
        assert(out@ =~= before + bay_lines(bays@.take(i + 1)));
    }
    assert(bays@.take(bays@.len() as int) =~= bays@);
    out.append("\n");
    assert(out@ =~= old(out)@ + bay_section(bays@));
}

fn find_ip(ips: &Vec<(String, String)>, iface: &str) -> (r: Option<String>)
    ensures
        opt_text(r) == address_of(pairs(ips@), iface@),
{
    let ghost all = pairs(ips@);
    let mut n: usize = ips.len();
    assert(all.take(all.len() as int) =~= all);
    while n > 0
        invariant
            all == pairs(ips@),
            n <= ips@.len(),
            address_of(all, iface@) == address_of(all.take(n as int), iface@),
        decreases n,
    {
        assert(all.take(n as int).drop_last() =~= all.take(n - 1));
        assert(all.take(n as int).last() == (ips@[n - 1].0@, ips@[n - 1].1@));
        n -= 1;
        if same(ips[n].0.as_str(), iface) {
            return Some(ips[n].1.clone());
        }
    }
    None
}

fn carrier_of(n: &NicState) -> (r: Option<&str>)
    ensures
        crate::text::opt_str(r) == opt_text(n.carrier),
{
    match &n.carrier {
        Some(c) => Some(c.as_str()),
        None => None,
    }
}

fn push_nic(
    out: &mut String,
    n: &NicState,
    ips: &Vec<(String, String)>,
    cfg: &Config,
    counting: &Vec<String>,
    configured: Ghost<Seq<Seq<char>>>,
)
    requires
        texts(counting@) == monitored(cfg.network, configured@),
    ensures
        final(out)@ == old(out)@ + nic_line(*n, pairs(ips@), *cfg, configured@),
{
    let address = match find_ip(ips, n.name.as_str()) {
        Some(ip) => ip,
        None => nic_link_text(carrier_of(n)),
    };
    out.append("  ");
    out.append(pad_right(n.name.as_str(), 10).as_str());
    out.append(" ");
    out.append(pad_right(address.as_str(), 20).as_str());
    out.append(" ");
    if cfg.network.enabled && holds(counting, n.name.as_str()) {
        out.append("monitored");
    } else {
        out.append("not monitored");
    }
    out.append(", link ");
    if link_is_down(carrier_of(n)) {
        out.append("down");
    } else {
        out.append("up");
    }
    out.append("\n");
    assert(out@ =~= old(out)@ + nic_line(*n, pairs(ips@), *cfg, configured@));
}

fn push_network(out: &mut String, inputs: &ReportInputs, cfg: &Config, counting: &Vec<String>)
    requires
        texts(counting@) == monitored(cfg.network, inputs.health@.configured),
    ensures
        final(out)@ == old(out)@ + network_section(
            inputs.nics@,
            pairs(inputs.ips@),
            *cfg,
            inputs.health@.configured,
        ),
{
    let ghost ips = pairs(inputs.ips@);
    let ghost configured = inputs.health@.configured;
    let ghost nics = inputs.nics@;
    out.append("-- Network --\n");
    let ghost before = out@;
    assert(nics.take(0) =~= Seq::empty());
    assert(out@ =~= before + nic_lines(nics.take(0), ips, *cfg, configured));
    for i in 0..inputs.nics.len()
        invariant
            nics == inputs.nics@,
            ips == pairs(inputs.ips@),
            configured == inputs.health@.configured,
            texts(counting@) == monitored(cfg.network, configured),
            out@ == before + nic_lines(nics.take(i as int), ips, *cfg, configured),
    {
        assert(nics.take(i + 1).drop_last() =~= nics.take(i as int));
        assert(nics.take(i + 1).last() == nics[i as int]);
        push_nic(out, &inputs.nics[i], &inputs.ips, cfg, counting, Ghost(configured));
        assert(out@ =~= before + nic_lines(nics.take(i + 1), ips, *cfg, configured));
    }
    assert(nics.take(nics.len() as int) =~= nics);
    out.append("\n");
    assert(out@ =~= old(out)@ + network_section(nics, ips, *cfg, configured));
}

fn push_override(out: &mut String, state: &AppState)
    ensures
        final(out)@ == old(out)@ + override_section(state@.override_text()),
{
    out.append("-- Active override --\n  ");
    match state.override_summary() {
        Some(m) => out.append(m.as_str()),
        None => out.append("none"),
    }
    out.append("\n\n");
    assert(out@ =~= old(out)@ + override_section(state@.override_text()));
}

fn push_status(out: &mut String, summary: &HealthSummary)
    ensures
        final(out)@ == old(out)@ + status_section(summary@),
{
    let mut s = "-- Overall status LED --\n  pattern: ".to_owned();
    s.append(summary.pattern.label());
    s.append("\n  severity: ");
    s.append(summary.overall.label());
    s.append("  (fan=");
    s.append(summary.fan_health.label());
    s.append(" temp=");
    s.append(summary.temp_level.label());
    s.append(" network=");
    s.append(summary.network_level.label());
    s.append(" pool_degraded=");
    s.append(truth_of(summary.pool_degraded));
    s.append(" pool_faulted=");
    s.append(truth_of(summary.pool_faulted));
    s.append(" bay_failed=");
    s.append(truth_of(summary.bay_failed));
    s.append(")\n");
    out.append(s.as_str());
}

/// The report.
pub fn build(
    state: &AppState,
    fans: &Vec<FanController>,
    cfg: &Config,
    inputs: &ReportInputs,
) -> (r: String)
    requires
        state.wf(),
    ensures
        r@ == report_text(state@, fans@, *cfg, *inputs),
{
    let mut out = "=== lcm-status report ===\n\n".to_owned();
    push_fans(&mut out, fans);
    push_temps(&mut out, &inputs.temps, &cfg.temperature);
    let summary = state.health_summary(&inputs.health);
    push_pools(&mut out, &summary.pool_healths);
    push_bays(&mut out, &inputs.bays);
    let counting = counted_nics(&cfg.network, &inputs.health.configured);
    push_network(&mut out, inputs, cfg, &counting);
    push_override(&mut out, state);
    push_status(&mut out, &summary);
    out
}

/// Whether a text stands somewhere in another.
proof fn lemma_in_sum(a: Seq<char>, b: Seq<char>, part: Seq<char>)
    ensures
        contains_text(a, part) || contains_text(b, part) ==> contains_text(a + b, part),
{
    let n = part.len() as int;
    if contains_text(a, part) {
        let i = choose|i: int| occurs_at(a, part, i);
        assert((a + b).subrange(i, i + n) =~= a.subrange(i, i + n));
        assert(occurs_at(a + b, part, i));
    }
    if contains_text(b, part) {
        let i = choose|i: int| occurs_at(b, part, i);
        let k = a.len() + i;
        assert((a + b).subrange(k, k + n) =~= b.subrange(i, i + n));
        assert(occurs_at(a + b, part, k));
    }
}

proof fn lemma_in_itself(s: Seq<char>)
    ensures
        contains_text(s, s),
{
    assert(s.subrange(0, s.len() as int) =~= s);
    assert(occurs_at(s, s, 0));
}

/// The report and the monitor call a temperature the same: by the limits of the
/// sensor's own chip.
pub proof fn report_agrees_with_the_monitor(r: ReadingView, cfg: TemperatureConfig)
    ensures
        temp_word(r, cfg) == match reading_level(cfg, r) {
            Level::Critical => "CRITICAL"@,
            Level::Warn => "WARNING"@,
            _ => "ok"@,
        },
        ({
            let (warn, critical) = thresholds_for(cfg, r.chip);
            &&& r.temp >= critical ==> temp_word(r, cfg) == "CRITICAL"@
            &&& r.temp < critical && r.temp >= warn ==> temp_word(r, cfg) == "WARNING"@
            &&& r.temp < critical && r.temp < warn ==> temp_word(r, cfg) == "ok"@
        }),
{
}

proof fn lemma_temp_in_lines(temps: Seq<ReadingView>, cfg: TemperatureConfig, i: int)
    requires
        0 <= i < temps.len(),
    ensures
        contains_text(temp_lines(temps, cfg), temp_line(temps[i], cfg)),
    decreases temps.len(),
{
    let rest = temps.drop_last();
    let own = temp_line(temps[i], cfg);
    lemma_in_sum(temp_lines(rest, cfg), temp_line(temps.last(), cfg), own);
    if i < rest.len() {
        assert(rest[i] == temps[i]);
        lemma_temp_in_lines(rest, cfg, i);
    } else {
        lemma_in_itself(own);
    }
}

/// Every sensor has its line in the section on the temperatures: its label, what it
/// reads, how that is, and the limits of its own chip.
pub proof fn every_sensor_is_in_the_report(
    temps: Seq<ReadingView>,
    cfg: TemperatureConfig,
    i: int,
)
    requires
        0 <= i < temps.len(),
    ensures
        ({
            let r = temps[i];
            let (warn, critical) = thresholds_for(cfg, r.chip);
            let word = if r.temp >= critical {
                "CRITICAL"@
            } else if r.temp >= warn {
                "WARNING"@
            } else {
                "ok"@
            };
            contains_text(
                temp_section(temps, cfg),
                "  "@ + padded_right(r.label, 40) + " "@ + padded_left(
                    tenths_celsius(r.temp as int),
                    6,
                ) + "C  ["@ + padded_right(word, 8) + "] (warn "@ + tenths_celsius(warn as int)
                    + "C / crit "@ + tenths_celsius(critical as int) + "C)\n"@,
            )
        }),
{
    let keys = temps.map_values(|r: ReadingView| (r.label, Seq::<char>::empty()));
    let sorted = by_label(temps);
    ordered_items_are_the_items(temps, keys);
    assert(has_a_place(temps, keys, i));
    let k = choose|k: int|
        0 <= k < temps.len() && order_of(keys)[k] == i && (#[trigger] ordered(temps, keys)[k])
            == temps[i];
    assert(sorted[k] == temps[i]);
    let own = temp_line(temps[i], cfg);
    lemma_temp_in_lines(sorted, cfg, k);
    lemma_in_sum("-- Temperatures --\n"@, temp_lines(sorted, cfg), own);
    lemma_in_sum("-- Temperatures --\n"@ + temp_lines(sorted, cfg), "\n"@, own);
}

proof fn lemma_bay_in_lines(bays: Seq<(u32, BayState)>, i: int)
    requires
        0 <= i < bays.len(),
    ensures
        contains_text(
            bay_lines(bays),
            "  bay "@ + decimal(bays[i].0 as nat) + ": "@ + bays[i].1.name() + "\n"@,
        ),
    decreases bays.len(),
{
    let rest = bays.drop_last();
    let own = "  bay "@ + decimal(bays[i].0 as nat) + ": "@ + bays[i].1.name() + "\n"@;
    let last = "  bay "@ + decimal(bays.last().0 as nat) + ": "@ + bays.last().1.name() + "\n"@;
    lemma_in_sum(bay_lines(rest), last, own);
    if i < rest.len() {
        assert(rest[i] == bays[i]);
        lemma_bay_in_lines(rest, i);
    } else {
        lemma_in_itself(own);
    }
}

proof fn lemma_pool_in_lines(pools: Seq<(Seq<char>, Seq<char>)>, i: int)
    requires
        0 <= i < pools.len(),
    ensures
        contains_text(
            pool_lines(pools),
            "  "@ + padded_right(pools[i].0, 16) + " "@ + pools[i].1 + "\n"@,
        ),
    decreases pools.len(),
{
    let rest = pools.drop_last();
    let own = "  "@ + padded_right(pools[i].0, 16) + " "@ + pools[i].1 + "\n"@;
    let last = "  "@ + padded_right(pools.last().0, 16) + " "@ + pools.last().1 + "\n"@;
    lemma_in_sum(pool_lines(rest), last, own);
    if i < rest.len() {
        assert(rest[i] == pools[i]);
        lemma_pool_in_lines(rest, i);
    } else {
        lemma_in_itself(own);
    }
}

proof fn lemma_fan_in_lines(fans: Seq<FanController>, i: int)
    requires
        0 <= i < fans.len(),
    ensures
        contains_text(fan_lines(fans), "  "@ + fans[i]@.line() + "\n"@),
    decreases fans.len(),
{
    let rest = fans.drop_last();
    let own = "  "@ + fans[i]@.line() + "\n"@;
    lemma_in_sum(fan_lines(rest), "  "@ + fans.last()@.line() + "\n"@, own);
    if i < rest.len() {
        assert(rest[i] == fans[i]);
        lemma_fan_in_lines(rest, i);
    } else {
        lemma_in_itself(own);
    }
}

/// Every bay, every pool and every fan has its line in its section: the bay with its
/// state, the pool with its health, the fan with its output, its speed and its health.
pub proof fn bays_pools_and_fans_are_in_the_report(
    bays: Seq<(u32, BayState)>,
    pools: Seq<(Seq<char>, Seq<char>)>,
    fans: Seq<FanController>,
    i: int,
)
    ensures
        0 <= i < bays.len() ==> contains_text(
            bay_section(bays),
            "  bay "@ + decimal(bays[i].0 as nat) + ": "@ + (match bays[i].1 {
                BayState::Normal => "Normal"@,
                BayState::Failed => "Failed"@,
                BayState::Alert => "Alert"@,
                BayState::Standby => "Standby"@,
            }) + "\n"@,
        ),
        0 <= i < pools.len() ==> contains_text(
            pool_section(pools),
            "  "@ + padded_right(pools[i].0, 16) + " "@ + pools[i].1 + "\n"@,
        ),
        0 <= i < fans.len() ==> contains_text(
            fan_section(fans),
            "  "@ + fans[i]@.line() + "\n"@,
        ),
{
    if 0 <= i < bays.len() {
        let own = "  bay "@ + decimal(bays[i].0 as nat) + ": "@ + bays[i].1.name() + "\n"@;
        lemma_bay_in_lines(bays, i);
        lemma_in_sum("-- Drive bays (SMART) --\n"@, bay_lines(bays), own);
        lemma_in_sum("-- Drive bays (SMART) --\n"@ + bay_lines(bays), "\n"@, own);
    }
    if 0 <= i < pools.len() {
        let own = "  "@ + padded_right(pools[i].0, 16) + " "@ + pools[i].1 + "\n"@;
        lemma_pool_in_lines(pools, i);
        lemma_in_sum("-- Pools --\n"@, pool_lines(pools), own);
        lemma_in_sum("-- Pools --\n"@ + pool_lines(pools), "\n"@, own);
    }
    if 0 <= i < fans.len() {
        let own = "  "@ + fans[i]@.line() + "\n"@;
        lemma_fan_in_lines(fans, i);
        lemma_in_sum("-- Fans --\n"@, fan_lines(fans), own);
        lemma_in_sum("-- Fans --\n"@ + fan_lines(fans), "\n"@, own);
    }
}

proof fn lemma_nic_in_lines(
    nics: Seq<NicState>,
    ips: Seq<(Seq<char>, Seq<char>)>,
    cfg: Config,
    configured: Seq<Seq<char>>,
    i: int,
)
    requires
        0 <= i < nics.len(),
    ensures
        contains_text(
            nic_lines(nics, ips, cfg, configured),
            nic_line(nics[i], ips, cfg, configured),
        ),
    decreases nics.len(),
{
    let rest = nics.drop_last();
    let own = nic_line(nics[i], ips, cfg, configured);
    lemma_in_sum(
        nic_lines(rest, ips, cfg, configured),
        nic_line(nics.last(), ips, cfg, configured),
        own,
    );
    if i < rest.len() {
        assert(rest[i] == nics[i]);
        lemma_nic_in_lines(rest, ips, cfg, configured, i);
    } else {
        lemma_in_itself(own);
    }
}

proof fn lemma_address_of(ips: Seq<(Seq<char>, Seq<char>)>, iface: Seq<char>, k: int)
    requires
        0 <= k < ips.len(),
        ips[k].0 == iface,
        forall|j: int| k < j < ips.len() ==> (#[trigger] ips[j]).0 != iface,
    ensures
        address_of(ips, iface) == Some(ips[k].1),
    decreases ips.len(),
{
    if k < ips.len() - 1 {
        let rest = ips.drop_last();
        assert(rest[k] == ips[k]);
        assert forall|j: int| k < j < rest.len() implies (#[trigger] rest[j]).0 != iface by {
            assert(rest[j] == ips[j]);
        }
        lemma_address_of(rest, iface, k);
        assert(ips[ips.len() - 1].0 != iface);
    }
}

/// Every port has its line in the section on the network: its name, its last known
/// address, whether it counts for the health of the machine, and whether its link is
/// up.
pub proof fn every_port_is_in_the_report(
    nics: Seq<NicState>,
    ips: Seq<(Seq<char>, Seq<char>)>,
    cfg: Config,
    configured: Seq<Seq<char>>,
    i: int,
    k: int,
)
    requires
        0 <= i < nics.len(),
        0 <= k < ips.len(),
        ips[k].0 == nics[i].name@,
        forall|j: int| k < j < ips.len() ==> (#[trigger] ips[j]).0 != nics[i].name@,
    ensures
        ({
            let name = nics[i].name@;
            let named = cfg.network.monitored_nics@.len() > 0;
            let counts = cfg.network.enabled && (if named {
                texts(cfg.network.monitored_nics@).contains(name)
            } else {
                configured.contains(name)
            });
            let down = nics[i].carrier is Some && trimmed(nics[i].carrier->0@) == "0"@;
            contains_text(
                network_section(nics, ips, cfg, configured),
                "  "@ + padded_right(name, 10) + " "@ + padded_right(ips[k].1, 20) + " "@ + (
                if counts {
                    "monitored"@
                } else {
                    "not monitored"@
                }) + ", link "@ + (if down {
                    "down"@
                } else {
                    "up"@
                }) + "\n"@,
            )
        }),
{
    let own = nic_line(nics[i], ips, cfg, configured);
    let all = nic_lines(nics, ips, cfg, configured);
    lemma_address_of(ips, nics[i].name@, k);
    lemma_nic_in_lines(nics, ips, cfg, configured, i);
    lemma_in_sum("-- Network --\n"@, all, own);
    lemma_in_sum("-- Network --\n"@ + all, "\n"@, own);
}

/// The report is made of its sections, each of what was read for it; the pools and the
/// status LED are those of the health summary, so that the report and the LED say the
/// same.
pub proof fn report_has_its_sections(
    state: AppView,
    fans: Seq<FanController>,
    cfg: Config,
    inputs: ReportInputs,
)
    ensures
        ({
            let text = report_text(state, fans, cfg, inputs);
            let summary = state.health(inputs.health@);
            &&& contains_text(text, fan_section(fans))
            &&& contains_text(text, temp_section(readings(inputs.temps@), cfg.temperature))
            &&& contains_text(text, pool_section(inputs.health@.pools))
            &&& contains_text(text, bay_section(inputs.bays@))
            &&& contains_text(
                text,
                network_section(
                    inputs.nics@,
                    pairs(inputs.ips@),
                    cfg,
                    inputs.health@.configured,
                ),
            )
            &&& contains_text(text, override_section(state.override_text()))
            &&& contains_text(text, status_section(summary))
        }),
{
    let summary = state.health(inputs.health@);
    let head = "=== lcm-status report ===\n\n"@;
    let a = fan_section(fans);
    let b = temp_section(readings(inputs.temps@), cfg.temperature);
    let c = pool_section(summary.pool_healths);
    let d = bay_section(inputs.bays@);
    let e = network_section(inputs.nics@, pairs(inputs.ips@), cfg, inputs.health@.configured);
    let f = override_section(state.override_text());
    let g = status_section(summary);
    lemma_in_itself(a);
    lemma_in_itself(b);
    lemma_in_itself(c);
    lemma_in_itself(d);
    lemma_in_itself(e);
    lemma_in_itself(f);
    lemma_in_itself(g);
    let s1 = head + a;
    let s2 = s1 + b;
    let s3 = s2 + c;
    let s4 = s3 + d;
    let s5 = s4 + e;
    let s6 = s5 + f;
    lemma_in_sum(head, a, a);
    lemma_in_sum(s1, b, a);
    lemma_in_sum(s1, b, b);
    lemma_in_sum(s2, c, a);
    lemma_in_sum(s2, c, b);
    lemma_in_sum(s2, c, c);
    lemma_in_sum(s3, d, a);
    lemma_in_sum(s3, d, b);
    lemma_in_sum(s3, d, c);
    lemma_in_sum(s3, d, d);
    lemma_in_sum(s4, e, a);
    lemma_in_sum(s4, e, b);
    lemma_in_sum(s4, e, c);
    lemma_in_sum(s4, e, d);
    lemma_in_sum(s4, e, e);
    lemma_in_sum(s5, f, a);
    lemma_in_sum(s5, f, b);
    lemma_in_sum(s5, f, c);
    lemma_in_sum(s5, f, d);
    lemma_in_sum(s5, f, e);
    lemma_in_sum(s5, f, f);
    lemma_in_sum(s6, g, a);
    lemma_in_sum(s6, g, b);
    lemma_in_sum(s6, g, c);
    lemma_in_sum(s6, g, d);
    lemma_in_sum(s6, g, e);
    lemma_in_sum(s6, g, f);
    lemma_in_sum(s6, g, g);
}

/// The section on the status LED names the pattern, the overall severity and what it is
/// made from.
pub proof fn status_section_names_what_counts(s: SummaryView)
    ensures
        status_section(s) == "-- Overall status LED --\n  pattern: "@ + (match s.pattern {
            StatusPattern::Healthy => "Ok"@,
            StatusPattern::Warning => "Warning"@,
            StatusPattern::Degraded => "Degraded"@,
            StatusPattern::Failed => "Failed"@,
            StatusPattern::CriticalFlashing => "CriticalFlashing"@,
        }) + "\n  severity: "@ + level_word(s.overall) + "  (fan="@ + level_word(s.fan_health)
            + " temp="@ + level_word(s.temp_level) + " network="@ + level_word(s.network_level)
            + " pool_degraded="@ + truth(s.pool_degraded) + " pool_faulted="@ + truth(
            s.pool_faulted,
        ) + " bay_failed="@ + truth(s.bay_failed) + ")\n"@,
{
}

/// The word for a level.
pub open spec fn level_word(l: Level) -> Seq<char> {
    match l {
        Level::Info => "Info"@,
        Level::Warn => "Warn"@,
        Level::Error => "Error"@,
        Level::Critical => "Critical"@,
    }
}

/// The message that shows, in words: its level, its bay where it has one, and its lines.
pub proof fn message_in_words(state: AppView)
    ensures
        state.over is None ==> override_section(state.override_text())
            == "-- Active override --\n  "@ + "none"@ + "\n\n"@,
        state.over is Some && state.over->0.bay is Some ==> state.override_text() == Some(
            level_word(state.over->0.level) + (" bay="@ + decimal(state.over->0.bay->0 as nat))
                + ": "@ + state.over->0.line0 + " / "@ + state.over->0.line1,
        ),
        state.over is Some && state.over->0.bay is None ==> state.override_text() == Some(
            level_word(state.over->0.level) + Seq::<char>::empty() + ": "@ + state.over->0.line0
                + " / "@ + state.over->0.line1,
        ),
{
}

} // verus!
