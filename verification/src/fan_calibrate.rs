//! Calibration of the fan outputs: which output drives which fan, and at which
//! outputs the fan stops and starts.
//!
//! An output is credited with a fan only where the fan's speed falls when the
//! output is lowered and comes back when it is raised: a speed that is merely
//! not zero, or still on its way from an earlier trial, proves nothing. The
//! output is then ramped down to where the fan stalls, and up to where it
//! restarts.
//!
//! Calibration is a sequence of phases. Each has an output to set and a time to
//! wait; the speeds that are read then decide on the next.
use crate::celsius::{push_raw_celsius, push_tenths_celsius, raw_celsius, tenths_celsius};
use crate::hwmon::{
    chips_view, connected_temp, inputs_view, read_temp_input, Chip, ChipView, InputView, TempInput,
};
use crate::number::{
    all_digits, decimal, is_digit, lemma_decimal_digits, parse_u32, parsed, parsed_inverts_decimal,
    push_decimal,
};
use crate::order::{sort_numbers, sorted_numbers, sorted_numbers_are_the_numbers};
use crate::text::{
    begins_with, chars, ends, finishes_with, from_chars, lemma_picked, lowered, opt_str, opt_text,
    same_caseless, starts, texts, trim, trimmed,
};
use vstd::prelude::*;
use vstd::slice::slice_subrange;

verus! {

/// The highest output.
pub const PWM_MAX: u8 = 255;

/// The output at which a fan that is really driven slows down.
pub const PWM_PROBE_LOW: u8 = 20;

/// By how much the output is lowered at a time.
pub const PWM_STEP_DOWN: u8 = 15;

/// By how much the output is raised at a time.
pub const PWM_STEP_UP: u8 = 10;

/// An output that may drive a fan.
#[derive(Debug, Clone)]
pub struct PwmCandidate {
    /// The directory of its chip.
    pub hwmon: String,
    pub chip_name: String,
    pub pwm_index: u32,
}

/// What a `PwmCandidate` holds.
pub struct CandidateView {
    pub hwmon: Seq<char>,
    pub chip_name: Seq<char>,
    pub pwm_index: u32,
}

impl View for PwmCandidate {
    type V = CandidateView;

    open spec fn view(&self) -> CandidateView {
        CandidateView {
            hwmon: self.hwmon@,
            chip_name: self.chip_name@,
            pwm_index: self.pwm_index,
        }
    }
}

/// What a sequence of candidates holds.
pub open spec fn candidates_view(s: Seq<PwmCandidate>) -> Seq<CandidateView> {
    s.map_values(|c: PwmCandidate| c@)
}

/// What calibrating an output came to.
#[derive(Debug, Clone, Copy, PartialEq, Eq, Structural)]
pub enum CalibrationResult {
    Found { fan_index: u32, min_start_pwm: u8, min_stop_pwm: u8, max_pwm_rpm: u32 },
    NoFanDetected,
}

/// Where calibration stands. The speeds are those of the chip's fans in order.
#[derive(Debug)]
pub enum Phase {
    /// The highest output, for the first time.
    ProbeHigh,
    /// A low output.
    ProbeLow { hi1: Vec<u32> },
    /// The highest output again.
    ProbeAgain { hi1: Vec<u32>, lo: Vec<u32> },
    /// Down to where the fan stalls; `min_stop` is the lowest output at which
    /// it turned so far.
    RampDown { fan: usize, max_rpm: u32, pwm: u8, min_stop: u8 },
    /// Up to where the fan restarts.
    RampUp { fan: usize, max_rpm: u32, pwm: u8, min_stop: u8 },
    Finished(CalibrationResult),
}

/// What a `Phase` holds.
pub enum PhaseView {
    ProbeHigh,
    ProbeLow { hi1: Seq<u32> },
    ProbeAgain { hi1: Seq<u32>, lo: Seq<u32> },
    RampDown { fan: int, max_rpm: u32, pwm: u8, min_stop: u8 },
    RampUp { fan: int, max_rpm: u32, pwm: u8, min_stop: u8 },
    Finished(CalibrationResult),
}

impl View for Phase {
    type V = PhaseView;

    open spec fn view(&self) -> PhaseView {
        match self {
            Phase::ProbeHigh => PhaseView::ProbeHigh,
            Phase::ProbeLow { hi1 } => PhaseView::ProbeLow { hi1: hi1@ },
            Phase::ProbeAgain { hi1, lo } => PhaseView::ProbeAgain { hi1: hi1@, lo: lo@ },
            Phase::RampDown { fan, max_rpm, pwm, min_stop } => PhaseView::RampDown {
                fan: *fan as int,
                max_rpm: *max_rpm,
                pwm: *pwm,
                min_stop: *min_stop,
            },
            Phase::RampUp { fan, max_rpm, pwm, min_stop } => PhaseView::RampUp {
                fan: *fan as int,
                max_rpm: *max_rpm,
                pwm: *pwm,
                min_stop: *min_stop,
            },
            Phase::Finished(r) => PhaseView::Finished(*r),
        }
    }
}

/// A write to one of the two files of an output.
#[derive(Debug, Clone, PartialEq, Eq)]
pub enum OutputWrite {
    /// Who controls the output.
    Mode(String),
    /// The output itself.
    Pwm(String),
}

/// What an `OutputWrite` holds.
pub enum OutputWriteView {
    Mode(Seq<char>),
    Pwm(Seq<char>),
}

impl View for OutputWrite {
    type V = OutputWriteView;

    open spec fn view(&self) -> OutputWriteView {
        match self {
            OutputWrite::Mode(v) => OutputWriteView::Mode(v@),
            OutputWrite::Pwm(v) => OutputWriteView::Pwm(v@),
        }
    }
}

/// What a sequence of writes holds.
pub open spec fn output_writes(s: Seq<OutputWrite>) -> Seq<OutputWriteView> {
    s.map_values(|w: OutputWrite| w@)
}

/// A number of a list, zero where the list is shorter.
pub open spec fn number_at(s: Seq<u32>, i: int) -> u32 {
    if 0 <= i < s.len() {
        s[i]
    } else {
        0
    }
}

/// The higher speed of a fan at the highest output.
pub open spec fn peak(hi1: Seq<u32>, hi2: Seq<u32>, i: int) -> u32 {
    if number_at(hi1, i) < number_at(hi2, i) {
        number_at(hi2, i)
    } else {
        number_at(hi1, i)
    }
}

/// Whether a fan slows down when the output is lowered.
pub open spec fn falls(hi1: Seq<u32>, lo: Seq<u32>, i: int) -> bool {
    number_at(lo, i) < number_at(hi1, i)
}

/// Whether a fan speeds up when the output is raised again.
pub open spec fn recovers(lo: Seq<u32>, hi2: Seq<u32>, i: int) -> bool {
    number_at(lo, i) < number_at(hi2, i)
}

/// Whether a fan responds to an output: it falls at the low output, to under seven
/// tenths of its peak, and recovers afterwards.
pub open spec fn responds(hi1: Seq<u32>, lo: Seq<u32>, hi2: Seq<u32>, i: int) -> bool {
    number_at(lo, i) * 10 < peak(hi1, hi2, i) * 7 && falls(hi1, lo, i) && recovers(lo, hi2, i)
}

/// By how much a fan slows down.
pub open spec fn drop_of(hi1: Seq<u32>, lo: Seq<u32>, hi2: Seq<u32>, i: int) -> int {
    peak(hi1, hi2, i) - number_at(lo, i)
}

/// The fan among the first `n` that responds and slows down most, the last where
/// some are equal.
pub open spec fn best_fan(hi1: Seq<u32>, lo: Seq<u32>, hi2: Seq<u32>, n: int) -> Option<int>
    decreases n,
{
    if n <= 0 {
        None
    } else {
        let rest = best_fan(hi1, lo, hi2, n - 1);
        if responds(hi1, lo, hi2, n - 1) && (rest matches Some(j) ==> drop_of(hi1, lo, hi2, j)
            <= drop_of(hi1, lo, hi2, n - 1)) {
            Some(n - 1)
        } else {
            rest
        }
    }
}

/// A fan is credited exactly where one responds; the one that is slows down at
/// least as much as any other that does.
pub proof fn best_fan_responds(hi1: Seq<u32>, lo: Seq<u32>, hi2: Seq<u32>, n: int)
    ensures
        match best_fan(hi1, lo, hi2, n) {
            Some(j) => 0 <= j < n && responds(hi1, lo, hi2, j) && forall|i: int|
                0 <= i < n && #[trigger] responds(hi1, lo, hi2, i) ==> drop_of(hi1, lo, hi2, i)
                    <= drop_of(hi1, lo, hi2, j),
            None => forall|i: int| 0 <= i < n ==> !#[trigger] responds(hi1, lo, hi2, i),
        },
    decreases n,
{
    if n > 0 {
        best_fan_responds(hi1, lo, hi2, n - 1);
    }
}

/// A fan whose speed does not fall when the output is lowered is never credited,
/// however fast it turns.
pub proof fn steady_fan_is_not_credited(hi1: Seq<u32>, lo: Seq<u32>, hi2: Seq<u32>, n: int, i: int)
    requires
        number_at(hi1, i) <= number_at(lo, i),
    ensures
        best_fan(hi1, lo, hi2, n) != Some(i),
{
    best_fan_responds(hi1, lo, hi2, n);
}

/// A fan whose speed does not come back when the output is raised again is never
/// credited, however far it fell: it may just be running down from an earlier
/// trial.
pub proof fn drifting_fan_is_not_credited(
    hi1: Seq<u32>,
    lo: Seq<u32>,
    hi2: Seq<u32>,
    n: int,
    i: int,
)
    requires
        number_at(hi2, i) <= number_at(lo, i),
    ensures
        best_fan(hi1, lo, hi2, n) != Some(i),
{
    best_fan_responds(hi1, lo, hi2, n);
}

/// A fan that is credited is under seven tenths of its highest speed at the low
/// output.
pub proof fn credited_fan_drops_well_under_its_peak(
    hi1: Seq<u32>,
    lo: Seq<u32>,
    hi2: Seq<u32>,
    n: int,
    i: int,
)
    requires
        best_fan(hi1, lo, hi2, n) == Some(i),
    ensures
        number_at(lo, i) * 10 < peak(hi1, hi2, i) * 7,
{
    best_fan_responds(hi1, lo, hi2, n);
}

/// The output to set in a phase, and how many milliseconds to wait.
pub open spec fn command_of(p: PhaseView) -> Option<(u8, u64)> {
    match p {
        PhaseView::ProbeHigh => Some((PWM_MAX, 2000)),
        PhaseView::ProbeLow { .. } => Some((PWM_PROBE_LOW, 3000)),
        PhaseView::ProbeAgain { .. } => Some((PWM_MAX, 3000)),
        PhaseView::RampDown { pwm, .. } => Some((pwm, 1500)),
        PhaseView::RampUp { pwm, .. } => Some((pwm, 1500)),
        PhaseView::Finished(_) => None,
    }
}

/// The next lower output.
pub open spec fn lowered_pwm(pwm: u8) -> u8 {
    if pwm < PWM_STEP_DOWN {
        0
    } else {
        (pwm - PWM_STEP_DOWN) as u8
    }
}

/// The next higher output.
pub open spec fn raised_pwm(pwm: u8) -> u8 {
    if pwm > PWM_MAX - PWM_STEP_UP {
        PWM_MAX
    } else {
        (pwm + PWM_STEP_UP) as u8
    }
}

/// An output as the lower end of a ramp: zero would mean that the fan never runs.
pub open spec fn floored(pwm: u8) -> u8 {
    if pwm < 1 {
        1
    } else {
        pwm
    }
}

/// The result for a fan.
pub open spec fn found(
    fans: Seq<u32>,
    fan: int,
    max_rpm: u32,
    min_start: u8,
    min_stop: u8,
) -> PhaseView {
    PhaseView::Finished(
        CalibrationResult::Found {
            fan_index: number_at(fans, fan),
            min_start_pwm: min_start,
            min_stop_pwm: floored(min_stop),
            max_pwm_rpm: max_rpm,
        },
    )
}

/// The phase after another, by the speeds that were read at its end. Where a fan
/// never stalls, the output to start it at means nothing, and the one that it
/// never stops at is reported as both.
pub open spec fn after(p: PhaseView, fans: Seq<u32>, rpms: Seq<u32>) -> PhaseView {
    match p {
        PhaseView::ProbeHigh => PhaseView::ProbeLow { hi1: rpms },
        PhaseView::ProbeLow { hi1 } => PhaseView::ProbeAgain { hi1, lo: rpms },
        PhaseView::ProbeAgain { hi1, lo } => match best_fan(hi1, lo, rpms, fans.len() as int) {
            Some(fan) => PhaseView::RampDown {
                fan,
                max_rpm: number_at(rpms, fan),
                pwm: lowered_pwm(PWM_MAX),
                min_stop: PWM_MAX,
            },
            None => PhaseView::Finished(CalibrationResult::NoFanDetected),
        },
        PhaseView::RampDown { fan, max_rpm, pwm, min_stop } => if number_at(rpms, fan) == 0 {
            PhaseView::RampUp { fan, max_rpm, pwm: raised_pwm(pwm), min_stop }
        } else if pwm == 0 {
            found(fans, fan, max_rpm, floored(pwm), pwm)
        } else {
            PhaseView::RampDown { fan, max_rpm, pwm: lowered_pwm(pwm), min_stop: pwm }
        },
        PhaseView::RampUp { fan, max_rpm, pwm, min_stop } => if number_at(rpms, fan) > 0 || pwm
            == PWM_MAX {
            found(fans, fan, max_rpm, pwm, min_stop)
        } else {
            PhaseView::RampUp { fan, max_rpm, pwm: raised_pwm(pwm), min_stop }
        },
        PhaseView::Finished(_) => p,
    }
}

/// The first phase. Without a tachometer no response can be seen.
pub open spec fn first_phase(fans: Seq<u32>) -> PhaseView {
    if fans.len() == 0 {
        PhaseView::Finished(CalibrationResult::NoFanDetected)
    } else {
        PhaseView::ProbeHigh
    }
}

/// An upper bound on the number of phases to come.
pub open spec fn remaining(p: PhaseView) -> nat {
    match p {
        PhaseView::ProbeHigh => 600,
        PhaseView::ProbeLow { .. } => 599,
        PhaseView::ProbeAgain { .. } => 598,
        PhaseView::RampDown { pwm, .. } => 300 + pwm as nat,
        PhaseView::RampUp { pwm, .. } => (256 - pwm) as nat,
        PhaseView::Finished(_) => 0,
    }
}

/// Calibration comes to an end: every phase brings the end closer, whatever is
/// read.
pub proof fn calibration_ends(p: PhaseView, fans: Seq<u32>, rpms: Seq<u32>)
    requires
        !(p is Finished),
    ensures
        remaining(after(p, fans, rpms)) < remaining(p),
{
}

/// The output at which a stalled fan restarts is above the one at which it
/// stalled, and a fan is never found with an output of zero as the lower end of
/// its ramp.
pub proof fn restart_is_above_stall(p: PhaseView, fans: Seq<u32>, rpms: Seq<u32>)
    ensures
        p matches PhaseView::RampDown { pwm, .. } ==> (after(p, fans, rpms) matches PhaseView::RampUp {
            pwm: up,
            ..
        } ==> up > pwm || up == PWM_MAX),
        !(p is Finished) ==> (after(p, fans, rpms) matches PhaseView::Finished(
            CalibrationResult::Found { min_stop_pwm, .. },
        ) ==> min_stop_pwm >= 1),
{
}

/// A fan that turns even at an output of zero is found with one and the same
/// output to start and to stop at, the lowest at which it runs as the end of a
/// ramp.
pub proof fn never_stalling_fan(
    fan: int,
    max_rpm: u32,
    min_stop: u8,
    fans: Seq<u32>,
    rpms: Seq<u32>,
)
    requires
        number_at(rpms, fan) > 0,
    ensures
        after(PhaseView::RampDown { fan, max_rpm, pwm: 0, min_stop }, fans, rpms)
            == PhaseView::Finished(
            CalibrationResult::Found {
                fan_index: number_at(fans, fan),
                min_start_pwm: 1,
                min_stop_pwm: 1,
                max_pwm_rpm: max_rpm,
            },
        ),
{
}

/// The writes that set an output: it is taken over first.
pub open spec fn set_writes(pwm: u8) -> Seq<OutputWriteView> {
    seq![OutputWriteView::Mode("1"@), OutputWriteView::Pwm(decimal(pwm as nat))]
}

/// The writes that put an output back to what was read of it, the output first
/// and its mode second; what could not be read is left alone.
pub open spec fn restore_writes(
    orig_pwm: Option<Seq<char>>,
    orig_enable: Option<Seq<char>>,
) -> Seq<OutputWriteView> {
    let pwm = match orig_pwm {
        Some(v) => seq![OutputWriteView::Pwm(trimmed(v))],
        None => Seq::empty(),
    };
    let mode = match orig_enable {
        Some(v) => seq![OutputWriteView::Mode(trimmed(v))],
        None => Seq::empty(),
    };
    pwm + mode
}

/// The writes of a phase: its output, or at the end what puts the output back.
/// Without a tachometer the output was never touched.
pub open spec fn phase_writes(
    p: PhaseView,
    fans: Seq<u32>,
    orig_pwm: Option<Seq<char>>,
    orig_enable: Option<Seq<char>>,
) -> Seq<OutputWriteView> {
    match command_of(p) {
        Some((pwm, _)) => set_writes(pwm),
        None => if fans.len() == 0 {
            Seq::empty()
        } else {
            restore_writes(orig_pwm, orig_enable)
        },
    }
}

/// Where calibration stands after some readings.
pub open spec fn swept(p: PhaseView, fans: Seq<u32>, readings: Seq<Seq<u32>>) -> PhaseView
    decreases readings.len(),
{
    if p is Finished || readings.len() == 0 {
        p
    } else {
        swept(after(p, fans, readings[0]), fans, readings.skip(1))
    }
}

/// All that is written from a phase on, with these readings.
pub open spec fn sweep_writes(
    p: PhaseView,
    fans: Seq<u32>,
    readings: Seq<Seq<u32>>,
    orig_pwm: Option<Seq<char>>,
    orig_enable: Option<Seq<char>>,
) -> Seq<OutputWriteView>
    decreases readings.len(),
{
    let own = phase_writes(p, fans, orig_pwm, orig_enable);
    if p is Finished || readings.len() == 0 {
        own
    } else {
        own + sweep_writes(
            after(p, fans, readings[0]),
            fans,
            readings.skip(1),
            orig_pwm,
            orig_enable,
        )
    }
}

/// Whatever is read, calibration is finished after as many readings as there are
/// phases to come at most.
pub proof fn sweep_ends(p: PhaseView, fans: Seq<u32>, readings: Seq<Seq<u32>>)
    requires
        remaining(p) <= readings.len(),
    ensures
        swept(p, fans, readings) is Finished,
    decreases readings.len(),
{
    if !(p is Finished) {
        calibration_ends(p, fans, readings[0]);
        sweep_ends(after(p, fans, readings[0]), fans, readings.skip(1));
    }
}

/// Whatever a finished sweep found, the last that it writes is what puts the
/// output back to what was read of it.
pub proof fn sweep_is_undone(
    p: PhaseView,
    fans: Seq<u32>,
    readings: Seq<Seq<u32>>,
    orig_pwm: Option<Seq<char>>,
    orig_enable: Option<Seq<char>>,
)
    requires
        fans.len() > 0,
        swept(p, fans, readings) is Finished,
    ensures
        restore_writes(orig_pwm, orig_enable).is_suffix_of(
            sweep_writes(p, fans, readings, orig_pwm, orig_enable),
        ),
    decreases readings.len(),
{
    let undo = restore_writes(orig_pwm, orig_enable);
    let all = sweep_writes(p, fans, readings, orig_pwm, orig_enable);
    if !(p is Finished) {
        let q = after(p, fans, readings[0]);
        let rest = sweep_writes(q, fans, readings.skip(1), orig_pwm, orig_enable);
        sweep_is_undone(q, fans, readings.skip(1), orig_pwm, orig_enable);
        assert(undo =~= rest.subrange(rest.len() - undo.len(), rest.len() as int));
    }
    assert(undo =~= all.subrange(all.len() - undo.len(), all.len() as int));
}

/// An output of a chip without tachometers is not touched at all.
pub proof fn output_without_tachometer_is_untouched(
    readings: Seq<Seq<u32>>,
    orig_pwm: Option<Seq<char>>,
    orig_enable: Option<Seq<char>>,
)
    ensures
        sweep_writes(first_phase(seq![]), seq![], readings, orig_pwm, orig_enable) == Seq::<
            OutputWriteView,
        >::empty(),
{
}

/// What there is to tell at the start.
pub open spec fn first_lines(fans: Seq<u32>) -> Seq<Seq<char>> {
    if fans.len() == 0 {
        seq![
            "  no tachometer inputs on this chip at all -- can't confirm a fan responds, skipping"@,
        ]
    } else {
        seq!["  probing for a real response (max -> low -> max, not just nonzero RPM)..."@]
    }
}

/// What there is to tell at the end of a phase.
pub open spec fn lines_after(p: PhaseView, fans: Seq<u32>, rpms: Seq<u32>) -> Seq<Seq<char>> {
    match p {
        PhaseView::ProbeAgain { hi1, lo } => match best_fan(hi1, lo, rpms, fans.len() as int) {
            Some(fan) => seq![
                "  fan"@ + decimal(number_at(fans, fan) as nat)
                    + " responds (confirmed causally, ~"@ + decimal(number_at(rpms, fan) as nat)
                    + " RPM at pwm=255)"@,
                "  ramping down to find min_stop_pwm (where it stalls)..."@,
            ],
            None => seq![
                "  no fan showed a real response to this pwm output (RPM didn't drop when lowered) -- skipping"@,
            ],
        },
        PhaseView::RampDown { fan, max_rpm, pwm, min_stop } => if number_at(rpms, fan) == 0 {
            seq![
                "  stalled below pwm="@ + decimal(pwm as nat) + " -- min_stop_pwm candidate: "@
                    + decimal(min_stop as nat),
                "  ramping up from stopped to find min_start_pwm (where it restarts)..."@,
            ]
        } else if pwm == 0 {
            seq![
                "  never stalled, even at pwm=0 -- this fan free-spins at any commanded"@,
                "  duty on this hardware. min_start_pwm isn't meaningful here; reporting"@,
                "  min_stop_pwm="@ + decimal(pwm as nat)
                    + " as a floor only -- sanity-check this against"@,
                "  noise/stability at low speed, don't just take the empirical zero at face value."@,
            ]
        } else {
            Seq::empty()
        },
        PhaseView::RampUp { fan, max_rpm, pwm, min_stop } => if number_at(rpms, fan) > 0 || pwm
            == PWM_MAX {
            seq![
                "  restarts at pwm="@ + decimal(pwm as nat) + " -- min_start_pwm candidate: "@
                    + decimal(pwm as nat),
            ]
        } else {
            Seq::empty()
        },
        _ => Seq::empty(),
    }
}

fn push_line(out: &mut Vec<String>, line: String)
    ensures
        texts(final(out)@) == texts(old(out)@).push(line@),
{
    out.push(line);
    assert(texts(out@) =~= texts(old(out)@).push(line@));
}

fn entry(v: &Vec<u32>, i: usize) -> (r: u32)
    ensures
        r == number_at(v@, i as int),
{
    if i < v.len() {
        v[i]
    } else {
        0
    }
}

fn find_best_fan(hi1: &Vec<u32>, lo: &Vec<u32>, hi2: &Vec<u32>, n: usize) -> (r: Option<usize>)
    ensures
        match r {
            Some(j) => best_fan(hi1@, lo@, hi2@, n as int) == Some(j as int) && j < n,
            None => best_fan(hi1@, lo@, hi2@, n as int) is None,
        },
{
    let mut best: Option<usize> = None;
    let mut best_drop: i64 = 0;
    for i in 0..n
        invariant
            match best {
                Some(j) => best_fan(hi1@, lo@, hi2@, i as int) == Some(j as int) && j < i
                    && best_drop == drop_of(hi1@, lo@, hi2@, j as int),
                None => best_fan(hi1@, lo@, hi2@, i as int) is None,
            },
    {
        let h1: u32 = entry(hi1, i);
        let h2: u32 = entry(hi2, i);
        let l: u32 = entry(lo, i);
        let high: u32 = if h1 < h2 {
            h2
        } else {
            h1
        };
        let drop: i64 = high as i64 - l as i64;
        if (l as u64) * 10 < (high as u64) * 7 && l < h1 && l < h2 {
            let better = match best {
                Some(_) => best_drop <= drop,
                None => true,
            };
            if better {
                best = Some(i);
                best_drop = drop;
            }
        }
    }
    best
}

fn floor_pwm(pwm: u8) -> (r: u8)
    ensures
        r == floored(pwm),
{
    if pwm < 1 {
        1
    } else {
        pwm
    }
}

fn result_of(fans: &Vec<u32>, fan: usize, max_rpm: u32, min_start: u8, min_stop: u8) -> (r: Phase)
    ensures
        r@ == found(fans@, fan as int, max_rpm, min_start, min_stop),
{
    Phase::Finished(
        CalibrationResult::Found {
            fan_index: entry(fans, fan),
            min_start_pwm: min_start,
            min_stop_pwm: floor_pwm(min_stop),
            max_pwm_rpm: max_rpm,
        },
    )
}

fn lower_pwm(pwm: u8) -> (r: u8)
    ensures
        r == lowered_pwm(pwm),
{
    if pwm < PWM_STEP_DOWN {
        0
    } else {
        pwm - PWM_STEP_DOWN
    }
}

fn raise_pwm(pwm: u8) -> (r: u8)
    ensures
        r == raised_pwm(pwm),
{
    if pwm > PWM_MAX - PWM_STEP_UP {
        PWM_MAX
    } else {
        pwm + PWM_STEP_UP
    }
}

fn trimmed_text(s: &str) -> (r: String)
    ensures
        r@ == trimmed(s@),
{
    let all = chars(s);
    from_chars(trim(all.as_slice()))
}

/// What puts an output back to what was read of it and of its mode.
pub fn restore(orig_pwm: Option<&str>, orig_enable: Option<&str>) -> (r: Vec<OutputWrite>)
    ensures
        output_writes(r@) == restore_writes(opt_str(orig_pwm), opt_str(orig_enable)),
{
    let mut r: Vec<OutputWrite> = Vec::new();
    if let Some(v) = orig_pwm {
        r.push(OutputWrite::Pwm(trimmed_text(v)));
    }
    if let Some(v) = orig_enable {
        r.push(OutputWrite::Mode(trimmed_text(v)));
    }
    assert(output_writes(r@) =~= restore_writes(opt_str(orig_pwm), opt_str(orig_enable)));
    r
}

impl Phase {
    /// The first phase, with what there is to tell. `fans` are the tachometers
    /// of the chip.
    pub fn first(fans: &Vec<u32>, out: &mut Vec<String>) -> (r: Self)
        ensures
            r@ == first_phase(fans@),
            texts(final(out)@) == texts(old(out)@) + first_lines(fans@),
    {
        if fans.len() == 0 {
            push_line(
                out,
                "  no tachometer inputs on this chip at all -- can't confirm a fan responds, skipping".to_owned(),
            );
            assert(texts(out@) =~= texts(old(out)@) + first_lines(fans@));
            Phase::Finished(CalibrationResult::NoFanDetected)
        } else {
            push_line(
                out,
                "  probing for a real response (max -> low -> max, not just nonzero RPM)...".to_owned(),
            );
            assert(texts(out@) =~= texts(old(out)@) + first_lines(fans@));
            Phase::ProbeHigh
        }
    }

    /// The output to set, and how many milliseconds to wait before the speeds
    /// are read; nothing at the end.
    pub fn command(&self) -> (r: Option<(u8, u64)>)
        ensures
            r == command_of(self@),
    {
        match self {
            Phase::ProbeHigh => Some((PWM_MAX, 2000)),
            Phase::ProbeLow { hi1: _ } => Some((PWM_PROBE_LOW, 3000)),
            Phase::ProbeAgain { hi1: _, lo: _ } => Some((PWM_MAX, 3000)),
            Phase::RampDown { fan: _, max_rpm: _, pwm, min_stop: _ } => Some((*pwm, 1500)),
            Phase::RampUp { fan: _, max_rpm: _, pwm, min_stop: _ } => Some((*pwm, 1500)),
            Phase::Finished(_) => None,
        }
    }

    /// What to write in this phase, before the wait: its output, or at the end
    /// what puts the output back to what was read of it before the first phase.
    pub fn writes(
        &self,
        fans: &Vec<u32>,
        orig_pwm: Option<&str>,
        orig_enable: Option<&str>,
    ) -> (r: Vec<OutputWrite>)
        ensures
            output_writes(r@) == phase_writes(
                self@,
                fans@,
                opt_str(orig_pwm),
                opt_str(orig_enable),
            ),
    {
        match self.command() {
            Some((pwm, _)) => {
                let mut value = String::new();
                push_decimal(&mut value, pwm as u64);
                assert(value@ =~= decimal(pwm as nat));
                let r = vec![OutputWrite::Mode("1".to_owned()), OutputWrite::Pwm(value)];
                assert(output_writes(r@) =~= set_writes(pwm));
                r
            },
            None => if fans.len() == 0 {
                let r: Vec<OutputWrite> = Vec::new();
                assert(output_writes(r@) =~= Seq::empty());
                r
            } else {
                restore(orig_pwm, orig_enable)
            },
        }
    }

    /// The result, at the end.
    pub fn result(&self) -> (r: Option<CalibrationResult>)
        ensures
            r == match self@ {
                PhaseView::Finished(c) => Some(c),
                _ => None,
            },
    {
        match self {
            Phase::Finished(c) => Some(*c),
            _ => None,
        }
    }

    /// The next phase, with what there is to tell. `rpms` are the speeds of
    /// `fans`, in order.
    pub fn next(self, fans: &Vec<u32>, rpms: Vec<u32>, out: &mut Vec<String>) -> (r: Self)
        ensures
            r@ == after(self@, fans@, rpms@),
            texts(final(out)@) == texts(old(out)@) + lines_after(self@, fans@, rpms@),
    {
        let ghost told = lines_after(self@, fans@, rpms@);
        assert(texts(out@) + Seq::empty() =~= texts(out@));
        match self {
            Phase::ProbeHigh => Phase::ProbeLow { hi1: rpms },
            Phase::ProbeLow { hi1 } => Phase::ProbeAgain { hi1, lo: rpms },
            Phase::ProbeAgain { hi1, lo } => Self::after_probes(fans, &hi1, &lo, &rpms, out),
            Phase::RampDown { fan, max_rpm, pwm, min_stop } => {
                if entry(&rpms, fan) == 0 {
                    tell_stall(pwm, min_stop, out);
                    assert(texts(out@) =~= texts(old(out)@) + told);
                    Phase::RampUp { fan, max_rpm, pwm: raise_pwm(pwm), min_stop }
                } else if pwm == 0 {
                    tell_no_stall(pwm, out);
                    assert(texts(out@) =~= texts(old(out)@) + told);
                    result_of(fans, fan, max_rpm, floor_pwm(pwm), pwm)
                } else {
                    Phase::RampDown { fan, max_rpm, pwm: lower_pwm(pwm), min_stop: pwm }
                }
            },
            Phase::RampUp { fan, max_rpm, pwm, min_stop } => {
                if entry(&rpms, fan) > 0 || pwm == PWM_MAX {
                    let mut line = "  restarts at pwm=".to_owned();
                    push_decimal(&mut line, pwm as u64);
                    line.append(" -- min_start_pwm candidate: ");
                    push_decimal(&mut line, pwm as u64);
                    push_line(out, line);
                    assert(texts(out@) =~= texts(old(out)@) + told);
                    result_of(fans, fan, max_rpm, pwm, min_stop)
                } else {
                    Phase::RampUp { fan, max_rpm, pwm: raise_pwm(pwm), min_stop }
                }
            },
            Phase::Finished(c) => Phase::Finished(c),
        }
    }

    fn after_probes(
        fans: &Vec<u32>,
        hi1: &Vec<u32>,
        lo: &Vec<u32>,
        hi2: &Vec<u32>,
        out: &mut Vec<String>,
    ) -> (r: Self)
        ensures
            r@ == after(PhaseView::ProbeAgain { hi1: hi1@, lo: lo@ }, fans@, hi2@),
            texts(final(out)@) == texts(old(out)@) + lines_after(
                (PhaseView::ProbeAgain { hi1: hi1@, lo: lo@ }),
                fans@,
                hi2@,
            ),
    {
        let ghost told = lines_after(
            PhaseView::ProbeAgain { hi1: hi1@, lo: lo@ },
            fans@,
            hi2@,
        );
        match find_best_fan(hi1, lo, hi2, fans.len()) {
            Some(fan) => {
                let mut line = "  fan".to_owned();
                push_decimal(&mut line, entry(fans, fan) as u64);
                line.append(" responds (confirmed causally, ~");
                push_decimal(&mut line, entry(hi2, fan) as u64);
                line.append(" RPM at pwm=255)");
                push_line(out, line);
                push_line(
                    out,
                    "  ramping down to find min_stop_pwm (where it stalls)...".to_owned(),
                );
                assert(texts(out@) =~= texts(old(out)@) + told);
                Phase::RampDown {
                    fan,
                    max_rpm: entry(hi2, fan),
                    pwm: lower_pwm(PWM_MAX),
                    min_stop: PWM_MAX,
                }
            },
            None => {
                push_line(
                    out,
                    "  no fan showed a real response to this pwm output (RPM didn't drop when lowered) -- skipping".to_owned(),
                );
                assert(texts(out@) =~= texts(old(out)@) + told);
                Phase::Finished(CalibrationResult::NoFanDetected)
            },
        }
    }
}

fn tell_stall(pwm: u8, min_stop: u8, out: &mut Vec<String>)
    ensures
        texts(final(out)@) == texts(old(out)@) + seq![
            "  stalled below pwm="@ + decimal(pwm as nat) + " -- min_stop_pwm candidate: "@
                + decimal(min_stop as nat),
            "  ramping up from stopped to find min_start_pwm (where it restarts)..."@,
        ],
{
    let mut line = "  stalled below pwm=".to_owned();
    push_decimal(&mut line, pwm as u64);
    line.append(" -- min_stop_pwm candidate: ");
    push_decimal(&mut line, min_stop as u64);
    push_line(out, line);
    push_line(
        out,
        "  ramping up from stopped to find min_start_pwm (where it restarts)...".to_owned(),
    );
    assert(texts(out@) =~= texts(old(out)@) + seq![
        "  stalled below pwm="@ + decimal(pwm as nat) + " -- min_stop_pwm candidate: "@ + decimal(
            min_stop as nat,
        ),
        "  ramping up from stopped to find min_start_pwm (where it restarts)..."@,
    ]);
}

fn tell_no_stall(pwm: u8, out: &mut Vec<String>)
    ensures
        texts(final(out)@) == texts(old(out)@) + seq![
            "  never stalled, even at pwm=0 -- this fan free-spins at any commanded"@,
            "  duty on this hardware. min_start_pwm isn't meaningful here; reporting"@,
            "  min_stop_pwm="@ + decimal(pwm as nat)
                + " as a floor only -- sanity-check this against"@,
            "  noise/stability at low speed, don't just take the empirical zero at face value."@,
        ],
{
    let ghost told = seq![
        "  never stalled, even at pwm=0 -- this fan free-spins at any commanded"@,
        "  duty on this hardware. min_start_pwm isn't meaningful here; reporting"@,
        "  min_stop_pwm="@ + decimal(pwm as nat)
            + " as a floor only -- sanity-check this against"@,
        "  noise/stability at low speed, don't just take the empirical zero at face value."@,
    ];
    push_line(
        out,
        "  never stalled, even at pwm=0 -- this fan free-spins at any commanded".to_owned(),
    );
    push_line(
        out,
        "  duty on this hardware. min_start_pwm isn't meaningful here; reporting".to_owned(),
    );
    let mut line = "  min_stop_pwm=".to_owned();
    push_decimal(&mut line, pwm as u64);
    line.append(" as a floor only -- sanity-check this against");
    push_line(out, line);
    push_line(
        out,
        "  noise/stability at low speed, don't just take the empirical zero at face value.".to_owned(),
    );
    assert(texts(out@) =~= texts(old(out)@) + told);
}

/// The number behind a prefix and before a suffix in the name of a file.
pub open spec fn numbered_file(file: Seq<char>, prefix: Seq<char>, suffix: Seq<char>) -> Option<u32> {
    let rest = file.skip(prefix.len() as int);
    let middle = rest.take(rest.len() - suffix.len());
    if begins_with(file, prefix) && finishes_with(rest, suffix) {
        match parsed(middle, u32::MAX as int) {
            Some(n) => Some(n as u32),
            None => None,
        }
    } else {
        None
    }
}

fn number_in_file(file: &str, prefix: &str, suffix: &str) -> (r: Option<u32>)
    ensures
        r == numbered_file(file@, prefix@, suffix@),
{
    let f = chars(file);
    let p = chars(prefix);
    let s = chars(suffix);
    if !starts(f.as_slice(), prefix) {
        return None;
    }
    let rest = slice_subrange(f.as_slice(), p.len(), f.len());
    assert(rest@ =~= file@.skip(prefix@.len() as int));
    if !ends(rest, suffix) {
        return None;
    }
    let middle = slice_subrange(rest, 0, rest.len() - s.len());
    assert(middle@ =~= rest@.take(rest@.len() - suffix@.len()));
    parse_u32(middle)
}

/// The output that a file stands for: its name is `pwm` and a number.
pub open spec fn pwm_of_file(file: Seq<char>) -> Option<u32> {
    if all_digits(file.skip("pwm"@.len() as int)) {
        numbered_file(file, "pwm"@, Seq::empty())
    } else {
        None
    }
}

/// The outputs that some files stand for.
pub open spec fn pwms_of_files(files: Seq<Seq<char>>) -> Seq<u32> {
    files.filter_map(|f: Seq<char>| pwm_of_file(f))
}

fn has_only_digits(s: &[char]) -> (r: bool)
    ensures
        r == all_digits(s@),
{
    for i in 0..s.len()
        invariant
            forall|j: int| 0 <= j < i ==> is_digit(#[trigger] s@[j]),
    {
        if !('0' <= s[i] && s[i] <= '9') {
            assert(!is_digit(s@[i as int]));
            return false;
        }
    }
    true
}

/// The outputs of a chip, by the names of its files, in order.
pub fn pwm_indices(files: &Vec<String>) -> (r: Vec<u32>)
    ensures
        r@ == sorted_numbers(pwms_of_files(texts(files@))),
{
    let mut r: Vec<u32> = Vec::new();
    let ghost all = texts(files@);
    assert(all.take(0) =~= Seq::empty());
    assert(r@ =~= pwms_of_files(all.take(0)));
    for i in 0..files.len()
        invariant
            all == texts(files@),
            r@ == pwms_of_files(all.take(i as int)),
    {
        assert(all.take(i + 1).drop_last() =~= all.take(i as int));
        assert(all.take(i + 1).last() == files@[i as int]@);
        let ghost before = r@;
        let empty = String::new();
        assert(empty@ =~= Seq::empty());
        if let Some(n) = number_in_file(files[i].as_str(), "pwm", empty.as_str()) {
            let f = chars(files[i].as_str());
            let p = chars("pwm");
            let rest = slice_subrange(f.as_slice(), p.len(), f.len());
            assert(rest@ =~= f@.skip("pwm"@.len() as int));
            if has_only_digits(rest) {
                r.push(n);
                assert(r@ =~= before + seq![n]);
            }
        }
    }
    assert(all.take(all.len() as int) =~= all);
    sort_numbers(&r)
}

/// The tachometers that some files stand for.
pub open spec fn fans_of_files(files: Seq<Seq<char>>) -> Seq<u32> {
    files.filter_map(|f: Seq<char>| numbered_file(f, "fan"@, "_input"@))
}

/// The tachometers of a chip, by the names of its files, in order.
pub fn fan_indices(files: &Vec<String>) -> (r: Vec<u32>)
    ensures
        r@ == sorted_numbers(fans_of_files(texts(files@))),
{
    let mut r: Vec<u32> = Vec::new();
    let ghost all = texts(files@);
    assert(all.take(0) =~= Seq::empty());
    assert(r@ =~= fans_of_files(all.take(0)));
    for i in 0..files.len()
        invariant
            all == texts(files@),
            r@ == fans_of_files(all.take(i as int)),
    {
        assert(all.take(i + 1).drop_last() =~= all.take(i as int));
        assert(all.take(i + 1).last() == files@[i as int]@);
        let ghost before = r@;
        if let Some(n) = number_in_file(files[i].as_str(), "fan", "_input") {
            r.push(n);
            assert(r@ =~= before + seq![n]);
        }
    }
    assert(all.take(all.len() as int) =~= all);
    sort_numbers(&r)
}

/// A chip and the names of its files.
#[derive(Debug, Clone)]
pub struct ChipFiles {
    pub hwmon: String,
    pub chip_name: String,
    pub files: Vec<String>,
}

/// The outputs of a chip as candidates.
pub open spec fn chip_candidates(c: ChipFiles) -> Seq<CandidateView> {
    sorted_numbers(pwms_of_files(texts(c.files@))).map_values(
        |n: u32| CandidateView { hwmon: c.hwmon@, chip_name: c.chip_name@, pwm_index: n },
    )
}

/// The outputs of some chips as candidates. A chip without a name is none.
pub open spec fn candidates_of(chips: Seq<ChipFiles>) -> Seq<CandidateView>
    decreases chips.len(),
{
    if chips.len() == 0 {
        Seq::empty()
    } else if chips.last().chip_name@.len() == 0 {
        candidates_of(chips.drop_last())
    } else {
        candidates_of(chips.drop_last()) + chip_candidates(chips.last())
    }
}

/// The outputs that may drive a fan.
pub fn find_pwm_candidates(chips: &Vec<ChipFiles>) -> (r: Vec<PwmCandidate>)
    ensures
        candidates_view(r@) == candidates_of(chips@),
{
    let mut r: Vec<PwmCandidate> = Vec::new();
    assert(chips@.take(0) =~= Seq::empty());
    assert(candidates_view(r@) =~= candidates_of(chips@.take(0)));
    for i in 0..chips.len()
        invariant
            candidates_view(r@) == candidates_of(chips@.take(i as int)),
    {
        assert(chips@.take(i + 1).drop_last() =~= chips@.take(i as int));
        assert(chips@.take(i + 1).last() == chips@[i as int]);
        if chars(chips[i].chip_name.as_str()).len() > 0 {
            push_chip_candidates(&mut r, &chips[i]);
        }
    }
    assert(chips@.take(chips@.len() as int) =~= chips@);
    r
}

fn push_chip_candidates(out: &mut Vec<PwmCandidate>, chip: &ChipFiles)
    ensures
        candidates_view(final(out)@) == candidates_view(old(out)@) + chip_candidates(*chip),
{
    let indices = pwm_indices(&chip.files);
    let ghost all = chip_candidates(*chip);
    for i in 0..indices.len()
        invariant
            all == chip_candidates(*chip),
            indices@ == sorted_numbers(pwms_of_files(texts(chip.files@))),
            candidates_view(out@) == candidates_view(old(out)@) + all.take(i as int),
    {
        let ghost before = candidates_view(out@);
        out.push(
            PwmCandidate {
                hwmon: chip.hwmon.clone(),
                chip_name: chip.chip_name.clone(),
                pwm_index: indices[i],
            },
        );
        assert(candidates_view(out@) =~= before.push(all[i as int]));
        assert(candidates_view(out@) =~= candidates_view(old(out)@) + all.take(i + 1));
    }
    assert(all.take(all.len() as int) =~= all);
}

/// A candidate in words.
pub open spec fn candidate_text(c: CandidateView) -> Seq<char> {
    c.chip_name + " pwm"@ + decimal(c.pwm_index as nat)
}

fn push_candidate(out: &mut String, c: &PwmCandidate)
    ensures
        final(out)@ == old(out)@ + candidate_text(c@),
{
    out.append(c.chip_name.as_str());
    out.append(" pwm");
    push_decimal(out, c.pwm_index as u64);
    assert(out@ =~= old(out)@ + candidate_text(c@));
}

/// A result in a line.
pub open spec fn result_text(c: CandidateView, r: CalibrationResult) -> Seq<char> {
    match r {
        CalibrationResult::Found { fan_index, min_start_pwm, min_stop_pwm, max_pwm_rpm } => "  "@
            + candidate_text(c) + " -> fan"@ + decimal(fan_index as nat) + ": min_start_pwm="@
            + decimal(min_start_pwm as nat) + " min_stop_pwm="@ + decimal(min_stop_pwm as nat)
            + " (max ~"@ + decimal(max_pwm_rpm as nat) + " RPM)"@,
        CalibrationResult::NoFanDetected => "  "@ + candidate_text(c)
            + " -> no fan responded, skipping"@,
    }
}

/// A result in a line.
pub fn result_line(c: &PwmCandidate, result: CalibrationResult) -> (r: String)
    ensures
        r@ == result_text(c@, result),
{
    let mut r = "  ".to_owned();
    push_candidate(&mut r, c);
    match result {
        CalibrationResult::Found { fan_index, min_start_pwm, min_stop_pwm, max_pwm_rpm } => {
            r.append(" -> fan");
            push_decimal(&mut r, fan_index as u64);
            r.append(": min_start_pwm=");
            push_decimal(&mut r, min_start_pwm as u64);
            r.append(" min_stop_pwm=");
            push_decimal(&mut r, min_stop_pwm as u64);
            r.append(" (max ~");
            push_decimal(&mut r, max_pwm_rpm as u64);
            r.append(" RPM)");
        },
        CalibrationResult::NoFanDetected => r.append(" -> no fan responded, skipping"),
    }
    r
}

/// The name that is proposed for a fan.
pub open spec fn proposed_name(index: nat) -> Seq<char> {
    if index == 0 {
        "chassis"@
    } else {
        "fan"@ + decimal(index)
    }
}

/// The settings that are proposed for a fan.
pub open spec fn proposed_settings(
    index: nat,
    c: CandidateView,
    fan_index: u32,
    min_start_pwm: u8,
    min_stop_pwm: u8,
) -> Seq<char> {
    "[[fans]]\nname = \""@ + proposed_name(index) + "\"\npwm_chip = \""@ + c.chip_name
        + "\"\npwm_index = "@ + decimal(c.pwm_index as nat) + "\nfan_index = "@ + decimal(
        fan_index as nat,
    ) + "\nupdate_secs = 1\nmin_temp_c = 45.0\nmax_temp_c = 90.0\nmin_start_pwm = "@ + decimal(
        min_start_pwm as nat,
    ) + "\nmin_stop_pwm = "@ + decimal(min_stop_pwm as nat) + "\nmin_pwm = "@ + decimal(
        min_stop_pwm as nat,
    )
        + "\nmax_pwm = 255\nsensors = []  # fill in from the sensor inventory above, e.g.:\n# [[fans.sensors]]\n# chip = \"coretemp\"\n# label = \"Package\"\n\n"@
}

/// The settings that are proposed for a fan: a block for the configuration file.
/// Which temperatures and which sensors to use is not for a sweep to say.
pub fn proposed_toml(
    index: usize,
    c: &PwmCandidate,
    fan_index: u32,
    min_start_pwm: u8,
    min_stop_pwm: u8,
) -> (r: String)
    ensures
        r@ == proposed_settings(index as nat, c@, fan_index, min_start_pwm, min_stop_pwm),
{
    let mut r = "[[fans]]\nname = \"".to_owned();
    let mut name = String::new();
    if index == 0 {
        name.append("chassis");
    } else {
        name.append("fan");
        push_decimal(&mut name, index as u64);
    }
    assert(name@ =~= proposed_name(index as nat));
    r.append(name.as_str());
    r.append("\"\npwm_chip = \"");
    r.append(c.chip_name.as_str());
    r.append("\"\npwm_index = ");
    push_decimal(&mut r, c.pwm_index as u64);
    r.append("\nfan_index = ");
    push_decimal(&mut r, fan_index as u64);
    r.append("\nupdate_secs = 1\nmin_temp_c = 45.0\nmax_temp_c = 90.0\nmin_start_pwm = ");
    push_decimal(&mut r, min_start_pwm as u64);
    r.append("\nmin_stop_pwm = ");
    push_decimal(&mut r, min_stop_pwm as u64);
    r.append("\nmin_pwm = ");
    push_decimal(&mut r, min_stop_pwm as u64);
    r.append(
        "\nmax_pwm = 255\nsensors = []  # fill in from the sensor inventory above, e.g.:\n# [[fans.sensors]]\n# chip = \"coretemp\"\n# label = \"Package\"\n\n",
    );
    r
}

/// The label of an input in quotes, with a space before it, nothing where it has
/// none.
pub open spec fn quoted_label(label: Option<Seq<char>>) -> Seq<char> {
    match label {
        Some(l) => if trimmed(l).len() > 0 {
            " \""@ + trimmed(l) + "\""@
        } else {
            Seq::empty()
        },
        None => Seq::empty(),
    }
}

/// An input in the inventory of the sensors.
pub open spec fn inventory_text(chip: Seq<char>, input: InputView) -> Seq<char> {
    match connected_temp(input.fault, input.value) {
        Some(t) => "  [connected]    "@ + chip + " "@ + input.name + quoted_label(input.label)
            + ": "@ + tenths_celsius(t as int) + "C"@,
        None => "  [unconnected]  "@ + chip + " "@ + input.name + quoted_label(input.label) + ": "@
            + (match input.raw {
            Some(t) => raw_celsius(t as int) + "C raw"@,
            None => "unreadable"@,
        }) + " (fault flag set, or outside plausible range)"@,
    }
}

/// An input in the inventory of the sensors: what it reads, or why it does not
/// count as connected.
pub fn inventory_line(chip: &str, input: &TempInput) -> (r: String)
    ensures
        r@ == inventory_text(chip@, input@),
{
    let connected = read_temp_input(&input.fault, input.value);
    let mut r = match connected {
        Some(_) => "  [connected]    ".to_owned(),
        None => "  [unconnected]  ".to_owned(),
    };
    r.append(chip);
    r.append(" ");
    r.append(input.name.as_str());
    let ghost before = r@;
    if let Some(l) = &input.label {
        let v = chars(l.as_str());
        let t = trim(v.as_slice());
        if t.len() > 0 {
            r.append(" \"");
            r.append(from_chars(t).as_str());
            r.append("\"");
        }
    }
    assert(r@ =~= before + quoted_label(opt_text(input.label)));
    r.append(": ");
    match connected {
        Some(t) => {
            push_tenths_celsius(&mut r, t);
            r.append("C");
        },
        None => {
            let ghost before = r@;
            match input.raw {
                Some(t) => {
                    push_raw_celsius(&mut r, t);
                    r.append("C raw");
                },
                None => r.append("unreadable"),
            }
            assert(r@ =~= before + match input.raw {
                Some(t) => raw_celsius(t as int) + "C raw"@,
                None => "unreadable"@,
            });
            r.append(" (fault flag set, or outside plausible range)");
        },
    }
    r
}

/// The outputs that were found, one in each line.
pub open spec fn output_lines(cs: Seq<PwmCandidate>) -> Seq<char>
    decreases cs.len(),
{
    if cs.len() == 0 {
        Seq::empty()
    } else {
        output_lines(cs.drop_last()) + ("  "@ + candidate_text(cs.last()@) + " (chip at "@
            + cs.last().hwmon@ + ")\n"@)
    }
}

/// What is told before the sweep.
pub open spec fn opening(cs: Seq<PwmCandidate>) -> Seq<char> {
    if cs.len() == 0 {
        "No pwm-capable hwmon chips found. Nothing to calibrate.\n"@
    } else {
        "== PWM outputs found ==\n"@ + output_lines(cs) + "\nAbout to sweep "@ + decimal(cs.len())
            + " pwm output(s) to find which fans respond and their\nreal min-start/min-stop PWM. Each fan will briefly ramp through its full\nrange (roughly 30-60s per output) -- normal, expected, not a malfunction.\n\n"@
    }
}

/// What is told before the sweep.
pub fn opening_text(cs: &Vec<PwmCandidate>) -> (r: String)
    ensures
        r@ == opening(cs@),
{
    if cs.len() == 0 {
        return "No pwm-capable hwmon chips found. Nothing to calibrate.\n".to_owned();
    }
    let mut lines = String::new();
    assert(cs@.take(0) =~= Seq::empty());
    assert(lines@ =~= Seq::empty());
    for i in 0..cs.len()
        invariant
            lines@ == output_lines(cs@.take(i as int)),
    {
        assert(cs@.take(i + 1).drop_last() =~= cs@.take(i as int));
        assert(cs@.take(i + 1).last() == cs@[i as int]);
        lines.append("  ");
        push_candidate(&mut lines, &cs[i]);
        lines.append(" (chip at ");
        lines.append(cs[i].hwmon.as_str());
        lines.append(")\n");
        assert(lines@ =~= output_lines(cs@.take(i + 1)));
    }
    assert(cs@.take(cs@.len() as int) =~= cs@);
    let mut r = "== PWM outputs found ==\n".to_owned();
    r.append(lines.as_str());
    r.append("\nAbout to sweep ");
    push_decimal(&mut r, cs.len() as u64);
    r.append(
        " pwm output(s) to find which fans respond and their\nreal min-start/min-stop PWM. Each fan will briefly ramp through its full\nrange (roughly 30-60s per output) -- normal, expected, not a malfunction.\n\n",
    );
    r
}

/// The results, one in each line.
pub open spec fn result_lines(rs: Seq<(PwmCandidate, CalibrationResult)>) -> Seq<char>
    decreases rs.len(),
{
    if rs.len() == 0 {
        Seq::empty()
    } else {
        result_lines(rs.drop_last()) + (result_text(rs.last().0@, rs.last().1) + "\n"@)
    }
}

/// Whether some fan was found.
pub open spec fn some_fan_found(rs: Seq<(PwmCandidate, CalibrationResult)>) -> bool {
    exists|i: int| 0 <= i < rs.len() && (#[trigger] rs[i]).1 is Found
}

/// The settings that are proposed for the fans that were found. Each is
/// numbered by its place among all outputs.
pub open spec fn proposals(rs: Seq<(PwmCandidate, CalibrationResult)>) -> Seq<char>
    decreases rs.len(),
{
    if rs.len() == 0 {
        Seq::empty()
    } else {
        proposals(rs.drop_last()) + match rs.last().1 {
            CalibrationResult::Found { fan_index, min_start_pwm, min_stop_pwm, .. } => {
                proposed_settings(
                    (rs.len() - 1) as nat,
                    rs.last().0@,
                    fan_index,
                    min_start_pwm,
                    min_stop_pwm,
                )
            },
            CalibrationResult::NoFanDetected => Seq::empty(),
        }
    }
}

/// What is told after the sweep.
pub open spec fn closing(rs: Seq<(PwmCandidate, CalibrationResult)>, config_path: Seq<char>) -> Seq<
    char,
> {
    "\n== Results ==\n"@ + result_lines(rs) + (if some_fan_found(rs) {
        "\n== Proposed config (review before using -- see comments) ==\n\n"@ + proposals(rs)
            + "# min_temp_c/max_temp_c above are this project's previous defaults, not\n# something a PWM sweep can determine -- adjust for your own thermal\n# preferences. Pick `sensors` from the inventory printed above (chip name\n# is enough for most; add `label`/`input` to narrow a multi-sensor chip).\n\nAppend the block(s) above to "@
            + config_path
            + " under `[[fans]]`,\nor replace its existing `[[fans]]` entries, then restart lcm-status.service.\n"@
    } else {
        "\nNo fans detected on any pwm output. Nothing to propose.\n"@
    })
}

fn has_found_fan(rs: &Vec<(PwmCandidate, CalibrationResult)>) -> (r: bool)
    ensures
        r == some_fan_found(rs@),
{
    for i in 0..rs.len()
        invariant
            forall|j: int| 0 <= j < i ==> !((#[trigger] rs@[j]).1 is Found),
    {
        if let CalibrationResult::Found {
            fan_index: _,
            min_start_pwm: _,
            min_stop_pwm: _,
            max_pwm_rpm: _,
        } = rs[i].1 {
            assert(rs@[i as int].1 is Found);
            return true;
        }
    }
    false
}

fn result_list(rs: &Vec<(PwmCandidate, CalibrationResult)>) -> (r: String)
    ensures
        r@ == result_lines(rs@),
{
    let mut r = String::new();
    assert(rs@.take(0) =~= Seq::empty());
    assert(r@ =~= Seq::empty());
    for i in 0..rs.len()
        invariant
            r@ == result_lines(rs@.take(i as int)),
    {
        assert(rs@.take(i + 1).drop_last() =~= rs@.take(i as int));
        assert(rs@.take(i + 1).last() == rs@[i as int]);
        r.append(result_line(&rs[i].0, rs[i].1).as_str());
        r.append("\n");
        assert(r@ =~= result_lines(rs@.take(i + 1)));
    }
    assert(rs@.take(rs@.len() as int) =~= rs@);
    r
}

fn proposal_list(rs: &Vec<(PwmCandidate, CalibrationResult)>) -> (r: String)
    ensures
        r@ == proposals(rs@),
{
    let mut r = String::new();
    assert(rs@.take(0) =~= Seq::empty());
    assert(r@ =~= Seq::empty());
    for i in 0..rs.len()
        invariant
            r@ == proposals(rs@.take(i as int)),
    {
        assert(rs@.take(i + 1).drop_last() =~= rs@.take(i as int));
        assert(rs@.take(i + 1).last() == rs@[i as int]);
        let ghost before = r@;
        if let CalibrationResult::Found { fan_index, min_start_pwm, min_stop_pwm, max_pwm_rpm: _ } =
            rs[i].1 {
            r.append(proposed_toml(i, &rs[i].0, fan_index, min_start_pwm, min_stop_pwm).as_str());
        } else {
            assert(before + Seq::<char>::empty() =~= before);
        }
        assert(r@ =~= proposals(rs@.take(i + 1)));
    }
    assert(rs@.take(rs@.len() as int) =~= rs@);
    r
}

/// What is told after the sweep: the results, and the settings that are
/// proposed.
pub fn closing_text(rs: &Vec<(PwmCandidate, CalibrationResult)>, config_path: &str) -> (r: String)
    ensures
        r@ == closing(rs@, config_path@),
{
    let mut tail;
    if has_found_fan(rs) {
        tail = "\n== Proposed config (review before using -- see comments) ==\n\n".to_owned();
        tail.append(proposal_list(rs).as_str());
        tail.append(
            "# min_temp_c/max_temp_c above are this project's previous defaults, not\n# something a PWM sweep can determine -- adjust for your own thermal\n# preferences. Pick `sensors` from the inventory printed above (chip name\n# is enough for most; add `label`/`input` to narrow a multi-sensor chip).\n\nAppend the block(s) above to ",
        );
        tail.append(config_path);
        tail.append(
            " under `[[fans]]`,\nor replace its existing `[[fans]]` entries, then restart lcm-status.service.\n",
        );
    } else {
        tail = "\nNo fans detected on any pwm output. Nothing to propose.\n".to_owned();
    }
    let mut r = "\n== Results ==\n".to_owned();
    r.append(result_list(rs).as_str());
    r.append(tail.as_str());
    r
}

/// The inventory of the inputs of a chip.
pub open spec fn chip_inventory(chip: Seq<char>, inputs: Seq<InputView>) -> Seq<char>
    decreases inputs.len(),
{
    if inputs.len() == 0 {
        Seq::empty()
    } else {
        chip_inventory(chip, inputs.drop_last()) + (inventory_text(chip, inputs.last()) + "\n"@)
    }
}

/// The inventory of the inputs of some chips.
pub open spec fn chips_inventory(chips: Seq<ChipView>) -> Seq<char>
    decreases chips.len(),
{
    if chips.len() == 0 {
        Seq::empty()
    } else {
        chips_inventory(chips.drop_last()) + chip_inventory(chips.last().name, chips.last().inputs)
    }
}

/// The inventory of all temperature inputs.
pub open spec fn inventory(chips: Seq<ChipView>) -> Seq<char> {
    "== Temp sensors found ==\n"@ + (if chips_inventory(chips).len() == 0 {
        "  (none found)\n"@
    } else {
        chips_inventory(chips)
    }) + "\n"@
}

fn push_chip_inventory(out: &mut String, chip: &Chip)
    ensures
        final(out)@ == old(out)@ + chip_inventory(chip@.name, chip@.inputs),
{
    let ghost all = chip@.inputs;
    assert(all.take(0) =~= Seq::empty());
    assert(out@ =~= old(out)@ + chip_inventory(chip@.name, all.take(0)));
    for i in 0..chip.inputs.len()
        invariant
            all == inputs_view(chip.inputs@),
            out@ == old(out)@ + chip_inventory(chip@.name, all.take(i as int)),
    {
        assert(all.take(i + 1).drop_last() =~= all.take(i as int));
        assert(all.take(i + 1).last() == chip.inputs@[i as int]@);
        out.append(inventory_line(chip.name.as_str(), &chip.inputs[i]).as_str());
        out.append("\n");
        assert(out@ =~= old(out)@ + chip_inventory(chip@.name, all.take(i + 1)));
    }
    assert(all.take(all.len() as int) =~= all);
}

/// The inventory of all temperature inputs: what each reads, or why it does not
/// count as connected.
pub fn sensor_inventory(chips: &Vec<Chip>) -> (r: String)
    ensures
        r@ == inventory(chips_view(chips@)),
{
    let mut body = String::new();
    let ghost all = chips_view(chips@);
    assert(all.take(0) =~= Seq::empty());
    assert(body@ =~= chips_inventory(all.take(0)));
    for i in 0..chips.len()
        invariant
            all == chips_view(chips@),
            body@ == chips_inventory(all.take(i as int)),
    {
        assert(all.take(i + 1).drop_last() =~= all.take(i as int));
        assert(all.take(i + 1).last() == chips@[i as int]@);
        push_chip_inventory(&mut body, &chips[i]);
    }
    assert(all.take(all.len() as int) =~= all);
    let mut r = "== Temp sensors found ==\n".to_owned();
    if chars(body.as_str()).len() == 0 {
        r.append("  (none found)\n");
    } else {
        r.append(body.as_str());
    }
    r.append("\n");
    r
}

/// Whether an answer means yes.
pub fn is_yes(answer: &str) -> (r: bool)
    ensures
        r == (lowered(trimmed(answer@)) == lowered("y"@) || lowered(trimmed(answer@)) == lowered(
            "yes"@,
        )),
{
    let v = chars(answer);
    let t = trim(v.as_slice());
    same_caseless(t, "y") || same_caseless(t, "yes")
}

/// Whether a fan moved with the output: at the low output it was slower than at the
/// highest before, slower than at the highest after, and under seven tenths of the
/// higher of these two.
pub open spec fn moved_with_output(hi1: u32, lo: u32, hi2: u32) -> bool {
    lo < hi1 && lo < hi2 && (lo * 10 < hi1 * 7 || lo * 10 < hi2 * 7)
}

/// How far a fan fell from the higher of its two speeds at the highest output.
pub open spec fn fall_of(hi1: u32, lo: u32, hi2: u32) -> int {
    if hi1 < hi2 {
        hi2 - lo
    } else {
        hi1 - lo
    }
}

/// What the probes decided on lasts to the end of the sweep.
spec fn credits(
    p: PhaseView,
    fans: Seq<u32>,
    hi1: Seq<u32>,
    lo: Seq<u32>,
    hi2: Seq<u32>,
) -> bool {
    let best = best_fan(hi1, lo, hi2, fans.len() as int);
    match p {
        PhaseView::RampDown { fan, max_rpm, .. } => best == Some(fan) && max_rpm == number_at(
            hi2,
            fan,
        ),
        PhaseView::RampUp { fan, max_rpm, .. } => best == Some(fan) && max_rpm == number_at(
            hi2,
            fan,
        ),
        PhaseView::Finished(CalibrationResult::Found { fan_index, max_pwm_rpm, .. }) => best is Some
            && fan_index == number_at(fans, best->0) && max_pwm_rpm == number_at(hi2, best->0),
        PhaseView::Finished(CalibrationResult::NoFanDetected) => best is None,
        _ => false,
    }
}

proof fn lemma_credit_lasts(
    p: PhaseView,
    fans: Seq<u32>,
    readings: Seq<Seq<u32>>,
    hi1: Seq<u32>,
    lo: Seq<u32>,
    hi2: Seq<u32>,
)
    requires
        credits(p, fans, hi1, lo, hi2),
    ensures
        credits(swept(p, fans, readings), fans, hi1, lo, hi2),
    decreases readings.len(),
{
    if !(p is Finished) && readings.len() > 0 {
        lemma_credit_lasts(
            after(p, fans, readings[0]),
            fans,
            readings.skip(1),
            hi1,
            lo,
            hi2,
        );
    }
}

/// The first three readings are those of the probes.
proof fn lemma_probes(fans: Seq<u32>, readings: Seq<Seq<u32>>)
    requires
        fans.len() > 0,
        readings.len() >= 3,
    ensures
        swept(first_phase(fans), fans, readings) == swept(
            after(
                PhaseView::ProbeAgain { hi1: readings[0], lo: readings[1] },
                fans,
                readings[2],
            ),
            fans,
            readings.skip(3),
        ),
{
    let (a, b) = (readings.skip(1), readings.skip(1).skip(1));
    assert(a[0] == readings[1]);
    assert(b[0] == readings[2]);
    assert(b.skip(1) =~= readings.skip(3));
    let p1 = PhaseView::ProbeLow { hi1: readings[0] };
    let p2 = PhaseView::ProbeAgain { hi1: readings[0], lo: readings[1] };
    assert(swept(PhaseView::ProbeHigh, fans, readings) == swept(p1, fans, a));
    assert(swept(p1, fans, a) == swept(p2, fans, b));
}

proof fn lemma_best_is_last(hi1: Seq<u32>, lo: Seq<u32>, hi2: Seq<u32>, n: int, i: int)
    requires
        0 <= i < n,
        responds(hi1, lo, hi2, i),
    ensures
        best_fan(hi1, lo, hi2, n) matches Some(j) && (i > j ==> drop_of(hi1, lo, hi2, i) < drop_of(
            hi1,
            lo,
            hi2,
            j,
        )),
    decreases n,
{
    best_fan_responds(hi1, lo, hi2, n);
    best_fan_responds(hi1, lo, hi2, n - 1);
    if i < n - 1 {
        lemma_best_is_last(hi1, lo, hi2, n - 1, i);
    }
}

/// Which fan a sweep names, whatever is read after the probes: the tachometer of one
/// that moved with the output, of which none fell further, and the last of those that
/// fell as far; with its speed at the highest output. Where none moved with the
/// output, none is named, and where one did, one is.
pub proof fn sweep_names_the_fan_that_moved(fans: Seq<u32>, readings: Seq<Seq<u32>>)
    requires
        fans.len() > 0,
        readings.len() >= 3,
        swept(first_phase(fans), fans, readings) is Finished,
    ensures
        ({
            let (hi1, lo, hi2) = (readings[0], readings[1], readings[2]);
            match swept(first_phase(fans), fans, readings)->Finished_0 {
                CalibrationResult::Found { fan_index, max_pwm_rpm, .. } => exists|j: int|
                    0 <= j < fans.len() && best_fan(hi1, lo, hi2, fans.len() as int) == Some(j)
                        && fan_index == (#[trigger] fans[j]) && max_pwm_rpm == number_at(hi2, j)
                        && moved_with_output(
                        number_at(hi1, j),
                        number_at(lo, j),
                        number_at(hi2, j),
                    ) && forall|i: int|
                        #![trigger number_at(lo, i)]
                        0 <= i < fans.len() && moved_with_output(
                            number_at(hi1, i),
                            number_at(lo, i),
                            number_at(hi2, i),
                        ) ==> ({
                            let own = fall_of(number_at(hi1, i), number_at(lo, i), number_at(hi2, i));
                            let best = fall_of(
                                number_at(hi1, j),
                                number_at(lo, j),
                                number_at(hi2, j),
                            );
                            own <= best && (i > j ==> own < best)
                        }),
                CalibrationResult::NoFanDetected => forall|i: int|
                    #![trigger number_at(lo, i)]
                    0 <= i < fans.len() ==> !moved_with_output(
                        number_at(hi1, i),
                        number_at(lo, i),
                        number_at(hi2, i),
                    ),
            }
        }),
{
    let (hi1, lo, hi2) = (readings[0], readings[1], readings[2]);
    let n = fans.len() as int;
    lemma_probes(fans, readings);
    let p = after(PhaseView::ProbeAgain { hi1, lo }, fans, hi2);
    lemma_credit_lasts(p, fans, readings.skip(3), hi1, lo, hi2);
    best_fan_responds(hi1, lo, hi2, n);
    assert forall|i: int| #![trigger number_at(lo, i)] responds(hi1, lo, hi2, i)
        == moved_with_output(number_at(hi1, i), number_at(lo, i), number_at(hi2, i)) by {}
    match best_fan(hi1, lo, hi2, n) {
        Some(j) => {
            assert(fans[j] == number_at(fans, j));
            assert forall|i: int|
                #![trigger number_at(lo, i)]
                0 <= i < fans.len() && moved_with_output(
                    number_at(hi1, i),
                    number_at(lo, i),
                    number_at(hi2, i),
                ) implies ({
                let own = fall_of(number_at(hi1, i), number_at(lo, i), number_at(hi2, i));
                let best = fall_of(number_at(hi1, j), number_at(lo, j), number_at(hi2, j));
                own <= best && (i > j ==> own < best)
            }) by {
                assert(responds(hi1, lo, hi2, i));
                lemma_best_is_last(hi1, lo, hi2, n, i);
            }
        },
        None => {
            assert forall|i: int|
                #![trigger number_at(lo, i)]
                0 <= i < fans.len() implies !moved_with_output(
                number_at(hi1, i),
                number_at(lo, i),
                number_at(hi2, i),
            ) by {
                assert(!responds(hi1, lo, hi2, i));
            }
        },
    }
}

proof fn lemma_down(j: int, max_rpm: u32, fans: Seq<u32>, rs: Seq<Seq<u32>>, k: int)
    requires
        0 <= k <= 16,
        k <= rs.len(),
        forall|i: int| 0 <= i < k ==> number_at(#[trigger] rs[i], j) > 0,
    ensures
        swept(PhaseView::RampDown { fan: j, max_rpm, pwm: 240, min_stop: 255 }, fans, rs) == swept(
            PhaseView::RampDown {
                fan: j,
                max_rpm,
                pwm: (240 - 15 * k) as u8,
                min_stop: (255 - 15 * k) as u8,
            },
            fans,
            rs.skip(k),
        ),
    decreases k,
{
    if k == 0 {
        assert(rs.skip(0) =~= rs);
    } else {
        lemma_down(j, max_rpm, fans, rs, k - 1);
        let t = rs.skip(k - 1);
        assert(t[0] == rs[k - 1]);
        assert(number_at(rs[k - 1], j) > 0);
        assert(t.skip(1) =~= rs.skip(k));
    }
}

/// The output on the way up, `m` steps after the one at `from`.
pub open spec fn on_the_way_up(from: int, m: int) -> int {
    if from + 10 * m > 255 {
        255
    } else {
        from + 10 * m
    }
}

proof fn lemma_up(
    j: int,
    max_rpm: u32,
    min_stop: u8,
    from: int,
    fans: Seq<u32>,
    rs: Seq<Seq<u32>>,
    m: int,
)
    requires
        0 <= from <= 240,
        0 <= m <= rs.len(),
        forall|i: int|
            0 <= i < m ==> number_at(#[trigger] rs[i], j) == 0 && on_the_way_up(from, i + 1) < 255,
    ensures
        swept(
            PhaseView::RampUp {
                fan: j,
                max_rpm,
                pwm: on_the_way_up(from, 1) as u8,
                min_stop,
            },
            fans,
            rs,
        ) == swept(
            PhaseView::RampUp {
                fan: j,
                max_rpm,
                pwm: on_the_way_up(from, m + 1) as u8,
                min_stop,
            },
            fans,
            rs.skip(m),
        ),
    decreases m,
{
    if m == 0 {
        assert(rs.skip(0) =~= rs);
    } else {
        lemma_up(j, max_rpm, min_stop, from, fans, rs, m - 1);
        let t = rs.skip(m - 1);
        assert(t[0] == rs[m - 1]);
        assert(number_at(rs[m - 1], j) == 0 && on_the_way_up(from, m) < 255);
        assert(t.skip(1) =~= rs.skip(m));
    }
}

/// What a sweep measures of a fan that stalls. The output goes down from 240 in steps
/// of 15; the fan turns in the first `k` of them and stands still in the next. The
/// output then goes up in steps of 10, up to 255; the fan stands still in the first
/// `m` of these and turns again in the next, or the output is at its highest. Then the
/// lowest output at which it turned on the way down is reported, and the one at which
/// it turned again.
pub proof fn stall_and_restart_are_measured(
    fans: Seq<u32>,
    readings: Seq<Seq<u32>>,
    j: int,
    k: int,
    m: int,
)
    requires
        fans.len() > 0,
        best_fan(readings[0], readings[1], readings[2], fans.len() as int) == Some(j),
        0 <= k <= 16,
        0 <= m,
        readings.len() > 4 + k + m,
        forall|i: int| 3 <= i < 3 + k ==> number_at(#[trigger] readings[i], j) > 0,
        number_at(readings[3 + k], j) == 0,
        forall|i: int|
            4 + k <= i < 4 + k + m ==> number_at(#[trigger] readings[i], j) == 0 && on_the_way_up(
                240 - 15 * k,
                i - 3 - k,
            ) < 255,
        number_at(readings[4 + k + m], j) > 0 || on_the_way_up(240 - 15 * k, m + 1) == 255,
    ensures
        swept(first_phase(fans), fans, readings) == PhaseView::Finished(
            CalibrationResult::Found {
                fan_index: fans[j],
                min_start_pwm: on_the_way_up(240 - 15 * k, m + 1) as u8,
                min_stop_pwm: (255 - 15 * k) as u8,
                max_pwm_rpm: number_at(readings[2], j),
            },
        ),
{
    let max_rpm = number_at(readings[2], j);
    let rs = readings.skip(3);
    best_fan_responds(readings[0], readings[1], readings[2], fans.len() as int);
    lemma_probes(fans, readings);
    assert forall|i: int| 0 <= i < k implies number_at(#[trigger] rs[i], j) > 0 by {
        assert(rs[i] == readings[i + 3]);
    }
    lemma_down(j, max_rpm, fans, rs, k);
    let t = rs.skip(k);
    assert(t[0] == readings[3 + k]);
    let from = 240 - 15 * k;
    let min_stop = (255 - 15 * k) as u8;
    let u = t.skip(1);
    assert forall|i: int| 0 <= i < m implies number_at(#[trigger] u[i], j) == 0 && on_the_way_up(
        from,
        i + 1,
    ) < 255 by {
        assert(u[i] == readings[i + 4 + k]);
    }
    assert(raised_pwm(from as u8) == on_the_way_up(from, 1));
    lemma_up(j, max_rpm, min_stop, from, fans, u, m);
    let v = u.skip(m);
    assert(v[0] == readings[4 + k + m]);
    let up = PhaseView::RampUp {
        fan: j,
        max_rpm,
        pwm: on_the_way_up(from, m + 1) as u8,
        min_stop,
    };
    assert(swept(up, fans, v) == swept(after(up, fans, v[0]), fans, v.skip(1)));
    assert(after(up, fans, v[0]) is Finished);
}

/// What a sweep measures of a fan that never stalls, not even at an output of zero:
/// the lowest output that a ramp may have, as both.
pub proof fn free_running_is_measured(fans: Seq<u32>, readings: Seq<Seq<u32>>, j: int)
    requires
        fans.len() > 0,
        best_fan(readings[0], readings[1], readings[2], fans.len() as int) == Some(j),
        readings.len() >= 20,
        forall|i: int| 3 <= i < 20 ==> number_at(#[trigger] readings[i], j) > 0,
    ensures
        swept(first_phase(fans), fans, readings) == PhaseView::Finished(
            CalibrationResult::Found {
                fan_index: fans[j],
                min_start_pwm: 1,
                min_stop_pwm: 1,
                max_pwm_rpm: number_at(readings[2], j),
            },
        ),
{
    let max_rpm = number_at(readings[2], j);
    let rs = readings.skip(3);
    best_fan_responds(readings[0], readings[1], readings[2], fans.len() as int);
    lemma_probes(fans, readings);
    assert forall|i: int| 0 <= i < 16 implies number_at(#[trigger] rs[i], j) > 0 by {
        assert(rs[i] == readings[i + 3]);
    }
    lemma_down(j, max_rpm, fans, rs, 16);
    let t = rs.skip(16);
    assert(t[0] == readings[19]);
    let down = PhaseView::RampDown { fan: j, max_rpm, pwm: 0, min_stop: 15 };
    assert(swept(down, fans, t) == swept(after(down, fans, t[0]), fans, t.skip(1)));
}

/// The outputs of the probes and how long each is given: the highest for two seconds,
/// a low one and the highest again for three each. Then the output of the phase, for
/// one and a half.
pub proof fn outputs_and_waits(
    hi1: Seq<u32>,
    lo: Seq<u32>,
    fan: int,
    max_rpm: u32,
    pwm: u8,
    min_stop: u8,
    result: CalibrationResult,
)
    ensures
        command_of(PhaseView::ProbeHigh) == Some((255u8, 2000u64)),
        command_of(PhaseView::ProbeLow { hi1 }) == Some((20u8, 3000u64)),
        command_of(PhaseView::ProbeAgain { hi1, lo }) == Some((255u8, 3000u64)),
        command_of(PhaseView::RampDown { fan, max_rpm, pwm, min_stop }) == Some((pwm, 1500u64)),
        command_of(PhaseView::RampUp { fan, max_rpm, pwm, min_stop }) == Some((pwm, 1500u64)),
        command_of(PhaseView::Finished(result)) is None,
{
}

/// What is written in a phase: the output is taken over, then set. At the end, of a
/// chip with tachometers, what was read of the output and then of its mode, each
/// without the white space around it.
pub proof fn writes_of_a_phase(
    p: PhaseView,
    fans: Seq<u32>,
    orig_pwm: Option<Seq<char>>,
    orig_enable: Option<Seq<char>>,
)
    ensures
        ({
            let w = phase_writes(p, fans, orig_pwm, orig_enable);
            &&& command_of(p) matches Some((pwm, _)) ==> w == seq![
                OutputWriteView::Mode("1"@),
                OutputWriteView::Pwm(decimal(pwm as nat)),
            ]
            &&& p is Finished && fans.len() == 0 ==> w.len() == 0
            &&& p is Finished && fans.len() > 0 && orig_pwm is Some && orig_enable is Some ==> w
                == seq![
                OutputWriteView::Pwm(trimmed(orig_pwm->0)),
                OutputWriteView::Mode(trimmed(orig_enable->0)),
            ]
            &&& p is Finished && fans.len() > 0 && orig_pwm is Some && orig_enable is None ==> w
                == seq![OutputWriteView::Pwm(trimmed(orig_pwm->0))]
            &&& p is Finished && fans.len() > 0 && orig_pwm is None && orig_enable is Some ==> w
                == seq![OutputWriteView::Mode(trimmed(orig_enable->0))]
            &&& p is Finished && orig_pwm is None && orig_enable is None ==> w.len() == 0
        }),
{
    let w = phase_writes(p, fans, orig_pwm, orig_enable);
    if p is Finished && fans.len() > 0 {
        match (orig_pwm, orig_enable) {
            (Some(a), Some(b)) => {
                assert(w =~= seq![
                    OutputWriteView::Pwm(trimmed(a)),
                    OutputWriteView::Mode(trimmed(b)),
                ]);
            },
            (Some(a), None) => {
                assert(w =~= seq![OutputWriteView::Pwm(trimmed(a))]);
            },
            (None, Some(b)) => {
                assert(w =~= seq![OutputWriteView::Mode(trimmed(b))]);
            },
            (None, None) => {},
        }
    }
}

/// A chip's outputs and tachometers, by its files: every number in the name of such a
/// file, and no other, in ascending order.
pub proof fn outputs_are_found_by_their_files(files: Seq<Seq<char>>, n: u32)
    ensures
        sorted_numbers(pwms_of_files(files)).contains(n) <==> exists|i: int|
            0 <= i < files.len() && pwm_of_file(#[trigger] files[i]) == Some(n),
        sorted_numbers(fans_of_files(files)).contains(n) <==> exists|i: int|
            0 <= i < files.len() && numbered_file(#[trigger] files[i], "fan"@, "_input"@) == Some(n),
        forall|i: int, j: int|
            0 <= i < j < pwms_of_files(files).len() ==> #[trigger] sorted_numbers(
                pwms_of_files(files),
            )[i] <= #[trigger] sorted_numbers(pwms_of_files(files))[j],
        forall|i: int, j: int|
            0 <= i < j < fans_of_files(files).len() ==> #[trigger] sorted_numbers(
                fans_of_files(files),
            )[i] <= #[trigger] sorted_numbers(fans_of_files(files))[j],
{
    let f = |f: Seq<char>| pwm_of_file(f);
    let g = |f: Seq<char>| numbered_file(f, "fan"@, "_input"@);
    lemma_picked(files, f);
    lemma_picked(files, g);
    sorted_numbers_are_the_numbers(pwms_of_files(files));
    sorted_numbers_are_the_numbers(fans_of_files(files));
    if pwms_of_files(files).contains(n) {
        let k = choose|k: int| 0 <= k < pwms_of_files(files).len() && pwms_of_files(files)[k] == n;
        let i = choose|i: int|
            0 <= i < files.len() && f(#[trigger] files[i]) == Some(files.filter_map(f)[k]);
        assert(pwm_of_file(files[i]) == Some(n));
    }
    if fans_of_files(files).contains(n) {
        let k = choose|k: int| 0 <= k < fans_of_files(files).len() && fans_of_files(files)[k] == n;
        let i = choose|i: int|
            0 <= i < files.len() && g(#[trigger] files[i]) == Some(files.filter_map(g)[k]);
        assert(numbered_file(files[i], "fan"@, "_input"@) == Some(n));
    }
    if exists|i: int| 0 <= i < files.len() && pwm_of_file(#[trigger] files[i]) == Some(n) {
        let i = choose|i: int| 0 <= i < files.len() && pwm_of_file(#[trigger] files[i]) == Some(n);
        assert(f(files[i]) == Some(n));
    }
    if exists|i: int|
        0 <= i < files.len() && numbered_file(#[trigger] files[i], "fan"@, "_input"@) == Some(n) {
        let i = choose|i: int|
            0 <= i < files.len() && numbered_file(#[trigger] files[i], "fan"@, "_input"@) == Some(n);
        assert(g(files[i]) == Some(n));
    }
}

/// The file of an output is called `pwm` and its number, that of a tachometer `fan`,
/// its number and `_input`.
pub proof fn files_are_called(n: u32)
    ensures
        pwm_of_file("pwm"@ + decimal(n as nat)) == Some(n),
        numbered_file("fan"@ + decimal(n as nat) + "_input"@, "fan"@, "_input"@) == Some(n),
{
    let d = decimal(n as nat);
    lemma_decimal_digits(n as nat);
    parsed_inverts_decimal(n as nat, u32::MAX as int);
    let f = "pwm"@ + d;
    assert(f.skip("pwm"@.len() as int) =~= d);
    assert(f.take("pwm"@.len() as int) =~= "pwm"@);
    assert(d.take(d.len() as int) =~= d);
    assert(d.subrange(d.len() as int, d.len() as int) =~= Seq::empty());
    let t = "fan"@ + d + "_input"@;
    let r = d + "_input"@;
    assert(t.skip("fan"@.len() as int) =~= r);
    assert(t.take("fan"@.len() as int) =~= "fan"@);
    assert(r.take(d.len() as int) =~= d);
    assert(r.subrange(d.len() as int, r.len() as int) =~= "_input"@);
}

/// Every output of every chip that has a name is tried, with that chip, and nothing
/// else is.
pub proof fn every_output_is_tried(chips: Seq<ChipFiles>, c: CandidateView)
    ensures
        candidates_of(chips).contains(c) <==> exists|i: int|
            0 <= i < chips.len() && is_output_of(#[trigger] chips[i], c),
    decreases chips.len(),
{
    if chips.len() > 0 {
        let rest = chips.drop_last();
        let last = chips.last();
        every_output_is_tried(rest, c);
        let numbers = sorted_numbers(pwms_of_files(texts(last.files@)));
        let own = chip_candidates(last);
        assert forall|k: int| 0 <= k < numbers.len() implies #[trigger] own[k].pwm_index
            == numbers[k] by {}
        if own.contains(c) {
            let k = choose|k: int| 0 <= k < own.len() && own[k] == c;
            assert(numbers[k] == c.pwm_index);
        }
        if numbers.contains(c.pwm_index) && c.hwmon == last.hwmon@ && c.chip_name
            == last.chip_name@ {
            let k = choose|k: int| 0 <= k < numbers.len() && numbers[k] == c.pwm_index;
            assert(own[k] == c);
        }
        let all = candidates_of(chips);
        if last.chip_name@.len() > 0 {
            vstd::seq_lib::lemma_seq_concat_contains_all_elements(candidates_of(rest), own, c);
        }
        assert(all.contains(c) <==> candidates_of(rest).contains(c) || is_output_of(last, c));
        if exists|i: int| 0 <= i < rest.len() && is_output_of(#[trigger] rest[i], c) {
            let i = choose|i: int| 0 <= i < rest.len() && is_output_of(#[trigger] rest[i], c);
            assert(chips[i] == rest[i]);
        }
        if is_output_of(last, c) {
            assert(chips[chips.len() - 1] == last);
        }
        if exists|i: int| 0 <= i < chips.len() && is_output_of(#[trigger] chips[i], c) {
            let i = choose|i: int| 0 <= i < chips.len() && is_output_of(#[trigger] chips[i], c);
            if i < rest.len() {
                assert(rest[i] == chips[i]);
            }
        }
    }
}

/// Whether a candidate is an output of a chip that has a name.
pub open spec fn is_output_of(chip: ChipFiles, c: CandidateView) -> bool {
    &&& chip.chip_name@.len() > 0
    &&& c.hwmon == chip.hwmon@
    &&& c.chip_name == chip.chip_name@
    &&& sorted_numbers(pwms_of_files(texts(chip.files@))).contains(c.pwm_index)
}

/// A fan that was found is proposed with what was measured, after those before it and
/// before those after it; an output without a fan adds nothing.
pub proof fn found_fans_are_proposed(
    rs: Seq<(PwmCandidate, CalibrationResult)>,
    c: PwmCandidate,
    fan_index: u32,
    min_start_pwm: u8,
    min_stop_pwm: u8,
    max_pwm_rpm: u32,
)
    ensures
        ({
            let found = CalibrationResult::Found {
                fan_index,
                min_start_pwm,
                min_stop_pwm,
                max_pwm_rpm,
            };
            let name = if rs.len() == 0 {
                "chassis"@
            } else {
                "fan"@ + decimal(rs.len())
            };
            proposals(rs.push((c, found))) == proposals(rs) + ("[[fans]]\nname = \""@ + name
                + "\"\npwm_chip = \""@ + c.chip_name@ + "\"\npwm_index = "@ + decimal(
                c.pwm_index as nat,
            ) + "\nfan_index = "@ + decimal(fan_index as nat)
                + "\nupdate_secs = 1\nmin_temp_c = 45.0\nmax_temp_c = 90.0\nmin_start_pwm = "@
                + decimal(min_start_pwm as nat) + "\nmin_stop_pwm = "@ + decimal(
                min_stop_pwm as nat,
            ) + "\nmin_pwm = "@ + decimal(min_stop_pwm as nat)
                + "\nmax_pwm = 255\nsensors = []  # fill in from the sensor inventory above, e.g.:\n# [[fans.sensors]]\n# chip = \"coretemp\"\n# label = \"Package\"\n\n"@)
        }),
        proposals(rs.push((c, CalibrationResult::NoFanDetected))) == proposals(rs),
{
    let found = CalibrationResult::Found { fan_index, min_start_pwm, min_stop_pwm, max_pwm_rpm };
    assert(rs.push((c, found)).drop_last() =~= rs);
    assert(rs.push((c, CalibrationResult::NoFanDetected)).drop_last() =~= rs);
    assert(proposals(rs) + Seq::<char>::empty() =~= proposals(rs));
}

/// A fan of which no speed was read counts as standing still.
pub proof fn unread_speed_is_none(s: Seq<u32>, i: int)
    ensures
        0 <= i < s.len() ==> number_at(s, i) == s[i],
        i >= s.len() ==> number_at(s, i) == 0,
{
}

/// An input in the inventory: its chip, its name and its label in quotes where it has
/// one, with its temperature where it is connected, and else with what it reads.
pub proof fn input_in_the_inventory(chip: Seq<char>, input: InputView)
    ensures
        ({
            let label = if input.label is Some && trimmed(input.label->0).len() > 0 {
                " \""@ + trimmed(input.label->0) + "\""@
            } else {
                seq![]
            };
            let t = connected_temp(input.fault, input.value);
            inventory_text(chip, input) == if t is Some {
                "  [connected]    "@ + chip + " "@ + input.name + label + ": "@ + tenths_celsius(
                    t->0 as int,
                ) + "C"@
            } else {
                "  [unconnected]  "@ + chip + " "@ + input.name + label + ": "@ + (
                if input.raw is Some {
                    raw_celsius(input.raw->0 as int) + "C raw"@
                } else {
                    "unreadable"@
                }) + " (fault flag set, or outside plausible range)"@
            }
        }),
{
}

} // verus!
