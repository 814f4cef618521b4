//! What the status screens show: made out from what the system's tools print
//! and from what the kernel's files hold. Reading them is up to the caller.
use crate::celsius::{
    push_whole_celsius, push_whole_fahrenheit, whole_celsius, whole_fahrenheit, MilliC,
};
use crate::config::{Config, TempUnits, TemperatureConfig};
use crate::led::{carrier_down, link_is_down, BayState};
use crate::number::{decimal, is_digit, push_decimal};
use crate::text::{
    begins_with, chars, contains_text, ends, find, finishes_with, from_chars, has, holds,
    lemma_picked, lemma_until, lines, lines_of, opt_str, opt_text, pairs, rows, starts, texts, trim, trim_end,
    trim_end_of, trimmed, trimmed_end, trimmed_end_of, until, words, words_of,
};
use vstd::prelude::*;
use vstd::slice::slice_subrange;

verus! {

/// Two lines of text. They may be longer than the display, which scrolls them.
#[derive(Debug, Clone)]
pub struct Screen {
    pub line0: String,
    pub line1: String,
}

/// What a `Screen` holds.
pub struct ScreenView {
    pub line0: Seq<char>,
    pub line1: Seq<char>,
}

impl View for Screen {
    type V = ScreenView;

    open spec fn view(&self) -> ScreenView {
        ScreenView { line0: self.line0@, line1: self.line1@ }
    }
}

/// What a sequence of screens holds.
pub open spec fn screens(s: Seq<Screen>) -> Seq<ScreenView> {
    s.map_values(|x: Screen| x@)
}

/// One screen.
pub open spec fn screen(line0: Seq<char>, line1: Seq<char>) -> ScreenView {
    ScreenView { line0, line1 }
}

impl Default for Screen {
    fn default() -> (r: Self)
        ensures
            r@ == screen(Seq::empty(), Seq::empty()),
    {
        Screen { line0: String::new(), line1: String::new() }
    }
}

/// Adds copies of some screens.
pub fn append_screens(out: &mut Vec<Screen>, from: &Vec<Screen>)
    ensures
        screens(final(out)@) == screens(old(out)@) + screens(from@),
{
    for i in 0..from.len()
        invariant
            screens(out@) == screens(old(out)@) + screens(from@).take(i as int),
    {
        let ghost before = screens(out@);
        out.push(Screen { line0: from[i].line0.clone(), line1: from[i].line1.clone() });
        assert(screens(out@) =~= before.push(from@[i as int]@));
        assert(screens(out@) =~= screens(old(out)@) + screens(from@).take(i + 1));
    }
    assert(screens(from@).take(from@.len() as int) =~= screens(from@));
}

/// The lines of what a command printed.
pub open spec fn output_lines(out: Seq<char>) -> Seq<Seq<char>> {
    lines_of(trimmed(out))
}

fn split_output(out: &str) -> (r: Vec<Vec<char>>)
    ensures
        rows(r@) == output_lines(out@),
{
    let v = chars(out);
    lines(trim(v.as_slice()))
}

fn push_screen(out: &mut Vec<Screen>, line0: String, line1: String)
    ensures
        screens(final(out)@) == screens(old(out)@).push(screen(line0@, line1@)),
{
    out.push(Screen { line0, line1 });
    assert(screens(out@) =~= screens(old(out)@).push(screen(line0@, line1@)));
}

fn one_screen(line0: &str, line1: &str) -> (r: Vec<Screen>)
    ensures
        screens(r@) == seq![screen(line0@, line1@)],
{
    let mut r: Vec<Screen> = Vec::new();
    push_screen(&mut r, line0.to_owned(), line1.to_owned());
    assert(screens(r@) =~= seq![screen(line0@, line1@)]);
    r
}

/// Whether a word looks like an address with the length of its prefix.
pub open spec fn is_address(word: Seq<char>) -> bool {
    word.contains('/') && is_digit(word[0])
}

/// The first address among some words, without the length of its prefix.
pub open spec fn first_address(words: Seq<Seq<char>>) -> Option<Seq<char>>
    decreases words.len(),
{
    if words.len() == 0 {
        None
    } else if is_address(words[0]) {
        Some(words[0].take(until(words[0], '/') as int))
    } else {
        first_address(words.drop_first())
    }
}

/// The interface and the address that a line of `ip -4 -o addr` tells of, where
/// the interface is one of real hardware.
pub open spec fn iface_address(line: Seq<char>, physical: Seq<Seq<char>>) -> Option<
    (Seq<char>, Seq<char>),
> {
    let w = words_of(line);
    if w.len() < 2 {
        None
    } else {
        let iface = trimmed_end_of(w[1], ':');
        match first_address(w) {
            Some(ip) => if physical.contains(iface) {
                Some((iface, ip))
            } else {
                None
            },
            None => None,
        }
    }
}

/// The interfaces of real hardware and their addresses.
pub open spec fn addresses(lines: Seq<Seq<char>>, physical: Seq<Seq<char>>) -> Seq<
    (Seq<char>, Seq<char>),
> {
    lines.filter_map(|l: Seq<char>| iface_address(l, physical))
}

/// The interfaces of real hardware and their addresses, none where the command
/// failed.
pub open spec fn addresses_in(out: Option<Seq<char>>, physical: Seq<Seq<char>>) -> Seq<
    (Seq<char>, Seq<char>),
> {
    match out {
        Some(o) => addresses(output_lines(o), physical),
        None => Seq::empty(),
    }
}

/// The network screens.
pub open spec fn network_screens(out: Option<Seq<char>>, physical: Seq<Seq<char>>) -> Seq<
    ScreenView,
> {
    let found = addresses_in(out, physical);
    if out is None {
        seq![screen("NETWORK"@, "no ip info"@)]
    } else if found.len() == 0 {
        seq![screen("NETWORK"@, "no interfaces"@)]
    } else {
        found.map_values(|p: (Seq<char>, Seq<char>)| screen(p.0, p.1))
    }
}

fn find_address(ws: &Vec<Vec<char>>) -> (r: Option<String>)
    ensures
        opt_text(r) == first_address(rows(ws@)),
{
    let ghost all = rows(ws@);
    assert(all.skip(0) =~= all);
    for i in 0..ws.len()
        invariant
            all == rows(ws@),
            first_address(all) == first_address(all.skip(i as int)),
    {
        assert(all.skip(i as int)[0] == ws@[i as int]@);
        assert(all.skip(i as int).drop_first() =~= all.skip(i + 1));
        let w = ws[i].as_slice();
        let n = find(w, '/');
        proof {
            lemma_until(w@, '/');
        }
        if n < w.len() && '0' <= w[0] && w[0] <= '9' {
            assert(w@[n as int] == '/');
            return Some(from_chars(slice_subrange(w, 0, n)));
        }
        assert(!is_address(w@));
    }
    None
}

/// The interfaces of real hardware and their addresses, from what
/// `ip -4 -o addr show scope global` printed.
pub fn ip_by_iface(out: Option<&str>, physical: &Vec<String>) -> (r: Vec<(String, String)>)
    ensures
        pairs(r@) == addresses_in(opt_str(out), texts(physical@)),
{
    let mut r: Vec<(String, String)> = Vec::new();
    let ls = match out {
        Some(o) => split_output(o),
        None => Vec::new(),
    };
    let ghost all = rows(ls@);
    let ghost names = texts(physical@);
    assert(out is None ==> addresses(all, names) =~= Seq::empty());
    assert(all.take(0) =~= Seq::empty());
    assert(pairs(r@) =~= addresses(all.take(0), names));
    for i in 0..ls.len()
        invariant
            all == rows(ls@),
            names == texts(physical@),
            pairs(r@) == addresses(all.take(i as int), names),
    {
        assert(all.take(i + 1).drop_last() =~= all.take(i as int));
        assert(all.take(i + 1).last() == ls@[i as int]@);
        let ghost before = pairs(r@);
        let ws = words(ls[i].as_slice());
        assert(ws@.len() == rows(ws@).len());
        if ws.len() >= 2 {
            assert(rows(ws@)[1] == ws@[1]@);
            let iface = from_chars(trim_end_of(ws[1].as_slice(), ':'));
            if holds(physical, iface.as_str()) {
                if let Some(ip) = find_address(&ws) {
                    r.push((iface, ip));
                    assert(pairs(r@) =~= before + seq![(iface@, ip@)]);
                }
            }
        }
    }
    assert(all.take(all.len() as int) =~= all);
    r
}

/// The network screens: one for each address of an interface of real hardware.
pub fn network(out: Option<&str>, physical: &Vec<String>) -> (r: Vec<Screen>)
    ensures
        screens(r@) == network_screens(opt_str(out), texts(physical@)),
{
    if out.is_none() {
        return one_screen("NETWORK", "no ip info");
    }
    let found = ip_by_iface(out, physical);
    assert(pairs(found@).len() == found@.len());
    if found.len() == 0 {
        return one_screen("NETWORK", "no interfaces");
    }
    let mut r: Vec<Screen> = Vec::new();
    for i in 0..found.len()
        invariant
            screens(r@).len() == i,
            forall|j: int|
                0 <= j < i ==> #[trigger] screens(r@)[j] == screen(found@[j].0@, found@[j].1@),
    {
        push_screen(&mut r, found[i].0.clone(), found[i].1.clone());
    }
    assert(screens(r@) =~= network_screens(opt_str(out), texts(physical@)));
    r
}

/// The interfaces of real hardware that have an address.
pub fn configured_nics(out: Option<&str>, physical: &Vec<String>) -> (r: Vec<String>)
    ensures
        texts(r@) == addresses_in(opt_str(out), texts(physical@)).map_values(
            |p: (Seq<char>, Seq<char>)| p.0,
        ),
{
    let found = ip_by_iface(out, physical);
    let mut r: Vec<String> = Vec::new();
    for i in 0..found.len()
        invariant
            r@.len() == i,
            forall|j: int| 0 <= j < i ==> (#[trigger] r@[j])@ == found@[j].0@,
    {
        r.push(found[i].0.clone());
    }
    assert(texts(r@) =~= pairs(found@).map_values(|p: (Seq<char>, Seq<char>)| p.0));
    r
}

/// What stands for the address of an interface that has none.
pub open spec fn link_text(carrier: Option<Seq<char>>) -> Seq<char> {
    if carrier_down(carrier) {
        "no link"@
    } else {
        "no address"@
    }
}

/// What stands for the address of an interface that has none.
pub fn nic_link_text(carrier: Option<&str>) -> (r: String)
    ensures
        r@ == link_text(opt_str(carrier)),
{
    if link_is_down(carrier) {
        "no link".to_owned()
    } else {
        "no address".to_owned()
    }
}

/// The interfaces of real hardware: those that have a device.
pub open spec fn with_device(entries: Seq<(String, bool)>) -> Seq<Seq<char>> {
    entries.filter_map(
        |e: (String, bool)|
            if e.1 {
                Some(e.0@)
            } else {
                None
            },
    )
}

/// The interfaces of real hardware: those that have a device.
pub fn physical_nics(entries: &Vec<(String, bool)>) -> (r: Vec<String>)
    ensures
        texts(r@) == with_device(entries@),
{
    let mut r: Vec<String> = Vec::new();
    assert(entries@.take(0) =~= Seq::empty());
    assert(texts(r@) =~= with_device(entries@.take(0)));
    for i in 0..entries.len()
        invariant
            texts(r@) == with_device(entries@.take(i as int)),
    {
        assert(entries@.take(i + 1).drop_last() =~= entries@.take(i as int));
        assert(entries@.take(i + 1).last() == entries@[i as int]);
        let ghost before = texts(r@);
        if entries[i].1 {
            r.push(entries[i].0.clone());
            assert(texts(r@) =~= before + seq![entries@[i as int].0@]);
        }
    }
    assert(entries@.take(entries@.len() as int) =~= entries@);
    r
}

/// A word of a line, a question mark where the line has fewer words.
pub open spec fn word_at(words: Seq<Seq<char>>, i: int) -> Seq<char> {
    if i < words.len() {
        words[i]
    } else {
        "?"@
    }
}

/// The screen for a line of `zpool list` with the name, the size, what is
/// allocated, the used share and the health of a pool.
pub open spec fn pool_screen(line: Seq<char>) -> ScreenView {
    let w = words_of(line);
    screen(
        word_at(w, 0) + ": "@ + word_at(w, 4),
        word_at(w, 2) + "/"@ + word_at(w, 1) + " "@ + word_at(w, 3),
    )
}

/// The pool screens.
pub open spec fn pool_screens(out: Option<Seq<char>>) -> Seq<ScreenView> {
    match out {
        Some(o) => output_lines(o).map_values(|l: Seq<char>| pool_screen(l)),
        None => seq![screen("STORAGE"@, "zpool unavailable"@)],
    }
}

fn word_or_mark(ws: &Vec<Vec<char>>, i: usize) -> (r: String)
    ensures
        r@ == word_at(rows(ws@), i as int),
{
    assert(ws@.len() == rows(ws@).len());
    if i < ws.len() {
        assert(rows(ws@)[i as int] == ws@[i as int]@);
        from_chars(ws[i].as_slice())
    } else {
        "?".to_owned()
    }
}

/// The pool screens, from what
/// `zpool list -H -o name,size,alloc,capacity,health` printed.
pub fn pools(out: Option<&str>) -> (r: Vec<Screen>)
    ensures
        screens(r@) == pool_screens(opt_str(out)),
{
    let ls = match out {
        Some(o) => split_output(o),
        None => return one_screen("STORAGE", "zpool unavailable"),
    };
    let mut r: Vec<Screen> = Vec::new();
    for i in 0..ls.len()
        invariant
            screens(r@).len() == i,
            forall|j: int| 0 <= j < i ==> #[trigger] screens(r@)[j] == pool_screen(ls@[j]@),
    {
        let ws = words(ls[i].as_slice());
        let mut line0 = word_or_mark(&ws, 0);
        line0.append(": ");
        line0.append(word_or_mark(&ws, 4).as_str());
        let mut line1 = word_or_mark(&ws, 2);
        line1.append("/");
        line1.append(word_or_mark(&ws, 1).as_str());
        line1.append(" ");
        line1.append(word_or_mark(&ws, 3).as_str());
        push_screen(&mut r, line0, line1);
    }
    assert(screens(r@) =~= pool_screens(opt_str(out)));
    r
}

/// The pool and its health that a line of `zpool list` tells of.
pub open spec fn pool_health(line: Seq<char>) -> Option<(Seq<char>, Seq<char>)> {
    let w = words_of(line);
    if w.len() < 2 {
        None
    } else {
        Some((w[0], w[1]))
    }
}

/// The pools and their health.
pub open spec fn healths_of(lines: Seq<Seq<char>>) -> Seq<(Seq<char>, Seq<char>)> {
    lines.filter_map(|l: Seq<char>| pool_health(l))
}

/// The pools and their health, none where the command failed.
pub open spec fn healths_in(out: Option<Seq<char>>) -> Seq<(Seq<char>, Seq<char>)> {
    match out {
        Some(o) => healths_of(output_lines(o)),
        None => Seq::empty(),
    }
}

/// The pools and their health, from what `zpool list -H -o name,health` printed.
pub fn pool_healths(out: Option<&str>) -> (r: Vec<(String, String)>)
    ensures
        pairs(r@) == healths_in(opt_str(out)),
{
    let mut r: Vec<(String, String)> = Vec::new();
    let ls = match out {
        Some(o) => split_output(o),
        None => Vec::new(),
    };
    let ghost all = rows(ls@);
    assert(out is None ==> healths_of(all) =~= Seq::empty());
    assert(all.take(0) =~= Seq::empty());
    assert(pairs(r@) =~= healths_of(all.take(0)));
    for i in 0..ls.len()
        invariant
            all == rows(ls@),
            pairs(r@) == healths_of(all.take(i as int)),
    {
        assert(all.take(i + 1).drop_last() =~= all.take(i as int));
        assert(all.take(i + 1).last() == ls@[i as int]@);
        let ghost before = pairs(r@);
        let ws = words(ls[i].as_slice());
        assert(ws@.len() == rows(ws@).len());
        if ws.len() >= 2 {
            assert(rows(ws@)[0] == ws@[0]@ && rows(ws@)[1] == ws@[1]@);
            let name = from_chars(ws[0].as_slice());
            let health = from_chars(ws[1].as_slice());
            r.push((name, health));
            assert(pairs(r@) =~= before + seq![(name@, health@)]);
        }
    }
    assert(all.take(all.len() as int) =~= all);
    r
}

/// The disk that a line of `lsblk` tells of.
pub open spec fn disk_name(line: Seq<char>) -> Option<Seq<char>> {
    let w = words_of(line);
    if finishes_with(trimmed_end(line), "disk"@) && w.len() > 0 {
        Some(w[0])
    } else {
        None
    }
}

/// The disks.
pub open spec fn disks_of(lines: Seq<Seq<char>>) -> Seq<Seq<char>> {
    lines.filter_map(|l: Seq<char>| disk_name(l))
}

/// The disks, none where the command failed.
pub open spec fn disks_in(out: Option<Seq<char>>) -> Seq<Seq<char>> {
    match out {
        Some(o) => disks_of(output_lines(o)),
        None => Seq::empty(),
    }
}

/// The disks, from what `lsblk -d -n -o NAME,TYPE` printed.
pub fn list_disks(out: Option<&str>) -> (r: Vec<String>)
    ensures
        texts(r@) == disks_in(opt_str(out)),
{
    let mut r: Vec<String> = Vec::new();
    let ls = match out {
        Some(o) => split_output(o),
        None => Vec::new(),
    };
    let ghost all = rows(ls@);
    assert(out is None ==> disks_of(all) =~= Seq::empty());
    assert(all.take(0) =~= Seq::empty());
    assert(texts(r@) =~= disks_of(all.take(0)));
    for i in 0..ls.len()
        invariant
            all == rows(ls@),
            texts(r@) == disks_of(all.take(i as int)),
    {
        assert(all.take(i + 1).drop_last() =~= all.take(i as int));
        assert(all.take(i + 1).last() == ls@[i as int]@);
        let ghost before = texts(r@);
        let ws = words(ls[i].as_slice());
        assert(ws@.len() == rows(ws@).len());
        if ends(trim_end(ls[i].as_slice()), "disk") && ws.len() > 0 {
            assert(rows(ws@)[0] == ws@[0]@);
            let name = from_chars(ws[0].as_slice());
            r.push(name);
            assert(texts(r@) =~= before + seq![name@]);
        }
    }
    assert(all.take(all.len() as int) =~= all);
    r
}

/// A disk and what is known of it.
#[derive(Debug, Clone)]
pub struct Disk {
    pub name: String,
    /// The bay that it sits in.
    pub bay: Option<u32>,
    /// What `smartctl -H -n standby` printed.
    pub smart: Option<String>,
    /// The temperature that its controller reports, where it sits in no bay.
    pub controller_temp: Option<MilliC>,
}

/// The state of a bay, by what `smartctl` printed of its disk.
pub open spec fn smart_state(smart: Option<Seq<char>>) -> BayState {
    match smart {
        Some(o) => if contains_text(o, "in STANDBY"@) {
            BayState::Standby
        } else if contains_text(o, "FAILED"@) {
            BayState::Failed
        } else {
            BayState::Normal
        },
        None => BayState::Normal,
    }
}

/// The health of a disk in a word, by what `smartctl` printed.
pub open spec fn smart_word(smart: Option<Seq<char>>) -> Seq<char> {
    match smart {
        Some(o) => if contains_text(o, "in STANDBY"@) {
            "STANDBY"@
        } else if contains_text(o, "PASSED"@) {
            "PASSED"@
        } else if contains_text(o, "FAILED"@) {
            "FAILED"@
        } else {
            "UNKNOWN"@
        },
        None => "N/A"@,
    }
}

fn state_of_smart(smart: &Option<String>) -> (r: BayState)
    ensures
        r == smart_state(opt_text(*smart)),
{
    match smart {
        Some(o) => {
            let v = chars(o.as_str());
            if has(v.as_slice(), "in STANDBY") {
                BayState::Standby
            } else if has(v.as_slice(), "FAILED") {
                BayState::Failed
            } else {
                BayState::Normal
            }
        },
        None => BayState::Normal,
    }
}

fn word_of_smart(smart: &Option<String>) -> (r: &'static str)
    ensures
        r@ == smart_word(opt_text(*smart)),
{
    match smart {
        Some(o) => {
            let v = chars(o.as_str());
            if has(v.as_slice(), "in STANDBY") {
                "STANDBY"
            } else if has(v.as_slice(), "PASSED") {
                "PASSED"
            } else if has(v.as_slice(), "FAILED") {
                "FAILED"
            } else {
                "UNKNOWN"
            }
        },
        None => "N/A",
    }
}

/// The states of the bays. A disk that sits in no bay has none.
pub open spec fn bay_states(disks: Seq<Disk>) -> Seq<(u32, BayState)> {
    disks.filter_map(
        |d: Disk|
            match d.bay {
                Some(bay) => Some((bay, smart_state(opt_text(d.smart)))),
                None => None,
            },
    )
}

/// The states of the bays, for their LEDs.
pub fn bay_led_states(disks: &Vec<Disk>) -> (r: Vec<(u32, BayState)>)
    ensures
        r@ == bay_states(disks@),
{
    let mut r: Vec<(u32, BayState)> = Vec::new();
    assert(disks@.take(0) =~= Seq::empty());
    assert(r@ =~= bay_states(disks@.take(0)));
    for i in 0..disks.len()
        invariant
            r@ == bay_states(disks@.take(i as int)),
    {
        assert(disks@.take(i + 1).drop_last() =~= disks@.take(i as int));
        assert(disks@.take(i + 1).last() == disks@[i as int]);
        let ghost before = r@;
        if let Some(bay) = disks[i].bay {
            let state = state_of_smart(&disks[i].smart);
            r.push((bay, state));
            assert(r@ =~= before + seq![(bay, state)]);
        }
    }
    assert(disks@.take(disks@.len() as int) =~= disks@);
    r
}

/// The temperature of the drive in a bay: the last that is known of it.
pub open spec fn bay_temp(temps: Seq<(u32, MilliC)>, bay: u32) -> Option<MilliC>
    decreases temps.len(),
{
    if temps.len() == 0 {
        None
    } else if temps.last().0 == bay {
        Some(temps.last().1)
    } else {
        bay_temp(temps.drop_last(), bay)
    }
}

/// The drives of which both the bay and the temperature are known.
pub open spec fn drive_temps(sensors: Seq<(Option<u32>, Option<MilliC>)>) -> Seq<(u32, MilliC)> {
    sensors.filter_map(
        |s: (Option<u32>, Option<MilliC>)|
            match s {
                (Some(bay), Some(temp)) => Some((bay, temp)),
                _ => None,
            },
    )
}

/// The temperatures of the drives by bay, from the bay and the reading of each
/// drive sensor.
pub fn drivetemps_by_ata_port(sensors: &Vec<(Option<u32>, Option<MilliC>)>) -> (r: Vec<
    (u32, MilliC),
>)
    ensures
        r@ == drive_temps(sensors@),
{
    let mut r: Vec<(u32, MilliC)> = Vec::new();
    assert(sensors@.take(0) =~= Seq::empty());
    assert(r@ =~= drive_temps(sensors@.take(0)));
    for i in 0..sensors.len()
        invariant
            r@ == drive_temps(sensors@.take(i as int)),
    {
        assert(sensors@.take(i + 1).drop_last() =~= sensors@.take(i as int));
        assert(sensors@.take(i + 1).last() == sensors@[i as int]);
        let ghost before = r@;
        if let (Some(bay), Some(temp)) = sensors[i] {
            r.push((bay, temp));
            assert(r@ =~= before + seq![(bay, temp)]);
        }
    }
    assert(sensors@.take(sensors@.len() as int) =~= sensors@);
    r
}

fn find_bay_temp(temps: &Vec<(u32, MilliC)>, bay: u32) -> (r: Option<MilliC>)
    ensures
        r == bay_temp(temps@, bay),
{
    let mut n: usize = temps.len();
    assert(temps@.take(temps@.len() as int) =~= temps@);
    while n > 0
        invariant
            n <= temps@.len(),
            bay_temp(temps@, bay) == bay_temp(temps@.take(n as int), bay),
        decreases n,
    {
        assert(temps@.take(n as int).drop_last() =~= temps@.take(n - 1));
        n -= 1;
        if temps[n].0 == bay {
            return Some(temps[n].1);
        }
    }
    None
}

/// The screen of a disk.
pub open spec fn disk_screen(d: Disk, temps: Seq<(u32, MilliC)>) -> ScreenView {
    let temp = match d.bay {
        Some(bay) => bay_temp(temps, bay),
        None => d.controller_temp,
    };
    screen(
        match d.bay {
            Some(bay) => "BAY"@ + decimal(bay as nat) + " "@ + d.name@,
            None => d.name@,
        },
        match temp {
            Some(t) => smart_word(opt_text(d.smart)) + " "@ + whole_celsius(t as int) + "C"@,
            None => smart_word(opt_text(d.smart)),
        },
    )
}

/// The drive screens.
pub open spec fn disk_screens(disks: Seq<Disk>, temps: Seq<(u32, MilliC)>) -> Seq<ScreenView> {
    if disks.len() == 0 {
        seq![screen("HDD"@, "no disks found"@)]
    } else {
        disks.map_values(|d: Disk| disk_screen(d, temps))
    }
}

/// The drive screens: the health and the temperature of each disk.
pub fn hdd(disks: &Vec<Disk>, temps: &Vec<(u32, MilliC)>) -> (r: Vec<Screen>)
    ensures
        screens(r@) == disk_screens(disks@, temps@),
{
    if disks.len() == 0 {
        return one_screen("HDD", "no disks found");
    }
    let mut r: Vec<Screen> = Vec::new();
    for i in 0..disks.len()
        invariant
            screens(r@).len() == i,
            forall|j: int| 0 <= j < i ==> #[trigger] screens(r@)[j] == disk_screen(disks@[j], temps@),
    {
        let d = &disks[i];
        let mut line0 = String::new();
        let temp = match d.bay {
            Some(bay) => {
                line0.append("BAY");
                push_decimal(&mut line0, bay as u64);
                line0.append(" ");
                find_bay_temp(temps, bay)
            },
            None => d.controller_temp,
        };
        line0.append(d.name.as_str());
        let mut line1 = word_of_smart(&d.smart).to_owned();
        if let Some(t) = temp {
            line1.append(" ");
            push_whole_celsius(&mut line1, t);
            line1.append("C");
        }
        assert(line0@ =~= disk_screen(*d, temps@).line0);
        assert(line1@ =~= disk_screen(*d, temps@).line1);
        push_screen(&mut r, line0, line1);
    }
    assert(screens(r@) =~= disk_screens(disks@, temps@));
    r
}

/// The screen of a temperature. A mark shows that it is at the warning limit.
pub open spec fn temp_screen_of(
    label: Seq<char>,
    celsius: MilliC,
    cfg: TemperatureConfig,
) -> ScreenView {
    let value = match cfg.units {
        TempUnits::C => whole_celsius(celsius as int) + "C"@,
        TempUnits::F => whole_fahrenheit(celsius as int) + "F"@,
    };
    screen(
        label,
        if celsius >= cfg.warn_threshold {
            value + " !"@
        } else {
            value
        },
    )
}

fn temp_screen(label: &str, celsius: MilliC, cfg: &Config) -> (r: Screen)
    ensures
        r@ == temp_screen_of(label@, celsius, cfg.temperature),
{
    let mut line1 = String::new();
    match cfg.temperature.units {
        TempUnits::C => {
            push_whole_celsius(&mut line1, celsius);
            line1.append("C");
        },
        TempUnits::F => {
            push_whole_fahrenheit(&mut line1, celsius);
            line1.append("F");
        },
    }
    if celsius >= cfg.temperature.warn_threshold {
        line1.append(" !");
    }
    assert(line1@ =~= temp_screen_of(label@, celsius, cfg.temperature).line1);
    Screen { line0: label.to_owned(), line1 }
}

/// The temperature screens: the processor and the fan, as far as they are known.
pub open spec fn temperature_screens(
    cfg: TemperatureConfig,
    cpu: Option<MilliC>,
    rpm: Option<u32>,
) -> Seq<ScreenView> {
    let a = match cpu {
        Some(t) => seq![temp_screen_of("CPU"@, t, cfg)],
        None => Seq::empty(),
    };
    let b = match rpm {
        Some(n) => seq![screen("FAN"@, decimal(n as nat) + " RPM"@)],
        None => Seq::empty(),
    };
    if cpu is None && rpm is None {
        seq![screen("TEMPERATURE"@, "no sensors found"@)]
    } else {
        a + b
    }
}

/// The temperature screens.
pub fn cpu_and_fan(cfg: &Config, cpu: Option<MilliC>, rpm: Option<u32>) -> (r: Vec<Screen>)
    ensures
        screens(r@) == temperature_screens(cfg.temperature, cpu, rpm),
{
    let mut r: Vec<Screen> = Vec::new();
    if let Some(t) = cpu {
        r.push(temp_screen("CPU", t, cfg));
    }
    if let Some(n) = rpm {
        let mut line1 = String::new();
        push_decimal(&mut line1, n as u64);
        line1.append(" RPM");
        assert(line1@ =~= decimal(n as nat) + " RPM"@);
        push_screen(&mut r, "FAN".to_owned(), line1);
    }
    assert(r@.len() == screens(r@).len());
    if r.len() == 0 {
        return one_screen("TEMPERATURE", "no sensors found");
    }
    assert(screens(r@) =~= temperature_screens(cfg.temperature, cpu, rpm));
    r
}

/// The speed of the fan: the first speed that is not zero.
pub open spec fn first_running(rpms: Seq<Option<u32>>) -> Option<u32>
    decreases rpms.len(),
{
    if rpms.len() == 0 {
        None
    } else if rpms[0] matches Some(n) && n > 0 {
        rpms[0]
    } else {
        first_running(rpms.drop_first())
    }
}

/// The speed of the fan, from the first tachometer of each matching chip. A
/// header without a fan reads zero.
pub fn fan1_rpm(rpms: &Vec<Option<u32>>) -> (r: Option<u32>)
    ensures
        r == first_running(rpms@),
{
    assert(rpms@.skip(0) =~= rpms@);
    for i in 0..rpms.len()
        invariant
            first_running(rpms@) == first_running(rpms@.skip(i as int)),
    {
        assert(rpms@.skip(i as int).drop_first() =~= rpms@.skip(i + 1));
        assert(rpms@.skip(i as int)[0] == rpms@[i as int]);
        if let Some(n) = rpms[i] {
            if n > 0 {
                return rpms[i];
            }
        }
    }
    None
}

/// Whether a container's status is nothing to report: healthy, or running
/// without a health check.
pub open spec fn container_is_fine(status: Seq<char>) -> bool {
    contains_text(status, "(healthy)"@) || (begins_with(status, "Up"@) && !status.contains('('))
}

/// The screen for a line of `docker ps` with the name and the status of a
/// container.
pub open spec fn container_screen(line: Seq<char>, ignore: Seq<Seq<char>>) -> Option<ScreenView> {
    let n = until(line, '\t');
    let name = trimmed(line.take(n as int));
    let status = trimmed(line.skip(n as int + 1));
    if n >= line.len() || ignore.contains(name) || container_is_fine(status) {
        None
    } else {
        Some(screen("DOCKER "@ + name, status))
    }
}

/// The container screens.
pub open spec fn container_screens(lines: Seq<Seq<char>>, ignore: Seq<Seq<char>>) -> Seq<ScreenView> {
    lines.filter_map(|l: Seq<char>| container_screen(l, ignore))
}

/// The container screens, none where the command failed.
pub open spec fn docker_screens(out: Option<Seq<char>>, ignore: Seq<Seq<char>>) -> Seq<ScreenView> {
    match out {
        Some(o) => container_screens(output_lines(o), ignore),
        None => Seq::empty(),
    }
}

/// The container screens: one for each container that is neither healthy nor
/// plainly running, from what
/// `docker ps -a --format "{{.Names}}\t{{.Status}}"` printed.
pub fn docker_issues(out: Option<&str>, ignore: &Vec<String>) -> (r: Vec<Screen>)
    ensures
        screens(r@) == docker_screens(opt_str(out), texts(ignore@)),
{
    let mut r: Vec<Screen> = Vec::new();
    let ls = match out {
        Some(o) => split_output(o),
        None => Vec::new(),
    };
    let ghost all = rows(ls@);
    let ghost skip = texts(ignore@);
    assert(out is None ==> container_screens(all, skip) =~= Seq::empty());
    assert(all.take(0) =~= Seq::empty());
    assert(screens(r@) =~= container_screens(all.take(0), skip));
    for i in 0..ls.len()
        invariant
            all == rows(ls@),
            skip == texts(ignore@),
            screens(r@) == container_screens(all.take(i as int), skip),
    {
        assert(all.take(i + 1).drop_last() =~= all.take(i as int));
        assert(all.take(i + 1).last() == ls@[i as int]@);
        let ghost before = screens(r@);
        let line = ls[i].as_slice();
        let n = find(line, '\t');
        if n < line.len() {
            let name = from_chars(trim(slice_subrange(line, 0, n)));
            let rest = slice_subrange(line, n + 1, line.len());
            assert(rest@ =~= line@.skip(n + 1));
            let status = trim(rest);
            let open = find(status, '(');
            proof {
                lemma_until(status@, '(');
            }
            let fine = has(status, "(healthy)") || (starts(status, "Up") && open == status.len());
            assert(fine == container_is_fine(status@)) by {
                if open < status@.len() {
                    assert(status@[open as int] == '(');
                }
            }
            if !holds(ignore, name.as_str()) && !fine {
                let mut line0 = "DOCKER ".to_owned();
                line0.append(name.as_str());
                let line1 = from_chars(status);
                push_screen(&mut r, line0, line1);
                assert(screens(r@) =~= before + seq![screen(line0@, line1@)]);
            }
        }
    }
    assert(all.take(all.len() as int) =~= all);
    r
}

proof fn lemma_first_address(words: Seq<Seq<char>>, k: int)
    requires
        0 <= k < words.len(),
        is_address(words[k]),
        forall|j: int| 0 <= j < k ==> !is_address(#[trigger] words[j]),
    ensures
        first_address(words) == Some(words[k].take(until(words[k], '/') as int)),
    decreases k,
{
    if k > 0 {
        assert(!is_address(words[0]));
        let rest = words.drop_first();
        assert forall|j: int| 0 <= j < k - 1 implies !is_address(#[trigger] rest[j]) by {
            assert(rest[j] == words[j + 1]);
        }
        lemma_first_address(rest, k - 1);
    }
}

/// The address of an interface of real hardware is found: it is the first word of its
/// line that has a slash and begins with a digit, up to the slash.
pub proof fn address_is_found(
    lines: Seq<Seq<char>>,
    physical: Seq<Seq<char>>,
    i: int,
    k: int,
    ip: Seq<char>,
    prefix: Seq<char>,
)
    requires
        0 <= i < lines.len(),
        words_of(lines[i]).len() >= 2,
        0 <= k < words_of(lines[i]).len(),
        words_of(lines[i])[k] == ip + seq!['/'] + prefix,
        ip.len() > 0,
        '0' <= ip[0] <= '9',
        !ip.contains('/'),
        forall|j: int|
            0 <= j < k ==> !((#[trigger] words_of(lines[i])[j]).contains('/') && '0' <= words_of(
                lines[i],
            )[j][0] <= '9'),
        physical.contains(trimmed_end_of(words_of(lines[i])[1], ':')),
    ensures
        addresses(lines, physical).contains((trimmed_end_of(words_of(lines[i])[1], ':'), ip)),
{
    let w = words_of(lines[i]);
    let word = ip + seq!['/'] + prefix;
    assert(word[ip.len() as int] == '/');
    assert(word[0] == ip[0]);
    lemma_until(word, '/');
    let n = until(word, '/') as int;
    if n < ip.len() {
        assert(word[n] == ip[n]);
        assert(ip.contains(ip[n]));
    }
    assert(word.take(n) =~= ip);
    assert forall|j: int| 0 <= j < k implies !is_address(#[trigger] w[j]) by {}
    lemma_first_address(w, k);
    let f = |l: Seq<char>| iface_address(l, physical);
    lemma_picked(lines, f);
    assert(f(lines[i]) is Some);
}

/// Only interfaces of real hardware have addresses, and only as many as there are
/// lines.
pub proof fn addresses_are_of_real_hardware(lines: Seq<Seq<char>>, physical: Seq<Seq<char>>, k: int)
    requires
        0 <= k < addresses(lines, physical).len(),
    ensures
        physical.contains(addresses(lines, physical)[k].0),
        addresses(lines, physical).len() <= lines.len(),
{
    let f = |l: Seq<char>| iface_address(l, physical);
    lemma_picked(lines, f);
    let i = choose|i: int|
        0 <= i < lines.len() && f(#[trigger] lines[i]) == Some(lines.filter_map(f)[k]);
    assert(f(lines[i]) is Some);
}

/// The network screens: one for each address, with the interface and the address; a
/// notice where the command failed, and one where there is no address.
pub proof fn network_screens_are_of_addresses(out: Seq<char>, physical: Seq<Seq<char>>, k: int)
    ensures
        ({
            let found = addresses(lines_of(trimmed(out)), physical);
            let shown = network_screens(Some(out), physical);
            &&& found.len() > 0 ==> shown.len() == found.len()
            &&& 0 <= k < found.len() ==> shown[k].line0 == found[k].0 && shown[k].line1
                == found[k].1
            &&& found.len() == 0 ==> shown == seq![
                ScreenView { line0: "NETWORK"@, line1: "no interfaces"@ },
            ]
        }),
        network_screens(None, physical) == seq![
            ScreenView { line0: "NETWORK"@, line1: "no ip info"@ },
        ],
{
}

/// The interfaces of real hardware are those that have a device.
pub proof fn hardware_has_a_device(entries: Seq<(String, bool)>, i: int, name: Seq<char>)
    ensures
        0 <= i < entries.len() && entries[i].1 ==> with_device(entries).contains(entries[i].0@),
        with_device(entries).contains(name) ==> exists|j: int|
            0 <= j < entries.len() && (#[trigger] entries[j]).1 && entries[j].0@ == name,
{
    let f = |e: (String, bool)|
        if e.1 {
            Some(e.0@)
        } else {
            None
        };
    assert(with_device(entries) == entries.filter_map(f));
    lemma_picked(entries, f);
    if 0 <= i < entries.len() && entries[i].1 {
        assert(f(entries[i]) == Some(entries[i].0@));
    }
    if with_device(entries).contains(name) {
        let r = entries.filter_map(f);
        let k = choose|k: int| 0 <= k < r.len() && r[k] == name;
        let j = choose|j: int| 0 <= j < entries.len() && f(#[trigger] entries[j]) == Some(r[k]);
        assert(entries[j].1 && entries[j].0@ == name);
    }
}

/// A pool's screen: its name and its health, what is allocated of its size, and the
/// used share. One for each line, in their order.
pub proof fn pool_screen_is_of_the_pool(out: Seq<char>, i: int)
    requires
        0 <= i < lines_of(trimmed(out)).len(),
        words_of(lines_of(trimmed(out))[i]).len() == 5,
    ensures
        ({
            let w = words_of(lines_of(trimmed(out))[i]);
            let shown = pool_screens(Some(out));
            &&& shown.len() == lines_of(trimmed(out)).len()
            &&& shown[i].line0 == w[0] + ": "@ + w[4]
            &&& shown[i].line1 == w[2] + "/"@ + w[1] + " "@ + w[3]
        }),
        pool_screens(None) == seq![ScreenView { line0: "STORAGE"@, line1: "zpool unavailable"@ }],
{
}

/// The health of every pool is read: the second word of a line, of the pool that is the
/// first, and nothing else.
pub proof fn every_pool_has_its_health(lines: Seq<Seq<char>>, i: int, k: int)
    ensures
        0 <= i < lines.len() && words_of(lines[i]).len() >= 2 ==> healths_of(lines).contains(
            (words_of(lines[i])[0], words_of(lines[i])[1]),
        ),
        0 <= k < healths_of(lines).len() ==> exists|j: int|
            0 <= j < lines.len() && words_of(#[trigger] lines[j]).len() >= 2 && healths_of(lines)[k]
                == (words_of(lines[j])[0], words_of(lines[j])[1]),
        healths_in(None).len() == 0,
{
    let f = |l: Seq<char>| pool_health(l);
    lemma_picked(lines, f);
    if 0 <= i < lines.len() && words_of(lines[i]).len() >= 2 {
        assert(f(lines[i]) is Some);
    }
    if 0 <= k < healths_of(lines).len() {
        let j = choose|j: int|
            0 <= j < lines.len() && f(#[trigger] lines[j]) == Some(lines.filter_map(f)[k]);
        assert(words_of(lines[j]).len() >= 2);
    }
}

/// The disks are the first words of the lines that end in `disk`.
pub proof fn every_disk_is_listed(lines: Seq<Seq<char>>, i: int, k: int)
    ensures
        0 <= i < lines.len() && words_of(lines[i]).len() > 0 && finishes_with(
            trimmed_end(lines[i]),
            "disk"@,
        ) ==> disks_of(lines).contains(words_of(lines[i])[0]),
        0 <= k < disks_of(lines).len() ==> exists|j: int|
            0 <= j < lines.len() && finishes_with(trimmed_end(#[trigger] lines[j]), "disk"@)
                && words_of(lines[j]).len() > 0 && disks_of(lines)[k] == words_of(lines[j])[0],
        disks_in(None).len() == 0,
{
    let f = |l: Seq<char>| disk_name(l);
    lemma_picked(lines, f);
    if 0 <= i < lines.len() && disk_name(lines[i]) is Some {
        assert(f(lines[i]) is Some);
    }
    if 0 <= k < disks_of(lines).len() {
        let j = choose|j: int|
            0 <= j < lines.len() && f(#[trigger] lines[j]) == Some(lines.filter_map(f)[k]);
        assert(words_of(lines[j]).len() > 0);
    }
}

/// What `smartctl` says of a disk: spun down where it says so; failed where it says
/// that and not the former; else nothing bad, and so where it says nothing at all.
pub proof fn smart_tells_the_state(out: Seq<char>)
    ensures
        ({
            let sleeps = contains_text(out, "in STANDBY"@);
            let failed = contains_text(out, "FAILED"@);
            let passed = contains_text(out, "PASSED"@);
            &&& smart_state(Some(out)) == BayState::Standby <==> sleeps
            &&& smart_state(Some(out)) == BayState::Failed <==> !sleeps && failed
            &&& smart_state(Some(out)) == BayState::Normal <==> !sleeps && !failed
            &&& sleeps ==> smart_word(Some(out)) == "STANDBY"@
            &&& !sleeps && passed ==> smart_word(Some(out)) == "PASSED"@
            &&& !sleeps && !passed && failed ==> smart_word(Some(out)) == "FAILED"@
            &&& !sleeps && !passed && !failed ==> smart_word(Some(out)) == "UNKNOWN"@
        }),
        smart_state(None) == BayState::Normal,
        smart_word(None) == "N/A"@,
{
}

/// Every disk in a bay has its state among those of the bays, and nothing else has.
pub proof fn every_bay_has_its_state(disks: Seq<Disk>, i: int, k: int)
    ensures
        0 <= i < disks.len() && disks[i].bay is Some ==> bay_states(disks).contains(
            (disks[i].bay->0, smart_state(opt_text(disks[i].smart))),
        ),
        0 <= k < bay_states(disks).len() ==> exists|j: int|
            0 <= j < disks.len() && (#[trigger] disks[j]).bay == Some(bay_states(disks)[k].0)
                && bay_states(disks)[k].1 == smart_state(opt_text(disks[j].smart)),
{
    let f = |d: Disk|
        match d.bay {
            Some(bay) => Some((bay, smart_state(opt_text(d.smart)))),
            None => None,
        };
    assert(bay_states(disks) == disks.filter_map(f));
    lemma_picked(disks, f);
    if 0 <= i < disks.len() && disks[i].bay is Some {
        assert(f(disks[i]) is Some);
    }
    if 0 <= k < bay_states(disks).len() {
        let j = choose|j: int|
            0 <= j < disks.len() && f(#[trigger] disks[j]) == Some(disks.filter_map(f)[k]);
        assert(disks[j].bay is Some);
    }
}

proof fn lemma_bay_temp(temps: Seq<(u32, MilliC)>, bay: u32, i: int)
    requires
        0 <= i < temps.len(),
        temps[i].0 == bay,
        forall|j: int| i < j < temps.len() ==> (#[trigger] temps[j]).0 != bay,
    ensures
        bay_temp(temps, bay) == Some(temps[i].1),
    decreases temps.len(),
{
    if i < temps.len() - 1 {
        let rest = temps.drop_last();
        assert(rest[i] == temps[i]);
        assert forall|j: int| i < j < rest.len() implies (#[trigger] rest[j]).0 != bay by {
            assert(rest[j] == temps[j]);
        }
        lemma_bay_temp(rest, bay, i);
        assert(temps[temps.len() - 1].0 != bay);
    }
}

/// A disk's screen: its bay and its name, its health in a word, and its temperature in
/// whole degrees where it is known: that of its bay, or of its controller where it sits
/// in none.
pub proof fn disk_screen_is_of_the_disk(
    disks: Seq<Disk>,
    temps: Seq<(u32, MilliC)>,
    i: int,
    k: int,
)
    requires
        0 <= i < disks.len(),
    ensures
        ({
            let d = disks[i];
            let shown = disk_screens(disks, temps);
            let word = smart_word(opt_text(d.smart));
            &&& shown.len() == disks.len()
            &&& d.bay is Some ==> shown[i].line0 == "BAY"@ + decimal(d.bay->0 as nat) + " "@
                + d.name@
            &&& d.bay is None ==> shown[i].line0 == d.name@
            &&& d.bay is Some && 0 <= k < temps.len() && temps[k].0 == d.bay->0 && (forall|j: int|
                k < j < temps.len() ==> (#[trigger] temps[j]).0 != d.bay->0) ==> shown[i].line1
                == word + " "@ + whole_celsius(temps[k].1 as int) + "C"@
            &&& d.bay is None && d.controller_temp is Some ==> shown[i].line1 == word + " "@
                + whole_celsius(d.controller_temp->0 as int) + "C"@
            &&& d.bay is None && d.controller_temp is None ==> shown[i].line1 == word
        }),
        disk_screens(Seq::empty(), temps) == seq![
            ScreenView { line0: "HDD"@, line1: "no disks found"@ },
        ],
{
    let d = disks[i];
    if d.bay is Some && 0 <= k < temps.len() && temps[k].0 == d.bay->0 && (forall|j: int|
        k < j < temps.len() ==> (#[trigger] temps[j]).0 != d.bay->0) {
        lemma_bay_temp(temps, d.bay->0, k);
    }
}

/// The drive temperatures are those of which both the bay and the reading are known.
pub proof fn drives_are_known_by_bay(
    sensors: Seq<(Option<u32>, Option<MilliC>)>,
    i: int,
    k: int,
)
    ensures
        0 <= i < sensors.len() && sensors[i].0 is Some && sensors[i].1 is Some ==> drive_temps(
            sensors,
        ).contains((sensors[i].0->0, sensors[i].1->0)),
        0 <= k < drive_temps(sensors).len() ==> exists|j: int|
            0 <= j < sensors.len() && (#[trigger] sensors[j]).0 == Some(drive_temps(sensors)[k].0)
                && sensors[j].1 == Some(drive_temps(sensors)[k].1),
{
    let f = |s: (Option<u32>, Option<MilliC>)|
        match s {
            (Some(bay), Some(temp)) => Some((bay, temp)),
            _ => None,
        };
    assert(drive_temps(sensors) == sensors.filter_map(f));
    lemma_picked(sensors, f);
    if 0 <= i < sensors.len() && sensors[i].0 is Some && sensors[i].1 is Some {
        assert(f(sensors[i]) is Some);
    }
    if 0 <= k < drive_temps(sensors).len() {
        let j = choose|j: int|
            0 <= j < sensors.len() && f(#[trigger] sensors[j]) == Some(sensors.filter_map(f)[k]);
        assert(sensors[j].0 is Some && sensors[j].1 is Some);
    }
}

/// The temperature screens: the processor in the configured units, with a mark from the
/// warning limit on, and the fan's speed; a notice where neither is known.
pub proof fn temperature_screens_tell(
    cfg: TemperatureConfig,
    cpu: Option<MilliC>,
    rpm: Option<u32>,
)
    ensures
        ({
            let shown = temperature_screens(cfg, cpu, rpm);
            let value = match cfg.units {
                TempUnits::C => whole_celsius(cpu->0 as int) + "C"@,
                TempUnits::F => whole_fahrenheit(cpu->0 as int) + "F"@,
            };
            let fan = ScreenView { line0: "FAN"@, line1: decimal(rpm->0 as nat) + " RPM"@ };
            let own = ScreenView {
                line0: "CPU"@,
                line1: if cpu->0 >= cfg.warn_threshold {
                    value + " !"@
                } else {
                    value
                },
            };
            &&& cpu is Some && rpm is Some ==> shown == seq![own, fan]
            &&& cpu is Some && rpm is None ==> shown == seq![own]
            &&& cpu is None && rpm is Some ==> shown == seq![fan]
            &&& cpu is None && rpm is None ==> shown == seq![
                ScreenView { line0: "TEMPERATURE"@, line1: "no sensors found"@ },
            ]
        }),
{
    let shown = temperature_screens(cfg, cpu, rpm);
    let none = Seq::<ScreenView>::empty();
    if let Some(t) = cpu {
        let own = temp_screen_of("CPU"@, t, cfg);
        assert(seq![own] + none =~= seq![own]);
        if let Some(n) = rpm {
            let fan = screen("FAN"@, decimal(n as nat) + " RPM"@);
            assert(seq![own] + seq![fan] =~= seq![own, fan]);
        }
    } else if let Some(n) = rpm {
        let fan = screen("FAN"@, decimal(n as nat) + " RPM"@);
        assert(none + seq![fan] =~= seq![fan]);
    }
}

/// The speed of the fan is the first that is not zero.
pub proof fn first_speed_counts(rpms: Seq<Option<u32>>, i: int)
    ensures
        0 <= i < rpms.len() && rpms[i] is Some && rpms[i]->0 > 0 && (forall|j: int|
            0 <= j < i ==> (#[trigger] rpms[j]) is None || rpms[j] == Some(0u32)) ==> first_running(
            rpms,
        ) == rpms[i],
        (forall|j: int| 0 <= j < rpms.len() ==> (#[trigger] rpms[j]) is None || rpms[j] == Some(0u32))
            ==> first_running(rpms) is None,
    decreases rpms.len(),
{
    if rpms.len() > 0 {
        let rest = rpms.drop_first();
        first_speed_counts(rest, i - 1);
        assert(forall|j: int| 0 <= j < rest.len() ==> #[trigger] rest[j] == rpms[j + 1]);
    }
}

/// A container is told of exactly where its line has a name and a status, it is not one
/// to be ignored, and it is neither healthy nor up without a health check.
pub proof fn container_is_told_of(
    name: Seq<char>,
    status: Seq<char>,
    ignore: Seq<Seq<char>>,
)
    requires
        !name.contains('\t'),
    ensures
        ({
            let line = name + seq!['\t'] + status;
            let (n, s) = (trimmed(name), trimmed(status));
            let fine = contains_text(s, "(healthy)"@) || (begins_with(s, "Up"@) && !s.contains('('));
            &&& !ignore.contains(n) && !fine ==> container_screen(line, ignore) == Some(
                ScreenView { line0: "DOCKER "@ + n, line1: s },
            )
            &&& ignore.contains(n) || fine ==> container_screen(line, ignore) is None
        }),
        container_screen(name, ignore) is None,
{
    let line = name + seq!['\t'] + status;
    lemma_until(line, '\t');
    let n = until(line, '\t') as int;
    assert(line[name.len() as int] == '\t');
    if n < name.len() {
        assert(line[n] == name[n]);
        assert(name.contains(name[n]));
    }
    assert(line.take(n) =~= name);
    assert(line.skip(n + 1) =~= status);
    lemma_until(name, '\t');
    let m = until(name, '\t') as int;
    if m < name.len() {
        assert(name.contains(name[m]));
    }
}

/// Every container that is to be told of has its screen, and there is no other.
pub proof fn every_container_is_told_of(
    lines: Seq<Seq<char>>,
    ignore: Seq<Seq<char>>,
    i: int,
    k: int,
)
    ensures
        0 <= i < lines.len() && container_screen(lines[i], ignore) is Some ==> container_screens(
            lines,
            ignore,
        ).contains(container_screen(lines[i], ignore)->0),
        0 <= k < container_screens(lines, ignore).len() ==> exists|j: int|
            0 <= j < lines.len() && container_screen(#[trigger] lines[j], ignore) == Some(
                container_screens(lines, ignore)[k],
            ),
        docker_screens(None, ignore).len() == 0,
{
    let f = |l: Seq<char>| container_screen(l, ignore);
    lemma_picked(lines, f);
    if 0 <= i < lines.len() && container_screen(lines[i], ignore) is Some {
        assert(f(lines[i]) is Some);
    }
    if 0 <= k < container_screens(lines, ignore).len() {
        let j = choose|j: int|
            0 <= j < lines.len() && f(#[trigger] lines[j]) == Some(lines.filter_map(f)[k]);
        assert(container_screen(lines[j], ignore) == Some(container_screens(lines, ignore)[k]));
    }
}

/// What stands for the address of a port without one: that its link is down, or that it
/// has none.
pub proof fn port_without_address(carrier: Option<Seq<char>>)
    ensures
        carrier is Some && trimmed(carrier->0) == "0"@ ==> link_text(carrier) == "no link"@,
        carrier is None || trimmed(carrier->0) != "0"@ ==> link_text(carrier) == "no address"@,
{
}

/// A word of a line is shown as it is, and a question mark stands for one that is
/// missing.
pub proof fn missing_word_is_marked(words: Seq<Seq<char>>, i: int)
    ensures
        i < words.len() ==> word_at(words, i) == words[i],
        i >= words.len() ==> word_at(words, i) == "?"@,
{
}

} // verus!
