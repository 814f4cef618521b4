//! Temperature sensors and drives as the kernel presents them: which files to
//! look at, and what their contents say.
use crate::celsius::MilliC;
use crate::config::SensorSelector;
use crate::monitor::{readings, ReadingView, SensorReading};
use crate::number::{parse_u32, parsed};
use crate::order::{sort_pairs, sort_texts, sorted_pairs, sorted_texts};
use crate::text::{
    before_last, begins_with, chars, contains_text, ends, finishes_with, from_chars, has,
    lemma_picked, lines, lines_of, opt_text, pairs, parts, parts_of, replace, replaced, rows, same,
    same_chars, starts, texts, trim, trimmed, up_to_last,
};
use vstd::prelude::*;
use vstd::slice::slice_subrange;

verus! {

/// The lowest temperature that a connected sensor reads, -20 degrees.
pub const PLAUSIBLE_MIN: MilliC = -20_000;

/// The highest temperature that a connected sensor reads, 125 degrees.
pub const PLAUSIBLE_MAX: MilliC = 125_000;

/// A temperature input of a chip: what its files hold.
#[derive(Debug, Clone)]
pub struct TempInput {
    /// The name of the input, such as `temp1`.
    pub name: String,
    /// The content of its label file.
    pub label: Option<String>,
    /// The content of its fault file.
    pub fault: Option<String>,
    /// What it reads.
    pub value: Option<MilliC>,
    /// The number in its reading file, where that is a whole one.
    pub raw: Option<i64>,
}

/// What a `TempInput` holds.
pub struct InputView {
    pub name: Seq<char>,
    pub label: Option<Seq<char>>,
    pub fault: Option<Seq<char>>,
    pub value: Option<MilliC>,
    pub raw: Option<i64>,
}

impl View for TempInput {
    type V = InputView;

    open spec fn view(&self) -> InputView {
        InputView {
            name: self.name@,
            label: opt_text(self.label),
            fault: opt_text(self.fault),
            value: self.value,
            raw: self.raw,
        }
    }
}

/// What a sequence of inputs holds.
pub open spec fn inputs_view(s: Seq<TempInput>) -> Seq<InputView> {
    s.map_values(|i: TempInput| i@)
}

/// A chip and its temperature inputs.
#[derive(Debug, Clone)]
pub struct Chip {
    pub name: String,
    pub inputs: Vec<TempInput>,
}

/// What a `Chip` holds.
pub struct ChipView {
    pub name: Seq<char>,
    pub inputs: Seq<InputView>,
}

impl View for Chip {
    type V = ChipView;

    open spec fn view(&self) -> ChipView {
        ChipView { name: self.name@, inputs: inputs_view(self.inputs@) }
    }
}

/// What a sequence of chips holds.
pub open spec fn chips_view(s: Seq<Chip>) -> Seq<ChipView> {
    s.map_values(|c: Chip| c@)
}

/// The input that a file belongs to, where it holds the reading of a
/// temperature input.
pub open spec fn input_of_file(file: Seq<char>) -> Option<Seq<char>> {
    let stem = file.take(file.len() - "_input"@.len());
    if finishes_with(file, "_input"@) && begins_with(stem, "temp"@) {
        Some(stem)
    } else {
        None
    }
}

/// The temperature inputs that some files belong to.
pub open spec fn inputs_of_files(files: Seq<Seq<char>>) -> Seq<Seq<char>> {
    files.filter_map(|f: Seq<char>| input_of_file(f))
}

/// The temperature inputs of a chip, by the names of its files, in order.
pub fn temp_inputs(files: &Vec<String>) -> (r: Vec<String>)
    ensures
        texts(r@) == sorted_texts(inputs_of_files(texts(files@))),
{
    let mut r: Vec<String> = Vec::new();
    let ghost all = texts(files@);
    assert(all.take(0) =~= Seq::empty());
    assert(texts(r@) =~= inputs_of_files(all.take(0)));
    for i in 0..files.len()
        invariant
            all == texts(files@),
            texts(r@) == inputs_of_files(all.take(i as int)),
    {
        assert(all.take(i + 1).drop_last() =~= all.take(i as int));
        assert(all.take(i + 1).last() == files@[i as int]@);
        let ghost before = texts(r@);
        let f = chars(files[i].as_str());
        let suffix = chars("_input");
        if ends(f.as_slice(), "_input") {
            let stem = slice_subrange(f.as_slice(), 0, f.len() - suffix.len());
            assert(stem@ =~= f@.take(f@.len() - "_input"@.len()));
            if starts(stem, "temp") {
                let name = from_chars(stem);
                r.push(name);
                assert(texts(r@) =~= before + seq![name@]);
            }
        }
    }
    assert(all.take(all.len() as int) =~= all);
    sort_texts(&r)
}

/// What a connected input reads. An input is not connected where the kernel
/// says that it is at fault, or where it reads what no hardware can have.
pub open spec fn connected_temp(fault: Option<Seq<char>>, value: Option<MilliC>) -> Option<MilliC> {
    if fault matches Some(f) && trimmed(f) == "1"@ {
        None
    } else {
        match value {
            Some(t) => if PLAUSIBLE_MIN <= t <= PLAUSIBLE_MAX {
                Some(t)
            } else {
                None
            },
            None => None,
        }
    }
}

/// What a connected input reads, by its fault file and its reading.
pub fn read_temp_input(fault: &Option<String>, value: Option<MilliC>) -> (r: Option<MilliC>)
    ensures
        r == connected_temp(opt_text(*fault), value),
{
    if let Some(f) = fault {
        let v = chars(f.as_str());
        if same_chars(trim(v.as_slice()), chars("1").as_slice()) {
            return None;
        }
    }
    match value {
        Some(t) => if PLAUSIBLE_MIN <= t && t <= PLAUSIBLE_MAX {
            Some(t)
        } else {
            None
        },
        None => None,
    }
}

/// The inputs of a chip that a selector is about: the one that it names, else
/// all.
pub fn selected_inputs(sel: &SensorSelector, files: &Vec<String>) -> (r: Vec<String>)
    ensures
        texts(r@) == match sel.input {
            Some(i) => seq![i@],
            None => sorted_texts(inputs_of_files(texts(files@))),
        },
{
    match &sel.input {
        Some(i) => {
            let mut r: Vec<String> = Vec::new();
            r.push(i.clone());
            assert(texts(r@) =~= seq![i@]);
            r
        },
        None => temp_inputs(files),
    }
}

/// Whether an input has the label that a selector asks for. An input without a
/// label has none that could.
pub open spec fn label_fits(wanted: Option<Seq<char>>, label: Option<Seq<char>>) -> bool {
    match wanted {
        Some(w) => label matches Some(l) && contains_text(l, w),
        None => true,
    }
}

/// What the connected inputs read whose label fits.
pub open spec fn selected_temps(wanted: Option<Seq<char>>, inputs: Seq<InputView>) -> Seq<MilliC> {
    inputs.filter_map(
        |i: InputView|
            if label_fits(wanted, i.label) {
                connected_temp(i.fault, i.value)
            } else {
                None
            },
    )
}

/// What the inputs read that a selector selects, among those that it is about.
pub fn resolve_selector(sel: &SensorSelector, inputs: &Vec<TempInput>) -> (r: Vec<MilliC>)
    ensures
        r@ == selected_temps(opt_text(sel.label), inputs_view(inputs@)),
{
    let mut r: Vec<MilliC> = Vec::new();
    let ghost all = inputs_view(inputs@);
    let ghost wanted = opt_text(sel.label);
    assert(all.take(0) =~= Seq::empty());
    assert(r@ =~= selected_temps(wanted, all.take(0)));
    for i in 0..inputs.len()
        invariant
            all == inputs_view(inputs@),
            wanted == opt_text(sel.label),
            r@ == selected_temps(wanted, all.take(i as int)),
    {
        let input = &inputs[i];
        assert(all.take(i + 1).drop_last() =~= all.take(i as int));
        assert(all.take(i + 1).last() == input@);
        let ghost before = r@;
        let fits = match &sel.label {
            Some(w) => match &input.label {
                Some(l) => {
                    let v = chars(l.as_str());
                    has(v.as_slice(), w.as_str())
                },
                None => false,
            },
            None => true,
        };
        if fits {
            if let Some(t) = read_temp_input(&input.fault, input.value) {
                r.push(t);
                assert(r@ =~= before + seq![t]);
            }
        }
    }
    assert(all.take(all.len() as int) =~= all);
    r
}

/// What the log and the report call an input.
pub open spec fn input_label(chip: Seq<char>, input: InputView) -> Seq<char> {
    match input.label {
        Some(l) => if trimmed(l).len() > 0 {
            chip + " "@ + input.name + " \""@ + trimmed(l) + "\""@
        } else {
            chip + " "@ + input.name
        },
        None => chip + " "@ + input.name,
    }
}

/// What the connected inputs of a chip read.
pub open spec fn chip_temps(chip: Seq<char>, inputs: Seq<InputView>) -> Seq<ReadingView> {
    inputs.filter_map(
        |i: InputView|
            match connected_temp(i.fault, i.value) {
                Some(temp) => Some(ReadingView { chip, label: input_label(chip, i), temp }),
                None => None,
            },
    )
}

/// What the connected inputs of some chips read.
pub open spec fn connected_temps(chips: Seq<ChipView>) -> Seq<ReadingView>
    decreases chips.len(),
{
    if chips.len() == 0 {
        Seq::empty()
    } else {
        connected_temps(chips.drop_last()) + chip_temps(chips.last().name, chips.last().inputs)
    }
}

fn label_input(chip: &str, input: &TempInput) -> (r: String)
    ensures
        r@ == input_label(chip@, input@),
{
    let mut r = chip.to_owned();
    r.append(" ");
    r.append(input.name.as_str());
    if let Some(l) = &input.label {
        let v = chars(l.as_str());
        let t = trim(v.as_slice());
        if t.len() > 0 {
            r.append(" \"");
            r.append(from_chars(t).as_str());
            r.append("\"");
        }
    }
    r
}

fn push_chip_temps(out: &mut Vec<SensorReading>, chip: &Chip)
    ensures
        readings(final(out)@) == readings(old(out)@) + chip_temps(chip@.name, chip@.inputs),
{
    let ghost all = chip@.inputs;
    assert(all.take(0) =~= Seq::empty());
    assert(readings(out@) =~= readings(old(out)@) + chip_temps(chip@.name, all.take(0)));
    for i in 0..chip.inputs.len()
        invariant
            all == inputs_view(chip.inputs@),
            readings(out@) == readings(old(out)@) + chip_temps(chip@.name, all.take(i as int)),
    {
        let input = &chip.inputs[i];
        assert(all.take(i + 1).drop_last() =~= all.take(i as int));
        assert(all.take(i + 1).last() == input@);
        let ghost before = readings(out@);
        if let Some(temp) = read_temp_input(&input.fault, input.value) {
            let label = label_input(chip.name.as_str(), input);
            out.push(SensorReading { chip: chip.name.clone(), label, temp });
            let ghost reading = ReadingView { chip: chip@.name, label: label@, temp };
            assert(readings(out@) =~= before.push(reading));
            assert(before.push(reading) =~= readings(old(out)@) + (chip_temps(
                chip@.name,
                all.take(i as int),
            ) + seq![reading]));
        }
    }
    assert(all.take(all.len() as int) =~= all);
}

/// Every temperature sensor that is connected, whatever follows it.
pub fn all_connected_temps(chips: &Vec<Chip>) -> (r: Vec<SensorReading>)
    ensures
        readings(r@) == connected_temps(chips_view(chips@)),
{
    let mut r: Vec<SensorReading> = Vec::new();
    let ghost all = chips_view(chips@);
    assert(all.take(0) =~= Seq::empty());
    assert(readings(r@) =~= connected_temps(all.take(0)));
    for i in 0..chips.len()
        invariant
            all == chips_view(chips@),
            readings(r@) == connected_temps(all.take(i as int)),
    {
        assert(all.take(i + 1).drop_last() =~= all.take(i as int));
        assert(all.take(i + 1).last() == chips@[i as int]@);
        push_chip_temps(&mut r, &chips[i]);
    }
    assert(all.take(all.len() as int) =~= all);
    r
}

/// What a list of chip directories and the contents of their name files holds.
pub open spec fn dirs_view(s: Seq<(String, Option<String>)>) -> Seq<
    (Seq<char>, Option<Seq<char>>),
> {
    s.map_values(|d: (String, Option<String>)| (d.0@, opt_text(d.1)))
}

/// The chips that have a name, with it.
pub open spec fn named_dirs(dirs: Seq<(Seq<char>, Option<Seq<char>>)>) -> Seq<
    (Seq<char>, Seq<char>),
> {
    dirs.filter_map(
        |d: (Seq<char>, Option<Seq<char>>)|
            match d.1 {
                Some(n) => if trimmed(n).len() > 0 {
                    Some((d.0, trimmed(n)))
                } else {
                    None
                },
                None => None,
            },
    )
}

/// The chips whose name begins with a text.
pub open spec fn dirs_with_prefix(
    dirs: Seq<(Seq<char>, Option<Seq<char>>)>,
    prefix: Seq<char>,
) -> Seq<Seq<char>> {
    dirs.filter_map(
        |d: (Seq<char>, Option<Seq<char>>)|
            if d.1 matches Some(n) && begins_with(trimmed(n), prefix) {
                Some(d.0)
            } else {
                None
            },
    )
}

/// Every chip that has a name, as its directory and its name, in order. `dirs`
/// are the directories of the chips and the contents of their name files.
pub fn all_hwmon(dirs: &Vec<(String, Option<String>)>) -> (r: Vec<(String, String)>)
    ensures
        pairs(r@) == sorted_pairs(named_dirs(dirs_view(dirs@))),
{
    let mut r: Vec<(String, String)> = Vec::new();
    let ghost all = dirs_view(dirs@);
    assert(all.take(0) =~= Seq::empty());
    assert(pairs(r@) =~= named_dirs(all.take(0)));
    for i in 0..dirs.len()
        invariant
            all == dirs_view(dirs@),
            pairs(r@) == named_dirs(all.take(i as int)),
    {
        assert(all.take(i + 1).drop_last() =~= all.take(i as int));
        assert(all.take(i + 1).last() == (dirs@[i as int].0@, opt_text(dirs@[i as int].1)));
        let ghost before = pairs(r@);
        if let Some(n) = &dirs[i].1 {
            let v = chars(n.as_str());
            let t = trim(v.as_slice());
            if t.len() > 0 {
                let name = from_chars(t);
                r.push((dirs[i].0.clone(), name));
                assert(pairs(r@) =~= before + seq![(dirs@[i as int].0@, name@)]);
            }
        }
    }
    assert(all.take(all.len() as int) =~= all);
    sort_pairs(&r)
}

/// The directories of the chips whose name begins with a text.
pub fn glob_hwmon(dirs: &Vec<(String, Option<String>)>, name_prefix: &str) -> (r: Vec<String>)
    ensures
        texts(r@) == dirs_with_prefix(dirs_view(dirs@), name_prefix@),
{
    let mut r: Vec<String> = Vec::new();
    let ghost all = dirs_view(dirs@);
    assert(all.take(0) =~= Seq::empty());
    assert(texts(r@) =~= dirs_with_prefix(all.take(0), name_prefix@));
    for i in 0..dirs.len()
        invariant
            all == dirs_view(dirs@),
            texts(r@) == dirs_with_prefix(all.take(i as int), name_prefix@),
    {
        assert(all.take(i + 1).drop_last() =~= all.take(i as int));
        assert(all.take(i + 1).last() == (dirs@[i as int].0@, opt_text(dirs@[i as int].1)));
        let ghost before = texts(r@);
        if let Some(n) = &dirs[i].1 {
            let v = chars(n.as_str());
            if starts(trim(v.as_slice()), name_prefix) {
                r.push(dirs[i].0.clone());
                assert(texts(r@) =~= before + seq![dirs@[i as int].0@]);
            }
        }
    }
    assert(all.take(all.len() as int) =~= all);
    r
}

/// Whether a file is the label of the temperature of the whole processor.
pub open spec fn is_package_label(file: (Seq<char>, Option<Seq<char>>)) -> bool {
    begins_with(file.0, "temp"@) && finishes_with(file.0, "_label"@) && (file.1 matches Some(l)
        && begins_with(trimmed(l), "Package"@))
}

/// The file that holds the temperature of the whole processor, among the files
/// of a chip.
pub open spec fn package_file(files: Seq<(Seq<char>, Option<Seq<char>>)>) -> Option<Seq<char>>
    decreases files.len(),
{
    if files.len() == 0 {
        None
    } else if is_package_label(files[0]) {
        Some(replaced(files[0].0, "_label"@, "_input"@))
    } else {
        package_file(files.drop_first())
    }
}

/// The file that holds the temperature of the whole processor. `files` are the
/// files of a processor's chip, with the contents of those that are labels.
fn coretemp_package_file(files: &Vec<(String, Option<String>)>) -> (r: Option<String>)
    ensures
        opt_text(r) == package_file(dirs_view(files@)),
{
    let ghost all = dirs_view(files@);
    assert(all.skip(0) =~= all);
    for i in 0..files.len()
        invariant
            all == dirs_view(files@),
            package_file(all) == package_file(all.skip(i as int)),
    {
        assert(all.skip(i as int).drop_first() =~= all.skip(i + 1));
        assert(all.skip(i as int)[0] == (files@[i as int].0@, opt_text(files@[i as int].1)));
        let name = chars(files[i].0.as_str());
        if starts(name.as_slice(), "temp") && ends(name.as_slice(), "_label") {
            if let Some(l) = &files[i].1 {
                let v = chars(l.as_str());
                if starts(trim(v.as_slice()), "Package") {
                    proof {
                        reveal_strlit("_label");
                    }
                    return Some(from_chars(replace(name.as_slice(), "_label", "_input").as_slice()));
                }
            }
        }
    }
    None
}

/// What a processor's chip looks like: its files, where its directory could be
/// read, with the contents of those that are labels.
pub open spec fn chip_files_view(s: Seq<Option<Vec<(String, Option<String>)>>>) -> Seq<
    Option<Seq<(Seq<char>, Option<Seq<char>>)>>,
> {
    s.map_values(
        |c: Option<Vec<(String, Option<String>)>>|
            match c {
                Some(files) => Some(dirs_view(files@)),
                None => None,
            },
    )
}

/// The first chip from `i` on that has the temperature of the whole processor,
/// and the file that holds it. A chip whose directory cannot be read ends the
/// search.
pub open spec fn package_from(
    chips: Seq<Option<Seq<(Seq<char>, Option<Seq<char>>)>>>,
    i: int,
) -> Option<(int, Seq<char>)>
    decreases chips.len() - i,
{
    if i < 0 || i >= chips.len() {
        None
    } else {
        match chips[i] {
            Some(files) => match package_file(files) {
                Some(file) => Some((i, file)),
                None => package_from(chips, i + 1),
            },
            None => None,
        }
    }
}

/// Which of the processors' chips has the temperature of the whole processor,
/// and which of its files holds it.
pub fn coretemp_package(chips: &Vec<Option<Vec<(String, Option<String>)>>>) -> (r: Option<
    (usize, String),
>)
    ensures
        match r {
            Some((i, file)) => package_from(chip_files_view(chips@), 0) == Some((i as int, file@)),
            None => package_from(chip_files_view(chips@), 0) is None,
        },
{
    let ghost all = chip_files_view(chips@);
    for i in 0..chips.len()
        invariant
            all == chip_files_view(chips@),
            package_from(all, 0) == package_from(all, i as int),
    {
        match &chips[i] {
            Some(files) => {
                assert(all[i as int] == Some(dirs_view(files@)));
                if let Some(file) = coretemp_package_file(files) {
                    return Some((i, file));
                }
            },
            None => {
                assert(all[i as int] is None);
                return None;
            },
        }
    }
    None
}

/// The first of some texts that begins with another.
pub open spec fn first_with_prefix(list: Seq<Seq<char>>, prefix: Seq<char>) -> Option<Seq<char>>
    decreases list.len(),
{
    if list.len() == 0 {
        None
    } else if begins_with(list[0], prefix) {
        Some(list[0])
    } else {
        first_with_prefix(list.drop_first(), prefix)
    }
}

fn find_with_prefix(list: &Vec<Vec<char>>, prefix: &str) -> (r: Option<Vec<char>>)
    ensures
        match r {
            Some(v) => first_with_prefix(rows(list@), prefix@) == Some(v@),
            None => first_with_prefix(rows(list@), prefix@) is None,
        },
{
    let ghost all = rows(list@);
    assert(all.skip(0) =~= all);
    for i in 0..list.len()
        invariant
            all == rows(list@),
            first_with_prefix(all, prefix@) == first_with_prefix(all.skip(i as int), prefix@),
    {
        assert(all.skip(i as int).drop_first() =~= all.skip(i + 1));
        assert(all.skip(i as int)[0] == list@[i as int]@);
        if starts(list[i].as_slice(), prefix) {
            return Some(crate::text::copied(list[i].as_slice()));
        }
    }
    None
}

/// The ATA port that a block device hangs on, by its properties.
pub open spec fn ata_node_of(properties: Seq<char>) -> Option<Seq<char>> {
    match first_with_prefix(lines_of(trimmed(properties)), "DEVPATH="@) {
        Some(path) => first_with_prefix(parts_of(path, '/'), "ata"@),
        None => None,
    }
}

/// The ATA port that a block device hangs on, from what
/// `udevadm info -q property` printed of it.
pub fn ata_node(properties: &str) -> (r: Option<String>)
    ensures
        opt_text(r) == ata_node_of(properties@),
{
    let v = chars(properties);
    let ls = lines(trim(v.as_slice()));
    match find_with_prefix(&ls, "DEVPATH=") {
        Some(path) => {
            let ps = parts(path.as_slice(), '/');
            match find_with_prefix(&ps, "ata") {
                Some(node) => Some(from_chars(node.as_slice())),
                None => None,
            }
        },
        None => None,
    }
}

/// The number of a bay, from the content of the port-number file of its ATA
/// port. The port's name is no guide: it counts over all controllers.
pub fn bay_number(port_no: &str) -> (r: Option<u32>)
    ensures
        match r {
            Some(n) => parsed(trimmed(port_no@), u32::MAX as int) == Some(n as int),
            None => parsed(trimmed(port_no@), u32::MAX as int) is None,
        },
{
    let v = chars(port_no);
    parse_u32(trim(v.as_slice()))
}

/// The controller of an NVMe block device: its name up to the number of the
/// namespace.
pub fn nvme_controller(dev_name: &str) -> (r: String)
    ensures
        r@ == before_last(dev_name@, 'n'),
{
    let v = chars(dev_name);
    from_chars(up_to_last(v.as_slice(), 'n'))
}

/// What the sensor of a controller reads. A sensor whose device cannot be told
/// ends the search.
pub open spec fn controller_temp(
    sensors: Seq<(Option<String>, Option<MilliC>)>,
    controller: Seq<char>,
) -> Option<MilliC>
    decreases sensors.len(),
{
    if sensors.len() == 0 {
        None
    } else {
        match sensors[0].0 {
            Some(device) => if device@ == controller {
                sensors[0].1
            } else {
                controller_temp(sensors.drop_first(), controller)
            },
            None => None,
        }
    }
}

/// The temperature of an NVMe block device. `sensors` are the device and the
/// reading of each NVMe sensor.
pub fn nvme_temp_for(dev_name: &str, sensors: &Vec<(Option<String>, Option<MilliC>)>) -> (r: Option<
    MilliC,
>)
    ensures
        r == controller_temp(sensors@, before_last(dev_name@, 'n')),
{
    let controller = nvme_controller(dev_name);
    assert(sensors@.skip(0) =~= sensors@);
    for i in 0..sensors.len()
        invariant
            controller@ == before_last(dev_name@, 'n'),
            controller_temp(sensors@, controller@) == controller_temp(
                sensors@.skip(i as int),
                controller@,
            ),
    {
        assert(sensors@.skip(i as int).drop_first() =~= sensors@.skip(i + 1));
        assert(sensors@.skip(i as int)[0] == sensors@[i as int]);
        match &sensors[i].0 {
            Some(device) => if same(device.as_str(), controller.as_str()) {
                return sensors[i].1;
            },
            None => return None,
        }
    }
    None
}

/// A sensor that is not connected never counts: what is selected, and what is
/// monitored, lies in the range of real hardware.
pub proof fn only_plausible_temps(wanted: Option<Seq<char>>, inputs: Seq<InputView>)
    ensures
        forall|i: int|
            0 <= i < selected_temps(wanted, inputs).len() ==> PLAUSIBLE_MIN
                <= #[trigger] selected_temps(wanted, inputs)[i] <= PLAUSIBLE_MAX,
    decreases inputs.len(),
{
    if inputs.len() > 0 {
        only_plausible_temps(wanted, inputs.drop_last());
        let rest = selected_temps(wanted, inputs.drop_last());
        let all = selected_temps(wanted, inputs);
        assert forall|i: int| 0 <= i < all.len() implies PLAUSIBLE_MIN <= #[trigger] all[i]
            <= PLAUSIBLE_MAX by {
            if i < rest.len() {
                assert(all[i] == rest[i]);
            }
        }
    }
}

/// An input counts as connected exactly where the kernel does not say that it is at
/// fault, and it reads between twenty degrees below zero and a hundred and twenty-five
/// above.
pub proof fn connected_inputs_are_plausible(fault: Option<Seq<char>>, value: Option<MilliC>)
    ensures
        ({
            let faulty = fault is Some && trimmed(fault->0) == "1"@;
            let plausible = value is Some && -20_000 <= value->0 <= 125_000;
            &&& connected_temp(fault, value) is Some <==> !faulty && plausible
            &&& connected_temp(fault, value) is Some ==> connected_temp(fault, value) == value
        }),
{
}

/// A selector selects what its inputs read whose label has the wanted text in it, all of
/// them where none is wanted, as far as they are connected; and nothing else.
pub proof fn selected_inputs_are_read(
    wanted: Option<Seq<char>>,
    inputs: Seq<InputView>,
    i: int,
    k: int,
)
    ensures
        0 <= i < inputs.len() && (wanted is Some ==> inputs[i].label is Some && contains_text(
            inputs[i].label->0,
            wanted->0,
        )) && connected_temp(inputs[i].fault, inputs[i].value) is Some ==> selected_temps(
            wanted,
            inputs,
        ).contains(inputs[i].value->0),
        0 <= k < selected_temps(wanted, inputs).len() ==> exists|j: int|
            0 <= j < inputs.len() && (wanted is Some ==> (#[trigger] inputs[j]).label is Some
                && contains_text(inputs[j].label->0, wanted->0)) && connected_temp(
                inputs[j].fault,
                inputs[j].value,
            ) == Some(selected_temps(wanted, inputs)[k]),
{
    let f = |i: InputView|
        if label_fits(wanted, i.label) {
            connected_temp(i.fault, i.value)
        } else {
            None
        };
    assert(selected_temps(wanted, inputs) == inputs.filter_map(f));
    lemma_picked(inputs, f);
    if 0 <= i < inputs.len() && f(inputs[i]) is Some {
        connected_inputs_are_plausible(inputs[i].fault, inputs[i].value);
    }
    if 0 <= k < selected_temps(wanted, inputs).len() {
        let j = choose|j: int|
            0 <= j < inputs.len() && f(#[trigger] inputs[j]) == Some(inputs.filter_map(f)[k]);
        assert(label_fits(wanted, inputs[j].label));
    }
}

proof fn lemma_chip_temps(chip: Seq<char>, inputs: Seq<InputView>, i: int)
    requires
        0 <= i < inputs.len(),
        connected_temp(inputs[i].fault, inputs[i].value) is Some,
    ensures
        chip_temps(chip, inputs).contains(
            ReadingView { chip, label: input_label(chip, inputs[i]), temp: inputs[i].value->0 },
        ),
{
    let f = |i: InputView|
        match connected_temp(i.fault, i.value) {
            Some(temp) => Some(ReadingView { chip, label: input_label(chip, i), temp }),
            None => None,
        };
    assert(chip_temps(chip, inputs) == inputs.filter_map(f));
    lemma_picked(inputs, f);
    connected_inputs_are_plausible(inputs[i].fault, inputs[i].value);
    assert(f(inputs[i]) is Some);
}

/// Every connected input of every chip is monitored, under the name of its chip.
pub proof fn every_connected_input_is_monitored(chips: Seq<ChipView>, c: int, i: int)
    requires
        0 <= c < chips.len(),
        0 <= i < chips[c].inputs.len(),
        connected_temp(chips[c].inputs[i].fault, chips[c].inputs[i].value) is Some,
    ensures
        connected_temps(chips).contains(
            ReadingView {
                chip: chips[c].name,
                label: input_label(chips[c].name, chips[c].inputs[i]),
                temp: chips[c].inputs[i].value->0,
            },
        ),
    decreases chips.len(),
{
    let rest = chips.drop_last();
    let a = connected_temps(rest);
    let b = chip_temps(chips.last().name, chips.last().inputs);
    let r = ReadingView {
        chip: chips[c].name,
        label: input_label(chips[c].name, chips[c].inputs[i]),
        temp: chips[c].inputs[i].value->0,
    };
    if c < rest.len() {
        assert(rest[c] == chips[c]);
        every_connected_input_is_monitored(rest, c, i);
        let k = choose|k: int| 0 <= k < a.len() && a[k] == r;
        assert((a + b)[k] == r);
    } else {
        lemma_chip_temps(chips[c].name, chips[c].inputs, i);
        let k = choose|k: int| 0 <= k < b.len() && b[k] == r;
        assert((a + b)[a.len() + k] == r);
    }
}

/// Nothing is monitored that is no connected input of a chip, and everything under the
/// name of its own chip.
pub proof fn only_connected_inputs_are_monitored(chips: Seq<ChipView>, k: int)
    requires
        0 <= k < connected_temps(chips).len(),
    ensures
        exists|c: int, i: int|
            #![trigger chips[c].inputs[i]]
            0 <= c < chips.len() && 0 <= i < chips[c].inputs.len() && connected_temps(chips)[k].chip
                == chips[c].name && connected_temp(
                chips[c].inputs[i].fault,
                chips[c].inputs[i].value,
            ) == Some(connected_temps(chips)[k].temp) && connected_temps(chips)[k].label
                == input_label(chips[c].name, chips[c].inputs[i]),
    decreases chips.len(),
{
    let rest = chips.drop_last();
    let a = connected_temps(rest);
    let chip = chips.last().name;
    let inputs = chips.last().inputs;
    let b = chip_temps(chip, inputs);
    if k < a.len() {
        only_connected_inputs_are_monitored(rest, k);
        let (c, i) = choose|c: int, i: int|
            #![trigger rest[c].inputs[i]]
            0 <= c < rest.len() && 0 <= i < rest[c].inputs.len() && a[k].chip == rest[c].name
                && connected_temp(rest[c].inputs[i].fault, rest[c].inputs[i].value) == Some(
                a[k].temp,
            ) && a[k].label == input_label(rest[c].name, rest[c].inputs[i]);
        assert(chips[c] == rest[c]);
        assert(connected_temps(chips)[k] == a[k]);
        assert(chips[c].inputs[i] == rest[c].inputs[i]);
    } else {
        let f = |i: InputView|
            match connected_temp(i.fault, i.value) {
                Some(temp) => Some(ReadingView { chip, label: input_label(chip, i), temp }),
                None => None,
            };
        assert(b == inputs.filter_map(f));
        lemma_picked(inputs, f);
        let m = k - a.len();
        assert(connected_temps(chips)[k] == b[m]);
        let i = choose|i: int|
            0 <= i < inputs.len() && f(#[trigger] inputs[i]) == Some(inputs.filter_map(f)[m]);
        let c = chips.len() - 1;
        assert(chips[c].inputs[i] == inputs[i]);
    }
}

/// What an input is called: its chip and its name, and its label where it has one.
pub proof fn inputs_are_called(chip: Seq<char>, input: InputView)
    ensures
        input.label is Some && trimmed(input.label->0).len() > 0 ==> input_label(chip, input) == chip
            + " "@ + input.name + " \""@ + trimmed(input.label->0) + "\""@,
        input.label is None || trimmed(input.label->0).len() == 0 ==> input_label(chip, input)
            == chip + " "@ + input.name,
{
}

/// A file holds the reading of an input exactly where its name is that of the input,
/// which begins with `temp`, and `_input`.
pub proof fn inputs_by_their_files(file: Seq<char>, name: Seq<char>)
    ensures
        begins_with(name, "temp"@) ==> input_of_file(name + "_input"@) == Some(name),
        input_of_file(file) == Some(name) ==> file == name + "_input"@ && begins_with(name, "temp"@),
{
    let n = "_input"@.len() as int;
    let f = name + "_input"@;
    assert(f.take(f.len() - n) =~= name);
    assert(f.subrange(f.len() - n, f.len() as int) =~= "_input"@);
    if input_of_file(file) == Some(name) {
        assert(file =~= file.take(file.len() - n) + file.subrange(
            file.len() - n,
            file.len() as int,
        ));
    }
}

/// Every input that has a file is listed, and no other.
pub proof fn every_input_is_listed(files: Seq<Seq<char>>, i: int, k: int)
    ensures
        0 <= i < files.len() && input_of_file(files[i]) is Some ==> inputs_of_files(files).contains(
            input_of_file(files[i])->0,
        ),
        0 <= k < inputs_of_files(files).len() ==> exists|j: int|
            0 <= j < files.len() && input_of_file(#[trigger] files[j]) == Some(
                inputs_of_files(files)[k],
            ),
{
    let f = |x: Seq<char>| input_of_file(x);
    lemma_picked(files, f);
    if 0 <= i < files.len() && input_of_file(files[i]) is Some {
        assert(f(files[i]) is Some);
    }
    if 0 <= k < inputs_of_files(files).len() {
        let j = choose|j: int|
            0 <= j < files.len() && f(#[trigger] files[j]) == Some(files.filter_map(f)[k]);
        assert(input_of_file(files[j]) == Some(inputs_of_files(files)[k]));
    }
}

/// Every chip that has a name is known by it, and every chip whose name begins with a
/// text is found by that text.
pub proof fn chips_by_their_names(
    dirs: Seq<(Seq<char>, Option<Seq<char>>)>,
    prefix: Seq<char>,
    i: int,
    k: int,
)
    ensures
        0 <= i < dirs.len() && dirs[i].1 is Some && trimmed(dirs[i].1->0).len() > 0 ==> named_dirs(
            dirs,
        ).contains((dirs[i].0, trimmed(dirs[i].1->0))),
        0 <= i < dirs.len() && dirs[i].1 is Some && begins_with(trimmed(dirs[i].1->0), prefix)
            ==> dirs_with_prefix(dirs, prefix).contains(dirs[i].0),
        0 <= k < named_dirs(dirs).len() ==> exists|j: int|
            0 <= j < dirs.len() && (#[trigger] dirs[j]).1 is Some && named_dirs(dirs)[k] == (
                dirs[j].0,
                trimmed(dirs[j].1->0),
            ),
        0 <= k < dirs_with_prefix(dirs, prefix).len() ==> exists|j: int|
            0 <= j < dirs.len() && (#[trigger] dirs[j]).1 is Some && dirs[j].0 == dirs_with_prefix(
                dirs,
                prefix,
            )[k] && begins_with(trimmed(dirs[j].1->0), prefix),
{
    let f = |d: (Seq<char>, Option<Seq<char>>)|
        match d.1 {
            Some(n) => if trimmed(n).len() > 0 {
                Some((d.0, trimmed(n)))
            } else {
                None
            },
            None => None,
        };
    let g = |d: (Seq<char>, Option<Seq<char>>)|
        if d.1 matches Some(n) && begins_with(trimmed(n), prefix) {
            Some(d.0)
        } else {
            None
        };
    assert(named_dirs(dirs) == dirs.filter_map(f));
    assert(dirs_with_prefix(dirs, prefix) == dirs.filter_map(g));
    lemma_picked(dirs, f);
    lemma_picked(dirs, g);
    if 0 <= i < dirs.len() && dirs[i].1 is Some {
        assert(trimmed(dirs[i].1->0).len() > 0 ==> f(dirs[i]) is Some);
        assert(begins_with(trimmed(dirs[i].1->0), prefix) ==> g(dirs[i]) == Some(dirs[i].0));
    }
    if 0 <= k < named_dirs(dirs).len() {
        let j = choose|j: int|
            0 <= j < dirs.len() && f(#[trigger] dirs[j]) == Some(dirs.filter_map(f)[k]);
        assert(dirs[j].1 is Some);
    }
    if 0 <= k < dirs_with_prefix(dirs, prefix).len() {
        let j = choose|j: int|
            0 <= j < dirs.len() && g(#[trigger] dirs[j]) == Some(dirs.filter_map(g)[k]);
        assert(dirs[j].1 is Some);
    }
}

/// The temperature of the whole processor is behind the first label file that says so.
pub proof fn package_is_found(files: Seq<(Seq<char>, Option<Seq<char>>)>, i: int)
    requires
        0 <= i < files.len(),
        is_package_label(files[i]),
        forall|j: int| 0 <= j < i ==> !is_package_label(#[trigger] files[j]),
    ensures
        package_file(files) == Some(replaced(files[i].0, "_label"@, "_input"@)),
        begins_with(files[i].0, "temp"@),
        files[i].1 is Some && begins_with(trimmed(files[i].1->0), "Package"@),
    decreases i,
{
    if i > 0 {
        assert(!is_package_label(files[0]));
        let rest = files.drop_first();
        assert forall|j: int| 0 <= j < i - 1 implies !is_package_label(#[trigger] rest[j]) by {
            assert(rest[j] == files[j + 1]);
        }
        package_is_found(rest, i - 1);
    }
}

/// The first text that begins with another is found, whatever comes after it.
pub proof fn first_with_the_prefix(list: Seq<Seq<char>>, prefix: Seq<char>, i: int)
    requires
        0 <= i < list.len(),
        begins_with(list[i], prefix),
        forall|j: int| 0 <= j < i ==> !begins_with(#[trigger] list[j], prefix),
    ensures
        first_with_prefix(list, prefix) == Some(list[i]),
    decreases i,
{
    if i > 0 {
        assert(!begins_with(list[0], prefix));
        let rest = list.drop_first();
        assert forall|j: int| 0 <= j < i - 1 implies !begins_with(#[trigger] rest[j], prefix) by {
            assert(rest[j] == list[j + 1]);
        }
        first_with_the_prefix(rest, prefix, i - 1);
    }
}

/// The temperature of a controller is what the first sensor of its device reads.
pub proof fn controller_is_read(
    sensors: Seq<(Option<String>, Option<MilliC>)>,
    controller: Seq<char>,
    i: int,
)
    requires
        0 <= i < sensors.len(),
        sensors[i].0 is Some && sensors[i].0->0@ == controller,
        forall|j: int|
            0 <= j < i ==> (#[trigger] sensors[j]).0 is Some && sensors[j].0->0@ != controller,
    ensures
        controller_temp(sensors, controller) == sensors[i].1,
    decreases i,
{
    if i > 0 {
        assert(sensors[0].0 is Some && sensors[0].0->0@ != controller);
        let rest = sensors.drop_first();
        assert forall|j: int| 0 <= j < i - 1 implies (#[trigger] rest[j]).0 is Some
            && rest[j].0->0@ != controller by {
            assert(rest[j] == sensors[j + 1]);
        }
        controller_is_read(rest, controller, i - 1);
    }
}

/// The processor's temperature is that of the first chip that has one, where every chip
/// before it can be read.
pub proof fn first_chip_with_a_package(
    chips: Seq<Option<Seq<(Seq<char>, Option<Seq<char>>)>>>,
    from: int,
    i: int,
)
    requires
        0 <= from <= i < chips.len(),
        forall|j: int|
            from <= j < i ==> (#[trigger] chips[j]) is Some && package_file(chips[j]->0) is None,
    ensures
        chips[i] is Some && package_file(chips[i]->0) is Some ==> package_from(chips, from) == Some(
            (i, package_file(chips[i]->0)->0),
        ),
        chips[i] is None ==> package_from(chips, from) is None,
    decreases i - from,
{
    if from < i {
        assert(chips[from] is Some);
        first_chip_with_a_package(chips, from + 1, i);
    }
}

} // verus!
