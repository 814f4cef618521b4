use lcm_status::config::SensorSelector;
use lcm_status::hwmon::{
    all_connected_temps, all_hwmon, ata_node, bay_number, coretemp_package, glob_hwmon, nvme_controller,
    nvme_temp_for, read_temp_input, resolve_selector, selected_inputs, temp_inputs, Chip, TempInput,
};

fn s(v: &[&str]) -> Vec<String> {
    v.iter().map(|x| x.to_string()).collect()
}

fn input(name: &str, label: Option<&str>, fault: Option<&str>, value: Option<i32>) -> TempInput {
    TempInput {
        name: name.to_string(),
        label: label.map(|x| x.to_string()),
        fault: fault.map(|x| x.to_string()),
        value,
        raw: value.map(i64::from),
    }
}

#[test]
fn inputs_by_file_name() {
    let files = s(&["temp2_input", "name", "temp1_input", "temp1_label", "fan1_input", "temp10_input", "_input"]);
    assert_eq!(temp_inputs(&files), s(&["temp1", "temp10", "temp2"]));
    let mut sel = SensorSelector::default();
    assert_eq!(selected_inputs(&sel, &files), s(&["temp1", "temp10", "temp2"]));
    sel.input = Some("in0".to_string());
    assert_eq!(selected_inputs(&sel, &files), s(&["in0"]));
}

#[test]
fn disconnected_inputs_are_left_out() {
    assert_eq!(read_temp_input(&None, Some(-20_000)), Some(-20_000));
    assert_eq!(read_temp_input(&None, Some(125_000)), Some(125_000));
    assert_eq!(read_temp_input(&None, Some(-20_001)), None);
    assert_eq!(read_temp_input(&None, Some(125_001)), None);
    assert_eq!(read_temp_input(&Some("1\n".to_string()), Some(40_000)), None);
    assert_eq!(read_temp_input(&Some("0\n".to_string()), Some(40_000)), Some(40_000));
    assert_eq!(read_temp_input(&None, None), None);
}

#[test]
fn selectors_by_label() {
    let inputs = vec![
        input("temp1", Some("Package id 0\n"), None, Some(50_000)),
        input("temp2", Some("Core 0\n"), None, Some(48_000)),
        input("temp3", None, None, Some(47_000)),
        input("temp4", Some("Package id 1\n"), None, Some(-128_000)),
    ];
    let mut sel = SensorSelector::default();
    assert_eq!(resolve_selector(&sel, &inputs), vec![50_000, 48_000, 47_000]);
    sel.label = Some("Package".to_string());
    assert_eq!(resolve_selector(&sel, &inputs), vec![50_000]);
    sel.label = Some(String::new());
    assert_eq!(resolve_selector(&sel, &inputs), vec![50_000, 48_000]);
}

#[test]
fn connected_sensors_have_labels() {
    let chips = vec![
        Chip {
            name: "coretemp".to_string(),
            inputs: vec![
                input("temp1", Some("Package id 0\n"), None, Some(50_000)),
                input("temp2", Some("\n"), None, Some(1_000_000)),
            ],
        },
        Chip { name: "nvme".to_string(), inputs: vec![input("temp1", Some(" \n"), None, Some(40_000))] },
    ];
    let r = all_connected_temps(&chips);
    let got: Vec<_> = r.iter().map(|x| (x.chip.as_str(), x.label.as_str(), x.temp)).collect();
    assert_eq!(got, [("coretemp", "coretemp temp1 \"Package id 0\"", 50_000), ("nvme", "nvme temp1", 40_000)]);
}

#[test]
fn chips_by_name() {
    let dirs = vec![
        ("/h/hwmon1".to_string(), Some("nvme\n".to_string())),
        ("/h/hwmon0".to_string(), Some("coretemp\n".to_string())),
        ("/h/hwmon3".to_string(), Some("\n".to_string())),
        ("/h/hwmon2".to_string(), None),
    ];
    assert_eq!(
        all_hwmon(&dirs),
        vec![
            ("/h/hwmon0".to_string(), "coretemp".to_string()),
            ("/h/hwmon1".to_string(), "nvme".to_string())
        ]
    );
    assert_eq!(glob_hwmon(&dirs, "core"), s(&["/h/hwmon0"]));
    assert_eq!(glob_hwmon(&dirs, ""), s(&["/h/hwmon1", "/h/hwmon0", "/h/hwmon3"]));
}

#[test]
fn package_temperature_file() {
    let f = |n: &str, l: Option<&str>| (n.to_string(), l.map(|x| x.to_string()));
    let chip = Some(vec![
        f("temp2_label", Some("Core 0\n")),
        f("temp1_input", None),
        f("temp1_label", Some("Package id 0\n")),
    ]);
    assert_eq!(coretemp_package(&vec![Some(vec![]), chip.clone()]), Some((1, "temp1_input".to_string())));
    assert_eq!(coretemp_package(&vec![None, chip]), None);
    assert_eq!(coretemp_package(&vec![]), None);
}

#[test]
fn bays_by_ata_port() {
    let props = "DEVNAME=/dev/sda\nDEVPATH=/devices/pci0/0000:01:00.0/ata3/host2/target/block/sda\n";
    assert_eq!(ata_node(props), Some("ata3".to_string()));
    assert_eq!(ata_node("DEVPATH=/devices/pci0/nvme/nvme0n1"), None);
    assert_eq!(ata_node("X=1"), None);
    assert_eq!(bay_number("3\n"), Some(3));
    assert_eq!(bay_number("x"), None);
}

#[test]
fn nvme_controllers() {
    assert_eq!(nvme_controller("nvme0n1"), "nvme0");
    let sensors = vec![(Some("nvme1".to_string()), Some(1)), (Some("nvme0".to_string()), Some(40_000))];
    assert_eq!(nvme_temp_for("nvme0n1", &sensors), Some(40_000));
    assert_eq!(nvme_temp_for("nvme2n1", &sensors), None);
    assert_eq!(nvme_temp_for("nvme0n1", &vec![(None, None), (Some("nvme0".to_string()), Some(1))]), None);
}
