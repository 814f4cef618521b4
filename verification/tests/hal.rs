use lcm_status::config::{Config, TempUnits};
use lcm_status::hal::{
    bay_led_states, configured_nics, cpu_and_fan, docker_issues, drivetemps_by_ata_port, fan1_rpm, hdd,
    ip_by_iface, list_disks, network, nic_link_text, physical_nics, pool_healths, pools, Disk, Screen,
};
use lcm_status::led::BayState;

fn s(v: &[&str]) -> Vec<String> {
    v.iter().map(|x| x.to_string()).collect()
}

fn show(v: &[Screen]) -> Vec<(&str, &str)> {
    v.iter().map(|x| (x.line0.as_str(), x.line1.as_str())).collect()
}

const IP: &str = "2: eth0    inet 192.168.1.196/24 brd 192.168.1.255 scope global eth0\n\
    3: eth1:    inet 10.0.0.2/8 scope global eth1\n\
    4: docker0    inet 172.17.0.1/16 scope global docker0\n\
    junk\n";

#[test]
fn network_shows_hardware_interfaces() {
    let nics = s(&["eth0", "eth1", "eth2"]);
    assert_eq!(show(&network(Some(IP), &nics)), [("eth0", "192.168.1.196"), ("eth1", "10.0.0.2")]);
    assert_eq!(show(&network(None, &nics)), [("NETWORK", "no ip info")]);
    assert_eq!(show(&network(Some(IP), &vec![])), [("NETWORK", "no interfaces")]);
    assert_eq!(configured_nics(Some(IP), &nics), s(&["eth0", "eth1"]));
    assert_eq!(ip_by_iface(None, &nics), vec![]);
    assert_eq!(
        physical_nics(&vec![("eth0".to_string(), true), ("lo".to_string(), false)]),
        s(&["eth0"])
    );
}

#[test]
fn link_text_without_an_address() {
    assert_eq!(nic_link_text(Some("0\n")), "no link");
    assert_eq!(nic_link_text(Some("1\n")), "no address");
    assert_eq!(nic_link_text(None), "no address");
}

#[test]
fn pools_show_health_and_capacity() {
    assert_eq!(
        show(&pools(Some("tank\t10T\t4T\t40%\tONLINE\nboot 1G\n"))),
        [("tank: ONLINE", "4T/10T 40%"), ("boot: ?", "?/1G ?")]
    );
    assert_eq!(show(&pools(None)), [("STORAGE", "zpool unavailable")]);
    assert!(pools(Some("")).is_empty());
    assert_eq!(
        pool_healths(Some("tank ONLINE\nodd\nboot DEGRADED\n")),
        vec![
            ("tank".to_string(), "ONLINE".to_string()),
            ("boot".to_string(), "DEGRADED".to_string())
        ]
    );
    assert_eq!(pool_healths(None), vec![]);
}

fn disk(name: &str, bay: Option<u32>, smart: Option<&str>, temp: Option<i32>) -> Disk {
    Disk { name: name.to_string(), bay, smart: smart.map(|x| x.to_string()), controller_temp: temp }
}

#[test]
fn disks_and_bays() {
    assert_eq!(list_disks(Some("sda disk\nsr0 rom\nnvme0n1 disk  \n")), s(&["sda", "nvme0n1"]));
    assert_eq!(list_disks(None), s(&[]));
    let disks = vec![
        disk("sda", Some(1), Some("SMART overall-health: PASSED"), None),
        disk("sdb", Some(2), Some("Device is in STANDBY mode"), None),
        disk("sdc", Some(3), Some("overall-health: FAILED!"), None),
        disk("sdd", Some(4), None, None),
        disk("nvme0n1", None, Some("huh"), Some(41_600)),
    ];
    assert_eq!(
        bay_led_states(&disks),
        vec![(1, BayState::Normal), (2, BayState::Standby), (3, BayState::Failed), (4, BayState::Normal)]
    );
    let temps = drivetemps_by_ata_port(&vec![
        (Some(1), Some(30_000)),
        (Some(1), Some(35_400)),
        (None, Some(1)),
        (Some(2), None),
    ]);
    assert_eq!(
        show(&hdd(&disks, &temps)),
        [
            ("BAY1 sda", "PASSED 35C"),
            ("BAY2 sdb", "STANDBY"),
            ("BAY3 sdc", "FAILED"),
            ("BAY4 sdd", "N/A"),
            ("nvme0n1", "UNKNOWN 42C"),
        ]
    );
    assert_eq!(show(&hdd(&vec![], &temps)), [("HDD", "no disks found")]);
}

#[test]
fn temperature_screens_in_both_units() {
    let mut cfg = Config::default();
    assert_eq!(show(&cpu_and_fan(&cfg, Some(45_000), Some(1200))), [("CPU", "45C"), ("FAN", "1200 RPM")]);
    assert_eq!(show(&cpu_and_fan(&cfg, Some(75_000), None)), [("CPU", "75C !")]);
    cfg.temperature.units = TempUnits::F;
    assert_eq!(show(&cpu_and_fan(&cfg, Some(100_000), None)), [("CPU", "212F !")]);
    assert_eq!(show(&cpu_and_fan(&cfg, None, None)), [("TEMPERATURE", "no sensors found")]);
    assert_eq!(fan1_rpm(&vec![None, Some(0), Some(900), Some(1)]), Some(900));
    assert_eq!(fan1_rpm(&vec![Some(0)]), None);
}

#[test]
fn docker_reports_what_is_not_fine() {
    let out = "web\tUp 3 days\ndb\tUp 2 hours (healthy)\nbad\tUp 1 hour (unhealthy)\n\
        old\tExited (1) 2 days ago\nskip\tExited (0)\nnotab\n";
    assert_eq!(
        show(&docker_issues(Some(out), &s(&["skip"]))),
        [("DOCKER bad", "Up 1 hour (unhealthy)"), ("DOCKER old", "Exited (1) 2 days ago")]
    );
    assert!(docker_issues(None, &s(&[])).is_empty());
}
