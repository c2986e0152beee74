use benchmon::cpu::{frequency_report, CpuSelector, FrequencyRange};
use benchmon::grouping::text_less_than;
use benchmon::network::{
    describe_link_type, group_interfaces, AddressProperties, InterfaceProperties, LinkType,
    NicAddress, NicError, NicRecord,
};
use benchmon::sensors::{group_sensors, SensorLabel};
use benchmon::users::{group_users, UserConnection, UserError};

fn nic(name: &str, address: NicAddress, netmask: Option<NicAddress>) -> NicRecord {
    NicRecord {
        name: name.to_string(),
        is_up: true,
        is_loopback: false,
        is_multicast: true,
        is_broadcast: true,
        is_point_to_point: false,
        address,
        netmask,
        destination: None,
        broadcast: None,
    }
}

fn ipv4(ip: u32) -> NicAddress {
    NicAddress::Ipv4 { ip, port: 0 }
}

#[test]
fn interfaces_merge_their_addresses() {
    let mac = NicAddress::Link { bits: 0x0011_2233_4455, eui64: false };
    let mut with_broadcast = nic("eth0", ipv4(0x0a00_0002), Some(ipv4(0xffff_ff00)));
    with_broadcast.broadcast = Some(ipv4(0x0a00_00ff));
    let records = vec![
        nic("eth0", mac, None),
        nic("lo", ipv4(0x7f00_0001), Some(ipv4(0xff00_0000))),
        with_broadcast,
        nic("eth0", NicAddress::Ipv6 { ip: 1, port: 0 }, Some(NicAddress::Ipv6 { ip: 2, port: 0 })),
    ];
    let interfaces = group_interfaces(records).unwrap();
    assert_eq!(interfaces.len(), 2);
    assert_eq!(interfaces[0].0, "eth0");
    assert_eq!(interfaces[1].0, "lo");
    let eth0 = &interfaces[0].1;
    assert_eq!(eth0.link_type, Some(LinkType::Broadcast));
    assert_eq!(eth0.link_address, Some(AddressProperties { address: mac, netmask: None, target: None }));
    assert_eq!(
        eth0.ipv4_addresses,
        vec![AddressProperties {
            address: ipv4(0x0a00_0002),
            netmask: Some(ipv4(0xffff_ff00)),
            target: Some(ipv4(0x0a00_00ff)),
        }]
    );
    assert_eq!(eth0.ipv6_addresses.len(), 1);
}

#[test]
fn inconsistent_interface_records_are_refused() {
    let mut down = nic("eth0", ipv4(2), Some(ipv4(3)));
    down.is_up = false;
    assert_eq!(
        group_interfaces(vec![nic("eth0", ipv4(1), Some(ipv4(3))), down]).err(),
        Some(NicError::InconsistentStatus)
    );
    let mac = NicAddress::Link { bits: 1, eui64: false };
    assert_eq!(
        group_interfaces(vec![nic("eth0", mac, None), nic("eth0", mac, None)]).err(),
        Some(NicError::DuplicateLinkAddress)
    );
    assert_eq!(
        group_interfaces(vec![nic("eth0", ipv4(1), Some(NicAddress::Ipv6 { ip: 0, port: 0 }))]).err(),
        Some(NicError::FamilyMismatch)
    );
    assert_eq!(
        group_interfaces(vec![nic("eth0", NicAddress::Ipv4 { ip: 1, port: 80 }, None)]).err(),
        Some(NicError::NonZeroPort)
    );
    assert_eq!(
        group_interfaces(vec![nic("eth0", ipv4(1), None)]).err(),
        Some(NicError::MissingSubnetMask)
    );
    let mut both = nic("eth0", ipv4(1), Some(ipv4(2)));
    both.is_point_to_point = true;
    assert_eq!(group_interfaces(vec![both]).err(), Some(NicError::BroadcastAndPointToPoint));
    let mut dest = nic("ppp0", ipv4(1), Some(ipv4(2)));
    dest.destination = Some(ipv4(5));
    assert_eq!(
        InterfaceProperties::new(&dest).err(),
        Some(NicError::DestinationWithoutPointToPoint)
    );
    let mut bcast = nic("eth1", ipv4(1), Some(ipv4(2)));
    bcast.is_broadcast = false;
    bcast.broadcast = Some(ipv4(9));
    assert_eq!(
        AddressProperties::new(&bcast).err(),
        Some(NicError::BroadcastWithoutBroadcastMode)
    );
}

#[test]
fn link_types_are_described() {
    assert_eq!(describe_link_type(None), "Unknown");
    assert_eq!(describe_link_type(Some(LinkType::Neither)), "None");
    assert_eq!(describe_link_type(Some(LinkType::PointToPoint)), "PointToPoint");
    assert_eq!(LinkType::check(&nic("eth0", ipv4(1), None)), Ok(LinkType::Broadcast));
}

#[test]
fn uniform_frequencies_report_the_global_range() {
    let global = FrequencyRange { min: Some(800_000_000), max: Some(3_000_000_000) };
    assert_eq!(frequency_report(global, None), vec![(CpuSelector::All, global)]);
    assert_eq!(
        frequency_report(global, Some(vec![global, global])),
        vec![(CpuSelector::All, global)]
    );
}

#[test]
fn differing_frequencies_report_each_cpu() {
    let global = FrequencyRange { min: Some(800), max: Some(3000) };
    let little = FrequencyRange { min: Some(500), max: None };
    let lines = frequency_report(global, Some(vec![global, little, global]));
    assert_eq!(
        lines,
        vec![
            (CpuSelector::Logical(0), global),
            (CpuSelector::Logical(1), little),
            (CpuSelector::Logical(2), global),
        ]
    );
}

fn conn(username: &str, session_id: i64, pid: i32) -> UserConnection {
    UserConnection { username: username.to_string(), session_id, pid }
}

#[test]
fn users_are_grouped_by_name_and_session() {
    let users = group_users(vec![
        conn("zoe", 3, 40),
        conn("bob", 2, 30),
        conn("zoe", 1, 12),
        conn("zoe", 3, 41),
    ])
    .unwrap();
    assert_eq!(users.len(), 2);
    assert_eq!(users[0].0, "bob");
    assert_eq!(users[0].1.connection_count, 1);
    assert_eq!(users[0].1.sessions, vec![(2, vec![30])]);
    assert_eq!(users[1].0, "zoe");
    assert_eq!(users[1].1.connection_count, 3);
    assert_eq!(users[1].1.sessions, vec![(1, vec![12]), (3, vec![40, 41])]);
    assert!(group_users(Vec::new()).unwrap().is_empty());
}

#[test]
fn repeated_login_pid_is_refused() {
    let result = group_users(vec![conn("ann", 1, 7), conn("ann", 2, 7), conn("ann", 1, 7)]);
    assert_eq!(result.err(), Some(UserError::DuplicateLoginPid { session_id: 1, pid: 7 }));
}

#[test]
fn text_order_is_that_of_str() {
    assert!(text_less_than("abc", "abd"));
    assert!(text_less_than("ab", "abc"));
    assert!(!text_less_than("abc", "abc"));
    assert!(!text_less_than("b", "abc"));
    assert!(text_less_than("", "a"));
    assert!(text_less_than("Z", "a"));
    assert!(text_less_than("é", "ü"));
}

fn sensor(unit: &str, label: Option<&str>) -> SensorLabel {
    SensorLabel { unit: unit.to_string(), label: label.map(str::to_string) }
}

#[test]
fn sensors_are_grouped_by_unit_and_ordered_by_label() {
    let sensors = vec![
        sensor("nvme", Some("Composite")),
        sensor("coretemp", Some("Core 1")),
        sensor("coretemp", Some("Core 0")),
        sensor("acpitz", None),
        sensor("coretemp", None),
        sensor("coretemp", Some("Core 0")),
    ];
    let groups = group_sensors(&sensors);
    let units: Vec<&str> = groups.iter().map(|g| g.0.as_str()).collect();
    assert_eq!(units, vec!["acpitz", "coretemp", "nvme"]);
    assert_eq!(groups[0].1, vec![3]);
    assert_eq!(groups[1].1, vec![4, 2, 5, 1]);
    assert_eq!(groups[2].1, vec![0]);
    assert!(group_sensors(&Vec::new()).is_empty());
}

#[test]
fn interfaces_come_in_name_order() {
    let records = vec![
        nic("wlan0", ipv4(3), Some(ipv4(0xffff_ff00))),
        nic("eth0", ipv4(1), Some(ipv4(0xffff_ff00))),
        nic("lo", ipv4(2), Some(ipv4(0xff00_0000))),
        nic("eth0", ipv4(4), Some(ipv4(0xffff_ff00))),
    ];
    let interfaces = group_interfaces(records).unwrap();
    let names: Vec<&str> = interfaces.iter().map(|e| e.0.as_str()).collect();
    assert_eq!(names, vec!["eth0", "lo", "wlan0"]);
    assert_eq!(interfaces[0].1.ipv4_addresses.len(), 2);
}
