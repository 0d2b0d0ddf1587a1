use ip_addr_op::listing::get_ip_addrs;
use ip_addr_op::records::{AddressNla, AddressRecord, Ipv4Address, LinkNla, LinkRecord};
use ip_addr_op::replace::{decide_replace, plan_replace, resolve_link_index, Deletion};

fn ip(o0: u8, o1: u8, o2: u8, o3: u8) -> Ipv4Address {
    Ipv4Address::new(o0, o1, o2, o3)
}

fn addr_record(index: u32, prefix_len: u8, label: &str, addrs: &[Ipv4Address]) -> AddressRecord {
    let mut nlas = vec![AddressNla::Label(label.to_string())];
    for a in addrs {
        nlas.push(AddressNla::Address(*a));
    }
    nlas.push(AddressNla::Other);
    AddressRecord { index, prefix_len, nlas }
}

fn link_record(index: u32, name: &str) -> LinkRecord {
    LinkRecord {
        index,
        nlas: vec![LinkNla::Other, LinkNla::IfName(name.to_string())],
    }
}

fn sort_key(p: &(Ipv4Address, u8)) -> (u8, u8, u8, u8, u8) {
    (p.0.o0, p.0.o1, p.0.o2, p.0.o3, p.1)
}

/// The address set after executing a plan on a listed address set: the
/// listed pairs minus the deleted pairs, plus the added pair.
fn apply_plan(
    listed: &[(Ipv4Address, u8)],
    deletions: &[Deletion],
    new_addr: Ipv4Address,
    prefix_len: u8,
) -> Vec<(Ipv4Address, u8)> {
    let mut out: Vec<(Ipv4Address, u8)> = listed
        .iter()
        .filter(|p| !deletions.iter().any(|d| d.addr == p.0 && d.prefix_len == p.1))
        .cloned()
        .collect();
    if !out.contains(&(new_addr, prefix_len)) {
        out.push((new_addr, prefix_len));
    }
    out.sort_by_key(sort_key);
    out.dedup();
    out
}

#[test]
fn lists_single_address() {
    let records = vec![addr_record(2, 24, "eth0", &[ip(10, 0, 0, 1)])];
    let out = get_ip_addrs(&records, &"eth0".to_string());
    assert_eq!(out, vec![(ip(10, 0, 0, 1), 24)]);
}

#[test]
fn lists_in_record_order_and_skips_other_interfaces() {
    let records = vec![
        addr_record(2, 24, "eth0", &[ip(10, 0, 0, 1), ip(10, 0, 0, 2)]),
        addr_record(3, 16, "wlan0", &[ip(192, 168, 1, 5)]),
        addr_record(2, 8, "eth0", &[ip(172, 16, 0, 9)]),
    ];
    let out = get_ip_addrs(&records, &"eth0".to_string());
    assert_eq!(
        out,
        vec![(ip(10, 0, 0, 1), 24), (ip(10, 0, 0, 2), 24), (ip(172, 16, 0, 9), 8)]
    );
}

#[test]
fn listing_zero_matches_gives_empty_list() {
    let records = vec![addr_record(3, 16, "wlan0", &[ip(192, 168, 1, 5)])];
    let out = get_ip_addrs(&records, &"eth0".to_string());
    assert_eq!(out, Vec::new());
}

#[test]
fn listing_empty_table_gives_empty_list() {
    let records: Vec<AddressRecord> = Vec::new();
    let out = get_ip_addrs(&records, &"eth0".to_string());
    assert_eq!(out, Vec::new());
}

#[test]
fn label_after_address_attribute_still_matches() {
    let records = vec![AddressRecord {
        index: 4,
        prefix_len: 24,
        nlas: vec![
            AddressNla::Address(ip(10, 1, 1, 1)),
            AddressNla::Label("eth1".to_string()),
        ],
    }];
    let out = get_ip_addrs(&records, &"eth1".to_string());
    assert_eq!(out, vec![(ip(10, 1, 1, 1), 24)]);
}

#[test]
fn replace_deletes_only_the_non_reserved_address() {
    let a = ip(10, 0, 0, 1);
    let b = ip(10, 0, 0, 2);
    let c = ip(10, 0, 0, 3);
    let records = vec![addr_record(2, 24, "eth0", &[a, b])];
    let scan = plan_replace(&records, &"eth0".to_string(), a);
    assert_eq!(scan.deletions, vec![Deletion { index: 2, addr: b, prefix_len: 24 }]);
    assert_eq!(scan.found_index, Some(2));

    let listed = get_ip_addrs(&records, &"eth0".to_string());
    let mut expected = vec![(a, 24), (c, 24)];
    expected.sort_by_key(sort_key);
    assert_eq!(apply_plan(&listed, &scan.deletions, c, 24), expected);
}

#[test]
fn replace_on_empty_interface_adds_at_resolved_index() {
    let records = vec![addr_record(3, 16, "wlan0", &[ip(192, 168, 1, 5)])];
    let links = vec![link_record(3, "wlan0"), link_record(7, "eth0")];
    let scan = plan_replace(&records, &"eth0".to_string(), ip(10, 0, 0, 1));
    assert_eq!(scan.deletions, Vec::new());
    assert_eq!(scan.found_index, None);
    assert_eq!(resolve_link_index(&links, &"eth0".to_string()), Some(7));

    let plan = decide_replace(&records, &links, &"eth0".to_string(), ip(10, 0, 0, 1))
        .expect("interface exists in the link table");
    assert_eq!(plan.add_index, 7);
    assert_eq!(plan.deletions, Vec::new());
}

#[test]
fn replace_on_unknown_interface_fails_and_mutates_nothing() {
    let records = vec![addr_record(3, 16, "wlan0", &[ip(192, 168, 1, 5)])];
    let links = vec![link_record(3, "wlan0")];
    let r = decide_replace(&records, &links, &"eth9".to_string(), ip(10, 0, 0, 1));
    match r {
        Ok(_) => panic!("replace on an unknown interface must fail"),
        Err(e) => {
            assert_eq!(e.dev, "eth9".to_string());
            assert_eq!(e.message(), "set ip address failed on dev eth9".to_string());
        }
    }
    let scan = plan_replace(&records, &"eth9".to_string(), ip(10, 0, 0, 1));
    assert_eq!(scan.deletions, Vec::new());
}

#[test]
fn replace_twice_gives_the_same_final_set() {
    let a = ip(10, 0, 0, 1);
    let b = ip(10, 0, 0, 2);
    let c = ip(10, 0, 0, 3);
    let name = "eth0".to_string();
    let records = vec![addr_record(2, 24, "eth0", &[a, b])];
    let scan1 = plan_replace(&records, &name, a);
    let listed1 = get_ip_addrs(&records, &name);
    let final1 = apply_plan(&listed1, &scan1.deletions, c, 24);

    // the kernel's table after the first replace: the reserved address kept,
    // the new one added on the same interface
    let records2 = vec![addr_record(2, 24, "eth0", &[a]), addr_record(2, 24, "eth0", &[c])];
    let listed2 = get_ip_addrs(&records2, &name);
    let mut listed2_sorted = listed2.clone();
    listed2_sorted.sort_by_key(sort_key);
    assert_eq!(listed2_sorted, final1);

    let scan2 = plan_replace(&records2, &name, a);
    let final2 = apply_plan(&listed2, &scan2.deletions, c, 24);
    assert_eq!(final2, final1);
}

#[test]
fn deletions_cover_every_address_when_reserved_is_absent() {
    let records = vec![addr_record(5, 24, "eth2", &[ip(10, 0, 0, 7), ip(10, 0, 0, 8)])];
    let scan = plan_replace(&records, &"eth2".to_string(), ip(10, 0, 0, 99));
    assert_eq!(
        scan.deletions,
        vec![
            Deletion { index: 5, addr: ip(10, 0, 0, 7), prefix_len: 24 },
            Deletion { index: 5, addr: ip(10, 0, 0, 8), prefix_len: 24 },
        ]
    );
}

#[test]
fn found_index_is_the_last_matching_record() {
    let records = vec![
        addr_record(3, 24, "eth3", &[ip(10, 0, 1, 1)]),
        addr_record(9, 24, "eth3", &[ip(10, 0, 1, 2)]),
    ];
    let scan = plan_replace(&records, &"eth3".to_string(), ip(10, 0, 1, 1));
    assert_eq!(scan.found_index, Some(9));
}

#[test]
fn resolve_picks_the_first_matching_link() {
    let links = vec![
        LinkRecord { index: 1, nlas: vec![LinkNla::Other] },
        link_record(5, "wlan0"),
        link_record(7, "eth4"),
        link_record(8, "eth4"),
    ];
    assert_eq!(resolve_link_index(&links, &"eth4".to_string()), Some(7));
    assert_eq!(resolve_link_index(&links, &"eth5".to_string()), None);
}

#[test]
fn deletion_uses_the_prefix_length_of_its_record() {
    let records = vec![
        addr_record(2, 24, "eth0", &[ip(10, 0, 0, 2)]),
        addr_record(2, 16, "eth0", &[ip(10, 0, 0, 3)]),
    ];
    let scan = plan_replace(&records, &"eth0".to_string(), ip(10, 0, 0, 1));
    assert_eq!(
        scan.deletions,
        vec![
            Deletion { index: 2, addr: ip(10, 0, 0, 2), prefix_len: 24 },
            Deletion { index: 2, addr: ip(10, 0, 0, 3), prefix_len: 16 },
        ]
    );
}
