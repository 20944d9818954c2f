use cidr_calc::{compare_cidr_networks, parse_cidr, ParseError};

#[test]
fn cidr_networks_without_overlap() {
    let left_cidr = "10.0.0.0/16";
    let right_cidr = "172.31.0.0/24";

    let compare = compare_cidr_networks(left_cidr, right_cidr).unwrap();

    assert_eq!(compare, false);
}

#[test]
fn cidr_networks_with_overlap() {
    let left_cidr = "192.168.1.0/24";
    let right_cidr = "192.168.1.100/32";

    let compare = compare_cidr_networks(left_cidr, right_cidr).unwrap();

    assert_eq!(compare, true);
}

#[test]
fn neighbouring_blocks_do_not_overlap() {
    assert_eq!(compare_cidr_networks("10.0.0.0/25", "10.0.0.128/25"), Ok(false));
    assert_eq!(compare_cidr_networks("10.0.0.128/25", "10.0.0.0/25"), Ok(false));
    assert_eq!(compare_cidr_networks("10.0.0.127/32", "10.0.0.128/32"), Ok(false));
}

#[test]
fn a_block_overlaps_the_blocks_it_holds() {
    assert_eq!(compare_cidr_networks("10.0.0.0/8", "10.200.3.0/24"), Ok(true));
    assert_eq!(compare_cidr_networks("10.200.3.0/24", "10.0.0.0/8"), Ok(true));
    assert_eq!(compare_cidr_networks("10.200.3.77/24", "10.200.3.1/30"), Ok(true));
}

#[test]
fn the_whole_address_space_overlaps_every_block() {
    assert_eq!(compare_cidr_networks("0.0.0.0/0", "255.255.255.255/32"), Ok(true));
    assert_eq!(compare_cidr_networks("203.0.113.0/24", "8.8.8.8/0"), Ok(true));
}

#[test]
fn a_block_overlaps_itself() {
    for cidr in ["0.0.0.0/0", "10.3.58.0/24", "10.3.58.9/31", "255.255.255.255/32"] {
        assert_eq!(compare_cidr_networks(cidr, cidr), Ok(true));
    }
}

#[test]
fn overlap_does_not_depend_on_the_order() {
    let blocks = [
        "10.0.0.0/8",
        "10.128.0.0/9",
        "10.127.255.255/32",
        "172.16.0.0/12",
        "172.31.0.0/24",
        "192.168.1.0/24",
        "192.168.1.100/32",
        "0.0.0.0/0",
    ];
    for left in blocks {
        for right in blocks {
            assert_eq!(
                compare_cidr_networks(left, right),
                compare_cidr_networks(right, left)
            );
        }
    }
}

#[test]
fn overlap_is_the_meeting_of_the_address_ranges() {
    let blocks = [
        "10.0.0.0/8",
        "10.128.0.0/9",
        "10.127.255.255/32",
        "10.127.255.254/31",
        "10.128.0.0/32",
        "172.16.0.0/12",
        "172.31.0.0/24",
        "172.32.0.0/16",
        "0.0.0.0/1",
        "128.0.0.0/1",
        "0.0.0.0/0",
    ];
    for left in blocks {
        for right in blocks {
            let a = parse_cidr(left).unwrap();
            let b = parse_cidr(right).unwrap();
            let ranges_meet = a.network_address() <= b.broadcast_address()
                && b.network_address() <= a.broadcast_address();
            assert_eq!(a.overlaps(&b), ranges_meet);
            assert_eq!(compare_cidr_networks(left, right), Ok(ranges_meet));
        }
    }
}

#[test]
fn a_malformed_side_fails_the_comparison() {
    assert_eq!(
        compare_cidr_networks("10.0.0/8", "10.0.0.0/8"),
        Err(ParseError::MalformedAddress("10.0.0".to_string()))
    );
    assert_eq!(
        compare_cidr_networks("10.0.0.0/8", "10.0.0.0/40"),
        Err(ParseError::MalformedPrefix("40".to_string()))
    );
    assert_eq!(
        compare_cidr_networks("10.0.0.0/8", "10.0.0.0"),
        Err(ParseError::MissingSeparator("10.0.0.0".to_string()))
    );
}

#[test]
fn the_left_side_is_reported_first() {
    assert_eq!(
        compare_cidr_networks("10.0.0.0", "10.0.0/8"),
        Err(ParseError::MissingSeparator("10.0.0.0".to_string()))
    );
}
