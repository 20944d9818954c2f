use cidr_calc::decimal::format_decimal;
use cidr_calc::parse::parse_address;
use cidr_calc::quad::{format_quads, quads_of};
use cidr_calc::{Ip, ParseError};

const ADDRESSES: [&str; 6] = [
    "0.0.0.0",
    "10.3.58.77",
    "127.255.255.255",
    "128.0.0.0",
    "192.168.1.100",
    "255.255.255.255",
];

#[test]
fn the_mask_has_as_many_leading_ones_as_the_prefix_says() {
    for bits in 0..=32u8 {
        let mask = Ip::new("10.3.58.77", bits).unwrap().subnet_mask();
        assert_eq!(mask.leading_ones(), bits as u32);
        assert_eq!(mask.trailing_zeros(), 32 - bits as u32);
        assert_eq!(mask.count_ones(), bits as u32);
    }
}

#[test]
fn the_mask_depends_on_the_prefix_alone() {
    for bits in 0..=32u8 {
        let mask = Ip::new("0.0.0.0", bits).unwrap().subnet_mask();
        for address in ADDRESSES {
            assert_eq!(Ip::new(address, bits).unwrap().subnet_mask(), mask);
        }
    }
}

#[test]
fn the_wildcard_mask_is_the_complement_of_the_subnet_mask() {
    for bits in 0..=32u8 {
        let ip = Ip::new("10.3.58.77", bits).unwrap();
        assert_eq!(ip.wildcard_mask(), !ip.subnet_mask());
        let mask = quads_of(ip.subnet_mask());
        let wildcard = quads_of(ip.wildcard_mask());
        for i in 0..4 {
            assert_eq!(wildcard[i], 255 - mask[i]);
        }
    }
}

#[test]
fn masking_the_network_address_again_changes_nothing() {
    for bits in 0..=32u8 {
        for address in ADDRESSES {
            let ip = Ip::new(address, bits).unwrap();
            assert_eq!(ip.network_address() & ip.subnet_mask(), ip.network_address());
            assert!(ip.network_address() <= ip.address());
            assert!(ip.address() <= ip.broadcast_address());
        }
    }
}

#[test]
fn the_broadcast_address_differs_from_the_network_address_in_the_host_bits() {
    for bits in 0..=32u8 {
        for address in ADDRESSES {
            let ip = Ip::new(address, bits).unwrap();
            let network = ip.network_address();
            let broadcast = ip.broadcast_address();
            assert_eq!((broadcast ^ network) & ip.subnet_mask(), 0);
            assert_eq!(broadcast ^ network, ip.wildcard_mask());
            assert_eq!(broadcast | ip.wildcard_mask(), broadcast);
            assert_eq!(broadcast & ip.subnet_mask(), network);
        }
    }
}

#[test]
fn the_broadcast_address_absorbs_the_mask_only_where_the_network_bits_are_ones() {
    for bits in 0..=32u8 {
        for address in ADDRESSES {
            let ip = Ip::new(address, bits).unwrap();
            let broadcast = ip.broadcast_address();
            assert_eq!(
                broadcast | ip.subnet_mask() == broadcast,
                ip.network_address() == ip.subnet_mask()
            );
        }
    }
    let plain = Ip::new("10.3.58.0", 24).unwrap();
    assert_ne!(
        plain.broadcast_address() | plain.subnet_mask(),
        plain.broadcast_address()
    );
    let ones = Ip::new("255.255.255.7", 24).unwrap();
    assert_eq!(
        ones.broadcast_address() | ones.subnet_mask(),
        ones.broadcast_address()
    );
}

#[test]
fn the_host_count_is_two_less_than_the_block_up_to_30_bits() {
    for bits in 0..=30u8 {
        let ip = Ip::new("10.3.58.77", bits).unwrap();
        let expected = (1u64 << (32 - bits)) - 2;
        assert_eq!(ip.get_assignable_hosts() as u64, expected);
        assert_eq!(ip.get_number_ip_addresses() as u64, expected + 1);
    }
    assert_eq!(Ip::new("10.3.58.77", 1).unwrap().get_assignable_hosts(), 2147483646);
    assert_eq!(Ip::new("10.3.58.77", 16).unwrap().get_assignable_hosts(), 65534);
    assert_eq!(Ip::new("10.3.58.77", 30).unwrap().get_assignable_hosts(), 2);
}

#[test]
fn the_host_count_of_the_two_smallest_blocks_is_their_size() {
    assert_eq!(Ip::new("10.3.58.77", 31).unwrap().get_assignable_hosts(), 2);
    assert_eq!(Ip::new("10.3.58.77", 32).unwrap().get_assignable_hosts(), 1);
}

#[test]
fn the_host_count_is_the_length_of_the_host_range() {
    for bits in 0..=32u8 {
        for address in ADDRESSES {
            let ip = Ip::new(address, bits).unwrap();
            let first = parse_address(&ip.get_first_ip_address()).unwrap();
            let last = parse_address(&ip.get_last_ip_address()).unwrap();
            assert_eq!(first, ip.first_ip_address());
            assert_eq!(last, ip.last_ip_address());
            assert!(ip.network_address() <= first);
            assert!(first <= last);
            assert!(last <= ip.broadcast_address());
            assert_eq!(
                ip.get_assignable_hosts() as u64,
                last as u64 - first as u64 + 1
            );
            if bits <= 30 {
                assert_eq!(first, ip.network_address() + 1);
                assert_eq!(last, ip.broadcast_address() - 1);
            } else {
                assert_eq!(first, ip.network_address());
                assert_eq!(last, ip.broadcast_address());
            }
        }
    }
}

#[test]
fn the_texts_are_the_numbers_in_dotted_quad_notation() {
    for bits in 0..=32u8 {
        for address in ADDRESSES {
            let ip = Ip::new(address, bits).unwrap();
            assert_eq!(parse_address(&ip.get_subnet_mask()), Ok(ip.subnet_mask()));
            assert_eq!(parse_address(&ip.get_wildcard_mask()), Ok(ip.wildcard_mask()));
            assert_eq!(parse_address(&ip.get_network_portion()), Ok(ip.network_address()));
            assert_eq!(
                parse_address(&ip.get_broadcast_address()),
                Ok(ip.broadcast_address())
            );
        }
    }
}

#[test]
fn a_number_is_written_without_sign_or_leading_zero() {
    assert_eq!(format_decimal(0), "0");
    assert_eq!(format_decimal(7), "7");
    assert_eq!(format_decimal(10), "10");
    assert_eq!(format_decimal(255), "255");
    assert_eq!(format_decimal(4294967295), "4294967295");
}

#[test]
fn octets_are_split_and_joined_most_significant_first() {
    assert_eq!(quads_of(0xC0A80164), vec![192, 168, 1, 100]);
    assert_eq!(format_quads(&vec![192, 168, 1, 100]), "192.168.1.100");
    assert_eq!(format_quads(&vec![7]), "7");
    assert_eq!(format_quads(&vec![]), "");
}

#[test]
fn what_is_written_is_read_back() {
    for word in [0u32, 1, 255, 256, 0x0A033A4D, 0x7FFFFFFF, 0x80000000, 0xFFFFFFFF] {
        let text = format_quads(&quads_of(word));
        assert_eq!(parse_address(&text), Ok(word));
    }
    assert_eq!(
        parse_address("1.2.3.4.5"),
        Err(ParseError::MalformedAddress("1.2.3.4.5".to_string()))
    );
}
