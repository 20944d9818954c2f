use cidr_calc::parse::{parse_address, parse_prefix};
use cidr_calc::{get_cidr_details, parse_cidr, Ip, ParseError};

#[test]
fn three_octets_are_a_malformed_address() {
    assert_eq!(
        parse_cidr("10.3.58/24"),
        Err(ParseError::MalformedAddress("10.3.58".to_string()))
    );
    assert_eq!(
        get_cidr_details("10.3.58/24"),
        Err(ParseError::MalformedAddress("10.3.58".to_string()))
    );
}

#[test]
fn five_octets_are_a_malformed_address() {
    assert_eq!(
        parse_cidr("10.3.58.0.1/24"),
        Err(ParseError::MalformedAddress("10.3.58.0.1".to_string()))
    );
}

#[test]
fn an_octet_above_255_is_a_malformed_address() {
    assert_eq!(
        parse_cidr("10.3.256.0/24"),
        Err(ParseError::MalformedAddress("10.3.256.0".to_string()))
    );
    assert!(parse_cidr("10.3.255.0/24").is_ok());
}

#[test]
fn an_octet_beyond_the_machine_word_is_a_malformed_address() {
    assert_eq!(
        parse_cidr("10.3.99999999999999999999.0/24"),
        Err(ParseError::MalformedAddress("10.3.99999999999999999999.0".to_string()))
    );
    assert_eq!(
        parse_cidr("10.3.4294967296.0/24"),
        Err(ParseError::MalformedAddress("10.3.4294967296.0".to_string()))
    );
}

#[test]
fn an_octet_that_is_no_number_is_a_malformed_address() {
    for address in ["10.3.x.0", "10.3..0", "10.3.58.", ".10.3.58", "10.3.-5.0", "10.3.5 .0", " 10.3.5.0", "10.3.5.0 ", "", "10.3.5,0", "10.3.5.٣"] {
        let cidr = format!("{}/24", address);
        assert_eq!(
            parse_cidr(&cidr),
            Err(ParseError::MalformedAddress(address.to_string()))
        );
    }
}

#[test]
fn a_text_without_a_slash_misses_the_separator() {
    assert_eq!(
        parse_cidr("10.3.58.0"),
        Err(ParseError::MissingSeparator("10.3.58.0".to_string()))
    );
    assert_eq!(parse_cidr(""), Err(ParseError::MissingSeparator("".to_string())));
    assert_eq!(
        parse_cidr("not a block"),
        Err(ParseError::MissingSeparator("not a block".to_string()))
    );
    assert_eq!(
        get_cidr_details("10.3.58.0"),
        Err(ParseError::MissingSeparator("10.3.58.0".to_string()))
    );
}

#[test]
fn a_prefix_above_32_is_a_malformed_prefix() {
    assert_eq!(
        parse_cidr("10.3.58.0/33"),
        Err(ParseError::MalformedPrefix("33".to_string()))
    );
    assert_eq!(
        parse_cidr("10.3.58.0/256"),
        Err(ParseError::MalformedPrefix("256".to_string()))
    );
    assert!(parse_cidr("10.3.58.0/32").is_ok());
}

#[test]
fn a_prefix_that_is_no_number_is_a_malformed_prefix() {
    for prefix in ["", "x", "2x", "-1", " 24", "24 ", "24/7", "/", "2.4", "255.255.255.0"] {
        let cidr = format!("10.3.58.0/{}", prefix);
        assert_eq!(
            parse_cidr(&cidr),
            Err(ParseError::MalformedPrefix(prefix.to_string()))
        );
    }
}

#[test]
fn the_address_is_reported_before_the_prefix() {
    assert_eq!(
        parse_cidr("10.3.58/99"),
        Err(ParseError::MalformedAddress("10.3.58".to_string()))
    );
    assert_eq!(
        parse_cidr("/"),
        Err(ParseError::MalformedAddress("".to_string()))
    );
    assert_eq!(
        Ip::new("10.3.58", 99),
        Err(ParseError::MalformedAddress("10.3.58".to_string()))
    );
}

#[test]
fn a_numeral_may_have_a_plus_sign_and_leading_zeros() {
    let ip = parse_cidr("+10.003.0058.0/+024").unwrap();
    assert_eq!(ip.address(), 0x0A033A00);
    assert_eq!(ip.subnet_bits(), 24);
    let zeros = parse_cidr("0000000000000000000000010.0.0.000/00000000000000000000008").unwrap();
    assert_eq!(zeros.address(), 0x0A000000);
    assert_eq!(zeros.subnet_bits(), 8);
    assert_eq!(
        parse_cidr("++10.0.0.0/8"),
        Err(ParseError::MalformedAddress("++10.0.0.0".to_string()))
    );
    assert_eq!(
        parse_cidr("10.0.0.0/+"),
        Err(ParseError::MalformedPrefix("+".to_string()))
    );
}

#[test]
fn the_octets_are_read_most_significant_first() {
    assert_eq!(parse_address("1.2.3.4"), Ok(0x01020304));
    assert_eq!(parse_address("255.255.255.255"), Ok(0xFFFFFFFF));
    assert_eq!(parse_address("0.0.0.0"), Ok(0));
    assert_eq!(parse_address("192.168.1.100"), Ok(0xC0A80164));
    assert_eq!(
        parse_address("1.2.3"),
        Err(ParseError::MalformedAddress("1.2.3".to_string()))
    );
}

#[test]
fn the_prefix_is_read_as_a_number() {
    assert_eq!(parse_prefix("0"), Ok(0));
    assert_eq!(parse_prefix("7"), Ok(7));
    assert_eq!(parse_prefix("32"), Ok(32));
    assert_eq!(
        parse_prefix("33"),
        Err(ParseError::MalformedPrefix("33".to_string()))
    );
}

#[test]
fn a_new_ip_checks_its_subnet_bits() {
    assert!(Ip::new("10.3.58.0", 0).is_ok());
    assert!(Ip::new("10.3.58.0", 32).is_ok());
    assert_eq!(
        Ip::new("10.3.58.0", 33),
        Err(ParseError::MalformedPrefix("33".to_string()))
    );
    assert_eq!(
        Ip::new("10.3.58.0", 255),
        Err(ParseError::MalformedPrefix("255".to_string()))
    );
}

#[test]
fn a_new_ip_is_the_parsed_block() {
    assert_eq!(Ip::new("10.3.58.0", 24), parse_cidr("10.3.58.0/24"));
    assert_ne!(Ip::new("10.3.58.0", 24), parse_cidr("10.3.58.0/25"));
    assert_ne!(Ip::new("10.3.58.0", 24), parse_cidr("10.3.58.1/24"));
}

#[test]
fn the_address_is_kept_as_given() {
    let ip = parse_cidr("10.3.58.77/8").unwrap();
    assert_eq!(ip.address(), 0x0A033A4D);
    assert_eq!(ip.get_ip_address_quads(), vec![10, 3, 58, 77]);
    assert_eq!(ip.get_network_portion(), "10.0.0.0");
}
