use device_lock::network::{
    init, parse_address, parse_ip, parse_octet, seed_from_words, DeviceAddress, StaticConfig,
    PREFIX_LEN,
};
use embassy_net::{Config, ConfigV4, Ipv4Address, Ipv4Cidr, StaticConfigV4};

fn address(text: &str) -> Option<[u8; 4]> {
    parse_address(text.as_bytes()).map(|a| a.octets)
}

#[test]
fn dotted_quad_is_read_into_four_octets() {
    assert_eq!(address("192.168.1.7"), Some([192, 168, 1, 7]));
    assert_eq!(address("0.0.0.0"), Some([0, 0, 0, 0]));
    assert_eq!(address("255.255.255.255"), Some([255, 255, 255, 255]));
    assert_eq!(address("10.0.100.9"), Some([10, 0, 100, 9]));
}

#[test]
fn parse_ip_reads_a_well_formed_address() {
    assert_eq!(parse_ip("192.168.4.20"), DeviceAddress { octets: [192, 168, 4, 20] });
    assert_eq!(parse_ip("10.0.0.2").octets, [10, 0, 0, 2]);
}

#[test]
fn sign_and_leading_zeros_are_read() {
    assert_eq!(address("+1.2.3.4"), Some([1, 2, 3, 4]));
    assert_eq!(address("1.+2.3.+4"), Some([1, 2, 3, 4]));
    assert_eq!(address("01.002.0003.4"), Some([1, 2, 3, 4]));
    assert_eq!(address("000000000000000000000255.0.0.00"), Some([255, 0, 0, 0]));
    assert_eq!(address("+007.0.0.1"), Some([7, 0, 0, 1]));
}

#[test]
fn wrong_number_of_fields_is_malformed() {
    assert_eq!(address(""), None);
    assert_eq!(address("1"), None);
    assert_eq!(address("1.2"), None);
    assert_eq!(address("1.2.3"), None);
    assert_eq!(address("1.2.3.4.5"), None);
    assert_eq!(address("1.2.3.4."), None);
    assert_eq!(address(".1.2.3.4"), None);
}

#[test]
fn field_that_writes_no_octet_is_malformed() {
    assert_eq!(address("256.1.1.1"), None);
    assert_eq!(address("1.1.1.256"), None);
    assert_eq!(address("1.1.1.1000"), None);
    assert_eq!(address("1..2.3"), None);
    assert_eq!(address("1.2.3."), None);
    assert_eq!(address("a.b.c.d"), None);
    assert_eq!(address("1.2.3.4 "), None);
    assert_eq!(address(" 1.2.3.4"), None);
    assert_eq!(address("-1.2.3.4"), None);
    assert_eq!(address("1.2.3.+"), None);
    assert_eq!(address("1.2.3.++4"), None);
    assert_eq!(address("1.2.3.4+"), None);
    assert_eq!(address("1.2.3.0x4"), None);
    assert_eq!(address("1.2.3.4\n"), None);
}

#[test]
fn octet_agrees_with_the_standard_parser() {
    let fields: [&str; 16] = [
        "", "0", "7", "42", "255", "256", "300", "0255", "+", "+0", "+255", "+256", "-0", "1a",
        "99999999999999999999", "00000000000000000000",
    ];
    for field in fields {
        assert_eq!(parse_octet(field.as_bytes()), field.parse::<u8>().ok(), "{:?}", field);
    }
    for value in 0..=999u32 {
        let field = format!("{}", value);
        assert_eq!(parse_octet(field.as_bytes()), field.parse::<u8>().ok());
    }
}

#[test]
fn address_is_written_as_a_dotted_quad() {
    assert_eq!(DeviceAddress { octets: [192, 168, 1, 7] }.to_text(), b"192.168.1.7".to_vec());
    assert_eq!(DeviceAddress { octets: [0, 10, 100, 255] }.to_text(), b"0.10.100.255".to_vec());
    assert_eq!(DeviceAddress { octets: [9, 99, 199, 200] }.to_text(), b"9.99.199.200".to_vec());
    assert_eq!(DeviceAddress { octets: [0, 0, 0, 0] }.to_text(), b"0.0.0.0".to_vec());
}

#[test]
fn canonical_text_round_trips() {
    for text in ["192.168.1.7", "0.0.0.0", "255.255.255.255", "10.0.100.9", "1.20.255.0"] {
        let address = parse_address(text.as_bytes()).unwrap();
        assert_eq!(address.to_text(), text.as_bytes().to_vec());
    }
}

#[test]
fn text_with_sign_or_leading_zero_does_not_round_trip() {
    assert_eq!(parse_address(b"+1.2.3.4").unwrap().to_text(), b"1.2.3.4".to_vec());
    assert_eq!(parse_address(b"01.2.3.4").unwrap().to_text(), b"1.2.3.4".to_vec());
}

#[test]
fn every_address_is_read_back_from_its_text() {
    for v in 0..=255u8 {
        let address = DeviceAddress { octets: [v, 255 - v, v / 2, v.wrapping_mul(7)] };
        assert_eq!(parse_address(&address.to_text()), Some(address));
        assert_eq!(
            address.to_text(),
            format!("{}.{}.{}.{}", v, 255 - v, v / 2, v.wrapping_mul(7)).into_bytes()
        );
    }
}

#[test]
fn device_is_configured_without_gateway_and_name_servers() {
    let settings = StaticConfig::for_device(DeviceAddress { octets: [192, 168, 1, 7] });
    assert_eq!(settings.address.octets, [192, 168, 1, 7]);
    assert_eq!(settings.prefix_len, 24);
    assert_eq!(PREFIX_LEN, 24);
    assert_eq!(settings.gateway, None);
    assert!(settings.dns_servers.is_empty());
}

#[test]
fn stack_is_configured_with_the_static_address() {
    let expected = Config::ipv4_static(StaticConfigV4 {
        address: Ipv4Cidr::new(Ipv4Address::new(192, 168, 1, 7), 24),
        gateway: None,
        dns_servers: Default::default(),
    });
    assert_eq!(init("192.168.1.7"), expected);
    assert_ne!(init("192.168.1.8"), expected);
    match init("10.0.0.2").ipv4 {
        ConfigV4::Static(v4) => {
            assert_eq!(v4.address.address().octets(), [10, 0, 0, 2]);
            assert_eq!(v4.address.prefix_len(), 24);
            assert_eq!(v4.gateway, None);
            assert!(v4.dns_servers.is_empty());
        }
        other => panic!("{:?}", other),
    }
}

#[test]
fn seed_puts_the_first_word_in_the_upper_half() {
    assert_eq!(seed_from_words(0x1234_5678, 0x9abc_def0), 0x1234_5678_9abc_def0);
    assert_eq!(seed_from_words(0, 1), 1);
    assert_eq!(seed_from_words(1, 0), 0x1_0000_0000);
    assert_eq!(seed_from_words(u32::MAX, u32::MAX), u64::MAX);
    assert_eq!(seed_from_words(0, 0), 0);
}
