use file_relay::address::{parse_ipv4, parse_octet, AddressParseError};

fn octets(text: &str) -> Option<[u8; 4]> {
    parse_ipv4(text).ok()
}

fn chars(text: &str) -> Vec<char> {
    text.chars().collect()
}

#[test]
fn dotted_decimal_is_read() {
    assert_eq!(octets("192.168.55.47"), Some([192, 168, 55, 47]));
    assert_eq!(octets("58.229.94.229"), Some([58, 229, 94, 229]));
    assert_eq!(octets("127.0.0.1"), Some([127, 0, 0, 1]));
    assert_eq!(octets("0.0.0.0"), Some([0, 0, 0, 0]));
    assert_eq!(octets("255.255.255.255"), Some([255, 255, 255, 255]));
    assert_eq!(octets("1.2.3.4"), Some([1, 2, 3, 4]));
    assert_eq!(octets("10.20.30.40"), Some([10, 20, 30, 40]));
}

#[test]
fn wrong_number_of_fields_is_refused() {
    assert_eq!(octets(""), None);
    assert_eq!(octets("1"), None);
    assert_eq!(octets("1.2"), None);
    assert_eq!(octets("1.2.3"), None);
    assert_eq!(octets("1.2.3.4.5"), None);
    assert_eq!(octets("1.2.3.4."), None);
    assert_eq!(octets(".1.2.3.4"), None);
    assert_eq!(octets("..."), None);
}

#[test]
fn empty_field_is_refused() {
    assert_eq!(octets("1..3.4"), None);
    assert_eq!(octets("1.2.3."), None);
    assert_eq!(octets(".2.3.4"), None);
}

#[test]
fn octet_out_of_range_is_refused() {
    assert_eq!(octets("256.1.1.1"), None);
    assert_eq!(octets("1.1.1.256"), None);
    assert_eq!(octets("1.300.1.1"), None);
    assert_eq!(octets("1.1.999.1"), None);
    assert_eq!(octets("1.1.1000.1"), None);
    assert_eq!(octets("1.1.1.0255"), None);
}

#[test]
fn zero_in_front_is_refused() {
    assert_eq!(octets("01.2.3.4"), None);
    assert_eq!(octets("1.02.3.4"), None);
    assert_eq!(octets("1.2.3.00"), None);
    assert_eq!(octets("1.2.3.007"), None);
    assert_eq!(octets("0.0.0.0"), Some([0, 0, 0, 0]));
}

#[test]
fn other_characters_are_refused() {
    assert_eq!(octets("1.2.3.4 "), None);
    assert_eq!(octets(" 1.2.3.4"), None);
    assert_eq!(octets("1.2.3.a"), None);
    assert_eq!(octets("1.2.-3.4"), None);
    assert_eq!(octets("1.2.+3.4"), None);
    assert_eq!(octets("1,2,3,4"), None);
    assert_eq!(octets("localhost"), None);
    assert_eq!(octets("１.2.3.4"), None);
    assert_eq!(octets("1.2.3.4\n"), None);
    assert_eq!(octets("::1"), None);
}

#[test]
fn error_text_is_fixed() {
    assert_eq!(AddressParseError.message(), "invalid IPv4 address syntax");
    assert_eq!(parse_ipv4("nonsense").unwrap_err().message(), "invalid IPv4 address syntax");
}

#[test]
fn octet_field_is_read() {
    assert_eq!(parse_octet(&chars("0")), Some(0));
    assert_eq!(parse_octet(&chars("7")), Some(7));
    assert_eq!(parse_octet(&chars("42")), Some(42));
    assert_eq!(parse_octet(&chars("199")), Some(199));
    assert_eq!(parse_octet(&chars("255")), Some(255));
    assert_eq!(parse_octet(&chars("256")), None);
    assert_eq!(parse_octet(&chars("")), None);
    assert_eq!(parse_octet(&chars("00")), None);
    assert_eq!(parse_octet(&chars("012")), None);
    assert_eq!(parse_octet(&chars("1234")), None);
    assert_eq!(parse_octet(&chars("1a")), None);
    assert_eq!(parse_octet(&chars("٣")), None);
}
