use vio_api::settings::parse_port;

#[test]
fn parse_port_reads_as_u16_from_str_does() {
    for s in ["0", "80", "8000", "+8000", "065535", "65535", "65536", "", "+", "-1", "8o", " 80", "99999999999", "++1", "١٢"] {
        assert_eq!(parse_port(s), s.parse::<u16>().ok(), "{:?}", s);
    }
    assert_eq!(parse_port("8000"), Some(8000));
    assert_eq!(parse_port("65536"), None);
}
