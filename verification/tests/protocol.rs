use maix_net::protocol::parse_port;
use maix_net::protocol::parse_server_protocol;
use maix_net::protocol::Protocol;

#[test]
fn client_accepts_long_and_short_tokens() {
    assert_eq!(Protocol::from_arg_value("tcp"), Ok(Protocol::TCP));
    assert_eq!(Protocol::from_arg_value("t"), Ok(Protocol::TCP));
    assert_eq!(Protocol::from_arg_value("udp"), Ok(Protocol::UDP));
    assert_eq!(Protocol::from_arg_value("u"), Ok(Protocol::UDP));
}

#[test]
fn client_token_is_case_insensitive_and_trimmed() {
    assert_eq!(Protocol::from_arg_value("TCP"), Ok(Protocol::TCP));
    assert_eq!(Protocol::from_arg_value(" UdP\n"), Ok(Protocol::UDP));
    assert_eq!(Protocol::from_arg_value("\tT "), Ok(Protocol::TCP));
}

#[test]
fn client_rejects_unknown_token_with_usage_message() {
    let e = Protocol::from_arg_value("foo").unwrap_err();
    assert_eq!(e, "The argument must be either 'tcp'('t') or 'udp'('u')");
    assert!(Protocol::from_arg_value("").is_err());
    assert!(Protocol::from_arg_value("tc").is_err());
    assert!(Protocol::from_arg_value("tcpp").is_err());
}

#[test]
fn server_accepts_only_full_words() {
    assert_eq!(parse_server_protocol("tcp"), Ok(Protocol::TCP));
    assert_eq!(parse_server_protocol(" UDP "), Ok(Protocol::UDP));
    assert!(parse_server_protocol("t").is_err());
    assert!(parse_server_protocol("u").is_err());
}

#[test]
fn server_rejects_invalid_token_and_returns_it() {
    assert_eq!(parse_server_protocol("foo"), Err(String::from("foo")));
    assert!(parse_server_protocol("").is_err());
}

#[test]
fn ports_parse_in_range() {
    assert_eq!(parse_port("0"), Ok(0));
    assert_eq!(parse_port("80"), Ok(80));
    assert_eq!(parse_port("65535"), Ok(65535));
    assert_eq!(parse_port(" 8080 "), Ok(8080));
    assert_eq!(parse_port("+443"), Ok(443));
    assert_eq!(parse_port("007"), Ok(7));
}

#[test]
fn ports_out_of_range_or_malformed_are_rejected() {
    assert_eq!(parse_port("65536"), Err(String::from("65536")));
    assert!(parse_port("999999999999999999").is_err());
    assert!(parse_port("abc").is_err());
    assert!(parse_port("12a").is_err());
    assert!(parse_port("-1").is_err());
    assert!(parse_port("").is_err());
    assert!(parse_port("+").is_err());
}
