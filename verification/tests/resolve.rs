use dummy_ambient_client::net::{
    find_colon, names_url, resolve, resolve_fetched, trim, white_space, with_default_port,
    IpAddress, ResolutionError, ResolveStep, ResolvedAddr, SocketAddress,
};

fn v4(a: u8, b: u8, c: u8, d: u8, port: u16) -> SocketAddress {
    SocketAddress { ip: IpAddress::V4([a, b, c, d]), port }
}

fn v6(last: u16, port: u16) -> SocketAddress {
    SocketAddress { ip: IpAddress::V6([0x2001, 0xdb8, 0, 0, 0, 0, 0, last]), port }
}

#[test]
fn host_without_port_gets_the_default_port() {
    assert_eq!(
        resolve("example.com".to_string()),
        ResolveStep::Lookup("example.com:9000".to_string())
    );
    let found = vec![v4(93, 184, 216, 34, 9000)];
    let resolved = ResolvedAddr::lookup_host("example.com:9000", &found).unwrap();
    assert_eq!(resolved.host_name, "example.com");
    assert_eq!(resolved.addr, v4(93, 184, 216, 34, 9000));
}

#[test]
fn host_with_port_keeps_it() {
    assert_eq!(
        resolve("example.com:1234".to_string()),
        ResolveStep::Lookup("example.com:1234".to_string())
    );
    assert_eq!(with_default_port("h:".to_string()), "h:");
    assert_eq!(with_default_port("".to_string()), ":9000");
}

#[test]
fn url_is_fetched_and_its_body_resolved() {
    assert_eq!(resolve("http://x".to_string()), ResolveStep::Fetch("http://x".to_string()));
    assert_eq!(
        resolve("https://x/where".to_string()),
        ResolveStep::Fetch("https://x/where".to_string())
    );
    assert_eq!(resolve_fetched("example.org"), Ok("example.org:9000".to_string()));
    assert_eq!(resolve_fetched(" example.org:7000\r\n"), Ok("example.org:7000".to_string()));
}

#[test]
fn body_of_a_url_is_taken_literally() {
    assert_eq!(resolve_fetched("http://y\n"), Ok("http://y".to_string()));
}

#[test]
fn empty_body_names_no_host() {
    assert_eq!(resolve_fetched(""), Err(ResolutionError::EmptyHost));
    assert_eq!(resolve_fetched(" \t\r\n\u{a0}\u{3000}"), Err(ResolutionError::EmptyHost));
}

#[test]
fn what_counts_as_url() {
    assert!(names_url("http://"));
    assert!(names_url("https://host"));
    assert!(!names_url("http:/host"));
    assert!(!names_url("HTTP://host"));
    assert!(!names_url("ftp://host"));
    assert!(!names_url("http"));
    assert!(!names_url(""));
    assert!(!names_url(" http://host"));
}

#[test]
fn first_ipv4_address_is_taken() {
    let found = vec![v6(1, 9000), v4(10, 0, 0, 1, 9000), v6(2, 9000), v4(10, 0, 0, 2, 9000)];
    let resolved = ResolvedAddr::lookup_host("srv:9000", &found).unwrap();
    assert_eq!(resolved.addr, v4(10, 0, 0, 1, 9000));
    assert_eq!(resolved.host_name, "srv");
}

#[test]
fn host_without_ipv4_address_is_not_resolved() {
    let only_v6 = vec![v6(1, 9000), v6(2, 9000)];
    assert_eq!(
        ResolvedAddr::lookup_host("srv:9000", &only_v6).err(),
        Some(ResolutionError::NoIpv4Address)
    );
    assert_eq!(
        ResolvedAddr::lookup_host("srv:9000", &Vec::new()).err(),
        Some(ResolutionError::NoIpv4Address)
    );
}

#[test]
fn host_name_is_what_stands_before_the_first_colon() {
    let found = vec![v4(1, 2, 3, 4, 5)];
    assert_eq!(ResolvedAddr::lookup_host("a:b:c", &found).unwrap().host_name, "a");
    assert_eq!(ResolvedAddr::lookup_host("plain", &found).unwrap().host_name, "plain");
    assert_eq!(ResolvedAddr::lookup_host(":1", &found).unwrap().host_name, "");
    assert_eq!(ResolvedAddr::lookup_host("h\u{f6}st:1", &found).unwrap().host_name, "h\u{f6}st");
}

#[test]
fn localhost() {
    let resolved = ResolvedAddr::localhost_with_port(4433);
    assert_eq!(resolved.host_name, "localhost");
    assert_eq!(resolved.addr, v4(127, 0, 0, 1, 4433));
}

#[test]
fn colon_positions() {
    assert_eq!(find_colon(""), 0);
    assert_eq!(find_colon(":"), 0);
    assert_eq!(find_colon("ab"), 2);
    assert_eq!(find_colon("ab:cd:ef"), 2);
    assert_eq!(find_colon("\u{e9}\u{e9}:"), 2);
}

#[test]
fn trimming() {
    assert_eq!(trim(""), "");
    assert_eq!(trim("a"), "a");
    assert_eq!(trim("  a b  "), "a b");
    assert_eq!(trim("\u{2003}\u{e9} \u{e9}\u{85}\n"), "\u{e9} \u{e9}");
    assert_eq!(trim("\t\n\u{b}\u{c}\r x"), "x");
    assert_eq!(trim("x\u{200b}"), "x\u{200b}");
    assert_eq!(trim(" \n "), "");
}

#[test]
fn white_space_is_what_std_takes_for_it() {
    for code in 0..=0x10ffffu32 {
        if let Some(c) = char::from_u32(code) {
            assert_eq!(white_space(c), c.is_whitespace());
        }
    }
}
