use dummy_ambient_client::endpoint::{
    create_client_endpoint_random_port, transport_settings, trust_extra_certificate,
    trust_outcome, EndpointError, TransportSettings, ALPN_PROTOCOL, IDLE_TIMEOUT_SECS,
    KEEP_ALIVE_SECS, MAX_BIND_ATTEMPTS, PORT_END, PORT_MIN,
};

/// A self-signed certificate for `localhost`, DER-encoded.
fn localhost_certificate() -> Vec<u8> {
    vec![
        0x30, 0x82, 0x01, 0x7f, 0x30, 0x82, 0x01, 0x25, 0xa0, 0x03, 0x02, 0x01, 0x02, 0x02, 0x14, 0x58,
        0x19, 0x31, 0xe1, 0xc5, 0x93, 0x19, 0xc8, 0xa3, 0xa7, 0x42, 0x64, 0x59, 0xaa, 0x84, 0x65, 0x49,
        0x4a, 0x2f, 0x6d, 0x30, 0x0a, 0x06, 0x08, 0x2a, 0x86, 0x48, 0xce, 0x3d, 0x04, 0x03, 0x02, 0x30,
        0x14, 0x31, 0x12, 0x30, 0x10, 0x06, 0x03, 0x55, 0x04, 0x03, 0x0c, 0x09, 0x6c, 0x6f, 0x63, 0x61,
        0x6c, 0x68, 0x6f, 0x73, 0x74, 0x30, 0x20, 0x17, 0x0d, 0x32, 0x36, 0x31, 0x30, 0x32, 0x38, 0x32,
        0x31, 0x34, 0x33, 0x35, 0x38, 0x5a, 0x18, 0x0f, 0x32, 0x31, 0x32, 0x36, 0x31, 0x30, 0x30, 0x34,
        0x32, 0x31, 0x34, 0x33, 0x35, 0x38, 0x5a, 0x30, 0x14, 0x31, 0x12, 0x30, 0x10, 0x06, 0x03, 0x55,
        0x04, 0x03, 0x0c, 0x09, 0x6c, 0x6f, 0x63, 0x61, 0x6c, 0x68, 0x6f, 0x73, 0x74, 0x30, 0x59, 0x30,
        0x13, 0x06, 0x07, 0x2a, 0x86, 0x48, 0xce, 0x3d, 0x02, 0x01, 0x06, 0x08, 0x2a, 0x86, 0x48, 0xce,
        0x3d, 0x03, 0x01, 0x07, 0x03, 0x42, 0x00, 0x04, 0xb5, 0x28, 0xf8, 0xa8, 0x24, 0xba, 0x87, 0xfd,
        0x60, 0x2e, 0x3d, 0x23, 0xb6, 0x4c, 0x13, 0xb2, 0x48, 0xa4, 0x22, 0x83, 0xf5, 0x95, 0xd1, 0x8a,
        0x26, 0x13, 0xc1, 0xe9, 0x1c, 0xfe, 0x34, 0x57, 0x0c, 0x92, 0x5e, 0xbf, 0xcf, 0x47, 0x14, 0x14,
        0x6d, 0xcc, 0x97, 0x52, 0xf8, 0x59, 0xbc, 0x9d, 0xfe, 0x8d, 0x03, 0xdb, 0xcc, 0xa0, 0x48, 0xd8,
        0x2e, 0x31, 0xb1, 0x76, 0xcf, 0xf6, 0xea, 0x5e, 0xa3, 0x53, 0x30, 0x51, 0x30, 0x1d, 0x06, 0x03,
        0x55, 0x1d, 0x0e, 0x04, 0x16, 0x04, 0x14, 0xb7, 0xcb, 0xa8, 0x61, 0xf4, 0x1a, 0x1c, 0x0b, 0x44,
        0x9a, 0xa8, 0x65, 0xc8, 0x94, 0x30, 0xaf, 0x71, 0xdd, 0xf5, 0x65, 0x30, 0x1f, 0x06, 0x03, 0x55,
        0x1d, 0x23, 0x04, 0x18, 0x30, 0x16, 0x80, 0x14, 0xb7, 0xcb, 0xa8, 0x61, 0xf4, 0x1a, 0x1c, 0x0b,
        0x44, 0x9a, 0xa8, 0x65, 0xc8, 0x94, 0x30, 0xaf, 0x71, 0xdd, 0xf5, 0x65, 0x30, 0x0f, 0x06, 0x03,
        0x55, 0x1d, 0x13, 0x01, 0x01, 0xff, 0x04, 0x05, 0x30, 0x03, 0x01, 0x01, 0xff, 0x30, 0x0a, 0x06,
        0x08, 0x2a, 0x86, 0x48, 0xce, 0x3d, 0x04, 0x03, 0x02, 0x03, 0x48, 0x00, 0x30, 0x45, 0x02, 0x20,
        0x03, 0x92, 0xfd, 0xc1, 0x13, 0x63, 0xb2, 0x67, 0x64, 0x9b, 0x51, 0xe6, 0x40, 0xe7, 0x53, 0xb8,
        0x59, 0x8b, 0x1c, 0x67, 0x94, 0x93, 0xad, 0xbe, 0x54, 0x67, 0x6e, 0x1a, 0xc9, 0x9c, 0x2d, 0xe9,
        0x02, 0x21, 0x00, 0xeb, 0xb2, 0xd5, 0x67, 0x8c, 0x65, 0xf7, 0x03, 0xef, 0x5d, 0x23, 0xea, 0x56,
        0x04, 0x8a, 0xc8, 0xe4, 0x2a, 0xed, 0x8e, 0xac, 0xde, 0xe2, 0x6e, 0x43, 0x28, 0x4a, 0x88, 0xd3,
        0x71, 0x86, 0x08,
    ]
}

fn setup() -> dummy_ambient_client::endpoint::EndpointSetup {
    let mut roots = rustls::RootCertStore::empty();
    create_client_endpoint_random_port(&mut roots, None, true).unwrap()
}

#[test]
fn third_bind_attempt_may_succeed() {
    let mut setup = setup();
    let binds = [false, false, true];
    let mut bound = None;
    for ok in binds {
        let port = setup.next_port().unwrap();
        assert!(PORT_MIN <= port && port < PORT_END);
        if ok {
            bound = Some(port);
            break;
        }
    }
    assert!(bound.is_some());
    assert_eq!(setup.attempts_made(), 3);
}

#[test]
fn ten_failed_bind_attempts_exhaust_the_ports() {
    let mut setup = setup();
    for attempt in 1..=10u8 {
        let port = setup.next_port().unwrap();
        assert!((15000..25000).contains(&port));
        assert_eq!(setup.attempts_made(), attempt);
    }
    assert_eq!(setup.next_port(), Err(EndpointError::PortExhausted));
    assert_eq!(setup.next_port(), Err(EndpointError::PortExhausted));
    assert_eq!(setup.next_port_from(20000), Err(EndpointError::PortExhausted));
    assert_eq!(setup.attempts_made(), MAX_BIND_ATTEMPTS);
}

#[test]
fn offered_port_is_the_candidate() {
    let mut setup = setup();
    assert_eq!(setup.next_port_from(15000), Ok(15000));
    assert_eq!(setup.next_port_from(24999), Ok(24999));
    assert_eq!(setup.attempts_made(), 2);
}

#[test]
fn ports_are_drawn_at_random_from_the_range() {
    let mut seen = std::collections::BTreeSet::new();
    for _ in 0..50 {
        let mut setup = setup();
        while let Ok(port) = setup.next_port() {
            assert!(PORT_MIN <= port && port < PORT_END);
            seen.insert(port);
        }
    }
    assert!(seen.len() > 100);
}

#[test]
fn settings_of_the_transport() {
    assert_eq!(
        transport_settings(true),
        TransportSettings { tls13_only: true, keep_alive_secs: 1, idle_timeout_secs: Some(60) }
    );
    assert_eq!(
        transport_settings(false),
        TransportSettings { tls13_only: true, keep_alive_secs: 1, idle_timeout_secs: None }
    );
    assert_eq!(TransportSettings::default(), transport_settings(true));
    assert_eq!(KEEP_ALIVE_SECS, 1);
    assert_eq!(IDLE_TIMEOUT_SECS, 60);
    assert_eq!(ALPN_PROTOCOL, "ambient-02");
}

#[test]
fn setup_carries_the_settings() {
    let mut roots = rustls::RootCertStore::empty();
    let on = create_client_endpoint_random_port(&mut roots, None, true).unwrap();
    assert_eq!(on.transport(), transport_settings(true));
    assert_eq!(on.attempts_made(), 0);
    let off = create_client_endpoint_random_port(&mut roots, None, false).unwrap();
    assert_eq!(off.transport(), transport_settings(false));
    assert!(roots.is_empty());
}

#[test]
fn extra_certificate_is_added_to_the_roots() {
    let mut roots = rustls::RootCertStore::empty();
    let setup = create_client_endpoint_random_port(&mut roots, Some(localhost_certificate()), true);
    assert!(setup.is_ok());
    assert_eq!(roots.len(), 1);
    assert_eq!(trust_extra_certificate(&mut roots, Some(localhost_certificate())), Ok(()));
    assert_eq!(roots.len(), 2);
    assert_eq!(trust_extra_certificate(&mut roots, None), Ok(()));
    assert_eq!(roots.len(), 2);
}

#[test]
fn certificate_that_cannot_be_added_fails_the_setup() {
    let mut roots = rustls::RootCertStore::empty();
    let mut cut = localhost_certificate();
    cut.truncate(100);
    for der in [Vec::new(), vec![0x30, 0x03, 0x02, 0x01, 0x00], cut] {
        let setup = create_client_endpoint_random_port(&mut roots, Some(der.clone()), true);
        assert_eq!(setup.err(), Some(EndpointError::TrustConfiguration));
        assert_eq!(
            trust_extra_certificate(&mut roots, Some(der)),
            Err(EndpointError::TrustConfiguration)
        );
        assert!(roots.is_empty());
    }
}

#[test]
fn failure_to_add_is_a_failure_to_configure_trust() {
    assert_eq!(trust_outcome(Ok(())), Ok(()));
    assert_eq!(
        trust_outcome(Err(rustls::Error::General("no".to_string()))),
        Err(EndpointError::TrustConfiguration)
    );
}
