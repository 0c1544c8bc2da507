//! Setting up the client's transport endpoint.
//!
//! The endpoint trusts the roots it is given and, where there is one, an
//! extra certificate. It is bound to a local port drawn at random from a
//! fixed range; a port that is taken is no failure until ten ports in a row
//! were. Binding is left to the caller, who asks for one port after the
//! other.

use rand::Rng;
use vstd::prelude::*;

verus! {

/// First port of the range that local ports are drawn from.
pub const PORT_MIN: u16 = 15000;

/// First port after the range that local ports are drawn from.
pub const PORT_END: u16 = 25000;

/// Number of ports that are tried before giving up.
pub const MAX_BIND_ATTEMPTS: u8 = 10;

/// Seconds between two keep-alive packets.
pub const KEEP_ALIVE_SECS: u64 = 1;

/// Seconds of silence after which the connection is given up.
pub const IDLE_TIMEOUT_SECS: u64 = 60;

/// The one application protocol that the client offers.
pub const ALPN_PROTOCOL: &'static str = "ambient-02";

/// Why no endpoint could be set up.
#[derive(Clone, Copy, Debug, PartialEq, Eq)]
pub enum EndpointError {
    /// The extra certificate could not be added to the trusted roots.
    TrustConfiguration,
    /// Ten ports in a row could not be bound.
    PortExhausted,
}

/// How the transport is to be configured.
#[derive(Clone, Copy, Debug, PartialEq, Eq)]
pub struct TransportSettings {
    /// Whether TLS 1.3 is the only version of TLS to accept.
    pub tls13_only: bool,
    /// Seconds between two keep-alive packets.
    pub keep_alive_secs: u64,
    /// Seconds of silence after which the connection is given up; none
    /// where it is never given up.
    pub idle_timeout_secs: Option<u64>,
}

/// Declares `rustls::RootCertStore`, the set of trusted roots, as a type
/// whose inside is not looked at.
#[verifier::external_type_specification]
#[verifier::external_body]
pub struct ExRootCertStore(rustls::RootCertStore);

/// Declares `rustls::Error` as a type whose inside is not looked at.
#[verifier::external_type_specification]
#[verifier::external_body]
pub struct ExTlsError(rustls::Error);

/// A trust anchor: the bytes of its subject, of its public key and of its
/// name constraints.
pub type TrustAnchor = (Seq<u8>, Seq<u8>, Option<Seq<u8>>);

/// The trust anchors that a root store holds, in the order in which they
/// were added.
pub uninterp spec fn trust_anchors(store: rustls::RootCertStore) -> Seq<TrustAnchor>;

/// The trust anchor that a DER-encoded certificate gives; none where the
/// certificate cannot be parsed.
pub uninterp spec fn anchor_of(der: Seq<u8>) -> Option<TrustAnchor>;

/// Adds a DER-encoded certificate to a root store.
///
/// Calls `rustls::RootCertStore::add`. Trusted: the call succeeds exactly
/// where the certificate parses as a trust anchor, in which case that anchor
/// is added behind the others; where it fails the store is left as it was.
#[verifier::external_body]
fn add_root(roots: &mut rustls::RootCertStore, der: Vec<u8>) -> (added: Result<(), rustls::Error>)
    ensures
        added is Ok <==> anchor_of(der@) is Some,
        trust_anchors(*final(roots)) == match anchor_of(der@) {
            Some(anchor) => trust_anchors(*old(roots)).push(anchor),
            None => trust_anchors(*old(roots)),
        },
{
    roots.add(&rustls::Certificate(der))
}

/// Draws a number from `low` up to, but not including, `high`.
///
/// Calls `rand::thread_rng` and `rand::Rng::gen_range`. Trusted: the number
/// lies in the range. Which number it is depends on chance.
#[verifier::external_body]
fn random_in(low: u16, high: u16) -> (n: u16)
    requires
        low < high,
    ensures
        low <= n < high,
{
    rand::thread_rng().gen_range(low..high)
}

/// The settings of the client's transport: TLS 1.3 only, a keep-alive
/// packet every second, and an idle timeout of 60 seconds unless it is
/// switched off.
pub fn transport_settings(idle_timeout_enabled: bool) -> (settings: TransportSettings)
    ensures
        settings == (TransportSettings {
            tls13_only: true,
            keep_alive_secs: KEEP_ALIVE_SECS,
            idle_timeout_secs: if idle_timeout_enabled {
                Some(IDLE_TIMEOUT_SECS)
            } else {
                None
            },
        }),
{
    TransportSettings {
        tls13_only: true,
        keep_alive_secs: KEEP_ALIVE_SECS,
        idle_timeout_secs: if idle_timeout_enabled {
            Some(IDLE_TIMEOUT_SECS)
        } else {
            None
        },
    }
}

impl Default for TransportSettings {
    /// The settings with the idle timeout switched on.
    fn default() -> (settings: TransportSettings)
        ensures
            settings == (TransportSettings {
                tls13_only: true,
                keep_alive_secs: KEEP_ALIVE_SECS,
                idle_timeout_secs: Some(IDLE_TIMEOUT_SECS),
            }),
    {
        transport_settings(true)
    }
}

/// What adding the extra certificate came to: a failure to add it is a
/// failure to configure trust.
pub fn trust_outcome(added: Result<(), rustls::Error>) -> (outcome: Result<(), EndpointError>)
    ensures
        outcome == match added {
            Ok(_) => Ok::<(), EndpointError>(()),
            Err(_) => Err::<(), EndpointError>(EndpointError::TrustConfiguration),
        },
{
    match added {
        Ok(_) => Ok(()),
        Err(_) => Err(EndpointError::TrustConfiguration),
    }
}

/// Adds the extra certificate, where there is one, to the trusted roots.
pub fn trust_extra_certificate(
    roots: &mut rustls::RootCertStore,
    extra: Option<Vec<u8>>,
) -> (outcome: Result<(), EndpointError>)
    ensures
        match extra {
            None => outcome is Ok && trust_anchors(*final(roots)) == trust_anchors(*old(roots)),
            Some(der) => match anchor_of(der@) {
                Some(anchor) => outcome is Ok && trust_anchors(*final(roots)) == trust_anchors(
                    *old(roots),
                ).push(anchor),
                None => outcome == Err::<(), EndpointError>(EndpointError::TrustConfiguration)
                    && trust_anchors(*final(roots)) == trust_anchors(*old(roots)),
            },
        },
{
    match extra {
        None => Ok(()),
        Some(der) => {
            let added = add_root(roots, der);
            trust_outcome(added)
        },
    }
}

/// An endpoint in the making: its settings, and the number of ports that
/// were offered for binding so far.
#[derive(Debug)]
pub struct EndpointSetup {
    settings: TransportSettings,
    attempts: u8,
}

impl EndpointSetup {
    /// Number of ports that were offered so far.
    pub closed spec fn attempts(&self) -> nat {
        self.attempts as nat
    }

    /// The settings of the transport.
    pub closed spec fn settings(&self) -> TransportSettings {
        self.settings
    }

    /// The settings of the transport.
    pub fn transport(&self) -> (settings: TransportSettings)
        ensures
            settings == self.settings(),
    {
        self.settings
    }

    /// Number of ports that were offered so far.
    pub fn attempts_made(&self) -> (n: u8)
        ensures
            n == self.attempts(),
    {
        self.attempts
    }

    /// Offers `candidate` as the next port to bind, after the last one could
    /// not be bound. After ten ports there is no further one.
    pub fn next_port_from(&mut self, candidate: u16) -> (port: Result<u16, EndpointError>)
        ensures
            final(self).settings() == old(self).settings(),
            old(self).attempts() < MAX_BIND_ATTEMPTS ==> port == Ok::<u16, EndpointError>(candidate)
                && final(self).attempts() == old(self).attempts() + 1,
            old(self).attempts() >= MAX_BIND_ATTEMPTS ==> port == Err::<u16, EndpointError>(
                EndpointError::PortExhausted,
            ) && final(self).attempts() == old(self).attempts(),
    {
        if self.attempts < MAX_BIND_ATTEMPTS {
            self.attempts = self.attempts + 1;
            Ok(candidate)
        } else {
            Err(EndpointError::PortExhausted)
        }
    }

    /// Offers the next port to bind, drawn at random from the range of
    /// local ports, after the last one could not be bound. After ten ports
    /// there is no further one.
    pub fn next_port(&mut self) -> (port: Result<u16, EndpointError>)
        ensures
            final(self).settings() == old(self).settings(),
            old(self).attempts() < MAX_BIND_ATTEMPTS ==> (port matches Ok(p) && PORT_MIN <= p
                < PORT_END) && final(self).attempts() == old(self).attempts() + 1,
            old(self).attempts() >= MAX_BIND_ATTEMPTS ==> port == Err::<u16, EndpointError>(
                EndpointError::PortExhausted,
            ) && final(self).attempts() == old(self).attempts(),
    {
        let candidate: u16 = random_in(PORT_MIN, PORT_END);
        self.next_port_from(candidate)
    }
}

/// Begins the making of the client's endpoint: adds the extra certificate,
/// where there is one, to the trusted roots and fixes the transport's
/// settings. The ports to bind are then had from the setup, one by one.
///
/// Fails, before any port is tried, where the extra certificate cannot be
/// added.
pub fn create_client_endpoint_random_port(
    roots: &mut rustls::RootCertStore,
    cert: Option<Vec<u8>>,
    idle_timeout_enabled: bool,
) -> (setup: Result<EndpointSetup, EndpointError>)
    ensures
        match cert {
            None => setup is Ok && trust_anchors(*final(roots)) == trust_anchors(*old(roots)),
            Some(der) => match anchor_of(der@) {
                Some(anchor) => setup is Ok && trust_anchors(*final(roots)) == trust_anchors(
                    *old(roots),
                ).push(anchor),
                None => setup matches Err(e) && e == EndpointError::TrustConfiguration
                    && trust_anchors(*final(roots)) == trust_anchors(*old(roots)),
            },
        },
        setup matches Ok(s) ==> s.attempts() == 0 && s.settings() == (TransportSettings {
            tls13_only: true,
            keep_alive_secs: KEEP_ALIVE_SECS,
            idle_timeout_secs: if idle_timeout_enabled {
                Some(IDLE_TIMEOUT_SECS)
            } else {
                None
            },
        }),
{
    match trust_extra_certificate(roots, cert) {
        Ok(_) => {
            let settings = transport_settings(idle_timeout_enabled);
            Ok(EndpointSetup { settings, attempts: 0 })
        },
        Err(error) => Err(error),
    }
}

} // verus!
