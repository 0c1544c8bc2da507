//! Finding the server: host specifications and resolved addresses.
//!
//! A host specification is either the literal `host` or `host:port`, or an
//! HTTP(S) URL whose response body holds the literal. Fetching the URL and
//! looking up the host are left to the caller; what to fetch, what to look
//! up and which address to take are decided here.

use vstd::prelude::*;
use vstd::string::{StrSliceExecFns, StringExecFns};

verus! {

/// An IP address.
#[derive(Clone, Copy, Debug, PartialEq, Eq)]
pub enum IpAddress {
    /// The four octets of an IPv4 address.
    V4([u8; 4]),
    /// The eight segments of an IPv6 address.
    V6([u16; 8]),
}

/// A socket address: an IP address and a port.
#[derive(Clone, Copy, Debug, PartialEq, Eq)]
pub struct SocketAddress {
    pub ip: IpAddress,
    pub port: u16,
}

/// Why a host specification could not be resolved.
#[derive(Clone, Copy, Debug, PartialEq, Eq)]
pub enum ResolutionError {
    /// The URL's response body names no host.
    EmptyHost,
    /// The host has no IPv4 address.
    NoIpv4Address,
}

/// What is to be done with a host specification.
#[derive(Clone, Debug, PartialEq, Eq)]
pub enum ResolveStep {
    /// Fetch this URL; its response body is the host to look up.
    Fetch(String),
    /// Look up this host, which carries a port.
    Lookup(String),
}

/// The address of the server.
#[derive(Debug, Clone)]
pub struct ResolvedAddr {
    /// The host's name without the port, for use as TLS server name.
    pub host_name: String,
    /// Where to connect to.
    pub addr: SocketAddress,
}

/// Whether `c` is white space, as Unicode defines it.
pub open spec fn is_white_space(c: char) -> bool {
    let code = c as u32;
    ||| 0x09 <= code <= 0x0d
    ||| code == 0x20
    ||| code == 0x85
    ||| code == 0xa0
    ||| code == 0x1680
    ||| 0x2000 <= code <= 0x200a
    ||| code == 0x2028
    ||| code == 0x2029
    ||| code == 0x202f
    ||| code == 0x205f
    ||| code == 0x3000
}

/// `text` without the white space at its front.
pub open spec fn trim_start(text: Seq<char>) -> Seq<char>
    decreases text.len(),
{
    if text.len() > 0 && is_white_space(text.first()) {
        trim_start(text.drop_first())
    } else {
        text
    }
}

/// `text` without the white space at its end.
pub open spec fn trim_end(text: Seq<char>) -> Seq<char>
    decreases text.len(),
{
    if text.len() > 0 && is_white_space(text.last()) {
        trim_end(text.drop_last())
    } else {
        text
    }
}

/// `text` without the white space at its front and at its end.
pub open spec fn trimmed(text: Seq<char>) -> Seq<char> {
    trim_end(trim_start(text))
}

/// Position of the first colon of `text`; its length where it has none.
pub open spec fn colon_index(text: Seq<char>) -> int
    decreases text.len(),
{
    if text.len() == 0 || text.first() == ':' {
        0
    } else {
        1 + colon_index(text.drop_first())
    }
}

/// Whether a host specification carries a port.
pub open spec fn has_port(host: Seq<char>) -> bool {
    colon_index(host) < host.len()
}

/// The host's name: what stands before the first colon.
pub open spec fn host_name_of(host: Seq<char>) -> Seq<char> {
    host.take(colon_index(host))
}

/// The host with the default port 9000, unless it carries a port.
pub open spec fn with_port(host: Seq<char>) -> Seq<char> {
    if has_port(host) {
        host
    } else {
        host + ":9000"@
    }
}

/// Whether a host specification is an HTTP(S) URL.
pub open spec fn is_url(host_spec: Seq<char>) -> bool {
    "http://"@.is_prefix_of(host_spec) || "https://"@.is_prefix_of(host_spec)
}

/// The first IPv4 address of `found`, if there is one.
pub open spec fn first_ipv4(found: Seq<SocketAddress>) -> Option<SocketAddress>
    decreases found.len(),
{
    if found.len() == 0 {
        None
    } else if found.first().ip is V4 {
        Some(found.first())
    } else {
        first_ipv4(found.drop_first())
    }
}

/// The colon index is the one position before which there is no colon and
/// at which there is one, or the text ends.
pub proof fn lemma_colon_index(text: Seq<char>, n: int)
    requires
        0 <= n <= text.len(),
        forall|j: int| 0 <= j < n ==> text[j] != ':',
        n < text.len() ==> text[n] == ':',
    ensures
        colon_index(text) == n,
    decreases n,
{
    if n > 0 {
        let rest = text.drop_first();
        assert forall|j: int| 0 <= j < n - 1 implies rest[j] != ':' by {
            assert(rest[j] == text[j + 1]);
        }
        lemma_colon_index(rest, n - 1);
    }
}

/// A text is trimmed by cutting it at the first and behind the last
/// character that is not white space.
pub proof fn lemma_trimmed(text: Seq<char>, from: int, to: int)
    requires
        0 <= from <= to <= text.len(),
        forall|j: int| 0 <= j < from ==> is_white_space(text[j]),
        forall|j: int| to <= j < text.len() ==> is_white_space(text[j]),
        from < to ==> !is_white_space(text[from]) && !is_white_space(text[to - 1]),
    ensures
        trimmed(text) == text.subrange(from, to),
{
    lemma_trim_start(text, from, to);
    lemma_trim_end(text.skip(from), to - from);
    assert(text.skip(from).take(to - from) =~= text.subrange(from, to));
}

proof fn lemma_trim_start(text: Seq<char>, from: int, to: int)
    requires
        0 <= from <= to <= text.len(),
        forall|j: int| 0 <= j < from ==> is_white_space(text[j]),
        forall|j: int| to <= j < text.len() ==> is_white_space(text[j]),
        from < to ==> !is_white_space(text[from]),
    ensures
        from < to ==> trim_start(text) == text.skip(from),
        from == to ==> trim_start(text).len() == 0,
    decreases text.len(),
{
    if text.len() > 0 && is_white_space(text.first()) {
        let rest = text.drop_first();
        if from > 0 {
            assert forall|j: int| 0 <= j < from - 1 implies is_white_space(rest[j]) by {
                assert(rest[j] == text[j + 1]);
            }
            assert forall|j: int| to - 1 <= j < rest.len() implies is_white_space(rest[j]) by {
                assert(rest[j] == text[j + 1]);
            }
            lemma_trim_start(rest, from - 1, to - 1);
            assert(rest.skip(from - 1) =~= text.skip(from));
        } else {
            assert forall|j: int| 0 <= j < rest.len() implies is_white_space(rest[j]) by {
                assert(rest[j] == text[j + 1]);
            }
            lemma_trim_start(rest, 0, 0);
        }
    } else {
        assert(text.skip(0) =~= text);
    }
}

proof fn lemma_trim_end(text: Seq<char>, to: int)
    requires
        0 <= to <= text.len(),
        forall|j: int| to <= j < text.len() ==> is_white_space(text[j]),
        0 < to ==> !is_white_space(text[to - 1]),
        to == 0 ==> forall|j: int| 0 <= j < text.len() ==> is_white_space(text[j]),
    ensures
        trim_end(text) == text.take(to),
    decreases text.len(),
{
    if text.len() > 0 && is_white_space(text.last()) {
        let rest = text.drop_last();
        assert forall|j: int| to <= j < rest.len() implies is_white_space(rest[j]) by {
            assert(rest[j] == text[j]);
        }
        lemma_trim_end(rest, to);
        assert(rest.take(to) =~= text.take(to));
    } else {
        assert(text.take(to) =~= text);
    }
}

/// Whether `c` is white space.
pub fn white_space(c: char) -> (yes: bool)
    ensures
        yes == is_white_space(c),
{
    let code: u32 = c as u32;
    (0x09 <= code && code <= 0x0d) || code == 0x20 || code == 0x85 || code == 0xa0 || code
        == 0x1680 || (0x2000 <= code && code <= 0x200a) || code == 0x2028 || code == 0x2029
        || code == 0x202f || code == 0x205f || code == 0x3000
}

/// Cuts the white space off both ends of `text`.
pub fn trim(text: &str) -> (cut: &str)
    ensures
        cut@ == trimmed(text@),
{
    let len: usize = text.unicode_len();
    let mut from: usize = 0;
    let mut to: usize = 0;
    let mut at: usize = 0;
    for c in it: text.chars()
        invariant
            it.seq() == text@,
            at == it.index(),
            len == text@.len(),
            from <= to <= at,
            forall|j: int| 0 <= j < from ==> is_white_space(text@[j]),
            forall|j: int| to <= j < at ==> is_white_space(text@[j]),
            from < to ==> !is_white_space(text@[from as int]) && !is_white_space(
                text@[to - 1],
            ),
            from == to ==> from == at,
    {
        if white_space(c) {
            if from == to {
                from = at + 1;
                to = at + 1;
            }
        } else {
            to = at + 1;
        }
        at = at + 1;
    }
    proof {
        lemma_trimmed(text@, from as int, to as int);
    }
    text.substring_char(from, to)
}

/// Position of the first colon of `text`; its length where it has none.
pub fn find_colon(text: &str) -> (n: usize)
    ensures
        n == colon_index(text@),
        n <= text@.len(),
{
    let len: usize = text.unicode_len();
    let mut n: usize = 0;
    for c in it: text.chars()
        invariant
            it.seq() == text@,
            n == it.index(),
            len == text@.len(),
            forall|j: int| 0 <= j < n ==> text@[j] != ':',
    {
        if c == ':' {
            proof {
                lemma_colon_index(text@, n as int);
            }
            return n;
        }
        n = n + 1;
    }
    proof {
        lemma_colon_index(text@, n as int);
    }
    n
}

/// Whether `text` begins with `prefix`. Takes time in proportion to the
/// square of the prefix's length: meant for short prefixes.
fn begins_with(text: &str, prefix: &str) -> (yes: bool)
    ensures
        yes == prefix@.is_prefix_of(text@),
{
    let len: usize = prefix.unicode_len();
    let mut at: usize = 0;
    for c in it: text.chars()
        invariant
            it.seq() == text@,
            at == it.index(),
            len == prefix@.len(),
            at <= len,
            forall|j: int| 0 <= j < at ==> text@[j] == prefix@[j],
    {
        if at == len {
            assert(prefix@ =~= text@.subrange(0, len as int));
            return true;
        }
        if c != prefix.get_char(at) {
            return false;
        }
        at = at + 1;
    }
    if at == len {
        assert(prefix@ =~= text@.subrange(0, len as int));
    }
    at == len
}

/// Whether a host specification is an HTTP(S) URL.
pub fn names_url(host_spec: &str) -> (yes: bool)
    ensures
        yes == is_url(host_spec@),
{
    begins_with(host_spec, "http://") || begins_with(host_spec, "https://")
}

/// Appends the default port 9000 to a host that carries no port.
pub fn with_default_port(host: String) -> (full: String)
    ensures
        full@ == with_port(host@),
{
    let colon: usize = find_colon(host.as_str());
    if colon < host.as_str().unicode_len() {
        host
    } else {
        host.concat(":9000")
    }
}

/// Decides what to do with a host specification: fetch it if it is an
/// HTTP(S) URL, else look it up, on the default port unless it carries one.
pub fn resolve(host_spec: String) -> (step: ResolveStep)
    ensures
        is_url(host_spec@) ==> (step matches ResolveStep::Fetch(url) && url@ == host_spec@),
        !is_url(host_spec@) ==> (step matches ResolveStep::Lookup(host) && host@ == with_port(
            host_spec@,
        )),
{
    if names_url(host_spec.as_str()) {
        ResolveStep::Fetch(host_spec)
    } else {
        ResolveStep::Lookup(with_default_port(host_spec))
    }
}

/// Takes the body of a URL's response as the literal host to look up: the
/// body without the white space around it, on the default port unless it
/// carries one. A body that holds nothing but white space names no host.
pub fn resolve_fetched(body: &str) -> (host: Result<String, ResolutionError>)
    ensures
        trimmed(body@).len() == 0 ==> host == Err::<String, ResolutionError>(
            ResolutionError::EmptyHost,
        ),
        trimmed(body@).len() > 0 ==> (host matches Ok(name) && name@ == with_port(
            trimmed(body@),
        )),
{
    let literal = trim(body);
    if literal.unicode_len() == 0 {
        Err(ResolutionError::EmptyHost)
    } else {
        Ok(with_default_port(String::from_str(literal)))
    }
}

impl ResolvedAddr {
    /// Picks the server's address among the addresses `found` for `host`:
    /// the first IPv4 address. The host's name is `host` without its port.
    pub fn lookup_host(host: &str, found: &Vec<SocketAddress>) -> (resolved: Result<
        ResolvedAddr,
        ResolutionError,
    >)
        ensures
            match first_ipv4(found@) {
                Some(addr) => resolved matches Ok(r) && r.addr == addr && r.addr.ip is V4
                    && r.host_name@ == host_name_of(host@),
                None => resolved matches Err(e) && e == ResolutionError::NoIpv4Address,
            },
    {
        let mut i: usize = 0;
        assert(found@.skip(0) =~= found@);
        while i < found.len()
            invariant
                i <= found@.len(),
                first_ipv4(found@) == first_ipv4(found@.skip(i as int)),
            decreases found@.len() - i,
        {
            let addr: SocketAddress = found[i];
            proof {
                assert(found@.skip(i as int).first() == found@[i as int]);
                assert(found@.skip(i as int).drop_first() =~= found@.skip(i + 1));
            }
            match addr.ip {
                IpAddress::V4(_) => {
                    let colon: usize = find_colon(host);
                    let name = host.substring_char(0, colon);
                    assert(name@ =~= host_name_of(host@));
                    return Ok(ResolvedAddr { host_name: String::from_str(name), addr });
                },
                IpAddress::V6(_) => {},
            }
            i = i + 1;
        }
        Err(ResolutionError::NoIpv4Address)
    }

    /// The address of a server on this machine.
    pub fn localhost_with_port(port: u16) -> (resolved: ResolvedAddr)
        ensures
            resolved.host_name@ == "localhost"@,
            resolved.addr == (SocketAddress { ip: IpAddress::V4([127u8, 0u8, 0u8, 1u8]), port }),
    {
        ResolvedAddr {
            host_name: String::from_str("localhost"),
            addr: SocketAddress { ip: IpAddress::V4([127, 0, 0, 1]), port },
        }
    }
}

} // verus!
