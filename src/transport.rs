use vstd::prelude::*;

use vstd::string::StrSliceExecFns;

verus! {

/// How the TNC is reached.
#[derive(Clone, Copy, Debug, PartialEq, Eq)]
pub enum TransportKind {
    /// KISS over TCP; the target is `host:port`.
    KissTcp,
    /// KISS over a serial line; the target is `device:baud`.
    KissSerial,
    /// A TNC address in the `ax25_tnc` crate's own form, such as
    /// `tnc:tcpkiss:localhost:8001`; the target is the whole string.
    Tnc,
}

/// Why an endpoint string was refused.
#[derive(Clone, Copy, Debug, PartialEq, Eq)]
pub enum EndpointError {
    /// The string starts with none of `kiss-tcp:`, `kiss-serial:` and `tnc:`.
    UnknownScheme,
    /// Nothing follows the scheme.
    MissingTarget,
}

/// An endpoint: the kind of transport and the target handed to it.
#[derive(Clone, Debug, PartialEq, Eq)]
pub struct Endpoint {
    pub kind: TransportKind,
    pub target: String,
}

pub open spec fn has_prefix(s: Seq<char>, p: Seq<char>) -> bool {
    p.len() <= s.len() && s.subrange(0, p.len() as int) == p
}

/// What an endpoint string such as `kiss-tcp:localhost:8001` stands for,
/// given the three scheme prefixes.
pub open spec fn endpoint_spec(
    s: Seq<char>,
    tcp: Seq<char>,
    serial: Seq<char>,
    tnc: Seq<char>,
) -> Result<(TransportKind, Seq<char>), EndpointError> {
    if has_prefix(s, tcp) {
        if s.len() == tcp.len() {
            Err(EndpointError::MissingTarget)
        } else {
            Ok((TransportKind::KissTcp, s.subrange(tcp.len() as int, s.len() as int)))
        }
    } else if has_prefix(s, serial) {
        if s.len() == serial.len() {
            Err(EndpointError::MissingTarget)
        } else {
            Ok((TransportKind::KissSerial, s.subrange(serial.len() as int, s.len() as int)))
        }
    } else if has_prefix(s, tnc) {
        if s.len() == tnc.len() {
            Err(EndpointError::MissingTarget)
        } else {
            Ok((TransportKind::Tnc, s))
        }
    } else {
        Err(EndpointError::UnknownScheme)
    }
}

fn starts_with(s: &str, p: &str) -> (r: bool)
    ensures
        r == has_prefix(s@, p@),
{
    let n = p.unicode_len();
    if n > s.unicode_len() {
        return false;
    }
    let mut i: usize = 0;
    while i < n
        invariant
            n == p@.len() <= s@.len(),
            0 <= i <= n,
            s@.subrange(0, i as int) == p@.subrange(0, i as int),
        decreases n - i,
    {
        if s.get_char(i) != p.get_char(i) {
            assert(s@.subrange(0, n as int)[i as int] != p@[i as int]);
            return false;
        }
        assert(s@.subrange(0, i + 1) =~= s@.subrange(0, i as int).push(s@[i as int]));
        assert(p@.subrange(0, i + 1) =~= p@.subrange(0, i as int).push(p@[i as int]));
        i = i + 1;
    }
    assert(p@.subrange(0, n as int) =~= p@);
    true
}

impl Endpoint {
    /// Parses `kiss-tcp:<host>:<port>`, `kiss-serial:<device>:<baud>` or a
    /// `tnc:` address. The target is left to the transport to resolve.
    pub fn parse(text: &str) -> (r: Result<Endpoint, EndpointError>)
        ensures
            match endpoint_spec(text@, "kiss-tcp:"@, "kiss-serial:"@, "tnc:"@) {
                Ok((k, t)) => r is Ok && r->Ok_0.kind == k && r->Ok_0.target@ == t,
                Err(e) => r == Err::<Endpoint, EndpointError>(e),
            },
    {
        let tcp = "kiss-tcp:";
        let serial = "kiss-serial:";
        let tnc = "tnc:";
        let len = text.unicode_len();
        if starts_with(text, tcp) || starts_with(text, serial) {
            let (kind, n) = if starts_with(text, tcp) {
                (TransportKind::KissTcp, tcp.unicode_len())
            } else {
                (TransportKind::KissSerial, serial.unicode_len())
            };
            if len == n {
                return Err(EndpointError::MissingTarget);
            }
            let target = text.substring_char(n, len).to_owned();
            Ok(Endpoint { kind, target })
        } else if starts_with(text, tnc) {
            if len == tnc.unicode_len() {
                return Err(EndpointError::MissingTarget);
            }
            Ok(Endpoint { kind: TransportKind::Tnc, target: text.to_owned() })
        } else {
            Err(EndpointError::UnknownScheme)
        }
    }
}

} // verus!
