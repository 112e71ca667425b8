//! Parsing the forwarding configuration: one rule per specification
//! string, `<zone>:<proto>:<host>[/<tls-hostname>],...`, where the
//! protocol of each upstream endpoint is `tcp`, `udp`, `tls` or `https`,
//! and the TLS-based transports carry the hostname the peer must present
//! after a `/`. A malformed specification is a configuration error, fatal
//! at startup; this module reports exactly which.
//!
//! Addresses stay in text form here: the transport itself is the
//! embedder's collaborator, which consumes the constructed rule.

use vstd::prelude::*;

use crate::bytes::{
    find_byte, find_byte_in, lemma_find_byte, lemma_split_bytes_len, split_bytes, subvec,
};
use crate::name::{is_valid_name, normalize_spec};

verus! {

/// The byte value of `':'`.
pub const COLON: u8 = 58;

/// The byte value of `','`.
pub const COMMA: u8 = 44;

/// The byte value of `'/'`.
pub const SLASH: u8 = 47;

/// Transport selection for one upstream endpoint.
#[derive(Clone, Copy, PartialEq, Eq, Structural, Debug)]
pub enum TransportKind {
    Tcp,
    Udp,
    Tls,
    Https,
}

/// One configured upstream endpoint: transport, address text, and for the
/// TLS-based transports the expected peer hostname (empty otherwise).
#[derive(PartialEq, Eq, Debug, Clone)]
pub struct Upstream {
    pub kind: TransportKind,
    pub addr: Vec<u8>,
    pub tls_name: Vec<u8>,
}

/// The mathematical shape of an upstream endpoint.
pub ghost struct UpstreamV {
    pub kind: TransportKind,
    pub addr: Seq<u8>,
    pub tls_name: Seq<u8>,
}

impl View for Upstream {
    type V = UpstreamV;

    open spec fn view(&self) -> UpstreamV {
        UpstreamV { kind: self.kind, addr: self.addr@, tls_name: self.tls_name@ }
    }
}

/// One forwarding rule: the zone it governs, normalized, and its ordered
/// upstream endpoints.
#[derive(PartialEq, Eq, Debug, Clone)]
pub struct ForwardingRule {
    pub zone: Vec<u8>,
    pub upstreams: Vec<Upstream>,
}

/// The mathematical shape of a forwarding rule.
pub ghost struct ForwardingRuleV {
    pub zone: Seq<u8>,
    pub upstreams: Seq<UpstreamV>,
}

/// The mathematical shape of an upstream list.
pub open spec fn upstreams_view(v: Seq<Upstream>) -> Seq<UpstreamV> {
    v.map_values(|u: Upstream| u@)
}

impl View for ForwardingRule {
    type V = ForwardingRuleV;

    open spec fn view(&self) -> ForwardingRuleV {
        ForwardingRuleV { zone: self.zone@, upstreams: upstreams_view(self.upstreams@) }
    }
}

/// Why a forwarding specification was rejected.
#[derive(Clone, Copy, PartialEq, Eq, Structural, Debug)]
pub enum ForwardingError {
    /// No `:` separates the zone from its upstream list.
    MissingZoneDelimiter,
    /// An upstream item has no `:` between protocol and host.
    MissingProtocolDelimiter,
    /// An upstream protocol other than `tcp`, `udp`, `tls`, `https`.
    UnknownProtocol,
    /// A `tls` or `https` upstream without `/` and an expected hostname.
    MissingTlsHostname,
    /// The zone is not a syntactically acceptable domain name.
    InvalidZone,
}

/// The bytes of `"tcp"`.
pub open spec fn tcp_text() -> Seq<u8> {
    seq![116u8, 99u8, 112u8]
}

/// The bytes of `"udp"`.
pub open spec fn udp_text() -> Seq<u8> {
    seq![117u8, 100u8, 112u8]
}

/// The bytes of `"tls"`.
pub open spec fn tls_text() -> Seq<u8> {
    seq![116u8, 108u8, 115u8]
}

/// The bytes of `"https"`.
pub open spec fn https_text() -> Seq<u8> {
    seq![104u8, 116u8, 116u8, 112u8, 115u8]
}

/// One upstream item: the protocol up to the first `:`, then the host;
/// for the TLS-based transports the host splits at the first `/` into
/// address and expected hostname.
pub open spec fn parse_upstream_spec(item: Seq<u8>) -> Result<UpstreamV, ForwardingError> {
    let i = find_byte(item, COLON);
    if i == item.len() {
        Err(ForwardingError::MissingProtocolDelimiter)
    } else {
        let proto = item.take(i);
        let host = item.skip(i + 1);
        if proto == tcp_text() {
            Ok(UpstreamV { kind: TransportKind::Tcp, addr: host, tls_name: Seq::empty() })
        } else if proto == udp_text() {
            Ok(UpstreamV { kind: TransportKind::Udp, addr: host, tls_name: Seq::empty() })
        } else if proto == tls_text() || proto == https_text() {
            let kind = if proto == tls_text() {
                TransportKind::Tls
            } else {
                TransportKind::Https
            };
            let j = find_byte(host, SLASH);
            if j == host.len() {
                Err(ForwardingError::MissingTlsHostname)
            } else {
                Ok(UpstreamV { kind, addr: host.take(j), tls_name: host.skip(j + 1) })
            }
        } else {
            Err(ForwardingError::UnknownProtocol)
        }
    }
}

/// The upstream items in order; the first rejected item decides the
/// error.
pub open spec fn parse_upstreams_spec(items: Seq<Seq<u8>>) -> Result<
    Seq<UpstreamV>,
    ForwardingError,
>
    decreases items.len(),
{
    if items.len() == 0 {
        Ok(Seq::empty())
    } else {
        match parse_upstream_spec(items.first()) {
            Err(e) => Err(e),
            Ok(u) => match parse_upstreams_spec(items.drop_first()) {
                Err(e) => Err(e),
                Ok(us) => Ok(seq![u] + us),
            },
        }
    }
}

/// The whole specification: the zone up to the first `:`, then the
/// comma-separated upstream items; the zone, checked last, must be a
/// syntactically acceptable name and is stored normalized.
pub open spec fn parse_forwarding_spec(s: Seq<u8>) -> Result<ForwardingRuleV, ForwardingError> {
    let i = find_byte(s, COLON);
    if i == s.len() {
        Err(ForwardingError::MissingZoneDelimiter)
    } else {
        let zone = s.take(i);
        match parse_upstreams_spec(split_bytes(s.skip(i + 1), COMMA)) {
            Err(e) => Err(e),
            Ok(ups) => if is_valid_name(zone) {
                Ok(ForwardingRuleV { zone: normalize_spec(zone), upstreams: ups })
            } else {
                Err(ForwardingError::InvalidZone)
            },
        }
    }
}

/// A successful parse yields one upstream per item.
pub proof fn lemma_parse_upstreams_count(items: Seq<Seq<u8>>)
    ensures
        match parse_upstreams_spec(items) {
            Ok(us) => us.len() == items.len(),
            Err(_) => true,
        },
    decreases items.len(),
{
    if items.len() > 0 {
        lemma_parse_upstreams_count(items.drop_first());
    }
}

fn proto_kind(proto: &Vec<u8>) -> (r: Option<TransportKind>)
    ensures
        match r {
            Some(k) => match k {
                TransportKind::Tcp => proto@ == tcp_text(),
                TransportKind::Udp => proto@ == udp_text(),
                TransportKind::Tls => proto@ == tls_text(),
                TransportKind::Https => proto@ == https_text(),
            },
            None => {
                &&& proto@ != tcp_text()
                &&& proto@ != udp_text()
                &&& proto@ != tls_text()
                &&& proto@ != https_text()
            },
        },
{
    if proto.len() == 3 {
        if proto[0] == 116 && proto[1] == 99 && proto[2] == 112 {
            proof {
                assert(proto@ =~= tcp_text());
            }
            return Some(TransportKind::Tcp);
        }
        if proto[0] == 117 && proto[1] == 100 && proto[2] == 112 {
            proof {
                assert(proto@ =~= udp_text());
            }
            return Some(TransportKind::Udp);
        }
        if proto[0] == 116 && proto[1] == 108 && proto[2] == 115 {
            proof {
                assert(proto@ =~= tls_text());
            }
            return Some(TransportKind::Tls);
        }
        proof {
            assert(proto@ != tcp_text());
            assert(proto@ != udp_text());
            assert(proto@ != tls_text());
            assert(proto@.len() != https_text().len());
        }
        None
    } else if proto.len() == 5 {
        if proto[0] == 104 && proto[1] == 116 && proto[2] == 116 && proto[3] == 112 && proto[4]
            == 115 {
            proof {
                assert(proto@ =~= https_text());
            }
            return Some(TransportKind::Https);
        }
        proof {
            assert(proto@.len() != tcp_text().len());
            assert(proto@.len() != udp_text().len());
            assert(proto@.len() != tls_text().len());
            assert(proto@ != https_text());
        }
        None
    } else {
        proof {
            assert(proto@.len() != tcp_text().len());
            assert(proto@.len() != udp_text().len());
            assert(proto@.len() != tls_text().len());
            assert(proto@.len() != https_text().len());
        }
        None
    }
}

/// Parse one upstream item.
pub fn parse_upstream(item: &Vec<u8>) -> (r: Result<Upstream, ForwardingError>)
    ensures
        match r {
            Ok(u) => parse_upstream_spec(item@) == Ok::<UpstreamV, ForwardingError>(u@),
            Err(e) => parse_upstream_spec(item@) == Err::<UpstreamV, ForwardingError>(e),
        },
{
    proof {
        lemma_find_byte(item@, COLON);
    }
    let i = find_byte_in(item, COLON);
    if i == item.len() {
        return Err(ForwardingError::MissingProtocolDelimiter);
    }
    let proto = subvec(item, 0, i);
    let host = subvec(item, i + 1, item.len());
    proof {
        assert(proto@ =~= item@.take(i as int));
        assert(host@ =~= item@.skip(i + 1));
    }
    match proto_kind(&proto) {
        None => Err(ForwardingError::UnknownProtocol),
        Some(TransportKind::Tcp) => {
            let u = Upstream { kind: TransportKind::Tcp, addr: host, tls_name: Vec::new() };
            proof {
                assert(u.tls_name@ =~= Seq::<u8>::empty());
            }
            Ok(u)
        }
        Some(TransportKind::Udp) => {
            let u = Upstream { kind: TransportKind::Udp, addr: host, tls_name: Vec::new() };
            proof {
                assert(u.tls_name@ =~= Seq::<u8>::empty());
            }
            Ok(u)
        }
        Some(kind) => {
            proof {
                lemma_find_byte(host@, SLASH);
            }
            let j = find_byte_in(&host, SLASH);
            if j == host.len() {
                return Err(ForwardingError::MissingTlsHostname);
            }
            let addr = subvec(&host, 0, j);
            let tls_name = subvec(&host, j + 1, host.len());
            proof {
                assert(addr@ =~= host@.take(j as int));
                assert(tls_name@ =~= host@.skip(j + 1));
            }
            Ok(Upstream { kind, addr, tls_name })
        }
    }
}

fn parse_upstream_items(rest: &Vec<u8>) -> (r: Result<Vec<Upstream>, ForwardingError>)
    ensures
        match r {
            Ok(v) => parse_upstreams_spec(split_bytes(rest@, COMMA)) == Ok::<
                Seq<UpstreamV>,
                ForwardingError,
            >(upstreams_view(v@)),
            Err(e) => parse_upstreams_spec(split_bytes(rest@, COMMA)) == Err::<
                Seq<UpstreamV>,
                ForwardingError,
            >(e),
        },
    decreases rest@.len(),
{
    proof {
        lemma_find_byte(rest@, COMMA);
    }
    let i = find_byte_in(rest, COMMA);
    if i < rest.len() {
        let head = subvec(rest, 0, i);
        let tail = subvec(rest, i + 1, rest.len());
        let ghost items = split_bytes(rest@, COMMA);
        proof {
            assert(head@ =~= rest@.take(i as int));
            assert(tail@ =~= rest@.skip(i + 1));
            assert(items =~= seq![head@] + split_bytes(tail@, COMMA));
            assert(items.first() == head@);
            assert(items.drop_first() =~= split_bytes(tail@, COMMA));
        }
        match parse_upstream(&head) {
            Err(e) => Err(e),
            Ok(u) => match parse_upstream_items(&tail) {
                Err(e) => Err(e),
                Ok(v) => {
                    let ghost tail_view = upstreams_view(v@);
                    let mut v2 = v;
                    v2.insert(0, u);
                    proof {
                        assert(upstreams_view(v2@) =~= seq![u@] + tail_view);
                    }
                    Ok(v2)
                }
            },
        }
    } else {
        let ghost items = split_bytes(rest@, COMMA);
        proof {
            assert(items =~= seq![rest@]);
            assert(items.first() == rest@);
            assert(items.drop_first() =~= Seq::<Seq<u8>>::empty());
        }
        match parse_upstream(rest) {
            Err(e) => Err(e),
            Ok(u) => {
                let ghost uv = u@;
                let mut v: Vec<Upstream> = Vec::new();
                v.push(u);
                proof {
                    assert(parse_upstream_spec(items.first()) == Ok::<UpstreamV, ForwardingError>(uv));
                    assert(parse_upstreams_spec(items.drop_first()) == Ok::<Seq<UpstreamV>, ForwardingError>(Seq::<UpstreamV>::empty()));
                    assert(parse_upstreams_spec(items) == Ok::<Seq<UpstreamV>, ForwardingError>(seq![uv] + Seq::<UpstreamV>::empty()));
                    assert(upstreams_view(v@) =~= seq![uv] + Seq::<UpstreamV>::empty());
                    assert(parse_upstreams_spec(split_bytes(rest@, COMMA)) == Ok::<Seq<UpstreamV>, ForwardingError>(upstreams_view(v@)));
                }
                Ok(v)
            }
        }
    }
}

/// Parse one forwarding specification string. A successful parse carries
/// at least one upstream endpoint, and its zone is normalized.
pub fn parse_forwarding(s: &Vec<u8>) -> (r: Result<ForwardingRule, ForwardingError>)
    ensures
        match r {
            Ok(rule) => {
                &&& parse_forwarding_spec(s@) == Ok::<ForwardingRuleV, ForwardingError>(rule@)
                &&& rule@.upstreams.len() >= 1
            },
            Err(e) => parse_forwarding_spec(s@) == Err::<ForwardingRuleV, ForwardingError>(e),
        },
{
    proof {
        lemma_find_byte(s@, COLON);
    }
    let i = find_byte_in(s, COLON);
    if i == s.len() {
        return Err(ForwardingError::MissingZoneDelimiter);
    }
    let zone_raw = subvec(s, 0, i);
    let rest = subvec(s, i + 1, s.len());
    proof {
        assert(zone_raw@ =~= s@.take(i as int));
        assert(rest@ =~= s@.skip(i + 1));
    }
    match parse_upstream_items(&rest) {
        Err(e) => Err(e),
        Ok(ups) => {
            if crate::name::is_valid_domain(&zone_raw) {
                let zone = crate::name::normalize(&zone_raw);
                proof {
                    lemma_parse_upstreams_count(split_bytes(rest@, COMMA));
                    lemma_split_bytes_len(rest@, COMMA);
                }
                Ok(ForwardingRule { zone, upstreams: ups })
            } else {
                Err(ForwardingError::InvalidZone)
            }
        }
    }
}

} // verus!
