//! AdGuard Home configuration: listening addresses and port mappings.

use vstd::prelude::*;
use vstd::string::StringSliceAdditionalSpecFns;
use vstd::utf8::{decode_utf8, encode_utf8, valid_utf8};

use crate::bytes::{copy_range, string_from_utf8};
use crate::decimal::{parse_unsigned, parse_unsigned_spec};
use crate::inventory::remote_configs::lemma_ascii_slice_valid;
use crate::otlp::entries::{hex_encode, hex_string};
use crate::sha256::{sha256_digest, sha256_of};
use vstd::string::StringExecFns;
use crate::bytes::ascii_chars;

use crate::strings::string_views;

verus! {

/// A published port of a service.
#[derive(Debug, Clone, PartialEq, Eq)]
pub struct PortMapping {
    pub host_ip: Option<String>,
    pub host_port: Option<u16>,
    pub container_port: Option<u16>,
    pub protocol: String,
}

pub struct PortView {
    pub host_ip: Option<Seq<char>>,
    pub host_port: Option<u16>,
    pub container_port: Option<u16>,
    pub protocol: Seq<char>,
}

impl View for PortMapping {
    type V = PortView;

    open spec fn view(&self) -> PortView {
        PortView {
            host_ip: match self.host_ip {
                Some(h) => Some(h@),
                None => None,
            },
            host_port: self.host_port,
            container_port: self.container_port,
            protocol: self.protocol@,
        }
    }
}

pub open spec fn port_views(v: Seq<PortMapping>) -> Seq<PortView> {
    Seq::new(v.len(), |i: int| v[i]@)
}

fn same_mapping(a: &PortMapping, b: &PortMapping) -> (r: bool)
    ensures
        r == (a@ == b@),
{
    let hosts_equal = match (&a.host_ip, &b.host_ip) {
        (Some(x), Some(y)) => *x == *y,
        (None, None) => true,
        _ => false,
    };
    hosts_equal && a.host_port == b.host_port && a.container_port == b.container_port && a.protocol == b.protocol
}

/// Add a mapping of `port` on `host_ip` for `protocol`, unless an equal one is
/// already listed; nothing when there is no port.
pub fn push_port(ports: &mut Vec<PortMapping>, host_ip: Option<String>, port: Option<u16>, protocol: &str)
    ensures
        ({
            let candidate = PortView {
                host_ip: match host_ip {
                    Some(h) => Some(h@),
                    None => None,
                },
                host_port: port,
                container_port: port,
                protocol: protocol@,
            };
            port_views(final(ports)@) == if (port is None) || port_views(old(ports)@).contains(candidate) {
                port_views(old(ports)@)
            } else {
                port_views(old(ports)@).push(candidate)
            }
        }),
{
    if let Some(number) = port {
        let candidate = PortMapping { host_ip, host_port: Some(number), container_port: Some(number), protocol: protocol.to_owned() };
        let ghost before = port_views(ports@);
        let mut i: usize = 0;
        let mut present = false;
        while i < ports.len()
            invariant
                i <= ports.len(),
                before == port_views(ports@),
                !present ==> forall|j: int| 0 <= j < i ==> #[trigger] before[j] != candidate@,
                present ==> before.contains(candidate@),
            decreases ports.len() - i,
        {
            assert(before[i as int] == ports@[i as int]@);
            if same_mapping(&ports[i], &candidate) {
                present = true;
            }
            i += 1;
        }
        if !present {
            assert(!before.contains(candidate@));
            ports.push(candidate);
            assert(port_views(ports@) =~= before.push(candidate@));
        }
    }
}

/// Index of the last `b` in `s`, when there is one.
pub open spec fn last_index_of(s: Seq<u8>, b: u8) -> Option<int>
    decreases s.len(),
{
    if s.len() == 0 {
        None
    } else if s.last() == b {
        Some(s.len() - 1)
    } else {
        last_index_of(s.drop_last(), b)
    }
}

pub open spec fn is_bracket(b: u8) -> bool {
    b == 91u8 || b == 93u8
}

/// Number of leading brackets.
pub open spec fn leading_brackets(s: Seq<u8>) -> int
    decreases s.len(),
{
    if s.len() > 0 && is_bracket(s[0]) {
        1 + leading_brackets(s.drop_first())
    } else {
        0
    }
}

/// Number of trailing brackets.
pub open spec fn trailing_brackets(s: Seq<u8>) -> int
    decreases s.len(),
{
    if s.len() > 0 && is_bracket(s.last()) {
        1 + trailing_brackets(s.drop_last())
    } else {
        0
    }
}

/// `s` without leading and trailing `[` and `]`.
pub open spec fn trim_brackets(s: Seq<u8>) -> Seq<u8> {
    let t = s.skip(leading_brackets(s));
    t.take(t.len() - trailing_brackets(t))
}

/// `host:port` split at the last `:`, the host without brackets, the port as `u16`.
pub open spec fn address_spec(b: Seq<u8>) -> Option<(Seq<u8>, u16)> {
    match last_index_of(b, 58u8) {
        None => None,
        Some(c) => match parse_unsigned_spec(b.skip(c + 1), 65535) {
            None => None,
            Some(p) => Some((trim_brackets(b.take(c)), p as u16)),
        },
    }
}

proof fn lemma_last_index_of(s: Seq<u8>, b: u8)
    ensures
        last_index_of(s, b) matches Some(c) ==> 0 <= c < s.len() && s[c] == b,
    decreases s.len(),
{
    if s.len() > 0 && s.last() != b {
        lemma_last_index_of(s.drop_last(), b);
    }
}

proof fn lemma_bracket_counts(s: Seq<u8>)
    ensures
        0 <= leading_brackets(s) <= s.len(),
        0 <= trailing_brackets(s) <= s.len(),
        leading_brackets(s) < s.len() ==> !is_bracket(s[leading_brackets(s)]),
        trailing_brackets(s) < s.len() ==> !is_bracket(s[s.len() - 1 - trailing_brackets(s)]),
        forall|i: int| 0 <= i < leading_brackets(s) ==> is_bracket(#[trigger] s[i]),
        forall|i: int| s.len() - trailing_brackets(s) <= i < s.len() ==> is_bracket(#[trigger] s[i]),
    decreases s.len(),
{
    if s.len() > 0 {
        lemma_bracket_counts(s.drop_first());
        lemma_bracket_counts(s.drop_last());
        if is_bracket(s[0]) {
            assert forall|i: int| 0 <= i < leading_brackets(s) implies is_bracket(#[trigger] s[i]) by {
                if i > 0 {
                    assert(s[i] == s.drop_first()[i - 1]);
                }
            }
            if leading_brackets(s) < s.len() {
                assert(s[leading_brackets(s)] == s.drop_first()[leading_brackets(s.drop_first())]);
            }
        }
        if is_bracket(s.last()) {
            assert forall|i: int| s.len() - trailing_brackets(s) <= i < s.len() implies is_bracket(#[trigger] s[i]) by {
                if i < s.len() - 1 {
                    assert(s[i] == s.drop_last()[i]);
                }
            }
            if trailing_brackets(s) < s.len() {
                assert(s[s.len() - 1 - trailing_brackets(s)] == s.drop_last()[s.drop_last().len() - 1 - trailing_brackets(s.drop_last())]);
            }
        }
    }
}

fn trim_brackets_bounds(s: &[u8]) -> (r: (usize, usize))
    ensures
        r.0 <= r.1 <= s.len(),
        s@.subrange(r.0 as int, r.1 as int) == trim_brackets(s@),
        r.0 > 0 ==> is_bracket(s@[r.0 - 1]),
        r.1 < s.len() ==> is_bracket(s@[r.1 as int]),
{
    let mut start: usize = 0;
    assert(s@.skip(0) =~= s@);
    while start < s.len() && (s[start] == 91u8 || s[start] == 93u8)
        invariant
            start <= s.len(),
            leading_brackets(s@) == start + leading_brackets(s@.skip(start as int)),
            forall|i: int| 0 <= i < start ==> is_bracket(#[trigger] s@[i]),
        decreases s.len() - start,
    {
        assert(s@.skip(start as int)[0] == s@[start as int]);
        assert(s@.skip(start as int).drop_first() =~= s@.skip(start + 1));
        start += 1;
    }
    proof {
        if start < s.len() {
            assert(s@.skip(start as int)[0] == s@[start as int]);
        }
    }
    let ghost t = s@.skip(start as int);
    let mut end: usize = s.len();
    assert(s@.subrange(start as int, end as int) =~= t);
    while end > start && (s[end - 1] == 91u8 || s[end - 1] == 93u8)
        invariant
            start <= end <= s.len(),
            t == s@.skip(start as int),
            trailing_brackets(t) == (s.len() - end) + trailing_brackets(s@.subrange(start as int, end as int)),
            forall|i: int| end <= i < s.len() ==> is_bracket(#[trigger] s@[i]),
        decreases end,
    {
        assert(s@.subrange(start as int, end as int).last() == s@[end - 1]);
        assert(s@.subrange(start as int, end as int).drop_last() =~= s@.subrange(start as int, end - 1));
        end -= 1;
    }
    proof {
        if end > start {
            assert(s@.subrange(start as int, end as int).last() == s@[end - 1]);
        }
        assert(t.take(t.len() - trailing_brackets(t)) =~= s@.subrange(start as int, end as int));
    }
    (start, end)
}

/// The host (without brackets) and port of a `host:port` listening address.
pub fn parse_address(address: &str) -> (r: Option<(String, u16)>)
    ensures
        match r {
            Some((h, p)) => address_spec(address.spec_bytes()) matches Some((hb, pp)) && h@ == decode_utf8(hb) && p == pp,
            None => address_spec(address.spec_bytes()) is None,
        },
{
    broadcast use vstd::utf8::encode_utf8_valid_utf8;
    let b = address.as_bytes();
    let ghost bs = b@;
    assert(valid_utf8(bs));
    proof {
        lemma_last_index_of(bs, 58u8);
    }
    let mut c: usize = b.len();
    assert(bs.take(c as int) =~= bs);
    while c > 0 && b[c - 1] != 58u8
        invariant
            c <= b.len(),
            b@ == bs,
            last_index_of(bs, 58u8) == last_index_of(bs.take(c as int), 58u8),
        decreases c,
    {
        assert(bs.take(c as int).last() == bs[c - 1]);
        assert(bs.take(c as int).drop_last() =~= bs.take(c - 1));
        c -= 1;
    }
    if c == 0 {
        assert(bs.take(c as int) =~= Seq::<u8>::empty());
        return None;
    }
    let colon = c - 1;
    assert(bs.take(c as int).last() == bs[colon as int]);
    assert(last_index_of(bs.take(c as int), 58u8) == Some(colon as int));
    let port_bytes = copy_range(b, colon + 1, b.len());
    assert(port_bytes@ =~= bs.skip(colon + 1));
    let port = match parse_unsigned(port_bytes.as_slice(), 65535u64) {
        None => {
            return None;
        },
        Some(p) => p,
    };
    let host_raw = copy_range(b, 0, colon);
    assert(host_raw@ =~= bs.take(colon as int));
    let (start, end) = trim_brackets_bounds(host_raw.as_slice());
    proof {
        if start > 0 {
            assert(bs[start - 1] == host_raw@[start - 1]);
        }
        if end < colon {
            assert(bs[end as int] == host_raw@[end as int]);
        } else {
            assert(bs[end as int] == 58u8);
        }
        lemma_ascii_slice_valid(bs, start as int, end as int);
        assert(host_raw@.subrange(start as int, end as int) =~= bs.subrange(start as int, end as int));
    }
    let host_bytes = copy_range(host_raw.as_slice(), start, end);
    let host = match string_from_utf8(host_bytes) {
        Some(h) => h,
        None => {
            assert(false);
            String::new()
        },
    };
    Some((host, port as u16))
}


/// A configuration value where a port may be written: a non-negative integer, a
/// string, or anything else (a negative or fractional number, a boolean, a list...).
#[derive(Debug, Clone, PartialEq, Eq)]
pub enum PortValue {
    Number(u64),
    Text(String),
    Other,
}

/// The `dns` section as the port listing reads it: its `port`, and its `bind_hosts`
/// when that is a list (`None` in each entry that is not a string).
#[derive(Debug, Clone, PartialEq, Eq)]
pub struct DnsSection {
    pub port: Option<PortValue>,
    pub bind_hosts: Option<Vec<Option<String>>>,
}

/// The `tls` section as the port listing reads it.
#[derive(Debug, Clone, PartialEq, Eq)]
pub struct TlsSection {
    pub enabled: bool,
    pub port_https: Option<PortValue>,
    pub port_dns_over_tls: Option<PortValue>,
    pub port_dns_over_quic: Option<PortValue>,
    pub port_dnscrypt: Option<PortValue>,
}

/// The parts of an AdGuard Home configuration that name listening ports: the `dns`
/// and `tls` sections when they are mappings, and `http.address` when it is a string.
#[derive(Debug, Clone, PartialEq, Eq)]
pub struct PortSections {
    pub dns: Option<DnsSection>,
    pub http_address: Option<String>,
    pub tls: Option<TlsSection>,
}

/// The port a value names: an integer up to 65535, or a string that parses as one.
pub open spec fn value_u16_spec(v: Option<PortValue>) -> Option<u16> {
    match v {
        Some(PortValue::Number(n)) => if n <= 65535 {
            Some(n as u16)
        } else {
            None
        },
        Some(PortValue::Text(t)) => match parse_unsigned_spec(encode_utf8(t@), 65535) {
            Some(p) => Some(p as u16),
            None => None,
        },
        _ => None,
    }
}

/// The port a value names, when it is not zero.
pub open spec fn positive_port(v: Option<PortValue>) -> Option<u16> {
    match value_u16_spec(v) {
        Some(p) => if p > 0 {
            Some(p)
        } else {
            None
        },
        None => None,
    }
}

/// [`push_port`] on views.
pub open spec fn push_view(ports: Seq<PortView>, host_ip: Option<Seq<char>>, port: Option<u16>, protocol: Seq<char>) -> Seq<PortView> {
    let candidate = PortView { host_ip, host_port: port, container_port: port, protocol };
    if (port is None) || ports.contains(candidate) {
        ports
    } else {
        ports.push(candidate)
    }
}

/// The string entries of a list, in order.
pub open spec fn text_entries(v: Seq<Option<String>>) -> Seq<Seq<char>>
    decreases v.len(),
{
    if v.len() == 0 {
        Seq::empty()
    } else {
        let prev = text_entries(v.drop_last());
        match v.last() {
            Some(t) => prev.push(t@),
            None => prev,
        }
    }
}

/// The DNS bind hosts: the string entries of `bind_hosts`, or `0.0.0.0` when it is
/// not a list.
pub open spec fn bind_hosts_spec(dns: DnsSection) -> Seq<Seq<char>> {
    match dns.bind_hosts {
        Some(v) => text_entries(v@),
        None => seq!["0.0.0.0"@],
    }
}

/// The DNS port on each bind host, over UDP then TCP.
pub open spec fn dns_ports(ports: Seq<PortView>, hosts: Seq<Seq<char>>, port: Option<u16>) -> Seq<PortView>
    decreases hosts.len(),
{
    if hosts.len() == 0 {
        ports
    } else {
        let before = dns_ports(ports, hosts.drop_last(), port);
        push_view(push_view(before, Some(hosts.last()), port, "udp"@), Some(hosts.last()), port, "tcp"@)
    }
}

/// The listening ports an AdGuard Home configuration declares, without repeats: DNS
/// on every bind host, the web interface's address, and the enabled TLS listeners.
pub open spec fn service_ports_spec(c: PortSections) -> Seq<PortView> {
    let dns = match c.dns {
        Some(d) => dns_ports(Seq::empty(), bind_hosts_spec(d), value_u16_spec(d.port)),
        None => Seq::empty(),
    };
    let http = match c.http_address {
        Some(a) => match address_spec(encode_utf8(a@)) {
            Some((h, p)) => push_view(dns, Some(decode_utf8(h)), Some(p), "tcp"@),
            None => dns,
        },
        None => dns,
    };
    match c.tls {
        Some(t) => if t.enabled {
            let a = push_view(http, None, positive_port(t.port_https), "tcp"@);
            let b = push_view(a, None, positive_port(t.port_dns_over_tls), "tcp"@);
            let d = push_view(b, None, positive_port(t.port_dns_over_quic), "udp"@);
            push_view(d, None, positive_port(t.port_dnscrypt), "udp"@)
        } else {
            http
        },
        None => http,
    }
}

/// The port a configuration value names.
pub fn value_u16(v: &Option<PortValue>) -> (r: Option<u16>)
    ensures
        r == value_u16_spec(*v),
{
    match v {
        Some(PortValue::Number(n)) => if *n <= 65535 {
            Some(*n as u16)
        } else {
            None
        },
        Some(PortValue::Text(t)) => match parse_unsigned(t.as_str().as_bytes(), 65535u64) {
            Some(p) => Some(p as u16),
            None => None,
        },
        _ => None,
    }
}

fn positive(v: &Option<PortValue>) -> (r: Option<u16>)
    ensures
        r == positive_port(*v),
{
    match value_u16(v) {
        Some(p) => if p > 0 {
            Some(p)
        } else {
            None
        },
        None => None,
    }
}

fn push_dns_ports(ports: &mut Vec<PortMapping>, hosts: &Vec<String>, port: Option<u16>)
    ensures
        port_views(final(ports)@) == dns_ports(port_views(old(ports)@), string_views(hosts@), port),
{
    let ghost start = port_views(ports@);
    let mut i: usize = 0;
    assert(string_views(hosts@).take(0) =~= Seq::<Seq<char>>::empty());
    while i < hosts.len()
        invariant
            i <= hosts.len(),
            port_views(ports@) == dns_ports(start, string_views(hosts@).take(i as int), port),
        decreases hosts.len() - i,
    {
        let ghost pre = string_views(hosts@).take(i + 1);
        assert(pre.drop_last() =~= string_views(hosts@).take(i as int));
        assert(pre.last() == hosts@[i as int]@);
        push_port(ports, Some(hosts[i].clone()), port, "udp");
        push_port(ports, Some(hosts[i].clone()), port, "tcp");
        i += 1;
    }
    assert(string_views(hosts@).take(i as int) =~= string_views(hosts@));
}

fn bind_hosts(dns: &DnsSection) -> (r: Vec<String>)
    ensures
        string_views(r@) == bind_hosts_spec(*dns),
{
    match &dns.bind_hosts {
        Some(v) => {
            let mut out: Vec<String> = Vec::new();
            let mut i: usize = 0;
            assert(v@.take(0) =~= Seq::<Option<String>>::empty());
            while i < v.len()
                invariant
                    i <= v.len(),
                    string_views(out@) == text_entries(v@.take(i as int)),
                decreases v.len() - i,
            {
                assert(v@.take(i + 1).drop_last() =~= v@.take(i as int));
                assert(v@.take(i + 1).last() == v@[i as int]);
                match &v[i] {
                    Some(t) => {
                        out.push(t.clone());
                        assert(string_views(out@) =~= text_entries(v@.take(i as int)).push(t@));
                    },
                    None => {},
                }
                i += 1;
            }
            assert(v@.take(i as int) =~= v@);
            out
        },
        None => {
            let mut out: Vec<String> = Vec::new();
            out.push("0.0.0.0".to_owned());
            assert(string_views(out@) =~= seq!["0.0.0.0"@]);
            out
        },
    }
}

/// The listening ports the configuration declares, in the order AdGuard Home's
/// sections name them, each once.
pub fn service_ports(c: &PortSections) -> (r: Vec<PortMapping>)
    ensures
        port_views(r@) == service_ports_spec(*c),
{
    let mut ports: Vec<PortMapping> = Vec::new();
    assert(port_views(ports@) =~= Seq::<PortView>::empty());
    match &c.dns {
        Some(d) => {
            let port = value_u16(&d.port);
            let hosts = bind_hosts(d);
            push_dns_ports(&mut ports, &hosts, port);
        },
        None => {},
    }
    match &c.http_address {
        Some(a) => match parse_address(a.as_str()) {
            Some((host, port)) => {
                push_port(&mut ports, Some(host), Some(port), "tcp");
            },
            None => {},
        },
        None => {},
    }
    match &c.tls {
        Some(t) => {
            if t.enabled {
                push_port(&mut ports, None, positive(&t.port_https), "tcp");
                push_port(&mut ports, None, positive(&t.port_dns_over_tls), "tcp");
                push_port(&mut ports, None, positive(&t.port_dns_over_quic), "udp");
                push_port(&mut ports, None, positive(&t.port_dnscrypt), "udp");
            }
        },
        None => {},
    }
    ports
}


/// The artifact id of an AdGuard Home configuration: `adguard:` and the first 32 hex
/// digits (16 bytes) of the SHA-256 of its source path.
pub open spec fn artifact_id_spec(source: Seq<char>) -> Seq<char> {
    "adguard:"@ + ascii_chars(hex_encode(sha256_of(encode_utf8(source)).take(16)))
}

/// The stable id of the configuration read from `source`.
pub fn artifact_id(source: &str) -> (r: String)
    ensures
        r@ == artifact_id_spec(source@),
{
    let digest = sha256_digest(source.as_bytes());
    let head = copy_range(digest.as_slice(), 0, 16);
    let mut out = "adguard:".to_owned();
    proof {
        reveal_strlit("adguard:");
    }
    let hex = hex_string(head.as_slice());
    out.append(hex.as_str());
    out
}

} // verus!
