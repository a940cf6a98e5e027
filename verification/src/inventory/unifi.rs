//! UniFi Network collector: request bookkeeping and path encoding.

use vstd::prelude::*;
use vstd::string::StringSliceAdditionalSpecFns;

use vstd::string::StringExecFns;

use crate::bytes::{ascii_chars, ascii_string, is_ascii_bytes};
use crate::message::{decimal_chars, push_decimal};
use crate::strings::{str_eq, string_views, trim_trailing_slashes, without_trailing_slashes};
use vstd::utf8::encode_utf8;

pub use crate::inventory::remote_configs::soft_collector_budget;

verus! {

/// A site to query: its integration id, when known, and its internal reference.
#[derive(Debug, Clone, PartialEq, Eq)]
pub struct SiteRef {
    pub id: Option<String>,
    pub internal_reference: String,
}

#[derive(Debug, Clone, Copy, PartialEq, Eq, Structural)]
pub enum RequestKind {
    Devices,
    ModernNetworks,
    LegacyNetworks,
    NetworkDetails,
}

/// One API request: what it fetches, its path, and the site it belongs to.
#[derive(Debug, Clone)]
pub struct RequestSpec {
    pub kind: RequestKind,
    pub path: String,
    pub site_id: Option<String>,
}

/// The key that groups a request's results: its site id, else its path.
pub fn request_site_key(spec: &RequestSpec) -> (r: String)
    ensures
        r@ == match spec.site_id {
            Some(id) => id@,
            None => spec.path@,
        },
{
    match &spec.site_id {
        Some(id) => id.clone(),
        None => spec.path.clone(),
    }
}

/// The site used when the site list is empty or unavailable: `default`, without id.
pub fn fallback_site() -> (s: SiteRef)
    ensures
        s.id is None,
        s.internal_reference@ == "default"@,
{
    SiteRef { id: None, internal_reference: "default".to_owned() }
}

/// Left unencoded in a path segment: ASCII letters, digits, `-`, `.`, `_` and `~`.
pub open spec fn unreserved(b: u8) -> bool {
    (48 <= b <= 57) || (65 <= b <= 90) || (97 <= b <= 122) || b == 45 || b == 46 || b == 95 || b == 126
}

/// Upper-case hexadecimal digit for `d < 16`.
pub open spec fn hex_upper(d: u8) -> u8 {
    if d < 10 {
        (48 + d) as u8
    } else {
        (55 + d) as u8
    }
}

pub open spec fn encode_byte(b: u8) -> Seq<u8> {
    if unreserved(b) {
        seq![b]
    } else {
        seq![37u8, hex_upper(b / 16), hex_upper(b % 16)]
    }
}

/// Percent-encoding of every byte that is not unreserved, as `%XY`.
pub open spec fn percent_encode(bs: Seq<u8>) -> Seq<u8>
    decreases bs.len(),
{
    if bs.len() == 0 {
        Seq::empty()
    } else {
        percent_encode(bs.drop_last()) + encode_byte(bs.last())
    }
}

fn hex_digit(d: u8) -> (r: u8)
    requires
        d < 16,
    ensures
        r == hex_upper(d),
        r < 128,
{
    if d < 10 {
        48 + d
    } else {
        55 + d
    }
}

/// `value` as one URL path segment.
pub fn encode_path_segment(value: &str) -> (r: String)
    ensures
        r@ == ascii_chars(percent_encode(value.spec_bytes())),
{
    let bytes = value.as_bytes();
    let ghost b = bytes@;
    let mut out: Vec<u8> = Vec::new();
    let mut i: usize = 0;
    assert(b.take(0) =~= Seq::<u8>::empty());
    while i < bytes.len()
        invariant
            b == bytes@,
            i <= bytes.len(),
            out@ == percent_encode(b.take(i as int)),
            is_ascii_bytes(out@),
        decreases bytes.len() - i,
    {
        let byte = bytes[i];
        let ghost before = out@;
        assert(b.take(i + 1).drop_last() =~= b.take(i as int));
        assert(b.take(i + 1).last() == byte);
        let keep = (48u8 <= byte && byte <= 57u8) || (65u8 <= byte && byte <= 90u8) || (97u8 <= byte && byte <= 122u8)
            || byte == 45u8 || byte == 46u8 || byte == 95u8 || byte == 126u8;
        if keep {
            out.push(byte);
        } else {
            out.push(37u8);
            out.push(hex_digit(byte / 16));
            out.push(hex_digit(byte % 16));
        }
        assert(out@ =~= before + encode_byte(byte));
        i += 1;
    }
    assert(b.take(i as int) =~= b);
    ascii_string(out.as_slice())
}


/// The URL of an API path on a controller: the base URL without trailing `/`, then
/// the path.
pub fn unifi_endpoint(url: &str, path: &str) -> (r: String)
    ensures
        r@ == trim_trailing_slashes(url@) + path@,
{
    let mut out = without_trailing_slashes(url);
    out.append(path);
    out
}

/// The warning for a response with an HTTP error status (400 or above); none for a
/// success.
pub fn endpoint_status_error(path: &str, status: u16) -> (r: Option<String>)
    ensures
        status < 400 ==> r is None,
        status >= 400 ==> (r matches Some(m) && m@ == "UniFi endpoint "@ + path@ + " returned HTTP "@
            + decimal_chars(status as nat)),
{
    if status < 400 {
        return None;
    }
    let mut out = "UniFi endpoint ".to_owned();
    out.append(path);
    out.append(" returned HTTP ");
    push_decimal(&mut out, status as usize);
    proof {
        reveal_strlit("UniFi endpoint ");
        reveal_strlit(" returned HTTP ");
    }
    Some(out)
}

/// The warning for a request that failed before any response.
pub fn endpoint_failure(path: &str, error: &str) -> (r: String)
    ensures
        r@ == "UniFi endpoint "@ + path@ + " failed: "@ + error@,
{
    let mut out = "UniFi endpoint ".to_owned();
    out.append(path);
    out.append(" failed: ");
    out.append(error);
    proof {
        reveal_strlit("UniFi endpoint ");
        reveal_strlit(" failed: ");
    }
    out
}

/// What a request asks for, as text.
pub struct RequestView {
    pub kind: RequestKind,
    pub path: Seq<char>,
    pub site_id: Option<Seq<char>>,
}

pub open spec fn opt_text(o: Option<String>) -> Option<Seq<char>> {
    match o {
        Some(s) => Some(s@),
        None => None,
    }
}

pub open spec fn request_view(r: RequestSpec) -> RequestView {
    RequestView { kind: r.kind, path: r.path@, site_id: opt_text(r.site_id) }
}

pub open spec fn request_views(rs: Seq<RequestSpec>) -> Seq<RequestView> {
    Seq::new(rs.len(), |i: int| request_view(rs[i]))
}

/// `value` as one URL path segment, as text.
pub open spec fn segment(value: Seq<char>) -> Seq<char> {
    ascii_chars(percent_encode(encode_utf8(value)))
}

/// The requests for one site: its devices and its legacy network list, and, when it
/// has an integration id, its network list through the integration API.
pub open spec fn site_request_views(site: SiteRef) -> Seq<RequestView> {
    let reference = segment(site.internal_reference@);
    let id = opt_text(site.id);
    let legacy = seq![
        RequestView { kind: RequestKind::Devices, path: "/proxy/network/api/s/"@ + reference + "/stat/device"@, site_id: id },
        RequestView { kind: RequestKind::LegacyNetworks, path: "/proxy/network/api/s/"@ + reference + "/rest/networkconf"@, site_id: id },
    ];
    match site.id {
        Some(i) => legacy.push(RequestView {
            kind: RequestKind::ModernNetworks,
            path: "/proxy/network/integration/v1/sites/"@ + segment(i@) + "/networks?offset=0&limit=200"@,
            site_id: Some(i@),
        }),
        None => legacy,
    }
}

/// The requests for the sites, site by site.
pub open spec fn sites_request_views(sites: Seq<SiteRef>) -> Seq<RequestView>
    decreases sites.len(),
{
    if sites.len() == 0 {
        Seq::empty()
    } else {
        sites_request_views(sites.drop_last()) + site_request_views(sites.last())
    }
}

fn clone_id(id: &Option<String>) -> (r: Option<String>)
    ensures
        opt_text(r) == opt_text(*id),
{
    match id {
        Some(s) => Some(s.clone()),
        None => None,
    }
}

/// The device and network requests of every site, in site order.
pub fn site_requests(sites: &Vec<SiteRef>) -> (r: Vec<RequestSpec>)
    ensures
        request_views(r@) == sites_request_views(sites@),
{
    let mut out: Vec<RequestSpec> = Vec::new();
    let mut i: usize = 0;
    assert(sites@.take(0) =~= Seq::<SiteRef>::empty());
    while i < sites.len()
        invariant
            i <= sites.len(),
            request_views(out@) == sites_request_views(sites@.take(i as int)),
        decreases sites.len() - i,
    {
        let site = &sites[i];
        let ghost before = request_views(out@);
        let reference = encode_path_segment(site.internal_reference.as_str());
        let mut devices = "/proxy/network/api/s/".to_owned();
        devices.append(reference.as_str());
        devices.append("/stat/device");
        out.push(RequestSpec { kind: RequestKind::Devices, path: devices, site_id: clone_id(&site.id) });
        let mut legacy = "/proxy/network/api/s/".to_owned();
        legacy.append(reference.as_str());
        legacy.append("/rest/networkconf");
        out.push(RequestSpec { kind: RequestKind::LegacyNetworks, path: legacy, site_id: clone_id(&site.id) });
        match &site.id {
            Some(id) => {
                let encoded = encode_path_segment(id.as_str());
                let mut modern = "/proxy/network/integration/v1/sites/".to_owned();
                modern.append(encoded.as_str());
                modern.append("/networks?offset=0&limit=200");
                out.push(RequestSpec { kind: RequestKind::ModernNetworks, path: modern, site_id: Some(id.clone()) });
            },
            None => {},
        }
        assert(sites@.take(i + 1).drop_last() =~= sites@.take(i as int));
        assert(sites@.take(i + 1).last() == sites@[i as int]);
        assert(request_views(out@) =~= before + site_request_views(sites@[i as int]));
        i += 1;
    }
    assert(sites@.take(i as int) =~= sites@);
    out
}

/// The detail request of each network of a site, in the order the networks came.
pub open spec fn detail_request_views(site_id: Seq<char>, ids: Seq<Seq<char>>) -> Seq<RequestView> {
    Seq::new(ids.len(), |k: int| RequestView {
        kind: RequestKind::NetworkDetails,
        path: "/proxy/network/integration/v1/sites/"@ + segment(site_id) + "/networks/"@ + segment(ids[k]),
        site_id: Some(site_id),
    })
}

/// One detail request per network id of the site `site_id`.
pub fn network_detail_requests(site_id: &str, network_ids: &Vec<String>) -> (r: Vec<RequestSpec>)
    ensures
        request_views(r@) == detail_request_views(site_id@, string_views(network_ids@)),
{
    let encoded_site = encode_path_segment(site_id);
    let mut out: Vec<RequestSpec> = Vec::new();
    let mut k: usize = 0;
    while k < network_ids.len()
        invariant
            k <= network_ids.len(),
            encoded_site@ == segment(site_id@),
            request_views(out@) == detail_request_views(site_id@, string_views(network_ids@)).take(k as int),
        decreases network_ids.len() - k,
    {
        let ghost before = out@;
        let id = network_ids[k].as_str();
        assert(id@ == string_views(network_ids@)[k as int]);
        let encoded = encode_path_segment(id);
        let mut path = "/proxy/network/integration/v1/sites/".to_owned();
        path.append(encoded_site.as_str());
        path.append("/networks/");
        path.append(encoded.as_str());
        let owned = site_id.to_owned();
        assert(owned@ == site_id@);
        out.push(RequestSpec { kind: RequestKind::NetworkDetails, path, site_id: Some(owned) });
        assert(request_views(out@) =~= request_views(before).push(request_view(out@[k as int])));
        assert(request_views(out@) =~= detail_request_views(site_id@, string_views(network_ids@)).take(k + 1));
        k += 1;
    }
    assert(detail_request_views(site_id@, string_views(network_ids@)).take(k as int)
        =~= detail_request_views(site_id@, string_views(network_ids@)));
    out
}

/// A failed network list is reported unless the other network API answered for the
/// same site; other failed requests are always reported.
pub open spec fn network_error_reported_spec(kind: RequestKind, site_key: Seq<char>, legacy_ok: Seq<Seq<char>>, modern_ok: Seq<Seq<char>>) -> bool {
    match kind {
        RequestKind::ModernNetworks => !legacy_ok.contains(site_key),
        RequestKind::LegacyNetworks => !modern_ok.contains(site_key),
        _ => true,
    }
}

fn contains_text(items: &Vec<String>, key: &str) -> (r: bool)
    ensures
        r == string_views(items@).contains(key@),
{
    let mut i: usize = 0;
    while i < items.len()
        invariant
            i <= items.len(),
            forall|j: int| 0 <= j < i ==> string_views(items@)[j] != key@,
        decreases items.len() - i,
    {
        if str_eq(items[i].as_str(), key) {
            assert(string_views(items@)[i as int] == key@);
            return true;
        }
        i += 1;
    }
    false
}

/// Whether the failure of a request of `kind` for `site_key` is reported, given the
/// sites whose legacy and integration network lists were loaded.
pub fn network_error_reported(kind: RequestKind, site_key: &str, legacy_ok: &Vec<String>, modern_ok: &Vec<String>) -> (r: bool)
    ensures
        r == network_error_reported_spec(kind, site_key@, string_views(legacy_ok@), string_views(modern_ok@)),
{
    match kind {
        RequestKind::ModernNetworks => !contains_text(legacy_ok, site_key),
        RequestKind::LegacyNetworks => !contains_text(modern_ok, site_key),
        _ => true,
    }
}

} // verus!
