//! Docker API collection: the endpoint of a host, the services and networks
//! recorded from a host's container listing, and domain-like words in label values.

use vstd::prelude::*;
use vstd::utf8::encode_utf8;
use vstd::string::StringSliceAdditionalSpecFns;

use vstd::string::StringExecFns;

use crate::bytes::{ascii_chars, ascii_string, is_ascii_bytes};
use crate::bytes::{has_prefix, starts_with};
use crate::git_observer::watcher::{insert_key, insert_key_exec, keys_sorted, lemma_insert_key_sorted};
use crate::message::{decimal_chars, push_decimal};
use crate::inventory::adguard::PortMapping;
use crate::inventory::remote_configs::CollectorWarning;
use crate::strings::{lemma_str_lt_total, lemma_str_lt_transitive, str_eq, str_lt, string_less, string_views, trim_leading_slashes, trim_trailing_slashes, without_leading_slashes, without_trailing_slashes};

verus! {

/// A byte that may be part of a domain-like word: ASCII letter or digit, `.` or `-`.
/// (The bytes of a character outside ASCII are all 128 or more, so such a character
/// always separates words, as it does when the text is split by characters.)
pub open spec fn domain_byte(b: u8) -> bool {
    (48 <= b <= 57) || (65 <= b <= 90) || (97 <= b <= 122) || b == 46 || b == 45
}

/// A word worth keeping: it holds a `.` and is longer than three bytes.
pub open spec fn domainish_word(w: Seq<u8>) -> bool {
    w.contains(46u8) && w.len() > 3
}

/// The kept words of a prefix of a text, and the word being read.
pub open spec fn domainish_state(s: Seq<u8>) -> (Seq<Seq<u8>>, Seq<u8>)
    decreases s.len(),
{
    if s.len() == 0 {
        (Seq::empty(), Seq::empty())
    } else {
        let (kept, cur) = domainish_state(s.drop_last());
        if domain_byte(s.last()) {
            (kept, cur.push(s.last()))
        } else if domainish_word(cur) {
            (kept.push(cur), Seq::empty())
        } else {
            (kept, Seq::empty())
        }
    }
}

/// The domain-like words of a text's bytes, in order.
pub open spec fn domainish_words(s: Seq<u8>) -> Seq<Seq<u8>> {
    let (kept, cur) = domainish_state(s);
    if domainish_word(cur) {
        kept.push(cur)
    } else {
        kept
    }
}

fn is_domain_byte(b: u8) -> (r: bool)
    ensures
        r == domain_byte(b),
{
    (48 <= b && b <= 57) || (65 <= b && b <= 90) || (97 <= b && b <= 122) || b == 46 || b == 45
}

fn keep_word(w: &Vec<u8>) -> (r: bool)
    ensures
        r == domainish_word(w@),
{
    let mut has_dot = false;
    let mut i: usize = 0;
    while i < w.len()
        invariant
            i <= w.len(),
            has_dot == (exists|j: int| 0 <= j < i && w@[j] == 46u8),
        decreases w.len() - i,
    {
        if w[i] == 46u8 {
            has_dot = true;
        }
        i += 1;
    }
    proof {
        if has_dot {
            let j = choose|j: int| 0 <= j < i && w@[j] == 46u8;
            assert(w@[j] == 46u8);
        }
    }
    has_dot && w.len() > 3
}

proof fn lemma_domain_word_ascii(w: Seq<u8>)
    requires
        forall|j: int| 0 <= j < w.len() ==> domain_byte(#[trigger] w[j]),
    ensures
        is_ascii_bytes(w),
{
}

/// The words of `line` made of ASCII letters, digits, `.` and `-` that hold a `.` and
/// are longer than three characters: the host names a label mentions.
pub fn extract_domainish(line: &str) -> (r: Vec<String>)
    ensures
        r@.len() == domainish_words(line.spec_bytes()).len(),
        forall|i: int| 0 <= i < r@.len() ==> #[trigger] r@[i]@ == ascii_chars(domainish_words(line.spec_bytes())[i]),
{
    let b = line.as_bytes();
    let mut kept: Vec<String> = Vec::new();
    let mut cur: Vec<u8> = Vec::new();
    let mut i: usize = 0;
    assert(b@.take(0) =~= Seq::<u8>::empty());
    while i < b.len()
        invariant
            i <= b.len(),
            b@ == line.spec_bytes(),
            kept@.len() == domainish_state(b@.take(i as int)).0.len(),
            forall|k: int| 0 <= k < kept@.len() ==> #[trigger] kept@[k]@ == ascii_chars(domainish_state(b@.take(i as int)).0[k]),
            cur@ == domainish_state(b@.take(i as int)).1,
            forall|j: int| 0 <= j < cur@.len() ==> domain_byte(#[trigger] cur@[j]),
        decreases b.len() - i,
    {
        let c = b[i];
        assert(b@.take(i + 1).drop_last() =~= b@.take(i as int));
        assert(b@.take(i + 1).last() == c);
        if is_domain_byte(c) {
            cur.push(c);
        } else {
            if keep_word(&cur) {
                proof {
                    lemma_domain_word_ascii(cur@);
                }
                kept.push(ascii_string(cur.as_slice()));
            }
            cur = Vec::new();
            assert(cur@ =~= Seq::<u8>::empty());
        }
        i += 1;
    }
    assert(b@.take(i as int) =~= b@);
    if keep_word(&cur) {
        proof {
            lemma_domain_word_ascii(cur@);
        }
        kept.push(ascii_string(cur.as_slice()));
    }
    kept
}


/// The container-list endpoint of a Docker host: its URL without trailing `/`, then
/// `/containers/json?all=1`.
pub fn containers_endpoint(host: &str) -> (r: String)
    ensures
        r@ == trim_trailing_slashes(host@) + "/containers/json?all=1"@,
{
    let mut out = without_trailing_slashes(host);
    out.append("/containers/json?all=1");
    out
}

/// `pat` occurs in `s`.
pub open spec fn has_infix(s: Seq<u8>, pat: Seq<u8>) -> bool {
    exists|i: int| 0 <= i && i + pat.len() <= s.len() && #[trigger] s.subrange(i, i + pat.len()) == pat
}

fn matches_at(s: &[u8], pat: &[u8], i: usize) -> (r: bool)
    requires
        i + pat.len() <= s.len(),
    ensures
        r == (s@.subrange(i as int, i + pat.len()) == pat@),
{
    let mut j: usize = 0;
    while j < pat.len()
        invariant
            i + pat.len() <= s.len(),
            j <= pat.len(),
            forall|k: int| 0 <= k < j ==> s@[i + k] == pat@[k],
        decreases pat.len() - j,
    {
        if s[i + j] != pat[j] {
            assert(s@.subrange(i as int, i + pat.len())[j as int] != pat@[j as int]);
            return false;
        }
        j += 1;
    }
    assert(s@.subrange(i as int, i + pat.len()) =~= pat@);
    true
}

fn bytes_contain(s: &[u8], pat: &[u8]) -> (r: bool)
    ensures
        r == has_infix(s@, pat@),
{
    if pat.len() > s.len() {
        return false;
    }
    let last = s.len() - pat.len();
    let mut i: usize = 0;
    loop
        invariant
            i <= last,
            last + pat.len() == s.len(),
            forall|k: int| 0 <= k < i ==> #[trigger] s@.subrange(k, k + pat.len()) != pat@,
        ensures
            forall|k: int| 0 <= k <= last ==> #[trigger] s@.subrange(k, k + pat.len()) != pat@,
        decreases last - i,
    {
        if matches_at(s, pat, i) {
            return true;
        }
        if i == last {
            break;
        }
        i += 1;
    }
    false
}

/// `str::contains` with a string pattern: a byte infix.
pub fn text_contains(s: &str, pat: &str) -> (r: bool)
    ensures
        r == has_infix(s.spec_bytes(), pat.spec_bytes()),
{
    bytes_contain(s.as_bytes(), pat.as_bytes())
}

/// A published port of a container, as the Docker API lists it.
#[derive(Debug, Clone, PartialEq, Eq)]
pub struct DockerPort {
    pub ip: Option<String>,
    pub public_port: Option<u64>,
    pub private_port: Option<u64>,
    pub protocol: Option<String>,
}

/// A container as the Docker API lists it: the fields the inventory reads.
#[derive(Debug, Clone, PartialEq, Eq)]
pub struct DockerContainer {
    pub id: Option<String>,
    /// The first of the container's names.
    pub first_name: Option<String>,
    pub image: Option<String>,
    pub state: Option<String>,
    /// The labels whose values are text, ordered by key.
    pub labels: Vec<(String, String)>,
    pub ports: Vec<DockerPort>,
    /// The names of the networks the container is attached to.
    pub networks: Vec<String>,
}

/// The inventory service recorded for one container.
#[derive(Debug, Clone, PartialEq, Eq)]
pub struct ContainerService {
    pub id: String,
    pub name: String,
    pub kind: String,
    pub host: String,
    pub image: Option<String>,
    pub status: Option<String>,
    pub domains: Vec<String>,
    pub ports: Vec<PortMapping>,
    pub labels: Vec<(String, String)>,
}

pub open spec fn opt_chars(o: Option<String>) -> Option<Seq<char>> {
    match o {
        Some(s) => Some(s@),
        None => None,
    }
}

fn clone_opt(o: &Option<String>) -> (r: Option<String>)
    ensures
        opt_chars(r) == opt_chars(*o),
{
    match o {
        Some(s) => Some(s.clone()),
        None => None,
    }
}

/// A port number that fits in 16 bits.
pub open spec fn port_number(p: Option<u64>) -> Option<u16> {
    match p {
        Some(v) => if v <= 65535 { Some(v as u16) } else { None },
        None => None,
    }
}

/// `m` is the mapping of the listed port `p`; the protocol defaults to `tcp`.
pub open spec fn port_mapping_of(p: DockerPort, m: PortMapping) -> bool {
    &&& opt_chars(m.host_ip) == opt_chars(p.ip)
    &&& m.host_port == port_number(p.public_port)
    &&& m.container_port == port_number(p.private_port)
    &&& m.protocol@ == (match p.protocol { Some(t) => t@, None => "tcp"@ })
}

pub open spec fn label_views(v: Seq<(String, String)>) -> Seq<(Seq<char>, Seq<char>)> {
    Seq::new(v.len(), |i: int| (v[i].0@, v[i].1@))
}

/// A label that names a route or host, whose value may mention domains.
pub open spec fn route_label(k: Seq<char>) -> bool {
    has_infix(encode_utf8(k), encode_utf8("rule"@)) || has_infix(encode_utf8(k), encode_utf8("host"@))
}

/// A label kept on the service: Compose, Traefik and SWAG labels.
pub open spec fn kept_label(k: Seq<char>) -> bool {
    has_prefix(encode_utf8(k), encode_utf8("com.docker.compose"@))
        || has_infix(encode_utf8(k), encode_utf8("traefik"@))
        || has_infix(encode_utf8(k), encode_utf8("swag"@))
}

pub open spec fn word_texts(ws: Seq<Seq<u8>>) -> Seq<Seq<char>> {
    Seq::new(ws.len(), |i: int| ascii_chars(ws[i]))
}

/// The domain-like words of the route labels' values, label by label.
pub open spec fn label_domains(ls: Seq<(Seq<char>, Seq<char>)>) -> Seq<Seq<char>>
    decreases ls.len(),
{
    if ls.len() == 0 {
        Seq::empty()
    } else {
        let rest = label_domains(ls.drop_last());
        if route_label(ls.last().0) {
            rest + word_texts(domainish_words(encode_utf8(ls.last().1)))
        } else {
            rest
        }
    }
}

/// The kept labels, in order.
pub open spec fn kept_labels(ls: Seq<(Seq<char>, Seq<char>)>) -> Seq<(Seq<char>, Seq<char>)>
    decreases ls.len(),
{
    if ls.len() == 0 {
        Seq::empty()
    } else {
        let rest = kept_labels(ls.drop_last());
        if kept_label(ls.last().0) {
            rest.push(ls.last())
        } else {
            rest
        }
    }
}

pub open spec fn container_id(c: DockerContainer) -> Seq<char> {
    match c.id {
        Some(i) => i@,
        None => "unknown"@,
    }
}

/// The container's first name, or its id, without leading `/`.
pub open spec fn container_name(c: DockerContainer) -> Seq<char> {
    trim_leading_slashes(match c.first_name {
        Some(n) => n@,
        None => container_id(c),
    })
}

/// `s` is the service recorded for container `c` on `host`.
pub open spec fn service_of(host: Seq<char>, c: DockerContainer, s: ContainerService) -> bool {
    &&& s.id@ == "docker:"@ + host + ":"@ + container_id(c)
    &&& s.name@ == container_name(c)
    &&& s.kind@ == "docker_container"@
    &&& s.host@ == host
    &&& opt_chars(s.image) == opt_chars(c.image)
    &&& opt_chars(s.status) == opt_chars(c.state)
    &&& string_views(s.domains@) == label_domains(label_views(c.labels@))
    &&& s.ports@.len() == c.ports@.len()
    &&& forall|i: int| 0 <= i < s.ports@.len() ==> port_mapping_of(c.ports@[i], #[trigger] s.ports@[i])
    &&& label_views(s.labels@) == kept_labels(label_views(c.labels@))
}

fn port_number_of(p: Option<u64>) -> (r: Option<u16>)
    ensures
        r == port_number(p),
{
    match p {
        Some(v) => if v <= 65535 { Some(v as u16) } else { None },
        None => None,
    }
}

/// The mapping of a listed port.
pub fn port_mapping(p: &DockerPort) -> (m: PortMapping)
    ensures
        port_mapping_of(*p, m),
{
    PortMapping {
        host_ip: clone_opt(&p.ip),
        host_port: port_number_of(p.public_port),
        container_port: port_number_of(p.private_port),
        protocol: match &p.protocol {
            Some(t) => t.clone(),
            None => "tcp".to_string(),
        },
    }
}

fn is_route_label(k: &String) -> (r: bool)
    ensures
        r == route_label(k@),
{
    text_contains(k.as_str(), "rule") || text_contains(k.as_str(), "host")
}

fn is_kept_label(k: &String) -> (r: bool)
    ensures
        r == kept_label(k@),
{
    starts_with(k.as_str().as_bytes(), "com.docker.compose".as_bytes())
        || text_contains(k.as_str(), "traefik")
        || text_contains(k.as_str(), "swag")
}

/// The domain-like words of the route labels' values.
pub fn domains_of_labels(labels: &Vec<(String, String)>) -> (r: Vec<String>)
    ensures
        string_views(r@) == label_domains(label_views(labels@)),
{
    let mut out: Vec<String> = Vec::new();
    let mut i: usize = 0;
    assert(label_views(labels@).take(0) =~= Seq::<(Seq<char>, Seq<char>)>::empty());
    assert(string_views(out@) =~= Seq::<Seq<char>>::empty());
    while i < labels.len()
        invariant
            i <= labels.len(),
            string_views(out@) == label_domains(label_views(labels@).take(i as int)),
        decreases labels.len() - i,
    {
        let ghost before = out@;
        assert(label_views(labels@).take(i + 1).drop_last() =~= label_views(labels@).take(i as int));
        assert(label_views(labels@).take(i + 1).last() == (labels@[i as int].0@, labels@[i as int].1@));
        if is_route_label(&labels[i].0) {
            let line = labels[i].1.as_str();
            assert(line@ == labels@[i as int].1@);
            assert(line.spec_bytes() == encode_utf8(labels@[i as int].1@));
            let words = extract_domainish(line);
            let mut j: usize = 0;
            while j < words.len()
                invariant
                    j <= words.len(),
                    out@.len() == before.len() + j,
                    forall|k: int| 0 <= k < before.len() ==> #[trigger] out@[k] == before[k],
                    forall|k: int| 0 <= k < j ==> #[trigger] out@[before.len() + k]@ == words@[k]@,
                decreases words.len() - j,
            {
                out.push(words[j].clone());
                j += 1;
            }
            let ghost ws = domainish_words(encode_utf8(labels@[i as int].1@));
            assert(string_views(out@) =~= string_views(before) + word_texts(ws)) by {
                assert forall|k: int| 0 <= k < out@.len() implies #[trigger] string_views(out@)[k] == (string_views(before) + word_texts(ws))[k] by {
                    if k >= before.len() {
                        let m = k - before.len();
                        assert(out@[before.len() + m]@ == words@[m]@);
                        assert(words@[m]@ == ascii_chars(ws[m]));
                    } else {
                        assert(out@[k] == before[k]);
                    }
                }
            }
        }
        i += 1;
    }
    assert(label_views(labels@).take(labels.len() as int) =~= label_views(labels@));
    out
}

/// The kept labels.
pub fn kept_labels_of(labels: &Vec<(String, String)>) -> (r: Vec<(String, String)>)
    ensures
        label_views(r@) == kept_labels(label_views(labels@)),
{
    let mut out: Vec<(String, String)> = Vec::new();
    let mut i: usize = 0;
    assert(label_views(labels@).take(0) =~= Seq::<(Seq<char>, Seq<char>)>::empty());
    assert(label_views(out@) =~= Seq::<(Seq<char>, Seq<char>)>::empty());
    while i < labels.len()
        invariant
            i <= labels.len(),
            label_views(out@) == kept_labels(label_views(labels@).take(i as int)),
        decreases labels.len() - i,
    {
        assert(label_views(labels@).take(i + 1).drop_last() =~= label_views(labels@).take(i as int));
        assert(label_views(labels@).take(i + 1).last() == (labels@[i as int].0@, labels@[i as int].1@));
        if is_kept_label(&labels[i].0) {
            let ghost before = out@;
            out.push((labels[i].0.clone(), labels[i].1.clone()));
            assert(label_views(out@) =~= label_views(before).push((labels@[i as int].0@, labels@[i as int].1@)));
        }
        i += 1;
    }
    assert(label_views(labels@).take(labels.len() as int) =~= label_views(labels@));
    out
}

/// The inventory service recorded for container `c` seen on `host`.
pub fn container_service(host: &str, c: &DockerContainer) -> (s: ContainerService)
    ensures
        service_of(host@, *c, s),
{
    let id = match &c.id {
        Some(i) => i.clone(),
        None => "unknown".to_string(),
    };
    let name = match &c.first_name {
        Some(n) => without_leading_slashes(n.as_str()),
        None => without_leading_slashes(id.as_str()),
    };
    let mut full_id = "docker:".to_string();
    full_id.append(host);
    full_id.append(":");
    full_id.append(id.as_str());
    let mut ports: Vec<PortMapping> = Vec::new();
    let mut i: usize = 0;
    while i < c.ports.len()
        invariant
            i <= c.ports.len(),
            ports@.len() == i,
            forall|k: int| 0 <= k < i ==> port_mapping_of(c.ports@[k], #[trigger] ports@[k]),
        decreases c.ports.len() - i,
    {
        ports.push(port_mapping(&c.ports[i]));
        i += 1;
    }
    ContainerService {
        id: full_id,
        name,
        kind: "docker_container".to_string(),
        host: host.to_string(),
        image: clone_opt(&c.image),
        status: clone_opt(&c.state),
        domains: domains_of_labels(&c.labels),
        ports,
        labels: kept_labels_of(&c.labels),
    }
}

/// A Docker network and the containers attached to it, as the inventory records it.
#[derive(Debug, Clone, PartialEq, Eq)]
pub struct DockerNetwork {
    pub name: String,
    pub kind: String,
    /// Container names, ordered, without repeats.
    pub members: Vec<String>,
    /// The host whose listing first named the network.
    pub source_host: String,
}

pub struct NetworkView {
    pub name: Seq<char>,
    pub kind: Seq<char>,
    pub members: Seq<Seq<char>>,
    pub host: Seq<char>,
}

pub open spec fn network_view(n: DockerNetwork) -> NetworkView {
    NetworkView { name: n.name@, kind: n.kind@, members: string_views(n.members@), host: n.source_host@ }
}

pub open spec fn network_views(v: Seq<DockerNetwork>) -> Seq<NetworkView> {
    Seq::new(v.len(), |i: int| network_view(v[i]))
}

/// Index of the network named `name`, or the length when there is none.
pub open spec fn network_index(nets: Seq<NetworkView>, name: Seq<char>) -> int
    decreases nets.len(),
{
    if nets.len() == 0 {
        0
    } else if nets[0].name == name {
        0
    } else {
        1 + network_index(nets.drop_first(), name)
    }
}

/// Index of the first network not ordered before `name`.
pub open spec fn network_insert_pos(nets: Seq<NetworkView>, name: Seq<char>) -> int
    decreases nets.len(),
{
    if nets.len() == 0 {
        0
    } else if !str_lt(nets[0].name, name) {
        0
    } else {
        1 + network_insert_pos(nets.drop_first(), name)
    }
}

/// Record `member` on network `name`: added to its members when the network is known,
/// else a new network, placed by name, that `host` named first.
pub open spec fn add_member(nets: Seq<NetworkView>, name: Seq<char>, member: Seq<char>, host: Seq<char>) -> Seq<NetworkView> {
    let i = network_index(nets, name);
    if i < nets.len() {
        nets.update(i, NetworkView { members: insert_key(nets[i].members, member), ..nets[i] })
    } else {
        nets.insert(network_insert_pos(nets, name), NetworkView { name, kind: "docker"@, members: seq![member], host })
    }
}

/// Record `member` on each of the networks `names`, in order.
pub open spec fn add_member_to_all(nets: Seq<NetworkView>, names: Seq<Seq<char>>, member: Seq<char>, host: Seq<char>) -> Seq<NetworkView>
    decreases names.len(),
{
    if names.len() == 0 {
        nets
    } else {
        add_member(add_member_to_all(nets, names.drop_last(), member, host), names.last(), member, host)
    }
}

/// The networks once the containers `cs`, listed by `host`, are recorded in order.
pub open spec fn networks_after(nets: Seq<NetworkView>, host: Seq<char>, cs: Seq<DockerContainer>) -> Seq<NetworkView>
    decreases cs.len(),
{
    if cs.len() == 0 {
        nets
    } else {
        let c = cs.last();
        add_member_to_all(networks_after(nets, host, cs.drop_last()), string_views(c.networks@), container_name(c), host)
    }
}

proof fn lemma_network_index(nets: Seq<NetworkView>, name: Seq<char>)
    ensures
        0 <= network_index(nets, name) <= nets.len(),
        network_index(nets, name) < nets.len() ==> nets[network_index(nets, name)].name == name,
        forall|j: int| 0 <= j < network_index(nets, name) ==> #[trigger] nets[j].name != name,
    decreases nets.len(),
{
    if nets.len() > 0 && nets[0].name != name {
        lemma_network_index(nets.drop_first(), name);
        assert forall|j: int| 0 <= j < network_index(nets, name) implies #[trigger] nets[j].name != name by {
            if j > 0 {
                assert(nets[j] == nets.drop_first()[j - 1]);
            }
        }
    }
}

proof fn lemma_network_insert_pos(nets: Seq<NetworkView>, name: Seq<char>)
    ensures
        0 <= network_insert_pos(nets, name) <= nets.len(),
        network_insert_pos(nets, name) < nets.len() ==> !str_lt(nets[network_insert_pos(nets, name)].name, name),
        forall|j: int| 0 <= j < network_insert_pos(nets, name) ==> str_lt(#[trigger] nets[j].name, name),
    decreases nets.len(),
{
    if nets.len() > 0 && str_lt(nets[0].name, name) {
        lemma_network_insert_pos(nets.drop_first(), name);
        assert forall|j: int| 0 <= j < network_insert_pos(nets, name) implies str_lt(#[trigger] nets[j].name, name) by {
            if j > 0 {
                assert(nets[j] == nets.drop_first()[j - 1]);
            }
        }
    }
}

/// Networks ordered by name without repeats, each with its members ordered without
/// repeats: the order of a map from name to a set of members.
pub open spec fn networks_ordered(nets: Seq<NetworkView>) -> bool {
    &&& forall|i: int, j: int| 0 <= i < j < nets.len() ==> str_lt(#[trigger] nets[i].name, #[trigger] nets[j].name)
    &&& forall|i: int| 0 <= i < nets.len() ==> keys_sorted(#[trigger] nets[i].members)
}

/// Recording a member keeps the networks ordered.
pub proof fn lemma_add_member_ordered(nets: Seq<NetworkView>, name: Seq<char>, member: Seq<char>, host: Seq<char>)
    requires
        networks_ordered(nets),
    ensures
        networks_ordered(add_member(nets, name, member, host)),
{
    lemma_network_index(nets, name);
    lemma_network_insert_pos(nets, name);
    let i = network_index(nets, name);
    let r = add_member(nets, name, member, host);
    if i < nets.len() {
        lemma_insert_key_sorted(nets[i].members, member);
        assert forall|a: int, b: int| 0 <= a < b < r.len() implies str_lt(#[trigger] r[a].name, #[trigger] r[b].name) by {
            assert(r[a].name == nets[a].name && r[b].name == nets[b].name);
        }
    } else {
        let pos = network_insert_pos(nets, name);
        if pos < nets.len() {
            lemma_str_lt_total(nets[pos].name, name);
            assert(nets[pos].name != name);
        }
        assert forall|a: int, b: int| 0 <= a < b < r.len() implies str_lt(#[trigger] r[a].name, #[trigger] r[b].name) by {
            if b < pos {
            } else if b == pos {
            } else if a < pos {
                if b - 1 > pos {
                    lemma_str_lt_transitive(name, nets[pos].name, nets[b - 1].name);
                }
                lemma_str_lt_transitive(nets[a].name, name, nets[b - 1].name);
            } else if a == pos {
                if b - 1 > pos {
                    lemma_str_lt_transitive(name, nets[pos].name, nets[b - 1].name);
                }
            } else {
            }
        }
        assert forall|a: int| 0 <= a < r.len() implies keys_sorted(#[trigger] r[a].members) by {
            if a < pos {
                assert(r[a] == nets[a]);
            } else if a > pos {
                assert(r[a] == nets[a - 1]);
            }
        }
    }
}

/// Recording a member on several networks keeps the networks ordered.
pub proof fn lemma_add_member_to_all_ordered(nets: Seq<NetworkView>, names: Seq<Seq<char>>, member: Seq<char>, host: Seq<char>)
    requires
        networks_ordered(nets),
    ensures
        networks_ordered(add_member_to_all(nets, names, member, host)),
    decreases names.len(),
{
    if names.len() > 0 {
        lemma_add_member_to_all_ordered(nets, names.drop_last(), member, host);
        lemma_add_member_ordered(add_member_to_all(nets, names.drop_last(), member, host), names.last(), member, host);
    }
}

/// Recording containers keeps the networks ordered: each network is listed once, by
/// name, with each member once, by name.
pub proof fn lemma_networks_stay_ordered(nets: Seq<NetworkView>, host: Seq<char>, cs: Seq<DockerContainer>)
    requires
        networks_ordered(nets),
    ensures
        networks_ordered(networks_after(nets, host, cs)),
    decreases cs.len(),
{
    if cs.len() > 0 {
        lemma_networks_stay_ordered(nets, host, cs.drop_last());
        let c = cs.last();
        lemma_add_member_to_all_ordered(networks_after(nets, host, cs.drop_last()), string_views(c.networks@), container_name(c), host);
    }
}

/// Record `member` on network `name`.
pub fn record_member(nets: &mut Vec<DockerNetwork>, name: &String, member: &String, host: &str)
    ensures
        network_views(final(nets)@) == add_member(network_views(old(nets)@), name@, member@, host@),
{
    let ghost vs = network_views(nets@);
    proof {
        lemma_network_index(vs, name@);
        lemma_network_insert_pos(vs, name@);
    }
    let mut i: usize = 0;
    loop
        invariant
            i <= nets.len(),
            vs == network_views(nets@),
            forall|j: int| 0 <= j < i ==> #[trigger] vs[j].name != name@,
        ensures
            i <= nets.len(),
            vs == network_views(nets@),
            forall|j: int| 0 <= j < i ==> #[trigger] vs[j].name != name@,
            i < nets.len() ==> vs[i as int].name == name@,
        decreases nets.len() - i,
    {
        if i == nets.len() {
            break;
        }
        if str_eq(nets[i].name.as_str(), name.as_str()) {
            break;
        }
        i += 1;
    }
    if i < nets.len() {
        assert(network_index(vs, name@) == i) by {
            if network_index(vs, name@) < i {
                assert(vs[network_index(vs, name@)].name == name@);
            }
            if network_index(vs, name@) > i {
                assert(vs[i as int].name != name@);
            }
        }
        let mut n = nets.remove(i);
        insert_key_exec(&mut n.members, member);
        nets.insert(i, n);
        assert(network_views(nets@) =~= add_member(vs, name@, member@, host@));
    } else {
        assert(network_index(vs, name@) == vs.len()) by {
            if network_index(vs, name@) < vs.len() {
                assert(vs[network_index(vs, name@)].name == name@);
            }
        }
        let mut pos: usize = 0;
        loop
            invariant
                pos <= nets.len(),
                vs == network_views(nets@),
                pos <= network_insert_pos(vs, name@),
                0 <= network_insert_pos(vs, name@) <= vs.len(),
                network_insert_pos(vs, name@) < vs.len() ==> !str_lt(vs[network_insert_pos(vs, name@)].name, name@),
                forall|j: int| 0 <= j < network_insert_pos(vs, name@) ==> str_lt(#[trigger] vs[j].name, name@),
            ensures
                pos == network_insert_pos(vs, name@),
                vs == network_views(nets@),
            decreases nets.len() - pos,
        {
            if pos == nets.len() {
                break;
            }
            if !string_less(&nets[pos].name, name) {
                assert(!str_lt(vs[pos as int].name, name@));
                break;
            }
            pos += 1;
        }
        assert(pos == network_insert_pos(vs, name@));
        let fresh = DockerNetwork {
            name: name.clone(),
            kind: "docker".to_string(),
            members: vec![member.clone()],
            source_host: host.to_string(),
        };
        assert(string_views(fresh.members@) =~= seq![member@]);
        nets.insert(pos, fresh);
        assert(network_views(nets@) =~= add_member(vs, name@, member@, host@));
    }
}

/// The most containers read from one host's listing.
pub const MAX_CONTAINERS_PER_HOST: usize = 200;

/// `s1` and `n1` are the services `s0` and networks `n0` once the first
/// `MAX_CONTAINERS_PER_HOST` containers of `items`, listed by `host`, are recorded:
/// a service appended for each, and each a member of its networks.
pub open spec fn containers_recorded(host: Seq<char>, items: Seq<DockerContainer>, s0: Seq<ContainerService>, s1: Seq<ContainerService>, n0: Seq<NetworkView>, n1: Seq<NetworkView>) -> bool {
    let n: int = if items.len() < MAX_CONTAINERS_PER_HOST { items.len() as int } else { MAX_CONTAINERS_PER_HOST as int };
    &&& s1.len() == s0.len() + n
    &&& forall|k: int| 0 <= k < s0.len() ==> #[trigger] s1[k] == s0[k]
    &&& forall|k: int| 0 <= k < n ==> service_of(host, items[k], #[trigger] s1[s0.len() + k])
    &&& n1 == networks_after(n0, host, items.take(n))
}

/// Record the containers of `host`'s listing, at most the first
/// `MAX_CONTAINERS_PER_HOST`: a service for each, and each as a member of its
/// networks.
pub fn normalize_containers(host: &str, items: &Vec<DockerContainer>, services: &mut Vec<ContainerService>, networks: &mut Vec<DockerNetwork>)
    ensures
        containers_recorded(host@, items@, old(services)@, final(services)@, network_views(old(networks)@), network_views(final(networks)@)),
{
    let n: usize = if items.len() < MAX_CONTAINERS_PER_HOST { items.len() } else { MAX_CONTAINERS_PER_HOST };
    let ghost s0 = services@;
    let ghost v0 = network_views(networks@);
    let mut i: usize = 0;
    assert(items@.take(0) =~= Seq::<DockerContainer>::empty());
    while i < n
        invariant
            n <= items.len(),
            i <= n,
            services@.len() == s0.len() + i,
            forall|k: int| 0 <= k < s0.len() ==> #[trigger] services@[k] == s0[k],
            forall|k: int| 0 <= k < i ==> service_of(host@, items@[k], #[trigger] services@[s0.len() + k]),
            network_views(networks@) == networks_after(v0, host@, items@.take(i as int)),
        decreases n - i,
    {
        let c = &items[i];
        let service = container_service(host, c);
        let ghost before = network_views(networks@);
        let mut j: usize = 0;
        assert(string_views(c.networks@).take(0) =~= Seq::<Seq<char>>::empty());
        while j < c.networks.len()
            invariant
                j <= c.networks.len(),
                network_views(networks@) == add_member_to_all(before, string_views(c.networks@).take(j as int), service.name@, host@),
            decreases c.networks.len() - j,
        {
            assert(string_views(c.networks@).take(j + 1).drop_last() =~= string_views(c.networks@).take(j as int));
            record_member(networks, &c.networks[j], &service.name, host);
            j += 1;
        }
        assert(string_views(c.networks@).take(c.networks.len() as int) =~= string_views(c.networks@));
        assert(items@.take(i + 1).drop_last() =~= items@.take(i as int));
        assert(items@.take(i + 1).last() == items@[i as int]);
        services.push(service);
        i += 1;
    }
}

/// What a host answered for its container listing.
pub enum ContainerListing {
    /// An HTTP response; `containers` is `None` when the body was not a list.
    Response { status: u16, containers: Option<Vec<DockerContainer>> },
    /// No response.
    Unavailable { error: String },
}

pub open spec fn warning_is(w: CollectorWarning, category: Seq<char>, message: Seq<char>) -> bool {
    w.category@ == category && w.message@ == message
}

/// The warning when no Docker host is configured, and collection is skipped.
pub fn hosts_missing_warning(hosts: &Vec<String>) -> (w: Option<CollectorWarning>)
    ensures
        hosts@.len() == 0 ==> (w matches Some(x) && warning_is(x, "config"@, "CORTEX_DOCKER_HOSTS not set; Docker API collection skipped"@)),
        hosts@.len() > 0 ==> w is None,
{
    if hosts.len() == 0 {
        Some(CollectorWarning {
            category: "config".to_string(),
            message: "CORTEX_DOCKER_HOSTS not set; Docker API collection skipped".to_string(),
        })
    } else {
        None
    }
}

/// Record what `host` answered: a listing with a status below 400 is recorded,
/// anything else gives a warning and changes nothing.
pub fn record_host_listing(host: &str, listing: &ContainerListing, services: &mut Vec<ContainerService>, networks: &mut Vec<DockerNetwork>) -> (w: Option<CollectorWarning>)
    ensures
        match *listing {
            ContainerListing::Response { status, containers } => if status < 400 {
                match containers {
                    Some(items) => w is None && containers_recorded(host@, items@, old(services)@, final(services)@,
                        network_views(old(networks)@), network_views(final(networks)@)),
                    None => (w matches Some(x) && warning_is(x, "containers"@, "Docker "@ + host@ + " response was not an array"@))
                        && final(services)@ == old(services)@ && final(networks)@ == old(networks)@,
                }
            } else {
                (w matches Some(x) && warning_is(x, "containers"@, "Docker "@ + host@ + " returned HTTP "@ + decimal_chars(status as nat)))
                    && final(services)@ == old(services)@ && final(networks)@ == old(networks)@
            },
            ContainerListing::Unavailable { error } =>
                (w matches Some(x) && warning_is(x, "containers"@, "Docker "@ + host@ + " unavailable: "@ + error@))
                    && final(services)@ == old(services)@ && final(networks)@ == old(networks)@,
        },
{
    match listing {
        ContainerListing::Response { status, containers } => {
            if *status < 400 {
                match containers {
                    Some(items) => {
                        normalize_containers(host, items, services, networks);
                        None
                    },
                    None => {
                        let mut message = "Docker ".to_string();
                        message.append(host);
                        message.append(" response was not an array");
                        Some(CollectorWarning { category: "containers".to_string(), message })
                    },
                }
            } else {
                let mut message = "Docker ".to_string();
                message.append(host);
                message.append(" returned HTTP ");
                push_decimal(&mut message, *status as usize);
                Some(CollectorWarning { category: "containers".to_string(), message })
            }
        },
        ContainerListing::Unavailable { error } => {
            let mut message = "Docker ".to_string();
            message.append(host);
            message.append(" unavailable: ");
            message.append(error.as_str());
            Some(CollectorWarning { category: "containers".to_string(), message })
        },
    }
}

proof fn lemma_kept_labels_members(ls: Seq<(Seq<char>, Seq<char>)>)
    ensures
        forall|x: (Seq<char>, Seq<char>)| #[trigger] kept_labels(ls).contains(x) <==> (ls.contains(x) && kept_label(x.0)),
    decreases ls.len(),
{
    broadcast use vstd::seq_lib::group_seq_properties;
    if ls.len() > 0 {
        let init = ls.drop_last();
        let last = ls.last();
        let kl = kept_labels(init);
        lemma_kept_labels_members(init);
        assert forall|x: (Seq<char>, Seq<char>)| #[trigger] kept_labels(ls).contains(x) <==> (ls.contains(x) && kept_label(x.0)) by {
            if ls.contains(x) {
                let i = choose|i: int| 0 <= i < ls.len() && ls[i] == x;
                if i < init.len() {
                    assert(init[i] == x);
                    assert(init.contains(x));
                } else {
                    assert(x == last);
                }
            }
            if init.contains(x) {
                let i = choose|i: int| 0 <= i < init.len() && init[i] == x;
                assert(ls[i] == x);
            }
            if kept_label(last.0) {
                assert(kept_labels(ls) == kl.push(last));
                if kl.push(last).contains(x) {
                    let k = choose|k: int| 0 <= k < kl.push(last).len() && kl.push(last)[k] == x;
                    if k < kl.len() {
                        assert(kl[k] == x);
                        assert(kl.contains(x));
                    }
                }
                if kl.contains(x) {
                    let k = choose|k: int| 0 <= k < kl.len() && kl[k] == x;
                    assert(kl.push(last)[k] == x);
                }
                if x == last {
                    assert(kl.push(last)[kl.len() as int] == x);
                }
                assert(ls[ls.len() - 1] == last);
            } else {
                assert(kept_labels(ls) == kl);
                assert(ls[ls.len() - 1] == last);
            }
        }
    } else {
        assert forall|x: (Seq<char>, Seq<char>)| #[trigger] kept_labels(ls).contains(x) <==> (ls.contains(x) && kept_label(x.0)) by {
            assert(kept_labels(ls) =~= Seq::<(Seq<char>, Seq<char>)>::empty());
        }
    }
}

proof fn lemma_label_domains_members(ls: Seq<(Seq<char>, Seq<char>)>)
    ensures
        forall|d: Seq<char>| #[trigger] label_domains(ls).contains(d) <==>
            exists|i: int| 0 <= i < ls.len() && route_label(ls[i].0)
                && #[trigger] word_texts(domainish_words(encode_utf8(ls[i].1))).contains(d),
    decreases ls.len(),
{
    broadcast use vstd::seq_lib::group_seq_properties;
    if ls.len() > 0 {
        let init = ls.drop_last();
        let n = ls.len() - 1;
        lemma_label_domains_members(init);
        assert forall|d: Seq<char>| #[trigger] label_domains(ls).contains(d) <==>
            exists|i: int| 0 <= i < ls.len() && route_label(ls[i].0)
                && #[trigger] word_texts(domainish_words(encode_utf8(ls[i].1))).contains(d) by {
            let rest = label_domains(init);
            let last = word_texts(domainish_words(encode_utf8(ls[n].1)));
            if label_domains(ls).contains(d) {
                if route_label(ls[n].0) {
                    assert(label_domains(ls) == rest + last);
                    if !rest.contains(d) {
                        let k = choose|k: int| 0 <= k < (rest + last).len() && (rest + last)[k] == d;
                        assert(last[k - rest.len()] == d);
                        assert(last.contains(d));
                    }
                }
                if rest.contains(d) {
                    let i = choose|i: int| 0 <= i < init.len() && route_label(init[i].0)
                        && #[trigger] word_texts(domainish_words(encode_utf8(init[i].1))).contains(d);
                    assert(ls[i] == init[i]);
                }
            }
            if exists|i: int| 0 <= i < ls.len() && route_label(ls[i].0)
                && #[trigger] word_texts(domainish_words(encode_utf8(ls[i].1))).contains(d) {
                let i = choose|i: int| 0 <= i < ls.len() && route_label(ls[i].0)
                    && #[trigger] word_texts(domainish_words(encode_utf8(ls[i].1))).contains(d);
                if i < n {
                    assert(init[i] == ls[i]);
                    assert(word_texts(domainish_words(encode_utf8(init[i].1))).contains(d));
                    assert(rest.contains(d));
                    let k = choose|k: int| 0 <= k < rest.len() && rest[k] == d;
                    if route_label(ls[n].0) {
                        assert(label_domains(ls) == rest + last);
                        assert((rest + last)[k] == d);
                    } else {
                        assert(label_domains(ls) == rest);
                    }
                } else {
                    let k = choose|k: int| 0 <= k < last.len() && last[k] == d;
                    assert(label_domains(ls) == rest + last);
                    assert((rest + last)[rest.len() + k] == d);
                }
            }
        }
    }
}

/// The labels kept on a container's service are exactly its labels whose key starts
/// with `com.docker.compose` or contains `traefik` or `swag`; the service's domains
/// are exactly the domain-like words of the values of its labels whose key contains
/// `rule` or `host`.
pub proof fn lemma_service_labels_and_domains(host: Seq<char>, c: DockerContainer, s: ContainerService)
    requires
        service_of(host, c, s),
    ensures
        forall|l: (Seq<char>, Seq<char>)| #[trigger] label_views(s.labels@).contains(l) <==>
            (label_views(c.labels@).contains(l) && (
                has_prefix(encode_utf8(l.0), encode_utf8("com.docker.compose"@))
                || has_infix(encode_utf8(l.0), encode_utf8("traefik"@))
                || has_infix(encode_utf8(l.0), encode_utf8("swag"@)))),
        forall|d: Seq<char>| #[trigger] string_views(s.domains@).contains(d) <==>
            exists|i: int| 0 <= i < c.labels@.len()
                && (has_infix(encode_utf8(c.labels@[i].0@), encode_utf8("rule"@))
                    || has_infix(encode_utf8(c.labels@[i].0@), encode_utf8("host"@)))
                && #[trigger] word_texts(domainish_words(encode_utf8(c.labels@[i].1@))).contains(d),
{
    let ls = label_views(c.labels@);
    lemma_kept_labels_members(ls);
    lemma_label_domains_members(ls);
    assert forall|d: Seq<char>| #[trigger] string_views(s.domains@).contains(d) <==>
        exists|i: int| 0 <= i < c.labels@.len()
            && (has_infix(encode_utf8(c.labels@[i].0@), encode_utf8("rule"@))
                || has_infix(encode_utf8(c.labels@[i].0@), encode_utf8("host"@)))
            && #[trigger] word_texts(domainish_words(encode_utf8(c.labels@[i].1@))).contains(d) by {
        if string_views(s.domains@).contains(d) {
            let i = choose|i: int| 0 <= i < ls.len() && route_label(ls[i].0)
                && #[trigger] word_texts(domainish_words(encode_utf8(ls[i].1))).contains(d);
            assert(ls[i] == (c.labels@[i].0@, c.labels@[i].1@));
            assert(word_texts(domainish_words(encode_utf8(c.labels@[i].1@))).contains(d));
        }
        if exists|i: int| 0 <= i < c.labels@.len()
            && (has_infix(encode_utf8(c.labels@[i].0@), encode_utf8("rule"@))
                || has_infix(encode_utf8(c.labels@[i].0@), encode_utf8("host"@)))
            && #[trigger] word_texts(domainish_words(encode_utf8(c.labels@[i].1@))).contains(d) {
            let i = choose|i: int| 0 <= i < c.labels@.len()
                && (has_infix(encode_utf8(c.labels@[i].0@), encode_utf8("rule"@))
                    || has_infix(encode_utf8(c.labels@[i].0@), encode_utf8("host"@)))
                && #[trigger] word_texts(domainish_words(encode_utf8(c.labels@[i].1@))).contains(d);
            assert(ls[i] == (c.labels@[i].0@, c.labels@[i].1@));
            assert(route_label(ls[i].0));
            assert(word_texts(domainish_words(encode_utf8(ls[i].1))).contains(d));
            assert(label_domains(ls).contains(d));
        }
    }
}

/// A recorded service's ports follow the container's one for one: a port number is
/// kept when it fits in 16 bits and dropped otherwise, and the protocol defaults to
/// `tcp`. Its name has no leading `/`, and its id is `docker:`, the host, `:` and the
/// container id, or `unknown` without one.
pub proof fn lemma_service_ports_and_identity(host: Seq<char>, c: DockerContainer, s: ContainerService)
    requires
        service_of(host, c, s),
    ensures
        s.ports@.len() == c.ports@.len(),
        forall|i: int| 0 <= i < s.ports@.len() ==> {
            let p = c.ports@[i];
            let m = #[trigger] s.ports@[i];
            &&& (p.public_port matches Some(v) ==> (v < 65536 ==> m.host_port == Some(v as u16)) && (v >= 65536 ==> m.host_port is None))
            &&& (p.public_port is None ==> m.host_port is None)
            &&& (p.private_port matches Some(v) ==> (v < 65536 ==> m.container_port == Some(v as u16)) && (v >= 65536 ==> m.container_port is None))
            &&& (p.private_port is None ==> m.container_port is None)
            &&& (p.protocol matches Some(t) ==> m.protocol@ == t@)
            &&& (p.protocol is None ==> m.protocol@ == "tcp"@)
        },
        s.name@.len() == 0 || s.name@[0] != '/',
        c.id matches Some(i) ==> s.id@ == "docker:"@ + host + ":"@ + i@,
        c.id is None ==> s.id@ == "docker:"@ + host + ":"@ + "unknown"@,
{
    assert forall|i: int| 0 <= i < s.ports@.len() implies port_mapping_of(c.ports@[i], #[trigger] s.ports@[i]) by {}
    lemma_no_leading_slash(match c.first_name { Some(n) => n@, None => container_id(c) });
}

proof fn lemma_no_leading_slash(x: Seq<char>)
    ensures
        trim_leading_slashes(x).len() == 0 || trim_leading_slashes(x)[0] != '/',
    decreases x.len(),
{
    if x.len() > 0 && x[0] == '/' {
        lemma_no_leading_slash(x.drop_first());
    }
}

} // verus!
