//! Canonical encodings for OTLP metric points: exemplar identities and the stable
//! point key.

use vstd::prelude::*;
use vstd::string::StringExecFns;

use crate::bytes::ascii_chars;
use crate::otlp::entries::{hex_encode, hex_string};
use crate::otlp::metrics::MetricNormalizeError;
use crate::message::{push_signed_decimal, signed_decimal};
use crate::otlp::traces::all_zero;
use crate::sha256::{sha256_digest, sha256_hex, sha256_of};
use vstd::string::StringSliceAdditionalSpecFns;
use vstd::utf8::{decode_utf8, encode_utf8};
use crate::strings::{join_strings, join_with, lemma_str_lt_total, lemma_str_lt_transitive, str_lt, string_less, string_views};

verus! {

broadcast use vstd::seq_lib::to_multiset_insert;

/// An optional identifier: absent when empty, else `expected` bytes not all zero,
/// as lower-case hex.
pub open spec fn optional_hex_spec(bytes: Seq<u8>, expected: usize, field: &'static str) -> Result<Option<Seq<char>>, MetricNormalizeError> {
    if bytes.len() == 0 {
        Ok(None)
    } else if bytes.len() != expected || all_zero(bytes) {
        Err(MetricNormalizeError::InvalidOptionalId { field, expected, actual: bytes.len() as usize })
    } else {
        Ok(Some(ascii_chars(hex_encode(bytes))))
    }
}

fn any_nonzero(bytes: &[u8]) -> (r: bool)
    ensures
        r == !all_zero(bytes@),
{
    let mut i: usize = 0;
    while i < bytes.len()
        invariant
            i <= bytes.len(),
            forall|j: int| 0 <= j < i ==> #[trigger] bytes@[j] == 0,
        decreases bytes.len() - i,
    {
        if bytes[i] != 0 {
            return true;
        }
        i += 1;
    }
    false
}

/// An optional exemplar identifier as lower-case hex.
pub fn optional_hex_id(bytes: &[u8], expected: usize, field: &'static str) -> (r: Result<Option<String>, MetricNormalizeError>)
    ensures
        match optional_hex_spec(bytes@, expected, field) {
            Ok(None) => r == Ok::<Option<String>, MetricNormalizeError>(None),
            Ok(Some(s)) => r matches Ok(Some(t)) && t@ == s,
            Err(e) => r == Err::<Option<String>, MetricNormalizeError>(e),
        },
{
    if bytes.len() == 0 {
        return Ok(None);
    }
    if bytes.len() != expected || !any_nonzero(bytes) {
        return Err(MetricNormalizeError::InvalidOptionalId { field, expected, actual: bytes.len() });
    }
    Ok(Some(hex_string(bytes)))
}

/// The text of an optional identifier: empty when absent.
pub open spec fn or_empty(v: Option<Seq<char>>) -> Seq<char> {
    match v {
        Some(s) => s,
        None => Seq::empty(),
    }
}

/// An exemplar's `trace:span` identity; the trace identifier is checked first.
pub open spec fn exemplar_id_spec(trace_id: Seq<u8>, span_id: Seq<u8>) -> Result<Seq<char>, MetricNormalizeError> {
    match optional_hex_spec(trace_id, 16, "exemplar.trace_id") {
        Err(e) => Err(e),
        Ok(t) => match optional_hex_spec(span_id, 8, "exemplar.span_id") {
            Err(e) => Err(e),
            Ok(s) => Ok(or_empty(t) + ":"@ + or_empty(s)),
        },
    }
}

/// The identities of the exemplars in order, or the error of the first that has one.
pub open spec fn exemplar_ids_spec(ex: Seq<(Seq<u8>, Seq<u8>)>) -> Result<Seq<Seq<char>>, MetricNormalizeError>
    decreases ex.len(),
{
    if ex.len() == 0 {
        Ok(Seq::empty())
    } else {
        match exemplar_ids_spec(ex.drop_last()) {
            Err(e) => Err(e),
            Ok(prev) => match exemplar_id_spec(ex.last().0, ex.last().1) {
                Err(e) => Err(e),
                Ok(id) => Ok(prev.push(id)),
            },
        }
    }
}

/// The exemplars' trace and span identifiers as plain bytes.
pub open spec fn id_pairs(ex: Seq<(Vec<u8>, Vec<u8>)>) -> Seq<(Seq<u8>, Seq<u8>)> {
    Seq::new(ex.len(), |i: int| (ex[i].0@, ex[i].1@))
}

/// Ordered by the strings' byte order, equal strings allowed.
pub open spec fn sorted_texts(s: Seq<Seq<char>>) -> bool {
    forall|i: int, j: int| 0 <= i < j < s.len() ==> !str_lt(#[trigger] s[j], #[trigger] s[i])
}

fn exemplar_id(trace_id: &[u8], span_id: &[u8]) -> (r: Result<String, MetricNormalizeError>)
    ensures
        match exemplar_id_spec(trace_id@, span_id@) {
            Ok(id) => r matches Ok(s) && s@ == id,
            Err(e) => r == Err::<String, MetricNormalizeError>(e),
        },
{
    let trace = match optional_hex_id(trace_id, 16, "exemplar.trace_id") {
        Ok(t) => t,
        Err(e) => {
            return Err(e);
        },
    };
    let span = match optional_hex_id(span_id, 8, "exemplar.span_id") {
        Ok(s) => s,
        Err(e) => {
            return Err(e);
        },
    };
    let mut out = match trace {
        Some(t) => t,
        None => String::new(),
    };
    out.append(":");
    match span {
        Some(s) => out.append(s.as_str()),
        None => {},
    }
    Ok(out)
}

/// Insert `id` into the sorted `out` before the first string not less than it.
fn insert_sorted(out: &mut Vec<String>, id: String)
    requires
        sorted_texts(string_views(old(out)@)),
    ensures
        sorted_texts(string_views(final(out)@)),
        string_views(final(out)@).to_multiset() == string_views(old(out)@).to_multiset().insert(id@),
{
    let ghost s = string_views(out@);
    let mut k: usize = 0;
    while k < out.len() && string_less(&out[k], &id)
        invariant
            k <= out.len(),
            s == string_views(out@),
            forall|j: int| 0 <= j < k ==> str_lt(#[trigger] s[j], id@),
        decreases out.len() - k,
    {
        k += 1;
    }
    let ghost x = id@;
    out.insert(k, id);
    proof {
        let t = string_views(out@);
        assert(t =~= s.insert(k as int, x));
        assert forall|i: int, j: int| 0 <= i < j < t.len() implies !str_lt(#[trigger] t[j], #[trigger] t[i]) by {
            if j < k {
                assert(t[i] == s[i] && t[j] == s[j]);
            } else if i < k && j == k {
                lemma_str_lt_total(s[i], x);
            } else if i < k {
                assert(t[i] == s[i] && t[j] == s[j - 1]);
            } else if i == k {
                let sk = s[k as int];
                let sj = s[j - 1];
                assert(t[j] == sj);
                assert(!str_lt(sk, x));
                if str_lt(sj, x) {
                    lemma_str_lt_total(sk, sj);
                    if str_lt(sk, sj) {
                        lemma_str_lt_transitive(sk, sj, x);
                    }
                }
            } else {
                assert(t[i] == s[i - 1] && t[j] == s[j - 1]);
            }
        }
    }
}

/// The exemplars' `trace:span` identities in string order, or the error of the first
/// exemplar whose identifier is malformed.
pub fn exemplar_ids(exemplars: &Vec<(Vec<u8>, Vec<u8>)>) -> (r: Result<Vec<String>, MetricNormalizeError>)
    ensures
        match exemplar_ids_spec(id_pairs(exemplars@)) {
            Ok(ids) => r matches Ok(v) && sorted_texts(string_views(v@))
                && string_views(v@).to_multiset() == ids.to_multiset(),
            Err(e) => r == Err::<Vec<String>, MetricNormalizeError>(e),
        },
{
    let ghost ps = id_pairs(exemplars@);
    let mut out: Vec<String> = Vec::new();
    let mut i: usize = 0;
    assert(ps.take(0) =~= Seq::<(Seq<u8>, Seq<u8>)>::empty());
    assert(string_views(out@) =~= Seq::<Seq<char>>::empty());
    while i < exemplars.len()
        invariant
            i <= exemplars.len(),
            ps == id_pairs(exemplars@),
            exemplar_ids_spec(ps.take(i as int)) matches Ok(ids) && sorted_texts(string_views(out@))
                && string_views(out@).to_multiset() == ids.to_multiset(),
        decreases exemplars.len() - i,
    {
        assert(ps.take(i + 1).drop_last() =~= ps.take(i as int));
        assert(ps.take(i + 1).last() == (exemplars@[i as int].0@, exemplars@[i as int].1@));
        let ghost ids = exemplar_ids_spec(ps.take(i as int))->Ok_0;
        match exemplar_id(exemplars[i].0.as_slice(), exemplars[i].1.as_slice()) {
            Ok(id) => {
                proof {
                    vstd::seq_lib::to_multiset_build(ids, id@);
                }
                insert_sorted(&mut out, id);
            },
            Err(e) => {
                proof {
                    lemma_first_error_stays(ps, i as int);
                }
                return Err(e);
            },
        }
        i += 1;
    }
    assert(ps.take(i as int) =~= ps);
    Ok(out)
}

/// Once a prefix ends in an exemplar with an error, the whole list has that error.
proof fn lemma_first_error_stays(ps: Seq<(Seq<u8>, Seq<u8>)>, i: int)
    requires
        0 <= i < ps.len(),
        exemplar_ids_spec(ps.take(i)) is Ok,
        exemplar_id_spec(ps[i].0, ps[i].1) is Err,
    ensures
        exemplar_ids_spec(ps) == Err::<Seq<Seq<char>>, MetricNormalizeError>(exemplar_id_spec(ps[i].0, ps[i].1)->Err_0),
    decreases ps.len() - i,
{
    assert(ps.take(i + 1).drop_last() =~= ps.take(i));
    if i + 1 == ps.len() {
        assert(ps.take(i + 1) =~= ps);
    } else {
        lemma_error_prefix_stays(ps, i + 1);
    }
}

/// An error of a prefix is the error of every longer list.
proof fn lemma_error_prefix_stays(ps: Seq<(Seq<u8>, Seq<u8>)>, k: int)
    requires
        0 <= k <= ps.len(),
        exemplar_ids_spec(ps.take(k)) is Err,
    ensures
        exemplar_ids_spec(ps) == exemplar_ids_spec(ps.take(k)),
    decreases ps.len() - k,
{
    if k == ps.len() {
        assert(ps.take(k) =~= ps);
    } else {
        assert(ps.take(k + 1).drop_last() =~= ps.take(k));
        lemma_error_prefix_stays(ps, k + 1);
    }
}


/// What identifies a metric point, with the JSON values already encoded as text.
#[derive(Debug, Clone, PartialEq, Eq)]
pub struct PointKeyParts {
    pub resource_json: String,
    pub scope_json: String,
    pub metric_name: String,
    pub instrument_kind: String,
    pub unit: String,
    pub aggregation_temporality: Option<i32>,
    pub monotonic: Option<bool>,
    pub start_time_unix_nano: Option<i64>,
    pub time_unix_nano: i64,
    pub attributes_json: String,
    pub value_json: String,
    pub exemplar_ids: Vec<String>,
}

/// `n` as eight big-endian bytes.
pub open spec fn be8(n: nat) -> Seq<u8> {
    seq![
        (n / 0x100000000000000 % 256) as u8,
        (n / 0x1000000000000 % 256) as u8,
        (n / 0x10000000000 % 256) as u8,
        (n / 0x100000000 % 256) as u8,
        (n / 0x1000000 % 256) as u8,
        (n / 0x10000 % 256) as u8,
        (n / 0x100 % 256) as u8,
        (n % 256) as u8,
    ]
}

/// Each component as its byte length (eight bytes, big-endian) and then its bytes.
pub open spec fn framed(components: Seq<Seq<char>>) -> Seq<u8>
    decreases components.len(),
{
    if components.len() == 0 {
        Seq::empty()
    } else {
        let c = encode_utf8(components.last());
        framed(components.drop_last()) + be8(c.len()) + c
    }
}

/// Text of an optional value: empty when absent.
pub open spec fn optional_text(v: Option<Seq<char>>) -> Seq<char> {
    match v {
        Some(t) => t,
        None => Seq::empty(),
    }
}

/// The components hashed into a point key, in order: the resource's fingerprint
/// (hex SHA-256 of its JSON), the scope, name, kind, unit, temporality, monotonic flag,
/// start and point times, attributes, value and exemplar identities.
pub open spec fn key_components(p: PointKeyParts) -> Seq<Seq<char>> {
    seq![
        ascii_chars(hex_encode(sha256_of(encode_utf8(p.resource_json@)))),
        p.scope_json@,
        p.metric_name@,
        p.instrument_kind@,
        p.unit@,
        optional_text(match p.aggregation_temporality { Some(t) => Some(signed_decimal(t as int)), None => None }),
        optional_text(match p.monotonic { Some(b) => Some(if b { "true"@ } else { "false"@ }), None => None }),
        optional_text(match p.start_time_unix_nano { Some(t) => Some(signed_decimal(t as int)), None => None }),
        signed_decimal(p.time_unix_nano as int),
        p.attributes_json@,
        p.value_json@,
        join_with(string_views(p.exemplar_ids@), ","@),
    ]
}

/// The stable key of a metric point: hex SHA-256 of its framed components.
pub open spec fn point_key_spec(p: PointKeyParts) -> Seq<char> {
    ascii_chars(hex_encode(sha256_of(framed(key_components(p)))))
}

fn push_u64_be(out: &mut Vec<u8>, n: u64)
    ensures
        final(out)@ == old(out)@ + be8(n as nat),
{
    out.push((n / 0x100000000000000 % 256) as u8);
    out.push((n / 0x1000000000000 % 256) as u8);
    out.push((n / 0x10000000000 % 256) as u8);
    out.push((n / 0x100000000 % 256) as u8);
    out.push((n / 0x1000000 % 256) as u8);
    out.push((n / 0x10000 % 256) as u8);
    out.push((n / 0x100 % 256) as u8);
    out.push((n % 256) as u8);
    assert(final(out)@ =~= old(out)@ + be8(n as nat));
}

fn push_component(out: &mut Vec<u8>, value: &str)
    ensures
        final(out)@ == old(out)@ + be8(encode_utf8(value@).len()) + encode_utf8(value@),
{
    let bytes = value.as_bytes();
    push_u64_be(out, bytes.len() as u64);
    let ghost before = out@;
    let mut i: usize = 0;
    while i < bytes.len()
        invariant
            i <= bytes.len(),
            out@ == before + bytes@.take(i as int),
        decreases bytes.len() - i,
    {
        out.push(bytes[i]);
        assert(out@ =~= before + bytes@.take(i + 1));
        i += 1;
    }
    assert(bytes@.take(i as int) =~= bytes@);
}

fn decimal_text(v: Option<i64>) -> (r: String)
    ensures
        r@ == optional_text(match v { Some(t) => Some(signed_decimal(t as int)), None => None }),
{
    let mut out = String::new();
    match v {
        Some(t) => push_signed_decimal(&mut out, t),
        None => {},
    }
    assert(out@ =~= optional_text(match v { Some(t) => Some(signed_decimal(t as int)), None => None }));
    out
}

/// The components, each framed by its length.
fn framed_message(components: &Vec<String>) -> (r: Vec<u8>)
    ensures
        r@ == framed(string_views(components@)),
{
    let ghost cs = string_views(components@);
    let mut message: Vec<u8> = Vec::new();
    let mut i: usize = 0;
    assert(cs.take(0) =~= Seq::<Seq<char>>::empty());
    while i < components.len()
        invariant
            i <= components.len(),
            cs == string_views(components@),
            message@ == framed(cs.take(i as int)),
        decreases components.len() - i,
    {
        assert(cs.take(i + 1).drop_last() =~= cs.take(i as int));
        assert(cs.take(i + 1).last() == components@[i as int]@);
        push_component(&mut message, components[i].as_str());
        i += 1;
    }
    assert(cs.take(i as int) =~= cs);
    message
}

fn key_component_texts(parts: &PointKeyParts) -> (r: Vec<String>)
    ensures
        string_views(r@) == key_components(*parts),
{
    let fingerprint = sha256_hex(parts.resource_json.as_str().as_bytes());
    let temporality = decimal_text(match parts.aggregation_temporality { Some(t) => Some(t as i64), None => None });
    let monotonic = match parts.monotonic {
        Some(true) => "true".to_owned(),
        Some(false) => "false".to_owned(),
        None => String::new(),
    };
    proof {
        reveal_strlit("true");
        reveal_strlit("false");
    }
    let start = decimal_text(parts.start_time_unix_nano);
    let time = decimal_text(Some(parts.time_unix_nano));
    let ids = join_strings(&parts.exemplar_ids, ",");
    proof {
        reveal_strlit(",");
    }
    let mut v: Vec<String> = Vec::new();
    v.push(fingerprint);
    v.push(parts.scope_json.clone());
    v.push(parts.metric_name.clone());
    v.push(parts.instrument_kind.clone());
    v.push(parts.unit.clone());
    v.push(temporality);
    v.push(monotonic);
    v.push(start);
    v.push(time);
    v.push(parts.attributes_json.clone());
    v.push(parts.value_json.clone());
    v.push(ids);
    assert(string_views(v@) =~= key_components(*parts));
    v
}

/// The stable key of a metric point.
pub fn point_key(parts: &PointKeyParts) -> (r: String)
    ensures
        r@ == point_key_spec(*parts),
{
    let components = key_component_texts(parts);
    let message = framed_message(&components);
    let digest = sha256_digest(message.as_slice());
    hex_string(digest.as_slice())
}


proof fn lemma_be8_injective(n: u64, m: u64)
    requires
        be8(n as nat) == be8(m as nat),
    ensures
        n == m,
{
    assert(be8(n as nat)[0] == be8(m as nat)[0]);
    assert(be8(n as nat)[1] == be8(m as nat)[1]);
    assert(be8(n as nat)[2] == be8(m as nat)[2]);
    assert(be8(n as nat)[3] == be8(m as nat)[3]);
    assert(be8(n as nat)[4] == be8(m as nat)[4]);
    assert(be8(n as nat)[5] == be8(m as nat)[5]);
    assert(be8(n as nat)[6] == be8(m as nat)[6]);
    assert(be8(n as nat)[7] == be8(m as nat)[7]);
    assert(n == m) by (bit_vector)
        requires
            n / 0x100000000000000u64 % 256u64 == m / 0x100000000000000u64 % 256u64,
            n / 0x1000000000000u64 % 256u64 == m / 0x1000000000000u64 % 256u64,
            n / 0x10000000000u64 % 256u64 == m / 0x10000000000u64 % 256u64,
            n / 0x100000000u64 % 256u64 == m / 0x100000000u64 % 256u64,
            n / 0x1000000u64 % 256u64 == m / 0x1000000u64 % 256u64,
            n / 0x10000u64 % 256u64 == m / 0x10000u64 % 256u64,
            n / 0x100u64 % 256u64 == m / 0x100u64 % 256u64,
            n % 256u64 == m % 256u64,
    ;
}


proof fn lemma_framed_front(cs: Seq<Seq<char>>)
    requires
        cs.len() > 0,
    ensures
        framed(cs) == be8(encode_utf8(cs[0]).len()) + encode_utf8(cs[0]) + framed(cs.drop_first()),
    decreases cs.len(),
{
    if cs.len() == 1 {
        assert(cs.drop_last() =~= Seq::<Seq<char>>::empty());
        assert(cs.drop_first() =~= Seq::<Seq<char>>::empty());
        assert(framed(cs) =~= be8(encode_utf8(cs[0]).len()) + encode_utf8(cs[0]) + framed(cs.drop_first()));
    } else {
        lemma_framed_front(cs.drop_last());
        assert(cs.drop_last()[0] == cs[0]);
        assert(cs.drop_last().drop_first() =~= cs.drop_first().drop_last());
        assert(cs.drop_first().last() == cs.last());
        let c0 = encode_utf8(cs[0]);
        let cl = encode_utf8(cs.last());
        assert(framed(cs) =~= be8(c0.len()) + c0 + framed(cs.drop_first()));
    }
}

proof fn lemma_frame_parts(cs: Seq<Seq<char>>)
    requires
        cs.len() > 0,
    ensures
        framed(cs).len() >= 8 + encode_utf8(cs[0]).len(),
        framed(cs).take(8) == be8(encode_utf8(cs[0]).len()),
        framed(cs).subrange(8, 8 + encode_utf8(cs[0]).len() as int) == encode_utf8(cs[0]),
        framed(cs).skip(8 + encode_utf8(cs[0]).len() as int) == framed(cs.drop_first()),
{
    lemma_framed_front(cs);
    let c = encode_utf8(cs[0]);
    let f = framed(cs);
    assert(f.take(8) =~= be8(c.len()));
    assert(f.subrange(8, 8 + c.len() as int) =~= c);
    assert(f.skip(8 + c.len() as int) =~= framed(cs.drop_first()));
}

/// Every component fits the eight-byte length prefix.
pub open spec fn lengths_fit(cs: Seq<Seq<char>>) -> bool {
    forall|i: int| 0 <= i < cs.len() ==> encode_utf8(#[trigger] cs[i]).len() <= u64::MAX
}

proof fn lemma_lengths_fit_tail(cs: Seq<Seq<char>>)
    requires
        cs.len() > 0,
        lengths_fit(cs),
    ensures
        lengths_fit(cs.drop_first()),
        encode_utf8(cs[0]).len() <= u64::MAX,
{
    assert forall|i: int| 0 <= i < cs.drop_first().len() implies encode_utf8(#[trigger] cs.drop_first()[i]).len() <= u64::MAX by {
        assert(cs.drop_first()[i] == cs[i + 1]);
    }
}

/// The framing is unambiguous: two component lists that frame to the same bytes are
/// the same list, so point keys can differ only where their components differ.
pub proof fn lemma_framed_injective(a: Seq<Seq<char>>, b: Seq<Seq<char>>)
    requires
        lengths_fit(a),
        lengths_fit(b),
        framed(a) == framed(b),
    ensures
        a == b,
    decreases a.len(),
{
    broadcast use vstd::utf8::encode_utf8_decode_utf8;
    if a.len() == 0 {
        if b.len() > 0 {
            lemma_frame_parts(b);
        }
        assert(a =~= b);
    } else {
        lemma_frame_parts(a);
        if b.len() == 0 {
            assert(false);
        }
        lemma_frame_parts(b);
        lemma_lengths_fit_tail(a);
        lemma_lengths_fit_tail(b);
        let la = encode_utf8(a[0]).len();
        let lb = encode_utf8(b[0]).len();
        lemma_be8_injective(la as u64, lb as u64);
        assert(encode_utf8(a[0]) == encode_utf8(b[0]));
        assert(a[0] == decode_utf8(encode_utf8(a[0])));
        assert(b[0] == decode_utf8(encode_utf8(b[0])));
        lemma_framed_injective(a.drop_first(), b.drop_first());
        assert(a =~= seq![a[0]] + a.drop_first());
        assert(b =~= seq![b[0]] + b.drop_first());
    }
}

} // verus!
