//! Wire-size estimates for OTLP metric requests: how many points of a metric fit
//! the normalization budget, and whether a request carries protobuf.

use vstd::prelude::*;
use vstd::string::{StrSliceExecFns, StringSliceAdditionalSpecFns};

use crate::strings::{ascii_lower, chars_vec, lower_char, trim_chars, trim_str};

verus! {

/// Bytes of the protobuf varint encoding of `v`: one per started group of 7 bits.
pub open spec fn varint_len(v: nat) -> nat
    decreases v,
{
    if v < 128 {
        1
    } else {
        1 + varint_len(v / 128)
    }
}

/// The largest 64-bit value whose varint still has `n` or more bytes to go after
/// `n - 1` groups were consumed: `u64::MAX >> 7 * (n - 1)`.
spec fn remaining_bound(n: int) -> int {
    if n <= 1 {
        18446744073709551615
    } else if n == 2 {
        144115188075855871
    } else if n == 3 {
        1125899906842623
    } else if n == 4 {
        8796093022207
    } else if n == 5 {
        68719476735
    } else if n == 6 {
        536870911
    } else if n == 7 {
        4194303
    } else if n == 8 {
        32767
    } else if n == 9 {
        255
    } else {
        1
    }
}

/// The varint length of `value`.
pub fn encoded_varint_len(value: usize) -> (r: usize)
    ensures
        r as nat == varint_len(value as nat),
        1 <= r <= 10,
{
    let mut v = value;
    let mut len: usize = 1;
    while v >= 128
        invariant
            len as nat + varint_len(v as nat) == varint_len(value as nat) + 1,
            1 <= len <= 10,
            v <= remaining_bound(len as int),
        decreases v,
    {
        v = v / 128;
        len += 1;
    }
    len
}

/// Bytes of a length-delimited protobuf field with a one-byte key and a payload
/// of `payload_len` bytes, saturating at `usize::MAX`.
pub open spec fn length_delimited_spec(payload_len: usize) -> usize {
    let total = 1 + varint_len(payload_len as nat) + payload_len;
    if total > usize::MAX {
        usize::MAX
    } else {
        total as usize
    }
}

pub fn length_delimited_field_len(payload_len: usize) -> (r: usize)
    ensures
        r == length_delimited_spec(payload_len),
{
    1usize.saturating_add(encoded_varint_len(payload_len)).saturating_add(payload_len)
}


/// `a + b`, saturating at `usize::MAX`.
pub open spec fn sat_add(a: int, b: int) -> int {
    if a + b > usize::MAX {
        usize::MAX as int
    } else {
        a + b
    }
}

/// `a * b`, saturating at `usize::MAX`.
pub open spec fn sat_mul(a: int, b: int) -> int {
    if a * b > usize::MAX {
        usize::MAX as int
    } else {
        a * b
    }
}

/// The normalized size a point may reach: its wire bytes and the shared ones, each
/// of which JSON escaping may turn into six, plus 1024 bytes of fixed fields.
pub open spec fn point_estimate(shared: int, point_len: int) -> int {
    sat_add(sat_mul(sat_add(shared, point_len), 6), 1024)
}

fn times_six_saturating(v: usize) -> (r: usize)
    ensures
        r as int == sat_mul(v as int, 6),
{
    if v > usize::MAX / 6 {
        assert(v * 6 > usize::MAX) by (nonlinear_arith)
            requires
                v > usize::MAX / 6,
        ;
        usize::MAX
    } else {
        assert(v * 6 <= usize::MAX) by (nonlinear_arith)
            requires
                v <= usize::MAX / 6,
        ;
        v * 6
    }
}

/// How many points, from the first, are admitted: at most `count`, and only while the
/// running estimate, starting from `used`, stays within `budget`.
pub open spec fn admitted_spec(lens: Seq<usize>, shared: int, budget: int, count: int, used: int) -> int
    decreases lens.len(),
{
    if count <= 0 || lens.len() == 0 {
        0
    } else {
        let next = sat_add(used, point_estimate(shared, lens[0] as int));
        if next > budget {
            0
        } else {
            1 + admitted_spec(lens.drop_first(), shared, budget, count - 1, next)
        }
    }
}

/// The estimate of the first `n` points, starting from `used`.
pub open spec fn estimate_of(lens: Seq<usize>, shared: int, n: int, used: int) -> int
    decreases n,
{
    if n <= 0 || lens.len() == 0 {
        used
    } else {
        estimate_of(lens.drop_first(), shared, n - 1, sat_add(used, point_estimate(shared, lens[0] as int)))
    }
}

/// The points admitted within a budget have an estimated size within it, and there
/// are no more of them than the count allows.
pub proof fn lemma_admitted_fit_budget(lens: Seq<usize>, shared: int, budget: int, count: int, used: int)
    requires
        0 <= used <= budget,
        0 <= shared,
    ensures
        0 <= admitted_spec(lens, shared, budget, count, used) <= lens.len(),
        count >= 0 ==> admitted_spec(lens, shared, budget, count, used) <= count,
        estimate_of(lens, shared, admitted_spec(lens, shared, budget, count, used), used) <= budget,
    decreases lens.len(),
{
    if count > 0 && lens.len() > 0 {
        let next = sat_add(used, point_estimate(shared, lens[0] as int));
        if next <= budget {
            lemma_admitted_fit_budget(lens.drop_first(), shared, budget, count - 1, next);
        }
    }
}

/// The number of points, given their encoded lengths, that fit `byte_budget` and
/// `count_budget` when each also carries `shared_wire_bytes`.
pub fn admitted_points(point_lens: &[usize], shared_wire_bytes: usize, byte_budget: usize, count_budget: usize) -> (r: usize)
    ensures
        r as int == admitted_spec(point_lens@, shared_wire_bytes as int, byte_budget as int, count_budget as int, 0),
        r <= count_budget,
        r <= point_lens@.len(),
{
    let mut admitted: usize = 0;
    let mut estimated: usize = 0;
    assert(point_lens@.skip(0) =~= point_lens@);
    while admitted < point_lens.len() && admitted < count_budget
        invariant
            admitted <= point_lens.len(),
            admitted <= count_budget,
            estimated <= byte_budget,
            admitted_spec(point_lens@, shared_wire_bytes as int, byte_budget as int, count_budget as int, 0)
                == admitted + admitted_spec(point_lens@.skip(admitted as int), shared_wire_bytes as int,
                    byte_budget as int, count_budget - admitted, estimated as int),
        decreases point_lens.len() - admitted,
    {
        let ghost rest = point_lens@.skip(admitted as int);
        assert(rest[0] == point_lens@[admitted as int]);
        assert(rest.drop_first() =~= point_lens@.skip(admitted + 1));
        let point_bytes = times_six_saturating(shared_wire_bytes.saturating_add(point_lens[admitted])).saturating_add(1024);
        let next = estimated.saturating_add(point_bytes);
        if next > byte_budget {
            return admitted;
        }
        estimated = next;
        admitted += 1;
    }
    admitted
}

/// A metric envelope's encoded length: the metric without points or metadata, plus
/// each metadata entry as a length-delimited field, saturating.
pub open spec fn envelope_spec(bounded_len: int, metadata_lens: Seq<usize>) -> int
    decreases metadata_lens.len(),
{
    if metadata_lens.len() == 0 {
        bounded_len
    } else {
        sat_add(envelope_spec(bounded_len, metadata_lens.drop_last()), length_delimited_spec(metadata_lens.last()) as int)
    }
}

/// The encoded length of a metric's envelope from the length of the metric without
/// points or metadata and the lengths of its metadata entries.
pub fn metric_envelope_encoded_len(bounded_len: usize, metadata_lens: &[usize]) -> (r: usize)
    ensures
        r as int == envelope_spec(bounded_len as int, metadata_lens@),
{
    let mut total = bounded_len;
    let mut i: usize = 0;
    assert(metadata_lens@.take(0) =~= Seq::<usize>::empty());
    while i < metadata_lens.len()
        invariant
            i <= metadata_lens.len(),
            total as int == envelope_spec(bounded_len as int, metadata_lens@.take(i as int)),
        decreases metadata_lens.len() - i,
    {
        assert(metadata_lens@.take(i + 1).drop_last() =~= metadata_lens@.take(i as int));
        total = total.saturating_add(length_delimited_field_len(metadata_lens[i]));
        i += 1;
    }
    assert(metadata_lens@.take(i as int) =~= metadata_lens@);
    total
}

/// The most bytes the points of one request may take once normalized.
pub const MAX_NORMALIZED_METRIC_BYTES: usize = 16777216;

/// The bytes shared by every point of a metric: resource, scope, their schema URLs
/// and the metric envelope, saturating.
pub open spec fn shared_spec(resource_len: int, resource_url_len: int, scope_len: int, scope_url_len: int, envelope_len: int) -> int {
    sat_add(sat_add(sat_add(sat_add(resource_len, resource_url_len), scope_len), scope_url_len), envelope_len)
}

/// How many points of a metric can still be normalized after `normalized_bytes`:
/// `point_lens` are the encoded lengths of its points (absent for a metric without
/// data), the other lengths those of the values copied into every point (0 for an
/// absent resource or scope).
pub fn metric_normalization_budget(
    resource_len: usize,
    resource_schema_url: &str,
    scope_len: usize,
    scope_schema_url: &str,
    envelope_len: usize,
    point_lens: Option<&[usize]>,
    normalized_bytes: usize,
    count_budget: usize,
) -> (r: usize)
    ensures
        match point_lens {
            None => r == 0,
            Some(lens) => r as int == admitted_spec(
                lens@,
                shared_spec(resource_len as int, resource_schema_url.len() as int, scope_len as int,
                    scope_schema_url.len() as int, envelope_len as int),
                if normalized_bytes >= MAX_NORMALIZED_METRIC_BYTES { 0 } else { MAX_NORMALIZED_METRIC_BYTES - normalized_bytes },
                count_budget as int,
                0,
            ),
        },
{
    let remaining = MAX_NORMALIZED_METRIC_BYTES.saturating_sub(normalized_bytes);
    let shared = resource_len.saturating_add(resource_schema_url.len()).saturating_add(scope_len).saturating_add(
        scope_schema_url.len(),
    ).saturating_add(envelope_len);
    match point_lens {
        Some(lens) => admitted_points(lens, shared, remaining, count_budget),
        None => 0,
    }
}

/// Equal up to ASCII case (`str::eq_ignore_ascii_case`).
pub open spec fn eq_ignore_ascii_case(a: Seq<char>, b: Seq<char>) -> bool {
    a.len() == b.len() && forall|i: int| 0 <= i < a.len() ==> ascii_lower(#[trigger] a[i]) == ascii_lower(b[i])
}

/// The characters before the first `;`, or all of them.
pub open spec fn before_semicolon(s: Seq<char>) -> Seq<char> {
    if exists|i: int| 0 <= i < s.len() && s[i] == ';' {
        s.take(choose|i: int| 0 <= i < s.len() && s[i] == ';' && forall|j: int| 0 <= j < i ==> s[j] != ';')
    } else {
        s
    }
}

/// The media type of a `Content-Type` value, before any parameters, is
/// `application/x-protobuf` in any ASCII case; an absent or non-text header is not.
pub fn is_protobuf_content_type(content_type: Option<&str>) -> (r: bool)
    ensures
        match content_type {
            None => !r,
            Some(v) => r == eq_ignore_ascii_case(trim_chars(before_semicolon(v@)), "application/x-protobuf"@),
        },
{
    let value = match content_type {
        Some(v) => v,
        None => {
            return false;
        },
    };
    let cs = chars_vec(value);
    let mut end: usize = 0;
    while end < cs.len() && cs[end] != ';'
        invariant
            end <= cs.len(),
            cs@ == value@,
            forall|j: int| 0 <= j < end ==> cs@[j] != ';',
        decreases cs.len() - end,
    {
        end += 1;
    }
    proof {
        if end < cs.len() {
            let i = end as int;
            assert(value@[i] == ';');
            let k = choose|k: int| 0 <= k < value@.len() && value@[k] == ';' && forall|j: int| 0 <= j < k ==> value@[j] != ';';
            assert(k == i) by {
                if k < i {
                    assert(value@[k] != ';');
                } else if k > i {
                    assert(value@[i] != ';');
                }
            }
            assert(before_semicolon(value@) == value@.take(i));
        } else {
            assert(value@.take(end as int) =~= value@);
            if exists|i: int| 0 <= i < value@.len() && value@[i] == ';' {
                let i = choose|i: int| 0 <= i < value@.len() && value@[i] == ';';
                assert(cs@[i] != ';');
            }
        }
    }
    let first = value.substring_char(0, end);
    let media = chars_vec(trim_str(first));
    assert(media@ == trim_chars(before_semicolon(value@)));
    proof {
        reveal_strlit("application/x-protobuf");
    }
    let expected = chars_vec("application/x-protobuf");
    if media.len() != expected.len() {
        return false;
    }
    let mut i: usize = 0;
    while i < media.len()
        invariant
            i <= media.len(),
            media.len() == expected.len(),
            media@ == trim_chars(before_semicolon(value@)),
            expected@ == "application/x-protobuf"@,
            content_type == Some(value),
            forall|j: int| 0 <= j < i ==> ascii_lower(#[trigger] media@[j]) == ascii_lower(expected@[j]),
        decreases media.len() - i,
    {
        if lower_char(media[i]) != lower_char(expected[i]) {
            return false;
        }
        i += 1;
    }
    true
}

} // verus!
