//! Remote configuration collection over SSH: the framed record protocol.
//!
//! The remote batch prints each file as `\x1e<kind>\t<path>\n<body>\x1f\n`.

use vstd::prelude::*;
use vstd::string::{StringExecFns, StringSliceAdditionalSpecFns};
use vstd::utf8::{decode_utf8, valid_utf8};

use crate::bytes::{copy_range, eq_bytes, find_byte, split_bytes, split_on, string_from_utf8, views};
use crate::git_observer::porcelain::{first_index_of, lemma_first_index_of};
use crate::message::{decimal_chars, push_decimal};

verus! {

#[derive(Debug, Clone, Copy, PartialEq, Eq, Structural)]
pub enum RemoteConfigKind {
    Compose,
    Proxy,
    AdGuard,
}

pub open spec fn kind_name(k: RemoteConfigKind) -> Seq<u8> {
    match k {
        RemoteConfigKind::Compose => seq![99u8, 111u8, 109u8, 112u8, 111u8, 115u8, 101u8],
        RemoteConfigKind::Proxy => seq![112u8, 114u8, 111u8, 120u8, 121u8],
        RemoteConfigKind::AdGuard => seq![97u8, 100u8, 103u8, 117u8, 97u8, 114u8, 100u8],
    }
}

/// The kind spelled by `name` (`compose`, `proxy` or `adguard`).
pub open spec fn kind_spec(name: Seq<u8>) -> Option<RemoteConfigKind> {
    if name == kind_name(RemoteConfigKind::Compose) {
        Some(RemoteConfigKind::Compose)
    } else if name == kind_name(RemoteConfigKind::Proxy) {
        Some(RemoteConfigKind::Proxy)
    } else if name == kind_name(RemoteConfigKind::AdGuard) {
        Some(RemoteConfigKind::AdGuard)
    } else {
        None
    }
}

fn kind_from_bytes(name: &[u8]) -> (r: Option<RemoteConfigKind>)
    ensures
        r == kind_spec(name@),
{
    let compose: [u8; 7] = [99u8, 111u8, 109u8, 112u8, 111u8, 115u8, 101u8];
    let proxy: [u8; 5] = [112u8, 114u8, 111u8, 120u8, 121u8];
    let adguard: [u8; 7] = [97u8, 100u8, 103u8, 117u8, 97u8, 114u8, 100u8];
    assert(compose@ == kind_name(RemoteConfigKind::Compose));
    assert(proxy@ == kind_name(RemoteConfigKind::Proxy));
    assert(adguard@ == kind_name(RemoteConfigKind::AdGuard));
    if eq_bytes(name, &compose) {
        Some(RemoteConfigKind::Compose)
    } else if eq_bytes(name, &proxy) {
        Some(RemoteConfigKind::Proxy)
    } else if eq_bytes(name, &adguard) {
        Some(RemoteConfigKind::AdGuard)
    } else {
        None
    }
}

impl RemoteConfigKind {
    /// The kind named `value`, if any.
    pub fn parse(value: &str) -> (r: Option<Self>)
        ensures
            r == kind_spec(value.spec_bytes()),
    {
        kind_from_bytes(value.as_bytes())
    }
}

/// One complete framed file: its kind, remote path and body.
#[derive(Debug, Clone, PartialEq, Eq)]
pub struct RemoteConfigRecord {
    pub kind: RemoteConfigKind,
    pub path: String,
    pub body: String,
}

/// `s` without its trailing newlines.
pub open spec fn trim_newlines(s: Seq<u8>) -> Seq<u8>
    decreases s.len(),
{
    if s.len() > 0 && s.last() == 10u8 {
        trim_newlines(s.drop_last())
    } else {
        s
    }
}

/// The body of a frame: what precedes its closing `\x1f\n`, or its closing `\x1f`.
pub open spec fn strip_frame_end(s: Seq<u8>) -> Option<Seq<u8>> {
    if s.len() >= 2 && s[s.len() - 2] == 31u8 && s[s.len() - 1] == 10u8 {
        Some(s.take(s.len() - 2))
    } else if s.len() >= 1 && s[s.len() - 1] == 31u8 {
        Some(s.take(s.len() - 1))
    } else {
        None
    }
}

/// The record one frame holds (the bytes after a `\x1e`), when it is complete and
/// its kind is known: `<kind>\t<path>\n<body>\x1f[\n]`.
pub open spec fn frame_spec(f: Seq<u8>) -> Option<(RemoteConfigKind, Seq<u8>, Seq<u8>)> {
    match first_index_of(f, 10u8) {
        None => None,
        Some(nl) => {
            let header = f.take(nl);
            let framed = f.skip(nl + 1);
            match first_index_of(header, 9u8) {
                None => None,
                Some(tab) => match strip_frame_end(framed) {
                    None => None,
                    Some(body) => match kind_spec(header.take(tab)) {
                        None => None,
                        Some(kind) => Some((kind, header.skip(tab + 1), trim_newlines(body))),
                    },
                },
            }
        },
    }
}

/// The records of `frames`, in order, skipping incomplete or unknown ones.
pub open spec fn frames_records(frames: Seq<Seq<u8>>) -> Seq<(RemoteConfigKind, Seq<u8>, Seq<u8>)>
    decreases frames.len(),
{
    if frames.len() == 0 {
        Seq::empty()
    } else {
        let prev = frames_records(frames.drop_last());
        match frame_spec(frames.last()) {
            Some(r) => prev.push(r),
            None => prev,
        }
    }
}

/// The records of the batch output `b`: every frame after the first `\x1e`.
pub open spec fn records_spec(b: Seq<u8>) -> Seq<(RemoteConfigKind, Seq<u8>, Seq<u8>)> {
    frames_records(split_bytes(b, 30u8).skip(1))
}

/// Piece `k` of a split lies between separators (or the ends) of `s`: its bounds.
pub(crate) proof fn lemma_split_piece(s: Seq<u8>, sep: u8, k: int) -> (pos: (int, int))
    requires
        0 <= k < split_bytes(s, sep).len(),
    ensures
        0 <= pos.0 <= pos.1 <= s.len(),
        split_bytes(s, sep)[k] == s.subrange(pos.0, pos.1),
        pos.0 == 0 || s[pos.0 - 1] == sep,
        k > 0 ==> pos.0 > 0,
        pos.1 == s.len() || s[pos.1] == sep,
        k == split_bytes(s, sep).len() - 1 ==> pos.1 == s.len(),
        k < split_bytes(s, sep).len() - 1 ==> pos.1 < s.len(),
    decreases s.len(),
{
    if s.len() == 0 {
        assert(split_bytes(s, sep)[k] =~= s.subrange(0, 0));
        (0, 0)
    } else {
        let t = s.drop_last();
        lemma_split_bytes_nonempty_local(t, sep);
        let prev = split_bytes(t, sep);
        let ps = split_bytes(s, sep);
        if s.last() == sep {
            if k < prev.len() {
                let (lo, hi) = lemma_split_piece(t, sep, k);
                assert(ps[k] == prev[k]);
                assert(t.subrange(lo, hi) =~= s.subrange(lo, hi));
                if lo > 0 {
                    assert(s[lo - 1] == t[lo - 1]);
                }
                if hi < t.len() {
                    assert(s[hi] == t[hi]);
                } else {
                    assert(s[hi] == s.last());
                }
                (lo, hi)
            } else {
                assert(ps[k] =~= s.subrange(s.len() as int, s.len() as int));
                (s.len() as int, s.len() as int)
            }
        } else {
            let (lo, hi) = lemma_split_piece(t, sep, k);
            if lo > 0 {
                assert(s[lo - 1] == t[lo - 1]);
            }
            if k < prev.len() - 1 {
                assert(ps[k] == prev[k]);
                assert(t.subrange(lo, hi) =~= s.subrange(lo, hi));
                if hi < t.len() {
                    assert(s[hi] == t[hi]);
                }
                (lo, hi)
            } else {
                assert(ps[k] == prev[k].push(s.last()));
                assert(ps[k] =~= s.subrange(lo, s.len() as int));
                (lo, s.len() as int)
            }
        }
    }
}

proof fn lemma_split_bytes_nonempty_local(s: Seq<u8>, sep: u8)
    ensures
        split_bytes(s, sep).len() >= 1,
{
    crate::bytes::lemma_split_bytes_nonempty(s, sep);
}

/// A slice of valid UTF-8 that starts and ends next to ASCII bytes (or at the ends)
/// is valid UTF-8.
pub(crate) proof fn lemma_ascii_slice_valid(b: Seq<u8>, lo: int, hi: int)
    requires
        valid_utf8(b),
        0 <= lo <= hi <= b.len(),
        lo == 0 || b[lo - 1] < 128,
        hi == b.len() || b[hi] < 128,
    ensures
        valid_utf8(b.subrange(lo, hi)),
{
    let p = b.subrange(0, hi);
    if hi == b.len() {
        assert(p =~= b);
    } else {
        vstd::utf8::is_char_boundary_iff_not_is_continuation_byte(b, hi);
        vstd::utf8::valid_utf8_split(b, hi);
    }
    assert(valid_utf8(p));
    if lo == 0 {
        assert(b.subrange(lo, hi) =~= p);
    } else {
        vstd::utf8::is_char_boundary_iff_not_is_continuation_byte(p, lo - 1);
        vstd::utf8::valid_utf8_split(p, lo - 1);
        let q = p.subrange(lo - 1, p.len() as int);
        assert(valid_utf8(q));
        assert(q[0] < 128);
        assert(vstd::utf8::pop_first_scalar(q) =~= b.subrange(lo, hi));
    }
}

proof fn lemma_trim_newlines_prefix(s: Seq<u8>)
    ensures
        trim_newlines(s).len() <= s.len(),
        trim_newlines(s) == s.take(trim_newlines(s).len() as int),
        trim_newlines(s).len() < s.len() ==> s[trim_newlines(s).len() as int] == 10u8,
    decreases s.len(),
{
    if s.len() > 0 && s.last() == 10u8 {
        lemma_trim_newlines_prefix(s.drop_last());
        let t = trim_newlines(s.drop_last());
        assert(s.drop_last().take(t.len() as int) =~= s.take(t.len() as int));
        if t.len() < s.drop_last().len() {
            assert(s[t.len() as int] == s.drop_last()[t.len() as int]);
        }
    } else {
        assert(s.take(s.len() as int) =~= s);
    }
}

/// The path and body of a complete frame of valid UTF-8 output are valid UTF-8.
proof fn lemma_frame_valid(b: Seq<u8>, lo: int, hi: int)
    requires
        valid_utf8(b),
        1 <= lo <= hi <= b.len(),
        b[lo - 1] < 128,
        hi == b.len() || b[hi] < 128,
    ensures
        frame_spec(b.subrange(lo, hi)) matches Some((k, p, body)) ==> valid_utf8(p) && valid_utf8(body),
{
    let f = b.subrange(lo, hi);
    if let Some((k, p, body)) = frame_spec(f) {
        let nl = first_index_of(f, 10u8)->Some_0;
        let nl_c = choose|q: int| 0 <= q < f.len() && f[q] == 10u8 && forall|j: int| 0 <= j < q ==> f[j] != 10u8;
        assert(nl == nl_c);
        let header = f.take(nl);
        let framed = f.skip(nl + 1);
        let tab = first_index_of(header, 9u8)->Some_0;
        let tab_c = choose|q: int| 0 <= q < header.len() && header[q] == 9u8 && forall|j: int| 0 <= j < q ==> header[j] != 9u8;
        assert(tab == tab_c);
        assert(b[lo + tab] == f[tab]);
        assert(b[lo + nl] == f[nl]);
        lemma_ascii_slice_valid(b, lo + tab + 1, lo + nl);
        assert(p =~= b.subrange(lo + tab + 1, lo + nl));
        let raw = strip_frame_end(framed)->Some_0;
        let cut = raw.len() as int;
        assert(raw =~= b.subrange(lo + nl + 1, lo + nl + 1 + cut));
        assert(b[lo + nl + 1 + cut] == framed[cut]);
        lemma_trim_newlines_prefix(raw);
        let t = trim_newlines(raw).len() as int;
        if t < cut {
            assert(b[lo + nl + 1 + t] == raw[t]);
        }
        lemma_ascii_slice_valid(b, lo + nl + 1, lo + nl + 1 + t);
        assert(body =~= b.subrange(lo + nl + 1, lo + nl + 1 + t));
    }
}


fn parse_frame(frame: &[u8]) -> (r: Option<(RemoteConfigKind, Vec<u8>, Vec<u8>)>)
    ensures
        match r {
            Some((k, p, b)) => frame_spec(frame@) == Some((k, p@, b@)),
            None => frame_spec(frame@) is None,
        },
{
    let nl = match find_byte(frame, 10u8, 0) {
        None => {
            assert(first_index_of(frame@, 10u8) is None);
            return None;
        },
        Some(i) => i,
    };
    proof {
        lemma_first_index_of(frame@, 10u8, nl as int);
    }
    let ghost header = frame@.take(nl as int);
    let ghost framed = frame@.skip(nl + 1);
    let tab = match find_byte(frame, 9u8, 0) {
        Some(i) => {
            if i >= nl {
                assert(first_index_of(header, 9u8) is None) by {
                    assert forall|q: int| 0 <= q < header.len() implies header[q] != 9u8 by {
                        assert(header[q] == frame@[q]);
                    }
                }
                return None;
            }
            i
        },
        None => {
            assert(first_index_of(header, 9u8) is None) by {
                assert forall|q: int| 0 <= q < header.len() implies header[q] != 9u8 by {
                    assert(header[q] == frame@[q]);
                }
            }
            return None;
        },
    };
    proof {
        assert forall|j: int| 0 <= j < tab implies header[j] != 9u8 by {
            assert(header[j] == frame@[j]);
        }
        lemma_first_index_of(header, 9u8, tab as int);
    }
    let len = frame.len();
    let body_end: usize = if len - (nl + 1) >= 2 && frame[len - 2] == 31u8 && frame[len - 1] == 10u8 {
        len - 2
    } else if len - (nl + 1) >= 1 && frame[len - 1] == 31u8 {
        len - 1
    } else {
        return None;
    };
    let ghost raw = frame@.subrange(nl + 1, body_end as int);
    assert(strip_frame_end(framed) == Some(raw)) by {
        assert(framed.take(body_end - (nl + 1)) =~= raw);
    }
    let name = copy_range(frame, 0, tab);
    assert(name@ =~= header.take(tab as int));
    let kind = match kind_from_bytes(name.as_slice()) {
        None => {
            return None;
        },
        Some(k) => k,
    };
    let mut end = body_end;
    assert(frame@.subrange(nl + 1, end as int) == raw);
    while end > nl + 1 && frame[end - 1] == 10u8
        invariant
            nl + 1 <= end <= body_end <= len,
            len == frame.len(),
            trim_newlines(frame@.subrange(nl + 1, end as int)) == trim_newlines(raw),
        decreases end,
    {
        assert(frame@.subrange(nl + 1, end as int).drop_last() =~= frame@.subrange(nl + 1, end - 1));
        end -= 1;
    }
    assert(trim_newlines(frame@.subrange(nl + 1, end as int)) == frame@.subrange(nl + 1, end as int));
    let path = copy_range(frame, tab + 1, nl);
    let body = copy_range(frame, nl + 1, end);
    assert(path@ =~= header.skip(tab + 1));
    Some((kind, path, body))
}

/// The record matches its spec: same kind, and the text its bytes encode.
pub open spec fn record_matches(r: RemoteConfigRecord, spec: (RemoteConfigKind, Seq<u8>, Seq<u8>)) -> bool {
    r.kind == spec.0 && r.path@ == decode_utf8(spec.1) && r.body@ == decode_utf8(spec.2)
}

/// The complete records of a batch's output, in order; a trailing frame that was cut
/// off, or one of an unknown kind, is dropped.
pub fn parse_records(stdout: &str) -> (r: Vec<RemoteConfigRecord>)
    ensures
        r@.len() == records_spec(stdout.spec_bytes()).len(),
        forall|i: int| 0 <= i < r@.len() ==> record_matches(#[trigger] r@[i], records_spec(stdout.spec_bytes())[i]),
{
    broadcast use vstd::utf8::encode_utf8_valid_utf8;
    let bytes = stdout.as_bytes();
    let ghost b = bytes@;
    assert(valid_utf8(b));
    let frames = split_on(bytes, 30u8);
    let ghost fs = views(frames@);
    proof {
        crate::bytes::lemma_split_bytes_nonempty(b, 30u8);
    }
    let mut out: Vec<RemoteConfigRecord> = Vec::new();
    let mut k: usize = 1;
    assert(fs.skip(1).take(0) =~= Seq::<Seq<u8>>::empty());
    while k < frames.len()
        invariant
            fs == views(frames@),
            fs == split_bytes(b, 30u8),
            valid_utf8(b),
            1 <= k <= frames.len(),
            out@.len() == frames_records(fs.skip(1).take(k - 1)).len(),
            forall|i: int| 0 <= i < out@.len() ==> record_matches(#[trigger] out@[i], frames_records(fs.skip(1).take(k - 1))[i]),
        decreases frames.len() - k,
    {
        let ghost prev = frames_records(fs.skip(1).take(k - 1));
        assert(fs.skip(1).take(k as int).drop_last() =~= fs.skip(1).take(k - 1));
        assert(fs.skip(1).take(k as int).last() == frames@[k as int]@);
        match parse_frame(frames[k].as_slice()) {
            Some((kind, p, body)) => {
                proof {
                    let (lo, hi) = lemma_split_piece(b, 30u8, k as int);
                    lemma_frame_valid(b, lo, hi);
                    assert(frames@[k as int]@ == b.subrange(lo, hi));
                }
                let path = match string_from_utf8(p) {
                    Some(s) => s,
                    None => {
                        assert(false);
                        String::new()
                    },
                };
                let body = match string_from_utf8(body) {
                    Some(s) => s,
                    None => {
                        assert(false);
                        String::new()
                    },
                };
                let record = RemoteConfigRecord { kind, path, body };
                out.push(record);
            },
            None => {},
        }
        k += 1;
    }
    assert(fs.skip(1).take(k - 1) =~= fs.skip(1));
    out
}


/// The time a collector plans to use out of `timeout` (nanoseconds): a margin of a
/// twentieth of the timeout in whole milliseconds, at least 1 ms and at most 250 ms,
/// is kept back; a zero timeout stays zero.
pub open spec fn budget_spec(timeout: u64) -> u64 {
    if timeout == 0 {
        0
    } else {
        let millis = timeout / 1_000_000;
        let margin = if millis / 20 < 1 { 1 } else if millis / 20 > 250 { 250 } else { millis / 20 };
        if timeout >= margin * 1_000_000 {
            (timeout - margin * 1_000_000) as u64
        } else {
            0
        }
    }
}

/// The collector's working budget within `timeout`, both in nanoseconds.
pub fn soft_collector_budget(timeout: u64) -> (r: u64)
    ensures
        r == budget_spec(timeout),
{
    if timeout == 0 {
        return timeout;
    }
    let millis = timeout / 1_000_000;
    let share = millis / 20;
    let margin_ms: u64 = if share < 1 {
        1
    } else if share > 250 {
        250
    } else {
        share
    };
    timeout.saturating_sub(margin_ms * 1_000_000)
}


/// The shell command that lists Compose files under the usual roots.
pub open spec fn compose_find_spec() -> Seq<char> {
    "for d in \"$HOME/compose\" \"$HOME/.cortex/compose\" \"$HOME/.axon/compose\" \"$HOME/workspace\" /mnt/compose /mnt/cache/compose /mnt/user/compose /mnt/appdata /mnt/cache/appdata /mnt/user/appdata /opt /srv; do [ -d \"$d\" ] && find \"$d\" -maxdepth 4 -type f \\( -name docker-compose.yml -o -name docker-compose.yaml -o -name compose.yml -o -name compose.yaml \\) -print 2>/dev/null; done | sort -u | head -200"@
}

/// The shell command that lists SWAG proxy configurations.
pub open spec fn proxy_find_spec() -> Seq<char> {
    "for d in /mnt/appdata/swag/nginx/proxy-confs /mnt/cache/appdata/swag/nginx/proxy-confs /mnt/user/appdata/swag/nginx/proxy-confs \"$HOME/swag/nginx/proxy-confs\" \"$HOME/compose/swag/nginx/proxy-confs\"; do [ -d \"$d\" ] && find \"$d\" -maxdepth 1 -type f -name '*.conf' -print 2>/dev/null; done | sort -u | head -300"@
}

/// The shell command that lists AdGuard Home configurations.
pub open spec fn adguard_find_spec() -> Seq<char> {
    "{ for d in /mnt/appdata/adguard/etc /mnt/cache/appdata/adguard/etc /mnt/user/appdata/adguard/etc \"$HOME/adguard\" \"$HOME/compose/adguard\"; do [ -d \"$d\" ] && find \"$d\" -maxdepth 2 -type f \\( -name config.yaml -o -name AdGuardHome.yaml \\) -print 2>/dev/null; done; for f in /opt/AdGuardHome/AdGuardHome.yaml /opt/adguardhome/conf/AdGuardHome.yaml /etc/AdGuardHome.yaml; do [ -f \"$f\" ] && printf '%s\\n' \"$f\"; done; } | sort -u | head -20"@
}

fn compose_find_command() -> (s: &'static str)
    ensures
        s@ == compose_find_spec(),
{
    "for d in \"$HOME/compose\" \"$HOME/.cortex/compose\" \"$HOME/.axon/compose\" \"$HOME/workspace\" /mnt/compose /mnt/cache/compose /mnt/user/compose /mnt/appdata /mnt/cache/appdata /mnt/user/appdata /opt /srv; do [ -d \"$d\" ] && find \"$d\" -maxdepth 4 -type f \\( -name docker-compose.yml -o -name docker-compose.yaml -o -name compose.yml -o -name compose.yaml \\) -print 2>/dev/null; done | sort -u | head -200"
}

fn proxy_find_command() -> (s: &'static str)
    ensures
        s@ == proxy_find_spec(),
{
    "for d in /mnt/appdata/swag/nginx/proxy-confs /mnt/cache/appdata/swag/nginx/proxy-confs /mnt/user/appdata/swag/nginx/proxy-confs \"$HOME/swag/nginx/proxy-confs\" \"$HOME/compose/swag/nginx/proxy-confs\"; do [ -d \"$d\" ] && find \"$d\" -maxdepth 1 -type f -name '*.conf' -print 2>/dev/null; done | sort -u | head -300"
}

fn adguard_find_command() -> (s: &'static str)
    ensures
        s@ == adguard_find_spec(),
{
    "{ for d in /mnt/appdata/adguard/etc /mnt/cache/appdata/adguard/etc /mnt/user/appdata/adguard/etc \"$HOME/adguard\" \"$HOME/compose/adguard\"; do [ -d \"$d\" ] && find \"$d\" -maxdepth 2 -type f \\( -name config.yaml -o -name AdGuardHome.yaml \\) -print 2>/dev/null; done; for f in /opt/AdGuardHome/AdGuardHome.yaml /opt/adguardhome/conf/AdGuardHome.yaml /etc/AdGuardHome.yaml; do [ -f \"$f\" ] && printf '%s\\n' \"$f\"; done; } | sort -u | head -20"
}

/// The loop that prints each listed file as one frame: `\036<kind>\t<path>\n`, at most
/// `head_bytes` bytes of the file, then `\037\n` (the octal escapes are `printf`'s).
pub open spec fn framed_spec(kind: Seq<char>, find_command: Seq<char>, head_bytes: nat) -> Seq<char> {
    find_command + " | while IFS= read -r f; do [ -f \"$f\" ] || continue; printf '\\036"@ + kind
        + "\\t%s\\n' \"$f\"; head -c "@ + decimal_chars(head_bytes) + " -- \"$f\"; printf '\\037\\n'; done"@
}

/// The framing loop for the files that `find_command` lists, reading one byte more
/// than `max_artifact_bytes` of each so that an oversized file shows.
pub fn framed_batch_command(kind: &str, find_command: &str, max_artifact_bytes: usize) -> (r: String)
    requires
        max_artifact_bytes < usize::MAX,
    ensures
        r@ == framed_spec(kind@, find_command@, (max_artifact_bytes + 1) as nat),
{
    let mut out = find_command.to_owned();
    out.append(" | while IFS= read -r f; do [ -f \"$f\" ] || continue; printf '\\036");
    out.append(kind);
    out.append("\\t%s\\n' \"$f\"; head -c ");
    push_decimal(&mut out, max_artifact_bytes + 1);
    out.append(" -- \"$f\"; printf '\\037\\n'; done");
    out
}

/// The whole remote batch: AdGuard, proxy and Compose frames, joined by `; `.
pub open spec fn config_batch_spec(max_artifact_bytes: nat) -> Seq<char> {
    framed_spec("adguard"@, adguard_find_spec(), max_artifact_bytes + 1) + "; "@
        + framed_spec("proxy"@, proxy_find_spec(), max_artifact_bytes + 1) + "; "@
        + framed_spec("compose"@, compose_find_spec(), max_artifact_bytes + 1)
}

/// The one remote shell command that frames every configuration file of interest,
/// each cut after `max_artifact_bytes + 1` bytes.
pub fn config_batch_command(max_artifact_bytes: usize) -> (r: String)
    requires
        max_artifact_bytes < usize::MAX,
    ensures
        r@ == config_batch_spec(max_artifact_bytes as nat),
{
    let mut out = framed_batch_command("adguard", adguard_find_command(), max_artifact_bytes);
    out.append("; ");
    let proxy = framed_batch_command("proxy", proxy_find_command(), max_artifact_bytes);
    out.append(proxy.as_str());
    out.append("; ");
    let compose = framed_batch_command("compose", compose_find_command(), max_artifact_bytes);
    out.append(compose.as_str());
    out
}


/// A warning for the collector's report: its category and message.
#[derive(Debug, Clone, PartialEq, Eq)]
pub struct CollectorWarning {
    pub category: String,
    pub message: String,
}

/// A frame list holds at least as many frames as it gives records.
proof fn lemma_frames_records_len(frames: Seq<Seq<u8>>)
    ensures
        frames_records(frames).len() <= frames.len(),
    decreases frames.len(),
{
    if frames.len() > 0 {
        lemma_frames_records_len(frames.drop_last());
    }
}

/// The frames of the batch output `b` that were dropped as incomplete or
/// malformed: every frame after the first `\x1e` that gave no record.
pub open spec fn dropped_frames(b: Seq<u8>) -> nat {
    ((split_bytes(b, 30u8).len() - 1) - records_spec(b).len()) as nat
}

/// How many frames the batch output holds (pieces after the first `\x1e`).
fn frame_count(stdout: &str) -> (r: usize)
    ensures
        r == split_bytes(stdout.spec_bytes(), 30u8).len() - 1,
{
    let frames = split_on(stdout.as_bytes(), 30u8);
    proof {
        crate::bytes::lemma_split_bytes_nonempty(stdout.spec_bytes(), 30u8);
        assert(frames@.len() == views(frames@).len());
    }
    frames.len() - 1
}

/// The text of a warning: its category and message.
pub open spec fn warning_text(w: CollectorWarning) -> (Seq<char>, Seq<char>) {
    (w.category@, w.message@)
}

/// The texts of a list of warnings.
pub open spec fn warning_texts(ws: Seq<CollectorWarning>) -> Seq<(Seq<char>, Seq<char>)> {
    Seq::new(ws.len(), |i: int| warning_text(ws[i]))
}

/// The warnings of a batch run that exited 0: one when its output was cut at the
/// cap, then one when frames were dropped as incomplete or malformed.
pub open spec fn success_warnings(host: Seq<char>, truncated: bool, dropped: nat) -> Seq<(Seq<char>, Seq<char>)> {
    let t: Seq<(Seq<char>, Seq<char>)> = if truncated {
        seq![("remote_config_truncated"@,
            "ssh config collection output was truncated on "@ + host + "; complete records were preserved"@)]
    } else {
        seq![]
    };
    let d: Seq<(Seq<char>, Seq<char>)> = if dropped > 0 {
        seq![("remote_config_malformed"@,
            "ssh config collection on "@ + host + " dropped "@ + decimal_chars(dropped)
                + " incomplete or malformed record frame(s)"@)]
    } else {
        seq![]
    };
    t + d
}

/// The records a host's batch run gave, and the warnings about it: a run that exited
/// 0 gives its complete records, with a warning when its output was cut at the cap
/// and one naming how many frames were dropped as incomplete or malformed; any
/// other run gives no record and a warning with its standard error.
pub fn remote_records_outcome(host: &str, status: Option<i32>, truncated: bool, stdout: &str, stderr: &str) -> (r: (Vec<RemoteConfigRecord>, Vec<CollectorWarning>))
    ensures
        status == Some(0i32) ==> {
            &&& r.0@.len() == records_spec(stdout.spec_bytes()).len()
            &&& forall|i: int| 0 <= i < r.0@.len() ==> record_matches(#[trigger] r.0@[i], records_spec(stdout.spec_bytes())[i])
            &&& warning_texts(r.1@) == success_warnings(host@, truncated, dropped_frames(stdout.spec_bytes()))
        },
        status != Some(0i32) ==> {
            &&& r.0@.len() == 0
            &&& r.1@.len() == 1
            &&& r.1@[0].category@ == "remote_config"@
            &&& r.1@[0].message@ == "ssh config collection failed on "@ + host@ + ": "@ + stderr@
        },
{
    let ok = match status {
        Some(code) => code == 0,
        None => false,
    };
    let mut warnings: Vec<CollectorWarning> = Vec::new();
    if ok {
        if truncated {
            let mut message = "ssh config collection output was truncated on ".to_owned();
            message.append(host);
            message.append("; complete records were preserved");
            warnings.push(CollectorWarning { category: "remote_config_truncated".to_owned(), message });
        }
        let ghost t = warning_texts(warnings@);
        let records = parse_records(stdout);
        let frames = frame_count(stdout);
        proof {
            lemma_frames_records_len(split_bytes(stdout.spec_bytes(), 30u8).skip(1));
        }
        let dropped = frames - records.len();
        if dropped > 0 {
            let mut message = "ssh config collection on ".to_owned();
            message.append(host);
            message.append(" dropped ");
            push_decimal(&mut message, dropped);
            message.append(" incomplete or malformed record frame(s)");
            warnings.push(CollectorWarning { category: "remote_config_malformed".to_owned(), message });
        }
        assert(warning_texts(warnings@) =~= success_warnings(host@, truncated, dropped_frames(stdout.spec_bytes())));
        (records, warnings)
    } else {
        let mut message = "ssh config collection failed on ".to_owned();
        message.append(host);
        message.append(": ");
        message.append(stderr);
        warnings.push(CollectorWarning { category: "remote_config".to_owned(), message });
        (Vec::new(), warnings)
    }
}

/// The warning for a host whose batch could not be run at all.
pub fn remote_failure_warning(host: &str, error: &str) -> (r: CollectorWarning)
    ensures
        r.category@ == "remote_config"@,
        r.message@ == "ssh config collection failed on "@ + host@ + ": "@ + error@,
{
    let mut message = "ssh config collection failed on ".to_owned();
    message.append(host);
    message.append(": ");
    message.append(error);
    CollectorWarning { category: "remote_config".to_owned(), message }
}

} // verus!
