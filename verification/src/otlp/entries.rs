//! OTLP log records: severities and hexadecimal identifiers.

use vstd::prelude::*;

use crate::bytes::{ascii_chars, ascii_string, is_ascii_bytes};

verus! {

/// Lower-case hexadecimal digit for `d < 16`.
pub open spec fn hex_lower(d: u8) -> u8 {
    if d < 10 {
        (48 + d) as u8
    } else {
        (87 + d) as u8
    }
}

/// Two lower-case hexadecimal digits per byte (`{:02x}`).
pub open spec fn hex_encode(bs: Seq<u8>) -> Seq<u8>
    decreases bs.len(),
{
    if bs.len() == 0 {
        Seq::empty()
    } else {
        hex_encode(bs.drop_last()) + seq![hex_lower(bs.last() / 16), hex_lower(bs.last() % 16)]
    }
}

fn hex_digit_lower(d: u8) -> (r: u8)
    requires
        d < 16,
    ensures
        r == hex_lower(d),
        r < 128,
{
    if d < 10 {
        48 + d
    } else {
        87 + d
    }
}

/// The bytes as lower-case hexadecimal, two digits each.
pub fn hex_string(bytes: &[u8]) -> (s: String)
    ensures
        s@ == ascii_chars(hex_encode(bytes@)),
{
    let mut out: Vec<u8> = Vec::new();
    let mut i: usize = 0;
    assert(bytes@.take(0) =~= Seq::<u8>::empty());
    while i < bytes.len()
        invariant
            i <= bytes.len(),
            out@ == hex_encode(bytes@.take(i as int)),
            is_ascii_bytes(out@),
        decreases bytes.len() - i,
    {
        let b = bytes[i];
        let ghost before = out@;
        assert(bytes@.take(i + 1).drop_last() =~= bytes@.take(i as int));
        out.push(hex_digit_lower(b / 16));
        out.push(hex_digit_lower(b % 16));
        assert(out@ =~= before + seq![hex_lower(b / 16), hex_lower(b % 16)]);
        i += 1;
    }
    assert(bytes@.take(i as int) =~= bytes@);
    ascii_string(out.as_slice())
}

/// An identifier's hexadecimal form; an empty identifier is absent.
pub fn hex_bytes(bytes: &[u8]) -> (r: Option<String>)
    ensures
        bytes@.len() == 0 ==> r is None,
        bytes@.len() > 0 ==> (r matches Some(s) && s@ == ascii_chars(hex_encode(bytes@))),
{
    if bytes.len() == 0 {
        return None;
    }
    Some(hex_string(bytes))
}

/// OTLP severity number (0 to 24) to syslog severity; unspecified and unknown
/// numbers are `info`.
pub open spec fn severity_spec(n: i32) -> &'static str {
    if 1 <= n <= 8 {
        "debug"
    } else if 9 <= n <= 12 {
        "info"
    } else if 13 <= n <= 16 {
        "warning"
    } else if 17 <= n <= 20 {
        "err"
    } else if 21 <= n <= 24 {
        "crit"
    } else {
        "info"
    }
}

pub fn severity_from_number(n: i32) -> (r: &'static str)
    ensures
        r == severity_spec(n),
{
    if 1 <= n && n <= 8 {
        "debug"
    } else if 9 <= n && n <= 12 {
        "info"
    } else if 13 <= n && n <= 16 {
        "warning"
    } else if 17 <= n && n <= 20 {
        "err"
    } else if 21 <= n && n <= 24 {
        "crit"
    } else {
        "info"
    }
}

} // verus!
