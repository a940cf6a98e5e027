//! Nginx `$variable` and `${variable}` substitution in proxy configurations.
//!
//! Variables are a list of name and value pairs; a name is looked up by its first
//! occurrence (the names of an nginx `set` map are distinct).

use vstd::prelude::*;
use vstd::string::StringSliceAdditionalSpecFns;
use vstd::utf8::{decode_utf8, encode_utf8, valid_utf8};

use crate::bytes::{copy_range, find_byte, string_from_utf8};
use crate::inventory::remote_configs::lemma_ascii_slice_valid;

verus! {

broadcast use {vstd::utf8::encode_utf8_valid_utf8, vstd::utf8::encode_utf8_decode_utf8, vstd::utf8::valid_utf8_concat};

/// A byte that may continue a bare `$name`: ASCII letter, digit or `_`.
pub open spec fn name_byte(b: u8) -> bool {
    (48 <= b <= 57) || (65 <= b <= 90) || (97 <= b <= 122) || b == 95
}

/// The value of the first variable named `name`.
pub open spec fn lookup(vars: Seq<(Seq<u8>, Seq<u8>)>, name: Seq<u8>) -> Option<Seq<u8>>
    decreases vars.len(),
{
    if vars.len() == 0 {
        None
    } else if vars[0].0 == name {
        Some(vars[0].1)
    } else {
        lookup(vars.drop_first(), name)
    }
}

/// Index of the first `$` at or after `i`, or the length.
pub open spec fn next_dollar(b: Seq<u8>, i: int) -> int
    decreases b.len() - i,
{
    if i >= b.len() {
        b.len() as int
    } else if b[i] == 36u8 {
        i
    } else {
        next_dollar(b, i + 1)
    }
}

/// Index of the first byte at or after `i` that cannot continue a bare name.
pub open spec fn name_end(b: Seq<u8>, i: int) -> int
    decreases b.len() - i,
{
    if i >= b.len() {
        b.len() as int
    } else if !name_byte(b[i]) {
        i
    } else {
        name_end(b, i + 1)
    }
}

/// Index of the first `}` at or after `i`, when there is one.
pub open spec fn close_brace(b: Seq<u8>, i: int) -> Option<int>
    decreases b.len() - i,
{
    if i >= b.len() {
        None
    } else if b[i] == 125u8 {
        Some(i)
    } else {
        close_brace(b, i + 1)
    }
}

pub proof fn lemma_next_dollar(b: Seq<u8>, i: int)
    requires
        0 <= i <= b.len(),
    ensures
        i <= next_dollar(b, i) <= b.len(),
        next_dollar(b, i) < b.len() ==> b[next_dollar(b, i)] == 36u8,
        forall|q: int| i <= q < next_dollar(b, i) ==> b[q] != 36u8,
    decreases b.len() - i,
{
    if i < b.len() && b[i] != 36u8 {
        lemma_next_dollar(b, i + 1);
    }
}

/// One substitution pass over `b` from index `i`: the output bytes and whether a
/// variable was replaced. A `$` with no name is kept; an unknown variable is kept as
/// written; an unclosed `${` keeps the rest of the text unchanged.
pub open spec fn scan(b: Seq<u8>, vars: Seq<(Seq<u8>, Seq<u8>)>, i: int) -> (Seq<u8>, bool)
    decreases b.len() - i, 2int,
{
    if i < 0 || i >= b.len() {
        (Seq::empty(), false)
    } else if b[i] != 36u8 {
        proof {
            lemma_next_dollar(b, i);
        }
        let k = next_dollar(b, i);
        let (rest, changed) = scan_from_dollar(b, vars, k);
        (b.subrange(i, k) + rest, changed)
    } else {
        scan_from_dollar(b, vars, i)
    }
}

/// As [`scan`], at a `$` (or the end).
pub open spec fn scan_from_dollar(b: Seq<u8>, vars: Seq<(Seq<u8>, Seq<u8>)>, i: int) -> (Seq<u8>, bool)
    decreases b.len() - i, 1int,
{
    if i < 0 || i >= b.len() {
        (Seq::empty(), false)
    } else {
        let j = i + 1;
        if j < b.len() && b[j] == 123u8 {
            match close_brace(b, j + 1) {
                None => (b.skip(i), false),
                Some(e) => token(b, vars, i, j + 1, e, e + 1),
            }
        } else {
            let ne = name_end(b, j);
            token(b, vars, i, j, ne, ne)
        }
    }
}

/// The `$` at `i` with name `b[ns..ne]` and token end `te`.
pub open spec fn token(b: Seq<u8>, vars: Seq<(Seq<u8>, Seq<u8>)>, i: int, ns: int, ne: int, te: int) -> (Seq<u8>, bool)
    decreases b.len() - i, 0int,
{
    if !(i < ns && ns <= ne && ne <= te && te <= b.len()) {
        (Seq::empty(), false)
    } else if ns == ne {
        let (rest, changed) = scan(b, vars, i + 1);
        (seq![36u8] + rest, changed)
    } else {
        let (rest, changed) = scan(b, vars, te);
        match lookup(vars, b.subrange(ns, ne)) {
            Some(v) => (v + rest, true),
            None => (b.subrange(i, te) + rest, changed),
        }
    }
}


proof fn lemma_name_end(b: Seq<u8>, i: int)
    requires
        0 <= i <= b.len(),
    ensures
        i <= name_end(b, i) <= b.len(),
        name_end(b, i) < b.len() ==> !name_byte(b[name_end(b, i)]),
        forall|q: int| i <= q < name_end(b, i) ==> name_byte(#[trigger] b[q]),
    decreases b.len() - i,
{
    if i < b.len() && name_byte(b[i]) {
        lemma_name_end(b, i + 1);
    }
}

proof fn lemma_close_brace(b: Seq<u8>, i: int)
    requires
        0 <= i,
    ensures
        close_brace(b, i) matches Some(e) ==> i <= e < b.len() && b[e] == 125u8,
    decreases b.len() - i,
{
    if i < b.len() && b[i] != 125u8 {
        lemma_close_brace(b, i + 1);
    }
}

/// A valid UTF-8 slice is cut where text can be cut: at an end or next to an ASCII byte.
pub open spec fn cut_ok(b: Seq<u8>, i: int) -> bool {
    i <= 0 || i >= b.len() || b[i - 1] < 128 || b[i] < 128
}

proof fn lemma_single_ascii_valid(c: u8)
    requires
        c < 128,
    ensures
        valid_utf8(seq![c]),
{
    crate::bytes::lemma_ascii_utf8(seq![c]);
}

/// A slice of valid UTF-8 whose ends are both cut next to ASCII bytes is valid UTF-8.
proof fn lemma_text_slice_valid(b: Seq<u8>, lo: int, hi: int)
    requires
        valid_utf8(b),
        0 <= lo <= hi <= b.len(),
        lo == hi || cut_ok(b, lo),
        lo == hi || cut_ok(b, hi),
    ensures
        valid_utf8(b.subrange(lo, hi)),
    decreases hi - lo,
{
    if lo == hi {
        assert(b.subrange(lo, hi) =~= Seq::<u8>::empty());
        crate::bytes::lemma_ascii_utf8(Seq::<u8>::empty());
    } else if !(lo == 0 || b[lo - 1] < 128) {
        lemma_text_slice_valid(b, lo + 1, hi);
        lemma_single_ascii_valid(b[lo]);
        assert(b.subrange(lo, hi) =~= seq![b[lo]] + b.subrange(lo + 1, hi));
    } else if !(hi == b.len() || b[hi] < 128) {
        lemma_text_slice_valid(b, lo, hi - 1);
        lemma_single_ascii_valid(b[hi - 1]);
        assert(b.subrange(lo, hi) =~= b.subrange(lo, hi - 1) + seq![b[hi - 1]]);
    } else {
        lemma_ascii_slice_valid(b, lo, hi);
    }
}

/// Every variable value is valid UTF-8.
pub open spec fn values_valid(vars: Seq<(Seq<u8>, Seq<u8>)>) -> bool {
    forall|k: int| 0 <= k < vars.len() ==> valid_utf8(#[trigger] vars[k].1)
}

proof fn lemma_lookup_member(vars: Seq<(Seq<u8>, Seq<u8>)>, name: Seq<u8>)
    requires
        values_valid(vars),
    ensures
        lookup(vars, name) matches Some(v) ==> valid_utf8(v),
    decreases vars.len(),
{
    if vars.len() > 0 && vars[0].0 != name {
        let rest = vars.drop_first();
        assert forall|k: int| 0 <= k < rest.len() implies valid_utf8(#[trigger] rest[k].1) by {
            assert(rest[k] == vars[k + 1]);
        }
        lemma_lookup_member(rest, name);
    }
}

proof fn lemma_scan_valid(b: Seq<u8>, vars: Seq<(Seq<u8>, Seq<u8>)>, i: int)
    requires
        valid_utf8(b),
        values_valid(vars),
        0 <= i <= b.len(),
        cut_ok(b, i),
    ensures
        valid_utf8(scan(b, vars, i).0),
    decreases b.len() - i, 2int,
{
    if i < b.len() {
        if b[i] != 36u8 {
            lemma_next_dollar(b, i);
            let k = next_dollar(b, i);
            lemma_text_slice_valid(b, i, k);
            lemma_from_dollar_valid(b, vars, k);
        } else {
            lemma_from_dollar_valid(b, vars, i);
        }
    } else {
        crate::bytes::lemma_ascii_utf8(Seq::<u8>::empty());
    }
}

proof fn lemma_from_dollar_valid(b: Seq<u8>, vars: Seq<(Seq<u8>, Seq<u8>)>, i: int)
    requires
        valid_utf8(b),
        values_valid(vars),
        0 <= i <= b.len(),
        i < b.len() ==> b[i] == 36u8,
    ensures
        valid_utf8(scan_from_dollar(b, vars, i).0),
    decreases b.len() - i, 1int,
{
    if i >= b.len() {
        crate::bytes::lemma_ascii_utf8(Seq::<u8>::empty());
    } else {
        let j = i + 1;
        if j < b.len() && b[j] == 123u8 {
            lemma_close_brace(b, j + 1);
            match close_brace(b, j + 1) {
                None => {
                    lemma_text_slice_valid(b, i, b.len() as int);
                    assert(b.skip(i) =~= b.subrange(i, b.len() as int));
                },
                Some(e) => {
                    lemma_token_valid(b, vars, i, j + 1, e, e + 1);
                },
            }
        } else {
            lemma_name_end(b, j);
            let ne = name_end(b, j);
            if ne > j {
                assert(name_byte(b[ne - 1]));
            }
            lemma_token_valid(b, vars, i, j, ne, ne);
        }
    }
}

proof fn lemma_token_valid(b: Seq<u8>, vars: Seq<(Seq<u8>, Seq<u8>)>, i: int, ns: int, ne: int, te: int)
    requires
        valid_utf8(b),
        values_valid(vars),
        0 <= i < b.len(),
        b[i] == 36u8,
        i < ns <= ne <= te <= b.len(),
        ns < ne ==> b[te - 1] < 128,
    ensures
        valid_utf8(token(b, vars, i, ns, ne, te).0),
    decreases b.len() - i, 0int,
{
    if ns == ne {
        lemma_scan_valid(b, vars, i + 1);
        lemma_single_ascii_valid(36u8);
    } else {
        lemma_scan_valid(b, vars, te);
        lemma_lookup_member(vars, b.subrange(ns, ne));
        lemma_text_slice_valid(b, i, te);
    }
}

proof fn lemma_close_brace_found(b: Seq<u8>, from: int, e: int)
    requires
        0 <= from <= e < b.len(),
        b[e] == 125u8,
        forall|q: int| from <= q < e ==> b[q] != 125u8,
    ensures
        close_brace(b, from) == Some(e),
    decreases e - from,
{
    if from < e {
        lemma_close_brace_found(b, from + 1, e);
    }
}

proof fn lemma_close_brace_none(b: Seq<u8>, from: int)
    requires
        0 <= from,
        forall|q: int| from <= q < b.len() ==> b[q] != 125u8,
    ensures
        close_brace(b, from) is None,
    decreases b.len() - from,
{
    if from < b.len() {
        lemma_close_brace_none(b, from + 1);
    }
}

proof fn lemma_next_dollar_found(b: Seq<u8>, i: int, k: int)
    requires
        0 <= i <= k <= b.len(),
        k < b.len() ==> b[k] == 36u8,
        forall|q: int| i <= q < k ==> b[q] != 36u8,
    ensures
        next_dollar(b, i) == k,
    decreases k - i,
{
    if i < k {
        lemma_next_dollar_found(b, i + 1, k);
    }
}

proof fn lemma_name_end_found(b: Seq<u8>, i: int, k: int)
    requires
        0 <= i <= k <= b.len(),
        k < b.len() ==> !name_byte(b[k]),
        forall|q: int| i <= q < k ==> name_byte(#[trigger] b[q]),
    ensures
        name_end(b, i) == k,
    decreases k - i,
{
    if i < k {
        lemma_name_end_found(b, i + 1, k);
    }
}

/// The variables as pairs of UTF-8 byte strings.
pub open spec fn vars_bytes(vars: Seq<(String, String)>) -> Seq<(Seq<u8>, Seq<u8>)> {
    Seq::new(vars.len(), |k: int| (encode_utf8(vars[k].0@), encode_utf8(vars[k].1@)))
}

/// `s[lo..hi]` equals `t`.
fn range_eq(s: &[u8], lo: usize, hi: usize, t: &[u8]) -> (r: bool)
    requires
        lo <= hi <= s.len(),
    ensures
        r == (s@.subrange(lo as int, hi as int) == t@),
{
    if hi - lo != t.len() {
        return false;
    }
    let mut q: usize = 0;
    while q < t.len()
        invariant
            q <= t.len(),
            lo + t.len() == hi <= s.len(),
            forall|x: int| 0 <= x < q ==> s@[lo + x] == t@[x],
        decreases t.len() - q,
    {
        if s[lo + q] != t[q] {
            assert(s@.subrange(lo as int, hi as int)[q as int] != t@[q as int]);
            return false;
        }
        q += 1;
    }
    assert(s@.subrange(lo as int, hi as int) =~= t@);
    true
}

/// The value bytes of the first variable named `b[lo..hi]`.
fn lookup_exec(b: &[u8], lo: usize, hi: usize, vars: &Vec<(String, String)>) -> (r: Option<Vec<u8>>)
    requires
        lo <= hi <= b.len(),
    ensures
        match r {
            Some(v) => lookup(vars_bytes(vars@), b@.subrange(lo as int, hi as int)) == Some(v@),
            None => lookup(vars_bytes(vars@), b@.subrange(lo as int, hi as int)) is None,
        },
{
    let ghost name = b@.subrange(lo as int, hi as int);
    let ghost all = vars_bytes(vars@);
    let mut k: usize = 0;
    assert(all.skip(0) =~= all);
    while k < vars.len()
        invariant
            k <= vars.len(),
            lo <= hi <= b.len(),
            name == b@.subrange(lo as int, hi as int),
            all == vars_bytes(vars@),
            lookup(all, name) == lookup(all.skip(k as int), name),
        decreases vars.len() - k,
    {
        let ghost rest = all.skip(k as int);
        assert(rest[0] == all[k as int]);
        assert(rest.drop_first() =~= all.skip(k + 1));
        let key = vars[k].0.as_str().as_bytes();
        if range_eq(b, lo, hi, key) {
            let value = vars[k].1.as_str().as_bytes();
            let out = copy_range(value, 0, value.len());
            assert(out@ =~= value@);
            return Some(out);
        }
        k += 1;
    }
    assert(all.skip(k as int).len() == 0);
    None
}

/// The token that starts with the `$` at `i`: its output bytes, whether a variable
/// was replaced, and where the scan goes on (`None`: an unclosed `${` ended it).
fn dollar_token(b: &[u8], vars: &Vec<(String, String)>, i: usize) -> (r: (Vec<u8>, bool, Option<usize>))
    requires
        i < b.len(),
        b@[i as int] == 36u8,
    ensures
        match r.2 {
            Some(nx) => {
                &&& i < nx <= b.len()
                &&& scan_from_dollar(b@, vars_bytes(vars@), i as int).0 == r.0@ + scan(b@, vars_bytes(vars@), nx as int).0
                &&& scan_from_dollar(b@, vars_bytes(vars@), i as int).1 == (r.1 || scan(b@, vars_bytes(vars@), nx as int).1)
            },
            None => scan_from_dollar(b@, vars_bytes(vars@), i as int) == (r.0@, r.1),
        },
{
    let n = b.len();
    let j = i + 1;
    let (ns, ne, te) = if j < n && b[j] == 123u8 {
        match find_byte(b, 125u8, j + 1) {
            None => {
                proof {
                    lemma_close_brace_none(b@, j + 1);
                }
                let piece = copy_range(b, i, n);
                assert(b@.skip(i as int) =~= b@.subrange(i as int, n as int));
                return (piece, false, None);
            },
            Some(e) => {
                proof {
                    lemma_close_brace_found(b@, j + 1, e as int);
                }
                (j + 1, e, e + 1)
            },
        }
    } else {
        let mut ne: usize = j;
        while ne < n && (48 <= b[ne] && b[ne] <= 57 || 65 <= b[ne] && b[ne] <= 90 || 97 <= b[ne] && b[ne] <= 122
            || b[ne] == 95)
            invariant
                j <= ne <= n,
                n == b.len(),
                forall|q: int| j <= q < ne ==> name_byte(#[trigger] b@[q]),
            decreases n - ne,
        {
            ne += 1;
        }
        proof {
            lemma_name_end_found(b@, j as int, ne as int);
        }
        (j, ne, ne)
    };
    assert(scan_from_dollar(b@, vars_bytes(vars@), i as int) == token(b@, vars_bytes(vars@), i as int, ns as int, ne as int, te as int));
    if ns == ne {
        let mut piece: Vec<u8> = Vec::new();
        piece.push(36u8);
        assert(piece@ =~= seq![36u8]);
        (piece, false, Some(i + 1))
    } else {
        match lookup_exec(b, ns, ne, vars) {
            Some(v) => (v, true, Some(te)),
            None => (copy_range(b, i, te), false, Some(te)),
        }
    }
}

proof fn lemma_scan_at_dollar(b: Seq<u8>, vars: Seq<(Seq<u8>, Seq<u8>)>, k: int)
    requires
        0 <= k <= b.len(),
        k < b.len() ==> b[k] == 36u8,
    ensures
        scan(b, vars, k) == scan_from_dollar(b, vars, k),
{
}

/// One substitution pass: the bytes [`scan`] gives from the start, and whether a
/// variable was replaced.
fn substitute_bytes(b: &[u8], vars: &Vec<(String, String)>) -> (r: (Vec<u8>, bool))
    ensures
        r.0@ == scan(b@, vars_bytes(vars@), 0).0,
        r.1 == scan(b@, vars_bytes(vars@), 0).1,
{
    let ghost vb = vars_bytes(vars@);
    let ghost total = scan(b@, vb, 0);
    let mut out: Vec<u8> = Vec::new();
    let mut changed = false;
    let mut i: usize = 0;
    let n = b.len();
    assert(out@ + scan(b@, vb, 0).0 =~= total.0);
    while i < n
        invariant_except_break
            i <= n,
            n == b.len(),
            vb == vars_bytes(vars@),
            total == scan(b@, vb, 0),
            total.0 == out@ + scan(b@, vb, i as int).0,
            total.1 == (changed || scan(b@, vb, i as int).1),
        ensures
            total.0 == out@,
            total.1 == changed,
        decreases n - i,
    {
        if b[i] != 36u8 {
            let mut k: usize = i;
            while k < n && b[k] != 36u8
                invariant
                    i <= k <= n,
                    n == b.len(),
                    forall|q: int| i <= q < k ==> b@[q] != 36u8,
                decreases n - k,
            {
                k += 1;
            }
            proof {
                lemma_next_dollar_found(b@, i as int, k as int);
                lemma_scan_at_dollar(b@, vb, k as int);
            }
            let mut piece = copy_range(b, i, k);
            let ghost before = out@;
            out.append(&mut piece);
            assert(out@ + scan(b@, vb, k as int).0 =~= before + (b@.subrange(i as int, k as int) + scan(b@, vb, k as int).0));
            i = k;
        } else {
            proof {
                lemma_scan_at_dollar(b@, vb, i as int);
            }
            let (mut piece, replaced, next) = dollar_token(b, vars, i);
            let ghost before = out@;
            let ghost added = piece@;
            out.append(&mut piece);
            if replaced {
                changed = true;
            }
            match next {
                Some(nx) => {
                    assert(out@ + scan(b@, vb, nx as int).0 =~= before + (added + scan(b@, vb, nx as int).0));
                    i = nx;
                },
                None => {
                    break;
                },
            }
        }
    }
    proof {
        if i >= n {
            assert(out@ + Seq::<u8>::empty() =~= out@);
        }
    }
    (out, changed)
}


proof fn lemma_scan_unchanged(b: Seq<u8>, vars: Seq<(Seq<u8>, Seq<u8>)>, i: int)
    requires
        0 <= i <= b.len(),
    ensures
        !scan(b, vars, i).1 ==> scan(b, vars, i).0 == b.skip(i),
    decreases b.len() - i, 2int,
{
    if i < b.len() {
        if b[i] != 36u8 {
            lemma_next_dollar(b, i);
            let k = next_dollar(b, i);
            lemma_from_dollar_unchanged(b, vars, k);
            assert(b.subrange(i, k) + b.skip(k) =~= b.skip(i));
        } else {
            lemma_from_dollar_unchanged(b, vars, i);
        }
    } else {
        assert(b.skip(i) =~= Seq::<u8>::empty());
    }
}

proof fn lemma_from_dollar_unchanged(b: Seq<u8>, vars: Seq<(Seq<u8>, Seq<u8>)>, i: int)
    requires
        0 <= i <= b.len(),
        i < b.len() ==> b[i] == 36u8,
    ensures
        !scan_from_dollar(b, vars, i).1 ==> scan_from_dollar(b, vars, i).0 == b.skip(i),
    decreases b.len() - i, 1int,
{
    if i >= b.len() {
        assert(b.skip(i) =~= Seq::<u8>::empty());
    } else {
        let j = i + 1;
        if j < b.len() && b[j] == 123u8 {
            lemma_close_brace(b, j + 1);
            match close_brace(b, j + 1) {
                None => {},
                Some(e) => {
                    lemma_token_unchanged(b, vars, i, j + 1, e, e + 1);
                },
            }
        } else {
            lemma_name_end(b, j);
            let ne = name_end(b, j);
            lemma_token_unchanged(b, vars, i, j, ne, ne);
        }
    }
}

proof fn lemma_token_unchanged(b: Seq<u8>, vars: Seq<(Seq<u8>, Seq<u8>)>, i: int, ns: int, ne: int, te: int)
    requires
        0 <= i < b.len(),
        b[i] == 36u8,
        i < ns <= ne <= te <= b.len(),
    ensures
        !token(b, vars, i, ns, ne, te).1 ==> token(b, vars, i, ns, ne, te).0 == b.skip(i),
    decreases b.len() - i, 0int,
{
    if ns == ne {
        lemma_scan_unchanged(b, vars, i + 1);
        assert(seq![36u8] + b.skip(i + 1) =~= b.skip(i));
    } else {
        lemma_scan_unchanged(b, vars, te);
        assert(b.subrange(i, te) + b.skip(te) =~= b.skip(i));
    }
}

/// One pass over the text `s`: the text after it, and whether a variable was replaced.
pub open spec fn pass(s: Seq<char>, vars: Seq<(String, String)>) -> (Seq<char>, bool) {
    let r = scan(encode_utf8(s), vars_bytes(vars), 0);
    (decode_utf8(r.0), r.1)
}

/// At most `passes` passes, stopping after the first pass that replaces nothing.
pub open spec fn resolve(s: Seq<char>, vars: Seq<(String, String)>, passes: nat) -> Seq<char>
    decreases passes,
{
    if passes == 0 {
        s
    } else {
        let (next, changed) = pass(s, vars);
        if changed {
            resolve(next, vars, (passes - 1) as nat)
        } else {
            next
        }
    }
}

/// One substitution pass over `value`. A pass that replaces nothing gives back the
/// text unchanged.
pub fn substitute_once(value: &str, vars: &Vec<(String, String)>) -> (r: (String, bool))
    ensures
        (r.0@, r.1) == pass(value@, vars@),
        !r.1 ==> r.0@ == value@,
{
    let bytes = value.as_bytes();
    let ghost b = bytes@;
    let ghost vb = vars_bytes(vars@);
    let (out, changed) = substitute_bytes(bytes, vars);
    proof {
        assert(values_valid(vb));
        lemma_scan_valid(b, vb, 0);
        lemma_scan_unchanged(b, vb, 0);
        assert(b.skip(0) =~= b);
    }
    match string_from_utf8(out) {
        Some(text) => (text, changed),
        None => {
            assert(false);
            (String::new(), changed)
        },
    }
}

/// Resolves nginx variables in `value`: passes are repeated, at most eight times, until
/// one replaces nothing, so that a value that names another variable is resolved too.
pub fn substitute_nginx_variables(value: &str, vars: &Vec<(String, String)>) -> (r: String)
    ensures
        r@ == resolve(value@, vars@, 8),
{
    let (mut resolved, mut changed) = substitute_once(value, vars);
    let mut done: usize = 1;
    while changed && done < 8
        invariant
            1 <= done <= 8,
            resolve(value@, vars@, 8) == (if changed { resolve(resolved@, vars@, (8 - done) as nat) } else { resolved@ }),
        decreases 8 - done,
    {
        let (next, again) = substitute_once(resolved.as_str(), vars);
        resolved = next;
        changed = again;
        done += 1;
    }
    resolved
}

} // verus!
