//! Runtime worker policy shared by the Agent Observatory background tasks.

use vstd::prelude::*;
use vstd::string::StringSliceAdditionalSpecFns;

use crate::bytes::{copy_range, has_prefix, starts_with};
use crate::inventory::storage::{join_path, path_join};

pub mod cycle;

verus! {

/// Backoff delays, in milliseconds, used after transient SQLite lock failures.
pub const TRANSIENT_SQLITE_RETRY_DELAYS_MS: [u64; 3] = [25, 100, 250];

/// The delay the projector waits before its `attempt`-th retry (counting from 1):
/// the matching entry of the transient SQLite backoff table, capped at its last entry.
pub open spec fn spec_projector_retry_delay_ms(attempt: int) -> u64 {
    if attempt <= 1 {
        25
    } else if attempt == 2 {
        100
    } else {
        250
    }
}

/// Projector retry delay for the given consecutive retry-safe failure count.
pub fn projector_retry_delay_ms(attempt: usize) -> (delay: u64)
    ensures
        delay == spec_projector_retry_delay_ms(attempt as int),
{
    let index: usize = if attempt == 0 { 0 } else { attempt - 1 };
    let last: usize = TRANSIENT_SQLITE_RETRY_DELAYS_MS.len() - 1;
    let index: usize = if index < last { index } else { last };
    TRANSIENT_SQLITE_RETRY_DELAYS_MS[index]
}


/// A configured Git root with a leading `~/` taken from `home` (the `HOME` variable's
/// bytes, or `/nonexistent` when it is unset); any other root as written.
pub open spec fn expand_root_spec(root: Seq<u8>, home: Option<Seq<u8>>) -> Seq<u8> {
    if has_prefix(root, seq![126u8, 47u8]) {
        let base = match home {
            Some(h) => h,
            None => "/nonexistent"@.map_values(|c: char| c as u8),
        };
        path_join(base, root.skip(2))
    } else {
        root
    }
}

/// The path a configured root names.
pub fn expand_root(root: &str, home: Option<Vec<u8>>) -> (r: Vec<u8>)
    ensures
        r@ == expand_root_spec(root.spec_bytes(), match home { Some(h) => Some(h@), None => None }),
{
    let b = root.as_bytes();
    let tilde: [u8; 2] = [126u8, 47u8];
    assert(tilde@ == seq![126u8, 47u8]);
    if starts_with(b, &tilde) {
        let base: Vec<u8> = match home {
            Some(h) => h,
            None => {
                let v: Vec<u8> = vec![47u8, 110u8, 111u8, 110u8, 101u8, 120u8, 105u8, 115u8, 116u8, 101u8, 110u8, 116u8];
                proof {
                    reveal_strlit("/nonexistent");
                }
                assert(v@ =~= "/nonexistent"@.map_values(|c: char| c as u8));
                v
            },
        };
        let suffix = copy_range(b, 2, b.len());
        assert(suffix@ =~= b@.skip(2));
        join_path(base.as_slice(), suffix.as_slice())
    } else {
        copy_range(b, 0, b.len())
    }
}

} // verus!
