//! Inventory cache layout.
//!
//! Paths are raw Unix path bytes, joined as `PathBuf::join` joins them.

use vstd::prelude::*;
use vstd::string::StringSliceAdditionalSpecFns;

verus! {

/// `base.join(p)`: an absolute `p` replaces `base`; otherwise `p` follows `base`,
/// with a separator unless `base` is empty or already ends in one.
pub open spec fn path_join(base: Seq<u8>, p: Seq<u8>) -> Seq<u8> {
    if p.len() > 0 && p[0] == 47u8 {
        p
    } else if base.len() > 0 && base.last() != 47u8 {
        base.push(47u8) + p
    } else {
        base + p
    }
}

/// `PathBuf::join` on raw path bytes.
pub fn join_path(base: &[u8], p: &[u8]) -> (r: Vec<u8>)
    ensures
        r@ == path_join(base@, p@),
{
    let mut out: Vec<u8> = Vec::new();
    if !(p.len() > 0 && p[0] == 47u8) {
        let mut i: usize = 0;
        while i < base.len()
            invariant
                i <= base.len(),
                out@ == base@.take(i as int),
            decreases base.len() - i,
        {
            out.push(base[i]);
            i += 1;
            assert(out@ =~= base@.take(i as int));
        }
        assert(base@.take(base.len() as int) =~= base@);
        if base.len() > 0 && base[base.len() - 1] != 47u8 {
            out.push(47u8);
        }
    }
    let ghost prefix = out@;
    let mut j: usize = 0;
    while j < p.len()
        invariant
            j <= p.len(),
            out@ == prefix + p@.take(j as int),
        decreases p.len() - j,
    {
        out.push(p[j]);
        j += 1;
        assert(out@ =~= prefix + p@.take(j as int));
    }
    assert(p@.take(p.len() as int) =~= p@);
    assert(out@ =~= path_join(base@, p@));
    out
}

pub open spec fn name_raw() -> Seq<u8> {
    seq![114u8, 97u8, 119u8]
}

pub open spec fn name_normalized() -> Seq<u8> {
    seq![110u8, 111u8, 114u8, 109u8, 97u8, 108u8, 105u8, 122u8, 101u8, 100u8]
}

pub open spec fn name_homelab_json() -> Seq<u8> {
    seq![104u8, 111u8, 109u8, 101u8, 108u8, 97u8, 98u8, 46u8, 106u8, 115u8, 111u8, 110u8]
}

pub open spec fn name_collection_state_json() -> Seq<u8> {
    seq![99u8, 111u8, 108u8, 108u8, 101u8, 99u8, 116u8, 105u8, 111u8, 110u8, 45u8, 115u8, 116u8, 97u8, 116u8, 101u8, 46u8, 106u8, 115u8, 111u8, 110u8]
}

pub open spec fn name_refresh_lock() -> Seq<u8> {
    seq![114u8, 101u8, 102u8, 114u8, 101u8, 115u8, 104u8, 46u8, 108u8, 111u8, 99u8, 107u8]
}

pub open spec fn suffix_txt() -> Seq<u8> {
    seq![46u8, 116u8, 120u8, 116u8]
}

/// The inventory cache layout under one root directory.
#[derive(Debug, Clone)]
pub struct InventoryPaths {
    pub root: Vec<u8>,
    pub raw_dir: Vec<u8>,
    pub normalized_dir: Vec<u8>,
    pub normalized_json: Vec<u8>,
    pub collection_state_json: Vec<u8>,
    pub lock_file: Vec<u8>,
}

/// The layout under `root`.
pub open spec fn layout_holds(p: InventoryPaths, root: Seq<u8>) -> bool {
    &&& p.root@ == root
    &&& p.raw_dir@ == path_join(root, name_raw())
    &&& p.normalized_dir@ == path_join(root, name_normalized())
    &&& p.normalized_json@ == path_join(path_join(root, name_normalized()), name_homelab_json())
    &&& p.collection_state_json@ == path_join(root, name_collection_state_json())
    &&& p.lock_file@ == path_join(root, name_refresh_lock())
}

impl InventoryPaths {
    /// `raw/`, `normalized/`, `normalized/homelab.json`, `collection-state.json` and
    /// `refresh.lock` under `root`.
    pub fn new(root: Vec<u8>) -> (p: Self)
        ensures
            layout_holds(p, root@),
    {
        let raw: [u8; 3] = [114u8, 97u8, 119u8];
        let normalized: [u8; 10] = [110u8, 111u8, 114u8, 109u8, 97u8, 108u8, 105u8, 122u8, 101u8, 100u8];
        let homelab: [u8; 12] = [104u8, 111u8, 109u8, 101u8, 108u8, 97u8, 98u8, 46u8, 106u8, 115u8, 111u8, 110u8];
        let state: [u8; 21] = [99u8, 111u8, 108u8, 108u8, 101u8, 99u8, 116u8, 105u8, 111u8, 110u8, 45u8, 115u8, 116u8, 97u8, 116u8, 101u8, 46u8, 106u8, 115u8, 111u8, 110u8];
        let lock: [u8; 12] = [114u8, 101u8, 102u8, 114u8, 101u8, 115u8, 104u8, 46u8, 108u8, 111u8, 99u8, 107u8];
        assert(raw@ == name_raw());
        assert(normalized@ == name_normalized());
        assert(homelab@ == name_homelab_json());
        assert(state@ == name_collection_state_json());
        assert(lock@ == name_refresh_lock());
        let raw_dir = join_path(root.as_slice(), &raw);
        let normalized_dir = join_path(root.as_slice(), &normalized);
        let normalized_json = join_path(normalized_dir.as_slice(), &homelab);
        let collection_state_json = join_path(root.as_slice(), &state);
        let lock_file = join_path(root.as_slice(), &lock);
        InventoryPaths { root, raw_dir, normalized_dir, normalized_json, collection_state_json, lock_file }
    }

    /// The directories kept private (mode 0700): the root, `raw/` and `normalized/`,
    /// in the order they are created.
    pub fn private_dirs(&self) -> (r: Vec<Vec<u8>>)
        ensures
            r@.len() == 3,
            r@[0]@ == self.root@,
            r@[1]@ == self.raw_dir@,
            r@[2]@ == self.normalized_dir@,
    {
        let mut out: Vec<Vec<u8>> = Vec::new();
        out.push(self.root.clone());
        out.push(self.raw_dir.clone());
        out.push(self.normalized_dir.clone());
        out
    }

    /// `raw/<run_id>/<id>.txt`.
    pub fn raw_artifact_path(&self, run_id: &str, id: &str) -> (r: Vec<u8>)
        ensures
            r@ == path_join(path_join(self.raw_dir@, run_id.spec_bytes()), id.spec_bytes() + suffix_txt()),
    {
        let run_dir = join_path(self.raw_dir.as_slice(), run_id.as_bytes());
        let txt: [u8; 4] = [46u8, 116u8, 120u8, 116u8];
        assert(txt@ == suffix_txt());
        let name = concat_bytes(id.as_bytes(), &txt);
        join_path(run_dir.as_slice(), name.as_slice())
    }
}

fn concat_bytes(a: &[u8], b: &[u8]) -> (r: Vec<u8>)
    ensures
        r@ == a@ + b@,
{
    let mut out: Vec<u8> = Vec::new();
    let mut i: usize = 0;
    while i < a.len()
        invariant
            i <= a.len(),
            out@ == a@.take(i as int),
        decreases a.len() - i,
    {
        out.push(a[i]);
        i += 1;
        assert(out@ =~= a@.take(i as int));
    }
    let mut j: usize = 0;
    while j < b.len()
        invariant
            i == a.len(),
            j <= b.len(),
            out@ == a@.take(i as int) + b@.take(j as int),
        decreases b.len() - j,
    {
        out.push(b[j]);
        j += 1;
        assert(out@ =~= a@.take(i as int) + b@.take(j as int));
    }
    assert(a@.take(i as int) =~= a@);
    assert(b@.take(j as int) =~= b@);
    out
}

} // verus!
