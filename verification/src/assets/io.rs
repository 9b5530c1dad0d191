use vstd::prelude::*;
use vstd::string::StringSliceAdditionalSpecFns;

use crate::assets::error::AssetError;

verus! {

/// Default ceiling, in bytes, on any asset file read from disk: 64 MiB.
pub const MAX_ASSET_FILE_BYTES: u64 = 67108864;

/// Refuses a file of `size` bytes when it exceeds `max_file_bytes`,
/// reporting both numbers. Applied to the size the file system reports
/// before reading, and again to the bytes actually read.
pub fn check_file_budget(path: &str, size: u64, max_file_bytes: u64) -> (r: Result<(), AssetError>)
    ensures
        size <= max_file_bytes ==> r is Ok,
        size > max_file_bytes ==> (r matches Err(AssetError::OverBudget { path: p, limit, actual })
            && p@ == path@ && limit == max_file_bytes && actual == size),
{
    if size > max_file_bytes {
        return Err(AssetError::over_budget(path, max_file_bytes, size));
    }
    Ok(())
}

/// Whether the path with components `resolved` lies under the root with
/// components `root`: the root's components are a prefix of the path's.
pub fn is_within_root(root: &[String], resolved: &[String]) -> (r: bool)
    ensures
        r == (root@.len() <= resolved@.len() && forall|i: int|
            0 <= i < root@.len() ==> #[trigger] root@[i]@ == resolved@[i]@),
{
    if root.len() > resolved.len() {
        return false;
    }
    let mut i: usize = 0;
    while i < root.len()
        invariant
            i <= root@.len(),
            root@.len() <= resolved@.len(),
            forall|j: int| 0 <= j < i ==> #[trigger] root@[j]@ == resolved@[j]@,
        decreases root@.len() - i,
    {
        if !same_text(root[i].as_str(), resolved[i].as_str()) {
            return false;
        }
        i = i + 1;
    }
    true
}

/// Whether two strings hold the same characters.
fn same_text(a: &str, b: &str) -> (r: bool)
    ensures
        r == (a@ == b@),
{
    let x = a.as_bytes();
    let y = b.as_bytes();
    if x.len() != y.len() {
        proof {
            if a@ == b@ {
                assert(a.spec_bytes() == b.spec_bytes());
            }
        }
        return false;
    }
    let mut j: usize = 0;
    while j < x.len()
        invariant
            j <= x@.len(),
            x@ == a.spec_bytes(),
            y@ == b.spec_bytes(),
            x@.len() == y@.len(),
            forall|k: int| 0 <= k < j ==> x@[k] == y@[k],
        decreases x@.len() - j,
    {
        if x[j] != y[j] {
            proof {
                if a@ == b@ {
                    assert(a.spec_bytes() == b.spec_bytes());
                }
            }
            return false;
        }
        j = j + 1;
    }
    proof {
        assert(x@ =~= y@);
        vstd::utf8::encode_utf8_decode_utf8(a@);
        vstd::utf8::encode_utf8_decode_utf8(b@);
    }
    true
}

} // verus!
