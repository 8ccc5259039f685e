//! Where a block lands in the downloaded file. The file itself is mapped and
//! written outside the library; this decides, with bounds checked, which bytes a
//! write covers.
use vstd::prelude::*;

verus! {

/// The bytes `[offset, offset + len)` of a file of `file_length` bytes, as indexes
/// into its mapping, when they lie inside the file; `None` otherwise.
pub fn block_range(offset: u64, len: usize, file_length: u64) -> (r: Option<(usize, usize)>)
    ensures
        r is Some <==> offset + len <= file_length && offset + len <= usize::MAX,
        r is Some ==> r->Some_0 == (offset as usize, (offset + len) as usize),
{
    if offset > file_length || (len as u64) > file_length - offset {
        return None;
    }
    let end = offset + len as u64;
    if end > usize::MAX as u64 {
        return None;
    }
    Some((offset as usize, end as usize))
}

} // verus!
