//! Transfer counters reported to the tracker.
use vstd::prelude::*;

verus! {

/// Bytes uploaded, downloaded and still to download.
#[derive(Debug, Clone, Copy, PartialEq, Eq, Structural)]
pub struct DownloadState {
    pub uploaded: usize,
    pub downloaded: usize,
    pub left: usize,
}

impl DownloadState {
    /// All counters at zero.
    pub fn default() -> (r: DownloadState)
        ensures
            r == (DownloadState { uploaded: 0, downloaded: 0, left: 0 }),
    {
        DownloadState { uploaded: 0, downloaded: 0, left: 0 }
    }
}

} // verus!
