//! Progress accounting for a streamed artifact download: the bytes written
//! so far, held against the advertised content length. The stream and the
//! file live outside the library; each arriving chunk is recorded here.

use vstd::prelude::*;

verus! {

/// Running state of one download.
pub struct DownloadProgress {
    /// Advertised content length; zero when the server gave none.
    pub total: u64,
    /// Bytes written to the destination so far.
    pub downloaded: u64,
}

impl DownloadProgress {
    /// A download that has not received anything yet, against the
    /// advertised content length (zero if unknown).
    pub fn new(total: u64) -> (r: DownloadProgress)
        ensures
            r.total == total,
            r.downloaded == 0,
    {
        DownloadProgress { total, downloaded: 0 }
    }

    /// Records one arriving chunk; the count never runs backwards, and a
    /// sum beyond the counter's range stops at its top.
    pub fn record_chunk(&mut self, len: u64)
        ensures
            final(self).total == old(self).total,
            final(self).downloaded == (if old(self).downloaded + len <= u64::MAX {
                old(self).downloaded + len
            } else {
                u64::MAX as int
            }),
            final(self).downloaded >= old(self).downloaded,
    {
        if self.downloaded <= u64::MAX - len {
            self.downloaded = self.downloaded + len;
        } else {
            self.downloaded = u64::MAX;
        }
    }

    /// Whether everything the server advertised has arrived; a download
    /// with an unknown length is complete as soon as the stream ends.
    pub fn reached_total(&self) -> (r: bool)
        ensures
            r == (self.downloaded >= self.total),
    {
        self.downloaded >= self.total
    }
}

} // verus!
