//! The conditions that end a download.

use vstd::prelude::*;
use vstd::string::StringExecFns;
use crate::text::{decimal, decimal_digits};

verus! {

/// A fatal condition. Any one of them ends the whole download: there is no
/// partial success, since a missing segment would corrupt the stream.
#[derive(Clone, Copy, Debug, PartialEq, Eq, Structural)]
pub enum DownloadError {
    /// Every allowed attempt to fetch the segment `index` failed.
    RetriesExhausted { index: usize },
    /// The segment `index` was fetched but could not be decrypted.
    Decryption { index: usize },
    /// A completion message arrived for a segment that is not awaited: it was
    /// written or buffered before, or the stream has no such segment.
    UnexpectedSegment { index: usize },
    /// The completion channel closed while segments were missing: only the
    /// first `written` of `total` segments reached the sink.
    Incomplete { written: usize, total: usize },
}

impl DownloadError {
    /// The message that describes the error: it names the segment that
    /// failed, or says how far the download came.
    pub open spec fn text(self) -> Seq<char> {
        match self {
            DownloadError::RetriesExhausted { index } => "segment "@ + decimal_digits(index as nat)
                + " could not be fetched, every attempt failed"@,
            DownloadError::Decryption { index } => "segment "@ + decimal_digits(index as nat)
                + " could not be decrypted"@,
            DownloadError::UnexpectedSegment { index } => "segment "@ + decimal_digits(
                index as nat,
            ) + " arrived but was not awaited"@,
            DownloadError::Incomplete { written, total } => "the download ended after "@
                + decimal_digits(written as nat) + " of "@ + decimal_digits(total as nat)
                + " segments"@,
        }
    }

    /// Renders the error for the user.
    pub fn message(&self) -> (s: String)
        ensures
            s@ == self.text(),
    {
        match self {
            DownloadError::RetriesExhausted { index } => {
                let mut s: String = "segment ".to_owned();
                s.append(decimal(*index).as_str());
                s.append(" could not be fetched, every attempt failed");
                s
            },
            DownloadError::Decryption { index } => {
                let mut s: String = "segment ".to_owned();
                s.append(decimal(*index).as_str());
                s.append(" could not be decrypted");
                s
            },
            DownloadError::UnexpectedSegment { index } => {
                let mut s: String = "segment ".to_owned();
                s.append(decimal(*index).as_str());
                s.append(" arrived but was not awaited");
                s
            },
            DownloadError::Incomplete { written, total } => {
                let mut s: String = "the download ended after ".to_owned();
                s.append(decimal(*written).as_str());
                s.append(" of ");
                s.append(decimal(*total).as_str());
                s.append(" segments");
                s
            },
        }
    }
}

} // verus!
