use vstd::prelude::*;
use crate::error::Error;

verus! {

/// Whether a transfer must be performed at all. `existing_hash` is the
/// digest of the file already at the destination, when one exists. A
/// transfer is skipped exactly when the destination exists, an expected
/// digest was supplied, and the existing file already matches it: a
/// matching file is never downloaded again.
pub open spec fn spec_needs_transfer(
    dest_exists: bool,
    existing_hash: Option<Seq<char>>,
    expected_hash: Option<Seq<char>>,
) -> bool {
    !(dest_exists && expected_hash is Some && existing_hash is Some && existing_hash->0
        == expected_hash->0)
}

pub fn needs_transfer(
    dest_exists: bool,
    existing_hash: Option<&str>,
    expected_hash: Option<&str>,
) -> (r: bool)
    ensures
        r == spec_needs_transfer(
            dest_exists,
            match existing_hash {
                Some(h) => Some(h@),
                None => None,
            },
            match expected_hash {
                Some(h) => Some(h@),
                None => None,
            },
        ),
{
    if !dest_exists {
        return true;
    }
    match (existing_hash, expected_hash) {
        (Some(have), Some(want)) => !crate::hashing::hash_matches(have, want),
        _ => true,
    }
}

/// A destination file that already matches the expected digest is left
/// alone: no transfer is issued for it.
pub proof fn lemma_idempotent_redownload(h: Seq<char>)
    ensures
        !spec_needs_transfer(true, Some(h), Some(h)),
{
}

/// How one transfer attempt ended, as observed by the caller that ran the
/// network and file I/O: the body was streamed to the destination and
/// hashed, the transport failed, the disk failed, or the progress
/// callback asked to stop.
pub enum AttemptOutcome {
    Completed { actual_hash: String },
    TransportFailed { detail: String },
    WriteFailed { detail: String },
    Cancelled,
}

/// The downloader's judgement of one attempt. `Reject` obliges the caller
/// to delete whatever is at the destination path before doing anything
/// else: a corrupt or partial file never stays in place.
pub enum AttemptVerdict {
    Accepted,
    Reject { error: Error },
}

/// Judges a finished attempt against the expected digest. A completed
/// transfer whose digest differs from the expected one is rejected with
/// both digests; a transport failure becomes a retryable network error; a
/// disk failure becomes a terminal I/O error; a cancellation is
/// propagated as a cancellation, never as a generic failure.
pub fn judge_attempt(outcome: AttemptOutcome, expected_hash: Option<&str>) -> (r: AttemptVerdict)
    ensures
        r is Accepted <==> match outcome {
            AttemptOutcome::Completed { actual_hash } => match expected_hash {
                Some(want) => actual_hash@ == want@,
                None => true,
            },
            _ => false,
        },
        match outcome {
            AttemptOutcome::Completed { actual_hash } => {
                match expected_hash {
                    Some(want) => actual_hash@ != want@ ==> match r {
                        AttemptVerdict::Reject { error } => match error {
                            Error::HashMismatch { expected, actual } => expected@ == want@
                                && actual@ == actual_hash@,
                            _ => false,
                        },
                        _ => false,
                    },
                    None => true,
                }
            },
            AttemptOutcome::TransportFailed { detail } => match r {
                AttemptVerdict::Reject { error } => match error {
                    Error::Network(d) => d@ == detail@,
                    _ => false,
                },
                _ => false,
            },
            AttemptOutcome::WriteFailed { detail } => match r {
                AttemptVerdict::Reject { error } => match error {
                    Error::Io(d) => d@ == detail@,
                    _ => false,
                },
                _ => false,
            },
            AttemptOutcome::Cancelled => r == (AttemptVerdict::Reject { error: Error::Cancelled }),
        },
{
    match outcome {
        AttemptOutcome::Completed { actual_hash } => {
            match expected_hash {
                Some(want) => {
                    if crate::hashing::hash_matches(actual_hash.as_str(), want) {
                        AttemptVerdict::Accepted
                    } else {
                        AttemptVerdict::Reject {
                            error: Error::HashMismatch {
                                expected: want.to_owned(),
                                actual: actual_hash,
                            },
                        }
                    }
                },
                None => AttemptVerdict::Accepted,
            }
        },
        AttemptOutcome::TransportFailed { detail } => AttemptVerdict::Reject {
            error: Error::Network(detail),
        },
        AttemptOutcome::WriteFailed { detail } => AttemptVerdict::Reject {
            error: Error::Io(detail),
        },
        AttemptOutcome::Cancelled => AttemptVerdict::Reject { error: Error::Cancelled },
    }
}

/// The end of the next chunk when streaming `len` bytes in `chunk_size`
/// steps from position `pos`.
pub fn next_chunk_end(pos: usize, chunk_size: usize, len: usize) -> (r: usize)
    requires
        pos < len,
        chunk_size > 0,
    ensures
        r == if pos + chunk_size <= len {
            pos + chunk_size
        } else {
            len as int
        },
        pos < r <= len,
{
    if chunk_size <= len - pos {
        pos + chunk_size
    } else {
        len
    }
}

/// A counting permit pool bounding how many transfers run at once. The
/// pool itself is pure state: the caller suspends around it. Shrinking
/// the limit never disturbs permits already held; it only gates new
/// acquisitions.
pub struct ConcurrencyLimiter {
    pub limit: usize,
    pub in_flight: usize,
}

impl ConcurrencyLimiter {
    pub fn new(limit: usize) -> (r: ConcurrencyLimiter)
        ensures
            r.limit == limit,
            r.in_flight == 0,
    {
        ConcurrencyLimiter { limit, in_flight: 0 }
    }

    /// Grants a permit exactly when a slot is free.
    pub fn try_acquire(&mut self) -> (r: bool)
        ensures
            r == (old(self).in_flight < old(self).limit),
            r ==> final(self).in_flight == old(self).in_flight + 1,
            !r ==> *final(self) == *old(self),
            final(self).limit == old(self).limit,
    {
        if self.in_flight < self.limit {
            self.in_flight = self.in_flight + 1;
            true
        } else {
            false
        }
    }

    /// Returns a permit.
    pub fn release(&mut self)
        requires
            old(self).in_flight > 0,
        ensures
            final(self).in_flight == old(self).in_flight - 1,
            final(self).limit == old(self).limit,
    {
        self.in_flight = self.in_flight - 1;
    }

    /// Changes the slot count for subsequent acquisitions; holders of
    /// permits are unaffected.
    pub fn set_limit(&mut self, limit: usize)
        ensures
            final(self).limit == limit,
            final(self).in_flight == old(self).in_flight,
    {
        self.limit = limit;
    }

    pub fn get_limit(&self) -> (r: usize)
        ensures
            r == self.limit,
    {
        self.limit
    }
}

} // verus!
