//! What a fetch-decrypt worker does with a segment once its bytes have
//! arrived, and how many workers a download runs.

use crunchyroll_rs::error::CrunchyrollError;
use crunchyroll_rs::media::VariantSegment;
use vstd::prelude::*;
use crate::error::DownloadError;
use crate::reassembly::Completion;

verus! {

/// A segment of a stream as the streaming service describes it: where to
/// fetch it, how long it plays, and the key that decrypts it, if it is
/// encrypted.
#[verifier::external_type_specification]
#[verifier::external_body]
pub struct ExVariantSegment(VariantSegment);

/// The error of the streaming service's client.
#[verifier::external_type_specification]
#[verifier::external_body]
pub struct ExCrunchyrollError(CrunchyrollError);

/// What `VariantSegment::decrypt` makes of `bytes` under the key of
/// `segment`: the plain text, or nothing where it fails.
pub uninterp spec fn decrypted(bytes: Seq<u8>, segment: VariantSegment) -> Option<Seq<u8>>;

/// Calls `VariantSegment::decrypt` with the key of `segment`. Without a key
/// that function hands the bytes back; with one it decrypts them in place
/// (AES-128 in CBC mode) and strips the PKCS#7 padding, or fails where the
/// length or the padding is wrong. The outcome depends on the bytes and on
/// the key of the segment alone; the contract gives it the name
/// [`decrypted`]. Either way what is returned is a part of the buffer that
/// was given, so the plain text is no longer than the input.
#[verifier::external_body]
fn decrypt(bytes: Vec<u8>, segment: &VariantSegment) -> (result: Result<
    Vec<u8>,
    CrunchyrollError,
>)
    ensures
        match result {
            Ok(plain) => decrypted(bytes@, *segment) == Some(plain@),
            Err(_) => decrypted(bytes@, *segment) is None,
        },
        result matches Ok(plain) ==> plain@.len() <= bytes@.len(),
{
    let mut bytes = bytes;
    VariantSegment::decrypt(&mut bytes, segment.key.clone()).map(|plain| plain.to_vec())
}

/// Calls `num_cpus::get`, the number of logical cores that the process may
/// use. It depends on the machine, so nothing is claimed of it.
#[verifier::external_body]
fn logical_cores() -> usize {
    num_cpus::get()
}

/// The number of workers for `cores` logical cores: one for each core, and
/// one at least.
pub fn workers_for(cores: usize) -> (workers: usize)
    ensures
        workers == if cores == 0 {
            1
        } else {
            cores as int
        },
{
    if cores == 0 {
        1
    } else {
        cores
    }
}

/// The number of workers that a download on this machine runs: one for each
/// logical core, and one at least. It is fixed when the download starts.
pub fn worker_count() -> (workers: usize)
    ensures
        workers >= 1,
{
    workers_for(logical_cores())
}

/// What a worker emits for segment `index`, given how decrypting its bytes
/// went: the plain text under the segment's index, or a fatal error that
/// names the segment. A failed decryption has a structural cause, so it is
/// never tried again.
pub fn completion_of(index: usize, decrypted: Result<Vec<u8>, CrunchyrollError>) -> (result: Result<
    Completion,
    DownloadError,
>)
    ensures
        match decrypted {
            Ok(plain) => result == Ok::<Completion, DownloadError>(
                Completion { index, payload: plain },
            ),
            Err(_) => result == Err::<Completion, DownloadError>(
                DownloadError::Decryption { index },
            ),
        },
{
    match decrypted {
        Ok(plain) => Ok(Completion { index, payload: plain }),
        Err(_) => Err(DownloadError::Decryption { index }),
    }
}

/// Turns the bytes fetched for segment `index` into the message for the
/// reassembler: decrypts them with the key of `segment` and labels the plain
/// text with the segment's index. Succeeds exactly when the decryption does,
/// and fails once and for all, naming the segment, when it does not.
pub fn complete(index: usize, fetched: Vec<u8>, segment: &VariantSegment) -> (result: Result<
    Completion,
    DownloadError,
>)
    ensures
        match decrypted(fetched@, *segment) {
            Some(plain) => result matches Ok(message) && message.index == index
                && message.payload@ == plain,
            None => result == Err::<Completion, DownloadError>(
                DownloadError::Decryption { index },
            ),
        },
        result matches Ok(message) ==> message.payload@.len() <= fetched@.len(),
{
    completion_of(index, decrypt(fetched, segment))
}

} // verus!
