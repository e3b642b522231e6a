use crunchy_cli_core::error::DownloadError;
use crunchy_cli_core::reassembly::Completion;
use crunchy_cli_core::worker::{completion_of, worker_count, workers_for};
use crunchyroll_rs::error::CrunchyrollError;

#[test]
fn there_is_one_worker_at_least() {
    assert!(worker_count() >= 1);
    assert_eq!(workers_for(0), 1);
}

#[test]
fn there_is_one_worker_for_each_core() {
    assert_eq!(workers_for(1), 1);
    assert_eq!(workers_for(8), 8);
    assert_eq!(workers_for(usize::MAX), usize::MAX);
}

#[test]
fn decrypted_bytes_are_labelled_with_their_index() {
    let message = completion_of(4, Ok(vec![1u8, 2, 3]));
    assert_eq!(message, Ok(Completion { index: 4, payload: vec![1u8, 2, 3] }));
    let empty = completion_of(0, Ok(Vec::new()));
    assert_eq!(empty, Ok(Completion { index: 0, payload: Vec::new() }));
}

#[test]
fn a_failed_decryption_names_the_segment() {
    let failure = CrunchyrollError::Decode("invalid padding".into());
    assert_eq!(completion_of(11, Err(failure)), Err(DownloadError::Decryption { index: 11 }));
}
