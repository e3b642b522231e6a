use crunchy_cli_core::partition::{partition, segment_index};
use crunchy_cli_core::progress::Progress;
use crunchy_cli_core::reassembly::{reassemble, Completion, Reassembler};
use crunchy_cli_core::retry::{FetchAttempts, FetchOutcome};
use crunchy_cli_core::worker::completion_of;

fn bytes_of(index: usize) -> Vec<u8> {
    vec![index as u8; index + 1]
}

#[test]
fn nine_segments_three_workers_reverse_arrival() {
    let segments: Vec<usize> = (0..9).collect();
    let parts = partition(segments, 3);
    let dealt: Vec<Vec<usize>> = vec![vec![0, 3, 6], vec![1, 4, 7], vec![2, 5, 8]];
    assert_eq!(parts, dealt);

    let mut emitted: Vec<Completion> = Vec::new();
    for (worker, part) in parts.iter().enumerate() {
        for (slot, segment) in part.iter().enumerate() {
            let index = segment_index(worker, slot, 3).unwrap();
            assert_eq!(index, *segment);
            emitted.push(completion_of(index, Ok(bytes_of(index))).unwrap());
        }
    }
    emitted.sort_by_key(|message| std::cmp::Reverse(message.index));
    let arrival: Vec<usize> = emitted.iter().map(|message| message.index).collect();
    let reversed: Vec<usize> = vec![8, 7, 6, 5, 4, 3, 2, 1, 0];
    assert_eq!(arrival, reversed);

    let mut reassembler = Reassembler::new(9);
    let mut sink: Vec<u8> = Vec::new();
    let mut writes: Vec<usize> = Vec::new();
    for message in emitted {
        for due in reassembler.accept(message).unwrap() {
            writes.push(due.len() - 1);
            sink.extend(due);
        }
    }
    assert_eq!(reassembler.finish(), Ok(()));
    let in_order: Vec<usize> = vec![0, 1, 2, 3, 4, 5, 6, 7, 8];
    assert_eq!(writes, in_order);
    let expected: Vec<u8> = (0..9).flat_map(bytes_of).collect();
    assert_eq!(sink, expected);
}

#[test]
fn workers_that_finish_at_their_own_pace() {
    let total: usize = 10;
    let workers: usize = 4;
    let parts = partition((0..total).collect::<Vec<usize>>(), workers);
    let mut arrivals: Vec<Completion> = Vec::new();
    for worker in [3usize, 1, 0, 2] {
        for (slot, _) in parts[worker].iter().enumerate() {
            let index = segment_index(worker, slot, workers).unwrap();
            arrivals.push(Completion { index, payload: bytes_of(index) });
        }
    }
    let expected: Vec<Vec<u8>> = (0..total).map(bytes_of).collect();
    assert_eq!(reassemble(total, arrivals), Ok(expected));
}

#[test]
fn a_download_with_a_flaky_transport_and_progress() {
    let total: usize = 6;
    let failures_before_success: Vec<u32> = vec![0, 4, 1, 0, 3, 2];
    let mut progress = Progress::new(80, vec![2; total]).unwrap();
    assert_eq!(progress.total_estimate(), 120);
    let mut reassembler = Reassembler::new(total);
    let mut written: Vec<Vec<u8>> = Vec::new();
    for index in [5usize, 2, 0, 1, 4, 3] {
        let mut attempts = FetchAttempts::new();
        let mut made: u32 = 0;
        let outcome = loop {
            let succeeded = made == failures_before_success[index];
            made += 1;
            match attempts.record(succeeded) {
                FetchOutcome::Unfinished => continue,
                outcome => break outcome,
            }
        };
        assert_eq!(outcome, FetchOutcome::Delivered);
        let message = completion_of(index, Ok(bytes_of(index))).unwrap();
        assert_eq!(progress.reconcile(index, message.payload.len() as u64), Ok(()));
        assert!(progress.consumed() <= progress.total_estimate());
        written.extend(reassembler.accept(message).unwrap());
    }
    assert_eq!(reassembler.finish(), Ok(()));
    let expected: Vec<Vec<u8>> = (0..total).map(bytes_of).collect();
    assert_eq!(written, expected);
    assert_eq!(progress.consumed(), 21);
    assert_eq!(progress.total_estimate(), 21);
}
