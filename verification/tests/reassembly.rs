use crunchy_cli_core::error::DownloadError;
use crunchy_cli_core::reassembly::{reassemble, Completion, Reassembler};

fn none() -> Vec<Vec<u8>> {
    Vec::new()
}

fn payload(index: usize) -> Vec<u8> {
    vec![index as u8, 0xAB, (index * 3) as u8]
}

fn message(index: usize) -> Completion {
    Completion { index, payload: payload(index) }
}

fn stream(total: usize) -> Vec<Vec<u8>> {
    (0..total).map(payload).collect()
}

fn permutations(items: Vec<usize>) -> Vec<Vec<usize>> {
    if items.len() <= 1 {
        return vec![items];
    }
    let mut all = Vec::new();
    for at in 0..items.len() {
        let mut rest = items.clone();
        let first = rest.remove(at);
        for mut tail in permutations(rest) {
            tail.insert(0, first);
            all.push(tail);
        }
    }
    all
}

#[test]
fn messages_in_order_are_due_at_once() {
    let mut reassembler = Reassembler::new(3);
    assert_eq!(reassembler.next_expected_index(), 0);
    assert_eq!(reassembler.accept(message(0)), Ok(vec![payload(0)]));
    assert_eq!(reassembler.next_expected_index(), 1);
    assert_eq!(reassembler.accept(message(1)), Ok(vec![payload(1)]));
    assert_eq!(reassembler.accept(message(2)), Ok(vec![payload(2)]));
    assert_eq!(reassembler.next_expected_index(), 3);
    assert_eq!(reassembler.finish(), Ok(()));
}

#[test]
fn early_messages_wait_for_their_turn() {
    let mut reassembler = Reassembler::new(4);
    assert_eq!(reassembler.accept(message(2)), Ok(none()));
    assert_eq!(reassembler.accept(message(1)), Ok(none()));
    assert_eq!(reassembler.next_expected_index(), 0);
    assert_eq!(reassembler.accept(message(0)), Ok(vec![payload(0), payload(1), payload(2)]));
    assert_eq!(reassembler.next_expected_index(), 3);
    assert_eq!(reassembler.accept(message(3)), Ok(vec![payload(3)]));
    assert_eq!(reassembler.finish(), Ok(()));
}

#[test]
fn draining_stops_at_the_first_gap() {
    let mut reassembler = Reassembler::new(6);
    assert_eq!(reassembler.accept(message(1)), Ok(none()));
    assert_eq!(reassembler.accept(message(3)), Ok(none()));
    assert_eq!(reassembler.accept(message(4)), Ok(none()));
    assert_eq!(reassembler.accept(message(0)), Ok(vec![payload(0), payload(1)]));
    assert_eq!(reassembler.next_expected_index(), 2);
    assert_eq!(reassembler.accept(message(2)), Ok(vec![payload(2), payload(3), payload(4)]));
    assert_eq!(reassembler.next_expected_index(), 5);
}

#[test]
fn every_arrival_order_gives_the_stream() {
    let total: usize = 5;
    let orders = permutations((0..total).collect());
    assert_eq!(orders.len(), 120);
    for order in orders {
        let arrivals: Vec<Completion> = order.iter().map(|index| message(*index)).collect();
        assert_eq!(reassemble(total, arrivals), Ok(stream(total)));

        let mut reassembler = Reassembler::new(total);
        let mut written: Vec<Vec<u8>> = Vec::new();
        for index in order {
            let cursor = reassembler.next_expected_index();
            let due = reassembler.accept(message(index)).unwrap();
            assert_eq!(reassembler.next_expected_index(), cursor + due.len());
            written.extend(due);
        }
        assert_eq!(written, stream(total));
        assert_eq!(reassembler.finish(), Ok(()));
    }
}

#[test]
fn a_written_segment_is_not_awaited_again() {
    let mut reassembler = Reassembler::new(3);
    assert_eq!(reassembler.accept(message(0)), Ok(vec![payload(0)]));
    assert_eq!(
        reassembler.accept(message(0)),
        Err(DownloadError::UnexpectedSegment { index: 0 })
    );
    assert_eq!(reassembler.next_expected_index(), 1);
    assert_eq!(reassembler.accept(message(1)), Ok(vec![payload(1)]));
}

#[test]
fn a_buffered_segment_is_not_awaited_again() {
    let mut reassembler = Reassembler::new(3);
    assert_eq!(reassembler.accept(message(2)), Ok(none()));
    let other = Completion { index: 2, payload: vec![9u8, 9, 9] };
    assert_eq!(reassembler.accept(other), Err(DownloadError::UnexpectedSegment { index: 2 }));
    assert_eq!(reassembler.accept(message(0)), Ok(vec![payload(0)]));
    assert_eq!(reassembler.accept(message(1)), Ok(vec![payload(1), payload(2)]));
}

#[test]
fn a_segment_beyond_the_stream_is_not_awaited() {
    let mut reassembler = Reassembler::new(3);
    assert_eq!(
        reassembler.accept(message(3)),
        Err(DownloadError::UnexpectedSegment { index: 3 })
    );
    assert_eq!(
        reassembler.accept(message(usize::MAX)),
        Err(DownloadError::UnexpectedSegment { index: usize::MAX })
    );
    let mut empty = Reassembler::new(0);
    assert_eq!(empty.accept(message(0)), Err(DownloadError::UnexpectedSegment { index: 0 }));
    assert_eq!(empty.finish(), Ok(()));
}

#[test]
fn a_channel_that_closes_early_is_an_integrity_error() {
    let mut reassembler = Reassembler::new(4);
    assert_eq!(reassembler.finish(), Err(DownloadError::Incomplete { written: 0, total: 4 }));
    assert_eq!(reassembler.accept(message(0)), Ok(vec![payload(0)]));
    assert_eq!(reassembler.accept(message(2)), Ok(none()));
    assert_eq!(reassembler.accept(message(3)), Ok(none()));
    assert_eq!(reassembler.finish(), Err(DownloadError::Incomplete { written: 1, total: 4 }));
}

#[test]
fn reassemble_reports_a_missing_segment() {
    let arrivals = vec![message(2), message(0)];
    assert_eq!(
        reassemble(3, arrivals),
        Err(DownloadError::Incomplete { written: 1, total: 3 })
    );
    assert_eq!(reassemble(2, vec![]), Err(DownloadError::Incomplete { written: 0, total: 2 }));
}

#[test]
fn reassemble_reports_the_first_message_not_awaited() {
    let arrivals = vec![message(1), message(0), message(1), message(5), message(2)];
    assert_eq!(reassemble(3, arrivals), Err(DownloadError::UnexpectedSegment { index: 1 }));
    let beyond = vec![message(0), message(7), message(0)];
    assert_eq!(reassemble(3, beyond), Err(DownloadError::UnexpectedSegment { index: 7 }));
}

#[test]
fn reassemble_of_an_empty_stream_is_empty() {
    assert_eq!(reassemble(0, vec![]), Ok(none()));
}

#[test]
fn empty_payloads_are_written_like_any_other() {
    let arrivals = vec![
        Completion { index: 1, payload: Vec::new() },
        Completion { index: 0, payload: vec![1u8] },
    ];
    let expected: Vec<Vec<u8>> = vec![vec![1u8], Vec::new()];
    assert_eq!(reassemble(2, arrivals), Ok(expected));
}
