//! The reorder buffer that turns completion messages, which arrive in any
//! order, into writes in stream order.
//!
//! The reassembler keeps a write cursor, the index of the next segment the
//! sink is owed, and a buffer of the payloads that arrived ahead of their
//! turn. A payload is handed out the moment it is contiguous with the cursor,
//! so what is handed out over time is the stream, segment by segment.

use std::collections::BTreeMap;
use vstd::prelude::*;
use crate::error::DownloadError;

verus! {

/// What a worker emits for one segment: its position in the stream and its
/// decrypted bytes.
#[derive(Debug, PartialEq, Eq)]
pub struct Completion {
    pub index: usize,
    pub payload: Vec<u8>,
}

/// The state of a reassembly: the write cursor `next`, the number `total` of
/// segments in the stream, and the payloads that wait for their turn.
pub struct Reassembly {
    pub next: usize,
    pub total: usize,
    pub pending: Map<usize, Seq<u8>>,
}

/// How many consecutive indices, starting at `from` and below `total`, `held`
/// has a payload for.
pub open spec fn run_length(held: Map<usize, Seq<u8>>, from: int, total: int) -> nat
    decreases total - from,
{
    if 0 <= from < total && held.contains_key(from as usize) {
        1 + run_length(held, from + 1, total)
    } else {
        0
    }
}

impl Reassembly {
    /// The state before any message: nothing written, nothing buffered.
    pub open spec fn start(total: usize) -> Reassembly {
        Reassembly { next: 0, total, pending: Map::empty() }
    }

    /// The cursor is within the stream, and what is buffered lies strictly
    /// ahead of it.
    pub open spec fn wf(self) -> bool {
        &&& self.next <= self.total
        &&& forall|k: usize| #[trigger]
            self.pending.contains_key(k) ==> self.next < k && k < self.total
    }

    /// Whether a message for `index` is awaited: the segment exists and was
    /// neither written nor buffered yet.
    pub open spec fn accepts(self, index: usize) -> bool {
        self.next <= index && index < self.total && !self.pending.contains_key(index)
    }

    /// The buffer with the payload of `index` added.
    pub open spec fn held_with(self, index: usize, payload: Seq<u8>) -> Map<usize, Seq<u8>> {
        self.pending.insert(index, payload)
    }

    /// How many payloads become contiguous with the cursor when `index`
    /// arrives.
    pub open spec fn released(self, index: usize, payload: Seq<u8>) -> nat {
        run_length(self.held_with(index, payload), self.next as int, self.total as int)
    }

    /// The payloads handed to the sink when `index` arrives, in stream order:
    /// those of the indices from the cursor up to the first one that is still
    /// missing.
    pub open spec fn emitted(self, index: usize, payload: Seq<u8>) -> Seq<Seq<u8>> {
        Seq::new(
            self.released(index, payload),
            |i: int| self.held_with(index, payload)[(self.next + i) as usize],
        )
    }

    /// The state after an awaited message for `index`: the cursor has passed
    /// what was handed out, and the rest stays buffered.
    pub open spec fn accept(self, index: usize, payload: Seq<u8>) -> Reassembly {
        let released = self.released(index, payload);
        Reassembly {
            next: (self.next + released) as usize,
            total: self.total,
            pending: self.held_with(index, payload).remove_keys(
                Set::new(|k: usize| self.next <= k && k < self.next + released),
            ),
        }
    }

    /// Every segment of the stream has been handed out.
    pub open spec fn complete(self) -> bool {
        self.next == self.total
    }
}

/// The views of the payloads of `v`, in order.
pub open spec fn payloads(v: Seq<Vec<u8>>) -> Seq<Seq<u8>> {
    Seq::new(v.len(), |i: int| v[i]@)
}

/// What `buffer` holds, each payload by its view.
pub open spec fn pending_of(buffer: Map<usize, Vec<u8>>) -> Map<usize, Seq<u8>> {
    Map::new(|k: usize| buffer.contains_key(k), |k: usize| buffer[k]@)
}

/// The messages of `v`, each as its index and the view of its payload.
pub open spec fn completions(v: Seq<Completion>) -> Seq<(usize, Seq<u8>)> {
    Seq::new(v.len(), |i: int| (v[i].index, v[i].payload@))
}

/// `outcome` with `prefix` put before what it handed out.
pub open spec fn prefixed(
    prefix: Seq<Seq<u8>>,
    outcome: Result<(Reassembly, Seq<Seq<u8>>), DownloadError>,
) -> Result<(Reassembly, Seq<Seq<u8>>), DownloadError> {
    match outcome {
        Ok((last, rest)) => Ok((last, prefix + rest)),
        Err(error) => Err(error),
    }
}

/// Feeds `messages` to the reassembly `state`, in the order of their arrival.
/// The outcome is the state they leave together with everything that was
/// handed out on the way, or the error of the first message that was not
/// awaited.
pub open spec fn replay(state: Reassembly, messages: Seq<(usize, Seq<u8>)>) -> Result<
    (Reassembly, Seq<Seq<u8>>),
    DownloadError,
>
    decreases messages.len(),
{
    if messages.len() == 0 {
        Ok((state, Seq::empty()))
    } else if !state.accepts(messages[0].0) {
        Err(DownloadError::UnexpectedSegment { index: messages[0].0 })
    } else {
        prefixed(
            state.emitted(messages[0].0, messages[0].1),
            replay(state.accept(messages[0].0, messages[0].1), messages.drop_first()),
        )
    }
}

/// What the sink receives when `messages` is all that arrives before the
/// channel closes: the stream, if every message was awaited and no segment is
/// missing at the end.
pub open spec fn reassembled(total: usize, messages: Seq<(usize, Seq<u8>)>) -> Result<
    Seq<Seq<u8>>,
    DownloadError,
> {
    match replay(Reassembly::start(total), messages) {
        Ok((last, written)) => if last.complete() {
            Ok(written)
        } else {
            Err(DownloadError::Incomplete { written: last.next, total: last.total })
        },
        Err(error) => Err(error),
    }
}

/// `order` names each index below `n` exactly once.
pub open spec fn is_permutation(order: Seq<usize>, n: nat) -> bool {
    &&& order.len() == n
    &&& forall|j: int| 0 <= j < order.len() ==> (#[trigger] order[j]) < n
    &&& forall|i: int, j: int| 0 <= i < j < order.len() ==> order[i] != order[j]
    &&& forall|k: usize| k < n ==> #[trigger] order.contains(k)
}

/// The completion messages of the segments of `stream`, arriving in the order
/// `order`: the message at position `j` carries segment `order[j]`.
pub open spec fn arrivals(stream: Seq<Seq<u8>>, order: Seq<usize>) -> Seq<(usize, Seq<u8>)> {
    Seq::new(order.len(), |j: int| (order[j], stream[order[j] as int]))
}

/// Whether a message for `index` is among `messages`.
pub open spec fn carries(messages: Seq<(usize, Seq<u8>)>, index: usize) -> bool {
    exists|j: int| 0 <= j < messages.len() && (#[trigger] messages[j]).0 == index
}

/// The single consumer of the completion messages of one download.
pub struct Reassembler {
    next: usize,
    total: usize,
    buffer: BTreeMap<usize, Vec<u8>>,
}

impl View for Reassembler {
    type V = Reassembly;

    closed spec fn view(&self) -> Reassembly {
        Reassembly { next: self.next, total: self.total, pending: pending_of(self.buffer@) }
    }
}

impl Reassembler {
    /// Between calls the cursor is within the stream and the buffer holds
    /// only what lies strictly ahead of it.
    #[verifier::type_invariant]
    spec fn well_formed(self) -> bool {
        self@.wf()
    }

    /// A reassembler for a stream of `total` segments.
    pub fn new(total: usize) -> (r: Reassembler)
        ensures
            r@ == Reassembly::start(total),
            r@.wf(),
    {
        let r = Reassembler { next: 0, total, buffer: BTreeMap::new() };
        assert(r@.pending =~= Map::empty());
        r
    }

    /// The write cursor: the index of the next segment owed to the sink, which
    /// is also the number of segments handed out so far.
    pub fn next_expected_index(&self) -> (next: usize)
        ensures
            next == self@.next,
            self@.wf(),
    {
        proof {
            use_type_invariant(self);
        }
        self.next
    }

    /// Takes one completion message and returns the payloads that are now due,
    /// in stream order; the caller writes them to the sink in that order.
    ///
    /// A message for the cursor's index is due at once, together with every
    /// buffered payload that follows it without a gap. A message for a later
    /// index is buffered and nothing is due. A message that is not awaited
    /// is refused and changes nothing.
    pub fn accept(&mut self, message: Completion) -> (result: Result<Vec<Vec<u8>>, DownloadError>)
        ensures
            final(self)@.wf(),
            match result {
                Ok(due) => {
                    &&& old(self)@.accepts(message.index)
                    &&& final(self)@ == old(self)@.accept(message.index, message.payload@)
                    &&& payloads(due@) == old(self)@.emitted(message.index, message.payload@)
                    &&& final(self)@.next == old(self)@.next + due@.len()
                },
                Err(error) => {
                    &&& !old(self)@.accepts(message.index)
                    &&& final(self)@ == old(self)@
                    &&& error == DownloadError::UnexpectedSegment { index: message.index }
                },
            },
    {
        proof {
            use_type_invariant(&*self);
        }
        let Completion { index, payload } = message;
        if index < self.next || index >= self.total || self.buffer.contains_key(&index) {
            return Err(DownloadError::UnexpectedSegment { index });
        }
        let ghost before = self@;
        let ghost held = before.held_with(index, payload@);
        let mut due: Vec<Vec<u8>> = Vec::new();
        let mut cursor: usize = self.next;
        // The buffer is worked on outside of `self` and put back at the end,
        // so that `self` is well formed at every step in between.
        let mut buffer: BTreeMap<usize, Vec<u8>> = BTreeMap::new();
        assert(pending_of(buffer@) =~= Map::<usize, Seq<u8>>::empty());
        core::mem::swap(&mut self.buffer, &mut buffer);
        if index == cursor {
            due.push(payload);
            cursor = cursor + 1;
        } else {
            buffer.insert(index, payload);
        }
        assert(pending_of(buffer@) =~= held.remove_keys(
            Set::new(|k: usize| before.next <= k && k < cursor),
        ));
        loop
            invariant
                before.wf(),
                before.accepts(index),
                held == before.pending.insert(index, message.payload@),
                before.next <= cursor <= before.total,
                due@.len() == cursor - before.next,
                forall|k: usize| before.next <= k < cursor ==> #[trigger] held.contains_key(k),
                forall|k: usize|
                    before.next <= k < cursor ==> due@[k - before.next]@ == #[trigger] held[k],
                pending_of(buffer@) == held.remove_keys(
                    Set::new(|k: usize| before.next <= k && k < cursor),
                ),
            ensures
                cursor == before.total || !held.contains_key(cursor),
                run_length(held, before.next as int, before.total as int) == cursor - before.next,
            decreases before.total - cursor,
        {
            let ghost buffered = buffer@;
            match buffer.remove(&cursor) {
                Some(waiting) => {
                    proof {
                        assert(pending_of(buffered).contains_key(cursor));
                        assert(held.contains_key(cursor));
                        assert(waiting == buffered[cursor]);
                        assert(pending_of(buffered)[cursor] == waiting@);
                        assert(waiting@ == held[cursor]);
                        assert(buffer@ == buffered.remove(cursor));
                        let kept = held.remove_keys(
                            Set::new(|k: usize| before.next <= k && k < cursor + 1),
                        );
                        let earlier = held.remove_keys(
                            Set::new(|k: usize| before.next <= k && k < cursor),
                        );
                        assert(pending_of(buffered) == earlier);
                        assert forall|k: usize|
                            kept.contains_key(k) == #[trigger] pending_of(buffer@).contains_key(
                                k,
                            ) by {
                            assert(earlier.contains_key(k) == buffered.contains_key(k));
                            assert(buffer@.contains_key(k) == (buffered.contains_key(k) && k
                                != cursor));
                            assert(kept.contains_key(k) == (earlier.contains_key(k) && k
                                != cursor));
                        }
                        assert forall|k: usize| #[trigger]
                            kept.contains_key(k) implies kept[k] == pending_of(buffer@)[k] by {
                            assert(earlier.contains_key(k));
                            assert(earlier[k] == buffered[k]@);
                            assert(buffer@[k] == buffered[k]);
                        }
                        assert(kept.dom() =~= pending_of(buffer@).dom());
                        assert(pending_of(buffer@) =~= kept);
                    }
                    due.push(waiting);
                    cursor = cursor + 1;
                },
                None => {
                    proof {
                        assert(!pending_of(buffered).contains_key(cursor));
                        assert(!held.contains_key(cursor));
                        lemma_run_length_counts(
                            held,
                            before.next as int,
                            cursor as int,
                            before.total as int,
                        );
                    }
                    break ;
                },
            }
        }
        proof {
            assert(before.released(index, message.payload@) == cursor - before.next);
            assert(payloads(due@) =~= before.emitted(index, message.payload@));
        }
        self.next = cursor;
        proof {
            assert(pending_of(buffer@) =~= before.accept(index, message.payload@).pending);
            assert forall|k: usize| #[trigger] pending_of(buffer@).contains_key(k) implies cursor
                < k && k < before.total by {
                assert(held.contains_key(k));
                assert(k == index || before.pending.contains_key(k));
            }
        }
        core::mem::swap(&mut self.buffer, &mut buffer);
        Ok(due)
    }

    /// Called when the completion channel has closed: succeeds exactly when
    /// every segment was handed out, and reports an integrity error when some
    /// are missing.
    pub fn finish(&self) -> (result: Result<(), DownloadError>)
        ensures
            self@.wf(),
            match result {
                Ok(()) => self@.complete(),
                Err(error) => {
                    &&& !self@.complete()
                    &&& error == DownloadError::Incomplete {
                        written: self@.next,
                        total: self@.total,
                    }
                },
            },
    {
        proof {
            use_type_invariant(self);
        }
        if self.next == self.total {
            Ok(())
        } else {
            Err(DownloadError::Incomplete { written: self.next, total: self.total })
        }
    }
}

/// If `held` has every index from `from` up to `upto`, and not `upto` itself
/// (or the stream ends there), the run that starts at `from` has length
/// `upto - from`.
pub proof fn lemma_run_length_counts(held: Map<usize, Seq<u8>>, from: int, upto: int, total: int)
    requires
        0 <= from <= upto <= total <= usize::MAX,
        forall|k: usize| from <= k < upto ==> #[trigger] held.contains_key(k),
        upto == total || !held.contains_key(upto as usize),
    ensures
        run_length(held, from, total) == upto - from,
    decreases upto - from,
{
    if from < upto {
        assert(held.contains_key(from as usize));
        lemma_run_length_counts(held, from + 1, upto, total);
    }
}

/// Reassembles a whole download from the completion messages in the order of
/// their arrival, and returns the payloads in stream order.
///
/// Fails with the error of the first message that was not awaited, and with
/// an integrity error if the messages end while segments are missing.
pub fn reassemble(total: usize, messages: Vec<Completion>) -> (result: Result<
    Vec<Vec<u8>>,
    DownloadError,
>)
    ensures
        match result {
            Ok(stream) => reassembled(total, completions(messages@)) == Ok::<
                Seq<Seq<u8>>,
                DownloadError,
            >(payloads(stream@)),
            Err(error) => reassembled(total, completions(messages@)) == Err::<
                Seq<Seq<u8>>,
                DownloadError,
            >(error),
        },
{
    let ghost all = completions(messages@);
    let ghost begin = Reassembly::start(total);
    let mut reassembler = Reassembler::new(total);
    let mut stream: Vec<Vec<u8>> = Vec::new();
    assert(all.skip(0) =~= all);
    assert(payloads(stream@) =~= Seq::<Seq<u8>>::empty());
    assert(prefixed(payloads(stream@), replay(begin, all)) == replay(begin, all)) by {
        lemma_prefixed_empty(replay(begin, all));
    }
    for message in iter: messages
        invariant
            iter.seq() == messages@,
            all == completions(messages@),
            begin == Reassembly::start(total),
            replay(begin, all) == prefixed(
                payloads(stream@),
                replay(reassembler@, all.skip(iter.index() as int)),
            ),
    {
        let ghost i = iter.index() as int;
        let ghost state = reassembler@;
        let ghost written = payloads(stream@);
        proof {
            assert(all.skip(i)[0] == all[i]);
            assert(all[i] == (message.index, message.payload@));
            assert(all.skip(i).drop_first() =~= all.skip(i + 1));
        }
        match reassembler.accept(message) {
            Ok(due) => {
                let mut due = due;
                let ghost emitted = payloads(due@);
                stream.append(&mut due);
                proof {
                    assert(payloads(stream@) =~= written + emitted);
                    lemma_prefixed_twice(written, emitted, replay(reassembler@, all.skip(i + 1)));
                }
            },
            Err(error) => {
                return Err(error);
            },
        }
    }
    proof {
        assert(all.skip(messages@.len() as int) =~= Seq::<(usize, Seq<u8>)>::empty());
        assert(payloads(stream@) + Seq::<Seq<u8>>::empty() =~= payloads(stream@));
    }
    match reassembler.finish() {
        Ok(()) => Ok(stream),
        Err(error) => Err(error),
    }
}

/// Putting nothing before an outcome leaves it as it is.
proof fn lemma_prefixed_empty(outcome: Result<(Reassembly, Seq<Seq<u8>>), DownloadError>)
    ensures
        prefixed(Seq::empty(), outcome) == outcome,
{
    match outcome {
        Ok((last, rest)) => {
            assert(Seq::<Seq<u8>>::empty() + rest =~= rest);
        },
        Err(_) => {},
    }
}

/// Putting `second` and then `first` before an outcome puts their
/// concatenation before it.
proof fn lemma_prefixed_twice(
    first: Seq<Seq<u8>>,
    second: Seq<Seq<u8>>,
    outcome: Result<(Reassembly, Seq<Seq<u8>>), DownloadError>,
)
    ensures
        prefixed(first, prefixed(second, outcome)) == prefixed(first + second, outcome),
{
    match outcome {
        Ok((last, rest)) => {
            assert(first + (second + rest) =~= (first + second) + rest);
        },
        Err(_) => {},
    }
}

/// The run of buffered payloads that starts at `from` stays within the
/// stream, holds only buffered indices, and ends at the first index that is
/// not buffered.
pub proof fn lemma_run_length_is_maximal(held: Map<usize, Seq<u8>>, from: int, total: int)
    requires
        0 <= from <= total <= usize::MAX,
    ensures
        from + run_length(held, from, total) <= total,
        forall|k: usize|
            from <= k < from + run_length(held, from, total) ==> #[trigger] held.contains_key(k),
        from + run_length(held, from, total) == total || !held.contains_key(
            (from + run_length(held, from, total)) as usize,
        ),
    decreases total - from,
{
    if from < total && held.contains_key(from as usize) {
        lemma_run_length_is_maximal(held, from + 1, total);
    }
}

/// An awaited message keeps the reassembly well formed: the cursor stays
/// within the stream and never skips a segment that has not arrived, and the
/// buffer holds only indices strictly ahead of the cursor.
pub proof fn lemma_accept_keeps_order(state: Reassembly, index: usize, payload: Seq<u8>)
    requires
        state.wf(),
        state.accepts(index),
    ensures
        state.accept(index, payload).wf(),
        state.next <= state.accept(index, payload).next,
        state.accept(index, payload).next == state.next + state.emitted(index, payload).len(),
        index != state.next ==> state.emitted(index, payload).len() == 0,
        index == state.next ==> state.emitted(index, payload).len() >= 1 && state.emitted(
            index,
            payload,
        )[0] == payload,
        !state.accept(index, payload).pending.contains_key(state.accept(index, payload).next),
{
    let held = state.held_with(index, payload);
    lemma_run_length_is_maximal(held, state.next as int, state.total as int);
    let after = state.accept(index, payload);
    assert forall|k: usize| #[trigger] after.pending.contains_key(k) implies after.next < k && k
        < after.total by {
        assert(held.contains_key(k));
        assert(k == index || state.pending.contains_key(k));
    }
    if index != state.next {
        assert(!held.contains_key(state.next));
    }
}

/// Replaying, onto a well-formed reassembly whose buffer holds segments of
/// `stream`, messages that bring each missing segment of `stream` exactly
/// once hands out the rest of the stream in order and leaves the reassembly
/// complete, with nothing buffered.
pub proof fn lemma_replay_completes(
    state: Reassembly,
    messages: Seq<(usize, Seq<u8>)>,
    stream: Seq<Seq<u8>>,
)
    requires
        state.wf(),
        stream.len() == state.total,
        forall|k: usize| #[trigger]
            state.pending.contains_key(k) ==> state.pending[k] == stream[k as int],
        forall|j: int|
            0 <= j < messages.len() ==> state.accepts((#[trigger] messages[j]).0) && messages[j].1
                == stream[messages[j].0 as int],
        forall|i: int, j: int|
            0 <= i < j < messages.len() ==> (#[trigger] messages[i]).0 != (#[trigger] messages[j]).0,
        forall|k: usize|
            state.next <= k < state.total && !state.pending.contains_key(k) ==> #[trigger] carries(
                messages,
                k,
            ),
    ensures
        replay(state, messages) is Ok,
        replay(state, messages)->Ok_0.0.complete(),
        replay(state, messages)->Ok_0.0.total == state.total,
        replay(state, messages)->Ok_0.0.pending == Map::<usize, Seq<u8>>::empty(),
        replay(state, messages)->Ok_0.1 == stream.subrange(state.next as int, state.total as int),
    decreases messages.len(),
{
    if messages.len() == 0 {
        if state.next < state.total {
            assert(!state.pending.contains_key(state.next));
            assert(carries(messages, state.next));
        }
        assert(state.pending =~= Map::<usize, Seq<u8>>::empty());
        assert(stream.subrange(state.next as int, state.total as int) =~= Seq::<
            Seq<u8>,
        >::empty());
    } else {
        let index = messages[0].0;
        let payload = messages[0].1;
        let held = state.held_with(index, payload);
        let after = state.accept(index, payload);
        let rest = messages.drop_first();
        assert(state.accepts(index));
        lemma_run_length_is_maximal(held, state.next as int, state.total as int);
        lemma_accept_keeps_order(state, index, payload);
        assert forall|k: usize| #[trigger] after.pending.contains_key(k) implies after.pending[k]
            == stream[k as int] by {
            assert(held.contains_key(k));
        }
        assert forall|j: int| 0 <= j < rest.len() implies after.accepts((#[trigger] rest[j]).0)
            && rest[j].1 == stream[rest[j].0 as int] by {
            assert(rest[j] == messages[j + 1]);
            assert(state.accepts(messages[j + 1].0));
            assert(messages[0].0 != messages[j + 1].0);
            assert(!held.contains_key(rest[j].0));
        }
        assert forall|i: int, j: int| 0 <= i < j < rest.len() implies (#[trigger] rest[i]).0 != (
        #[trigger] rest[j]).0 by {
            assert(rest[i] == messages[i + 1]);
            assert(rest[j] == messages[j + 1]);
        }
        assert forall|k: usize|
            after.next <= k < after.total && !after.pending.contains_key(k) implies #[trigger] carries(
            rest,
            k,
        ) by {
            assert(!held.contains_key(k));
            assert(!state.pending.contains_key(k));
            assert(carries(messages, k));
            let j = choose|j: int| 0 <= j < messages.len() && (#[trigger] messages[j]).0 == k;
            assert(j != 0);
            assert(rest[j - 1] == messages[j]);
        }
        lemma_replay_completes(after, rest, stream);
        let emitted = state.emitted(index, payload);
        assert(emitted =~= stream.subrange(state.next as int, after.next as int)) by {
            assert forall|i: int| 0 <= i < emitted.len() implies emitted[i] == stream[state.next
                + i] by {
                let k = (state.next + i) as usize;
                assert(held.contains_key(k));
            }
        }
        assert(emitted + stream.subrange(after.next as int, state.total as int)
            =~= stream.subrange(state.next as int, state.total as int));
    }
}

/// Whatever the order in which the segments of a stream complete, the
/// reassembler hands their payloads out in stream order, each of them once
/// and none missing, and ends complete with an empty buffer.
pub proof fn lemma_arrival_order_is_immaterial(stream: Seq<Seq<u8>>, order: Seq<usize>)
    requires
        stream.len() <= usize::MAX,
        is_permutation(order, stream.len()),
    ensures
        reassembled(stream.len() as usize, arrivals(stream, order)) == Ok::<
            Seq<Seq<u8>>,
            DownloadError,
        >(stream),
        replay(Reassembly::start(stream.len() as usize), arrivals(stream, order)) is Ok,
        replay(
            Reassembly::start(stream.len() as usize),
            arrivals(stream, order),
        )->Ok_0.0.pending == Map::<usize, Seq<u8>>::empty(),
{
    let begin = Reassembly::start(stream.len() as usize);
    let messages = arrivals(stream, order);
    assert forall|k: usize|
        begin.next <= k < begin.total && !begin.pending.contains_key(k) implies #[trigger] carries(
        messages,
        k,
    ) by {
        assert(order.contains(k));
        let j = choose|j: int| 0 <= j < order.len() && order[j] == k;
        assert(messages[j].0 == k);
    }
    lemma_replay_completes(begin, messages, stream);
    assert(stream.subrange(0, stream.len() as int) =~= stream);
}

} // verus!
