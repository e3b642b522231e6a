//! The work partitioner: an ordered list is dealt out to a fixed number of
//! workers in turn, so that worker `w` of `n` gets the items at the stream
//! positions `w`, `w + n`, `w + 2n`, ... in that order.
//!
//! Dealing in turn, rather than in contiguous blocks, keeps the workers
//! evenly loaded when the early segments of a stream are larger or slower
//! than the late ones.

use vstd::prelude::*;

verus! {

/// The stream position of the item at `slot` of the sub-list of `worker`.
pub open spec fn slot_index(workers: int, worker: int, slot: int) -> int {
    worker + slot * workers
}

/// How many of the first `count` stream positions fall to `worker`.
pub open spec fn share_len(count: int, workers: int, worker: int) -> int {
    if worker < count {
        (count - worker - 1) / workers + 1
    } else {
        0
    }
}

/// The sub-list of `worker`: the items of `items` at the positions that leave
/// the remainder `worker` when divided by `workers`, in the order of the stream.
pub open spec fn share<T>(items: Seq<T>, workers: int, worker: int) -> Seq<T> {
    Seq::new(
        share_len(items.len() as int, workers, worker) as nat,
        |slot: int| items[slot_index(workers, worker, slot)],
    )
}

/// The stream positions `0`, `1`, ..., `count - 1`.
pub open spec fn positions(count: nat) -> Seq<int> {
    Seq::new(count, |i: int| i)
}

/// A slot lies in the sub-list of a worker exactly when its stream position
/// lies in the stream.
pub proof fn lemma_share_slots(count: int, workers: int, worker: int, slot: int)
    requires
        workers >= 1,
        0 <= worker < workers,
        0 <= count,
    ensures
        (0 <= slot < share_len(count, workers, worker)) <==> (0 <= slot && slot_index(
            workers,
            worker,
            slot,
        ) < count),
{
    if worker < count {
        let room = count - worker - 1;
        let full = room / workers;
        assert(room == full * workers + room % workers && 0 <= room % workers < workers) by {
            vstd::arithmetic::div_mod::lemma_fundamental_div_mod(room, workers);
            vstd::arithmetic::div_mod::lemma_mod_bound(room, workers);
            assert(workers * full == full * workers) by (nonlinear_arith);
        }
        if 0 <= slot {
            if slot <= full {
                assert(slot * workers <= full * workers) by (nonlinear_arith)
                    requires
                        slot <= full,
                        workers >= 1,
                ;
            } else {
                assert(slot * workers >= (full + 1) * workers) by (nonlinear_arith)
                    requires
                        slot >= full + 1,
                        workers >= 1,
                ;
                assert((full + 1) * workers == full * workers + workers) by (nonlinear_arith);
            }
        }
    } else {
        if 0 <= slot {
            assert(slot * workers >= 0) by (nonlinear_arith)
                requires
                    slot >= 0,
                    workers >= 1,
            ;
        }
    }
}

/// The one slot that holds the stream position `index` is slot
/// `index / workers` of worker `index % workers`.
pub proof fn lemma_slot_of_index(workers: int, worker: int, slot: int, index: int)
    requires
        workers >= 1,
        0 <= worker < workers,
        0 <= slot,
        0 <= index,
    ensures
        slot_index(workers, worker, slot) == index <==> (worker == index % workers && slot == index
            / workers),
{
    vstd::arithmetic::div_mod::lemma_fundamental_div_mod(index, workers);
    vstd::arithmetic::div_mod::lemma_mod_bound(index, workers);
    assert(workers * (index / workers) == (index / workers) * workers) by (nonlinear_arith);
    if slot_index(workers, worker, slot) == index {
        vstd::arithmetic::div_mod::lemma_fundamental_div_mod_converse(
            index,
            workers,
            slot,
            worker,
        );
    }
}

/// One more item in the stream lengthens the sub-list of one worker by one,
/// at its end, and leaves the others as they are.
pub proof fn lemma_share_len_step(count: int, workers: int, worker: int)
    requires
        workers >= 1,
        0 <= worker < workers,
        0 <= count,
    ensures
        worker == count % workers ==> share_len(count + 1, workers, worker) == share_len(
            count,
            workers,
            worker,
        ) + 1 && slot_index(workers, worker, share_len(count, workers, worker)) == count,
        worker != count % workers ==> share_len(count + 1, workers, worker) == share_len(
            count,
            workers,
            worker,
        ),
        0 <= share_len(count, workers, worker),
{
    let old_len = share_len(count, workers, worker);
    let new_len = share_len(count + 1, workers, worker);
    let at = count / workers;
    assert(0 <= old_len && 0 <= new_len) by {
        if worker < count {
            vstd::arithmetic::div_mod::lemma_div_pos_is_pos(count - worker - 1, workers);
        }
        if worker < count + 1 {
            vstd::arithmetic::div_mod::lemma_div_pos_is_pos(count - worker, workers);
        }
    }
    assert(slot_index(workers, worker, old_len + 1) == slot_index(workers, worker, old_len)
        + workers) by (nonlinear_arith);
    // the sub-list does not shrink
    lemma_share_slots(count, workers, worker, new_len);
    lemma_share_slots(count + 1, workers, worker, new_len);
    assert(old_len <= new_len);
    // and grows by one item at most
    lemma_share_slots(count + 1, workers, worker, old_len + 1);
    lemma_share_slots(count, workers, worker, old_len);
    assert(new_len <= old_len + 1);
    // it grows exactly when its next slot holds the new position
    lemma_share_slots(count + 1, workers, worker, old_len);
    lemma_slot_of_index(workers, worker, old_len, count);
    if worker == count % workers {
        vstd::arithmetic::div_mod::lemma_div_pos_is_pos(count, workers);
        lemma_slot_of_index(workers, worker, at, count);
        lemma_share_slots(count, workers, worker, at);
        lemma_share_slots(count + 1, workers, worker, at);
        assert(old_len <= at < new_len);
    }
}

/// Dealing the stream positions out to the workers places every position in
/// the sub-list of exactly one worker, exactly once, and keeps each sub-list
/// in ascending order: the sub-lists are pairwise disjoint, and together
/// they hold the positions of the stream and nothing else.
pub proof fn lemma_partition_covers_each_index_once(count: nat, workers: nat)
    requires
        workers >= 1,
    ensures
        forall|i: int|
            0 <= i < count ==> 0 <= i % (workers as int) < workers && #[trigger] share(
                positions(count),
                workers as int,
                i % (workers as int),
            ).contains(i),
        forall|w: int, i: int|
            0 <= w < workers && #[trigger] share(positions(count), workers as int, w).contains(i)
                ==> 0 <= i < count && i % (workers as int) == w,
        forall|w: int, a: int, b: int|
            0 <= w < workers && 0 <= a < b < share(positions(count), workers as int, w).len()
                ==> #[trigger] share(positions(count), workers as int, w)[a] < #[trigger] share(
                positions(count),
                workers as int,
                w,
            )[b],
{
    let n = workers as int;
    let all = positions(count);
    assert forall|i: int| 0 <= i < count implies 0 <= i % n < n && #[trigger] share(
        all,
        n,
        i % n,
    ).contains(i) by {
        vstd::arithmetic::div_mod::lemma_mod_bound(i, n);
        vstd::arithmetic::div_mod::lemma_fundamental_div_mod(i, n);
        vstd::arithmetic::div_mod::lemma_div_pos_is_pos(i, n);
        lemma_slot_of_index(n, i % n, i / n, i);
        lemma_share_slots(count as int, n, i % n, i / n);
        assert(share(all, n, i % n)[i / n] == i);
    }
    assert forall|w: int, i: int| 0 <= w < n && #[trigger] share(all, n, w).contains(
        i,
    ) implies 0 <= i < count && i % n == w by {
        let slot = choose|slot: int|
            0 <= slot < share(all, n, w).len() && share(all, n, w)[slot] == i;
        lemma_share_slots(count as int, n, w, slot);
        assert(slot * n >= 0) by (nonlinear_arith)
            requires
                slot >= 0,
                n >= 1,
        ;
        lemma_slot_of_index(n, w, slot, i);
    }
    assert forall|w: int, a: int, b: int|
        0 <= w < n && 0 <= a < b < share(all, n, w).len() implies #[trigger] share(all, n, w)[a]
        < #[trigger] share(all, n, w)[b] by {
        lemma_share_slots(count as int, n, w, a);
        lemma_share_slots(count as int, n, w, b);
        assert(a * n < b * n) by (nonlinear_arith)
            requires
                a < b,
                n >= 1,
        ;
    }
}

/// The sub-list of a worker holds the items at the stream positions that fall
/// to the worker, in the order of those positions.
pub proof fn lemma_share_follows_positions<T>(items: Seq<T>, workers: int, worker: int)
    requires
        workers >= 1,
        0 <= worker < workers,
    ensures
        share(items, workers, worker).len() == share(positions(items.len()), workers, worker).len(),
        forall|slot: int|
            0 <= slot < share(items, workers, worker).len() ==> #[trigger] share(
                items,
                workers,
                worker,
            )[slot] == items[share(positions(items.len()), workers, worker)[slot]],
{
    assert forall|slot: int| 0 <= slot < share(items, workers, worker).len() implies #[trigger] share(
        items,
        workers,
        worker,
    )[slot] == items[share(positions(items.len()), workers, worker)[slot]] by {
        lemma_share_slots(items.len() as int, workers, worker, slot);
        assert(slot * workers >= 0) by (nonlinear_arith)
            requires
                slot >= 0,
                workers >= 1,
        ;
    }
}

/// The stream position of the item at `slot` of the sub-list of `worker`, by
/// which a worker labels what it emits. `None` where the position does not
/// fit the machine's word, which is the case for no slot of a sub-list that
/// [`partition`] made.
pub fn segment_index(worker: usize, slot: usize, workers: usize) -> (index: Option<usize>)
    ensures
        match index {
            Some(i) => i == slot_index(workers as int, worker as int, slot as int),
            None => slot_index(workers as int, worker as int, slot as int) > usize::MAX,
        },
{
    match slot.checked_mul(workers) {
        Some(offset) => worker.checked_add(offset),
        None => {
            assert(worker + slot * workers > usize::MAX);
            None
        },
    }
}

/// Deals `items` out to `workers` workers in turn. The result has one
/// sub-list for each worker; sub-list `w` holds, in the order of the stream, the
/// items whose position in `items` leaves the remainder `w` when divided by
/// `workers`. An empty list gives `workers` empty sub-lists.
pub fn partition<T>(items: Vec<T>, workers: usize) -> (parts: Vec<Vec<T>>)
    requires
        workers >= 1,
    ensures
        parts@.len() == workers,
        forall|w: int|
            0 <= w < workers ==> (#[trigger] parts@[w])@ == share(items@, workers as int, w),
{
    let mut parts: Vec<Vec<T>> = Vec::new();
    let mut made: usize = 0;
    while made < workers
        invariant
            made <= workers,
            parts@.len() == made,
            forall|w: int| 0 <= w < made ==> (#[trigger] parts@[w])@.len() == 0,
        decreases workers - made,
    {
        parts.push(Vec::new());
        made += 1;
    }
    let mut turn: usize = 0;
    assert forall|w: int| 0 <= w < workers implies (#[trigger] parts@[w])@ == share(
        items@.take(0),
        workers as int,
        w,
    ) by {
        assert(share(items@.take(0), workers as int, w) =~= Seq::<T>::empty());
        assert(parts@[w]@ =~= Seq::<T>::empty());
    }
    for item in iter: items
        invariant
            iter.seq() == items@,
            workers >= 1,
            parts@.len() == workers,
            turn == iter.index() % (workers as int),
            forall|w: int|
                0 <= w < workers ==> (#[trigger] parts@[w])@ == share(
                    items@.take(iter.index() as int),
                    workers as int,
                    w,
                ),
    {
        let ghost done = iter.index() as int;
        parts[turn].push(item);
        proof {
            assert forall|w: int| 0 <= w < workers implies (#[trigger] parts@[w])@ == share(
                items@.take(done + 1),
                workers as int,
                w,
            ) by {
                lemma_share_len_step(done, workers as int, w);
                let earlier = share(items@.take(done), workers as int, w);
                let now = share(items@.take(done + 1), workers as int, w);
                assert forall|slot: int| 0 <= slot < earlier.len() implies earlier[slot]
                    == now[slot] by {
                    lemma_share_slots(done, workers as int, w, slot);
                }
                if w == turn {
                    assert(now =~= earlier.push(items@[done]));
                } else {
                    assert(now =~= earlier);
                }
            }
        }
        turn = if turn + 1 == workers {
            0
        } else {
            turn + 1
        };
        proof {
            vstd::arithmetic::div_mod::lemma_fundamental_div_mod(done, workers as int);
            vstd::arithmetic::div_mod::lemma_fundamental_div_mod(done + 1, workers as int);
            vstd::arithmetic::div_mod::lemma_mod_bound(done + 1, workers as int);
            lemma_slot_of_index(
                workers as int,
                turn as int,
                if turn == 0 {
                    done / (workers as int) + 1
                } else {
                    done / (workers as int)
                },
                done + 1,
            );
            vstd::arithmetic::div_mod::lemma_div_pos_is_pos(done, workers as int);
            assert(workers * (done / (workers as int)) == (done / (workers as int)) * workers)
                by (nonlinear_arith);
            assert((done / (workers as int) + 1) * workers == (done / (workers as int)) * workers
                + workers) by (nonlinear_arith);
        }
    }
    assert(items@.take(items@.len() as int) =~= items@);
    parts
}

} // verus!
