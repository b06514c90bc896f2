//! Bounded-size write batching: pending operations are flushed to the
//! store in batches of at most `BATCH_LIMIT` items, a store-imposed cap.

use vstd::prelude::*;

verus! {

/// The store accepts at most this many items per batch write.
pub const BATCH_LIMIT: usize = 25;

/// The elements batch `b` receives: the `b`-th consecutive slice of
/// `BATCH_LIMIT` items, the last slice holding what remains.
pub open spec fn batch_slice<T>(items: Seq<T>, b: int) -> Seq<T> {
    if (b + 1) * (BATCH_LIMIT as int) <= items.len() {
        items.subrange(b * (BATCH_LIMIT as int), (b + 1) * (BATCH_LIMIT as int))
    } else {
        items.subrange(b * (BATCH_LIMIT as int), items.len() as int)
    }
}

/// Splits the pending items into consecutive flush batches: every batch
/// but the last holds exactly `BATCH_LIMIT` items, the last holds the
/// remainder, and nothing is reordered, dropped or repeated.
pub fn plan_batches<T>(items: Vec<T>) -> (batches: Vec<Vec<T>>)
    ensures
        batches@.len() == (items@.len() + BATCH_LIMIT - 1) as int / (BATCH_LIMIT as int),
        forall|b: int| 0 <= b < batches@.len() ==> #[trigger] batches@[b]@ == batch_slice(
            items@,
            b,
        ),
{
    let ghost all = items@;
    let n = items.len();
    let mut batches: Vec<Vec<T>> = Vec::new();
    let mut remaining = items;
    while remaining.len() > BATCH_LIMIT
        invariant
            n == all.len(),
            batches@.len() * (BATCH_LIMIT as int) + remaining@.len() == n,
            remaining@ == all.skip(batches@.len() * (BATCH_LIMIT as int)),
            forall|b: int| 0 <= b < batches@.len() ==> #[trigger] batches@[b]@ == batch_slice(
                all,
                b,
            ),
        decreases remaining@.len(),
    {
        let ghost k = batches@.len() as int;
        let tail = remaining.split_off(BATCH_LIMIT);
        proof {
            assert(remaining@ =~= batch_slice(all, k));
            assert(tail@ =~= all.skip((k + 1) * (BATCH_LIMIT as int)));
        }
        batches.push(remaining);
        remaining = tail;
    }
    if remaining.len() > 0 {
        proof {
            assert(remaining@ =~= batch_slice(all, batches@.len() as int));
        }
        batches.push(remaining);
    }
    batches
}

} // verus!
