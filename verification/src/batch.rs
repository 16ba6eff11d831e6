//! Batch writer: splits a validated record set into bounded chunks and
//! submits each chunk as one bulk write. The split is by eighths of the
//! input length, over exactly eight iterations; records beyond the first
//! `8 * (len / 8)` are deliberately not flushed — the split is part of
//! the writer's contract, quirks included.

use vstd::prelude::*;

use crate::model::{item_views, rec_views, NormalizedFeedRecord, RecordView};
use crate::store::{stored_views, FeedStore};

verus! {

/// Outcome of one batched write: nothing to do, or records written.
#[derive(Clone, Copy, PartialEq, Eq, Structural, Debug)]
pub enum WriteOutcome {
    NoNewRecords,
    Wrote,
}

/// The records the eight-iteration split actually writes: the first
/// `8 * (len / 8)` of them, in order.
pub open spec fn written_prefix(rs: Seq<RecordView>) -> Seq<RecordView> {
    rs.take(8 * (rs.len() as int / 8))
}

/// Write the records in eight chunks of one eighth of the input length
/// each. An empty input performs no write at all and reports
/// `NoNewRecords`; otherwise the first `8 * (len / 8)` records are
/// persisted in order and the rest are not flushed. The early stop when
/// a chunk exceeds what remains is kept although floor division makes
/// it unreachable.
pub fn write_batches(store: &mut FeedStore, records: Vec<NormalizedFeedRecord>) -> (r:
    WriteOutcome)
    requires
        old(store).wf(),
        forall|i: int| 0 <= i < records@.len() ==> (#[trigger] records@[i])@.wf(),
        old(store).next_id + records@.len() <= u64::MAX,
    ensures
        final(store).wf(),
        item_views(final(store).items@) == item_views(old(store).items@) + stored_views(
            written_prefix(rec_views(records@)),
            old(store).next_id as int,
        ),
        final(store).next_id as int <= old(store).next_id + records@.len(),
        r == WriteOutcome::NoNewRecords <==> records@.len() == 0,
{
    let ghost orig = item_views(old(store).items@);
    let ghost base = old(store).next_id as int;
    let ghost rviews = rec_views(records@);
    if records.is_empty() {
        proof {
            assert(written_prefix(rviews) =~= Seq::<RecordView>::empty());
            assert(stored_views(written_prefix(rviews), base) =~= Seq::empty());
            assert(item_views(store.items@) =~= orig + stored_views(
                written_prefix(rviews),
                base,
            ));
        }
        return WriteOutcome::NoNewRecords;
    }
    let n = records.len();
    let chunk = n / 8;
    proof {
        assert(8 * (n as int / 8) <= n as int) by (nonlinear_arith);
    }
    let mut working = records;
    let mut iter: usize = 0;
    let mut stopped = false;
    proof {
        assert(rec_views(working@) =~= rviews.skip(0));
        assert(item_views(store.items@) =~= orig + stored_views(rviews.take(0), base));
    }
    while iter < 8 && !stopped
        invariant
            !stopped,
            iter <= 8,
            chunk as int == rviews.len() as int / 8,
            n as int == rviews.len() as int,
            base + rviews.len() <= u64::MAX,
            rec_views(working@) == rviews.skip(iter as int * chunk as int),
            working@.len() == rviews.len() - iter as int * chunk as int,
            forall|i: int| 0 <= i < working@.len() ==> (#[trigger] working@[i])@.wf(),
            store.wf(),
            store.next_id as int == base + iter as int * chunk as int,
            item_views(store.items@) == orig + stored_views(
                rviews.take(iter as int * chunk as int),
                base,
            ),
        decreases 8 - iter,
    {
        let ghost done = iter as int * chunk as int;
        proof {
            assert((iter as int + 1) * chunk as int <= 8 * chunk as int) by (nonlinear_arith)
                requires
                    iter as int + 1 <= 8,
                    chunk as int >= 0,
            ;
            assert((iter as int + 1) * chunk as int == done + chunk as int) by (nonlinear_arith)
                requires
                    done == iter as int * chunk as int,
            ;
        }
        if chunk > working.len() {
            // Unreachable by construction: a floor-division chunk never
            // exceeds what remains within eight iterations.
            proof {
                assert(false);
            }
            store.insert_many(working);
            working = Vec::new();
            stopped = true;
        } else {
            let ghost prev_working = working@;
            let rest = working.split_off(chunk);
            let ghost prefix = rec_views(working@);
            proof {
                assert(working@ =~= prev_working.take(chunk as int));
                assert(rest@ =~= prev_working.skip(chunk as int));
                assert(prefix =~= rviews.skip(done).take(chunk as int));
                assert forall|i: int|
                    0 <= i < rest@.len() implies rec_views(rest@)[i] == rviews.skip(
                    done + chunk as int,
                )[i] by {
                    assert(rec_views(rest@)[i] == rest@[i]@);
                    assert(rest@[i] == prev_working[chunk as int + i]);
                    assert(rec_views(prev_working)[chunk as int + i] == prev_working[chunk as int
                        + i]@);
                    assert(rec_views(prev_working)[chunk as int + i] == rviews.skip(done)[chunk
                        as int + i]);
                }
                assert(rec_views(rest@) =~= rviews.skip(done + chunk as int));
                assert(rviews.take(done + chunk as int) =~= rviews.take(done) + prefix);
                assert(forall|i: int|
                    0 <= i < prefix.len() ==> #[trigger] prefix[i] == rviews[done + i]);
                assert(stored_views(rviews.take(done + chunk as int), base) =~= stored_views(
                    rviews.take(done),
                    base,
                ) + stored_views(prefix, base + done));
            }
            store.insert_many(working);
            working = rest;
        }
        iter = iter + 1;
    }
    proof {
        assert(iter == 8);
        assert(rviews.take(8 * chunk as int) =~= written_prefix(rviews));
    }
    WriteOutcome::Wrote
}

} // verus!
