//! From results as they come in to the ledger. Results come in any order;
//! the tracker is given them in the order of their frames, one after the
//! other, and observers are told of each change of the ledger.

use crate::dispatch::{ready, without_run, OcrChannel, Reassembler};
use crate::item_fetcher::ItemFetcher;
use crate::loot::{views, LootData, LootView};
use crate::ocr::output_texts;
use crate::ledger::grows_from;
use crate::tracker::{lemma_grows_on, BlackDesertLootTracker};
use vstd::prelude::*;

verus! {

/// What one frame's result does to the tracker. A frame whose recognition
/// failed leaves it as it is; the texts of another are read as `insert`
/// reads them.
pub open spec fn processed<F: ItemFetcher>(
    before: BlackDesertLootTracker,
    after: BlackDesertLootTracker,
    fetcher: &F,
    input: OcrChannel,
) -> bool {
    match input.result {
        None => after == before,
        Some(output) => exists|count: u16|
            BlackDesertLootTracker::inserted(
                before,
                after,
                fetcher,
                output_texts(output.data@),
                count,
            ),
    }
}

/// The tables that observers are told, as plain values.
pub open spec fn tables(updates: Seq<Vec<LootData>>) -> Seq<Seq<LootView>> {
    updates.map_values(|u: Vec<LootData>| views(u@))
}

/// What the results do to the tracker, taken one after the other in their
/// order, and what observers are told on the way: the ledger's lines after
/// each result that left the ledger another than it was.
pub open spec fn told<F: ItemFetcher>(
    before: BlackDesertLootTracker,
    after: BlackDesertLootTracker,
    fetcher: &F,
    inputs: Seq<OcrChannel>,
    updates: Seq<Seq<LootView>>,
) -> bool
    decreases inputs.len(),
{
    if inputs.len() == 0 {
        after == before && updates.len() == 0
    } else {
        exists|mid: BlackDesertLootTracker|
            {
                &&& #[trigger] processed(mid, after, fetcher, inputs.last())
                &&& if after.table() != mid.table() {
                    &&& updates.len() > 0
                    &&& updates.last() == after.table()
                    &&& told(before, mid, fetcher, inputs.drop_last(), updates.drop_last())
                } else {
                    told(before, mid, fetcher, inputs.drop_last(), updates)
                }
            }
    }
}

/// One more result: what was told before it, and the ledger's lines after it
/// if it left the ledger another than it was.
pub proof fn lemma_told_next<F: ItemFetcher>(
    before: BlackDesertLootTracker,
    mid: BlackDesertLootTracker,
    after: BlackDesertLootTracker,
    fetcher: &F,
    inputs: Seq<OcrChannel>,
    earlier: Seq<Seq<LootView>>,
)
    requires
        inputs.len() > 0,
        told(before, mid, fetcher, inputs.drop_last(), earlier),
        processed(mid, after, fetcher, inputs.last()),
    ensures
        after.table() != mid.table() ==> told(
            before,
            after,
            fetcher,
            inputs,
            earlier.push(after.table()),
        ),
        after.table() == mid.table() ==> told(before, after, fetcher, inputs, earlier),
{
    assert(earlier.push(after.table()).drop_last() =~= earlier);
}

/// Whatever results come in, the ledger only grows: every line stays, in its
/// place, with the same item, and with no lesser amount.
pub proof fn lemma_told_grows<F: ItemFetcher>(
    before: BlackDesertLootTracker,
    after: BlackDesertLootTracker,
    fetcher: &F,
    inputs: Seq<OcrChannel>,
    updates: Seq<Seq<LootView>>,
)
    requires
        told(before, after, fetcher, inputs, updates),
    ensures
        grows_from(before.table(), after.table()),
    decreases inputs.len(),
{
    if inputs.len() > 0 {
        let mid = choose|mid: BlackDesertLootTracker|
            {
                &&& #[trigger] processed(mid, after, fetcher, inputs.last())
                &&& if after.table() != mid.table() {
                    &&& updates.len() > 0
                    &&& updates.last() == after.table()
                    &&& told(before, mid, fetcher, inputs.drop_last(), updates.drop_last())
                } else {
                    told(before, mid, fetcher, inputs.drop_last(), updates)
                }
            };
        if after.table() != mid.table() {
            lemma_told_grows(before, mid, fetcher, inputs.drop_last(), updates.drop_last());
        } else {
            lemma_told_grows(before, mid, fetcher, inputs.drop_last(), updates);
        }
        lemma_grows_on(before.table(), mid.table(), after.table());
    }
}

/// Takes one result as it comes in. A result that is ahead of its turn
/// waits, and the tracker stays as it is. The result whose turn it is goes
/// to the tracker, and after it those that waited for it, in the order of
/// their frames. What is given back is the ledger's lines after each result
/// that changed the ledger, in order: what observers are to be told.
#[verifier::loop_isolation(false)]
pub fn deliver<F: ItemFetcher>(
    buffer: &mut Reassembler<OcrChannel>,
    tracker: &mut BlackDesertLootTracker,
    fetcher: &F,
    msg: OcrChannel,
) -> (updates: Vec<Vec<LootData>>)
    requires
        msg.index < u64::MAX,
    ensures
        msg.index != old(buffer).expected() ==> {
            &&& *final(tracker) == *old(tracker)
            &&& updates@.len() == 0
            &&& final(buffer).expected() == old(buffer).expected()
            &&& final(buffer).waiting() == old(buffer).waiting().insert(msg.index, msg)
        },
        msg.index == old(buffer).expected() ==> {
            let turn = seq![msg] + ready(old(buffer).waiting(), msg.index + 1);
            &&& told(*old(tracker), *final(tracker), fetcher, turn, tables(updates@))
            &&& final(buffer).expected() == msg.index + turn.len()
            &&& final(buffer).waiting() == without_run(
                old(buffer).waiting(),
                msg.index + 1,
                turn.len() - 1,
            )
        },
{
    let index = msg.index;
    let delivered = buffer.accept(index, msg);
    let mut updates: Vec<Vec<LootData>> = Vec::new();
    let mut i: usize = 0;
    proof {
        assert(delivered@.take(0) =~= Seq::<OcrChannel>::empty());
        assert(tables(updates@) =~= Seq::<Seq<LootView>>::empty());
    }
    while i < delivered.len()
        invariant
            i <= delivered.len(),
            told(*old(tracker), *tracker, fetcher, delivered@.take(i as int), tables(updates@)),
        decreases delivered.len() - i,
    {
        let ghost mid = *tracker;
        let ghost earlier = tables(updates@);
        let update = tracker.process_data(fetcher, &delivered[i]);
        proof {
            let now = delivered@.take(i + 1);
            assert(now.drop_last() =~= delivered@.take(i as int));
            assert(now.last() == delivered@[i as int]);
            assert(processed(mid, *tracker, fetcher, now.last()));
        }
        match update {
            Some(lines) => {
                updates.push(lines);
                assert(tables(updates@) =~= earlier.push(tracker.table()));
            },
            None => {},
        }
        proof {
            let now = delivered@.take(i + 1);
            let after = *tracker;
            let said = tables(updates@);
            assert(told(*old(tracker), mid, fetcher, now.drop_last(), earlier));
            assert(processed(mid, after, fetcher, now.last()));
            assert(said == if after.table() != mid.table() {
                earlier.push(after.table())
            } else {
                earlier
            });
            lemma_told_next(*old(tracker), mid, after, fetcher, now, earlier);
        }
        i += 1;
    }
    proof {
        assert(delivered@.take(delivered@.len() as int) =~= delivered@);
    }
    updates
}

} // verus!
