//! What the progress display has counted when a run is over.

use crate::batch::{
    attempted, excluded, lemma_attempted_of_parts, lemma_attempted_or_excluded,
};
use crate::fetch::{advances, lemma_advances_once, run, trace, Event, Phase};
use crate::schedule::batches;
use vstd::prelude::*;

verus! {

/// How far the fetches of one batch advance the progress display, where
/// `fetches[j]` holds the results that came in for the batch's `j`-th
/// download.
pub open spec fn batch_advances(fetches: Seq<Seq<Event>>) -> nat
    decreases fetches.len(),
{
    if fetches.len() == 0 {
        0
    } else {
        advances(trace(Phase::Checking, fetches.first())) + batch_advances(fetches.drop_first())
    }
}

/// How far a whole run advances the progress display, where `run_events[k]`
/// holds the fetches of the `k`-th batch.
pub open spec fn run_advances(run_events: Seq<Seq<Seq<Event>>>) -> nat
    decreases run_events.len(),
{
    if run_events.len() == 0 {
        0
    } else {
        batch_advances(run_events.first()) + run_advances(run_events.drop_first())
    }
}

/// Whether `run_events` tells of a full run over `urls` in batches of `n`:
/// one list of fetches for each batch, one fetch for each download of the
/// batch, and every fetch carried to its end.
pub open spec fn is_full_run(
    run_events: Seq<Seq<Seq<Event>>>,
    urls: Seq<Seq<char>>,
    n: nat,
    dir: Seq<char>,
) -> bool {
    &&& run_events.len() == batches(urls, n, dir).len()
    &&& forall|k: int|
        0 <= k < run_events.len() ==> (#[trigger] run_events[k]).len() == batches(
            urls,
            n,
            dir,
        )[k].resources.len()
    &&& forall|k: int, j: int|
        0 <= k < run_events.len() && 0 <= j < run_events[k].len() ==> run(
            Phase::Checking,
            #[trigger] run_events[k][j],
        ) is Done
}

/// A batch whose fetches all reach their end advances the display by the
/// number of its downloads.
pub proof fn lemma_batch_advances(fetches: Seq<Seq<Event>>)
    requires
        forall|j: int| 0 <= j < fetches.len() ==> run(Phase::Checking, #[trigger] fetches[j]) is Done,
    ensures
        batch_advances(fetches) == fetches.len(),
    decreases fetches.len(),
{
    if fetches.len() > 0 {
        lemma_advances_once(Phase::Checking, fetches.first());
        assert forall|j: int| 0 <= j < fetches.drop_first().len() implies run(
            Phase::Checking,
            #[trigger] fetches.drop_first()[j],
        ) is Done by {
            assert(fetches.drop_first()[j] == fetches[j + 1]);
        }
        lemma_batch_advances(fetches.drop_first());
    }
}

/// Whatever the batch size, and however the fetches end, a full run leaves
/// the progress display at the number of addresses that a fetch was attempted
/// for: the length of the list less the addresses that were left out for
/// want of a file name. An address that is left out is not counted.
pub proof fn lemma_progress_total(
    run_events: Seq<Seq<Seq<Event>>>,
    urls: Seq<Seq<char>>,
    n: nat,
    dir: Seq<char>,
)
    requires
        n >= 1,
        is_full_run(run_events, urls, n, dir),
    ensures
        run_advances(run_events) == attempted(urls).len(),
        run_advances(run_events) == urls.len() - excluded(urls).len(),
    decreases urls.len(),
{
    lemma_attempted_or_excluded(urls);
    if urls.len() == 0 {
    } else {
        let first = run_events.first();
        assert(first.len() == batches(urls, n, dir)[0].resources.len());
        assert forall|j: int| 0 <= j < first.len() implies run(
            Phase::Checking,
            #[trigger] first[j],
        ) is Done by {
            assert(first[j] == run_events[0][j]);
        }
        lemma_batch_advances(first);
        if urls.len() <= n {
            assert(run_events.drop_first().len() == 0);
            assert(run_advances(run_events.drop_first()) == 0);
        } else {
            let head = urls.take(n as int);
            let tail = urls.skip(n as int);
            let later = run_events.drop_first();
            assert(head + tail == urls);
            lemma_attempted_of_parts(head, tail);
            lemma_attempted_or_excluded(tail);
            assert(batches(urls, n, dir).drop_first() == batches(tail, n, dir));
            assert forall|k: int| 0 <= k < later.len() implies (#[trigger] later[k]).len()
                == batches(tail, n, dir)[k].resources.len() by {
                assert(later[k] == run_events[k + 1]);
                assert(batches(tail, n, dir)[k] == batches(urls, n, dir)[k + 1]);
            }
            assert forall|k: int, j: int|
                0 <= k < later.len() && 0 <= j < later[k].len() implies run(
                Phase::Checking,
                #[trigger] later[k][j],
            ) is Done by {
                assert(later[k][j] == run_events[k + 1][j]);
            }
            lemma_progress_total(later, tail, n, dir);
        }
    }
}

} // verus!
