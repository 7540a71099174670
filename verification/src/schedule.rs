//! Cutting the list of addresses into batches, and handing them out in order.

use crate::batch::{batch_of, prepare_batch, Batch, BatchView};
use vstd::prelude::*;
use vstd::slice::slice_subrange;

verus! {

/// The groups that `urls` fall into when they are taken `n` at a time from
/// the front: every group but the last holds `n` addresses, the last holds
/// what is left. No addresses, no groups; nor are there groups of size 0.
pub open spec fn chunks(urls: Seq<Seq<char>>, n: nat) -> Seq<Seq<Seq<char>>>
    decreases urls.len(),
{
    if urls.len() == 0 || n == 0 {
        Seq::empty()
    } else if urls.len() <= n {
        seq![urls]
    } else {
        seq![urls.take(n as int)] + chunks(urls.skip(n as int), n)
    }
}

/// The batches of a whole run: one for each group of `n` addresses.
pub open spec fn batches(urls: Seq<Seq<char>>, n: nat, dir: Seq<char>) -> Seq<BatchView> {
    chunks(urls, n).map_values(|group: Seq<Seq<char>>| batch_of(group, dir))
}

/// The groups, put end to end, are the list again: every address is in one
/// group, and the order of the list is kept within and across groups.
pub proof fn lemma_chunks_cover(urls: Seq<Seq<char>>, n: nat)
    requires
        n >= 1,
    ensures
        chunks(urls, n).flatten() == urls,
    decreases urls.len(),
{
    if urls.len() == 0 {
    } else if urls.len() <= n {
        seq![urls].lemma_flatten_one_element();
    } else {
        let head = seq![urls.take(n as int)];
        let tail = chunks(urls.skip(n as int), n);
        lemma_chunks_cover(urls.skip(n as int), n);
        head.lemma_flatten_one_element();
        vstd::seq_lib::lemma_flatten_concat(head, tail);
        assert(urls.take(n as int) + urls.skip(n as int) == urls);
    }
}

/// No group is empty or holds more than `n` addresses, and every group but
/// the last holds exactly `n`: at no time are more than `n` fetches under
/// way.
pub proof fn lemma_chunks_sizes(urls: Seq<Seq<char>>, n: nat)
    requires
        n >= 1,
    ensures
        forall|k: int|
            0 <= k < chunks(urls, n).len() ==> 1 <= (#[trigger] chunks(urls, n)[k]).len() <= n,
        forall|k: int|
            0 <= k < chunks(urls, n).len() - 1 ==> (#[trigger] chunks(urls, n)[k]).len() == n,
    decreases urls.len(),
{
    if urls.len() > n {
        let tail = chunks(urls.skip(n as int), n);
        lemma_chunks_sizes(urls.skip(n as int), n);
        assert forall|k: int| 0 <= k < chunks(urls, n).len() implies 1 <= (#[trigger] chunks(
            urls,
            n,
        )[k]).len() <= n by {
            if k > 0 {
                assert(chunks(urls, n)[k] == tail[k - 1]);
            }
        }
        assert forall|k: int| 0 <= k < chunks(urls, n).len() - 1 implies (#[trigger] chunks(
            urls,
            n,
        )[k]).len() == n by {
            if k > 0 {
                assert(chunks(urls, n)[k] == tail[k - 1]);
            }
        }
    }
}

/// With a batch size no smaller than the list, the whole list is one group.
pub proof fn lemma_one_batch(urls: Seq<Seq<char>>, n: nat)
    requires
        1 <= urls.len() <= n,
    ensures
        chunks(urls, n) == seq![urls],
{
}

/// With a batch size of one, every address is a group of its own: the
/// fetches run strictly one after the other.
pub proof fn lemma_serial(urls: Seq<Seq<char>>)
    ensures
        chunks(urls, 1).len() == urls.len(),
        forall|k: int| 0 <= k < urls.len() ==> (#[trigger] chunks(urls, 1)[k]) == seq![urls[k]],
    decreases urls.len(),
{
    if urls.len() > 1 {
        let tail = chunks(urls.skip(1), 1);
        lemma_serial(urls.skip(1));
        assert(urls.take(1) == seq![urls[0]]);
        assert forall|k: int| 0 <= k < urls.len() implies (#[trigger] chunks(urls, 1)[k])
            == seq![urls[k]] by {
            if k > 0 {
                assert(chunks(urls, 1)[k] == tail[k - 1]);
                assert(urls.skip(1)[k - 1] == urls[k]);
            }
        }
    } else if urls.len() == 1 {
        assert(urls == seq![urls[0]]);
    }
}

/// Hands out the batches of one run, one after the other.
pub struct Scheduler {
    urls: Vec<String>,
    batch_size: usize,
    out_path: String,
    next: usize,
}

impl Scheduler {
    #[verifier::type_invariant]
    spec fn inv(&self) -> bool {
        self.batch_size >= 1 && self.next <= self.urls.len()
    }

    /// All addresses of the run, those already handed out too.
    pub closed spec fn urls(&self) -> Seq<Seq<char>> {
        self.urls.deep_view()
    }

    /// The largest number of addresses in one batch.
    pub closed spec fn batch_size(&self) -> nat {
        self.batch_size as nat
    }

    /// The directory that the downloads go to.
    pub closed spec fn out_path(&self) -> Seq<char> {
        self.out_path@
    }

    /// How many addresses have been handed out or left out so far.
    pub closed spec fn position(&self) -> nat {
        self.next as nat
    }

    /// The batches that are still to come, in order.
    pub open spec fn pending(&self) -> Seq<BatchView> {
        batches(self.urls().skip(self.position() as int), self.batch_size(), self.out_path())
    }

    /// A scheduler at the start of a run over `urls`, with at most
    /// `batch_size` downloads at a time, into the directory `out_path`.
    pub fn new(urls: Vec<String>, batch_size: usize, out_path: String) -> (scheduler: Scheduler)
        requires
            batch_size >= 1,
        ensures
            scheduler.urls() == urls.deep_view(),
            scheduler.batch_size() == batch_size,
            scheduler.out_path() == out_path@,
            scheduler.position() == 0,
            scheduler.pending() == batches(urls.deep_view(), batch_size as nat, out_path@),
    {
        proof {
            assert(urls.deep_view().skip(0) == urls.deep_view());
        }
        Scheduler { urls, batch_size, out_path, next: 0 }
    }

    /// The number of addresses in the run: the length that a progress display
    /// starts with.
    pub fn total(&self) -> (total: usize)
        ensures
            total == self.urls().len(),
    {
        self.urls.len()
    }

    /// The next batch of the run, or `None` once every address has been
    /// handed out or left out. The caller asks for it when every fetch of the
    /// batch before has ended: that wait is what keeps the number of fetches
    /// under way at the batch size or below.
    pub fn next_batch(&mut self) -> (batch: Option<Batch>)
        ensures
            final(self).urls() == old(self).urls(),
            final(self).batch_size() == old(self).batch_size(),
            final(self).out_path() == old(self).out_path(),
            final(self).position() <= final(self).urls().len(),
            match batch {
                Some(batch) => {
                    &&& old(self).position() < old(self).urls().len()
                    &&& final(self).position() == if old(self).position() + old(
                        self,
                    ).batch_size() <= old(self).urls().len() {
                        old(self).position() + old(self).batch_size()
                    } else {
                        old(self).urls().len()
                    }
                    &&& batch@ == batch_of(
                        old(self).urls().subrange(
                            old(self).position() as int,
                            final(self).position() as int,
                        ),
                        old(self).out_path(),
                    )
                    &&& old(self).pending().len() > 0
                    &&& batch@ == old(self).pending().first()
                    &&& final(self).pending() == old(self).pending().drop_first()
                },
                None => {
                    &&& old(self).position() == old(self).urls().len()
                    &&& final(self).position() == old(self).position()
                    &&& old(self).pending().len() == 0
                },
            },
    {
        proof {
            use_type_invariant(&*self);
        }
        let len = self.urls.len();
        let from = self.next;
        let ghost rest = self.urls().skip(from as int);
        if from == len {
            return None;
        }
        let to = if len - from <= self.batch_size {
            len
        } else {
            from + self.batch_size
        };
        let group = slice_subrange(self.urls.as_slice(), from, to);
        let batch = prepare_batch(group, self.out_path.as_str());
        self.next = to;
        proof {
            let all = self.urls();
            let n = self.batch_size();
            let dir = self.out_path();
            assert(group.deep_view() == all.subrange(from as int, to as int));
            assert(rest.take(to - from) == all.subrange(from as int, to as int));
            assert(rest.skip(to - from) == all.skip(to as int));
            if to == len {
                assert(rest.take(to - from) == rest);
                assert(chunks(rest, n) == seq![rest]);
                assert(chunks(all.skip(to as int), n) == Seq::<Seq<Seq<char>>>::empty());
            } else {
                assert(chunks(rest, n) == seq![rest.take(n as int)] + chunks(
                    rest.skip(n as int),
                    n,
                ));
            }
            assert(chunks(rest, n).drop_first() == chunks(all.skip(to as int), n));
            assert(batches(rest, n, dir).drop_first() == batches(all.skip(to as int), n, dir));
        }
        Some(batch)
    }
}

} // verus!
