//! From a run of addresses to the downloads of one batch.

use crate::filename::{basename, lemma_basename, mk_fp, pushed_path};
use crate::resource::{Resource, ResourceView};
use vstd::prelude::*;

verus! {

/// Whether `url` ends in a file name, so that a download of it has somewhere
/// to go.
pub open spec fn has_file_name(url: Seq<char>) -> bool {
    basename(url).len() > 0
}

/// The addresses among `urls` that a fetch is attempted for, in order.
pub open spec fn attempted(urls: Seq<Seq<char>>) -> Seq<Seq<char>> {
    urls.filter(|url: Seq<char>| has_file_name(url))
}

/// The addresses among `urls` that are left out because they name no file,
/// in order.
pub open spec fn excluded(urls: Seq<Seq<char>>) -> Seq<Seq<char>> {
    urls.filter(|url: Seq<char>| !has_file_name(url))
}

/// The download of `url` into the directory `dir`.
pub open spec fn resource_of(url: Seq<char>, dir: Seq<char>) -> ResourceView {
    ResourceView { url, fp: pushed_path(dir, basename(url)) }
}

/// The downloads that `urls` give rise to under `dir`: one for each address
/// that names a file, in order.
pub open spec fn resources_of(urls: Seq<Seq<char>>, dir: Seq<char>) -> Seq<ResourceView> {
    attempted(urls).map_values(|url: Seq<char>| resource_of(url, dir))
}

/// Every address is either attempted or left out, never both.
pub proof fn lemma_attempted_or_excluded(urls: Seq<Seq<char>>)
    ensures
        attempted(urls).len() + excluded(urls).len() == urls.len(),
    decreases urls.len(),
{
    reveal(Seq::filter);
    if urls.len() > 0 {
        lemma_attempted_or_excluded(urls.drop_last());
    }
}

/// What a list of addresses is attempted for is what its parts are attempted
/// for, one after the other.
pub proof fn lemma_attempted_of_parts(front: Seq<Seq<char>>, back: Seq<Seq<char>>)
    ensures
        attempted(front + back) == attempted(front) + attempted(back),
        excluded(front + back) == excluded(front) + excluded(back),
{
    Seq::filter_distributes_over_add(front, back, |url: Seq<char>| has_file_name(url));
    Seq::filter_distributes_over_add(front, back, |url: Seq<char>| !has_file_name(url));
}

/// Every download goes to the directory with one name pushed onto it: the
/// last segment of its address, which is not empty and holds no slash.
pub proof fn lemma_destinations(urls: Seq<Seq<char>>, dir: Seq<char>, i: int)
    requires
        0 <= i < resources_of(urls, dir).len(),
    ensures
        urls.contains(resources_of(urls, dir)[i].url),
        resources_of(urls, dir)[i].fp == pushed_path(dir, basename(resources_of(urls, dir)[i].url)),
        basename(resources_of(urls, dir)[i].url).len() > 0,
        !basename(resources_of(urls, dir)[i].url).contains('/'),
{
    let keep = |url: Seq<char>| has_file_name(url);
    let url = attempted(urls)[i];
    urls.lemma_filter_pred(keep, i);
    urls.lemma_filter_contains_rev(keep, url);
    lemma_basename(url);
}

/// The work of one batch: the downloads to run together, and the addresses
/// that were left out of it. What is left out is reported and not fetched,
/// and the progress display does not count it.
pub struct Batch {
    pub resources: Vec<Resource>,
    pub excluded: Vec<String>,
}

/// A batch as sequences of texts.
pub struct BatchView {
    pub resources: Seq<ResourceView>,
    pub excluded: Seq<Seq<char>>,
}

impl View for Batch {
    type V = BatchView;

    open spec fn view(&self) -> BatchView {
        BatchView { resources: self.resources.deep_view(), excluded: self.excluded.deep_view() }
    }
}

/// The batch that the addresses `urls` make under `dir`.
pub open spec fn batch_of(urls: Seq<Seq<char>>, dir: Seq<char>) -> BatchView {
    BatchView { resources: resources_of(urls, dir), excluded: excluded(urls) }
}

/// Builds the batch for one group of addresses: a resource for each address
/// that has a destination under `out_path`, and the list of those that have
/// none.
pub fn prepare_batch(urls: &[String], out_path: &str) -> (batch: Batch)
    ensures
        batch@ == batch_of(urls.deep_view(), out_path@),
{
    let mut resources: Vec<Resource> = Vec::new();
    let mut left_out: Vec<String> = Vec::new();
    let ghost all = urls.deep_view();
    let mut i: usize = 0;
    proof {
        reveal(Seq::filter);
        assert(all.take(0).len() == 0);
    }
    while i < urls.len()
        invariant
            i <= urls.len(),
            all == urls.deep_view(),
            resources.deep_view() == resources_of(all.take(i as int), out_path@),
            left_out.deep_view() == excluded(all.take(i as int)),
        decreases urls.len() - i,
    {
        let url = &urls[i];
        let ghost seen = all.take(i as int);
        let ghost had = resources.deep_view();
        let ghost out = left_out.deep_view();
        proof {
            assert(all.take(i + 1) == seen.push(url@));
            seen.lemma_filter_push(url@, |url: Seq<char>| has_file_name(url));
            seen.lemma_filter_push(url@, |url: Seq<char>| !has_file_name(url));
        }
        match mk_fp(url.as_str(), out_path.to_owned()) {
            Some(fp) => {
                resources.push(Resource::new(url.clone(), fp));
                proof {
                    assert(resources.deep_view() == had.push(resource_of(url@, out_path@)));
                    assert(left_out.deep_view() == out);
                }
            },
            None => {
                left_out.push(url.clone());
                proof {
                    assert(left_out.deep_view() == out.push(url@));
                    assert(resources.deep_view() == had);
                }
            },
        }
        i += 1;
    }
    proof {
        assert(all.take(urls.len() as int) == all);
    }
    Batch { resources, excluded: left_out }
}

} // verus!
