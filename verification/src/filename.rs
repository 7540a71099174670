//! From an address to the path its body is stored under.

use vstd::prelude::*;

verus! {

/// Whether `k` is where the last segment of `url` begins: nothing from `k` on
/// is a slash, and `k` is the start of the text or just behind a slash.
pub open spec fn is_basename_start(url: Seq<char>, k: int) -> bool {
    &&& 0 <= k <= url.len()
    &&& forall|i: int| k <= i < url.len() ==> url[i] != '/'
    &&& k > 0 ==> url[k - 1] == '/'
}

/// The text behind the last slash of `url`; all of `url` where it has none.
pub open spec fn basename(url: Seq<char>) -> Seq<char> {
    url.skip(choose|k: int| is_basename_start(url, k))
}

/// A text has one place at most where its last segment begins.
pub proof fn lemma_basename_start_unique(url: Seq<char>, j: int, k: int)
    requires
        is_basename_start(url, j),
        is_basename_start(url, k),
    ensures
        j == k,
{
    if j < k {
        assert(url[k - 1] == '/');
    } else if k < j {
        assert(url[j - 1] == '/');
    }
}

/// Once the start of the last segment is known, so is the segment.
pub proof fn lemma_basename_from_start(url: Seq<char>, k: int)
    requires
        is_basename_start(url, k),
    ensures
        basename(url) == url.skip(k),
{
    let c = choose|c: int| is_basename_start(url, c);
    lemma_basename_start_unique(url, c, k);
}

/// Every text has a last segment: it is a tail of the text, it holds no
/// slash, and what stands before it is nothing or ends in a slash.
pub proof fn lemma_basename(url: Seq<char>)
    ensures
        basename(url).len() <= url.len(),
        is_basename_start(url, url.len() - basename(url).len()),
        basename(url) == url.skip(url.len() - basename(url).len()),
        !basename(url).contains('/'),
    decreases url.len(),
{
    if url.len() == 0 {
        assert(is_basename_start(url, 0));
    } else if url.last() == '/' {
        assert(is_basename_start(url, url.len() as int));
    } else {
        let front = url.drop_last();
        lemma_basename(front);
        let k = front.len() - basename(front).len();
        assert forall|i: int| k <= i < url.len() implies url[i] != '/' by {
            if i < front.len() {
                assert(url[i] == front[i]);
            }
        }
        assert(k > 0 ==> url[k - 1] == front[k - 1]);
        assert(is_basename_start(url, k));
    }
    let k = choose|k: int| is_basename_start(url, k);
    assert(url.len() - basename(url).len() == k);
    assert forall|i: int| 0 <= i < basename(url).len() implies basename(url)[i] != '/' by {
        assert(basename(url)[i] == url[k + i]);
    }
}

/// The last segment of `url`, read off in one pass over its characters.
pub fn last_segment(url: &str) -> (name: String)
    ensures
        name@ == basename(url@),
{
    let mut name = String::new();
    let ghost mut start: int = 0;
    for c in it: url.chars()
        invariant
            it.seq() == url@,
            is_basename_start(url@.take(it.index()), start),
            name@ == url@.subrange(start, it.index()),
    {
        if c == '/' {
            name = String::new();
            proof {
                start = it.index() + 1;
            }
        } else {
            name.push(c);
        }
    }
    proof {
        assert(url@.take(url@.len() as int) == url@);
        lemma_basename_from_start(url@, start);
    }
    name
}

/// The text of the path that `std::path::PathBuf::push` makes of the path
/// `dirpath` and the component `filename`.
pub uninterp spec fn pushed_path(dirpath: Seq<char>, filename: Seq<char>) -> Seq<char>;

/// Calls `std::path::PathBuf::push` on the path written in `dirpath`, with
/// `filename` as the component to add, and hands back the path's text. The
/// contract only gives that text its name: which separator is put between the
/// two, and when, is the platform's affair. Both parts are UTF-8, so turning
/// the path back into a `String` changes nothing.
#[verifier::external_body]
fn push_filename(dirpath: String, filename: &str) -> (out: String)
    ensures
        out@ == pushed_path(dirpath@, filename@),
{
    let mut out = std::path::PathBuf::from(dirpath);
    out.push(filename);
    out.to_string_lossy().into_owned()
}

/// Where the body of `url` is stored under the directory `dir`: the directory
/// with the last segment of `url` pushed onto it, and nowhere when that
/// segment is empty.
pub open spec fn destination(url: Seq<char>, dir: Seq<char>) -> Option<Seq<char>> {
    if basename(url).len() == 0 {
        None
    } else {
        Some(pushed_path(dir, basename(url)))
    }
}

/// The destination path of `url` under `dirpath`, or `None` when `url` ends
/// in a slash or is empty and so names no file.
pub fn mk_fp(url: &str, dirpath: String) -> (fp: Option<String>)
    ensures
        match fp {
            Some(path) => destination(url@, dirpath@) == Some(path@),
            None => destination(url@, dirpath@) is None,
        },
{
    let filename = last_segment(url);
    if filename.as_str().is_empty() {
        None
    } else {
        Some(push_filename(dirpath, filename.as_str()))
    }
}

} // verus!
