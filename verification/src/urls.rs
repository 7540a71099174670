//! From the text of an input file to the list of addresses in it.

use crate::text::{is_white_space, lemma_trim, to_chars, trim, trimmed};
use vstd::prelude::*;

verus! {

/// How many characters stand before the first line feed of `text`; its length
/// where it holds none.
pub open spec fn line_len(text: Seq<char>) -> nat
    decreases text.len(),
{
    if text.len() == 0 || text.first() == '\n' {
        0
    } else {
        1 + line_len(text.drop_first())
    }
}

/// The lines of `text`: what stands between its line feeds, in order. A text
/// with `n` line feeds has `n + 1` lines, some of them possibly empty.
pub open spec fn split_lines(text: Seq<char>) -> Seq<Seq<char>>
    decreases text.len(),
{
    let n = line_len(text) as int;
    if n < text.len() {
        seq![text.take(n)] + split_lines(text.skip(n + 1))
    } else {
        seq![text]
    }
}

/// The addresses that a file's text holds: each of its lines, trimmed.
pub open spec fn urls_of(text: Seq<char>) -> Seq<Seq<char>> {
    split_lines(text).map_values(|line: Seq<char>| trim(line))
}

/// The first line of a text ends at its first line feed or at its end.
pub proof fn lemma_line_len(text: Seq<char>)
    ensures
        line_len(text) <= text.len(),
        forall|i: int| 0 <= i < line_len(text) ==> text[i] != '\n',
        line_len(text) < text.len() ==> text[line_len(text) as int] == '\n',
    decreases text.len(),
{
    if text.len() == 0 || text.first() == '\n' {
    } else {
        let rest = text.drop_first();
        lemma_line_len(rest);
        assert forall|i: int| 0 <= i < line_len(text) implies text[i] != '\n' by {
            if i > 0 {
                assert(text[i] == rest[i - 1]);
            }
        }
        assert(line_len(text) < text.len() ==> text[line_len(text) as int] == rest[line_len(
            rest,
        ) as int]);
    }
}

/// Lines put together again, with a line feed between each two.
pub open spec fn join_lines(lines: Seq<Seq<char>>) -> Seq<char>
    decreases lines.len(),
{
    if lines.len() == 0 {
        Seq::empty()
    } else if lines.len() == 1 {
        lines.first()
    } else {
        lines.first() + seq!['\n'] + join_lines(lines.drop_first())
    }
}

/// Whether `lines` are lines: one at least, and none with a line feed in it.
pub open spec fn are_lines(lines: Seq<Seq<char>>) -> bool {
    &&& lines.len() >= 1
    &&& forall|k: int| 0 <= k < lines.len() ==> !(#[trigger] lines[k]).contains('\n')
}

/// Splitting loses nothing: the lines of a text hold no line feed, and with
/// line feeds put between them they are the text again.
pub proof fn lemma_split_lines(text: Seq<char>)
    ensures
        are_lines(split_lines(text)),
        join_lines(split_lines(text)) == text,
    decreases text.len(),
{
    let n = line_len(text) as int;
    lemma_line_len(text);
    if n < text.len() {
        let first = text.take(n);
        let rest = split_lines(text.skip(n + 1));
        lemma_split_lines(text.skip(n + 1));
        assert((seq![first] + rest).first() == first);
        assert((seq![first] + rest).drop_first() == rest);
        assert(first + seq!['\n'] + text.skip(n + 1) == text);
        assert forall|k: int| 0 <= k < split_lines(text).len() implies !(
        #[trigger] split_lines(text)[k]).contains('\n') by {
            if k > 0 {
                assert(split_lines(text)[k] == rest[k - 1]);
            }
        }
    }
}

/// A text falls into lines in one way only: lines that give `text` when
/// they are joined are the lines that splitting `text` gives.
pub proof fn lemma_lines_are_unique(lines: Seq<Seq<char>>, text: Seq<char>)
    requires
        are_lines(lines),
        join_lines(lines) == text,
    ensures
        split_lines(text) == lines,
    decreases lines.len(),
{
    let first = lines.first();
    assert(!lines[0].contains('\n'));
    if lines.len() == 1 {
        lemma_line_len_of_line(first, Seq::empty());
        assert(first + Seq::<char>::empty() == first);
        assert(lines == seq![first]);
    } else {
        let rest = lines.drop_first();
        let tail = join_lines(rest);
        lemma_line_len_of_line(first, seq!['\n'] + tail);
        assert(first + (seq!['\n'] + tail) == text);
        assert(text.take(first.len() as int) == first);
        assert(text.skip(first.len() as int + 1) == tail);
        assert forall|k: int| 0 <= k < rest.len() implies !(#[trigger] rest[k]).contains(
            '\n',
        ) by {
            assert(rest[k] == lines[k + 1]);
        }
        lemma_lines_are_unique(rest, tail);
        assert(seq![first] + rest == lines);
    }
}

/// There is an address for every line, so one at least. Each is its line
/// without the white space around it: it neither begins nor ends with white
/// space, and it holds no line feed.
pub proof fn lemma_urls_are_trimmed(text: Seq<char>, k: int)
    requires
        0 <= k < urls_of(text).len(),
    ensures
        urls_of(text).len() == split_lines(text).len() >= 1,
        urls_of(text)[k] == trim(split_lines(text)[k]),
        trim(urls_of(text)[k]) == urls_of(text)[k],
        urls_of(text)[k].len() > 0 ==> !is_white_space(urls_of(text)[k].first())
            && !is_white_space(urls_of(text)[k].last()),
        !urls_of(text)[k].contains('\n'),
{
    let line = split_lines(text)[k];
    lemma_split_lines(text);
    lemma_trim(line);
    assert(!line.contains('\n'));
    let (from, to) = choose|from: int, to: int|
        0 <= from <= to <= line.len() && #[trigger] line.subrange(from, to) == trim(line);
    assert forall|i: int| 0 <= i < trim(line).len() implies trim(line)[i] != '\n' by {
        assert(trim(line)[i] == line[from + i]);
    }
}

/// Where a line is followed by nothing or by a line feed, the first line of
/// the whole is that line.
proof fn lemma_line_len_of_line(line: Seq<char>, after: Seq<char>)
    requires
        !line.contains('\n'),
        after.len() == 0 || after.first() == '\n',
    ensures
        line_len(line + after) == line.len(),
    decreases line.len(),
{
    let whole = line + after;
    if line.len() == 0 {
        assert(whole == after);
    } else {
        assert(line[0] != '\n');
        assert(whole.first() == line[0]);
        assert(whole.drop_first() == line.drop_first() + after);
        assert forall|i: int| 0 <= i < line.drop_first().len() implies line.drop_first()[i]
            != '\n' by {
            assert(line.drop_first()[i] == line[i + 1]);
        }
        lemma_line_len_of_line(line.drop_first(), after);
    }
}

/// Where the line that begins at `from` ends: at the next line feed, or at
/// the end of `chars`.
fn line_end(chars: &[char], from: usize) -> (to: usize)
    requires
        from <= chars.len(),
    ensures
        from <= to <= chars.len(),
        to - from == line_len(chars@.skip(from as int)),
{
    let mut to: usize = from;
    while to < chars.len() && chars[to] != '\n'
        invariant
            from <= to <= chars.len(),
            line_len(chars@.skip(from as int)) == (to - from) + line_len(chars@.skip(to as int)),
        decreases chars.len() - to,
    {
        proof {
            let s = chars@.skip(to as int);
            assert(s.drop_first() == chars@.skip(to + 1));
        }
        to += 1;
    }
    to
}

/// Splits the text of an input file at its line feeds and trims each line.
/// Every line is kept, empty ones too, in the order of the file.
pub fn parse_urls(content: &str) -> (urls: Vec<String>)
    ensures
        urls.deep_view() == urls_of(content@),
{
    let text = to_chars(content);
    let chars = text.as_slice();
    let mut urls: Vec<String> = Vec::new();
    let mut from: usize = 0;
    proof {
        assert(chars@.skip(0) == chars@);
        assert(urls.deep_view() == Seq::<Seq<char>>::empty());
    }
    loop
        invariant
            chars@ == content@,
            from <= chars.len(),
            urls_of(content@) == urls.deep_view() + urls_of(chars@.skip(from as int)),
        decreases chars.len() - from,
    {
        let to = line_end(chars, from);
        let ghost rest = chars@.skip(from as int);
        let ghost before = urls.deep_view();
        urls.push(trimmed(chars, from, to));
        proof {
            assert(rest.take(to - from) == chars@.subrange(from as int, to as int));
            assert(urls.deep_view() == before.push(trim(rest.take(to - from))));
        }
        if to == chars.len() {
            proof {
                assert(rest.take(to - from) == rest);
                assert(urls_of(rest) == seq![trim(rest)]);
            }
            return urls;
        }
        proof {
            assert(rest.skip(to - from + 1) == chars@.skip(to + 1));
            assert(urls_of(rest) == seq![trim(rest.take(to - from))] + urls_of(
                chars@.skip(to + 1),
            ));
        }
        from = to + 1;
    }
}

} // verus!
