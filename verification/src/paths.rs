//! Names of the files that hold the rendered art. Folders are separated by a
//! backslash, and what follows the first dot of a file's name is its
//! extension.

use crate::strings::chars_of;
use vstd::prelude::*;

verus! {

/// What follows the last `sep` of a text: the whole text where it holds
/// none.
pub open spec fn after_last(text: Seq<char>, sep: char) -> Seq<char>
    decreases text.len(),
{
    if text.len() == 0 || text.last() == sep {
        Seq::empty()
    } else {
        after_last(text.drop_last(), sep).push(text.last())
    }
}

/// What precedes the first `sep` of a text: the whole text where it holds
/// none.
pub open spec fn before_first(text: Seq<char>, sep: char) -> Seq<char>
    decreases text.len(),
{
    if text.len() == 0 || text.first() == sep {
        Seq::empty()
    } else {
        seq![text.first()] + before_first(text.drop_first(), sep)
    }
}

/// The name of a file without its folders.
pub open spec fn file_name_of(path: Seq<char>) -> Seq<char> {
    after_last(path, '\\')
}

/// The name of a file without its folders and without its extension.
pub open spec fn stem_of(path: Seq<char>) -> Seq<char> {
    before_first(file_name_of(path), '.')
}

/// Whether a text holds a given character.
pub open spec fn holds(text: Seq<char>, wanted: char) -> bool {
    exists|i: int| 0 <= i < text.len() && text[i] == wanted
}

/// What follows the last `sep` holds no `sep` and ends the text, and stands
/// right behind a `sep` unless it is the whole text.
pub proof fn lemma_after_last(text: Seq<char>, sep: char)
    ensures
        after_last(text, sep).len() <= text.len(),
        after_last(text, sep) == text.skip(text.len() - after_last(text, sep).len()),
        !holds(after_last(text, sep), sep),
        after_last(text, sep).len() < text.len() ==> text[text.len() - after_last(
            text,
            sep,
        ).len() - 1] == sep,
    decreases text.len(),
{
    if text.len() == 0 || text.last() == sep {
        assert(text.skip(text.len() as int) =~= Seq::<char>::empty());
    } else {
        let shorter = text.drop_last();
        lemma_after_last(shorter, sep);
        let tail = after_last(shorter, sep);
        assert(tail.push(text.last()) =~= text.skip(text.len() - tail.len() - 1));
        if holds(after_last(text, sep), sep) {
            let i = choose|i: int|
                0 <= i < after_last(text, sep).len() && after_last(text, sep)[i] == sep;
            assert(tail[i] == sep);
        }
    }
}

/// What precedes the first `sep` holds no `sep` and starts the text, and
/// stands right before a `sep` unless it is the whole text.
pub proof fn lemma_before_first(text: Seq<char>, sep: char)
    ensures
        before_first(text, sep).len() <= text.len(),
        before_first(text, sep) == text.take(before_first(text, sep).len() as int),
        !holds(before_first(text, sep), sep),
        before_first(text, sep).len() < text.len() ==> text[before_first(text, sep).len() as int]
            == sep,
    decreases text.len(),
{
    if text.len() == 0 || text.first() == sep {
        assert(text.take(0) =~= Seq::<char>::empty());
    } else {
        let shorter = text.drop_first();
        lemma_before_first(shorter, sep);
        let head = before_first(shorter, sep);
        assert(seq![text.first()] + head =~= text.take(head.len() as int + 1));
        if holds(before_first(text, sep), sep) {
            let i = choose|i: int|
                0 <= i < before_first(text, sep).len() && before_first(text, sep)[i] == sep;
            assert(head[i - 1] == sep);
        }
    }
}

/// Where the part after the last `sep` starts.
fn start_after_last(chars: &Vec<char>, sep: char) -> (start: usize)
    ensures
        start <= chars.len(),
        chars@.skip(start as int) == after_last(chars@, sep),
{
    let mut start: usize = chars.len();
    assert(chars@.take(start as int) =~= chars@);
    assert(chars@.skip(start as int) =~= Seq::<char>::empty());
    while start > 0 && chars[start - 1] != sep
        invariant
            start <= chars.len(),
            after_last(chars@, sep) == after_last(chars@.take(start as int), sep) + chars@.skip(
                start as int,
            ),
        decreases start,
    {
        proof {
            let ghost front = chars@.take(start as int);
            assert(front.drop_last() =~= chars@.take(start - 1));
            assert(after_last(front, sep) == after_last(chars@.take(start - 1), sep).push(
                chars@[start - 1],
            ));
            assert(after_last(chars@.take(start - 1), sep).push(chars@[start - 1]) + chars@.skip(
                start as int,
            ) =~= after_last(chars@.take(start - 1), sep) + chars@.skip(start - 1));
        }
        start = start - 1;
    }
    proof {
        let ghost front = chars@.take(start as int);
        assert(after_last(front, sep) =~= Seq::<char>::empty());
        assert(Seq::<char>::empty() + chars@.skip(start as int) =~= chars@.skip(start as int));
    }
    start
}

/// Where the part before the first `sep` ends, in the text from `start` on.
fn end_before_first(chars: &Vec<char>, start: usize, sep: char) -> (end: usize)
    requires
        start <= chars.len(),
    ensures
        start <= end <= chars.len(),
        chars@.subrange(start as int, end as int) == before_first(chars@.skip(start as int), sep),
{
    let mut end: usize = start;
    let ghost name = chars@.skip(start as int);
    assert(chars@.subrange(start as int, end as int) =~= Seq::<char>::empty());
    assert(name.skip(0) =~= name);
    while end < chars.len() && chars[end] != sep
        invariant
            start <= end <= chars.len(),
            name == chars@.skip(start as int),
            before_first(name, sep) == chars@.subrange(start as int, end as int) + before_first(
                name.skip(end - start),
                sep,
            ),
        decreases chars.len() - end,
    {
        proof {
            let ghost rest = name.skip(end - start);
            assert(rest.first() == chars@[end as int]);
            assert(rest.drop_first() =~= name.skip(end + 1 - start));
            assert(chars@.subrange(start as int, end as int) + (seq![rest.first()] + before_first(
                rest.drop_first(),
                sep,
            )) =~= chars@.subrange(start as int, end + 1) + before_first(
                rest.drop_first(),
                sep,
            ));
        }
        end = end + 1;
    }
    proof {
        let ghost rest = name.skip(end - start);
        if end < chars.len() {
            assert(rest.first() == chars@[end as int]);
        }
        assert(before_first(rest, sep) =~= Seq::<char>::empty());
        assert(chars@.subrange(start as int, end as int) + Seq::<char>::empty()
            =~= chars@.subrange(start as int, end as int));
    }
    end
}

/// Appends the characters of `chars` from `start` up to `end`.
fn push_range(out: &mut String, chars: &Vec<char>, start: usize, end: usize)
    requires
        start <= end <= chars.len(),
    ensures
        final(out)@ == old(out)@ + chars@.subrange(start as int, end as int),
{
    let mut i: usize = start;
    assert(chars@.subrange(start as int, start as int) =~= Seq::<char>::empty());
    while i < end
        invariant
            start <= i <= end <= chars.len(),
            out@ == old(out)@ + chars@.subrange(start as int, i as int),
        decreases end - i,
    {
        out.push(chars[i]);
        assert(chars@.subrange(start as int, i + 1) =~= chars@.subrange(
            start as int,
            i as int,
        ).push(chars@[i as int]));
        i = i + 1;
    }
}

/// The name of a file without its folders.
pub fn file_name(path: &str) -> (name: String)
    ensures
        name@ == file_name_of(path@),
{
    let chars = chars_of(path);
    let start = start_after_last(&chars, '\\');
    let mut name = String::new();
    push_range(&mut name, &chars, start, chars.len());
    assert(chars@.subrange(start as int, chars@.len() as int) =~= chars@.skip(start as int));
    name
}

/// Where the art of an image goes: the folder `output`, a backslash, and the
/// image's name without its folders and without its extension.
pub fn get_destination(filename: &str, output: &str) -> (destination: String)
    ensures
        destination@ == output@ + seq!['\\'] + stem_of(filename@),
{
    let chars = chars_of(filename);
    let start = start_after_last(&chars, '\\');
    let end = end_before_first(&chars, start, '.');
    let mut destination = output.to_owned();
    destination.push('\\');
    push_range(&mut destination, &chars, start, end);
    destination
}

/// Whether a path names a folder, which is taken to be so where it holds no
/// dot.
pub fn names_folder(path: &str) -> (folder: bool)
    ensures
        folder == !holds(path@, '.'),
{
    let chars = chars_of(path);
    let mut i: usize = 0;
    while i < chars.len()
        invariant
            i <= chars.len(),
            chars@ == path@,
            forall|j: int| 0 <= j < i ==> chars@[j] != '.',
        decreases chars.len() - i,
    {
        if chars[i] == '.' {
            return false;
        }
        i = i + 1;
    }
    true
}

} // verus!
