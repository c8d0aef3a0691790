//! Frames as text: lines of glyphs, each cut after its last glyph that is
//! not blank and closed by a line terminator.

use vstd::prelude::*;
use vstd::string::StringExecFns;

verus! {

/// A line without the blanks at its end.
pub open spec fn trim_blanks(line: Seq<char>) -> Seq<char>
    decreases line.len(),
{
    if line.len() > 0 && line.last() == ' ' {
        trim_blanks(line.drop_last())
    } else {
        line
    }
}

/// The text of a frame: its lines in order, a line terminator after each.
pub open spec fn frame_text(lines: Seq<Seq<char>>) -> Seq<char>
    decreases lines.len(),
{
    if lines.len() == 0 {
        Seq::empty()
    } else {
        frame_text(lines.drop_last()) + lines.last() + seq!['\n']
    }
}

/// What trimming keeps: the shortest start of the line after which only
/// blanks follow.
pub proof fn lemma_trim_blanks(line: Seq<char>)
    ensures
        trim_blanks(line).len() <= line.len(),
        trim_blanks(line) == line.take(trim_blanks(line).len() as int),
        forall|i: int| trim_blanks(line).len() <= i < line.len() ==> line[i] == ' ',
        trim_blanks(line).len() > 0 ==> trim_blanks(line).last() != ' ',
    decreases line.len(),
{
    if line.len() > 0 && line.last() == ' ' {
        let shorter = line.drop_last();
        lemma_trim_blanks(shorter);
        let kept = trim_blanks(shorter).len() as int;
        assert(shorter.take(kept) =~= line.take(kept));
        assert forall|i: int| kept <= i < line.len() implies line[i] == ' ' by {
            if i < shorter.len() {
                assert(shorter[i] == line[i]);
            }
        }
    } else {
        assert(line.take(line.len() as int) =~= line);
    }
}

/// Length of a line without the blanks at its end.
pub fn trimmed_len(line: &Vec<char>) -> (kept: usize)
    ensures
        kept <= line.len(),
        line@.take(kept as int) == trim_blanks(line@),
{
    let mut kept: usize = line.len();
    assert(line@.take(kept as int) =~= line@);
    while kept > 0 && line[kept - 1] == ' '
        invariant
            kept <= line.len(),
            trim_blanks(line@.take(kept as int)) == trim_blanks(line@),
        decreases kept,
    {
        assert(line@.take(kept as int).drop_last() =~= line@.take(kept - 1));
        kept = kept - 1;
    }
    kept
}

/// Appends a line to a text: its glyphs, without the blanks at its end where
/// `trim` is set, and a line terminator.
pub fn push_line(out: &mut String, line: &Vec<char>, trim: bool)
    ensures
        final(out)@ == old(out)@ + (if trim {
            trim_blanks(line@)
        } else {
            line@
        }) + seq!['\n'],
{
    let kept: usize = if trim {
        trimmed_len(line)
    } else {
        line.len()
    };
    let ghost body = line@.take(kept as int);
    assert(!trim ==> body =~= line@);
    let mut i: usize = 0;
    while i < kept
        invariant
            i <= kept <= line.len(),
            out@ == old(out)@ + body.take(i as int),
            body == line@.take(kept as int),
        decreases kept - i,
    {
        out.push(line[i]);
        assert(body.take(i + 1) =~= body.take(i as int).push(line@[i as int]));
        i = i + 1;
    }
    assert(body.take(kept as int) =~= body);
    out.push('\n');
}

/// The HTML page of a text: the text on lines of its own inside one
/// preformatted block, which keeps its spaces and line ends.
pub open spec fn html_page_of(art: Seq<char>) -> Seq<char> {
    "<pre>\n"@ + art + "\n</pre>"@
}

/// Wraps a text into an HTML page.
pub fn html_page(art: &str) -> (page: String)
    ensures
        page@ == html_page_of(art@),
{
    let mut page = String::from_str("<pre>\n");
    page.append(art);
    page.append("\n</pre>");
    page
}

} // verus!
