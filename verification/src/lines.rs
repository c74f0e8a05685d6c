//! The text at the edges of a merge: which of the lines read are kept, and
//! how a result is written out.

use vstd::prelude::*;

verus! {

/// The lines that were decoded, in the order in which they were read.
pub open spec fn decoded(read: Seq<Option<Seq<char>>>) -> Seq<Seq<char>>
    decreases read.len(),
{
    if read.len() == 0 {
        Seq::empty()
    } else {
        match read.last() {
            Some(line) => decoded(read.drop_last()).push(line),
            None => decoded(read.drop_last()),
        }
    }
}

/// The text of `lines`: each line in turn, with a line feed after it.
pub open spec fn rendered(lines: Seq<Seq<char>>) -> Seq<char>
    decreases lines.len(),
{
    if lines.len() == 0 {
        Seq::empty()
    } else {
        rendered(lines.drop_last()) + lines.last() + seq!['\n']
    }
}

/// Keeps the lines that were decoded and drops, without a word, those that
/// were not (`None`).
pub fn keep_decoded(read: &Vec<Option<String>>) -> (lines: Vec<String>)
    ensures
        lines.deep_view() == decoded(read.deep_view()),
{
    let ghost all = read.deep_view();
    let mut lines: Vec<String> = Vec::new();
    let mut i: usize = 0;
    while i < read.len()
        invariant
            all == read.deep_view(),
            i <= read.len(),
            lines.deep_view() == decoded(all.take(i as int)),
        decreases read.len() - i,
    {
        assert(all.take(i + 1).drop_last() =~= all.take(i as int));
        match &read[i] {
            Some(line) => {
                lines.push(line.clone());
            },
            None => {},
        }
        i += 1;
    }
    assert(all.take(read.len() as int) =~= all);
    lines
}

/// Writes `lines` out as one text, a line feed after each of them.
pub fn render_lines(lines: &Vec<String>) -> (text: String)
    ensures
        text@ == rendered(lines.deep_view()),
{
    let ghost all = lines.deep_view();
    let mut text = String::new();
    let mut i: usize = 0;
    while i < lines.len()
        invariant
            all == lines.deep_view(),
            i <= lines.len(),
            text@ == rendered(all.take(i as int)),
        decreases lines.len() - i,
    {
        proof {
            assert(all.take(i + 1).drop_last() =~= all.take(i as int));
            reveal_strlit("\n");
        }
        text.append(lines[i].as_str());
        text.append("\n");
        i += 1;
    }
    assert(all.take(lines.len() as int) =~= all);
    text
}

} // verus!
