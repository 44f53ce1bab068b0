//! The data model: a numbered line of text, and the content of a whole
//! source split into such lines.
//!
//! Splitting treats `'\n'` as the separator. A trailing newline does not
//! produce an extra empty final line; other characters, `'\r'` included, stay
//! part of the line text. Indices are 1-based and reflect the position in the
//! original text; they are never renumbered by later filtering.

use vstd::prelude::*;

use crate::strutil::{chars_of, chars_to_string, vec_range};

verus! {

/// One line of a text: its 1-based position in the original text, and its
/// text without the separating newline.
#[derive(Debug, PartialEq)]
pub struct Line {
    pub index: usize,
    pub text: String,
}

impl Line {
    pub fn new(index: usize, text: String) -> (r: Self)
        ensures
            r.index == index,
            r.text == text,
    {
        Self { index, text }
    }
}

impl Clone for Line {
    fn clone(&self) -> (r: Self)
        ensures
            r == *self,
    {
        Line { index: self.index, text: self.text.clone() }
    }
}

/// An ordered sequence of lines.
#[derive(Debug, PartialEq)]
pub struct Content {
    pub lines: Vec<Line>,
}

/// The position of the first `'\n'` in `t`, or `t.len()` when there is none.
pub open spec fn line_break(t: Seq<char>) -> int
    decreases t.len(),
{
    if t.len() == 0 {
        0
    } else if t[0] == '\n' {
        0
    } else {
        1 + line_break(t.drop_first())
    }
}

/// The segments of `t` delimited by `'\n'`, in order. A trailing newline
/// closes the last segment without opening an empty one.
pub open spec fn split_lines(t: Seq<char>) -> Seq<Seq<char>>
    decreases t.len(),
{
    if t.len() == 0 {
        Seq::empty()
    } else {
        let b = line_break(t);
        if 0 <= b < t.len() {
            seq![t.subrange(0, b)] + split_lines(t.subrange(b + 1, t.len() as int))
        } else {
            seq![t]
        }
    }
}

/// A scan that saw no `'\n'` before position `i` and one at `i` (or the end
/// of the text) has found `line_break`.
proof fn lemma_line_break_at(t: Seq<char>, i: int)
    requires
        0 <= i <= t.len(),
        forall|k: int| 0 <= k < i ==> #[trigger] t[k] != '\n',
        i == t.len() || t[i] == '\n',
    ensures
        line_break(t) == i,
    decreases i,
{
    if i > 0 {
        let t2 = t.drop_first();
        assert(forall|k: int| 0 <= k < i - 1 ==> #[trigger] t2[k] != '\n');
        lemma_line_break_at(t2, i - 1);
    }
}

impl Content {
    /// An empty content.
    pub fn new() -> (r: Self)
        ensures
            r.lines@ =~= Seq::<Line>::empty(),
    {
        Self { lines: Vec::new() }
    }

    /// A content made of the given lines, as they are.
    pub fn from_lines(lines: Vec<Line>) -> (r: Self)
        ensures
            r.lines == lines,
    {
        Self { lines }
    }

    /// Splits a text into its lines, numbering them from 1.
    pub fn from_str(text: &str) -> (r: Self)
        ensures
            r.lines@.len() == split_lines(text@).len(),
            forall|k: int|
                0 <= k < r.lines@.len() ==> (#[trigger] r.lines@[k]).index == k + 1
                    && r.lines@[k].text@ == split_lines(text@)[k],
    {
        let tc = chars_of(text);
        let ghost t = text@;
        let ghost ls = split_lines(t);
        let n = tc.len();
        let mut lines: Vec<Line> = Vec::new();
        let mut pos: usize = 0;
        proof {
            assert(t.subrange(0, n as int) =~= t);
        }
        while pos < n
            invariant
                pos <= n,
                n == t.len(),
                tc@ == t,
                ls == split_lines(t),
                lines@.len() <= pos || (pos == 0 && lines@.len() == 0),
                lines@.len() <= ls.len(),
                split_lines(t.subrange(pos as int, n as int)) == ls.skip(lines@.len() as int),
                forall|k: int|
                    0 <= k < lines@.len() ==> (#[trigger] lines@[k]).index == k + 1
                        && lines@[k].text@ == ls[k],
            decreases n - pos,
        {
            let mut b: usize = pos;
            while b < n && tc[b] != '\n'
                invariant
                    pos <= b <= n,
                    n == t.len(),
                    tc@ == t,
                    forall|k: int| pos <= k < b ==> #[trigger] t[k] != '\n',
                decreases n - b,
            {
                b = b + 1;
            }
            let ghost rest = t.subrange(pos as int, n as int);
            proof {
                assert(forall|k: int| 0 <= k < b - pos ==> #[trigger] rest[k] != '\n');
                lemma_line_break_at(rest, b - pos);
            }
            let piece = vec_range(&tc, pos, b);
            let ghost count = lines@.len() as int;
            let idx = lines.len() + 1;
            lines.push(Line { index: idx, text: chars_to_string(&piece) });
            proof {
                assert(rest.len() == n - pos > 0);
                assert(rest.subrange(0, b - pos) =~= t.subrange(pos as int, b as int));
                if b == n {
                    assert(split_lines(rest) =~= seq![rest]);
                    assert(ls.skip(count) =~= seq![rest]);
                    assert(ls.skip(count).len() == 1);
                    assert(ls.len() == count + 1);
                    assert(ls[count] == ls.skip(count)[0]);
                    assert(rest =~= t.subrange(pos as int, b as int));
                    assert(ls[count] == t.subrange(pos as int, b as int));
                    assert(t.subrange(n as int, n as int).len() == 0);
                    assert(split_lines(t.subrange(n as int, n as int)) =~= ls.skip(count + 1));
                } else {
                    let head = t.subrange(pos as int, b as int);
                    let tail = split_lines(t.subrange(b + 1, n as int));
                    assert(split_lines(rest) == seq![rest.subrange(0, b - pos)] + split_lines(
                        rest.subrange(b - pos + 1, rest.len() as int),
                    ));
                    assert(rest.subrange(b - pos + 1, rest.len() as int) =~= t.subrange(
                        b + 1,
                        n as int,
                    ));
                    assert(ls.skip(count) == seq![head] + tail);
                    assert(ls.skip(count).len() == 1 + tail.len());
                    assert(ls.len() == count + 1 + tail.len());
                    assert(ls[count] == ls.skip(count)[0]);
                    assert((seq![head] + tail)[0] == head);
                    assert(ls[count] == head);
                    assert forall|k: int| 0 <= k < tail.len() implies ls.skip(count + 1)[k]
                        == tail[k] by {
                        assert(ls.skip(count + 1)[k] == ls[count + 1 + k]);
                        assert(ls.skip(count)[k + 1] == ls[count + 1 + k]);
                        assert((seq![head] + tail)[k + 1] == tail[k]);
                    }
                    assert(ls.skip(count + 1) =~= tail);
                }
            }
            if b < n {
                pos = b + 1;
            } else {
                pos = n;
            }
        }
        proof {
            assert(t.subrange(n as int, n as int).len() == 0);
            assert(ls.skip(lines@.len() as int).len() == 0);
        }
        Self { lines }
    }
}

} // verus!
