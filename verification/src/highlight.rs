//! Marking every occurrence of the query inside a line.
//!
//! The highlighter makes one left-to-right pass over the line, keeping the
//! length `k` of the longest suffix of the characters seen so far that is a
//! prefix of the query, both sides in comparison form. When `k` reaches the
//! query length, the matched characters — in their original casing — are
//! wrapped in a start and an end marker and `k` restarts at zero, so match
//! spans never overlap. On a mismatch `k` restarts at one when the current
//! character alone begins the query, at zero otherwise. Characters are always
//! emitted in their original casing; markers only bracket them.

use vstd::prelude::*;

use crate::chars::case_fold;
use crate::matching::{contains_at, contains_seq};
use crate::model::{Content, Line};
use crate::strutil::{append_range, case_fold_chars, chars_of, chars_to_string};

verus! {

/// The marker put immediately before a matched span: the escape sequence
/// that turns the terminal red.
pub open spec fn hl_start() -> Seq<char> {
    seq!['\x1b', '[', '3', '1', 'm']
}

/// The marker put immediately after a matched span: the escape sequence that
/// resets the terminal colour.
pub open spec fn hl_end() -> Seq<char> {
    seq!['\x1b', '[', '0', 'm']
}

/// The next prefix-match length after reading comparison character `c` in
/// state `k`: extended on a match, restarted at one when `c` alone begins the
/// query, zero otherwise.
pub open spec fn next_partial(fq: Seq<char>, k: int, c: char) -> int {
    if 0 <= k < fq.len() && c == fq[k] {
        k + 1
    } else if fq.len() > 0 && c == fq[0] {
        1
    } else {
        0
    }
}

/// The output of the highlighting scan from position `i` onward, including
/// the `k` pending characters `text[i - k .. i]` of the current partial
/// match. `ft` and `fq` are the comparison forms of the text and the query.
pub open spec fn hl_from(text: Seq<char>, ft: Seq<char>, fq: Seq<char>, i: int, k: int) -> Seq<
    char,
>
    decreases text.len() - i,
        when 0 <= i <= text.len()
{
    if !(0 <= k <= i <= text.len()) {
        Seq::empty()
    } else if i == text.len() {
        text.subrange(i - k, i)
    } else {
        let k2 = next_partial(fq, k, ft[i]);
        if fq.len() > 0 && k2 == fq.len() {
            if k2 == k + 1 {
                hl_start() + text.subrange(i + 1 - k2, i + 1) + hl_end() + hl_from(
                    text,
                    ft,
                    fq,
                    i + 1,
                    0,
                )
            } else {
                text.subrange(i - k, i) + hl_start() + text.subrange(i, i + 1) + hl_end()
                    + hl_from(text, ft, fq, i + 1, 0)
            }
        } else if k2 == k + 1 {
            hl_from(text, ft, fq, i + 1, k2)
        } else {
            text.subrange(i - k, i + 1 - k2) + hl_from(text, ft, fq, i + 1, k2)
        }
    }
}

/// The marked-up form of a whole line: every occurrence that the scan finds,
/// wrapped in markers; everything else unchanged. An empty query marks
/// nothing and returns the line as it is.
pub open spec fn highlight_spec(text: Seq<char>, q: Seq<char>, ignore_case: bool) -> Seq<char> {
    hl_from(text, case_fold(text, ignore_case), case_fold(q, ignore_case), 0, 0)
}

fn push_start_marker(out: &mut Vec<char>)
    ensures
        final(out)@ == old(out)@ + hl_start(),
{
    out.push('\x1b');
    out.push('[');
    out.push('3');
    out.push('1');
    out.push('m');
    assert(out@ =~= old(out)@ + hl_start());
}

fn push_end_marker(out: &mut Vec<char>)
    ensures
        final(out)@ == old(out)@ + hl_end(),
{
    out.push('\x1b');
    out.push('[');
    out.push('0');
    out.push('m');
    assert(out@ =~= old(out)@ + hl_end());
}

/// The highlighting scan over plain character vectors: `tc` is the original
/// text, `ft` its comparison form, `fq` the query's comparison form.
fn highlight_chars(tc: &Vec<char>, ft: &Vec<char>, fq: &Vec<char>) -> (out: Vec<char>)
    requires
        ft@.len() == tc@.len(),
    ensures
        out@ == hl_from(tc@, ft@, fq@, 0, 0),
{
    let n = tc.len();
    let m = fq.len();
    let mut out: Vec<char> = Vec::new();
    let mut k: usize = 0;
    let mut i: usize = 0;
    while i < n
        invariant
            k <= i <= n,
            n == tc@.len() == ft@.len(),
            m == fq@.len(),
            m > 0 ==> k < m,
            m == 0 ==> k == 0,
            hl_from(tc@, ft@, fq@, 0, 0) == out@ + hl_from(tc@, ft@, fq@, i as int, k as int),
        decreases n - i,
    {
        let ghost k0 = k as int;
        let c = ft[i];
        let k2: usize = if m > 0 && k < m && c == fq[k] {
            k + 1
        } else if m > 0 && c == fq[0] {
            1
        } else {
            0
        };
        proof {
            assert(k2 == next_partial(fq@, k0, ft@[i as int]));
        }
        if m > 0 && k2 == m {
            if k2 == k + 1 {
                push_start_marker(&mut out);
                append_range(&mut out, tc, i + 1 - k2, i + 1);
                push_end_marker(&mut out);
            } else {
                append_range(&mut out, tc, i - k, i);
                push_start_marker(&mut out);
                append_range(&mut out, tc, i, i + 1);
                push_end_marker(&mut out);
            }
            k = 0;
        } else if k2 == k + 1 {
            k = k2;
        } else {
            append_range(&mut out, tc, i - k, i + 1 - k2);
            k = k2;
        }
        proof {
            let t = tc@;
            let f = ft@;
            let q = fq@;
            let hl_i = hl_from(t, f, q, i as int, k0);
            let rest = hl_from(t, f, q, i + 1, k as int);
            if m > 0 && k2 == m {
                if k2 == k0 + 1 {
                    assert(hl_i == hl_start() + t.subrange(i + 1 - k2, i + 1) + hl_end() + rest);
                } else {
                    assert(hl_i == t.subrange(i - k0, i as int) + hl_start() + t.subrange(
                        i as int,
                        i + 1,
                    ) + hl_end() + rest);
                }
            } else if k2 == k0 + 1 {
                assert(hl_i == rest);
            } else {
                assert(hl_i == t.subrange(i - k0, i + 1 - k2) + rest);
            }
            assert(out@ + rest =~= hl_from(t, f, q, 0, 0));
        }
        i = i + 1;
    }
    append_range(&mut out, tc, i - k, i);
    proof {
        assert(hl_from(tc@, ft@, fq@, i as int, k as int) == tc@.subrange(i - k, i as int));
        assert(out@ =~= hl_from(tc@, ft@, fq@, 0, 0));
    }
    out
}

/// The first sequence begins with the second one.
pub open spec fn starts_with(s: Seq<char>, p: Seq<char>) -> bool {
    p.len() <= s.len() && s.subrange(0, p.len() as int) == p
}

/// The sequence with every highlight marker removed: marker sequences are
/// skipped where they begin, every other character is kept.
pub open spec fn strip_markers(s: Seq<char>) -> Seq<char>
    decreases s.len(),
{
    if s.len() == 0 {
        Seq::empty()
    } else if starts_with(s, hl_start()) {
        strip_markers(s.subrange(5, s.len() as int))
    } else if starts_with(s, hl_end()) {
        strip_markers(s.subrange(4, s.len() as int))
    } else {
        seq![s[0]] + strip_markers(s.subrange(1, s.len() as int))
    }
}

/// Characters that are not the escape character pass through `strip_markers`
/// unchanged.
proof fn lemma_strip_plain_prefix(p: Seq<char>, s: Seq<char>)
    requires
        forall|j: int| 0 <= j < p.len() ==> #[trigger] p[j] != '\x1b',
    ensures
        strip_markers(p + s) == p + strip_markers(s),
    decreases p.len(),
{
    if p.len() == 0 {
        assert(p + s =~= s);
        assert(p + strip_markers(s) =~= strip_markers(s));
    } else {
        let t = p + s;
        assert(t[0] == p[0]);
        assert(hl_start()[0] == '\x1b');
        assert(hl_end()[0] == '\x1b');
        assert(!starts_with(t, hl_start())) by {
            if starts_with(t, hl_start()) {
                assert(t.subrange(0, 5)[0] == t[0]);
            }
        }
        assert(!starts_with(t, hl_end())) by {
            if starts_with(t, hl_end()) {
                assert(t.subrange(0, 4)[0] == t[0]);
            }
        }
        let p2 = p.subrange(1, p.len() as int);
        assert(t.subrange(1, t.len() as int) =~= p2 + s);
        lemma_strip_plain_prefix(p2, s);
        assert(seq![p[0]] + (p2 + strip_markers(s)) =~= p + strip_markers(s));
    }
}

/// A start marker at the front is removed whole.
proof fn lemma_strip_start_marker(s: Seq<char>)
    ensures
        strip_markers(hl_start() + s) == strip_markers(s),
{
    let t = hl_start() + s;
    assert(t.subrange(0, 5) =~= hl_start());
    assert(t.subrange(5, t.len() as int) =~= s);
}

/// An end marker at the front is removed whole.
proof fn lemma_strip_end_marker(s: Seq<char>)
    ensures
        strip_markers(hl_end() + s) == strip_markers(s),
{
    let t = hl_end() + s;
    assert(!starts_with(t, hl_start())) by {
        if starts_with(t, hl_start()) {
            assert(t.subrange(0, 5)[2] == t[2]);
            assert(t[2] == hl_end()[2]);
        }
    }
    assert(t.subrange(0, 4) =~= hl_end());
    assert(t.subrange(4, t.len() as int) =~= s);
}

/// From any scan state, stripping the markers out of the scan's output gives
/// back exactly the unprocessed part of the text, pending characters
/// included — provided the text itself holds no escape character.
proof fn lemma_hl_from_strip(text: Seq<char>, ft: Seq<char>, fq: Seq<char>, i: int, k: int)
    requires
        0 <= k <= i <= text.len(),
        forall|j: int| 0 <= j < text.len() ==> #[trigger] text[j] != '\x1b',
    ensures
        strip_markers(hl_from(text, ft, fq, i, k)) == text.subrange(i - k, text.len() as int),
    decreases text.len() - i,
{
    let n = text.len() as int;
    if i == n {
        let pend = text.subrange(i - k, i);
        assert(pend + Seq::<char>::empty() =~= pend);
        lemma_strip_plain_prefix(pend, Seq::<char>::empty());
        assert(pend + strip_markers(Seq::<char>::empty()) =~= pend);
    } else {
        let k2 = next_partial(fq, k, ft[i]);
        if fq.len() > 0 && k2 == fq.len() {
            lemma_hl_from_strip(text, ft, fq, i + 1, 0);
            let rest = hl_from(text, ft, fq, i + 1, 0);
            if k2 == k + 1 {
                let sub = text.subrange(i + 1 - k2, i + 1);
                assert(hl_start() + sub + hl_end() + rest =~= hl_start() + (sub + (hl_end()
                    + rest)));
                lemma_strip_start_marker(sub + (hl_end() + rest));
                lemma_strip_plain_prefix(sub, hl_end() + rest);
                lemma_strip_end_marker(rest);
                assert(sub + text.subrange(i + 1, n) =~= text.subrange(i - k, n));
            } else {
                let pend = text.subrange(i - k, i);
                let cur = text.subrange(i, i + 1);
                assert(pend + hl_start() + cur + hl_end() + rest =~= pend + (hl_start() + (cur + (
                hl_end() + rest))));
                lemma_strip_plain_prefix(pend, hl_start() + (cur + (hl_end() + rest)));
                lemma_strip_start_marker(cur + (hl_end() + rest));
                lemma_strip_plain_prefix(cur, hl_end() + rest);
                lemma_strip_end_marker(rest);
                assert(pend + (cur + text.subrange(i + 1, n)) =~= text.subrange(i - k, n));
            }
        } else if k2 == k + 1 {
            lemma_hl_from_strip(text, ft, fq, i + 1, k2);
        } else {
            lemma_hl_from_strip(text, ft, fq, i + 1, k2);
            let pend = text.subrange(i - k, i + 1 - k2);
            let rest = hl_from(text, ft, fq, i + 1, k2);
            lemma_strip_plain_prefix(pend, rest);
            assert(pend + text.subrange(i + 1 - k2, n) =~= text.subrange(i - k, n));
        }
    }
}

/// Round trip: stripping all markers from the marked-up line reproduces the
/// line exactly, for any query, as long as the line itself holds no escape
/// character.
pub proof fn lemma_strip_markers_round_trip(text: Seq<char>, q: Seq<char>, ignore_case: bool)
    requires
        forall|j: int| 0 <= j < text.len() ==> #[trigger] text[j] != '\x1b',
    ensures
        strip_markers(highlight_spec(text, q, ignore_case)) == text,
{
    lemma_hl_from_strip(
        text,
        case_fold(text, ignore_case),
        case_fold(q, ignore_case),
        0,
        0,
    );
    assert(text.subrange(0, text.len() as int) =~= text);
}

/// From any scan state whose pending characters match a prefix of the query,
/// a text whose comparison form nowhere contains the query is emitted
/// unchanged: no match span ever completes.
proof fn lemma_hl_from_no_match(text: Seq<char>, ft: Seq<char>, fq: Seq<char>, i: int, k: int)
    requires
        ft.len() == text.len(),
        0 <= k <= i <= text.len(),
        k < fq.len(),
        ft.subrange(i - k, i) == fq.subrange(0, k),
        !contains_seq(ft, fq),
    ensures
        hl_from(text, ft, fq, i, k) == text.subrange(i - k, text.len() as int),
    decreases text.len() - i,
{
    let n = text.len() as int;
    if i < n {
        let c = ft[i];
        let k2 = next_partial(fq, k, c);
        if fq.len() > 0 && k2 == fq.len() {
            if k2 == k + 1 {
                assert(ft.subrange(i + 1 - k2, i + 1) =~= fq) by {
                    assert forall|j: int| 0 <= j < k2 implies ft.subrange(i + 1 - k2, i + 1)[j]
                        == fq[j] by {
                        if j < k {
                            assert(ft.subrange(i - k, i)[j] == fq.subrange(0, k)[j]);
                        }
                    }
                }
                assert(contains_at(ft, fq, i + 1 - k2));
            } else {
                assert(ft.subrange(i, i + 1) =~= fq);
                assert(contains_at(ft, fq, i));
            }
        } else if k2 == k + 1 {
            assert(ft.subrange(i + 1 - k2, i + 1) =~= fq.subrange(0, k2)) by {
                assert forall|j: int| 0 <= j < k2 implies ft.subrange(i + 1 - k2, i + 1)[j]
                    == fq.subrange(0, k2)[j] by {
                    if j < k {
                        assert(ft.subrange(i - k, i)[j] == fq.subrange(0, k)[j]);
                    }
                }
            }
            lemma_hl_from_no_match(text, ft, fq, i + 1, k2);
        } else {
            if k2 == 1 {
                assert(fq.len() != 1);
                assert(ft.subrange(i, i + 1) =~= fq.subrange(0, 1));
            } else {
                assert(ft.subrange(i + 1, i + 1) =~= fq.subrange(0, 0));
            }
            lemma_hl_from_no_match(text, ft, fq, i + 1, k2);
            assert(text.subrange(i - k, i + 1 - k2) + text.subrange(i + 1 - k2, n) =~= text.subrange(
                i - k,
                n,
            ));
        }
    }
}

/// Highlighting is the identity on a line whose comparison form nowhere
/// contains the query's comparison form.
pub proof fn lemma_highlight_unchanged_without_match(
    text: Seq<char>,
    q: Seq<char>,
    ignore_case: bool,
)
    requires
        !contains_seq(case_fold(text, ignore_case), case_fold(q, ignore_case)),
    ensures
        highlight_spec(text, q, ignore_case) == text,
{
    let ft = case_fold(text, ignore_case);
    let fq = case_fold(q, ignore_case);
    assert(fq.len() > 0) by {
        if fq.len() == 0 {
            assert(ft.subrange(0, 0) =~= fq);
            assert(contains_at(ft, fq, 0));
        }
    }
    assert(ft.subrange(0, 0) =~= fq.subrange(0, 0));
    lemma_hl_from_no_match(text, ft, fq, 0, 0);
    assert(text.subrange(0, text.len() as int) =~= text);
}

impl Line {
    /// The line's text with every occurrence of the query that the scan
    /// finds wrapped in highlight markers.
    pub fn highlight(&self, query: &str, ignore_case: bool) -> (r: String)
        ensures
            r@ == highlight_spec(self.text@, query@, ignore_case),
    {
        let tc = chars_of(self.text.as_str());
        let ft = case_fold_chars(&tc, ignore_case);
        let qc = chars_of(query);
        let fq = case_fold_chars(&qc, ignore_case);
        let out = highlight_chars(&tc, &ft, &fq);
        chars_to_string(&out)
    }
}

impl Content {
    /// Every line marked up independently; indices are kept as they are.
    pub fn highlight(&self, query: &str, ignore_case: bool) -> (r: Self)
        ensures
            r.lines@.len() == self.lines@.len(),
            forall|k: int|
                0 <= k < self.lines@.len() ==> (#[trigger] r.lines@[k]).index
                    == self.lines@[k].index && r.lines@[k].text@ == highlight_spec(
                    self.lines@[k].text@,
                    query@,
                    ignore_case,
                ),
    {
        let mut out: Vec<Line> = Vec::new();
        let mut i: usize = 0;
        while i < self.lines.len()
            invariant
                i <= self.lines@.len(),
                out@.len() == i,
                forall|k: int|
                    0 <= k < i ==> (#[trigger] out@[k]).index == self.lines@[k].index
                        && out@[k].text@ == highlight_spec(
                        self.lines@[k].text@,
                        query@,
                        ignore_case,
                    ),
            decreases self.lines@.len() - i,
        {
            let marked = self.lines[i].highlight(query, ignore_case);
            let idx = self.lines[i].index;
            out.push(Line { index: idx, text: marked });
            i = i + 1;
        }
        Self { lines: out }
    }
}

} // verus!
