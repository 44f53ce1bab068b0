//! Filtering lines by the match decision.
//!
//! Searching never alters a surviving line: the original text and the
//! original 1-based index are kept, and the order of the input is preserved.
//! Case folding happens only in the comparison, never in the output.

use vstd::prelude::*;

use crate::chars::case_fold;
use crate::matching::{contains_seq, folded_match_chars, line_is_result, line_matches_chars};
use crate::model::{Content, Line};
use crate::strutil::{case_fold_chars, chars_of};

verus! {

/// The subsequence of `lines` that a search with the given options returns.
pub open spec fn search_filter(
    lines: Seq<Line>,
    q: Seq<char>,
    ignore_case: bool,
    only_match_words: bool,
    inverted_match: bool,
) -> Seq<Line> {
    lines.filter(
        |l: Line| line_is_result(l.text@, q, ignore_case, only_match_words, inverted_match),
    )
}

impl Line {
    /// The line itself when it belongs to the results for the given options,
    /// `None` otherwise.
    pub fn search(
        self,
        query: &str,
        ignore_case: bool,
        only_match_words: bool,
        inverted_match: bool,
    ) -> (r: Option<Line>)
        ensures
            r == if line_is_result(self.text@, query@, ignore_case, only_match_words, inverted_match) {
                Some(self)
            } else {
                None::<Line>
            },
    {
        let tc = chars_of(self.text.as_str());
        let qc = chars_of(query);
        let matched = line_matches_chars(&tc, &qc, ignore_case, only_match_words);
        if matched != inverted_match {
            Some(self)
        } else {
            None
        }
    }
}

impl Content {
    /// The lines that belong to the results, in their original order, each
    /// unchanged.
    pub fn search(
        self,
        query: &str,
        ignore_case: bool,
        only_match_words: bool,
        inverted_match: bool,
    ) -> (r: Self)
        ensures
            r.lines@ == search_filter(
                self.lines@,
                query@,
                ignore_case,
                only_match_words,
                inverted_match,
            ),
    {
        // The folded query is computed once, up front, and reused for every
        // line.
        let qc = chars_of(query);
        let fq = case_fold_chars(&qc, ignore_case);
        let mut out: Vec<Line> = Vec::new();
        let mut i: usize = 0;
        while i < self.lines.len()
            invariant
                i <= self.lines@.len(),
                fq@ == case_fold(query@, ignore_case),
                out@ == search_filter(
                    self.lines@.take(i as int),
                    query@,
                    ignore_case,
                    only_match_words,
                    inverted_match,
                ),
            decreases self.lines@.len() - i,
        {
            let line = self.lines[i].clone();
            let tc = chars_of(line.text.as_str());
            let ft = case_fold_chars(&tc, ignore_case);
            let matched = folded_match_chars(&ft, &fq, only_match_words);
            proof {
                reveal(Seq::filter);
                assert(self.lines@.take(i + 1).drop_last() =~= self.lines@.take(i as int));
                assert(self.lines@.take(i + 1).last() == self.lines@[i as int]);
            }
            if matched != inverted_match {
                out.push(line);
            }
            i = i + 1;
        }
        proof {
            assert(self.lines@.take(self.lines@.len() as int) =~= self.lines@);
        }
        Self { lines: out }
    }
}

/// Inverting the match flips the per-line decision exactly: a line is an
/// inverted result precisely when it is not a plain result under the same
/// other options.
pub proof fn lemma_invert_flips_decision(
    text: Seq<char>,
    q: Seq<char>,
    ignore_case: bool,
    only_match_words: bool,
)
    ensures
        line_is_result(text, q, ignore_case, only_match_words, true) == !line_is_result(
            text,
            q,
            ignore_case,
            only_match_words,
            false,
        ),
{
}

/// Over a whole line set, the inverted search returns exactly the complement
/// of the plain search: the two results are disjoint by the per-line
/// decision, and together they use up the original lines exactly.
pub proof fn lemma_invert_complement(
    lines: Seq<Line>,
    q: Seq<char>,
    ignore_case: bool,
    only_match_words: bool,
)
    ensures
        search_filter(lines, q, ignore_case, only_match_words, true).len() + search_filter(
            lines,
            q,
            ignore_case,
            only_match_words,
            false,
        ).len() == lines.len(),
        search_filter(lines, q, ignore_case, only_match_words, true).to_multiset().add(
            search_filter(lines, q, ignore_case, only_match_words, false).to_multiset(),
        ) == lines.to_multiset(),
        forall|l: Line|
            #[trigger] search_filter(lines, q, ignore_case, only_match_words, true).contains(l)
                ==> !line_is_result(l.text@, q, ignore_case, only_match_words, false),
        forall|l: Line|
            #[trigger] search_filter(lines, q, ignore_case, only_match_words, false).contains(l)
                ==> line_is_result(l.text@, q, ignore_case, only_match_words, false),
    decreases lines.len(),
{
    broadcast use vstd::seq_lib::group_to_multiset_ensures;

    let inverted = search_filter(lines, q, ignore_case, only_match_words, true);
    let plain = search_filter(lines, q, ignore_case, only_match_words, false);
    reveal(Seq::filter);
    if lines.len() == 0 {
        assert(inverted.to_multiset().add(plain.to_multiset()) =~= lines.to_multiset());
    } else {
        let prefix = lines.drop_last();
        let last = lines.last();
        lemma_invert_complement(prefix, q, ignore_case, only_match_words);
        let inverted_prefix = search_filter(prefix, q, ignore_case, only_match_words, true);
        let plain_prefix = search_filter(prefix, q, ignore_case, only_match_words, false);
        assert(prefix.push(last) =~= lines);
        assert(lines.to_multiset() == prefix.to_multiset().insert(last));
        if line_is_result(last.text@, q, ignore_case, only_match_words, true) {
            assert(inverted == inverted_prefix.push(last));
            assert(plain == plain_prefix);
            assert(inverted.to_multiset() == inverted_prefix.to_multiset().insert(last));
            assert(inverted.to_multiset().add(plain.to_multiset()) =~= lines.to_multiset());
            assert forall|l: Line| #[trigger] inverted.contains(l) implies !line_is_result(
                l.text@,
                q,
                ignore_case,
                only_match_words,
                false,
            ) by {
                let idx = choose|idx: int| 0 <= idx < inverted.len() && inverted[idx] == l;
                if idx < inverted.len() - 1 {
                    assert(inverted_prefix[idx] == l);
                    assert(inverted_prefix.contains(l));
                }
            }
        } else {
            assert(plain == plain_prefix.push(last));
            assert(inverted == inverted_prefix);
            assert(plain.to_multiset() == plain_prefix.to_multiset().insert(last));
            assert(inverted.to_multiset().add(plain.to_multiset()) =~= lines.to_multiset());
            assert forall|l: Line| #[trigger] plain.contains(l) implies line_is_result(
                l.text@,
                q,
                ignore_case,
                only_match_words,
                false,
            ) by {
                let idx = choose|idx: int| 0 <= idx < plain.len() && plain[idx] == l;
                if idx < plain.len() - 1 {
                    assert(plain_prefix[idx] == l);
                    assert(plain_prefix.contains(l));
                }
            }
        }
    }
}

/// A line whose comparison form does not contain the folded query is never
/// among the results of a plain substring search (no inversion, no whole-word
/// mode).
pub proof fn lemma_nonmatching_line_excluded(
    lines: Seq<Line>,
    q: Seq<char>,
    ignore_case: bool,
    l: Line,
)
    requires
        !contains_seq(case_fold(l.text@, ignore_case), case_fold(q, ignore_case)),
    ensures
        !search_filter(lines, q, ignore_case, false, false).contains(l),
{
    broadcast use vstd::seq_lib::group_filter_ensures;

    let results = search_filter(lines, q, ignore_case, false, false);
    if results.contains(l) {
        let idx = choose|idx: int| 0 <= idx < results.len() && results[idx] == l;
        assert(line_is_result(results[idx].text@, q, ignore_case, false, false));
    }
}

} // verus!
