//! The whole search in one call: split a text into lines, then keep the
//! lines that the options select, numbered by their position in the original
//! text.

use vstd::prelude::*;

use crate::chars::case_fold;
use crate::matching::{folded_match_chars, line_is_result};
use crate::model::{split_lines, Content, Line};
use crate::strutil::{case_fold_chars, chars_of};

verus! {

/// The positions (0-based, in ascending order) of the lines of `ls` that a
/// search with the given options selects, among the first `upto` lines.
pub open spec fn result_indices_upto(
    ls: Seq<Seq<char>>,
    q: Seq<char>,
    ignore_case: bool,
    only_match_words: bool,
    inverted_match: bool,
    upto: int,
) -> Seq<int> {
    Seq::new(upto as nat, |i: int| i).filter(
        |i: int| line_is_result(ls[i], q, ignore_case, only_match_words, inverted_match),
    )
}

/// The positions (0-based, in ascending order) of all lines of `ls` that a
/// search with the given options selects.
pub open spec fn result_indices(
    ls: Seq<Seq<char>>,
    q: Seq<char>,
    ignore_case: bool,
    only_match_words: bool,
    inverted_match: bool,
) -> Seq<int> {
    result_indices_upto(ls, q, ignore_case, only_match_words, inverted_match, ls.len() as int)
}

/// Splits `contents` into lines and returns the lines that the options
/// select: one `Line` per selected position, holding the original text of
/// that line and its 1-based index in the original text.
pub fn search(
    query: &str,
    contents: &str,
    ignore_case: bool,
    only_match_words: bool,
    inverted_match: bool,
) -> (r: Vec<Line>)
    ensures
        ({
            let ls = split_lines(contents@);
            let idxs = result_indices(ls, query@, ignore_case, only_match_words, inverted_match);
            &&& r@.len() == idxs.len()
            &&& forall|k: int|
                0 <= k < r@.len() ==> (#[trigger] r@[k]).index == idxs[k] + 1 && r@[k].text@
                    == ls[idxs[k]]
        }),
{
    let ghost ls = split_lines(contents@);
    let content = Content::from_str(contents);
    // The folded query is computed once, up front, and reused for every
    // line.
    let qc = chars_of(query);
    let fq = case_fold_chars(&qc, ignore_case);
    let n = content.lines.len();
    let mut r: Vec<Line> = Vec::new();
    let mut i: usize = 0;
    while i < n
        invariant
            i <= n,
            n == content.lines@.len() == ls.len(),
            fq@ == case_fold(query@, ignore_case),
            forall|k: int|
                0 <= k < n ==> (#[trigger] content.lines@[k]).index == k + 1
                    && content.lines@[k].text@ == ls[k],
            ({
                let idxs = result_indices_upto(
                    ls,
                    query@,
                    ignore_case,
                    only_match_words,
                    inverted_match,
                    i as int,
                );
                &&& r@.len() == idxs.len()
                &&& forall|k: int|
                    0 <= k < r@.len() ==> (#[trigger] r@[k]).index == idxs[k] + 1 && r@[k].text@
                        == ls[idxs[k]]
            }),
        decreases n - i,
    {
        let line = content.lines[i].clone();
        let tc = chars_of(line.text.as_str());
        let ft = case_fold_chars(&tc, ignore_case);
        let matched = folded_match_chars(&ft, &fq, only_match_words);
        proof {
            reveal(Seq::filter);
            assert(Seq::new((i + 1) as nat, |k: int| k).drop_last() =~= Seq::new(
                i as nat,
                |k: int| k,
            ));
            assert(Seq::new((i + 1) as nat, |k: int| k).last() == i);
        }
        if matched != inverted_match {
            r.push(line);
        }
        i = i + 1;
    }
    r
}

} // verus!
