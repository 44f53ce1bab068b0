//! The per-line match decision.
//!
//! A line matches a query either as a contiguous substring of its comparison
//! form, or — in whole-word mode — when some whitespace-delimited token of the
//! comparison form, stripped of leading and trailing non-alphanumeric
//! characters, equals the folded query exactly.

use vstd::prelude::*;

use crate::chars::{case_fold, exec_is_alnum, exec_is_space, is_alnum, is_space};
use crate::strutil::{case_fold_chars, range_eq};

verus! {

/// The needle occurs in the haystack starting at position `i`.
pub open spec fn contains_at(hay: Seq<char>, needle: Seq<char>, i: int) -> bool {
    0 <= i && i + needle.len() <= hay.len() && hay.subrange(i, i + needle.len()) == needle
}

/// The needle occurs somewhere in the haystack. An empty needle occurs in
/// every haystack.
pub open spec fn contains_seq(hay: Seq<char>, needle: Seq<char>) -> bool {
    exists|i: int| contains_at(hay, needle, i)
}

/// `[i, j)` delimits one whitespace-separated token of `s`: a maximal
/// non-empty run of non-whitespace characters.
pub open spec fn is_token_at(s: Seq<char>, i: int, j: int) -> bool {
    &&& 0 <= i < j <= s.len()
    &&& (forall|k: int| i <= k < j ==> !is_space(#[trigger] s[k]))
    &&& (i == 0 || is_space(s[i - 1]))
    &&& (j == s.len() || is_space(s[j]))
}

/// The token with its leading non-alphanumeric characters removed.
pub open spec fn strip_front(t: Seq<char>) -> Seq<char>
    decreases t.len(),
{
    if t.len() > 0 && !is_alnum(t[0]) {
        strip_front(t.drop_first())
    } else {
        t
    }
}

/// The token with its trailing non-alphanumeric characters removed.
pub open spec fn strip_back(t: Seq<char>) -> Seq<char>
    decreases t.len(),
{
    if t.len() > 0 && !is_alnum(t.last()) {
        strip_back(t.drop_last())
    } else {
        t
    }
}

/// The token with non-alphanumeric characters removed from both ends, so that
/// a token like `"(rust)."` reduces to `"rust"`.
pub open spec fn strip(t: Seq<char>) -> Seq<char> {
    strip_back(strip_front(t))
}

/// Whole-word match: some stripped token of `s` equals `q` exactly. Stripped
/// tokens are never empty, so an empty query matches no line in this mode.
pub open spec fn word_match(s: Seq<char>, q: Seq<char>) -> bool {
    q.len() > 0 && exists|i: int, j: int|
        #[trigger] is_token_at(s, i, j) && strip(s.subrange(i, j)) == q
}

/// The per-line decision before inversion, over the comparison forms of line
/// and query.
pub open spec fn line_matches(
    text: Seq<char>,
    q: Seq<char>,
    ignore_case: bool,
    only_match_words: bool,
) -> bool {
    if only_match_words {
        word_match(case_fold(text, ignore_case), case_fold(q, ignore_case))
    } else {
        contains_seq(case_fold(text, ignore_case), case_fold(q, ignore_case))
    }
}

/// Whether a line belongs to the search results: the match decision, flipped
/// when `inverted_match` is set.
pub open spec fn line_is_result(
    text: Seq<char>,
    q: Seq<char>,
    ignore_case: bool,
    only_match_words: bool,
    inverted_match: bool,
) -> bool {
    line_matches(text, q, ignore_case, only_match_words) != inverted_match
}

/// Whether `needle` occurs in `hay` as a contiguous run of characters.
pub fn contains_chars(hay: &Vec<char>, needle: &Vec<char>) -> (r: bool)
    ensures
        r == contains_seq(hay@, needle@),
{
    let n = hay.len();
    let m = needle.len();
    if m == 0 {
        proof {
            assert(hay@.subrange(0, 0) =~= needle@);
            assert(contains_at(hay@, needle@, 0));
        }
        return true;
    }
    if m > n {
        proof {
            if contains_seq(hay@, needle@) {
                let i = choose|i: int| contains_at(hay@, needle@, i);
                assert(i + m <= n);
            }
        }
        return false;
    }
    let mut i: usize = 0;
    while i <= n - m
        invariant
            1 <= m <= n,
            n == hay@.len(),
            m == needle@.len(),
            i <= n - m + 1,
            forall|k: int| 0 <= k < i ==> !contains_at(hay@, needle@, k),
        decreases n - m - i + 1,
    {
        if range_eq(hay, i, i + m, needle, 0, m) {
            proof {
                assert(needle@.subrange(0, m as int) =~= needle@);
                assert(contains_at(hay@, needle@, i as int));
            }
            return true;
        }
        proof {
            assert(needle@.subrange(0, m as int) =~= needle@);
            assert(!contains_at(hay@, needle@, i as int));
        }
        i = i + 1;
    }
    proof {
        if contains_seq(hay@, needle@) {
            let k = choose|k: int| contains_at(hay@, needle@, k);
            assert(k < i);
        }
    }
    false
}

/// The end of the token that begins at `start`: the first whitespace position
/// at or after it, or the end of the line.
fn token_end(line: &Vec<char>, start: usize) -> (j: usize)
    requires
        start < line@.len(),
        !is_space(line@[start as int]),
    ensures
        start < j <= line@.len(),
        forall|k: int| start <= k < j ==> !is_space(#[trigger] line@[k]),
        j == line@.len() || is_space(line@[j as int]),
{
    let n = line.len();
    let mut j: usize = start + 1;
    while j < n && !exec_is_space(line[j])
        invariant
            n == line@.len(),
            start < j <= line@.len(),
            forall|k: int| start <= k < j ==> !is_space(#[trigger] line@[k]),
        decreases line@.len() - j,
    {
        j = j + 1;
    }
    j
}

/// The bounds of the alphanumeric core of `line[from..to]`: the range from
/// the first to the last alphanumeric character, or `None` when there is
/// none.
fn strip_bounds(line: &Vec<char>, from: usize, to: usize) -> (r: Option<(usize, usize)>)
    requires
        from <= to <= line@.len(),
    ensures
        match r {
            Some(bounds) => {
                &&& from <= bounds.0 < bounds.1 <= to
                &&& is_alnum(line@[bounds.0 as int])
                &&& is_alnum(line@[bounds.1 - 1])
                &&& (forall|k: int| from <= k < bounds.0 ==> !is_alnum(#[trigger] line@[k]))
                &&& (forall|k: int| bounds.1 <= k < to ==> !is_alnum(#[trigger] line@[k]))
            },
            None => forall|k: int| from <= k < to ==> !is_alnum(#[trigger] line@[k]),
        },
{
    let mut a: usize = from;
    while a < to && !exec_is_alnum(line[a])
        invariant
            from <= a <= to <= line@.len(),
            forall|k: int| from <= k < a ==> !is_alnum(#[trigger] line@[k]),
        decreases to - a,
    {
        a = a + 1;
    }
    if a == to {
        return None;
    }
    let mut b: usize = to;
    while b > a + 1 && !exec_is_alnum(line[b - 1])
        invariant
            a < b <= to <= line@.len(),
            forall|k: int| b <= k < to ==> !is_alnum(#[trigger] line@[k]),
        decreases b,
    {
        b = b - 1;
    }
    Some((a, b))
}

/// Dropping a prefix of characters that are not alphanumeric, up to the first
/// one that is, is exactly what `strip_front` does.
proof fn lemma_strip_front_skip(t: Seq<char>, a: int)
    requires
        0 <= a <= t.len(),
        forall|k: int| 0 <= k < a ==> !is_alnum(#[trigger] t[k]),
        a == t.len() || is_alnum(t[a]),
    ensures
        strip_front(t) == t.subrange(a, t.len() as int),
    decreases a,
{
    if a == 0 {
        assert(t.subrange(0, t.len() as int) =~= t);
    } else {
        let t2 = t.drop_first();
        assert(forall|k: int| 0 <= k < a - 1 ==> !is_alnum(#[trigger] t2[k]));
        lemma_strip_front_skip(t2, a - 1);
        assert(t2.subrange(a - 1, t2.len() as int) =~= t.subrange(a, t.len() as int));
    }
}

/// Dropping a suffix of characters that are not alphanumeric, back to the
/// last one that is, is exactly what `strip_back` does.
proof fn lemma_strip_back_take(t: Seq<char>, b: int)
    requires
        0 <= b <= t.len(),
        forall|k: int| b <= k < t.len() ==> !is_alnum(#[trigger] t[k]),
        b == 0 || is_alnum(t[b - 1]),
    ensures
        strip_back(t) == t.subrange(0, b),
    decreases t.len() - b,
{
    if b == t.len() {
        assert(t.subrange(0, t.len() as int) =~= t);
    } else {
        let t2 = t.drop_last();
        lemma_strip_back_take(t2, b);
        assert(t2.subrange(0, b) =~= t.subrange(0, b));
    }
}

/// Whether some stripped whitespace-delimited token of `line` equals `q`.
pub fn word_match_chars(line: &Vec<char>, q: &Vec<char>) -> (r: bool)
    ensures
        r == word_match(line@, q@),
{
    let n = line.len();
    if q.len() == 0 {
        return false;
    }
    let mut i: usize = 0;
    while i < n
        invariant
            i <= n,
            n == line@.len(),
            q@.len() > 0,
            forall|i2: int, j2: int|
                #[trigger] is_token_at(line@, i2, j2) && i2 < i ==> strip(
                    line@.subrange(i2, j2),
                ) != q@,
        decreases n - i,
    {
        if !exec_is_space(line[i]) && (i == 0 || exec_is_space(line[i - 1])) {
            let j = token_end(line, i);
            let token_found = match strip_bounds(line, i, j) {
                Some(bounds) => {
                    let eq = range_eq(line, bounds.0, bounds.1, q, 0, q.len());
                    proof {
                        let sub = line@.subrange(i as int, j as int);
                        assert(forall|k: int|
                            0 <= k < bounds.0 - i ==> !is_alnum(#[trigger] sub[k]));
                        lemma_strip_front_skip(sub, bounds.0 - i);
                        let front = sub.subrange(bounds.0 - i, sub.len() as int);
                        assert(forall|k: int|
                            bounds.1 - bounds.0 <= k < front.len() ==> !is_alnum(
                                #[trigger] front[k],
                            ));
                        lemma_strip_back_take(front, bounds.1 - bounds.0);
                        assert(front.subrange(0, bounds.1 - bounds.0) =~= line@.subrange(
                            bounds.0 as int,
                            bounds.1 as int,
                        ));
                        assert(q@.subrange(0, q@.len() as int) =~= q@);
                        assert(strip(sub) == line@.subrange(bounds.0 as int, bounds.1 as int));
                    }
                    eq
                },
                None => {
                    proof {
                        let sub = line@.subrange(i as int, j as int);
                        assert(forall|k: int| 0 <= k < sub.len() ==> !is_alnum(#[trigger] sub[k]));
                        lemma_strip_front_skip(sub, sub.len() as int);
                        lemma_strip_back_take(sub.subrange(sub.len() as int, sub.len() as int), 0);
                        assert(strip(sub).len() == 0);
                    }
                    false
                },
            };
            if token_found {
                proof {
                    assert(is_token_at(line@, i as int, j as int));
                }
                return true;
            }
            proof {
                assert forall|i2: int, j2: int|
                    #[trigger] is_token_at(line@, i2, j2) && i2 < j implies strip(
                    line@.subrange(i2, j2),
                ) != q@ by {
                    if i <= i2 {
                        // No token can begin strictly inside the run [i, j):
                        // the character before it is part of the run, hence
                        // not whitespace.
                        assert(i2 == i) by {
                            if i2 > i {
                                assert(!is_space(line@[i2 - 1]));
                            }
                        }
                        // A token starting at i must end exactly at j, the
                        // first whitespace position after the run.
                        assert(j2 == j) by {
                            if j2 < j {
                                assert(!is_space(line@[j2]));
                            }
                            if j2 > j {
                                assert(!is_space(line@[j as int]));
                            }
                        }
                    }
                }
            }
            i = j;
        } else {
            proof {
                assert forall|i2: int, j2: int|
                    #[trigger] is_token_at(line@, i2, j2) && i2 < i + 1 implies strip(
                    line@.subrange(i2, j2),
                ) != q@ by {
                    if i2 == i {
                        assert(!is_space(line@[i as int]));
                    }
                }
            }
            i = i + 1;
        }
    }
    proof {
        if word_match(line@, q@) {
            let (i2, j2) = choose|i2: int, j2: int|
                #[trigger] is_token_at(line@, i2, j2) && strip(line@.subrange(i2, j2)) == q@;
            assert(i2 < i);
        }
    }
    false
}

/// In whole-word mode a match requires full token equality: whenever a line
/// matches, some whitespace-delimited token of its comparison form strips to
/// exactly the folded query. The query occurring as a strict substring of
/// tokens is never enough.
pub proof fn lemma_whole_word_requires_token_equality(
    text: Seq<char>,
    q: Seq<char>,
    ignore_case: bool,
)
    requires
        line_matches(text, q, ignore_case, true),
    ensures
        exists|i: int, j: int|
            #[trigger] is_token_at(case_fold(text, ignore_case), i, j) && strip(
                case_fold(text, ignore_case).subrange(i, j),
            ) == case_fold(q, ignore_case),
{
}

/// The match decision over comparison forms already folded by the caller, so
/// that a query folded once can be reused across many lines.
pub fn folded_match_chars(ft: &Vec<char>, fq: &Vec<char>, only_match_words: bool) -> (r: bool)
    ensures
        r == if only_match_words {
            word_match(ft@, fq@)
        } else {
            contains_seq(ft@, fq@)
        },
{
    if only_match_words {
        word_match_chars(ft, fq)
    } else {
        contains_chars(ft, fq)
    }
}

/// The full per-line decision before inversion: folds both sides when
/// `ignore_case` is set, then applies substring or whole-word matching.
pub fn line_matches_chars(
    text: &Vec<char>,
    q: &Vec<char>,
    ignore_case: bool,
    only_match_words: bool,
) -> (r: bool)
    ensures
        r == line_matches(text@, q@, ignore_case, only_match_words),
{
    let ft = case_fold_chars(text, ignore_case);
    let fq = case_fold_chars(q, ignore_case);
    folded_match_chars(&ft, &fq, only_match_words)
}

} // verus!
