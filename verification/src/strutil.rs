//! Conversions between strings and character vectors, and small verified
//! helpers on character vectors. The matching and highlighting logic works on
//! `Vec<char>`, so the characters of a borrowed `&str` are collected once on
//! entry and a result string is rebuilt once on exit.

use vstd::prelude::*;

use crate::chars::{case_fold, exec_fold_char, fold_seq};

verus! {

/// The characters of a string slice, in order.
pub fn chars_of(s: &str) -> (v: Vec<char>)
    ensures
        v@ == s@,
{
    let n = s.unicode_len();
    let mut v: Vec<char> = Vec::new();
    let mut i: usize = 0;
    while i < n
        invariant
            i <= n,
            n == s@.len(),
            v@ == s@.subrange(0, i as int),
        decreases n - i,
    {
        v.push(s.get_char(i));
        i = i + 1;
        assert(v@ =~= s@.subrange(0, i as int));
    }
    assert(v@ =~= s@);
    v
}

/// Relies on `String::push`: appends exactly the given character.
#[verifier::external_body]
fn string_push(s: &mut String, c: char)
    ensures
        final(s)@ == old(s)@.push(c),
{
    s.push(c);
}

/// A string holding exactly the given characters, in order.
pub fn chars_to_string(v: &Vec<char>) -> (s: String)
    ensures
        s@ == v@,
{
    let mut s = String::new();
    let mut i: usize = 0;
    while i < v.len()
        invariant
            i <= v.len(),
            s@ == v@.subrange(0, i as int),
        decreases v.len() - i,
    {
        string_push(&mut s, v[i]);
        i = i + 1;
        assert(s@ =~= v@.subrange(0, i as int));
    }
    assert(s@ =~= v@);
    s
}

/// The case-folded copy of a character vector.
pub fn fold_chars(v: &Vec<char>) -> (r: Vec<char>)
    ensures
        r@ == fold_seq(v@),
{
    let mut r: Vec<char> = Vec::new();
    let mut i: usize = 0;
    while i < v.len()
        invariant
            i <= v.len(),
            r@ == fold_seq(v@).subrange(0, i as int),
        decreases v.len() - i,
    {
        r.push(exec_fold_char(v[i]));
        i = i + 1;
        assert(r@ =~= fold_seq(v@).subrange(0, i as int));
    }
    assert(r@ =~= fold_seq(v@));
    r
}

/// The comparison form of a character vector: folded when `ignore_case` is
/// set, a plain copy otherwise.
pub fn case_fold_chars(v: &Vec<char>, ignore_case: bool) -> (r: Vec<char>)
    ensures
        r@ == case_fold(v@, ignore_case),
{
    if ignore_case {
        fold_chars(v)
    } else {
        let mut r: Vec<char> = Vec::new();
        let mut i: usize = 0;
        while i < v.len()
            invariant
                i <= v.len(),
                r@ == v@.subrange(0, i as int),
            decreases v.len() - i,
        {
            r.push(v[i]);
            i = i + 1;
            assert(r@ =~= v@.subrange(0, i as int));
        }
        assert(r@ =~= v@);
        r
    }
}

/// A copy of `v[from..to]` as its own vector.
pub fn vec_range(v: &Vec<char>, from: usize, to: usize) -> (r: Vec<char>)
    requires
        from <= to <= v@.len(),
    ensures
        r@ == v@.subrange(from as int, to as int),
{
    let mut r: Vec<char> = Vec::new();
    append_range(&mut r, v, from, to);
    assert(r@ =~= v@.subrange(from as int, to as int));
    r
}

/// Whether two ranges of two character vectors hold the same characters.
pub fn range_eq(a: &Vec<char>, a_from: usize, a_to: usize, b: &Vec<char>, b_from: usize, b_to: usize) -> (r: bool)
    requires
        a_from <= a_to <= a@.len(),
        b_from <= b_to <= b@.len(),
    ensures
        r == (a@.subrange(a_from as int, a_to as int) == b@.subrange(b_from as int, b_to as int)),
{
    if a_to - a_from != b_to - b_from {
        assert(a@.subrange(a_from as int, a_to as int).len() != b@.subrange(
            b_from as int,
            b_to as int,
        ).len());
        return false;
    }
    let len = a_to - a_from;
    let mut i: usize = 0;
    while i < len
        invariant
            i <= len,
            a_from + len <= a@.len(),
            b_from + len <= b@.len(),
            len == a_to - a_from == b_to - b_from,
            forall|k: int| 0 <= k < i ==> a@[a_from + k] == #[trigger] b@[b_from + k],
        decreases len - i,
    {
        if a[a_from + i] != b[b_from + i] {
            assert(a@.subrange(a_from as int, a_to as int)[i as int] != b@.subrange(
                b_from as int,
                b_to as int,
            )[i as int]);
            return false;
        }
        i = i + 1;
    }
    assert forall|k: int| 0 <= k < len implies a@.subrange(a_from as int, a_to as int)[k] == b@.subrange(
        b_from as int,
        b_to as int,
    )[k] by {
        assert(a@[a_from + k] == b@[b_from + k]);
    }
    assert(a@.subrange(a_from as int, a_to as int) =~= b@.subrange(b_from as int, b_to as int));
    true
}

/// Whether two string slices hold the same characters.
pub fn str_eq(a: &str, b: &str) -> (r: bool)
    ensures
        r == (a@ == b@),
{
    let na = a.unicode_len();
    let nb = b.unicode_len();
    if na != nb {
        assert(a@.len() != b@.len());
        return false;
    }
    let mut i: usize = 0;
    while i < na
        invariant
            i <= na,
            na == a@.len() == b@.len(),
            forall|k: int| 0 <= k < i ==> a@[k] == b@[k],
        decreases na - i,
    {
        if a.get_char(i) != b.get_char(i) {
            return false;
        }
        i = i + 1;
    }
    assert(a@ =~= b@);
    true
}

/// Appends `text[from..to]` to `out`.
pub fn append_range(out: &mut Vec<char>, text: &Vec<char>, from: usize, to: usize)
    requires
        from <= to <= text@.len(),
    ensures
        final(out)@ == old(out)@ + text@.subrange(from as int, to as int),
{
    let mut i: usize = from;
    while i < to
        invariant
            from <= i <= to <= text@.len(),
            out@ == old(out)@ + text@.subrange(from as int, i as int),
        decreases to - i,
    {
        out.push(text[i]);
        i = i + 1;
        assert(out@ =~= old(out)@ + text@.subrange(from as int, i as int));
    }
}

} // verus!
