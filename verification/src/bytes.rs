//! Byte-level scanning primitives: searching, ASCII case folding, trimming
//! and decimal parsing, each as a spec function with a verified executable
//! mirror.

use vstd::prelude::*;
use vstd::slice::slice_subrange;

verus! {

/// ASCII lower-casing of one byte.
pub open spec fn lower_byte(c: u8) -> u8 {
    if 65 <= c && c <= 90 {
        (c + 32) as u8
    } else {
        c
    }
}

/// ASCII lower-casing of a byte sequence.
pub open spec fn lower(s: Seq<u8>) -> Seq<u8> {
    Seq::new(s.len(), |i: int| lower_byte(s[i]))
}

/// The ASCII whitespace bytes (space, tab, line feed, vertical tab, form
/// feed, carriage return).
pub open spec fn is_space(c: u8) -> bool {
    c == 32 || (9 <= c && c <= 13)
}

/// An ASCII decimal digit.
pub open spec fn is_digit(c: u8) -> bool {
    48 <= c && c <= 57
}

/// Index of the first occurrence of byte `b` at or after `i`, or `s.len()`
/// if there is none.
pub open spec fn find_byte_from(s: Seq<u8>, b: u8, i: int) -> int
    decreases s.len() - i,
{
    if i < 0 || i >= s.len() {
        s.len() as int
    } else if s[i] == b {
        i
    } else {
        find_byte_from(s, b, i + 1)
    }
}

/// The pattern `pat` occurs in `s` starting at index `i`.
pub open spec fn match_at(s: Seq<u8>, pat: Seq<u8>, i: int) -> bool {
    &&& 0 <= i
    &&& i + pat.len() <= s.len()
    &&& s.subrange(i, i + pat.len()) == pat
}

/// A byte search starting inside the sequence ends inside it, and lands on
/// the byte it looked for.
pub proof fn lemma_find_byte_from_bounds(s: Seq<u8>, b: u8, i: int)
    requires
        0 <= i <= s.len(),
    ensures
        i <= find_byte_from(s, b, i) <= s.len(),
        find_byte_from(s, b, i) < s.len() ==> s[find_byte_from(s, b, i)] == b,
    decreases s.len() - i,
{
    if i < s.len() && s[i] != b {
        lemma_find_byte_from_bounds(s, b, i + 1);
    }
}

/// `s` has `pat` as a contiguous subsequence.
pub open spec fn contains_seq(s: Seq<u8>, pat: Seq<u8>) -> bool {
    exists|i: int| match_at(s, pat, i)
}

/// `s` begins with `pat`.
pub open spec fn starts_with(s: Seq<u8>, pat: Seq<u8>) -> bool {
    match_at(s, pat, 0)
}

/// Index of the first occurrence of `pat` at or after `i`, or `s.len()` if
/// there is none.
pub open spec fn find_seq_from(s: Seq<u8>, pat: Seq<u8>, i: int) -> int
    decreases s.len() - i,
{
    if pat.len() == 0 || i < 0 || i + pat.len() > s.len() {
        s.len() as int
    } else if match_at(s, pat, i) {
        i
    } else {
        find_seq_from(s, pat, i + 1)
    }
}

/// Index of the first non-whitespace byte at or after `i`, or `s.len()`.
pub open spec fn skip_space_from(s: Seq<u8>, i: int) -> int
    decreases s.len() - i,
{
    if i < 0 || i >= s.len() {
        s.len() as int
    } else if is_space(s[i]) {
        skip_space_from(s, i + 1)
    } else {
        i
    }
}

/// Index of the first whitespace byte at or after `i`, or `s.len()`.
pub open spec fn skip_nonspace_from(s: Seq<u8>, i: int) -> int
    decreases s.len() - i,
{
    if i < 0 || i >= s.len() {
        s.len() as int
    } else if is_space(s[i]) {
        i
    } else {
        skip_nonspace_from(s, i + 1)
    }
}

/// One past the last non-whitespace byte of `s.take(j)`, or `0` if there is
/// none.
pub open spec fn trim_end_from(s: Seq<u8>, j: int) -> int
    decreases j,
{
    if j <= 0 || j > s.len() {
        0
    } else if is_space(s[j - 1]) {
        trim_end_from(s, j - 1)
    } else {
        j
    }
}

/// `s` with leading and trailing ASCII whitespace removed.
pub open spec fn trim(s: Seq<u8>) -> Seq<u8> {
    let a = skip_space_from(s, 0);
    let b = trim_end_from(s, s.len() as int);
    if a >= b {
        Seq::empty()
    } else {
        s.subrange(a, b)
    }
}

/// Every byte of `s` is a decimal digit.
pub open spec fn all_digits(s: Seq<u8>) -> bool {
    forall|i: int| 0 <= i < s.len() ==> is_digit(s[i])
}

/// The value of `s` read as a decimal numeral.
pub open spec fn digits_val(s: Seq<u8>) -> int
    decreases s.len(),
{
    if s.len() == 0 {
        0
    } else {
        digits_val(s.drop_last()) * 10 + (s.last() - 48)
    }
}

/// What `s` parses to as an unsigned machine integer: an optional leading
/// plus sign, then at least one digit, with a value that fits in `usize`;
/// anything else fails.
pub open spec fn parse_usize(s: Seq<u8>) -> Option<int> {
    let t = if s.len() > 0 && s[0] == 43 {
        s.skip(1)
    } else {
        s
    };
    if t.len() > 0 && all_digits(t) && digits_val(t) <= usize::MAX {
        Some(digits_val(t))
    } else {
        None
    }
}

pub fn lower_byte_exec(c: u8) -> (r: u8)
    ensures
        r == lower_byte(c),
{
    if 65 <= c && c <= 90 {
        c + 32
    } else {
        c
    }
}

pub fn lower_exec(s: &[u8]) -> (r: Vec<u8>)
    ensures
        r@ == lower(s@),
{
    let mut r: Vec<u8> = Vec::new();
    let mut i: usize = 0;
    while i < s.len()
        invariant
            i <= s@.len(),
            r@.len() == i,
            forall|k: int| 0 <= k < i ==> r@[k] == lower_byte(s@[k]),
        decreases s@.len() - i,
    {
        r.push(lower_byte_exec(s[i]));
        i += 1;
    }
    proof {
        assert(r@ =~= lower(s@));
    }
    r
}

pub fn is_space_exec(c: u8) -> (r: bool)
    ensures
        r == is_space(c),
{
    c == 32 || (9 <= c && c <= 13)
}

pub fn find_byte(s: &[u8], b: u8, i: usize) -> (r: usize)
    requires
        i <= s@.len(),
    ensures
        r == find_byte_from(s@, b, i as int),
        i <= r <= s@.len(),
    decreases s@.len() - i,
{
    if i >= s.len() {
        s.len()
    } else if s[i] == b {
        i
    } else {
        find_byte(s, b, i + 1)
    }
}

pub fn skip_space(s: &[u8], i: usize) -> (r: usize)
    requires
        i <= s@.len(),
    ensures
        r == skip_space_from(s@, i as int),
        i <= r <= s@.len(),
    decreases s@.len() - i,
{
    if i >= s.len() {
        s.len()
    } else if is_space_exec(s[i]) {
        skip_space(s, i + 1)
    } else {
        i
    }
}

pub fn skip_nonspace(s: &[u8], i: usize) -> (r: usize)
    requires
        i <= s@.len(),
    ensures
        r == skip_nonspace_from(s@, i as int),
        i <= r <= s@.len(),
    decreases s@.len() - i,
{
    if i >= s.len() {
        s.len()
    } else if is_space_exec(s[i]) {
        i
    } else {
        skip_nonspace(s, i + 1)
    }
}

pub fn check_match_at(s: &[u8], pat: &[u8], i: usize) -> (r: bool)
    requires
        i + pat@.len() <= s@.len(),
    ensures
        r == match_at(s@, pat@, i as int),
{
    let slen = s.len();
    let mut j: usize = 0;
    while j < pat.len()
        invariant
            j <= pat@.len(),
            i + pat@.len() <= s@.len(),
            slen == s@.len(),
            forall|k: int| 0 <= k < j ==> s@[i + k] == pat@[k],
        decreases pat@.len() - j,
    {
        if s[i + j] != pat[j] {
            proof {
                let sub = s@.subrange(i as int, i + pat@.len());
                assert(sub[j as int] == s@[i + j]);
            }
            return false;
        }
        j += 1;
    }
    proof {
        assert(s@.subrange(i as int, i + pat@.len()) =~= pat@);
    }
    true
}

pub fn find_seq(s: &[u8], pat: &[u8], i: usize) -> (r: usize)
    requires
        i <= s@.len(),
        pat@.len() >= 1,
    ensures
        r == find_seq_from(s@, pat@, i as int),
        r <= s@.len(),
    decreases s@.len() - i,
{
    if pat.len() > s.len() || i > s.len() - pat.len() {
        s.len()
    } else if check_match_at(s, pat, i) {
        i
    } else {
        find_seq(s, pat, i + 1)
    }
}

/// The first match that `find_seq_from` reports is a match, nothing before
/// it matches, and the sentinel `s.len()` means that nothing at or after `i`
/// matches.
pub proof fn lemma_find_seq_from_props(s: Seq<u8>, pat: Seq<u8>, i: int)
    requires
        pat.len() >= 1,
        0 <= i <= s.len(),
    ensures
        i <= find_seq_from(s, pat, i) <= s.len(),
        find_seq_from(s, pat, i) < s.len() ==> match_at(s, pat, find_seq_from(s, pat, i)),
        forall|j: int| i <= j < find_seq_from(s, pat, i) ==> !match_at(s, pat, j),
        find_seq_from(s, pat, i) == s.len() ==> forall|j: int| i <= j ==> !match_at(s, pat, j),
    decreases s.len() - i,
{
    if i + pat.len() > s.len() {
        assert forall|j: int| i <= j implies !match_at(s, pat, j) by {}
    } else if match_at(s, pat, i) {
    } else {
        lemma_find_seq_from_props(s, pat, i + 1);
    }
}

/// `contains_seq` decided by searching from the start.
pub fn contains_exec(s: &[u8], pat: &[u8]) -> (r: bool)
    requires
        pat@.len() >= 1,
    ensures
        r == contains_seq(s@, pat@),
{
    let f = find_seq(s, pat, 0);
    proof {
        lemma_find_seq_from_props(s@, pat@, 0);
        if f < s@.len() {
            assert(match_at(s@, pat@, f as int));
        } else {
            assert forall|j: int| !match_at(s@, pat@, j) by {
                if 0 <= j {
                    assert(!match_at(s@, pat@, j));
                }
            }
        }
    }
    f < s.len()
}

pub fn starts_with_exec(s: &[u8], pat: &[u8]) -> (r: bool)
    ensures
        r == starts_with(s@, pat@),
{
    if pat.len() > s.len() {
        return false;
    }
    check_match_at(s, pat, 0)
}

/// The trimmed sequence, returned as a subslice.
pub fn trim_exec<'a>(s: &'a [u8]) -> (r: &'a [u8])
    ensures
        r@ == trim(s@),
{
    let a = skip_space(s, 0);
    let mut b: usize = s.len();
    while b > 0 && is_space_exec(s[b - 1])
        invariant
            b <= s@.len(),
            trim_end_from(s@, s@.len() as int) == trim_end_from(s@, b as int),
        decreases b,
    {
        b -= 1;
    }
    if a >= b {
        proof {
            assert(Seq::<u8>::empty() =~= s@.subrange(0, 0));
        }
        slice_subrange(s, 0, 0)
    } else {
        slice_subrange(s, a, b)
    }
}

/// The decimal value of a digit string never shrinks as the string grows.
pub proof fn lemma_digits_val_bounds(t: Seq<u8>, i: int)
    requires
        all_digits(t),
        0 <= i <= t.len(),
    ensures
        0 <= digits_val(t.take(i)) <= digits_val(t),
    decreases t.len() - i,
{
    lemma_digits_val_nonneg(t.take(i));
    if i == t.len() {
        assert(t.take(i) =~= t);
    } else {
        lemma_digits_val_bounds(t, i + 1);
        assert(t.take(i + 1).drop_last() =~= t.take(i));
        assert(t.take(i + 1).last() == t[i]);
        lemma_digits_val_nonneg(t.take(i));
    }
}

/// A string of digits has a non-negative value.
pub proof fn lemma_digits_val_nonneg(t: Seq<u8>)
    requires
        all_digits(t),
    ensures
        digits_val(t) >= 0,
    decreases t.len(),
{
    if t.len() > 0 {
        assert(all_digits(t.drop_last()));
        lemma_digits_val_nonneg(t.drop_last());
    }
}

pub fn parse_usize_exec(s: &[u8]) -> (r: Option<usize>)
    ensures
        match r {
            Some(v) => parse_usize(s@) == Some(v as int),
            None => parse_usize(s@) is None,
        },
{
    let start: usize = if s.len() > 0 && s[0] == 43 {
        1
    } else {
        0
    };
    let ghost t = if s@.len() > 0 && s@[0] == 43 {
        s@.skip(1)
    } else {
        s@
    };
    proof {
        assert(t =~= s@.subrange(start as int, s@.len() as int));
    }
    if s.len() == start {
        return None;
    }
    let mut acc: usize = 0;
    let mut i: usize = start;
    while i < s.len()
        invariant
            start <= i <= s@.len(),
            start <= 1,
            t == s@.subrange(start as int, s@.len() as int),
            t == (if s@.len() > 0 && s@[0] == 43 {
                s@.skip(1)
            } else {
                s@
            }),
            all_digits(t.take(i - start)),
            acc == digits_val(t.take(i - start)),
        decreases s@.len() - i,
    {
        let c = s[i];
        if !(48 <= c && c <= 57) {
            proof {
                assert(t[i - start] == c);
                assert(!is_digit(t[i - start]));
            }
            return None;
        }
        let d = (c - 48) as usize;
        proof {
            assert(t[i - start] == c);
            assert(t.take(i - start + 1).drop_last() =~= t.take(i - start));
            assert(t.take(i - start + 1).last() == t[i - start]);
        }
        if acc > (usize::MAX - d) / 10 {
            proof {
                lemma_digits_val_nonneg(t.take(i - start));
                assert(acc * 10 + d > usize::MAX) by {
                    assert(acc >= (usize::MAX - d) / 10 + 1);
                    assert(((usize::MAX - d) / 10 + 1) * 10 == ((usize::MAX - d) / 10) * 10 + 10);
                    assert(((usize::MAX - d) / 10) * 10 > (usize::MAX - d) - 10) by (nonlinear_arith);
                    assert(acc * 10 >= ((usize::MAX - d) / 10 + 1) * 10) by (nonlinear_arith)
                        requires
                            acc >= (usize::MAX - d) / 10 + 1,
                    ;
                }
                if all_digits(t) {
                    lemma_digits_val_bounds(t, i - start + 1);
                    assert(digits_val(t) >= digits_val(t.take(i - start + 1)));
                    assert(digits_val(t.take(i - start + 1)) == acc * 10 + d);
                }
            }
            return None;
        }
        proof {
            assert(acc <= (usize::MAX - d) / 10);
            assert(acc * 10 <= ((usize::MAX - d) / 10) * 10) by (nonlinear_arith)
                requires
                    acc <= (usize::MAX - d) / 10,
            ;
            assert(((usize::MAX - d) / 10) * 10 <= usize::MAX - d);
        }
        acc = acc * 10 + d;
        i += 1;
    }
    proof {
        assert(t.take(i - start) =~= t);
    }
    Some(acc)
}

/// Byte-for-byte equality of two slices.
pub fn eq_bytes(a: &[u8], b: &[u8]) -> (r: bool)
    ensures
        r == (a@ == b@),
{
    if a.len() != b.len() {
        return false;
    }
    let mut i: usize = 0;
    while i < a.len()
        invariant
            i <= a@.len(),
            a@.len() == b@.len(),
            forall|k: int| 0 <= k < i ==> a@[k] == b@[k],
        decreases a@.len() - i,
    {
        if a[i] != b[i] {
            return false;
        }
        i += 1;
    }
    proof {
        assert(a@ =~= b@);
    }
    true
}

/// A fresh vector holding the bytes of `s`.
pub fn to_vec_exec(s: &[u8]) -> (r: Vec<u8>)
    ensures
        r@ == s@,
{
    let mut v: Vec<u8> = Vec::new();
    push_all(&mut v, s);
    proof {
        assert(Seq::<u8>::empty() + s@ =~= s@);
    }
    v
}

/// Appends all of `s` to `v`.
pub fn push_all(v: &mut Vec<u8>, s: &[u8])
    ensures
        final(v)@ == old(v)@ + s@,
{
    let mut i: usize = 0;
    while i < s.len()
        invariant
            i <= s@.len(),
            v@ == old(v)@ + s@.take(i as int),
        decreases s@.len() - i,
    {
        v.push(s[i]);
        proof {
            assert(old(v)@ + s@.take(i as int) + seq![s@[i as int]] =~= old(v)@ + s@.take(
                i + 1,
            ));
        }
        i += 1;
    }
    proof {
        assert(s@.take(i as int) =~= s@);
    }
}

} // verus!
