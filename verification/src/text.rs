//! Byte-level text helpers: trimming a line and splitting it into tokens.
//!
//! OBJ is a line-oriented format.  A line is trimmed of surrounding ASCII
//! whitespace and then split on single space bytes; consecutive separators
//! produce empty tokens, which the record handlers treat individually.

use vstd::prelude::*;
use vstd::slice::slice_subrange;

verus! {

/// The ASCII whitespace bytes: tab through carriage return, and space.
pub open spec fn is_space(b: u8) -> bool {
    b == 32 || (9 <= b && b <= 13)
}

/// `s` with leading ASCII whitespace removed.
pub open spec fn spec_trim_front(s: Seq<u8>) -> Seq<u8>
    decreases s.len(),
{
    if s.len() > 0 && is_space(s[0]) {
        spec_trim_front(s.drop_first())
    } else {
        s
    }
}

/// `s` with trailing ASCII whitespace removed.
pub open spec fn spec_trim_back(s: Seq<u8>) -> Seq<u8>
    decreases s.len(),
{
    if s.len() > 0 && is_space(s.last()) {
        spec_trim_back(s.drop_last())
    } else {
        s
    }
}

/// `s` with both leading and trailing ASCII whitespace removed.
pub open spec fn spec_trim(s: Seq<u8>) -> Seq<u8> {
    spec_trim_back(spec_trim_front(s))
}

/// Splitting `s` on `sep` when the token under construction so far is `cur`:
/// the accumulator form mirrors a single left-to-right scan.
pub open spec fn spec_split_acc(s: Seq<u8>, cur: Seq<u8>, sep: u8) -> Seq<Seq<u8>>
    decreases s.len(),
{
    if s.len() == 0 {
        seq![cur]
    } else if s[0] == sep {
        seq![cur] + spec_split_acc(s.drop_first(), seq![], sep)
    } else {
        spec_split_acc(s.drop_first(), cur.push(s[0]), sep)
    }
}

/// The segments of `s` between occurrences of `sep`, empty segments kept.
/// There is always at least one segment; splitting an empty sequence gives
/// one empty segment.
pub open spec fn spec_split(s: Seq<u8>, sep: u8) -> Seq<Seq<u8>> {
    spec_split_acc(s, seq![], sep)
}

/// The tokens of one line: trim the line, then split it on space bytes.
pub open spec fn spec_tokenize(line: Seq<u8>) -> Seq<Seq<u8>> {
    spec_split(spec_trim(line), 32)
}

/// Remove leading and trailing ASCII whitespace from a byte slice.
pub fn trim_bytes(s: &[u8]) -> (r: &[u8])
    ensures
        r@ == spec_trim(s@),
{
    let mut a: usize = 0;
    assert(s@.skip(0) =~= s@);
    while a < s.len() && (s[a] == 32 || (9 <= s[a] && s[a] <= 13))
        invariant
            0 <= a <= s@.len(),
            spec_trim_front(s@) == spec_trim_front(s@.skip(a as int)),
        decreases s@.len() - a,
    {
        assert(s@.skip(a as int).drop_first() =~= s@.skip(a + 1));
        assert(s@.skip(a as int)[0] == s@[a as int]);
        a = a + 1;
    }
    assert(spec_trim_front(s@) == s@.skip(a as int)) by {
        if a < s@.len() {
            assert(s@.skip(a as int)[0] == s@[a as int]);
        }
    }
    let mut b: usize = s.len();
    assert(s@.subrange(a as int, s@.len() as int) =~= s@.skip(a as int));
    while b > a && (s[b - 1] == 32 || (9 <= s[b - 1] && s[b - 1] <= 13))
        invariant
            0 <= a <= b <= s@.len(),
            spec_trim_back(s@.skip(a as int)) == spec_trim_back(s@.subrange(a as int, b as int)),
        decreases b,
    {
        assert(s@.subrange(a as int, b as int).drop_last() =~= s@.subrange(a as int, b - 1));
        assert(s@.subrange(a as int, b as int).last() == s@[b - 1]);
        b = b - 1;
    }
    assert(spec_trim_back(s@.skip(a as int)) == s@.subrange(a as int, b as int)) by {
        if b > a {
            assert(s@.subrange(a as int, b as int).last() == s@[b - 1]);
        }
    }
    slice_subrange(s, a, b)
}

/// Split a byte slice on a separator byte, keeping empty segments.
pub fn split_bytes(s: &[u8], sep: u8) -> (r: Vec<Vec<u8>>)
    ensures
        r@.map_values(|t: Vec<u8>| t@) == spec_split(s@, sep),
{
    let mut r: Vec<Vec<u8>> = Vec::new();
    let mut cur: Vec<u8> = Vec::new();
    let mut i: usize = 0;
    assert(s@.skip(0) =~= s@);
    while i < s.len()
        invariant
            0 <= i <= s@.len(),
            spec_split(s@, sep) == r@.map_values(|t: Vec<u8>| t@) + spec_split_acc(
                s@.skip(i as int),
                cur@,
                sep,
            ),
        decreases s@.len() - i,
    {
        proof {
            assert(s@.skip(i as int).drop_first() =~= s@.skip(i + 1));
            assert(s@.skip(i as int)[0] == s@[i as int]);
        }
        let b = s[i];
        if b == sep {
            let ghost old_r = r@;
            let ghost old_cur = cur@;
            r.push(cur);
            cur = Vec::new();
            proof {
                assert(r@.map_values(|t: Vec<u8>| t@) =~= old_r.map_values(|t: Vec<u8>| t@)
                    + seq![old_cur]);
                assert(old_r.map_values(|t: Vec<u8>| t@) + (seq![old_cur] + spec_split_acc(
                    s@.skip(i + 1),
                    seq![],
                    sep,
                )) =~= r@.map_values(|t: Vec<u8>| t@) + spec_split_acc(s@.skip(i + 1), seq![], sep));
            }
        } else {
            cur.push(b);
        }
        i = i + 1;
    }
    assert(s@.skip(i as int) =~= Seq::<u8>::empty());
    let ghost old_r = r@;
    let ghost old_cur = cur@;
    r.push(cur);
    proof {
        assert(r@.map_values(|t: Vec<u8>| t@) =~= old_r.map_values(|t: Vec<u8>| t@)
            + seq![old_cur]);
    }
    r
}

/// The whitespace-separated tokens of one OBJ line.
pub fn tokenize(line: &[u8]) -> (r: Vec<Vec<u8>>)
    ensures
        r@.map_values(|t: Vec<u8>| t@) == spec_tokenize(line@),
{
    let trimmed = trim_bytes(line);
    split_bytes(trimmed, 32)
}

} // verus!
