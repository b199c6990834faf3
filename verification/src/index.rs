//! Resolution of one face-vertex token into absolute zero-based indices.
//!
//! A face-vertex token is up to three `/`-separated fields, `v/vt/vn`.  A
//! field, when present, is a signed decimal integer: a positive value `n` is
//! the 1-based absolute index `n - 1`; a negative value counts backward from
//! the current end of the corresponding buffer, so `-1` is the most recently
//! appended element.  An absent field leaves the sentinel `0`.  A resolved
//! index must lie within the corresponding buffer, counted at the time the
//! face record is parsed; anything else rejects the token.

use vstd::prelude::*;
use crate::text::{spec_split, split_bytes};

verus! {

/// An ASCII decimal digit.
pub open spec fn is_digit(b: u8) -> bool {
    48 <= b && b <= 57
}

pub open spec fn all_digits(s: Seq<u8>) -> bool {
    forall|i: int| 0 <= i < s.len() ==> is_digit(#[trigger] s[i])
}

/// The value of a sequence of decimal digit bytes, most significant first.
pub open spec fn digits_val(s: Seq<u8>) -> int
    decreases s.len(),
{
    if s.len() == 0 {
        0
    } else {
        digits_val(s.drop_last()) * 10 + (s.last() - 48)
    }
}

/// An optional leading `+` or `-`, and the remaining field bytes.
pub open spec fn spec_sign_split(s: Seq<u8>) -> (bool, Seq<u8>) {
    if s.len() > 0 && s[0] == 43 {
        (false, s.drop_first())
    } else if s.len() > 0 && s[0] == 45 {
        (true, s.drop_first())
    } else {
        (false, s)
    }
}

/// Whether a signed magnitude lies within the machine's signed integer range,
/// which is what decides whether the field is a readable integer at all.
pub open spec fn in_isize_range(neg: bool, m: int) -> bool {
    if neg {
        m <= isize::MAX as int + 1
    } else {
        m <= isize::MAX as int
    }
}

/// Resolve one index field against a buffer of `count` elements:
/// `None` if the field is not a well-formed integer or the resolved index
/// falls outside `0 .. count`.
pub open spec fn resolve_index(field: Seq<u8>, count: int) -> Option<int> {
    let (neg, digits) = spec_sign_split(field);
    if digits.len() == 0 || !all_digits(digits) {
        None
    } else {
        let m = digits_val(digits);
        if !in_isize_range(neg, m) {
            None
        } else if 1 <= m && m <= count {
            Some(if neg { count - m } else { m - 1 })
        } else {
            None
        }
    }
}

pub proof fn lemma_digits_val_nonneg(s: Seq<u8>)
    requires
        all_digits(s),
    ensures
        digits_val(s) >= 0,
    decreases s.len(),
{
    if s.len() > 0 {
        assert(all_digits(s.drop_last()));
        lemma_digits_val_nonneg(s.drop_last());
    }
}

/// A digit prefix never exceeds the whole digit string in value.
pub proof fn lemma_digits_val_prefix_le(s: Seq<u8>, k: int)
    requires
        all_digits(s),
        0 <= k <= s.len(),
    ensures
        digits_val(s.take(k)) <= digits_val(s),
    decreases s.len() - k,
{
    if k < s.len() {
        assert(s.take(k + 1).drop_last() =~= s.take(k));
        assert(s.take(k + 1).last() == s[k]);
        assert(all_digits(s.take(k)));
        lemma_digits_val_nonneg(s.take(k));
        assert(digits_val(s.take(k + 1)) == digits_val(s.take(k)) * 10 + (s[k] - 48));
        lemma_digits_val_prefix_le(s, k + 1);
    } else {
        assert(s.take(k) =~= s);
    }
}

/// A resolved index is always within the buffer it refers to.
pub proof fn lemma_resolve_index_bounds(field: Seq<u8>, count: int)
    requires
        count >= 0,
        resolve_index(field, count) is Some,
    ensures
        0 <= resolve_index(field, count).unwrap() < count,
{
}

/// Read one field as a signed integer and resolve it against `count`
/// elements, as [`resolve_index`] describes.
pub fn parse_index(field: &[u8], count: usize) -> (r: Option<usize>)
    ensures
        match r {
            Some(u) => resolve_index(field@, count as int) == Some(u as int),
            None => resolve_index(field@, count as int) is None,
        },
{
    let ghost whole = field@;
    if field.len() == 0 {
        return None;
    }
    let first = field[0];
    let neg = first == 45;
    let start: usize = if first == 43 || first == 45 {
        1
    } else {
        0
    };
    let ghost digits = spec_sign_split(whole).1;
    proof {
        assert(digits =~= whole.skip(start as int));
        assert(digits.len() == whole.len() - start);
    }
    if start >= field.len() {
        // A bare sign has no digits.
        return None;
    }
    // One past the largest magnitude a signed machine word can carry:
    // the magnitude of the smallest signed value.
    let mag_limit: u128 = (isize::MAX as u128) + 1;
    let mut acc: u128 = 0;
    let mut k: usize = start;
    while k < field.len()
        invariant
            start <= k <= field@.len(),
            start <= field@.len(),
            whole == field@,
            digits == whole.skip(start as int),
            digits == spec_sign_split(whole).1,
            neg == spec_sign_split(whole).0,
            mag_limit == isize::MAX as u128 + 1,
            all_digits(digits.take(k - start)),
            acc == digits_val(digits.take(k - start)),
            acc <= isize::MAX as u128 + 1,
        decreases field@.len() - k,
    {
        let b = field[k];
        proof {
            assert(whole.skip(start as int)[k - start] == whole[k as int]);
        }
        if b < 48 || b > 57 {
            proof {
                assert(digits[k - start] == whole[k as int]);
                assert(!all_digits(digits));
            }
            return None;
        }
        let d = (b - 48) as u128;
        proof {
            assert(digits.take(k - start + 1).drop_last() =~= digits.take(k - start));
            assert(digits.take(k - start + 1).last() == digits[k - start]);
            assert(digits[k - start] == whole[k as int]);
        }
        acc = acc * 10 + d;
        k = k + 1;
        if acc > mag_limit {
            // The magnitude is already out of the signed range, whatever
            // digits follow.
            proof {
                if all_digits(digits) {
                    lemma_digits_val_prefix_le(digits, k - start);
                }
            }
            return None;
        }
    }
    proof {
        assert(digits.take(k - start) =~= digits);
    }
    let limit: u128 = if neg {
        mag_limit
    } else {
        isize::MAX as u128
    };
    if acc < 1 || acc > limit {
        return None;
    }
    if acc > count as u128 {
        return None;
    }
    let m = acc as usize;
    if neg {
        Some(count - m)
    } else {
        Some(m - 1)
    }
}

/// Zero-based indices into the position, texcoord and normal buffers for one
/// face-vertex.  A `vt` or `vn` of `0` can also stand for "not specified",
/// since absent components leave the sentinel `0`.
#[derive(Hash, Eq, PartialEq, PartialOrd, Ord, Debug, Copy, Clone, Structural)]
pub struct VertexIndices {
    pub v: usize,
    pub vt: usize,
    pub vn: usize,
}

/// The buffer size against which the field at position `j` resolves.
pub open spec fn component_count(j: int, psz: int, tsz: int, nsz: int) -> int {
    if j == 0 {
        psz
    } else if j == 1 {
        tsz
    } else {
        nsz
    }
}

/// A field of a face-vertex token is acceptable when it is empty (absent),
/// or stands at one of the three component positions and resolves in range.
pub open spec fn field_ok(fields: Seq<Seq<u8>>, j: int, psz: int, tsz: int, nsz: int) -> bool {
    fields[j].len() == 0 || (j < 3 && resolve_index(fields[j], component_count(j, psz, tsz, nsz))
        is Some)
}

/// The resolved value of component `j`, with the sentinel `0` when absent.
pub open spec fn spec_component(fields: Seq<Seq<u8>>, j: int, count: int) -> int {
    if j < fields.len() && fields[j].len() > 0 {
        resolve_index(fields[j], count).unwrap()
    } else {
        0
    }
}

/// The meaning of one face-vertex token against the current buffer sizes:
/// `None` when a present field does not resolve, a fourth field is present,
/// or the position index (sentinel included) is not backed by the buffer.
pub open spec fn spec_parse_vertex(tok: Seq<u8>, psz: int, tsz: int, nsz: int) -> Option<
    VertexIndices,
> {
    let fields = spec_split(tok, 47);
    if forall|j: int| 0 <= j < fields.len() ==> field_ok(fields, j, psz, tsz, nsz) {
        if spec_component(fields, 0, psz) < psz {
            Some(
                VertexIndices {
                    v: spec_component(fields, 0, psz) as usize,
                    vt: spec_component(fields, 1, tsz) as usize,
                    vn: spec_component(fields, 2, nsz) as usize,
                },
            )
        } else {
            None
        }
    } else {
        None
    }
}

impl VertexIndices {
    /// Parse one `v/vt/vn` face-vertex token, resolving relative (negative)
    /// indices against the current buffer sizes and checking every resolved
    /// index against its buffer.
    pub fn parse(face_str: &[u8], pos_sz: usize, tex_sz: usize, norm_sz: usize) -> (r: Option<
        VertexIndices,
    >)
        ensures
            r == spec_parse_vertex(face_str@, pos_sz as int, tex_sz as int, norm_sz as int),
    {
        let fields = split_bytes(face_str, 47);
        let ghost fseq = spec_split(face_str@, 47);
        proof {
            assert(fields@.map_values(|t: Vec<u8>| t@) == fseq);
        }
        let mut v: usize = 0;
        let mut vt: usize = 0;
        let mut vn: usize = 0;
        let mut i: usize = 0;
        while i < fields.len()
            invariant
                0 <= i <= fields@.len(),
                fseq == spec_split(face_str@, 47),
                fields@.map_values(|t: Vec<u8>| t@) == fseq,
                forall|j: int| 0 <= j < i ==> field_ok(fseq, j, pos_sz as int, tex_sz as int,
                    norm_sz as int),
                v as int == if 0 < i { spec_component(fseq, 0, pos_sz as int) } else { 0 },
                vt as int == if 1 < i { spec_component(fseq, 1, tex_sz as int) } else { 0 },
                vn as int == if 2 < i { spec_component(fseq, 2, norm_sz as int) } else { 0 },
            decreases fields@.len() - i,
        {
            proof {
                assert(fseq[i as int] == fields@.map_values(|t: Vec<u8>| t@)[i as int]);
            }
            if fields[i].len() > 0 {
                if i >= 3 {
                    // OBJ face-vertices have at most three components.
                    proof {
                        assert(!field_ok(fseq, i as int, pos_sz as int, tex_sz as int,
                            norm_sz as int));
                    }
                    return None;
                }
                let count = if i == 0 {
                    pos_sz
                } else if i == 1 {
                    tex_sz
                } else {
                    norm_sz
                };
                match parse_index(fields[i].as_slice(), count) {
                    Some(x) => {
                        if i == 0 {
                            v = x;
                        } else if i == 1 {
                            vt = x;
                        } else {
                            vn = x;
                        }
                    },
                    None => {
                        proof {
                            assert(!field_ok(fseq, i as int, pos_sz as int, tex_sz as int,
                                norm_sz as int));
                        }
                        return None;
                    },
                }
            }
            i = i + 1;
        }
        if v < pos_sz {
            Some(VertexIndices { v, vt, vn })
        } else {
            None
        }
    }
}

} // verus!
