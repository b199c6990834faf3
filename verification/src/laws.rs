//! Properties of the export pipeline that hold for every input: counts and
//! bounds of triangle-only exports, the order of fan triangulation, the
//! sharing of output vertices between equal triples, the meaning of relative
//! indices, and the idempotence of triangulation.

use vstd::prelude::*;
use crate::face::{Face, face_triples};
use crate::index::{VertexIndices, all_digits, digits_val, resolve_index, spec_sign_split};
use crate::mesh::{
    all_triples, dedup_keys, lemma_all_triples_len_mod3, lemma_all_triples_take_le,
    lemma_dedup_contains, lemma_dedup_len_le, lemma_dedup_no_duplicates,
    lemma_out_indices_bounds, lemma_out_indices_len, lemma_positions_for_len, out_indices,
    spec_export,
};

verus! {

/// The first triple of a stream is the first output vertex.
pub proof fn lemma_dedup_first(ts: Seq<VertexIndices>)
    requires
        ts.len() > 0,
    ensures
        dedup_keys(ts).len() > 0,
        dedup_keys(ts)[0] == ts[0],
    decreases ts.len(),
{
    if ts.len() > 1 {
        lemma_dedup_first(ts.drop_last());
        assert(ts.drop_last()[0] == ts[0]);
        let d1 = dedup_keys(ts.drop_last());
        if d1.contains(ts.last()) {
            assert(dedup_keys(ts) == d1);
        } else {
            assert(dedup_keys(ts) == d1.push(ts.last()));
            assert(d1.push(ts.last())[0] == d1[0]);
        }
    } else {
        assert(ts.drop_last() =~= Seq::<VertexIndices>::empty());
        assert(dedup_keys(ts) == dedup_keys(ts.drop_last()).push(ts.last()));
        assert(dedup_keys(ts.drop_last()).push(ts.last())[0] == ts.last());
    }
}

/// Each output index is the position of its triple in the deduplicated
/// vertex set.
pub proof fn lemma_out_index_is_slot(ts: Seq<VertexIndices>, i: int)
    requires
        0 <= i < ts.len(),
        ts.len() <= u32::MAX,
    ensures
        dedup_keys(ts).contains(ts[i]),
        out_indices(ts)[i] as int == dedup_keys(ts).index_of(ts[i]),
    decreases ts.len(),
{
    lemma_out_indices_len(ts);
    lemma_out_indices_len(ts.drop_last());
    lemma_dedup_no_duplicates(ts);
    lemma_dedup_len_le(ts.drop_last());
    let d1 = dedup_keys(ts.drop_last());
    let d2 = dedup_keys(ts);
    if i == ts.len() - 1 {
        if d1.contains(ts.last()) {
            assert(d2 == d1);
            let p = d1.index_of(ts.last());
            assert(0 <= p < d1.len() && d1[p] == ts.last());
            assert(d2.contains(ts[i]));
            assert(out_indices(ts)[i] == d1.index_of(ts.last()) as u32);
        } else {
            assert(d2 == d1.push(ts.last()));
            assert(d2[d1.len() as int] == ts.last());
            assert(d2.contains(ts[i]));
            let q = d2.index_of(ts[i]);
            assert(0 <= q < d2.len() && d2[q] == ts[i]);
            assert(q == d1.len()) by {
                if q != d1.len() {
                    assert(d2[q] == d2[d1.len() as int]);
                }
            }
            assert(out_indices(ts)[i] == d1.len() as u32);
        }
    } else {
        lemma_out_index_is_slot(ts.drop_last(), i);
        assert(ts.drop_last()[i] == ts[i]);
        assert(out_indices(ts)[i] == out_indices(ts.drop_last())[i]);
        let p = d1.index_of(ts[i]);
        assert(0 <= p < d1.len() && d1[p] == ts[i]);
        if d1.contains(ts.last()) {
            assert(d2 == d1);
        } else {
            assert(d2 == d1.push(ts.last()));
            assert(d2[p] == d1[p]);
        }
        assert(d2.contains(ts[i]));
        let q = d2.index_of(ts[i]);
        assert(0 <= q < d2.len() && d2[q] == ts[i]);
        assert(q == p) by {
            if q != p {
                assert(d2[q] == d2[p]);
            }
        }
    }
}

/// Two face-vertices with identical index triples receive the same output
/// vertex index within one export; an export starts its own index space,
/// assigning `0` to its first triple whatever was exported before.
pub proof fn lemma_export_dedups(
    pos: Seq<u32>,
    tex: Seq<u32>,
    norm: Seq<u32>,
    faces: Seq<Face>,
    i: int,
    j: int,
)
    requires
        all_triples(faces).len() <= u32::MAX,
        0 <= i < all_triples(faces).len(),
        0 <= j < all_triples(faces).len(),
        all_triples(faces)[i] == all_triples(faces)[j],
    ensures
        spec_export(pos, tex, norm, faces).indices[i] == spec_export(pos, tex, norm, faces).indices[j],
        spec_export(pos, tex, norm, faces).indices[0] == 0,
{
    let ts = all_triples(faces);
    lemma_out_index_is_slot(ts, i);
    lemma_out_index_is_slot(ts, j);
    lemma_out_index_is_slot(ts, 0);
    lemma_dedup_first(ts);
    lemma_dedup_no_duplicates(ts);
    let q = dedup_keys(ts).index_of(ts[0]);
    assert(0 <= q < dedup_keys(ts).len() && dedup_keys(ts)[q] == ts[0]);
    assert(q == 0) by {
        if q != 0 {
            assert(dedup_keys(ts)[q] == dedup_keys(ts)[0]);
        }
    }
}

/// A triangle-only face list fans into three triples per face.
pub proof fn lemma_all_triples_len_triangles(faces: Seq<Face>)
    requires
        forall|i: int| 0 <= i < faces.len() ==> #[trigger] faces[i] is Triangle,
    ensures
        all_triples(faces).len() == 3 * faces.len(),
    decreases faces.len(),
{
    if faces.len() > 0 {
        assert forall|i: int| 0 <= i < faces.drop_last().len() implies #[trigger] faces.drop_last()[i]
            is Triangle by {
            assert(faces.drop_last()[i] == faces[i]);
        }
        lemma_all_triples_len_triangles(faces.drop_last());
        assert(faces.last() is Triangle);
    }
}

/// Exporting a triangle-only face list of `M` faces over `N` distinct
/// triples yields exactly `3 * M` indices and `3 * N` position scalars, with
/// `1 <= N <= 3 * M` when there is a face at all, and every index inside the
/// output vertex set.
pub proof fn lemma_triangle_only_export(
    pos: Seq<u32>,
    tex: Seq<u32>,
    norm: Seq<u32>,
    faces: Seq<Face>,
)
    requires
        forall|i: int| 0 <= i < faces.len() ==> #[trigger] faces[i] is Triangle,
        all_triples(faces).len() <= u32::MAX,
    ensures
        spec_export(pos, tex, norm, faces).indices.len() == 3 * faces.len(),
        spec_export(pos, tex, norm, faces).positions.len() == 3 * dedup_keys(
            all_triples(faces),
        ).len(),
        dedup_keys(all_triples(faces)).len() <= 3 * faces.len(),
        faces.len() > 0 ==> dedup_keys(all_triples(faces)).len() >= 1,
        forall|i: int|
            0 <= i < spec_export(pos, tex, norm, faces).indices.len() ==> (
            #[trigger] spec_export(pos, tex, norm, faces).indices[i] as int) < spec_export(
                pos,
                tex,
                norm,
                faces,
            ).positions.len() as int / 3,
{
    let ts = all_triples(faces);
    lemma_all_triples_len_triangles(faces);
    lemma_out_indices_len(ts);
    lemma_dedup_len_le(ts);
    lemma_positions_for_len(pos, dedup_keys(ts));
    lemma_out_indices_bounds(ts);
    if faces.len() > 0 {
        lemma_dedup_first(ts);
    }
}

/// Earlier faces contribute a prefix of the exported triple stream.
pub proof fn lemma_all_triples_take_prefix(faces: Seq<Face>, m: int)
    requires
        0 <= m <= faces.len(),
    ensures
        all_triples(faces.take(m)) =~= all_triples(faces).subrange(
            0,
            all_triples(faces.take(m)).len() as int,
        ),
    decreases faces.len() - m,
{
    lemma_all_triples_take_le(faces, m);
    if m == faces.len() {
        assert(faces.take(m) =~= faces);
    } else {
        lemma_all_triples_take_prefix(faces, m + 1);
        lemma_all_triples_take_le(faces, m + 1);
        assert(faces.take(m + 1).drop_last() =~= faces.take(m));
        assert(faces.take(m + 1).last() == faces[m]);
        assert(all_triples(faces.take(m + 1)) == all_triples(faces.take(m)) + face_triples(
            faces[m],
        ));
        let lm = all_triples(faces.take(m)).len() as int;
        let lm1 = all_triples(faces.take(m + 1)).len() as int;
        assert(all_triples(faces.take(m)) =~= all_triples(faces.take(m + 1)).subrange(0, lm));
        assert(all_triples(faces.take(m + 1)).subrange(0, lm) =~= all_triples(faces).subrange(
            0,
            lm1,
        ).subrange(0, lm));
        assert(all_triples(faces).subrange(0, lm1).subrange(0, lm) =~= all_triples(faces).subrange(
            0,
            lm,
        ));
    }
}

/// A quadrilateral face `(a, b, c, d)` contributes exactly the two
/// triangles `(a, b, c)` and `(a, c, d)`, in that order, at its offset in
/// the exported index buffer: the six indices there are the output vertices
/// of `a, b, c, a, c, d`.
pub proof fn lemma_quad_triangulation(
    pos: Seq<u32>,
    tex: Seq<u32>,
    norm: Seq<u32>,
    faces: Seq<Face>,
    k: int,
    a: VertexIndices,
    b: VertexIndices,
    c: VertexIndices,
    d: VertexIndices,
)
    requires
        0 <= k < faces.len(),
        faces[k] == Face::Quad(a, b, c, d),
        all_triples(faces).len() <= u32::MAX,
    ensures
        ({
            let ts = all_triples(faces);
            let off = all_triples(faces.take(k)).len() as int;
            let m = spec_export(pos, tex, norm, faces);
            let fan = seq![a, b, c, a, c, d];
            &&& off % 3 == 0
            &&& off + 6 <= m.indices.len()
            &&& ts.subrange(off, off + 6) =~= fan
            &&& forall|j: int| 0 <= j < 6 ==> #[trigger] m.indices[off + j] as int == dedup_keys(
                ts,
            ).index_of(fan[j])
        }),
{
    let ts = all_triples(faces);
    let off = all_triples(faces.take(k)).len() as int;
    let fan = seq![a, b, c, a, c, d];
    lemma_all_triples_len_mod3(faces.take(k));
    lemma_out_indices_len(ts);
    lemma_all_triples_take_prefix(faces, k + 1);
    lemma_all_triples_take_le(faces, k + 1);
    assert(faces.take(k + 1).drop_last() =~= faces.take(k));
    assert(faces.take(k + 1).last() == faces[k]);
    assert(all_triples(faces.take(k + 1)) == all_triples(faces.take(k)) + face_triples(faces[k]));
    assert(face_triples(faces[k]) =~= fan);
    assert forall|j: int| 0 <= j < 6 implies ts[off + j] == fan[j] by {
        assert(all_triples(faces.take(k + 1))[off + j] == ts.subrange(
            0,
            all_triples(faces.take(k + 1)).len() as int,
        )[off + j]);
    }
    assert(ts.subrange(off, off + 6) =~= fan);
    assert forall|j: int| 0 <= j < 6 implies #[trigger] spec_export(
        pos,
        tex,
        norm,
        faces,
    ).indices[off + j] as int == dedup_keys(ts).index_of(fan[j]) by {
        lemma_out_index_is_slot(ts, off + j);
    }
}

/// A relative index of `-1` resolves to the most recently appended element
/// of its component's buffer.
pub proof fn lemma_negative_one_resolves_last(count: int)
    requires
        count >= 1,
    ensures
        resolve_index(seq![45u8, 49u8], count) == Some(count - 1),
{
    let f = seq![45u8, 49u8];
    let digits = spec_sign_split(f).1;
    assert(digits =~= seq![49u8]);
    assert(digits[0] == 49);
    assert(all_digits(digits));
    let dd = digits.drop_last();
    assert(dd =~= Seq::<u8>::empty());
    assert(digits_val(dd) == 0);
    assert(digits.last() == 49);
    assert(digits_val(digits) == digits_val(dd) * 10 + (digits.last() - 48));
}

/// With no texcoord scalars in the file at all, the exported mesh's
/// texcoord buffer is empty, whatever texcoord fields the faces carry.
pub proof fn lemma_no_texcoords_empty_buffer(pos: Seq<u32>, norm: Seq<u32>, faces: Seq<Face>)
    ensures
        spec_export(pos, seq![], norm, faces).texcoords =~= Seq::<u32>::empty(),
{
}

/// The index buffer of a mesh, read back as position-only triangle faces.
pub open spec fn triangles_of(ix: Seq<u32>) -> Seq<Face>
    decreases ix.len(),
{
    if ix.len() < 3 {
        seq![]
    } else {
        triangles_of(ix.take(ix.len() - 3)).push(
            Face::Triangle(
                VertexIndices { v: ix[ix.len() - 3] as usize, vt: 0, vn: 0 },
                VertexIndices { v: ix[ix.len() - 2] as usize, vt: 0, vn: 0 },
                VertexIndices { v: ix[ix.len() - 1] as usize, vt: 0, vn: 0 },
            ),
        )
    }
}

/// Reading a whole index buffer back as faces fans into one triple per index.
pub proof fn lemma_triangles_of_len(ix: Seq<u32>)
    requires
        ix.len() % 3 == 0,
    ensures
        all_triples(triangles_of(ix)).len() == ix.len(),
    decreases ix.len(),
{
    if ix.len() >= 3 {
        let prefix = ix.take(ix.len() - 3);
        lemma_triangles_of_len(prefix);
        let t = triangles_of(ix);
        assert(t.drop_last() =~= triangles_of(prefix));
    }
}

/// Triangulation is idempotent: re-exporting the triangles of an exported
/// index buffer leaves the triangle count unchanged.
pub proof fn lemma_retriangulation_count(
    pos: Seq<u32>,
    tex: Seq<u32>,
    norm: Seq<u32>,
    ix: Seq<u32>,
)
    requires
        ix.len() % 3 == 0,
    ensures
        spec_export(pos, tex, norm, triangles_of(ix)).indices.len() == ix.len(),
{
    lemma_triangles_of_len(ix);
    lemma_out_indices_len(all_triples(triangles_of(ix)));
}


/// Position-only face-vertices (no texcoord or normal field) over a buffer
/// of `n` vertices deduplicate to at most `n` output vertices, so such an
/// export holds at most `3 * n` position scalars.
pub proof fn lemma_position_only_vertex_bound(ts: Seq<VertexIndices>, n: int)
    requires
        n >= 0,
        forall|i: int| 0 <= i < ts.len() ==> (#[trigger] ts[i]).vt == 0 && ts[i].vn == 0 && (
        ts[i].v as int) < n,
    ensures
        dedup_keys(ts).len() <= n,
{
    broadcast use vstd::set::group_set_axioms;

    let d = dedup_keys(ts);
    lemma_dedup_no_duplicates(ts);
    assert forall|i: int| 0 <= i < d.len() implies (#[trigger] d[i]).vt == 0 && d[i].vn == 0 && (
    d[i].v as int) < n by {
        assert(d.contains(d[i]));
        lemma_dedup_contains(ts, d[i]);
        let w = choose|w: int| 0 <= w < ts.len() && ts[w] == d[i];
        assert(ts[w] == d[i]);
    }
    let vs = d.map_values(|t: VertexIndices| t.v as int);
    assert(vs.no_duplicates()) by {
        assert forall|i: int, j: int| 0 <= i < vs.len() && 0 <= j < vs.len() && i != j implies vs[i]
            != vs[j] by {
            assert(vs[i] == d[i].v as int && vs[j] == d[j].v as int);
            assert(d[i] != d[j]);
        }
    }
    vs.unique_seq_to_set();
    assert(vs.to_set().subset_of(vstd::set_lib::set_int_range(0, n))) by {
        assert forall|x: int| vs.to_set().contains(x) implies vstd::set_lib::set_int_range(
            0,
            n,
        ).contains(x) by {
            let i = choose|i: int| 0 <= i < vs.len() && vs[i] == x;
            assert(vs[i] == d[i].v as int);
        }
    }
    vstd::set_lib::lemma_int_range(0, n);
    vstd::set_lib::lemma_len_subset(vs.to_set(), vstd::set_lib::set_int_range(0, n));
}

} // verus!
