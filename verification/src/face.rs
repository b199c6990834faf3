//! Assembly of one face record from its face-vertex tokens.
//!
//! A face is a triangle or a quadrilateral of resolved index triples.  Any
//! other token count, or any token that does not resolve, rejects the whole
//! record; no partial face is kept.

use vstd::prelude::*;
use crate::index::{
    VertexIndices, component_count, field_ok, lemma_resolve_index_bounds, spec_component,
    spec_parse_vertex,
};
use crate::text::spec_split;

verus! {

/// A triangle or quadrilateral face, holding the index triples of its
/// vertices in source order.
#[derive(Debug, Copy, Clone)]
pub enum Face {
    Triangle(VertexIndices, VertexIndices, VertexIndices),
    Quad(VertexIndices, VertexIndices, VertexIndices, VertexIndices),
}

/// The triples a face contributes to the index stream: a quadrilateral
/// `(a, b, c, d)` is fanned from its first vertex into the triangles
/// `(a, b, c)` and `(a, c, d)`, in that order.
pub open spec fn face_triples(f: Face) -> Seq<VertexIndices> {
    match f {
        Face::Triangle(a, b, c) => seq![a, b, c],
        Face::Quad(a, b, c, d) => seq![a, b, c, a, c, d],
    }
}

/// A triple is backed by buffers of the given sizes: the position index is a
/// real element, and a texcoord or normal index is in range unless it is the
/// sentinel `0`.
pub open spec fn triple_wf(t: VertexIndices, psz: int, tsz: int, nsz: int) -> bool {
    t.v < psz && (t.vt == 0 || t.vt < tsz) && (t.vn == 0 || t.vn < nsz)
}

pub open spec fn face_wf(f: Face, psz: int, tsz: int, nsz: int) -> bool {
    forall|j: int| 0 <= j < face_triples(f).len() ==> triple_wf(
        #[trigger] face_triples(f)[j],
        psz,
        tsz,
        nsz,
    )
}

/// The face described by the tokens after an `f` keyword: exactly three or
/// four tokens, every one a resolvable face-vertex, or nothing.
pub open spec fn spec_parse_face(toks: Seq<Seq<u8>>, psz: int, tsz: int, nsz: int) -> Option<
    Face,
> {
    if forall|j: int| 0 <= j < toks.len() ==> spec_parse_vertex(#[trigger] toks[j], psz, tsz, nsz)
        is Some {
        if toks.len() == 3 {
            Some(
                Face::Triangle(
                    spec_parse_vertex(toks[0], psz, tsz, nsz).unwrap(),
                    spec_parse_vertex(toks[1], psz, tsz, nsz).unwrap(),
                    spec_parse_vertex(toks[2], psz, tsz, nsz).unwrap(),
                ),
            )
        } else if toks.len() == 4 {
            Some(
                Face::Quad(
                    spec_parse_vertex(toks[0], psz, tsz, nsz).unwrap(),
                    spec_parse_vertex(toks[1], psz, tsz, nsz).unwrap(),
                    spec_parse_vertex(toks[2], psz, tsz, nsz).unwrap(),
                    spec_parse_vertex(toks[3], psz, tsz, nsz).unwrap(),
                ),
            )
        } else {
            None
        }
    } else {
        None
    }
}

/// A resolved face-vertex is backed by the buffers it was resolved against.
pub proof fn lemma_parse_vertex_wf(tok: Seq<u8>, psz: int, tsz: int, nsz: int)
    requires
        0 <= psz,
        0 <= tsz,
        0 <= nsz,
        spec_parse_vertex(tok, psz, tsz, nsz) is Some,
    ensures
        triple_wf(spec_parse_vertex(tok, psz, tsz, nsz).unwrap(), psz, tsz, nsz),
{
    let fields = spec_split(tok, 47);
    let t = spec_parse_vertex(tok, psz, tsz, nsz).unwrap();
    assert(spec_component(fields, 0, psz) < psz);
    if 1 < fields.len() && fields[1].len() > 0 {
        assert(field_ok(fields, 1, psz, tsz, nsz));
        lemma_resolve_index_bounds(fields[1], component_count(1, psz, tsz, nsz));
    }
    if 2 < fields.len() && fields[2].len() > 0 {
        assert(field_ok(fields, 2, psz, tsz, nsz));
        lemma_resolve_index_bounds(fields[2], component_count(2, psz, tsz, nsz));
    }
    if 0 < fields.len() && fields[0].len() > 0 {
        assert(field_ok(fields, 0, psz, tsz, nsz));
        lemma_resolve_index_bounds(fields[0], component_count(0, psz, tsz, nsz));
    }
}

/// Every triple of a face assembled from resolvable tokens is backed by the
/// buffers the tokens were resolved against.
pub proof fn lemma_parse_face_wf(toks: Seq<Seq<u8>>, psz: int, tsz: int, nsz: int)
    requires
        0 <= psz,
        0 <= tsz,
        0 <= nsz,
        spec_parse_face(toks, psz, tsz, nsz) is Some,
    ensures
        face_wf(spec_parse_face(toks, psz, tsz, nsz).unwrap(), psz, tsz, nsz),
{
    assert forall|j: int| 0 <= j < toks.len() implies spec_parse_vertex(
        #[trigger] toks[j],
        psz,
        tsz,
        nsz,
    ) is Some by {}
    if toks.len() == 3 || toks.len() == 4 {
        lemma_parse_vertex_wf(toks[0], psz, tsz, nsz);
        lemma_parse_vertex_wf(toks[1], psz, tsz, nsz);
        lemma_parse_vertex_wf(toks[2], psz, tsz, nsz);
        if toks.len() == 4 {
            lemma_parse_vertex_wf(toks[3], psz, tsz, nsz);
        }
    }
}

/// Resolve the face-vertex tokens of one `f` record and append the resulting
/// triangle or quadrilateral to `faces`; reject the whole record otherwise.
pub fn parse_face(
    face_str: &[Vec<u8>],
    faces: &mut Vec<Face>,
    pos_sz: usize,
    tex_sz: usize,
    norm_sz: usize,
) -> (r: bool)
    ensures
        ({
            let pf = spec_parse_face(
                face_str@.map_values(|t: Vec<u8>| t@),
                pos_sz as int,
                tex_sz as int,
                norm_sz as int,
            );
            match pf {
                Some(f) => r && final(faces)@ == old(faces)@.push(f),
                None => !r && final(faces)@ == old(faces)@,
            }
        }),
{
    let ghost tseq = face_str@.map_values(|t: Vec<u8>| t@);
    let mut indices: Vec<VertexIndices> = Vec::new();
    let mut i: usize = 0;
    while i < face_str.len()
        invariant
            0 <= i <= face_str@.len(),
            tseq == face_str@.map_values(|t: Vec<u8>| t@),
            faces@ == old(faces)@,
            indices@.len() == i,
            forall|j: int| 0 <= j < i ==> spec_parse_vertex(
                #[trigger] tseq[j],
                pos_sz as int,
                tex_sz as int,
                norm_sz as int,
            ) is Some,
            forall|j: int| 0 <= j < i ==> indices@[j] == spec_parse_vertex(
                #[trigger] tseq[j],
                pos_sz as int,
                tex_sz as int,
                norm_sz as int,
            ).unwrap(),
        decreases face_str@.len() - i,
    {
        proof {
            assert(tseq[i as int] == face_str@.map_values(|t: Vec<u8>| t@)[i as int]);
        }
        match VertexIndices::parse(face_str[i].as_slice(), pos_sz, tex_sz, norm_sz) {
            Some(v) => {
                indices.push(v);
            },
            None => {
                return false;
            },
        }
        i = i + 1;
    }
    if indices.len() == 3 {
        faces.push(Face::Triangle(indices[0], indices[1], indices[2]));
        true
    } else if indices.len() == 4 {
        faces.push(Face::Quad(indices[0], indices[1], indices[2], indices[3]));
        true
    } else {
        false
    }
}

} // verus!
