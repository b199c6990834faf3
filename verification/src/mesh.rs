//! The exported triangle mesh, and the export step that builds one from the
//! accumulated buffers and a pending face list.
//!
//! Export walks the faces in source order, fans quadrilaterals into two
//! triangles, and deduplicates face-vertices: triples with identical
//! `(v, vt, vn)` indices share one output vertex, assigned sequentially in
//! order of first appearance.

use vstd::prelude::*;
use crate::index::VertexIndices;
use crate::face::{Face, face_triples, face_wf, triple_wf};

verus! {

/// A mesh holding the triangle geometry of one model: flat buffers of scalar
/// bit patterns (three per vertex for positions and normals, two for
/// texcoords) and a triangle index buffer into the deduplicated vertex set.
#[derive(Debug, Clone)]
pub struct Mesh {
    pub positions: Vec<u32>,
    pub normals: Vec<u32>,
    pub texcoords: Vec<u32>,
    pub indices: Vec<u32>,
}

/// The mathematical content of a [`Mesh`].
#[verifier::ext_equal]
pub struct MeshV {
    pub positions: Seq<u32>,
    pub normals: Seq<u32>,
    pub texcoords: Seq<u32>,
    pub indices: Seq<u32>,
}

impl View for Mesh {
    type V = MeshV;

    open spec fn view(&self) -> MeshV {
        MeshV {
            positions: self.positions@,
            normals: self.normals@,
            texcoords: self.texcoords@,
            indices: self.indices@,
        }
    }
}

/// The mesh invariant: whole vertices and triangles only, and every index
/// inside the deduplicated vertex set.
pub open spec fn mesh_wf(m: MeshV) -> bool {
    &&& m.positions.len() % 3 == 0
    &&& m.texcoords.len() % 2 == 0
    &&& m.normals.len() % 3 == 0
    &&& m.indices.len() % 3 == 0
    &&& forall|i: int| 0 <= i < m.indices.len() ==> (#[trigger] m.indices[i] as int)
        < m.positions.len() as int / 3
}

impl Mesh {
    /// A mesh from its four buffers.
    pub fn new(pos: Vec<u32>, norm: Vec<u32>, tex: Vec<u32>, indices: Vec<u32>) -> (m: Mesh)
        ensures
            m.positions == pos,
            m.normals == norm,
            m.texcoords == tex,
            m.indices == indices,
    {
        Mesh { positions: pos, normals: norm, texcoords: tex, indices: indices }
    }

    /// A mesh with nothing in it.
    pub fn empty() -> (m: Mesh)
        ensures
            m.positions@ == Seq::<u32>::empty(),
            m.normals@ == Seq::<u32>::empty(),
            m.texcoords@ == Seq::<u32>::empty(),
            m.indices@ == Seq::<u32>::empty(),
    {
        Mesh { positions: Vec::new(), normals: Vec::new(), texcoords: Vec::new(), indices: Vec::new() }
    }
}

/// A named model: one mesh under the object name it was read from.
#[derive(Debug)]
pub struct Model {
    pub mesh: Mesh,
    pub name: Vec<u8>,
}

/// The mathematical content of a [`Model`].
#[verifier::ext_equal]
pub struct ModelV {
    pub mesh: MeshV,
    pub name: Seq<u8>,
}

impl View for Model {
    type V = ModelV;

    open spec fn view(&self) -> ModelV {
        ModelV { mesh: self.mesh@, name: self.name@ }
    }
}

impl Model {
    /// Associate a name with a mesh.
    pub fn new(mesh: Mesh, name: Vec<u8>) -> (m: Model)
        ensures
            m.mesh == mesh,
            m.name == name,
    {
        Model { mesh: mesh, name: name }
    }
}

/// The stream of index triples of a face list, in source order, quads
/// already fanned into triangles.
pub open spec fn all_triples(faces: Seq<Face>) -> Seq<VertexIndices>
    decreases faces.len(),
{
    if faces.len() == 0 {
        seq![]
    } else {
        all_triples(faces.drop_last()) + face_triples(faces.last())
    }
}

/// The distinct triples of a stream in order of first appearance: the
/// deduplicated output vertex set.
pub open spec fn dedup_keys(ts: Seq<VertexIndices>) -> Seq<VertexIndices>
    decreases ts.len(),
{
    if ts.len() == 0 {
        seq![]
    } else {
        let d = dedup_keys(ts.drop_last());
        if d.contains(ts.last()) {
            d
        } else {
            d.push(ts.last())
        }
    }
}

/// The output index stream: each triple replaced by the output vertex index
/// it is assigned, new triples receiving the next sequential index.
pub open spec fn out_indices(ts: Seq<VertexIndices>) -> Seq<u32>
    decreases ts.len(),
{
    if ts.len() == 0 {
        seq![]
    } else {
        let d = dedup_keys(ts.drop_last());
        out_indices(ts.drop_last()).push(
            if d.contains(ts.last()) {
                d.index_of(ts.last()) as u32
            } else {
                d.len() as u32
            },
        )
    }
}

/// The three position scalars of each output vertex, in output order.
pub open spec fn positions_for(pos: Seq<u32>, keys: Seq<VertexIndices>) -> Seq<u32>
    decreases keys.len(),
{
    if keys.len() == 0 {
        seq![]
    } else {
        positions_for(pos, keys.drop_last()) + seq![
            pos[keys.last().v * 3],
            pos[keys.last().v * 3 + 1],
            pos[keys.last().v * 3 + 2],
        ]
    }
}

/// The two texcoord scalars of each output vertex, in output order.
pub open spec fn texcoords_for(tex: Seq<u32>, keys: Seq<VertexIndices>) -> Seq<u32>
    decreases keys.len(),
{
    if keys.len() == 0 {
        seq![]
    } else {
        texcoords_for(tex, keys.drop_last()) + seq![
            tex[keys.last().vt * 2],
            tex[keys.last().vt * 2 + 1],
        ]
    }
}

/// The three normal scalars of each output vertex, in output order.
pub open spec fn normals_for(norm: Seq<u32>, keys: Seq<VertexIndices>) -> Seq<u32>
    decreases keys.len(),
{
    if keys.len() == 0 {
        seq![]
    } else {
        normals_for(norm, keys.drop_last()) + seq![
            norm[keys.last().vn * 3],
            norm[keys.last().vn * 3 + 1],
            norm[keys.last().vn * 3 + 2],
        ]
    }
}

/// The mesh exported from the raw buffers and a pending face list.  The
/// texcoord and normal buffers of the mesh stay empty when the source had no
/// such records at all.
pub open spec fn spec_export(pos: Seq<u32>, tex: Seq<u32>, norm: Seq<u32>, faces: Seq<Face>)
    -> MeshV {
    let keys = dedup_keys(all_triples(faces));
    MeshV {
        positions: positions_for(pos, keys),
        normals: if norm.len() == 0 { seq![] } else { normals_for(norm, keys) },
        texcoords: if tex.len() == 0 { seq![] } else { texcoords_for(tex, keys) },
        indices: out_indices(all_triples(faces)),
    }
}

/// The deduplicated vertex set never repeats a triple.
pub proof fn lemma_dedup_no_duplicates(ts: Seq<VertexIndices>)
    ensures
        dedup_keys(ts).no_duplicates(),
    decreases ts.len(),
{
    if ts.len() > 0 {
        lemma_dedup_no_duplicates(ts.drop_last());
    }
}

/// The deduplicated vertex set holds exactly the triples of the stream.
pub proof fn lemma_dedup_contains(ts: Seq<VertexIndices>, t: VertexIndices)
    ensures
        dedup_keys(ts).contains(t) <==> ts.contains(t),
    decreases ts.len(),
{
    if ts.len() > 0 {
        let d = dedup_keys(ts.drop_last());
        lemma_dedup_contains(ts.drop_last(), t);
        if t == ts.last() {
            assert(ts[ts.len() - 1] == t);
            assert(ts.contains(t));
            if !d.contains(t) {
                assert(dedup_keys(ts) == d.push(t));
                assert(d.push(t)[d.len() as int] == t);
                assert(dedup_keys(ts).contains(t));
            }
        } else {
            if ts.contains(t) {
                let i = choose|i: int| 0 <= i < ts.len() && ts[i] == t;
                assert(ts.drop_last()[i] == t);
                assert(ts.drop_last().contains(t));
            }
            if ts.drop_last().contains(t) {
                let i = choose|i: int| 0 <= i < ts.drop_last().len() && ts.drop_last()[i] == t;
                assert(ts[i] == t);
                assert(ts.contains(t));
            }
            if dedup_keys(ts).contains(t) && !d.contains(ts.last()) {
                let i = choose|i: int| 0 <= i < dedup_keys(ts).len() && dedup_keys(ts)[i] == t;
                if i < d.len() {
                    assert(d[i] == t);
                    assert(d.contains(t));
                } else {
                    assert(dedup_keys(ts)[i] == ts.last());
                }
            }
            if d.contains(t) {
                let i = choose|i: int| 0 <= i < d.len() && d[i] == t;
                assert(dedup_keys(ts)[i] == t);
                assert(dedup_keys(ts).contains(t));
            }
        }
    }
}

/// There are no more output vertices than triples.
pub proof fn lemma_dedup_len_le(ts: Seq<VertexIndices>)
    ensures
        dedup_keys(ts).len() <= ts.len(),
    decreases ts.len(),
{
    if ts.len() > 0 {
        lemma_dedup_len_le(ts.drop_last());
    }
}

/// Every triple yields exactly one output index.
pub proof fn lemma_out_indices_len(ts: Seq<VertexIndices>)
    ensures
        out_indices(ts).len() == ts.len(),
    decreases ts.len(),
{
    if ts.len() > 0 {
        lemma_out_indices_len(ts.drop_last());
    }
}

/// Output indices stay inside the deduplicated vertex set.
pub proof fn lemma_out_indices_bounds(ts: Seq<VertexIndices>)
    requires
        ts.len() <= u32::MAX,
    ensures
        forall|i: int| 0 <= i < out_indices(ts).len() ==> (#[trigger] out_indices(ts)[i] as int)
            < dedup_keys(ts).len(),
    decreases ts.len(),
{
    lemma_out_indices_len(ts);
    if ts.len() > 0 {
        lemma_out_indices_bounds(ts.drop_last());
        lemma_out_indices_len(ts.drop_last());
        lemma_dedup_len_le(ts.drop_last());
        let d = dedup_keys(ts.drop_last());
        if d.contains(ts.last()) {
            let j = d.index_of(ts.last());
            assert(0 <= j < d.len() && d[j] == ts.last());
        }
        assert forall|i: int| 0 <= i < out_indices(ts).len() implies (
        #[trigger] out_indices(ts)[i] as int) < dedup_keys(ts).len() by {
            if i < ts.len() - 1 {
                assert(out_indices(ts)[i] == out_indices(ts.drop_last())[i]);
            }
        }
    }
}

/// The gathered position buffer holds three scalars per output vertex.
pub proof fn lemma_positions_for_len(pos: Seq<u32>, keys: Seq<VertexIndices>)
    ensures
        positions_for(pos, keys).len() == 3 * keys.len(),
    decreases keys.len(),
{
    if keys.len() > 0 {
        lemma_positions_for_len(pos, keys.drop_last());
    }
}

/// The gathered texcoord buffer holds two scalars per output vertex.
pub proof fn lemma_texcoords_for_len(tex: Seq<u32>, keys: Seq<VertexIndices>)
    ensures
        texcoords_for(tex, keys).len() == 2 * keys.len(),
    decreases keys.len(),
{
    if keys.len() > 0 {
        lemma_texcoords_for_len(tex, keys.drop_last());
    }
}

/// The gathered normal buffer holds three scalars per output vertex.
pub proof fn lemma_normals_for_len(norm: Seq<u32>, keys: Seq<VertexIndices>)
    ensures
        normals_for(norm, keys).len() == 3 * keys.len(),
    decreases keys.len(),
{
    if keys.len() > 0 {
        lemma_normals_for_len(norm, keys.drop_last());
    }
}

/// A face list always fans into a whole number of triangles.
pub proof fn lemma_all_triples_len_mod3(faces: Seq<Face>)
    ensures
        all_triples(faces).len() % 3 == 0,
    decreases faces.len(),
{
    if faces.len() > 0 {
        lemma_all_triples_len_mod3(faces.drop_last());
    }
}

/// Triples only accumulate as more faces are taken.
pub proof fn lemma_all_triples_take_le(faces: Seq<Face>, k: int)
    requires
        0 <= k <= faces.len(),
    ensures
        all_triples(faces.take(k)).len() <= all_triples(faces).len(),
    decreases faces.len() - k,
{
    if k < faces.len() {
        assert(faces.take(k + 1).drop_last() =~= faces.take(k));
        assert(faces.take(k + 1).last() == faces[k]);
        lemma_all_triples_take_le(faces, k + 1);
    } else {
        assert(faces.take(k) =~= faces);
    }
}

/// Record one face-vertex: reuse the output vertex of an already-seen triple,
/// or append a new vertex with its scalars and the next sequential index.
#[verifier::loop_isolation(false)]
fn add_vertex(
    mesh: &mut Mesh,
    index_map: &mut Vec<VertexIndices>,
    vert: &VertexIndices,
    pos: &Vec<u32>,
    texcoord: &Vec<u32>,
    normal: &Vec<u32>,
    Ghost(ts): Ghost<Seq<VertexIndices>>,
)
    requires
        pos@.len() % 3 == 0,
        texcoord@.len() % 2 == 0,
        normal@.len() % 3 == 0,
        triple_wf(
            *vert,
            pos@.len() as int / 3,
            texcoord@.len() as int / 2,
            normal@.len() as int / 3,
        ),
        ts.len() < u32::MAX,
        old(index_map)@ == dedup_keys(ts),
        old(mesh).indices@ == out_indices(ts),
        old(mesh).positions@ == positions_for(pos@, dedup_keys(ts)),
        old(mesh).texcoords@ == (if texcoord@.len() == 0 {
            Seq::<u32>::empty()
        } else {
            texcoords_for(texcoord@, dedup_keys(ts))
        }),
        old(mesh).normals@ == (if normal@.len() == 0 {
            Seq::<u32>::empty()
        } else {
            normals_for(normal@, dedup_keys(ts))
        }),
    ensures
        final(index_map)@ == dedup_keys(ts.push(*vert)),
        final(mesh).indices@ == out_indices(ts.push(*vert)),
        final(mesh).positions@ == positions_for(pos@, dedup_keys(ts.push(*vert))),
        final(mesh).texcoords@ == (if texcoord@.len() == 0 {
            Seq::<u32>::empty()
        } else {
            texcoords_for(texcoord@, dedup_keys(ts.push(*vert)))
        }),
        final(mesh).normals@ == (if normal@.len() == 0 {
            Seq::<u32>::empty()
        } else {
            normals_for(normal@, dedup_keys(ts.push(*vert)))
        }),
{
    let ghost keys = dedup_keys(ts);
    proof {
        assert(ts.push(*vert).drop_last() =~= ts);
        assert(ts.push(*vert).last() == *vert);
        lemma_dedup_len_le(ts);
        lemma_dedup_no_duplicates(ts);
    }
    let n = index_map.len();
    let mut i: usize = 0;
    while i < n
        invariant
            0 <= i <= n,
            forall|j: int| 0 <= j < i ==> index_map@[j] != *vert,
            *mesh == *old(mesh),
        decreases n - i,
    {
        if index_map[i].v == vert.v && index_map[i].vt == vert.vt && index_map[i].vn == vert.vn {
            proof {
                assert(index_map@[i as int] == *vert);
                assert(keys.contains(*vert));
                let j = keys.index_of(*vert);
                assert(0 <= j < keys.len() && keys[j] == *vert);
                assert(j == i as int);
                assert(dedup_keys(ts.push(*vert)) == keys);
                assert(out_indices(ts.push(*vert)) == out_indices(ts).push(i as u32));
            }
            mesh.indices.push(i as u32);
            return;
        }
        i = i + 1;
    }
    proof {
        assert(!keys.contains(*vert)) by {
            if keys.contains(*vert) {
                let j = choose|j: int| 0 <= j < keys.len() && keys[j] == *vert;
                assert(index_map@[j] == *vert);
            }
        }
        assert(dedup_keys(ts.push(*vert)) == keys.push(*vert));
    }
    let next = index_map.len() as u32;
    mesh.indices.push(next);
    let pl = pos.len();
    proof {
        assert(pos@.len() == 3 * (pos@.len() as int / 3));
        assert(vert.v * 3 + 2 < pl);
    }
    mesh.positions.push(pos[vert.v * 3]);
    mesh.positions.push(pos[vert.v * 3 + 1]);
    mesh.positions.push(pos[vert.v * 3 + 2]);
    let tl = texcoord.len();
    if tl > 0 {
        proof {
            assert(texcoord@.len() == 2 * (texcoord@.len() as int / 2));
            assert(vert.vt * 2 + 1 < tl);
        }
        mesh.texcoords.push(texcoord[vert.vt * 2]);
        mesh.texcoords.push(texcoord[vert.vt * 2 + 1]);
    }
    let nl = normal.len();
    if nl > 0 {
        proof {
            assert(normal@.len() == 3 * (normal@.len() as int / 3));
            assert(vert.vn * 3 + 2 < nl);
        }
        mesh.normals.push(normal[vert.vn * 3]);
        mesh.normals.push(normal[vert.vn * 3 + 1]);
        mesh.normals.push(normal[vert.vn * 3 + 2]);
    }
    index_map.push(*vert);
    proof {
        assert(keys.push(*vert).drop_last() =~= keys);
        assert(mesh.positions@ =~= positions_for(pos@, keys.push(*vert)));
        if texcoord@.len() > 0 {
            assert(mesh.texcoords@ =~= texcoords_for(texcoord@, keys.push(*vert)));
        }
        if normal@.len() > 0 {
            assert(mesh.normals@ =~= normals_for(normal@, keys.push(*vert)));
        }
    }
}

/// Export a face list into a fresh mesh, fanning quads into triangles and
/// deduplicating face-vertices, as [`spec_export`] describes.
#[verifier::loop_isolation(false)]
pub fn export_faces(pos: &Vec<u32>, texcoord: &Vec<u32>, normal: &Vec<u32>, faces: &Vec<Face>)
    -> (mesh: Mesh)
    requires
        pos@.len() % 3 == 0,
        texcoord@.len() % 2 == 0,
        normal@.len() % 3 == 0,
        forall|i: int| 0 <= i < faces@.len() ==> face_wf(
            #[trigger] faces@[i],
            pos@.len() as int / 3,
            texcoord@.len() as int / 2,
            normal@.len() as int / 3,
        ),
        all_triples(faces@).len() <= u32::MAX,
    ensures
        mesh@ =~~= spec_export(pos@, texcoord@, normal@, faces@),
        mesh_wf(mesh@),
{
    let mut mesh = Mesh::empty();
    let mut index_map: Vec<VertexIndices> = Vec::new();
    let ghost mut ts: Seq<VertexIndices> = seq![];
    let mut k: usize = 0;
    proof {
        assert(faces@.take(0) =~= Seq::<Face>::empty());
    }
    while k < faces.len()
        invariant
            0 <= k <= faces@.len(),
            ts == all_triples(faces@.take(k as int)),
            index_map@ == dedup_keys(ts),
            mesh.indices@ == out_indices(ts),
            mesh.positions@ == positions_for(pos@, dedup_keys(ts)),
            mesh.texcoords@ == (if texcoord@.len() == 0 {
                Seq::<u32>::empty()
            } else {
                texcoords_for(texcoord@, dedup_keys(ts))
            }),
            mesh.normals@ == (if normal@.len() == 0 {
                Seq::<u32>::empty()
            } else {
                normals_for(normal@, dedup_keys(ts))
            }),
        decreases faces@.len() - k,
    {
        let ghost psz = pos@.len() as int / 3;
        let ghost tsz = texcoord@.len() as int / 2;
        let ghost nsz = normal@.len() as int / 3;
        proof {
            assert(faces@.take(k + 1).drop_last() =~= faces@.take(k as int));
            assert(faces@.take(k + 1).last() == faces@[k as int]);
            lemma_all_triples_take_le(faces@, k + 1);
            assert(face_wf(faces@[k as int], psz, tsz, nsz));
        }
        let f = faces[k];
        match f {
            Face::Triangle(a, b, c) => {
                proof {
                    assert(face_triples(f)[0] == a && face_triples(f)[1] == b && face_triples(f)[2]
                        == c);
                }
                add_vertex(&mut mesh, &mut index_map, &a, pos, texcoord, normal, Ghost(ts));
                proof {
                    ts = ts.push(a);
                }
                add_vertex(&mut mesh, &mut index_map, &b, pos, texcoord, normal, Ghost(ts));
                proof {
                    ts = ts.push(b);
                }
                add_vertex(&mut mesh, &mut index_map, &c, pos, texcoord, normal, Ghost(ts));
                proof {
                    ts = ts.push(c);
                    assert(ts =~= all_triples(faces@.take(k + 1)));
                }
            },
            Face::Quad(a, b, c, d) => {
                proof {
                    assert(face_triples(f)[0] == a && face_triples(f)[1] == b && face_triples(f)[2]
                        == c && face_triples(f)[3] == a && face_triples(f)[4] == c && face_triples(
                        f,
                    )[5] == d);
                }
                add_vertex(&mut mesh, &mut index_map, &a, pos, texcoord, normal, Ghost(ts));
                proof {
                    ts = ts.push(a);
                }
                add_vertex(&mut mesh, &mut index_map, &b, pos, texcoord, normal, Ghost(ts));
                proof {
                    ts = ts.push(b);
                }
                add_vertex(&mut mesh, &mut index_map, &c, pos, texcoord, normal, Ghost(ts));
                proof {
                    ts = ts.push(c);
                }
                add_vertex(&mut mesh, &mut index_map, &a, pos, texcoord, normal, Ghost(ts));
                proof {
                    ts = ts.push(a);
                }
                add_vertex(&mut mesh, &mut index_map, &c, pos, texcoord, normal, Ghost(ts));
                proof {
                    ts = ts.push(c);
                }
                add_vertex(&mut mesh, &mut index_map, &d, pos, texcoord, normal, Ghost(ts));
                proof {
                    ts = ts.push(d);
                    assert(ts =~= all_triples(faces@.take(k + 1)));
                }
            },
        }
        k = k + 1;
    }
    proof {
        assert(faces@.take(faces@.len() as int) =~= faces@);
        lemma_all_triples_len_mod3(faces@);
        lemma_out_indices_len(ts);
        lemma_out_indices_bounds(ts);
        lemma_positions_for_len(pos@, dedup_keys(ts));
        lemma_texcoords_for_len(texcoord@, dedup_keys(ts));
        lemma_normals_for_len(normal@, dedup_keys(ts));
        lemma_dedup_len_le(ts);
    }
    mesh
}

} // verus!
