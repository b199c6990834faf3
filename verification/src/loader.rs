//! The line-by-line load: record dispatch and model assembly.
//!
//! A [`Loader`] folds one OBJ line at a time into its state: scalar records
//! grow the file-global buffers, face records grow the pending face list of
//! the current object, and an object boundary exports the pending faces into
//! a named model.  The caller feeds each line as its tokens, every token
//! carrying the scalar bit pattern its text parses as, if any; reading lines
//! and parsing floating-point text are the caller's side of the interface.

use vstd::prelude::*;
use crate::face::{Face, face_wf, lemma_parse_face_wf, parse_face, spec_parse_face};
use crate::mesh::{Model, ModelV, all_triples, export_faces, mesh_wf, spec_export};

verus! {

/// The failures a load can end with.
#[derive(Debug, PartialEq, Eq, Structural, Copy, Clone)]
pub enum LoadError {
    OpenFileFailed,
    ReadError,
    UnrecognizedCharacter,
    PositionParseError,
    NormalParseError,
    TexcoordParseError,
    FaceParseError,
    InvalidObjectName,
    GenericFailure,
}

/// All the models loaded from a source, or the error that ended the load.
pub type LoadResult = Result<Vec<Model>, LoadError>;

/// One token of a line, with the scalar its text denotes, if any.  The
/// scalar is the bit pattern of the 32-bit floating-point value the trimmed
/// token text parses as; the caller, who owns floating-point parsing,
/// supplies it alongside the text.
pub struct Token {
    pub text: Vec<u8>,
    pub scalar: Option<u32>,
}

/// More pending faces than this cannot be exported, since output vertex
/// indices are 32-bit; a face record beyond it is refused.
pub const MAX_PENDING_FACES: usize = 0x2000_0000;

/// The `v` keyword.
pub open spec fn kw_position() -> Seq<u8> {
    seq![118u8]
}

/// The `vt` keyword.
pub open spec fn kw_texcoord() -> Seq<u8> {
    seq![118u8, 116u8]
}

/// The `vn` keyword.
pub open spec fn kw_normal() -> Seq<u8> {
    seq![118u8, 110u8]
}

/// The `f` keyword.
pub open spec fn kw_face() -> Seq<u8> {
    seq![102u8]
}

/// The `o` keyword.
pub open spec fn kw_object() -> Seq<u8> {
    seq![111u8]
}

/// The scalars of a record's value tokens, in order: empty tokens (from
/// consecutive separators) are skipped, and a non-empty token that is not a
/// scalar spoils the whole record.
pub open spec fn spec_scalars(toks: Seq<Token>) -> Option<Seq<u32>>
    decreases toks.len(),
{
    if toks.len() == 0 {
        Some(seq![])
    } else if toks[0].text@.len() == 0 {
        spec_scalars(toks.drop_first())
    } else {
        match toks[0].scalar {
            Option::None => None,
            Option::Some(b) => match spec_scalars(toks.drop_first()) {
                Option::None => None,
                Option::Some(vs) => Some(seq![b] + vs),
            },
        }
    }
}

/// The state of a load in progress.  The scalar buffers are file-global
/// (OBJ indices reach across object boundaries); the face list and the
/// current name belong to the object being parsed.
pub struct Loader {
    pub positions: Vec<u32>,
    pub texcoords: Vec<u32>,
    pub normals: Vec<u32>,
    pub faces: Vec<Face>,
    pub name: Vec<u8>,
    pub models: Vec<Model>,
}

/// The mathematical content of a [`Loader`].
#[verifier::ext_equal]
pub struct LoaderV {
    pub positions: Seq<u32>,
    pub texcoords: Seq<u32>,
    pub normals: Seq<u32>,
    pub faces: Seq<Face>,
    pub name: Seq<u8>,
    pub models: Seq<ModelV>,
}

impl View for Loader {
    type V = LoaderV;

    open spec fn view(&self) -> LoaderV {
        LoaderV {
            positions: self.positions@,
            texcoords: self.texcoords@,
            normals: self.normals@,
            faces: self.faces@,
            name: self.name@,
            models: self.models@.map_values(|m: Model| m@),
        }
    }
}

/// The loader invariant: whole vertices in every buffer, and every pending
/// face backed by the buffers, so that export cannot read out of bounds.
pub open spec fn loader_wf(s: LoaderV) -> bool {
    &&& s.positions.len() % 3 == 0
    &&& s.texcoords.len() % 2 == 0
    &&& s.normals.len() % 3 == 0
    &&& s.faces.len() <= MAX_PENDING_FACES
    &&& forall|i: int| 0 <= i < s.faces.len() ==> face_wf(
        #[trigger] s.faces[i],
        s.positions.len() as int / 3,
        s.texcoords.len() as int / 2,
        s.normals.len() as int / 3,
    )
    &&& forall|i: int| 0 <= i < s.models.len() ==> mesh_wf((#[trigger] s.models[i]).mesh)
}

/// The model the current object exports: the pending faces against the
/// file-global buffers, under the current name.
pub open spec fn spec_current_model(s: LoaderV) -> ModelV {
    ModelV { mesh: spec_export(s.positions, s.texcoords, s.normals, s.faces), name: s.name }
}

/// What one line does to the loader state, or the error that rejects it.
///
/// The first token picks the record: `v`, `vt` and `vn` append exactly 3, 2
/// and 3 scalars to their buffers; `f` appends one face resolved against the
/// current buffer sizes; `o` exports the pending faces under the current
/// name (when both exist) and starts the object named by the second token.
/// Anything else — comments, groups, material directives, unknown keywords,
/// empty lines — is ignored.  An error leaves the state as it was.
pub open spec fn spec_step(s: LoaderV, toks: Seq<Token>) -> Result<LoaderV, LoadError> {
    if toks.len() == 0 {
        Ok(s)
    } else {
        let t0 = toks[0].text@;
        if t0 == kw_position() {
            match spec_scalars(toks.drop_first()) {
                Option::Some(vals) => if vals.len() == 3 {
                    Ok(LoaderV { positions: s.positions + vals, ..s })
                } else {
                    Err(LoadError::PositionParseError)
                },
                Option::None => Err(LoadError::PositionParseError),
            }
        } else if t0 == kw_texcoord() {
            match spec_scalars(toks.drop_first()) {
                Option::Some(vals) => if vals.len() == 2 {
                    Ok(LoaderV { texcoords: s.texcoords + vals, ..s })
                } else {
                    Err(LoadError::TexcoordParseError)
                },
                Option::None => Err(LoadError::TexcoordParseError),
            }
        } else if t0 == kw_normal() {
            match spec_scalars(toks.drop_first()) {
                Option::Some(vals) => if vals.len() == 3 {
                    Ok(LoaderV { normals: s.normals + vals, ..s })
                } else {
                    Err(LoadError::NormalParseError)
                },
                Option::None => Err(LoadError::NormalParseError),
            }
        } else if t0 == kw_face() {
            let texts = toks.drop_first().map_values(|t: Token| t.text@);
            match spec_parse_face(
                texts,
                s.positions.len() as int / 3,
                s.texcoords.len() as int / 2,
                s.normals.len() as int / 3,
            ) {
                Option::Some(f) => if s.faces.len() < MAX_PENDING_FACES {
                    Ok(LoaderV { faces: s.faces.push(f), ..s })
                } else {
                    Err(LoadError::GenericFailure)
                },
                Option::None => Err(LoadError::FaceParseError),
            }
        } else if t0 == kw_object() {
            if toks.len() < 2 {
                Err(LoadError::InvalidObjectName)
            } else {
                let flushed = if s.name.len() > 0 && s.faces.len() > 0 {
                    LoaderV { models: s.models.push(spec_current_model(s)), faces: seq![], ..s }
                } else {
                    s
                };
                Ok(LoaderV { name: toks[1].text@, ..flushed })
            }
        } else {
            Ok(s)
        }
    }
}

/// What the end of input yields: the models seen so far, and — when an
/// object is open — the current object exported after them.  Faces read
/// before any `o` record have no name to anchor them and are dropped.
pub open spec fn spec_finish(s: LoaderV) -> Seq<ModelV> {
    if s.name.len() > 0 {
        s.models.push(spec_current_model(s))
    } else {
        s.models
    }
}

/// Whether a token's text is exactly the one-byte keyword `a`.
fn is_kw1(t: &Vec<u8>, a: u8) -> (r: bool)
    ensures
        r == (t@ == seq![a]),
{
    if t.len() == 1 && t[0] == a {
        proof {
            assert(t@ =~= seq![a]);
        }
        true
    } else {
        proof {
            if t@ == seq![a] {
                assert(t@.len() == 1);
                assert(t@[0] == a);
            }
        }
        false
    }
}

/// Whether a token's text is exactly the two-byte keyword `a b`.
fn is_kw2(t: &Vec<u8>, a: u8, b: u8) -> (r: bool)
    ensures
        r == (t@ == seq![a, b]),
{
    if t.len() == 2 && t[0] == a && t[1] == b {
        proof {
            assert(t@ =~= seq![a, b]);
        }
        true
    } else {
        proof {
            if t@ == seq![a, b] {
                assert(t@.len() == 2);
                assert(t@[0] == a);
                assert(t@[1] == b);
            }
        }
        false
    }
}

/// `Some` of a prefix prepended to the scalars still to come, `None` once
/// the record is spoiled.
pub open spec fn opt_concat(prefix: Seq<u32>, rest: Option<Seq<u32>>) -> Option<Seq<u32>> {
    match rest {
        Option::None => None,
        Option::Some(vs) => Some(prefix + vs),
    }
}

/// Collect the scalars of the value tokens (everything after the keyword)
/// into `out`, as [`spec_scalars`] describes.
#[verifier::loop_isolation(false)]
fn collect_scalars(toks: &Vec<Token>, out: &mut Vec<u32>) -> (ok: bool)
    requires
        toks@.len() >= 1,
    ensures
        match spec_scalars(toks@.drop_first()) {
            Option::Some(vs) => ok && final(out)@ == old(out)@ + vs,
            Option::None => !ok,
        },
{
    let ghost base = out@.len() as int;
    let mut i: usize = 1;
    proof {
        assert(toks@.skip(1) =~= toks@.drop_first());
        assert(out@.subrange(base, out@.len() as int) =~= Seq::<u32>::empty());
    }
    while i < toks.len()
        invariant
            1 <= i <= toks@.len(),
            out@.len() >= base,
            out@.subrange(0, base) == old(out)@,
            spec_scalars(toks@.drop_first()) == opt_concat(
                out@.subrange(base, out@.len() as int),
                spec_scalars(toks@.skip(i as int)),
            ),
        decreases toks@.len() - i,
    {
        proof {
            assert(toks@.skip(i as int).drop_first() =~= toks@.skip(i + 1));
            assert(toks@.skip(i as int)[0] == toks@[i as int]);
        }
        if toks[i].text.len() > 0 {
            match toks[i].scalar {
                Option::Some(b) => {
                    let ghost before = out@;
                    out.push(b);
                    proof {
                        assert(out@.subrange(0, base) =~= before.subrange(0, base));
                        if spec_scalars(toks@.skip(i + 1)) is Some {
                            let vs = spec_scalars(toks@.skip(i + 1)).unwrap();
                            assert(before.subrange(base, before.len() as int) + (seq![b] + vs)
                                =~= out@.subrange(base, out@.len() as int) + vs);
                        }
                    }
                },
                Option::None => {
                    return false;
                },
            }
        }
        i = i + 1;
    }
    proof {
        assert(toks@.skip(toks@.len() as int) =~= Seq::<Token>::empty());
        assert(out@ =~= old(out)@ + out@.subrange(base, out@.len() as int));
    }
    true
}

/// Append `src` to `dst`.
#[verifier::loop_isolation(false)]
fn extend_scalars(dst: &mut Vec<u32>, src: &Vec<u32>)
    ensures
        final(dst)@ == old(dst)@ + src@,
{
    let mut i: usize = 0;
    proof {
        assert(old(dst)@ + src@.take(0) =~= old(dst)@);
    }
    while i < src.len()
        invariant
            0 <= i <= src@.len(),
            dst@ == old(dst)@ + src@.take(i as int),
        decreases src@.len() - i,
    {
        dst.push(src[i]);
        proof {
            assert((old(dst)@ + src@.take(i as int)).push(src@[i as int]) =~= old(dst)@
                + src@.take(i + 1));
        }
        i = i + 1;
    }
    proof {
        assert(src@.take(src@.len() as int) =~= src@);
    }
}

impl Loader {
    /// A loader with nothing read yet: empty buffers, no pending faces, no
    /// open object.
    pub fn new() -> (r: Loader)
        ensures
            r@.positions == Seq::<u32>::empty(),
            r@.texcoords == Seq::<u32>::empty(),
            r@.normals == Seq::<u32>::empty(),
            r@.faces == Seq::<Face>::empty(),
            r@.name == Seq::<u8>::empty(),
            r@.models == Seq::<ModelV>::empty(),
            loader_wf(r@),
    {
        let r = Loader {
            positions: Vec::new(),
            texcoords: Vec::new(),
            normals: Vec::new(),
            faces: Vec::new(),
            name: Vec::new(),
            models: Vec::new(),
        };
        proof {
            assert(r.models@.map_values(|m: Model| m@) =~= Seq::<ModelV>::empty());
        }
        r
    }

    /// Feed one line, given as its tokens, into the load, as [`spec_step`]
    /// describes; an error leaves the state unchanged.
    #[verifier::loop_isolation(false)]
    pub fn process_line(&mut self, toks: &Vec<Token>) -> (r: Result<(), LoadError>)
        requires
            loader_wf(old(self)@),
        ensures
            loader_wf(final(self)@),
            match spec_step(old(self)@, toks@) {
                Ok(s2) => r is Ok && final(self)@ == s2,
                Err(e) => r == Err::<(), LoadError>(e) && final(self)@ == old(self)@,
            },
    {
        if toks.len() == 0 {
            return Ok(());
        }
        let ghost s0 = self@;
        let t = &toks[0].text;
        // the `v` keyword, byte 118
        if is_kw1(t, 118) {
            let mut vals: Vec<u32> = Vec::new();
            let ok = collect_scalars(toks, &mut vals);
            if !ok || vals.len() != 3 {
                return Err(LoadError::PositionParseError);
            }
            extend_scalars(&mut self.positions, &vals);
            proof {
                assert(self@ =~~= (LoaderV { positions: s0.positions + vals@, ..s0 }));
                lemma_faces_wf_grow(s0, self@);
            }
            Ok(())
        // the `vt` keyword, bytes 118 116
        } else if is_kw2(t, 118, 116) {
            let mut vals: Vec<u32> = Vec::new();
            let ok = collect_scalars(toks, &mut vals);
            if !ok || vals.len() != 2 {
                return Err(LoadError::TexcoordParseError);
            }
            extend_scalars(&mut self.texcoords, &vals);
            proof {
                assert(self@ =~~= (LoaderV { texcoords: s0.texcoords + vals@, ..s0 }));
                lemma_faces_wf_grow(s0, self@);
            }
            Ok(())
        // the `vn` keyword, bytes 118 110
        } else if is_kw2(t, 118, 110) {
            let mut vals: Vec<u32> = Vec::new();
            let ok = collect_scalars(toks, &mut vals);
            if !ok || vals.len() != 3 {
                return Err(LoadError::NormalParseError);
            }
            extend_scalars(&mut self.normals, &vals);
            proof {
                assert(self@ =~~= (LoaderV { normals: s0.normals + vals@, ..s0 }));
                lemma_faces_wf_grow(s0, self@);
            }
            Ok(())
        // the `f` keyword, byte 102
        } else if is_kw1(t, 102) {
            let mut rest: Vec<Vec<u8>> = Vec::new();
            let mut i: usize = 1;
            proof {
                assert(rest@.map_values(|v: Vec<u8>| v@) =~= toks@.subrange(1, 1).map_values(
                    |tk: Token| tk.text@,
                ));
            }
            while i < toks.len()
                invariant
                    1 <= i <= toks@.len(),
                    rest@.map_values(|v: Vec<u8>| v@) == toks@.subrange(1, i as int).map_values(
                        |tk: Token| tk.text@,
                    ),
                decreases toks@.len() - i,
            {
                let ghost before = rest@;
                let nt = clone_bytes(&toks[i].text);
                rest.push(nt);
                proof {
                    assert(before.map_values(|v: Vec<u8>| v@).len() == before.len());
                    assert(before.len() == i - 1);
                    assert forall|j: int| 0 <= j < rest@.len() implies (#[trigger] rest@[j])@
                        == toks@[1 + j].text@ by {
                        if j < i - 1 {
                            assert(rest@[j] == before[j]);
                            assert(before.map_values(|v: Vec<u8>| v@)[j] == before[j]@);
                            assert(toks@.subrange(1, i as int).map_values(|tk: Token| tk.text@)[j]
                                == toks@.subrange(1, i as int)[j].text@);
                            assert(toks@.subrange(1, i as int)[j] == toks@[1 + j]);
                        } else {
                            assert(rest@[j] == nt);
                        }
                    }
                    assert(rest@.map_values(|v: Vec<u8>| v@) =~= toks@.subrange(1, i + 1).map_values(
                        |tk: Token| tk.text@,
                    ));
                }
                i = i + 1;
            }
            proof {
                assert(toks@.subrange(1, toks@.len() as int) =~= toks@.drop_first());
            }
            let psz = self.positions.len() / 3;
            let tsz = self.texcoords.len() / 2;
            let nsz = self.normals.len() / 3;
            let mut parsed: Vec<Face> = Vec::new();
            let ok = parse_face(rest.as_slice(), &mut parsed, psz, tsz, nsz);
            if !ok {
                return Err(LoadError::FaceParseError);
            }
            if self.faces.len() >= MAX_PENDING_FACES {
                return Err(LoadError::GenericFailure);
            }
            proof {
                lemma_parse_face_wf(
                    toks@.drop_first().map_values(|tk: Token| tk.text@),
                    psz as int,
                    tsz as int,
                    nsz as int,
                );
            }
            let f = parsed[0];
            self.faces.push(f);
            proof {
                assert(self@ =~~= (LoaderV { faces: s0.faces.push(f), ..s0 }));
            }
            Ok(())
        // the `o` keyword, byte 111
        } else if is_kw1(t, 111) {
            if toks.len() < 2 {
                return Err(LoadError::InvalidObjectName);
            }
            if self.name.len() > 0 && self.faces.len() > 0 {
                proof {
                    lemma_all_triples_len_le(self.faces@);
                }
                let mesh = export_faces(
                    &self.positions,
                    &self.texcoords,
                    &self.normals,
                    &self.faces,
                );
                let model_name = clone_bytes(&self.name);
                let ghost models_before = self.models@;
                self.models.push(Model::new(mesh, model_name));
                self.faces.clear();
                proof {
                    assert(self.models@.map_values(|m: Model| m@) =~= models_before.map_values(
                        |m: Model| m@,
                    ).push(spec_current_model(s0)));
                }
            }
            self.name = clone_bytes(&toks[1].text);
            proof {
                let flushed = if s0.name.len() > 0 && s0.faces.len() > 0 {
                    LoaderV { models: s0.models.push(spec_current_model(s0)), faces: seq![], ..s0 }
                } else {
                    s0
                };
                assert(self@ =~~= (LoaderV { name: toks@[1].text@, ..flushed }));
            }
            Ok(())
        } else {
            Ok(())
        }
    }

    /// End the input: export the open object, if any, and hand back every
    /// model in the order their objects ended.
    pub fn finish(self) -> (r: Vec<Model>)
        requires
            loader_wf(self@),
        ensures
            r@.map_values(|m: Model| m@) == spec_finish(self@),
            forall|i: int| 0 <= i < r@.len() ==> mesh_wf((#[trigger] r@[i])@.mesh),
    {
        let ghost s0 = self@;
        let Loader { positions, texcoords, normals, faces, name, models } = self;
        let mut models = models;
        if name.len() > 0 {
            proof {
                lemma_all_triples_len_le(faces@);
            }
            let ghost models_before = models@;
            let mesh = export_faces(&positions, &texcoords, &normals, &faces);
            let ghost mv = mesh@;
            models.push(Model::new(mesh, name));
            proof {
                assert(models@.map_values(|m: Model| m@) =~= models_before.map_values(
                    |m: Model| m@,
                ).push(spec_current_model(s0)));
                assert forall|i: int| 0 <= i < models@.len() implies mesh_wf(
                    (#[trigger] models@[i])@.mesh,
                ) by {
                    if i < models_before.len() {
                        assert(models@[i] == models_before[i]);
                        assert(s0.models[i] == models_before.map_values(|m: Model| m@)[i]);
                        assert(models_before.map_values(|m: Model| m@)[i] == models_before[i]@);
                    } else {
                        assert(models@[i]@.mesh == mv);
                    }
                }
            }
        } else {
            proof {
                assert forall|i: int| 0 <= i < models@.len() implies mesh_wf(
                    (#[trigger] models@[i])@.mesh,
                ) by {
                    assert(s0.models[i] == models@.map_values(|m: Model| m@)[i]);
                    assert(models@.map_values(|m: Model| m@)[i] == models@[i]@);
                }
            }
        }
        models
    }
}

/// A face list never fans into more than six triples per face.
pub proof fn lemma_all_triples_len_le(faces: Seq<Face>)
    ensures
        all_triples(faces).len() <= 6 * faces.len(),
    decreases faces.len(),
{
    if faces.len() > 0 {
        lemma_all_triples_len_le(faces.drop_last());
    }
}

/// Growing the scalar buffers by whole vertices keeps every pending face
/// backed by them.
proof fn lemma_faces_wf_grow(s0: LoaderV, s1: LoaderV)
    requires
        loader_wf(s0),
        s1.faces == s0.faces,
        s1.positions.len() >= s0.positions.len(),
        s1.texcoords.len() >= s0.texcoords.len(),
        s1.normals.len() >= s0.normals.len(),
        s1.positions.len() % 3 == 0,
        s1.texcoords.len() % 2 == 0,
        s1.normals.len() % 3 == 0,
        s0.positions.len() % 3 == 0,
        s0.texcoords.len() % 2 == 0,
        s0.normals.len() % 3 == 0,
    ensures
        forall|i: int| 0 <= i < s1.faces.len() ==> face_wf(
            #[trigger] s1.faces[i],
            s1.positions.len() as int / 3,
            s1.texcoords.len() as int / 2,
            s1.normals.len() as int / 3,
        ),
{
    assert forall|i: int| 0 <= i < s1.faces.len() implies face_wf(
        #[trigger] s1.faces[i],
        s1.positions.len() as int / 3,
        s1.texcoords.len() as int / 2,
        s1.normals.len() as int / 3,
    ) by {
        assert(face_wf(
            s0.faces[i],
            s0.positions.len() as int / 3,
            s0.texcoords.len() as int / 2,
            s0.normals.len() as int / 3,
        ));
        assert(s0.positions.len() as int / 3 <= s1.positions.len() as int / 3);
        assert(s0.texcoords.len() as int / 2 <= s1.texcoords.len() as int / 2);
        assert(s0.normals.len() as int / 3 <= s1.normals.len() as int / 3);
    }
}

/// Copy a byte vector.
fn clone_bytes(v: &Vec<u8>) -> (r: Vec<u8>)
    ensures
        r@ == v@,
{
    let mut r: Vec<u8> = Vec::new();
    let mut i: usize = 0;
    while i < v.len()
        invariant
            0 <= i <= v@.len(),
            r@ == v@.take(i as int),
        decreases v@.len() - i,
    {
        r.push(v[i]);
        proof {
            assert(v@.take(i as int).push(v@[i as int]) =~= v@.take(i + 1));
        }
        i = i + 1;
    }
    proof {
        assert(v@.take(v@.len() as int) =~= v@);
    }
    r
}

} // verus!
