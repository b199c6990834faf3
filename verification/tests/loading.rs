//! End-to-end tests: whole OBJ sources fed line by line through a loader.

use tobj::{export_faces, Face, LoadError, Loader, Mesh, Model, Token, VertexIndices};

/// Tokenize one line and attach to each token the 32-bit float bit pattern
/// its trimmed text parses as, if any: the caller's side of the interface.
fn to_tokens(line: &str) -> Vec<Token> {
    tobj::tokenize(line.as_bytes())
        .into_iter()
        .map(|text| {
            let scalar = std::str::from_utf8(&text)
                .ok()
                .and_then(|s| s.trim().parse::<f32>().ok())
                .map(f32::to_bits);
            Token { text, scalar }
        })
        .collect()
}

fn load_from_str(src: &str) -> Result<Vec<Model>, LoadError> {
    let mut loader = Loader::new();
    for line in src.lines() {
        let toks = to_tokens(line);
        if let Err(e) = loader.process_line(&toks) {
            return Err(e);
        }
    }
    Ok(loader.finish())
}

fn bits(vals: &[f32]) -> Vec<u32> {
    vals.iter().map(|v| v.to_bits()).collect()
}

#[test]
fn single_triangle_model() {
    let models = load_from_str("o tri\nv 0 0 0\nv 1 0 0\nv 1 1 0\nf 1 2 3\n").unwrap();
    assert_eq!(models.len(), 1);
    assert_eq!(models[0].name, b"tri".to_vec());
    let mesh = &models[0].mesh;
    assert_eq!(mesh.positions, bits(&[0.0, 0.0, 0.0, 1.0, 0.0, 0.0, 1.0, 1.0, 0.0]));
    assert_eq!(mesh.indices, vec![0, 1, 2]);
    assert!(mesh.texcoords.is_empty());
    assert!(mesh.normals.is_empty());
}

#[test]
fn quad_fans_into_two_triangles() {
    let models =
        load_from_str("o quad\nv 0 0 0\nv 1 0 0\nv 1 1 0\nv 0 1 0\nf 1 2 3 4\n").unwrap();
    assert_eq!(models.len(), 1);
    let mesh = &models[0].mesh;
    assert_eq!(mesh.positions.len(), 12);
    assert_eq!(mesh.indices, vec![0, 1, 2, 0, 2, 3]);
}

#[test]
fn mixed_component_counts_accepted() {
    let src = "o m\nv 0 0 0\nv 1 0 0\nv 1 1 0\nvt 0 0\nvt 1 0\nf 1/2 2 3\n";
    let models = load_from_str(src).unwrap();
    let mesh = &models[0].mesh;
    assert_eq!(mesh.indices, vec![0, 1, 2]);
    // The file has texcoords, so every output vertex gets a pair: the
    // explicit one for the first vertex, the sentinel pair for the others.
    assert_eq!(mesh.texcoords, bits(&[1.0, 0.0, 0.0, 0.0, 0.0, 0.0]));
}

#[test]
fn malformed_position_fails_whole_load() {
    let r = load_from_str("o m\nv 0 0 x\nf 1 2 3\n");
    assert_eq!(r.unwrap_err(), LoadError::PositionParseError);
    let r = load_from_str("o m\nv 1 2\n");
    assert_eq!(r.unwrap_err(), LoadError::PositionParseError);
    let r = load_from_str("o m\nv 1 2 3 4\n");
    assert_eq!(r.unwrap_err(), LoadError::PositionParseError);
}

#[test]
fn malformed_texcoord_and_normal_fail() {
    assert_eq!(load_from_str("vt 1\n").unwrap_err(), LoadError::TexcoordParseError);
    assert_eq!(load_from_str("vt a b\n").unwrap_err(), LoadError::TexcoordParseError);
    assert_eq!(load_from_str("vn 1 2\n").unwrap_err(), LoadError::NormalParseError);
    assert_eq!(load_from_str("vn 1 2 3 4\n").unwrap_err(), LoadError::NormalParseError);
}

#[test]
fn face_errors() {
    // Not enough vertices for the face.
    assert_eq!(
        load_from_str("v 0 0 0\nv 1 0 0\nf 1 2 3\n").unwrap_err(),
        LoadError::FaceParseError
    );
    // A 1-based index of zero never resolves.
    assert_eq!(
        load_from_str("v 0 0 0\nv 1 0 0\nv 1 1 0\nf 0 1 2\n").unwrap_err(),
        LoadError::FaceParseError
    );
    // Two vertices make no face.
    assert_eq!(
        load_from_str("v 0 0 0\nv 1 0 0\nv 1 1 0\nf 1 2\n").unwrap_err(),
        LoadError::FaceParseError
    );
}

#[test]
fn object_without_name_fails() {
    assert_eq!(load_from_str("o\n").unwrap_err(), LoadError::InvalidObjectName);
    assert_eq!(load_from_str("o \n").unwrap_err(), LoadError::InvalidObjectName);
}

#[test]
fn negative_indices_resolve_to_latest() {
    let models =
        load_from_str("o m\nv 0 0 0\nv 1 0 0\nv 1 1 0\nf -3 -2 -1\n").unwrap();
    let mesh = &models[0].mesh;
    assert_eq!(mesh.indices, vec![0, 1, 2]);
    assert_eq!(mesh.positions, bits(&[0.0, 0.0, 0.0, 1.0, 0.0, 0.0, 1.0, 1.0, 0.0]));
}

#[test]
fn shared_triples_are_deduplicated() {
    let src = "o m\nv 0 0 0\nv 1 0 0\nv 1 1 0\nv 0 1 0\nf 1 2 3\nf 1 3 4\n";
    let models = load_from_str(src).unwrap();
    let mesh = &models[0].mesh;
    assert_eq!(mesh.indices, vec![0, 1, 2, 0, 2, 3]);
    assert_eq!(mesh.positions.len(), 12);
}

#[test]
fn distinct_texcoords_make_distinct_vertices() {
    // The same position under two texcoords is two output vertices.
    let src = "o m\nv 0 0 0\nv 1 0 0\nv 1 1 0\nvt 0 0\nvt 1 1\nf 1/1 2/1 3/1\nf 1/2 2/1 3/1\n";
    let models = load_from_str(src).unwrap();
    let mesh = &models[0].mesh;
    assert_eq!(mesh.indices, vec![0, 1, 2, 3, 1, 2]);
    assert_eq!(mesh.positions.len(), 12);
}

#[test]
fn objects_have_independent_index_spaces() {
    let src = "v 0 0 0\nv 1 0 0\nv 1 1 0\no a\nf 1 2 3\no b\nf 1 2 3\n";
    let models = load_from_str(src).unwrap();
    assert_eq!(models.len(), 2);
    assert_eq!(models[0].name, b"a".to_vec());
    assert_eq!(models[1].name, b"b".to_vec());
    for m in &models {
        assert_eq!(m.mesh.indices, vec![0, 1, 2]);
        assert_eq!(m.mesh.positions.len(), 9);
    }
}

#[test]
fn faces_before_any_object_are_dropped() {
    let models = load_from_str("v 0 0 0\nv 1 0 0\nv 1 1 0\nf 1 2 3\n").unwrap();
    assert!(models.is_empty());
}

#[test]
fn object_renamed_before_faces_keeps_last_name() {
    let src = "v 0 0 0\nv 1 0 0\nv 1 1 0\no a\no b\nf 1 2 3\n";
    let models = load_from_str(src).unwrap();
    assert_eq!(models.len(), 1);
    assert_eq!(models[0].name, b"b".to_vec());
}

#[test]
fn unknown_directives_are_ignored() {
    let src = "# a comment\ng grp\nmtllib scene.mtl\nusemtl wood\ns off\n\no m\nv 0 0 0\nv 1 0 0\nv 1 1 0\nf 1 2 3\n";
    let models = load_from_str(src).unwrap();
    assert_eq!(models.len(), 1);
    assert_eq!(models[0].mesh.indices, vec![0, 1, 2]);
}

#[test]
fn no_texcoords_means_empty_texcoord_buffer() {
    // Faces may carry empty texcoord fields; with no `vt` record in the
    // file the exported buffer stays empty.
    let src = "o m\nv 0 0 0\nv 1 0 0\nv 1 1 0\nf 1/ 2/ 3/\n";
    let models = load_from_str(src).unwrap();
    assert!(models[0].mesh.texcoords.is_empty());
    assert_eq!(models[0].mesh.indices, vec![0, 1, 2]);
}

#[test]
fn normals_are_gathered_per_vertex() {
    let src = "o m\nv 0 0 0\nv 1 0 0\nv 1 1 0\nvn 0 0 1\nf 1//1 2//1 3//1\n";
    let models = load_from_str(src).unwrap();
    let mesh = &models[0].mesh;
    assert_eq!(mesh.normals, bits(&[0.0, 0.0, 1.0, 0.0, 0.0, 1.0, 0.0, 0.0, 1.0]));
    assert!(mesh.texcoords.is_empty());
}

#[test]
fn retriangulation_keeps_triangle_count() {
    let src = "o quad\nv 0 0 0\nv 1 0 0\nv 1 1 0\nv 0 1 0\nf 1 2 3 4\n";
    let models = load_from_str(src).unwrap();
    let mesh = &models[0].mesh;
    // Write the exported mesh back out as triangle records and reload it.
    let mut src2 = String::from("o again\n");
    for p in mesh.positions.chunks(3) {
        src2.push_str(&format!(
            "v {} {} {}\n",
            f32::from_bits(p[0]),
            f32::from_bits(p[1]),
            f32::from_bits(p[2])
        ));
    }
    for t in mesh.indices.chunks(3) {
        src2.push_str(&format!("f {} {} {}\n", t[0] + 1, t[1] + 1, t[2] + 1));
    }
    let models2 = load_from_str(&src2).unwrap();
    assert_eq!(models2[0].mesh.indices.len(), mesh.indices.len());
}

#[test]
fn export_faces_directly() {
    let pos = bits(&[0.0, 0.0, 0.0, 1.0, 0.0, 0.0, 1.0, 1.0, 0.0, 0.0, 1.0, 0.0]);
    let tex: Vec<u32> = Vec::new();
    let norm: Vec<u32> = Vec::new();
    let t = |v: usize| VertexIndices { v, vt: 0, vn: 0 };
    let faces = vec![Face::Quad(t(0), t(1), t(2), t(3))];
    let mesh = export_faces(&pos, &tex, &norm, &faces);
    assert_eq!(mesh.indices, vec![0, 1, 2, 0, 2, 3]);
    assert_eq!(mesh.positions, pos);
}

#[test]
fn mesh_and_model_constructors() {
    let m = Mesh::empty();
    assert!(m.positions.is_empty() && m.normals.is_empty());
    assert!(m.texcoords.is_empty() && m.indices.is_empty());
    let m = Mesh::new(vec![1, 2, 3], vec![4], vec![5], vec![6]);
    assert_eq!(m.positions, vec![1, 2, 3]);
    assert_eq!(m.normals, vec![4]);
    assert_eq!(m.texcoords, vec![5]);
    assert_eq!(m.indices, vec![6]);
    let model = Model::new(m, b"name".to_vec());
    assert_eq!(model.name, b"name".to_vec());
    assert_eq!(model.mesh.positions, vec![1, 2, 3]);
}

#[test]
fn whitespace_and_blank_lines() {
    let src = "\n   \no m\n  v 0 0 0 \nv  1 0 0\nv 1 1 0\nf 1 2 3\n";
    // "v  1 0 0" has a double space: the empty token is skipped.
    let models = load_from_str(src).unwrap();
    assert_eq!(models[0].mesh.positions.len(), 9);
    assert_eq!(models[0].mesh.indices, vec![0, 1, 2]);
}

#[test]
fn faces_before_first_object_join_it() {
    // Faces read before the first `o` record stay pending and are exported
    // with the first named object.
    let src = "v 0 0 0\nv 1 0 0\nv 1 1 0\nf 1 2 3\no a\nf 1 2 3\n";
    let models = load_from_str(src).unwrap();
    assert_eq!(models.len(), 1);
    assert_eq!(models[0].name, b"a".to_vec());
    assert_eq!(models[0].mesh.indices, vec![0, 1, 2, 0, 1, 2]);
    assert_eq!(models[0].mesh.positions.len(), 9);
}
