//! Unit tests for tokenizing, index resolution and face assembly.

use tobj::index::parse_index;
use tobj::{parse_face, tokenize, Face, VertexIndices};

fn texts(toks: Vec<Vec<u8>>) -> Vec<String> {
    toks.into_iter().map(|t| String::from_utf8(t).unwrap()).collect()
}

#[test]
fn tokenize_trims_and_splits() {
    let toks = texts(tokenize(b"  v 1 2  3 "));
    assert_eq!(toks, vec!["v", "1", "2", "", "3"]);
}

#[test]
fn tokenize_empty_line() {
    let toks = texts(tokenize(b"   "));
    assert_eq!(toks, vec![""]);
}

#[test]
fn parse_index_positive_is_one_based() {
    assert_eq!(parse_index(b"1", 5), Some(0));
    assert_eq!(parse_index(b"5", 5), Some(4));
    assert_eq!(parse_index(b"+3", 5), Some(2));
}

#[test]
fn parse_index_negative_is_relative() {
    assert_eq!(parse_index(b"-1", 5), Some(4));
    assert_eq!(parse_index(b"-5", 5), Some(0));
}

#[test]
fn parse_index_out_of_range() {
    assert_eq!(parse_index(b"6", 5), None);
    assert_eq!(parse_index(b"0", 5), None);
    assert_eq!(parse_index(b"-0", 5), None);
    assert_eq!(parse_index(b"-6", 5), None);
    assert_eq!(parse_index(b"99999999999999999999999999", 5), None);
}

#[test]
fn parse_index_malformed() {
    assert_eq!(parse_index(b"x", 5), None);
    assert_eq!(parse_index(b"1x", 5), None);
    assert_eq!(parse_index(b"", 5), None);
    assert_eq!(parse_index(b"-", 5), None);
    assert_eq!(parse_index(b"+", 5), None);
}

#[test]
fn parse_vertex_full_triple() {
    let v = VertexIndices::parse(b"1/2/3", 3, 3, 3);
    assert_eq!(v, Some(VertexIndices { v: 0, vt: 1, vn: 2 }));
}

#[test]
fn parse_vertex_missing_texcoord() {
    let v = VertexIndices::parse(b"1//2", 3, 0, 3);
    assert_eq!(v, Some(VertexIndices { v: 0, vt: 0, vn: 1 }));
}

#[test]
fn parse_vertex_position_only() {
    let v = VertexIndices::parse(b"3", 3, 0, 0);
    assert_eq!(v, Some(VertexIndices { v: 2, vt: 0, vn: 0 }));
}

#[test]
fn parse_vertex_relative() {
    let v = VertexIndices::parse(b"-1/-2", 4, 3, 0);
    assert_eq!(v, Some(VertexIndices { v: 3, vt: 1, vn: 0 }));
}

#[test]
fn parse_vertex_rejects_bad_integer() {
    assert_eq!(VertexIndices::parse(b"a", 3, 3, 3), None);
    assert_eq!(VertexIndices::parse(b"1/b", 3, 3, 3), None);
    assert_eq!(VertexIndices::parse(b"1/2/3/x", 3, 3, 3), None);
}

#[test]
fn parse_vertex_rejects_fourth_component() {
    assert_eq!(VertexIndices::parse(b"1/2/3/4", 9, 9, 9), None);
}

#[test]
fn parse_vertex_rejects_unbacked_index() {
    assert_eq!(VertexIndices::parse(b"4", 3, 0, 0), None);
    assert_eq!(VertexIndices::parse(b"1/4", 3, 3, 0), None);
    // An empty token leaves the position sentinel 0, which needs a vertex.
    assert_eq!(VertexIndices::parse(b"", 0, 0, 0), None);
    assert_eq!(VertexIndices::parse(b"", 1, 0, 0), Some(VertexIndices { v: 0, vt: 0, vn: 0 }));
}

#[test]
fn parse_face_triangle_appends() {
    let mut faces: Vec<Face> = Vec::new();
    let toks = vec![b"1".to_vec(), b"2".to_vec(), b"3".to_vec()];
    assert!(parse_face(&toks, &mut faces, 3, 0, 0));
    assert_eq!(faces.len(), 1);
    match faces[0] {
        Face::Triangle(a, b, c) => {
            assert_eq!((a.v, b.v, c.v), (0, 1, 2));
        },
        _ => panic!("expected a triangle"),
    }
}

#[test]
fn parse_face_quad_appends() {
    let mut faces: Vec<Face> = Vec::new();
    let toks = vec![b"1".to_vec(), b"2".to_vec(), b"3".to_vec(), b"4".to_vec()];
    assert!(parse_face(&toks, &mut faces, 4, 0, 0));
    assert_eq!(faces.len(), 1);
    match faces[0] {
        Face::Quad(a, b, c, d) => {
            assert_eq!((a.v, b.v, c.v, d.v), (0, 1, 2, 3));
        },
        _ => panic!("expected a quad"),
    }
}

#[test]
fn parse_face_rejects_wrong_counts() {
    let mut faces: Vec<Face> = Vec::new();
    let two = vec![b"1".to_vec(), b"2".to_vec()];
    assert!(!parse_face(&two, &mut faces, 3, 0, 0));
    let five = vec![b"1".to_vec(), b"2".to_vec(), b"3".to_vec(), b"1".to_vec(), b"2".to_vec()];
    assert!(!parse_face(&five, &mut faces, 3, 0, 0));
    assert!(faces.is_empty());
}

#[test]
fn parse_face_rejects_any_bad_vertex() {
    let mut faces: Vec<Face> = Vec::new();
    let toks = vec![b"1".to_vec(), b"2".to_vec(), b"9".to_vec()];
    assert!(!parse_face(&toks, &mut faces, 3, 0, 0));
    assert!(faces.is_empty());
}
