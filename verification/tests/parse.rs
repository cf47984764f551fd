use wavefront::geom::Face;
use wavefront::parser::classify;
use wavefront::parser::Directive;
use wavefront::parser::Obj;

fn lines(text: &str) -> Vec<Vec<u8>> {
    text.lines().map(|l| l.as_bytes().to_vec()).collect()
}

#[test]
fn end_to_end_triangle() {
    let input = lines("v 0 0 0\nv 1 0 0\nv 0 1 0\nf 1/1/1 2/1/1 3/1/1");
    let model = Obj::parse(&input).unwrap();
    assert_eq!(model.vsv.len(), 3);
    assert_eq!(model.vst.len(), 0);
    assert_eq!(model.vsn.len(), 0);
    assert_eq!(model.fs.len(), 1);
    assert_eq!(model.vsv[0].x, b"0".to_vec());
    assert_eq!(model.vsv[1].x, b"1".to_vec());
    assert_eq!(model.vsv[1].y, b"0".to_vec());
    assert_eq!(model.vsv[2].y, b"1".to_vec());
    assert_eq!(model.fs[0].v, (1, 2, 3));
    assert_eq!(model.fs[0].t, (1, 1, 1));
    assert_eq!(model.fs[0].n, (1, 1, 1));
}

#[test]
fn vertex_lines_append_in_file_order() {
    let input = lines("v 1 2 3\nv 4 5 6\nv 7 8 9");
    let model = Obj::parse(&input).unwrap();
    assert_eq!(model.vsv.len(), 3);
    assert_eq!(model.vsv[0].x, b"1".to_vec());
    assert_eq!(model.vsv[1].x, b"4".to_vec());
    assert_eq!(model.vsv[2].x, b"7".to_vec());
}

#[test]
fn face_triples_stored_verbatim() {
    let f = Face::parse(b"3/7/9", b"12/1/2", b"65535/4/5").unwrap();
    assert_eq!(f.v, (3, 12, 65535));
    assert_eq!(f.t, (7, 1, 4));
    assert_eq!(f.n, (9, 2, 5));
}

#[test]
fn two_field_texcoord_gets_zero_z() {
    let input = lines("vt 0.5 0.25");
    let model = Obj::parse(&input).unwrap();
    assert_eq!(model.vst.len(), 1);
    assert_eq!(model.vst[0].x, b"0.5".to_vec());
    assert_eq!(model.vst[0].y, b"0.25".to_vec());
    assert_eq!(model.vst[0].z, b"0.0".to_vec());
    let z = String::from_utf8(model.vst[0].z.clone()).unwrap();
    let zf: f32 = z.parse().unwrap();
    assert_eq!(zf, 0.0);
}

#[test]
fn three_field_texcoord_keeps_its_z() {
    let input = lines("vt 0.5 0.25 0.75");
    let model = Obj::parse(&input).unwrap();
    assert_eq!(model.vst.len(), 1);
    assert_eq!(model.vst[0].z, b"0.75".to_vec());
}

#[test]
fn normals_go_to_their_own_collection() {
    let input = lines("vn 0 0 1\nvn 1 0 0");
    let model = Obj::parse(&input).unwrap();
    assert_eq!(model.vsn.len(), 2);
    assert_eq!(model.vsv.len(), 0);
    assert_eq!(model.vsn[1].x, b"1".to_vec());
}

#[test]
fn comments_and_blanks_mutate_nothing() {
    let plain = lines("v 1 2 3\nf 1/1/1 1/1/1 1/1/1");
    let noisy = lines("# a comment\n\nv 1 2 3\n   \n# another\nf 1/1/1 1/1/1 1/1/1\n\n");
    let a = Obj::parse(&plain).unwrap();
    let b = Obj::parse(&noisy).unwrap();
    assert_eq!(a.vsv.len(), b.vsv.len());
    assert_eq!(a.vst.len(), b.vst.len());
    assert_eq!(a.vsn.len(), b.vsn.len());
    assert_eq!(a.fs.len(), b.fs.len());
    assert_eq!(a.vsv[0].x, b.vsv[0].x);
    assert_eq!(a.fs[0], b.fs[0]);
}

#[test]
fn only_comments_and_blanks_give_an_empty_model() {
    let input = lines("# header\n\n#\n   \t  ");
    let model = Obj::parse(&input).unwrap();
    assert_eq!(model.vsv.len(), 0);
    assert_eq!(model.vst.len(), 0);
    assert_eq!(model.vsn.len(), 0);
    assert_eq!(model.fs.len(), 0);
}

#[test]
fn malformed_numeric_field_fails() {
    let input = lines("v 1.0 abc 2.0");
    let err = Obj::parse(&input).unwrap_err();
    assert_eq!(err.line, 1);
    assert_eq!(err.content, b"v 1.0 abc 2.0".to_vec());
}

#[test]
fn malformed_face_token_names_the_line() {
    let input = lines("v 0 0 0\nv 1 0 0\nf 1/2 3/4 5/6");
    let err = Obj::parse(&input).unwrap_err();
    assert_eq!(err.line, 3);
    assert_eq!(err.content, b"f 1/2 3/4 5/6".to_vec());
}

#[test]
fn first_bad_line_wins() {
    let input = lines("v 0 0 0\ng group\nf 1/2 3/4 5/6");
    let err = Obj::parse(&input).unwrap_err();
    assert_eq!(err.line, 2);
    assert_eq!(err.content, b"g group".to_vec());
}

#[test]
fn unknown_directive_fails() {
    let input = lines("usemtl shiny");
    assert!(Obj::parse(&input).is_err());
}

#[test]
fn wrong_arity_fails() {
    assert!(Obj::parse(&lines("v 1 2")).is_err());
    assert!(Obj::parse(&lines("v 1 2 3 4")).is_err());
    assert!(Obj::parse(&lines("vn 1 2")).is_err());
    assert!(Obj::parse(&lines("f 1/1/1 2/2/2")).is_err());
}

#[test]
fn comment_needs_its_own_token() {
    assert!(Obj::parse(&lines("# free text, any! shape")).is_ok());
    assert!(Obj::parse(&lines("#glued comment")).is_err());
}

#[test]
fn face_index_out_of_range_fails() {
    assert!(Face::parse(b"65536/1/1", b"1/1/1", b"1/1/1").is_none());
    assert!(Obj::parse(&lines("f 70000/1/1 1/1/1 1/1/1")).is_err());
}

#[test]
fn face_component_shapes() {
    assert!(Face::parse(b"1/2/3/4", b"1/1/1", b"1/1/1").is_none());
    assert!(Face::parse(b"1//3", b"1/1/1", b"1/1/1").is_none());
    assert!(Face::parse(b"+1/2/3", b"1/1/1", b"1/1/1").is_none());
    assert!(Face::parse(b"a/2/3", b"1/1/1", b"1/1/1").is_none());
    assert!(Face::parse(b"0/0/0", b"1/1/1", b"1/1/1").is_some());
}

#[test]
fn classify_dispatches_before_any_mutation() {
    match classify(b"v 1 2 3") {
        Some(Directive::VertexPos(p)) => {
            assert_eq!(p.x, b"1".to_vec());
            assert_eq!(p.y, b"2".to_vec());
            assert_eq!(p.z, b"3".to_vec());
        },
        _ => panic!("a vertex line must dispatch to a vertex directive"),
    }
    assert!(matches!(classify(b"vn 0 0 1"), Some(Directive::Normal(_))));
    assert!(matches!(classify(b"vt 0 1"), Some(Directive::TexCoord(_))));
    assert!(matches!(classify(b"f 1/1/1 2/2/2 3/3/3"), Some(Directive::FaceDef(_))));
    assert!(matches!(classify(b"# anything"), Some(Directive::Skip)));
    assert!(matches!(classify(b""), Some(Directive::Skip)));
    assert!(classify(b"vp 1 2 3").is_none());
}

#[test]
fn extra_whitespace_between_fields_is_fine() {
    let input = lines("  v\t 1  2   3 ");
    let model = Obj::parse(&input).unwrap();
    assert_eq!(model.vsv.len(), 1);
    assert_eq!(model.vsv[0].z, b"3".to_vec());
}
