use engine::types::meshdata::MeshData;
use engine::types::texture::Texture;
use engine::types::tlu::Tlu;

fn pair(name: &str, content: &str) -> (String, String) {
    (name.to_string(), content.to_string())
}

const SHADER: &str = "\
-- a comment before any section
ignored before the first section
@tlu
cull on
ztest   on
depthfunc lequal
-- a comment among the parameters
nospace
cull off
@vert
#version 300 es

  void main() { }  
@frag
#version 300 es
precision highp float;
void main() { }

";

#[test]
fn tlu_sections_are_told_apart() {
    let tlu = Tlu::parse(SHADER.to_string(), None);
    assert_eq!(tlu.vert(), "#version 300 es\nvoid main() { }");
    assert_eq!(
        tlu.frag(),
        "#version 300 es\nprecision highp float;\nvoid main() { }"
    );
}

#[test]
fn tlu_params_keep_the_last_value() {
    let tlu = Tlu::parse(SHADER.to_string(), None);
    assert_eq!(tlu.get_param("cull"), Some(&"off".to_string()));
    assert_eq!(tlu.get_param("ztest"), Some(&"on".to_string()));
    assert_eq!(tlu.get_param("depthfunc"), Some(&"lequal".to_string()));
    assert_eq!(tlu.get_param("nospace"), None);
    assert_eq!(tlu.get_param("depthmask"), None);
    assert_eq!(
        tlu.params(),
        &vec![
            pair("cull", "off"),
            pair("ztest", "on"),
            pair("depthfunc", "lequal")
        ]
    );
}

#[test]
fn tlu_of_an_empty_text_is_empty() {
    let tlu = Tlu::parse(String::new(), None);
    assert_eq!(tlu.vert(), "");
    assert_eq!(tlu.frag(), "");
    assert!(tlu.params().is_empty());
    assert_eq!(tlu.get_param("cull"), None);
}

#[test]
fn tlu_unknown_sections_are_passed_over() {
    let text = "@tlu\na b\n@geom\nc d\n#inc\nline\n@vert\nx\n@tlu\ne  f g \n";
    let tlu = Tlu::parse(text.to_string(), None);
    assert_eq!(tlu.params(), &vec![pair("a", "b"), pair("e", "f g")]);
    assert_eq!(tlu.vert(), "x");
    assert_eq!(tlu.frag(), "");
}

#[test]
fn tlu_a_section_line_must_match_in_full() {
    let text = "@vert \nin vert\n@vertex\nnot in vert\n@ vert\nneither\n";
    let tlu = Tlu::parse(text.to_string(), None);
    assert_eq!(tlu.vert(), "in vert");
}

#[test]
fn tlu_lines_may_end_in_carriage_return_and_line_feed() {
    let text = "@tlu\r\ncull on\r\n@vert\r\n\tfirst\t\r\nsecond\r\n\r\n@frag\r\nthird";
    let tlu = Tlu::parse(text.to_string(), None);
    assert_eq!(tlu.get_param("cull"), Some(&"on".to_string()));
    assert_eq!(tlu.vert(), "first\nsecond");
    assert_eq!(tlu.frag(), "third");
}

#[test]
fn tlu_comment_lines_are_dropped_in_every_section() {
    let text = "@vert\na\n  -- not source\nb -- kept\n--\n@frag\n--@vert\nc\n";
    let tlu = Tlu::parse(text.to_string(), None);
    assert_eq!(tlu.vert(), "a\nb -- kept");
    assert_eq!(tlu.frag(), "c");
}

#[test]
fn tlu_inc_lines_draw_on_the_files_at_hand() {
    let text = "@vert\nbefore\n#inc light.glsl\nafter\n@frag\n#include   fog.glsl  trailing\nend\n";
    let files = vec![
        pair("light.glsl", "  vec3 light;  \r\n\n float power; "),
        pair("fog.glsl", "old fog"),
        pair("fog.glsl", "float fog;\n"),
    ];
    let tlu = Tlu::parse(text.to_string(), Some(files));
    assert_eq!(tlu.vert(), "before\nvec3 light;\n\nfloat power;\nafter");
    assert_eq!(tlu.frag(), "float fog;\nend");
}

#[test]
fn tlu_inc_lines_of_files_that_are_not_at_hand_add_nothing() {
    let text = "@vert\nbefore\n#inc missing.glsl\nafter\n";
    let with_files = Tlu::parse(text.to_string(), Some(vec![pair("other.glsl", "x")]));
    assert_eq!(with_files.vert(), "before\nafter");
    let without = Tlu::parse(text.to_string(), None);
    assert_eq!(without.vert(), "before\nafter");
}

#[test]
fn tlu_an_inc_line_in_the_parameters_is_a_parameter() {
    let text = "@tlu\n#inc file.glsl\n";
    let tlu = Tlu::parse(text.to_string(), Some(vec![pair("file.glsl", "x y")]));
    assert_eq!(tlu.get_param("#inc"), Some(&"file.glsl".to_string()));
    assert_eq!(tlu.vert(), "");
}

#[test]
fn tlu_names_every_file() {
    assert!(Tlu::names_every_file(SHADER));
    assert!(Tlu::names_every_file("@vert\n#inc a\n"));
    assert!(!Tlu::names_every_file("@vert\n#inc \n"));
    assert!(Tlu::names_every_file("#inc\n"));
    assert!(Tlu::names_every_file(""));
}

#[test]
fn tlu_try_parse_wants_a_name_on_every_inc_line() {
    assert!(Tlu::try_parse("@vert\n#inc\n".to_string(), None).is_none());
    assert!(Tlu::try_parse("@frag\nok\n  #include   \n".to_string(), None).is_none());
    assert!(Tlu::try_parse("#inc\n@tlu\n#inc\n@other\n#inc\n".to_string(), None).is_some());
    let tlu = Tlu::try_parse("@vert\n#inc a\nb\n".to_string(), Some(vec![pair("a", "c")]));
    assert_eq!(tlu.unwrap().vert(), "c\nb");
}

#[test]
fn tlu_parse_param_splits_at_the_first_space() {
    let line: Vec<char> = "key  value with spaces ".chars().collect();
    let (key, value) = Tlu::parse_param(&line).unwrap();
    assert_eq!(key.iter().collect::<String>(), "key");
    assert_eq!(value.iter().collect::<String>(), "value with spaces");
    let tabbed: Vec<char> = "key\tvalue".chars().collect();
    assert!(Tlu::parse_param(&tabbed).is_none());
    let empty: Vec<char> = Vec::new();
    assert!(Tlu::parse_param(&empty).is_none());
    let bare: Vec<char> = "key ".chars().collect();
    let (key, value) = Tlu::parse_param(&bare).unwrap();
    assert_eq!((key.len(), value.len()), (3, 0));
}

#[test]
fn tlu_include_file_appends_the_lines_of_the_file() {
    let files = Some(vec![pair("a.glsl", " one \n two")]);
    let mut section: Vec<char> = "x\n".chars().collect();
    let line: Vec<char> = "#inc a.glsl".chars().collect();
    assert_eq!(Tlu::include_file(&line, &mut section, &files), (true, true));
    assert_eq!(section.iter().collect::<String>(), "x\none\ntwo\n");
    let plain: Vec<char> = "void main()".chars().collect();
    assert_eq!(Tlu::include_file(&plain, &mut section, &files), (false, true));
    let unnamed: Vec<char> = "#inc".chars().collect();
    assert_eq!(Tlu::include_file(&unnamed, &mut section, &files), (true, false));
    assert_eq!(section.iter().collect::<String>(), "x\none\ntwo\n");
}

#[test]
fn texture_keeps_what_it_is_given() {
    let texture = Texture::new(2, 3, vec![1, 2, 3, 4]);
    assert_eq!(texture.get_dimensions(), (2, 3));
    assert_eq!(texture.get_data(), &[1, 2, 3, 4]);
    assert_eq!(texture.width, 2);
    assert_eq!(texture.height, 3);
}

#[test]
fn texture_from_decoded_cuts_the_dimensions() {
    let texture = Texture::from_decoded(7, 4_294_967_295, vec![9]);
    assert_eq!(texture.get_dimensions(), (7, -1));
    assert_eq!(texture.get_data(), &[9]);
}

const PNG: [u8; 76] = [
    137, 80, 78, 71, 13, 10, 26, 10, 0, 0, 0, 13, 73, 72, 68, 82, 0, 0, 0, 2, 0, 0, 0, 2, 8, 2,
    0, 0, 0, 253, 212, 154, 115, 0, 0, 0, 19, 73, 68, 65, 84, 120, 156, 99, 248, 207, 192, 192, 0,
    194, 12, 255, 185, 68, 228, 0, 26, 88, 3, 58, 86, 99, 162, 60, 0, 0, 0, 0, 73, 69, 78, 68,
    174, 66, 96, 130,
];

#[test]
fn texture_decodes_a_png_into_rgba() {
    let texture = Texture::decode(&PNG).unwrap();
    assert_eq!(texture.get_dimensions(), (2, 2));
    assert_eq!(
        texture.get_data(),
        &[255, 0, 0, 255, 0, 255, 0, 255, 0, 0, 255, 255, 10, 20, 30, 255]
    );
}

#[test]
fn texture_of_bytes_that_are_no_image_is_none() {
    assert!(Texture::decode(&[1, 2, 3, 4]).is_none());
    assert!(Texture::decode(&[]).is_none());
    assert!(Texture::decode(&PNG[..40]).is_none());
}

#[test]
fn mesh_data_interleaves_by_index() {
    let positions = vec![0.0f32, 0.1, 0.2, 1.0, 1.1, 1.2, 2.0, 2.1, 2.2];
    let normals = vec![10.0f32, 10.1, 10.2, 11.0, 11.1, 11.2, 12.0, 12.1, 12.2, 13.0, 13.1, 13.2];
    let uv0 = vec![20.0f32, 20.1, 21.0, 21.1, 22.0, 22.1, 23.0, 23.1];
    let indices = vec![2u32, 0, 2, 1];
    let mesh = MeshData::new(positions, normals, uv0, indices);
    assert_eq!(
        mesh.raw_vertices(),
        &[
            2.0, 2.1, 2.2, 10.0, 10.1, 10.2, 20.0, 20.1, //
            0.0, 0.1, 0.2, 11.0, 11.1, 11.2, 21.0, 21.1, //
            2.0, 2.1, 2.2, 12.0, 12.1, 12.2, 22.0, 22.1, //
            1.0, 1.1, 1.2, 13.0, 13.1, 13.2, 23.0, 23.1,
        ]
    );
    assert_eq!(mesh.raw_indices(), &[0, 1, 2, 3]);
}

#[test]
fn mesh_data_without_indices_is_empty() {
    let mesh = MeshData::<u32>::new(vec![1, 2, 3], vec![], vec![], vec![]);
    assert!(mesh.raw_vertices().is_empty());
    assert!(mesh.raw_indices().is_empty());
}

#[test]
fn mesh_data_must_cover_its_indices() {
    let p = vec![1u8, 2, 3];
    let n = vec![4u8, 5, 6];
    let uv = vec![7u8, 8];
    assert!(MeshData::is_covered(&p, &n, &uv, &vec![0]));
    assert!(!MeshData::is_covered(&p, &n, &uv, &vec![1]));
    assert!(!MeshData::is_covered(&p, &n, &uv, &vec![0, 0]));
    assert!(!MeshData::is_covered(&p, &vec![4u8, 5], &uv, &vec![0]));
    assert!(!MeshData::is_covered(&p, &n, &vec![7u8], &vec![0]));
    assert!(!MeshData::is_covered(&vec![1u8, 2], &n, &uv, &vec![0]));
    assert!(MeshData::try_new(p.clone(), n.clone(), uv.clone(), vec![1]).is_none());
    let mesh = MeshData::try_new(p, n, uv, vec![0]).unwrap();
    assert_eq!(mesh.raw_vertices(), &[1, 2, 3, 4, 5, 6, 7, 8]);
    assert_eq!(mesh.raw_indices(), &[0]);
}
