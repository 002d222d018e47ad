use engine::assetman::{
    asset_kind, file_name, parse_mesh, read_block, read_header, read_int, read_uint, AssetKind,
    Cursor,
};
use engine::input::{get_mouse_button, KeyStates};
use engine::systems::batch;
use engine::text::{
    append, find, from_chars, same, slice_of, split_lines, starts_with, to_chars, token, trim,
    trim_end,
};
use engine::types::tlu::Tlu;
use engine::webgl::{depth_func_named, texture_unit, update_state, DepthFunc, DrawMode, RenderState};

fn chars(s: &str) -> Vec<char> {
    s.chars().collect()
}

fn text(v: &Vec<char>) -> String {
    v.iter().collect()
}

fn word(n: u32) -> Vec<u8> {
    n.to_le_bytes().to_vec()
}

fn mesh_file() -> Vec<u8> {
    let mut bytes = Vec::new();
    bytes.extend(word(4));
    bytes.extend(b"cube");
    bytes.extend(word(2));
    for n in 0..6u32 {
        bytes.extend((n as f32).to_le_bytes());
    }
    bytes.extend(word(1));
    for n in 0..3u32 {
        bytes.extend((n as f32 + 0.5).to_le_bytes());
    }
    bytes.extend(word(1));
    bytes.extend(0.25f32.to_le_bytes());
    bytes.extend(0.75f32.to_le_bytes());
    bytes.extend(word(3));
    bytes.extend(word(1));
    bytes.extend(word(0));
    bytes.extend(word(0x0102_0304));
    bytes
}

#[test]
fn mesh_file_is_read_block_by_block() {
    let mesh = parse_mesh(mesh_file()).unwrap();
    assert_eq!(mesh.name, b"cube");
    let floats = |words: &Vec<u32>| words.iter().map(|w| f32::from_bits(*w)).collect::<Vec<f32>>();
    assert_eq!(floats(&mesh.positions), vec![0.0, 1.0, 2.0, 3.0, 4.0, 5.0]);
    assert_eq!(floats(&mesh.normals), vec![0.5, 1.5, 2.5]);
    assert_eq!(floats(&mesh.uv0), vec![0.25, 0.75]);
    assert_eq!(mesh.indices, vec![1, 0, 0x0102_0304]);
}

#[test]
fn mesh_file_may_be_followed_by_more() {
    let mut bytes = mesh_file();
    bytes.extend([1, 2, 3]);
    assert_eq!(parse_mesh(bytes).unwrap().indices.len(), 3);
}

#[test]
fn mesh_file_that_is_cut_short_is_none() {
    let bytes = mesh_file();
    for len in 0..bytes.len() {
        assert!(parse_mesh(bytes[..len].to_vec()).is_none(), "length {}", len);
    }
    assert!(parse_mesh(vec![255, 255, 255, 255, 0]).is_none());
}

#[test]
fn smallest_mesh_file() {
    let mesh = parse_mesh(vec![0; 20]).unwrap();
    assert!(mesh.name.is_empty());
    assert!(mesh.positions.is_empty());
    assert!(mesh.indices.is_empty());
}

#[test]
fn words_are_little_endian() {
    let mut cursor = Cursor::new(vec![1, 2, 3, 4, 255, 255, 255, 255, 0, 0, 0, 128, 7, 0, 0, 0]);
    assert_eq!(cursor.remaining(), 16);
    assert_eq!(read_uint(&mut cursor), 0x0403_0201);
    assert_eq!(read_int(&mut cursor), -1);
    assert_eq!(read_int(&mut cursor), i32::MIN);
    assert_eq!(read_header(&mut cursor), 7);
    assert_eq!(cursor.remaining(), 0);
}

#[test]
fn read_int_agrees_with_the_bytes() {
    for n in [0i32, 1, -2, 1234567, -7654321, i32::MAX, i32::MIN] {
        let mut cursor = Cursor::new(n.to_le_bytes().to_vec());
        assert_eq!(read_int(&mut cursor), n);
    }
}

#[test]
fn blocks_hold_a_count_and_its_values() {
    let mut bytes = word(2);
    for n in 10..14u32 {
        bytes.extend(word(n));
    }
    bytes.extend(word(9));
    let mut cursor = Cursor::new(bytes);
    assert_eq!(read_block(&mut cursor, 2), Some(vec![10, 11, 12, 13]));
    assert_eq!(cursor.remaining(), 4);
    assert_eq!(read_block(&mut cursor, 1), None);
    assert_eq!(cursor.read_bytes(0), Vec::<u8>::new());
}

#[test]
fn assets_are_known_by_their_ending() {
    assert_eq!(asset_kind("shaders/lit.tlu"), Some(AssetKind::Shader));
    assert_eq!(asset_kind("cube.tmf"), Some(AssetKind::Mesh));
    assert_eq!(asset_kind("a/b/c.png"), Some(AssetKind::Texture));
    assert_eq!(asset_kind(".png"), Some(AssetKind::Texture));
    assert_eq!(asset_kind("c.PNG"), None);
    assert_eq!(asset_kind("png"), None);
    assert_eq!(asset_kind("c.png.txt"), None);
    assert_eq!(asset_kind(""), None);
}

#[test]
fn file_name_is_the_last_segment() {
    assert_eq!(text(&file_name("shaders/inc/light.glsl")), "light.glsl");
    assert_eq!(text(&file_name("light.glsl")), "light.glsl");
    assert_eq!(text(&file_name("shaders/")), "");
    assert_eq!(text(&file_name("/x")), "x");
    assert_eq!(text(&file_name("")), "");
}

#[test]
fn depth_functions_by_name() {
    assert_eq!(depth_func_named("never"), DepthFunc::Never);
    assert_eq!(depth_func_named("less"), DepthFunc::Less);
    assert_eq!(depth_func_named("equal"), DepthFunc::Equal);
    assert_eq!(depth_func_named("lequal"), DepthFunc::Lequal);
    assert_eq!(depth_func_named("greater"), DepthFunc::Greater);
    assert_eq!(depth_func_named("notequal"), DepthFunc::Notequal);
    assert_eq!(depth_func_named("gequal"), DepthFunc::Gequal);
    assert_eq!(depth_func_named("always"), DepthFunc::Always);
    assert_eq!(depth_func_named("Always"), DepthFunc::Less);
    assert_eq!(depth_func_named(""), DepthFunc::Less);
}

#[test]
fn render_state_follows_the_parameters() {
    let tlu = Tlu::parse(
        "@tlu\ncull on\nztest off\ndepthfunc gequal\ndepthmask on\n".to_string(),
        None,
    );
    assert_eq!(
        update_state(&tlu),
        RenderState {
            culling: true,
            depth_test: false,
            depth_func: DepthFunc::Gequal,
            depth_mask: true,
        }
    );
}

#[test]
fn render_state_without_parameters() {
    let tlu = Tlu::parse(String::new(), None);
    assert_eq!(
        update_state(&tlu),
        RenderState {
            culling: false,
            depth_test: false,
            depth_func: DepthFunc::Always,
            depth_mask: false,
        }
    );
    let odd = Tlu::parse("@tlu\ndepthfunc sometimes\nztest on\ncull ON\n".to_string(), None);
    assert_eq!(
        update_state(&odd),
        RenderState {
            culling: false,
            depth_test: true,
            depth_func: DepthFunc::Less,
            depth_mask: false,
        }
    );
}

#[test]
fn texture_units_of_slots() {
    assert_eq!(texture_unit(0), Some(0));
    assert_eq!(texture_unit(1), Some(1));
    assert_eq!(texture_unit(2), Some(2));
    assert_eq!(texture_unit(3), None);
    assert_eq!(texture_unit(-1), None);
}

#[test]
fn draw_modes_differ() {
    assert_ne!(DrawMode::Static, DrawMode::Dynamic);
}

#[test]
fn keys_go_down_and_up() {
    let mut keys = KeyStates::new();
    assert!(!keys.is_pressed("KeyW"));
    assert!(keys.handle_key_press("KeyW"));
    assert!(keys.is_pressed("KeyW"));
    assert!(!keys.handle_key_press("KeyW"));
    assert!(keys.handle_key_press("KeyA"));
    keys.handle_key_release("KeyW");
    assert!(!keys.is_pressed("KeyW"));
    assert!(keys.is_pressed("KeyA"));
    keys.handle_key_release("KeyW");
    assert!(keys.handle_key_press("KeyW"));
}

#[test]
fn mouse_buttons_have_codes() {
    assert_eq!(get_mouse_button(0), Some("MouseLeft".to_string()));
    assert_eq!(get_mouse_button(1), Some("MouseMiddle".to_string()));
    assert_eq!(get_mouse_button(2), Some("MouseRight".to_string()));
    assert_eq!(get_mouse_button(3), None);
    assert_eq!(get_mouse_button(-1), None);
    let mut keys = KeyStates::new();
    assert!(keys.handle_mouse_press(0));
    assert!(!keys.handle_mouse_press(0));
    assert!(!keys.handle_mouse_press(5));
    assert!(keys.is_pressed("MouseLeft"));
    assert!(!keys.is_pressed("MouseRight"));
    assert!(keys.handle_mouse_release(0));
    assert!(!keys.handle_mouse_release(5));
    assert!(!keys.is_pressed("MouseLeft"));
}

#[test]
fn trimming_takes_whitespace_from_the_ends() {
    assert_eq!(text(&trim(&chars("  a b\t\r\n"))), "a b");
    assert_eq!(text(&trim(&chars("\u{a0}x\u{3000}"))), "x");
    assert_eq!(text(&trim(&chars(" \t "))), "");
    assert_eq!(text(&trim(&chars(""))), "");
    assert_eq!(text(&trim_end(&chars("  a  "))), "  a");
    assert_eq!(text(&trim_end(&chars("a\n\n"))), "a");
}

#[test]
fn lines_end_at_line_feeds() {
    let lines = |s: &str| split_lines(&chars(s)).iter().map(text).collect::<Vec<String>>();
    assert_eq!(lines("a\nb"), vec!["a", "b"]);
    assert_eq!(lines("a\nb\n"), vec!["a", "b"]);
    assert_eq!(lines("a\n\nb\n\n"), vec!["a", "", "b", ""]);
    assert_eq!(lines("\n"), vec![""]);
    assert_eq!(lines(""), Vec::<String>::new());
    assert_eq!(lines("a\r\nb"), vec!["a\r", "b"]);
}

#[test]
fn words_are_counted_from_zero() {
    let line = chars("  #inc \t file.glsl  more");
    assert_eq!(token(&line, 0).map(|w| text(&w)), Some("#inc".to_string()));
    assert_eq!(token(&line, 1).map(|w| text(&w)), Some("file.glsl".to_string()));
    assert_eq!(token(&line, 2).map(|w| text(&w)), Some("more".to_string()));
    assert_eq!(token(&line, 3), None);
    assert_eq!(token(&chars("   "), 0), None);
    assert_eq!(token(&chars(""), 0), None);
}

#[test]
fn character_helpers() {
    assert_eq!(to_chars("héllo"), chars("héllo"));
    assert_eq!(from_chars(&chars("héllo")), "héllo");
    assert_eq!(text(&slice_of(&chars("abcdef"), 1, 4)), "bcd");
    assert_eq!(text(&slice_of(&chars("abcdef"), 3, 3)), "");
    let mut s = chars("ab");
    append(&mut s, &chars("cd"));
    assert_eq!(text(&s), "abcd");
    assert!(same(&chars("ab"), &chars("ab")));
    assert!(!same(&chars("ab"), &chars("ac")));
    assert!(!same(&chars("ab"), &chars("abc")));
    assert!(starts_with(&chars("--x"), &chars("--")));
    assert!(starts_with(&chars("--"), &chars("")));
    assert!(!starts_with(&chars("-"), &chars("--")));
    assert!(!starts_with(&chars("a--"), &chars("--")));
    assert_eq!(find(&chars("a b c"), 0, ' '), 1);
    assert_eq!(find(&chars("a b c"), 2, ' '), 3);
    assert_eq!(find(&chars("a b c"), 4, ' '), 5);
}

#[test]
fn draw_calls_are_batched_by_material() {
    let materials = vec![Some(5), None, Some(2), Some(5), Some(2), Some(9), None];
    assert_eq!(
        batch(&materials),
        vec![(5, vec![0, 3]), (2, vec![2, 4]), (9, vec![5])]
    );
    assert_eq!(batch(&vec![None, None]), vec![]);
    assert_eq!(batch(&vec![]), vec![]);
    assert_eq!(batch(&vec![Some(usize::MAX)]), vec![(usize::MAX, vec![0])]);
}
