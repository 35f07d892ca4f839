use platformer_core::atlas::{bytes_equal, parse_frame_name, parse_i32, AtlasInfo};
use platformer_core::atlas::AtlasRect;

fn b(s: &str) -> Vec<u8> {
    s.as_bytes().to_vec()
}

fn whole(s: &str) -> Option<i32> {
    let text = b(s);
    parse_i32(&text, 0, text.len())
}

#[test]
fn numbers_are_read_with_an_optional_sign() {
    assert_eq!(whole("0"), Some(0));
    assert_eq!(whole("17"), Some(17));
    assert_eq!(whole("+17"), Some(17));
    assert_eq!(whole("-17"), Some(-17));
    assert_eq!(whole("007"), Some(7));
    assert_eq!(whole("-0"), Some(0));
    assert_eq!(whole("2147483647"), Some(i32::MAX));
    assert_eq!(whole("-2147483648"), Some(i32::MIN));
    assert_eq!(whole("2147483648"), None);
    assert_eq!(whole("-2147483649"), None);
    assert_eq!(whole("99999999999999999999999"), None);
    assert_eq!(whole(""), None);
    assert_eq!(whole("+"), None);
    assert_eq!(whole("-"), None);
    assert_eq!(whole("1 "), None);
    assert_eq!(whole(" 1"), None);
    assert_eq!(whole("1-"), None);
    assert_eq!(whole("--1"), None);
    assert_eq!(whole("12a"), None);
    for s in ["0", "5", "-5", "+5", "123", "x", "", "+", "2147483648", "-2147483648", "00012"] {
        assert_eq!(whole(s), s.parse::<i32>().ok());
    }
}

#[test]
fn a_part_of_a_text_can_be_read() {
    let text = b("slime 12.aseprite");
    assert_eq!(parse_i32(&text, 6, 8), Some(12));
    assert_eq!(parse_i32(&text, 6, 6), None);
    assert_eq!(parse_i32(&text, 5, 8), None);
}

#[test]
fn frame_names_give_sprite_and_number() {
    assert_eq!(parse_frame_name(&b("slime 3.aseprite")), Some((b("slime"), 3)));
    assert_eq!(parse_frame_name(&b("big bat 12.aseprite")), Some((b("big bat"), 12)));
    assert_eq!(parse_frame_name(&b(" 0.aseprite")), Some((b(""), 0)));
    assert_eq!(parse_frame_name(&b("worm -1.aseprite")), Some((b("worm"), -1)));
    assert_eq!(parse_frame_name(&b("slime3.aseprite")), None);
    assert_eq!(parse_frame_name(&b("slime 3.png")), None);
    assert_eq!(parse_frame_name(&b("slime 3")), None);
    assert_eq!(parse_frame_name(&b("slime .aseprite")), None);
    assert_eq!(parse_frame_name(&b("slime x.aseprite")), None);
    assert_eq!(parse_frame_name(&b(".aseprite")), None);
    assert_eq!(parse_frame_name(&b("")), None);
}

#[test]
fn the_atlas_hands_out_the_rectangle_entered_last() {
    let mut atlas = AtlasInfo::new();
    let missing = AtlasRect { x: 0, y: 0, w: 1, h: 1 };
    assert_eq!(atlas.get_rect(&b("slime"), 0), missing);
    atlas.insert(b("slime"), 0, AtlasRect { x: 16, y: 0, w: 16, h: 16 });
    atlas.insert(b("slime"), 1, AtlasRect { x: 32, y: 0, w: 16, h: 16 });
    atlas.insert(b("bat"), 0, AtlasRect { x: 0, y: 16, w: 8, h: 8 });
    assert_eq!(atlas.get_rect(&b("slime"), 0), AtlasRect { x: 16, y: 0, w: 16, h: 16 });
    assert_eq!(atlas.get_rect(&b("slime"), 1), AtlasRect { x: 32, y: 0, w: 16, h: 16 });
    assert_eq!(atlas.get_rect(&b("bat"), 0), AtlasRect { x: 0, y: 16, w: 8, h: 8 });
    assert_eq!(atlas.get_rect(&b("bat"), 1), missing);
    assert_eq!(atlas.get_rect(&b("ba"), 0), missing);
    atlas.insert(b("slime"), 0, AtlasRect { x: 48, y: 0, w: 16, h: 16 });
    assert_eq!(atlas.get_rect(&b("slime"), 0), AtlasRect { x: 48, y: 0, w: 16, h: 16 });
    assert_eq!(atlas.get_rect(&b("slime"), 1), AtlasRect { x: 32, y: 0, w: 16, h: 16 });
}

#[test]
fn byte_strings_compare_by_content() {
    assert!(bytes_equal(&b("abc"), &b("abc")));
    assert!(bytes_equal(&b(""), &b("")));
    assert!(!bytes_equal(&b("abc"), &b("abd")));
    assert!(!bytes_equal(&b("abc"), &b("ab")));
}
