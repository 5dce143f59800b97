use og_image::layout::{line_x, start_y, sum_advances, MAX_LINE_WIDTH};
use og_image::text::{
    count_significant, default_font, default_text, font_key, get_font_size, line_height_for,
    FontKey,
};
use og_image::wrap::{wrap_measured, Measure};

fn chars(s: &str) -> Vec<char> {
    s.chars().collect()
}

fn plan(text: &str, adv: u16, space: u16) -> (Vec<String>, u32) {
    let px = get_font_size(count_significant(text));
    let m = Measure { px, em: 1000, space, limit: MAX_LINE_WIDTH };
    (wrap(text, adv, m), px)
}

fn wrap(s: &str, adv: u16, m: Measure) -> Vec<String> {
    let c = chars(s);
    let a = vec![adv; c.len()];
    wrap_measured(&c, &a, m)
}

#[test]
fn font_size_steps_and_boundaries() {
    assert_eq!(get_font_size(0), 100);
    assert_eq!(get_font_size(30), 100);
    assert_eq!(get_font_size(31), 88);
    assert_eq!(get_font_size(60), 88);
    assert_eq!(get_font_size(61), 76);
    assert_eq!(get_font_size(100), 76);
    assert_eq!(get_font_size(101), 64);
    assert_eq!(get_font_size(150), 64);
    assert_eq!(get_font_size(151), 56);
    assert_eq!(get_font_size(200), 56);
    assert_eq!(get_font_size(201), 48);
    assert_eq!(get_font_size(10_000), 48);
}

#[test]
fn significant_characters_skip_punctuation_and_whitespace() {
    assert_eq!(count_significant("Hello World"), 10);
    assert_eq!(count_significant("Hi, there!\n\t"), 7);
    assert_eq!(count_significant("สวัสดี ครับ"), 10);
    assert_eq!(count_significant(""), 0);
    assert_eq!(count_significant("a\u{3000}b\u{a0}c"), 3);
}

#[test]
fn long_text_gets_smallest_size() {
    let text: String = "ab ".repeat(100);
    assert_eq!(count_significant(&text), 200);
    assert_eq!(get_font_size(count_significant(&text)), 56);
    let longer = format!("{}c", text);
    assert_eq!(get_font_size(count_significant(&longer)), 48);
}

#[test]
fn line_heights_round_down() {
    assert_eq!(line_height_for(48), 52);
    assert_eq!(line_height_for(56), 61);
    assert_eq!(line_height_for(64), 70);
    assert_eq!(line_height_for(76), 83);
    assert_eq!(line_height_for(88), 96);
    assert_eq!(line_height_for(100), 110);
}

#[test]
fn font_names_fall_back_to_default() {
    assert_eq!(font_key("kanit"), FontKey::Kanit);
    assert_eq!(font_key("noto-sans-thai"), FontKey::NotoSansThai);
    assert_eq!(font_key("xyz"), FontKey::NotoSansThai);
    assert_eq!(font_key("Kanit"), FontKey::NotoSansThai);
    assert_eq!(font_key("kanitt"), FontKey::NotoSansThai);
    assert_eq!(font_key(""), FontKey::NotoSansThai);
}

#[test]
fn defaults() {
    assert_eq!(default_text(), "Hello World");
    assert_eq!(default_font(), "noto-sans-thai");
    assert_eq!(font_key(&default_font()), FontKey::NotoSansThai);
}

#[test]
fn greedy_wrap_by_width() {
    // 100 units per glyph at 100 px per 1000 units: 10 px a glyph.
    let m = Measure { px: 100, em: 1000, space: 100, limit: 70 };
    assert_eq!(wrap("aaa bbb ccc", 100, m), vec!["aaa bbb", "ccc"]);
    let wide = Measure { limit: 110, ..m };
    assert_eq!(wrap("aaa bbb ccc", 100, wide), vec!["aaa bbb ccc"]);
}

#[test]
fn wrap_keeps_long_word_whole() {
    let m = Measure { px: 100, em: 1000, space: 100, limit: 50 };
    assert_eq!(wrap("abcdefghij", 100, m), vec!["abcdefghij"]);
    assert_eq!(wrap("ab abcdefghij cd", 100, m), vec!["ab", "abcdefghij", "cd"]);
}

#[test]
fn wrap_splits_paragraphs() {
    let m = Measure { px: 100, em: 1000, space: 100, limit: 640 };
    assert_eq!(wrap("a\nb", 100, m), vec!["a", "b"]);
    assert_eq!(wrap("one two\n\nthree", 100, m), vec!["one two", "three"]);
}

#[test]
fn wrap_collapses_whitespace() {
    let m = Measure { px: 100, em: 1000, space: 100, limit: 640 };
    assert_eq!(wrap("  a \t  b  ", 100, m), vec!["a b"]);
}

#[test]
fn wrap_of_blank_text_is_the_text() {
    let m = Measure { px: 100, em: 1000, space: 100, limit: 640 };
    assert_eq!(wrap("   ", 100, m), vec!["   "]);
    assert_eq!(wrap("", 100, m), vec![""]);
    assert_eq!(wrap("\n", 100, m), vec!["\n"]);
}

#[test]
fn wrapped_lines_stay_within_width() {
    let m = Measure { px: 48, em: 1000, space: 300, limit: MAX_LINE_WIDTH };
    let text = "lorem ipsum dolor sit amet consectetur adipiscing elit ".repeat(5);
    let lines = wrap(&text, 550, m);
    assert!(lines.len() > 1);
    for l in &lines {
        let words = l.split(' ').count() as u64;
        let letters = l.chars().filter(|c| *c != ' ').count() as u64;
        let units = letters * 550 + (words - 1) * 300;
        assert!(units * 48 <= 640 * 1000, "line too wide: {}", l);
    }
}

#[test]
fn hello_world_is_one_line_at_full_size() {
    let text = "Hello World";
    let (lines, px) = plan(text, 500, 250);
    assert_eq!(px, 100);
    assert_eq!(lines, vec!["Hello World"]);
    assert_eq!(start_y(lines.len(), line_height_for(px)), 545);
    // 10 glyphs of 50 px and a 25 px space: 525 px wide, centered.
    assert_eq!(line_x(10 * 500 + 250, px, 1000), 137);
}

#[test]
fn two_hundred_fifty_chars_wrap_at_smallest_size() {
    let text: String = "abcdefghi ".repeat(25);
    assert_eq!(text.chars().count(), 250);
    let (lines, px) = plan(&text, 550, 550);
    assert_eq!(px, 48);
    assert!(lines.len() > 1);
    for l in &lines {
        let n = l.chars().count() as u64;
        assert!(n * 550 * 48 <= 640 * 1000);
    }
}

#[test]
fn block_is_centered_but_not_above_padding() {
    assert_eq!(start_y(1, 110), 545);
    assert_eq!(start_y(20, 52), 80);
    assert_eq!(start_y(21, 52), 54);
    assert_eq!(start_y(22, 52), 40);
    assert_eq!(start_y(30, 110), 40);
    assert_eq!(start_y(0, 110), 600);
}

#[test]
fn tall_block_is_only_clamped_at_the_top() {
    // 30 lines of 110 px start at the padding and run past the bottom edge.
    let top = start_y(30, 110);
    assert_eq!(top, 40);
    assert!(top as u32 + 30 * 110 > 1200);
}

#[test]
fn lines_are_centered_but_not_left_of_padding() {
    assert_eq!(line_x(5000, 100, 1000), 150);
    assert_eq!(line_x(0, 100, 1000), 400);
    assert_eq!(line_x(100_000, 100, 1000), 40);
    assert_eq!(line_x(7200, 100, 1000), 40);
    assert_eq!(line_x(7199, 100, 1000), 40);
    assert_eq!(line_x(7190, 100, 1000), 40);
    assert_eq!(line_x(7100, 100, 1000), 45);
    assert_eq!(line_x(5000, 100, 0), 40);
}

#[test]
fn advances_add_up() {
    assert_eq!(sum_advances(&vec![]), 0);
    assert_eq!(sum_advances(&vec![1, 2, 65535]), 65538);
}
