use grid2048::font::{
    add_glyphs, glyph_block, grown, Font, FontFactory, FontImages, FontLoader, Glyph,
    TextLayoutHorizontal, TextLayoutVertical,
};
use grid2048::image::Image;
use grid2048::paint::{cell_window, tile_color};

fn rows_of<T: Copy>(image: &Image<T>) -> Vec<Vec<T>> {
    let (w, h) = image.get_size();
    (0..h).map(|y| (0..w).map(|x| image.get(x, y)).collect()).collect()
}

fn mask_of(rows: &[&str]) -> Image<bool> {
    let mut mask = Image::new((rows[0].len(), rows.len()), false);
    for (y, row) in rows.iter().enumerate() {
        for (x, c) in row.chars().enumerate() {
            mask.set(x, y, c == '#');
        }
    }
    mask
}

/// A typeface of three characters: `a` is 2 wide and 3 high, `b` is 3 wide
/// and 2 high, and `c` has a picture in shades of grey only.
struct Blocks;

impl FontLoader for Blocks {
    fn load_glyphs(_name: &str, _size: usize, code_from: u32, code_to: u32) -> FontImages {
        let mut glyphs = FontImages::new();
        let all = [
            ('a', Glyph::NoAA(mask_of(&["##", "#.", "##"]))),
            ('b', Glyph::NoAA(mask_of(&["###", ".#."]))),
            ('c', Glyph::AA(Image::new((5, 7), 255))),
        ];
        for (c, glyph) in all {
            if (code_from..code_to).contains(&(c as u32)) {
                glyphs.insert(c as u32, glyph);
            }
        }
        assert_eq!((code_from, code_to), (0, 0x100));
        glyphs
    }
}

/// A typeface that must not be asked for anything.
struct Nothing;

impl FontLoader for Nothing {
    fn load_glyphs(_name: &str, _size: usize, _from: u32, _to: u32) -> FontImages {
        panic!("nothing to load")
    }
}

/// A typeface that records the range it is asked for: its start as a
/// glyph's key, its length as the glyph's width.
struct Ranges;

impl FontLoader for Ranges {
    fn load_glyphs(_name: &str, _size: usize, code_from: u32, code_to: u32) -> FontImages {
        let mut glyphs = FontImages::new();
        let size = ((code_to - code_from) as usize, 1);
        glyphs.insert(code_from, Glyph::NoAA(Image::new(size, false)));
        glyphs
    }
}

fn font(h: TextLayoutHorizontal, v: TextLayoutVertical) -> Font {
    Font::new(String::from("Blocks"), 3, 7, h, v, 0)
}

fn plain_font() -> Font {
    font(TextLayoutHorizontal::LEFT, TextLayoutVertical::TOP)
}

#[test]
fn new_image_has_one_value() {
    let image = Image::new((3, 2), 9u8);
    assert_eq!(image.get_size(), (3, 2));
    assert_eq!(rows_of(&image), [[9, 9, 9], [9, 9, 9]]);
    assert_eq!(Image::new((0, 4), 1u32).get_size(), (0, 4));
    assert_eq!(Image::new((4, 0), 1u32).get_size(), (4, 0));
}

#[test]
fn set_changes_one_pixel() {
    let mut image = Image::new((3, 2), 0u32);
    image.set(2, 1, 5);
    image.set(0, 0, 6);
    assert_eq!(rows_of(&image), [[6, 0, 0], [0, 0, 5]]);
    assert_eq!(image.get(2, 1), 5);
}

#[test]
fn fill_rect_stops_at_the_border() {
    let mut image = Image::new((4, 3), 0u32);
    image.fill_rect((1, 1), (3, 2), 7);
    assert_eq!(rows_of(&image), [[0, 0, 0, 0], [0, 7, 7, 0], [0, 0, 0, 0]]);
    image.fill_rect((2, 0), (9, 9), 8);
    assert_eq!(rows_of(&image), [[0, 0, 8, 8], [0, 7, 8, 8], [0, 0, 8, 8]]);
    let before = rows_of(&image);
    image.fill_rect((3, 2), (1, 1), 9);
    image.fill_rect((4, 0), (9, 9), 9);
    image.fill_rect((0, 3), (9, 9), 9);
    image.fill_rect((1, 1), (1, 3), 9);
    assert_eq!(rows_of(&image), before);
    image.fill(1);
    assert_eq!(rows_of(&image), [[1; 4]; 3]);
}

#[test]
fn draw_image_copies_what_fits() {
    let mut small = Image::new((2, 2), 0u32);
    small.set(0, 0, 1);
    small.set(1, 0, 2);
    small.set(0, 1, 3);
    small.set(1, 1, 4);
    let mut image = Image::new((3, 3), 9u32);
    image.draw_image(&small, (1, 0));
    assert_eq!(rows_of(&image), [[9, 1, 2], [9, 3, 4], [9, 9, 9]]);
    image.draw_image(&small, (2, 2));
    assert_eq!(rows_of(&image), [[9, 1, 2], [9, 3, 4], [9, 9, 1]]);
    image.draw_image(&small, (3, 0));
    image.draw_image(&small, (0, 3));
    image.draw_image(&small, (usize::MAX, usize::MAX));
    assert_eq!(rows_of(&image), [[9, 1, 2], [9, 3, 4], [9, 9, 1]]);
}

#[test]
fn dim_keeps_a_quarter_of_each_byte() {
    let mut image = Image::new((2, 1), 0xFFFF_FFFFu32);
    image.set(1, 0, 0x0104_0880);
    image.dim();
    assert_eq!(rows_of(&image), [[0x3F3F_3F3F, 0x0001_0220]]);
}

#[test]
fn draw_mask_colours_the_set_pixels() {
    let mask = mask_of(&["#.", "##"]);
    let mut image = Image::new((3, 3), 0u32);
    image.draw_mask(&mask, 1, 1, 5);
    assert_eq!(rows_of(&image), [[0, 0, 0], [0, 5, 0], [0, 5, 5]]);
    image.draw_mask(&mask, -1, -1, 6);
    assert_eq!(rows_of(&image), [[6, 0, 0], [0, 5, 0], [0, 5, 5]]);
    image.draw_mask(&mask, 2, 2, 7);
    assert_eq!(rows_of(&image), [[6, 0, 0], [0, 5, 0], [0, 5, 7]]);
    let before = rows_of(&image);
    image.draw_mask(&mask, 3, 0, 8);
    image.draw_mask(&mask, 0, -2, 8);
    image.draw_mask(&mask, -(1 << 65), 1 << 65, 8);
    assert_eq!(rows_of(&image), before);
}

#[test]
fn get_char_loads_the_block_round_a_missing_character() {
    let mut glyphs = FontImages::new();
    plain_font().get_char::<Blocks>('b', &mut glyphs);
    let mut keys: Vec<u32> = glyphs.keys().copied().collect();
    keys.sort();
    assert_eq!(keys, ['a' as u32, 'b' as u32, 'c' as u32]);
    plain_font().get_char::<Nothing>('a', &mut glyphs);
    assert_eq!(glyphs.len(), 3);
}

#[test]
fn get_char_asks_for_256_characters() {
    for (c, from) in [('\u{0}', 0), ('\u{ff}', 0), ('\u{100}', 0x100), ('\u{417}', 0x400), (
        '\u{10FFFF}',
        0x10FF00,
    )] {
        let mut glyphs = FontImages::new();
        plain_font().get_char::<Ranges>(c, &mut glyphs);
        assert_eq!(glyphs.len(), 1);
        match &glyphs[&from] {
            Glyph::NoAA(mask) => assert_eq!(mask.get_size(), (0x100, 1)),
            _ => panic!("a mask was loaded"),
        }
    }
}

#[test]
fn glyph_block_holds_256_characters_round_the_character() {
    assert_eq!(glyph_block('\u{0}'), (0, 0x100));
    assert_eq!(glyph_block('a'), (0, 0x100));
    assert_eq!(glyph_block('\u{ff}'), (0, 0x100));
    assert_eq!(glyph_block('\u{100}'), (0x100, 0x200));
    assert_eq!(glyph_block('\u{20AC}'), (0x2000, 0x2100));
    assert_eq!(glyph_block('\u{10FFFF}'), (0x10FF00, 0x110000));
}

#[test]
fn add_glyphs_puts_the_new_in_place_of_the_old() {
    let mut glyphs = FontImages::new();
    glyphs.insert(1, Glyph::AA(Image::new((1, 1), 0)));
    glyphs.insert(2, Glyph::AA(Image::new((2, 2), 0)));
    let mut more = FontImages::new();
    more.insert(2, Glyph::TT(Image::new((3, 3), 0)));
    more.insert(3, Glyph::TT(Image::new((4, 4), 0)));
    add_glyphs(&mut glyphs, more);
    assert_eq!(glyphs.len(), 3);
    assert!(matches!(&glyphs[&1], Glyph::AA(image) if image.get_size() == (1, 1)));
    assert!(matches!(&glyphs[&2], Glyph::TT(image) if image.get_size() == (3, 3)));
    assert!(matches!(&glyphs[&3], Glyph::TT(image) if image.get_size() == (4, 4)));
}

#[test]
fn size_grows_by_a_character() {
    assert_eq!(grown((0, 0), (2, 3)), (2, 3));
    assert_eq!(grown((5, 3), (2, 1)), (7, 3));
    assert_eq!(grown((5, 3), (0, 9)), (5, 9));
    assert_eq!(grown((usize::MAX - 2, 0), (2, 0)), (usize::MAX, 0));
    assert_eq!(grown((usize::MAX - 2, 0), (3, 0)), (usize::MAX, 0));
    assert_eq!(grown((usize::MAX, 0), (usize::MAX, 0)), (usize::MAX, 0));
}

#[test]
fn loaded_glyph_takes_the_place_of_an_old_one() {
    let mut glyphs = FontImages::new();
    glyphs.insert('a' as u32, Glyph::AA(Image::new((1, 1), 0)));
    plain_font().get_char::<Blocks>('b', &mut glyphs);
    assert!(matches!(glyphs[&('a' as u32)], Glyph::NoAA(_)));
}

#[test]
fn text_is_as_wide_as_its_masks_and_as_high_as_the_highest() {
    let glyphs = Blocks::load_glyphs("Blocks", 3, 0, 0x100);
    assert_eq!(Font::measure(&glyphs, ""), (0, 0));
    assert_eq!(Font::measure(&glyphs, "a"), (2, 3));
    assert_eq!(Font::measure(&glyphs, "b"), (3, 2));
    assert_eq!(Font::measure(&glyphs, "abba"), (10, 3));
    assert_eq!(Font::measure(&glyphs, "c"), (0, 0));
    assert_eq!(Font::measure(&glyphs, "bcz\u{417}b"), (6, 2));
}

#[test]
fn width_that_does_not_fit_counts_as_the_largest() {
    let mut glyphs = FontImages::new();
    glyphs.insert('w' as u32, Glyph::NoAA(Image::new((usize::MAX - 1, 0), false)));
    glyphs.insert('v' as u32, Glyph::NoAA(Image::new((1, 0), false)));
    assert_eq!(Font::measure(&glyphs, "wv"), (usize::MAX, 0));
    assert_eq!(Font::measure(&glyphs, "wvv"), (usize::MAX, 0));
    assert_eq!(Font::measure(&glyphs, "ww"), (usize::MAX, 0));
}

#[test]
fn get_size_loads_and_measures() {
    let mut glyphs = FontImages::new();
    assert_eq!(plain_font().get_size_with::<Blocks>("ab", &mut glyphs), (5, 3));
    assert_eq!(glyphs.len(), 3);
    assert_eq!(plain_font().get_size_with::<Nothing>("abc", &mut glyphs), (5, 3));
    let mut library = vec![FontImages::new(), FontImages::new()];
    let second = Font::new(String::from("Blocks"), 3, 7, TextLayoutHorizontal::LEFT, TextLayoutVertical::TOP, 1);
    assert_eq!(second.get_size::<Blocks>("ba", &mut library), (5, 3));
    assert_eq!(library[0].len(), 0);
    assert_eq!(library[1].len(), 3);
}

#[test]
fn text_is_drawn_mask_by_mask_from_the_left_top() {
    let mut glyphs = FontImages::new();
    let mut image = Image::new((7, 4), 0u32);
    plain_font().draw_with::<Blocks>("acb", (1, 1), &mut glyphs, &mut image);
    assert_eq!(rows_of(&image), [
        [0, 0, 0, 0, 0, 0, 0],
        [0, 7, 7, 7, 7, 7, 0],
        [0, 7, 0, 0, 7, 0, 0],
        [0, 7, 7, 0, 0, 0, 0],
    ]);
}

#[test]
fn layout_moves_the_text_against_its_position() {
    let mut glyphs = Blocks::load_glyphs("Blocks", 3, 0, 0x100);
    let mut image = Image::new((7, 5), 0u32);
    font(TextLayoutHorizontal::RIGHT, TextLayoutVertical::BOTTOM).draw_with::<Nothing>(
        "ab",
        (6, 4),
        &mut glyphs,
        &mut image,
    );
    assert_eq!(rows_of(&image), [
        [0, 0, 0, 0, 0, 0, 0],
        [0, 7, 7, 7, 7, 7, 0],
        [0, 7, 0, 0, 7, 0, 0],
        [0, 7, 7, 0, 0, 0, 0],
        [0, 0, 0, 0, 0, 0, 0],
    ]);
    let mut image = Image::new((7, 5), 0u32);
    font(TextLayoutHorizontal::MIDDLE, TextLayoutVertical::MIDDLE).draw_with::<Nothing>(
        "ab",
        (3, 2),
        &mut glyphs,
        &mut image,
    );
    assert_eq!(rows_of(&image), [
        [0, 0, 0, 0, 0, 0, 0],
        [0, 7, 7, 7, 7, 7, 0],
        [0, 7, 0, 0, 7, 0, 0],
        [0, 7, 7, 0, 0, 0, 0],
        [0, 0, 0, 0, 0, 0, 0],
    ]);
}

#[test]
fn text_that_leaves_the_picture_is_cut() {
    let mut glyphs = Blocks::load_glyphs("Blocks", 3, 0, 0x100);
    let mut image = Image::new((3, 2), 0u32);
    font(TextLayoutHorizontal::RIGHT, TextLayoutVertical::TOP).draw_with::<Nothing>(
        "abab",
        (4, 0),
        &mut glyphs,
        &mut image,
    );
    assert_eq!(rows_of(&image), [[7, 7, 7], [0, 0, 7]]);
    let mut image = Image::new((3, 2), 0u32);
    plain_font().draw_with::<Nothing>("a", (usize::MAX, usize::MAX), &mut glyphs, &mut image);
    assert_eq!(rows_of(&image), [[0; 3]; 2]);
}

#[test]
fn draw_takes_the_glyphs_of_the_font_from_the_library() {
    let mut factory = FontFactory::new();
    let (h, v) = (TextLayoutHorizontal::LEFT, TextLayoutVertical::TOP);
    factory.new_font("Other", 3, 1, h, v);
    let blocks = factory.new_font("Blocks", 3, 9, h, v);
    assert_eq!(factory.library.len(), 2);
    let mut image = Image::new((3, 2), 0u32);
    blocks.draw::<Blocks>("b", (0, 0), &mut factory.library, &mut image);
    assert_eq!(rows_of(&image), [[9, 9, 9], [0, 9, 0]]);
    assert_eq!(factory.library[0].len(), 0);
    assert_eq!(factory.library[1].len(), 3);
}

#[test]
fn tile_colours_follow_the_palette() {
    assert_eq!(tile_color(0), 0);
    assert_eq!(tile_color(2), 0x000060);
    assert_eq!(tile_color(4), 0x006060);
    assert_eq!(tile_color(8), 0x006000);
    assert_eq!(tile_color(2048), 0x00C0C0);
    assert_eq!(tile_color(131072), 0xC00000);
    assert_eq!(tile_color(262144), 0x000060);
    assert_eq!(tile_color(1), 0x000060);
    assert_eq!(tile_color(3), 0x006060);
    assert_eq!(tile_color(-8), 0x000060);
    assert_eq!(tile_color(1 << 30), 0x00C000);
    assert_eq!(tile_color(i32::MAX), 0x60C000);
}

#[test]
fn cells_lie_in_a_frame_one_cell_wide() {
    assert_eq!(cell_window((192, 192), 0, 0), ((33, 33), (63, 63)));
    assert_eq!(cell_window((192, 192), 3, 1), ((129, 65), (159, 95)));
    assert_eq!(cell_window((600, 384), 1, 2), ((203, 194), (296, 254)));
    assert_eq!(cell_window((0, 5), 3, 3), ((0, 3), (0, 4)));
}
