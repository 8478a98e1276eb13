use vstd::prelude::*;
use vstd::string::StrSliceExecFns;
use std::collections::HashMap;
use crate::image::{mask_set, Image, ImageSize};

verus! {

broadcast use vstd::std_specs::hash::group_hash_axioms;

/// The picture of one character: a mask, a picture in shades of grey, or a
/// picture in colours. Only masks are drawn.
pub enum Glyph {
    NoAA(Image<bool>),
    AA(Image<u8>),
    TT(Image<u32>),
}

/// The glyphs of one typeface in one size, each under the number of its
/// character.
pub type FontImages = HashMap<u32, Glyph>;

/// The glyphs of all typefaces, each typeface at the place that is its
/// number.
pub type FontLibrary = Vec<FontImages>;

/// Makes the glyphs of a typeface.
pub trait FontLoader {
    /// Whether `glyphs` can be what the loader gives for the characters
    /// from `code_from` up to, but not with, `code_to` of the typeface in
    /// the size. A loader that says nothing of itself can give anything.
    open spec fn loads(
        font_name: Seq<char>,
        font_size: usize,
        code_from: u32,
        code_to: u32,
        glyphs: Map<u32, Glyph>,
    ) -> bool {
        true
    }

    /// The glyphs of the characters from `code_from` up to, but not with,
    /// `code_to`, as far as the typeface has them.
    fn load_glyphs(font_name: &str, font_size: usize, code_from: u32, code_to: u32) -> (glyphs:
        FontImages)
        ensures
            Self::loads(font_name@, font_size, code_from, code_to, glyphs@),
    ;
}

/// What `get_char` makes of the glyphs `before`, for the character `c` of
/// the typeface `font_name` in the size `font_size`: where they hold an
/// entry for the character they stay; else `more`, which the loader gave
/// for the character's block, is put in with them, in place of what they
/// held under the same numbers.
pub open spec fn with_char<L: FontLoader>(
    font_name: Seq<char>,
    font_size: usize,
    c: char,
    before: Map<u32, Glyph>,
    more: Map<u32, Glyph>,
    after: Map<u32, Glyph>,
) -> bool {
    if before.contains_key(c as u32) {
        after == before
    } else {
        let from = (c as u32) & !0xFFu32;
        &&& L::loads(font_name, font_size, from, (from + 0x100) as u32, more)
        &&& after == before.union_prefer_right(more)
    }
}

/// `HashMap::extend`, with another map: trusted to put every entry of
/// `more` into the map, in place of an entry under the same key, and to
/// keep the other entries.
#[verifier::external_body]
pub(crate) fn extend_images(images: &mut FontImages, more: FontImages)
    ensures
        final(images)@ == old(images)@.union_prefer_right(more@),
{
    images.extend(more)
}

/// The mask of a character, where the glyphs hold one for it.
pub open spec fn mask_of(images: Map<u32, Glyph>, c: char) -> Option<Image<bool>> {
    if images.contains_key(c as u32) {
        match images[c as u32] {
            Glyph::NoAA(mask) => Some(mask),
            _ => None,
        }
    } else {
        None
    }
}

/// The width and height that a character takes: those of its mask, or
/// nothing.
pub open spec fn char_size(images: Map<u32, Glyph>, c: char) -> ImageSize {
    match mask_of(images, c) {
        Some(mask) => mask.dims(),
        None => (0, 0),
    }
}

/// The width of a text: the widths of its characters added up.
pub open spec fn text_width(images: Map<u32, Glyph>, text: Seq<char>) -> int
    decreases text.len(),
{
    if text.len() == 0 {
        0
    } else {
        text_width(images, text.drop_last()) + char_size(images, text.last()).0
    }
}

/// The height of a text: the largest height among its characters.
pub open spec fn text_height(images: Map<u32, Glyph>, text: Seq<char>) -> int
    decreases text.len(),
{
    if text.len() == 0 {
        0
    } else {
        let before = text_height(images, text.drop_last());
        let last = char_size(images, text.last()).1 as int;
        if before >= last {
            before
        } else {
            last
        }
    }
}

/// The size of a text. A width that no `usize` holds counts as the largest
/// `usize`.
pub open spec fn text_size(images: Map<u32, Glyph>, text: Seq<char>) -> ImageSize {
    (
        if text_width(images, text) <= usize::MAX {
            text_width(images, text) as usize
        } else {
            usize::MAX
        },
        text_height(images, text) as usize,
    )
}

/// Whether the glyphs hold an entry for every character of the text.
pub open spec fn loaded(images: Map<u32, Glyph>, text: Seq<char>) -> bool {
    forall|k: int| 0 <= k < text.len() ==> images.contains_key(#[trigger] text[k] as u32)
}

/// Where the left top corner of a text of the given size comes to lie, for
/// a text drawn at `position` in the given layout.
pub open spec fn origin(
    position: ImageSize,
    size: ImageSize,
    layout_horizontal: TextLayoutHorizontal,
    layout_vertical: TextLayoutVertical,
) -> (int, int) {
    (
        match layout_horizontal {
            TextLayoutHorizontal::LEFT => position.0 as int,
            TextLayoutHorizontal::MIDDLE => position.0 - size.0 / 2,
            TextLayoutHorizontal::RIGHT => position.0 - size.0,
        },
        match layout_vertical {
            TextLayoutVertical::TOP => position.1 as int,
            TextLayoutVertical::MIDDLE => position.1 - size.1 / 2,
            TextLayoutVertical::BOTTOM => position.1 - size.1,
        },
    )
}

/// Whether a text drawn with its left top corner at column `left`, row
/// `top` puts colour on column `x`, row `y`: whether one of its masks, each
/// drawn to the right of those before it, is set there.
pub open spec fn inked(
    images: Map<u32, Glyph>,
    text: Seq<char>,
    left: int,
    top: int,
    x: int,
    y: int,
) -> bool
    decreases text.len(),
{
    if text.len() == 0 {
        false
    } else {
        let before = text.drop_last();
        inked(images, before, left, top, x, y) || match mask_of(images, text.last()) {
            Some(mask) => mask_set(mask, left + text_width(images, before), top, x, y),
            None => false,
        }
    }
}

/// Where a text stands, up and down, against the point it is drawn at.
#[derive(Debug, PartialEq, Eq, Copy, Clone, Structural)]
pub enum TextLayoutVertical {
    TOP,
    MIDDLE,
    BOTTOM,
}

/// Where a text stands, left to right, against the point it is drawn at.
#[derive(Debug, PartialEq, Eq, Copy, Clone, Structural)]
pub enum TextLayoutHorizontal {
    LEFT,
    MIDDLE,
    RIGHT,
}

/// A font to draw with: a typeface in a size, a colour, a layout, and the
/// number under which the factory keeps the typeface's glyphs.
pub struct Font {
    pub name: String,
    pub size: usize,
    pub color: u32,
    pub layout_horizontal: TextLayoutHorizontal,
    pub layout_vertical: TextLayoutVertical,
    pub id: usize,
}

/// Hands out fonts, and gives each typeface in each size one number, in the
/// order in which they are first asked for. The library holds the glyphs of
/// each at the place that is its number.
pub struct FontFactory {
    pub mapping: Vec<(String, usize)>,
    pub library: FontLibrary,
}

/// The place of a typeface and size among the keys, if it is there.
pub open spec fn place_of(keys: Seq<(Seq<char>, usize)>, name: Seq<char>, size: usize) -> Option<
    int,
> {
    if exists|k: int| 0 <= k < keys.len() && keys[k] == (name, size) {
        Some(choose|k: int| 0 <= k < keys.len() && keys[k] == (name, size))
    } else {
        None
    }
}

impl Font {
    /// A font of the given parts.
    pub fn new(
        name: String,
        size: usize,
        color: u32,
        layout_horizontal: TextLayoutHorizontal,
        layout_vertical: TextLayoutVertical,
        id: usize,
    ) -> (font: Font)
        ensures
            font.name == name,
            font.size == size,
            font.color == color,
            font.layout_horizontal == layout_horizontal,
            font.layout_vertical == layout_vertical,
            font.id == id,
    {
        Font { name, size, color, layout_horizontal, layout_vertical, id }
    }

    /// Sees to it that the glyphs hold the character, as far as the
    /// typeface has it: where they hold no entry for it, the glyphs of its
    /// block are loaded and put in, as `add_glyphs` does it.
    pub fn get_char<L: FontLoader>(&self, c: char, images: &mut FontImages)
        ensures
            exists|more: Map<u32, Glyph>| #[trigger]
                with_char::<L>(self.name@, self.size, c, old(images)@, more, final(images)@),
            old(images)@.contains_key(c as u32) ==> final(images)@ == old(images)@,
            forall|k: u32| old(images)@.contains_key(k) ==> final(images)@.contains_key(k),
    {
        let code: u32 = c as u32;
        if !images.contains_key(&code) {
            let (from, to) = glyph_block(c);
            let additional = L::load_glyphs(self.name.as_str(), self.size, from, to);
            let ghost more = additional@;
            add_glyphs(images, additional);
            assert(with_char::<L>(self.name@, self.size, c, old(images)@, more, images@));
        } else {
            assert(with_char::<L>(self.name@, self.size, c, old(images)@, Map::empty(), images@));
        }
    }

    /// The size of a text in the glyphs given: see `text_size`.
    pub fn measure(images: &FontImages, text: &str) -> (size: ImageSize)
        ensures
            size == text_size(images@, text@),
    {
        let n = text.unicode_len();
        let mut result: ImageSize = (0, 0);
        let mut i: usize = 0;
        while i < n
            invariant
                n == text@.len(),
                i <= n,
                result == text_size(images@, text@.take(i as int)),
            decreases n - i,
        {
            let c = text.get_char(i);
            proof {
                assert(text@.take(i + 1).drop_last() =~= text@.take(i as int));
                assert(text@.take(i + 1).last() == c);
            }
            let code: u32 = c as u32;
            match images.get(&code) {
                Some(Glyph::NoAA(img)) => {
                    let sz = img.get_size();
                    result = grown(result, sz);
                },
                _ => {},
            }
            proof {
                lemma_text_size_step(images@, text@.take(i + 1));
            }
            i += 1;
        }
        assert(text@.take(n as int) =~= text@);
        result
    }

    /// The size of a text, after its characters are loaded as far as they
    /// are missing. Where the glyphs hold every character of the text, they
    /// stay as they are and the size is `text_size`.
    pub fn get_size_with<L: FontLoader>(&self, text: &str, images: &mut FontImages) -> (size:
        ImageSize)
        ensures
            forall|k: u32| old(images)@.contains_key(k) ==> final(images)@.contains_key(k),
            loaded(old(images)@, text@) ==> final(images)@ == old(images)@ && size == text_size(
                old(images)@,
                text@,
            ),
    {
        let n = text.unicode_len();
        let mut result: ImageSize = (0, 0);
        let mut i: usize = 0;
        while i < n
            invariant
                n == text@.len(),
                i <= n,
                forall|k: u32| old(images)@.contains_key(k) ==> images@.contains_key(k),
                loaded(old(images)@, text@) ==> images@ == old(images)@ && result == text_size(
                    old(images)@,
                    text@.take(i as int),
                ),
            decreases n - i,
        {
            let c = text.get_char(i);
            proof {
                assert(text@.take(i + 1).drop_last() =~= text@.take(i as int));
                assert(text@.take(i + 1).last() == c);
            }
            self.get_char::<L>(c, images);
            let code: u32 = c as u32;
            match images.get(&code) {
                Some(Glyph::NoAA(img)) => {
                    let sz = img.get_size();
                    result = grown(result, sz);
                },
                _ => {},
            }
            proof {
                lemma_text_size_step(old(images)@, text@.take(i + 1));
            }
            i += 1;
        }
        assert(text@.take(n as int) =~= text@);
        result
    }

    /// The size of a text in this font, whose glyphs the library holds at
    /// the place of the font's number.
    pub fn get_size<L: FontLoader>(&self, text: &str, library: &mut FontLibrary) -> (size:
        ImageSize)
        requires
            self.id < old(library)@.len(),
        ensures
            final(library)@.len() == old(library)@.len(),
            forall|k: int|
                0 <= k < old(library)@.len() && k != self.id ==> final(library)@[k] == old(
                    library,
                )@[k],
            loaded(old(library)@[self.id as int]@, text@) ==> final(library)@[self.id as int]@
                == old(library)@[self.id as int]@ && size == text_size(
                old(library)@[self.id as int]@,
                text@,
            ),
    {
        let images = &mut library[self.id];
        self.get_size_with::<L>(text, images)
    }

    /// Draws a text on `dst` in the font's colour, after its characters
    /// are loaded as far as they are missing. Where the glyphs hold every
    /// character of the text, they stay as they are, and the text stands
    /// where the font's layout puts it against `position`: its masks side by
    /// side, from the corner that `origin` gives.
    pub fn draw_with<L: FontLoader>(
        &self,
        text: &str,
        position: ImageSize,
        images: &mut FontImages,
        dst: &mut Image<u32>,
    )
        ensures
            final(dst).dims() == old(dst).dims(),
            forall|k: u32| old(images)@.contains_key(k) ==> final(images)@.contains_key(k),
            loaded(old(images)@, text@) ==> final(images)@ == old(images)@ && drawn(
                *old(dst),
                *final(dst),
                old(images)@,
                text@,
                origin(
                    position,
                    text_size(old(images)@, text@),
                    self.layout_horizontal,
                    self.layout_vertical,
                ),
                self.color,
            ),
    {
        let ghost before = images@;
        let size = self.get_size_with::<L>(text, images);
        let left: i128 = match self.layout_horizontal {
            TextLayoutHorizontal::LEFT => position.0 as i128,
            TextLayoutHorizontal::MIDDLE => position.0 as i128 - (size.0 / 2) as i128,
            TextLayoutHorizontal::RIGHT => position.0 as i128 - size.0 as i128,
        };
        let top: i128 = match self.layout_vertical {
            TextLayoutVertical::TOP => position.1 as i128,
            TextLayoutVertical::MIDDLE => position.1 as i128 - (size.1 / 2) as i128,
            TextLayoutVertical::BOTTOM => position.1 as i128 - size.1 as i128,
        };
        let color = self.color;
        let n = text.unicode_len();
        let mut pen: i128 = left;
        let mut i: usize = 0;
        while i < n
            invariant
                n == text@.len(),
                i <= n,
                dst.dims() == old(dst).dims(),
                -0x1_0000_0000_0000_0000 <= left <= 0x1_0000_0000_0000_0000,
                -0x1_0000_0000_0000_0000 <= top <= 0x1_0000_0000_0000_0000,
                left <= pen <= 0x2_0000_0000_0000_0000,
                forall|k: u32| old(images)@.contains_key(k) ==> images@.contains_key(k),
                loaded(before, text@) ==> images@ == before,
                loaded(before, text@) && pen < 0x1_0000_0000_0000_0000 ==> pen == left
                    + text_width(before, text@.take(i as int)),
                loaded(before, text@) && pen >= 0x1_0000_0000_0000_0000 ==> left + text_width(
                    before,
                    text@.take(i as int),
                ) >= 0x1_0000_0000_0000_0000,
                loaded(before, text@) ==> drawn(
                    *old(dst),
                    *dst,
                    before,
                    text@.take(i as int),
                    (left as int, top as int),
                    color,
                ),
            decreases n - i,
        {
            let c = text.get_char(i);
            proof {
                assert(text@.take(i + 1).drop_last() =~= text@.take(i as int));
                assert(text@.take(i + 1).last() == c);
            }
            self.get_char::<L>(c, images);
            let code: u32 = c as u32;
            match images.get(&code) {
                Some(Glyph::NoAA(img)) => {
                    dst.draw_mask(img, pen, top, color);
                    if pen < 0x1_0000_0000_0000_0000 {
                        pen = pen + img.get_size().0 as i128;
                    }
                },
                _ => {},
            }
            i += 1;
        }
        assert(text@.take(n as int) =~= text@);
    }

    /// Draws a text on `dst` in this font, whose glyphs the library holds
    /// at the place of the font's number: see `draw_with`.
    pub fn draw<L: FontLoader>(
        &self,
        text: &str,
        position: ImageSize,
        library: &mut FontLibrary,
        dst: &mut Image<u32>,
    )
        requires
            self.id < old(library)@.len(),
        ensures
            final(dst).dims() == old(dst).dims(),
            final(library)@.len() == old(library)@.len(),
            forall|k: int|
                0 <= k < old(library)@.len() && k != self.id ==> final(library)@[k] == old(
                    library,
                )@[k],
            loaded(old(library)@[self.id as int]@, text@) ==> final(library)@[self.id as int]@
                == old(library)@[self.id as int]@ && drawn(
                *old(dst),
                *final(dst),
                old(library)@[self.id as int]@,
                text@,
                origin(
                    position,
                    text_size(old(library)@[self.id as int]@, text@),
                    self.layout_horizontal,
                    self.layout_vertical,
                ),
                self.color,
            ),
    {
        let images = &mut library[self.id];
        self.draw_with::<L>(text, position, images, dst);
    }
}

/// Whether the picture `after` is the picture `before` with a text drawn on
/// it in one colour, the text's left top corner at `corner`, column first:
/// the pixels that the text puts colour on have the colour, and the others
/// are as they were.
pub open spec fn drawn(
    before: Image<u32>,
    after: Image<u32>,
    images: Map<u32, Glyph>,
    text: Seq<char>,
    corner: (int, int),
    color: u32,
) -> bool {
    forall|x: int, y: int|
        before.covers(x, y) ==> #[trigger] after.pixel(x, y) == if inked(
            images,
            text,
            corner.0,
            corner.1,
            x,
            y,
        ) {
            color
        } else {
            before.pixel(x, y)
        }
}

/// The block of 256 characters that a character is loaded with: from the
/// character's number with its lowest eight bits cleared up to, but not
/// with, the number 256 above that.
pub fn glyph_block(c: char) -> (block: (u32, u32))
    ensures
        block.0 == (c as u32) & !0xFFu32,
        block.1 == block.0 + 0x100,
        block.0 <= (c as u32) && (c as u32) < block.1,
{
    let code: u32 = c as u32;
    let from: u32 = code & !0xFF;
    assert(from <= code && code - from < 0x100) by (bit_vector)
        requires
            from == code & !0xFFu32,
    ;
    (from, from + 0x100)
}

/// Puts glyphs in with those that are there: every glyph of `more` comes
/// in, in place of the glyph of the same character where there is one, and
/// the others stay.
pub fn add_glyphs(images: &mut FontImages, more: FontImages)
    ensures
        final(images)@ == old(images)@.union_prefer_right(more@),
{
    extend_images(images, more);
}

/// A size that has grown by one more character: wider by its width, as far
/// as a `usize` goes, and as high as the higher of the two.
pub fn grown(size: ImageSize, more: ImageSize) -> (sum: ImageSize)
    ensures
        sum.0 == if size.0 + more.0 <= usize::MAX {
            size.0 + more.0
        } else {
            usize::MAX as int
        },
        sum.1 == if size.1 >= more.1 {
            size.1
        } else {
            more.1
        },
{
    (
        if more.0 <= usize::MAX - size.0 {
            size.0 + more.0
        } else {
            usize::MAX
        },
        if size.1 >= more.1 {
            size.1
        } else {
            more.1
        },
    )
}

/// The size of a text is the size of the text before its last character,
/// grown by that character.
pub proof fn lemma_text_size_step(images: Map<u32, Glyph>, text: Seq<char>)
    requires
        text.len() > 0,
    ensures
        ({
            let before = text_size(images, text.drop_last());
            let more = char_size(images, text.last());
            let size = text_size(images, text);
            &&& size.0 == if before.0 + more.0 <= usize::MAX {
                before.0 + more.0
            } else {
                usize::MAX as int
            }
            &&& size.1 == if before.1 >= more.1 {
                before.1
            } else {
                more.1
            }
        }),
{
    lemma_text_bounds(images, text.drop_last());
}

/// A text is not narrower than nothing, and its height is a height of one
/// of its characters, or nothing.
pub proof fn lemma_text_bounds(images: Map<u32, Glyph>, text: Seq<char>)
    ensures
        0 <= text_width(images, text),
        0 <= text_height(images, text) <= usize::MAX,
    decreases text.len(),
{
    if text.len() > 0 {
        lemma_text_bounds(images, text.drop_last());
    }
}

impl FontFactory {
    /// The typefaces and sizes handed out so far, each at the place that is
    /// its number.
    pub open spec fn keys(&self) -> Seq<(Seq<char>, usize)> {
        Seq::new(self.mapping@.len(), |k: int| (self.mapping@[k].0@, self.mapping@[k].1))
    }

    /// The glyphs kept, typeface by typeface.
    pub open spec fn glyphs(&self) -> Seq<Map<u32, Glyph>> {
        Seq::new(self.library@.len(), |k: int| self.library@[k]@)
    }

    /// No typeface and size has two numbers, and the library has a place
    /// for each number.
    pub open spec fn wf(&self) -> bool {
        &&& self.library@.len() == self.mapping@.len()
        &&& forall|k: int, l: int|
            0 <= k < self.keys().len() && 0 <= l < self.keys().len() && k != l
                ==> #[trigger] self.keys()[k] != #[trigger] self.keys()[l]
    }

    /// Whether no typeface and size has two numbers and the library has a
    /// place for each number.
    pub fn is_wf(&self) -> (ok: bool)
        ensures
            ok == self.wf(),
    {
        let n = self.mapping.len();
        if self.library.len() != n {
            return false;
        }
        let mut k: usize = 0;
        while k < n
            invariant
                n == self.mapping@.len(),
                n == self.library@.len(),
                k <= n,
                forall|a: int, b: int|
                    0 <= a < k && 0 <= b < a ==> #[trigger] self.keys()[a] != #[trigger] self.keys()[b],
            decreases n - k,
        {
            let mut l: usize = 0;
            while l < k
                invariant
                    n == self.mapping@.len(),
                    k < n,
                    l <= k,
                    forall|b: int| 0 <= b < l ==> self.keys()[k as int] != #[trigger] self.keys()[b],
                decreases k - l,
            {
                if self.mapping[k].0 == self.mapping[l].0 && self.mapping[k].1 == self.mapping[l].1 {
                    assert(self.keys()[k as int] == self.keys()[l as int]);
                    return false;
                }
                assert(self.keys()[k as int] != self.keys()[l as int]);
                l += 1;
            }
            k += 1;
        }
        assert forall|a: int, b: int|
            0 <= a < self.keys().len() && 0 <= b < self.keys().len() && a != b implies #[trigger] self.keys()[a]
            != #[trigger] self.keys()[b] by {
            if b < a {
                assert(self.keys()[a] != self.keys()[b]);
            } else {
                assert(self.keys()[b] != self.keys()[a]);
            }
        }
        true
    }

    /// A factory that has handed out nothing yet.
    pub fn new() -> (factory: FontFactory)
        ensures
            factory.wf(),
            factory.keys() == Seq::<(Seq<char>, usize)>::empty(),
            factory.glyphs() == Seq::<Map<u32, Glyph>>::empty(),
    {
        let factory = FontFactory { mapping: Vec::new(), library: Vec::new() };
        assert(factory.keys() =~= Seq::<(Seq<char>, usize)>::empty());
        assert(factory.glyphs() =~= Seq::<Map<u32, Glyph>>::empty());
        factory
    }

    /// A font of the given typeface, size, colour and layout. Its number is
    /// the one that the typeface and size already have, or else the next
    /// free one, which they keep from then on; the library then gets a
    /// place for their glyphs, with no glyph in it yet.
    pub fn new_font(
        &mut self,
        name: &str,
        size: usize,
        color: u32,
        layout_horizontal: TextLayoutHorizontal,
        layout_vertical: TextLayoutVertical,
    ) -> (font: Font)
        requires
            old(self).wf(),
        ensures
            final(self).wf(),
            font.name@ == name@,
            font.size == size,
            font.color == color,
            font.layout_horizontal == layout_horizontal,
            font.layout_vertical == layout_vertical,
            font.id < final(self).library@.len(),
            match place_of(old(self).keys(), name@, size) {
                Some(k) => {
                    &&& font.id == k
                    &&& final(self).keys() == old(self).keys()
                    &&& final(self).glyphs() == old(self).glyphs()
                },
                None => {
                    &&& font.id == old(self).keys().len()
                    &&& final(self).keys() == old(self).keys().push((name@, size))
                    &&& final(self).glyphs() == old(self).glyphs().push(Map::empty())
                },
            },
    {
        let owned = name.to_owned();
        let n = self.mapping.len();
        let mut k: usize = 0;
        while k < n
            invariant
                n == self.mapping@.len(),
                k <= n,
                owned@ == name@,
                *self == *old(self),
                self.wf(),
                forall|l: int| 0 <= l < k ==> self.keys()[l] != (name@, size),
            decreases n - k,
        {
            if self.mapping[k].0 == owned && self.mapping[k].1 == size {
                assert(self.keys()[k as int] == (name@, size));
                proof {
                    let found = place_of(self.keys(), name@, size).unwrap();
                    if found != k {
                        assert(self.keys()[found] != self.keys()[k as int]);
                    }
                }
                return Font::new(owned, size, color, layout_horizontal, layout_vertical, k);
            }
            k += 1;
        }
        assert(place_of(self.keys(), name@, size).is_none());
        self.library.push(HashMap::new());
        self.mapping.push((name.to_owned(), size));
        assert(self.keys() =~= old(self).keys().push((name@, size)));
        assert(self.glyphs() =~= old(self).glyphs().push(Map::empty()));
        Font::new(owned, size, color, layout_horizontal, layout_vertical, n)
    }
}

} // verus!
