use vstd::prelude::*;
use crate::geom::Mm;
use crate::style::Style;

verus! {

/// The largest number of characters a single text run may hold, so that its
/// width in thousandths of a millimeter always fits the arithmetic below.
pub const MAX_TEXT_CHARS: usize = 100_000_000;

/// The largest width a single character can have, in thousandths of a
/// millimeter: the largest advance at the largest font size.
pub const MAX_CHAR_WIDTH_UM: i64 = 5_895_419;

/// Converts a distance given in thousandths of an em at the given font size
/// (in points) into thousandths of a millimeter.  One point is 25.4/72
/// millimeters, so the exact ratio is 127/360.
pub open spec fn em_milli_to_um(em_milli: int, font_size: int) -> int {
    em_milli * font_size * 127 / 360
}

/// Scales a distance in thousandths of an em (at most `u16::MAX`) by a font
/// size in points, giving thousandths of a millimeter.
pub fn scale_em_milli(em_milli: u16, font_size: u8) -> (r: i64)
    ensures
        r == em_milli_to_um(em_milli as int, font_size as int),
        0 <= r <= MAX_CHAR_WIDTH_UM,
{
    proof {
        assert(0 <= (em_milli as int) * (font_size as int) * 127 <= 0xFFFF * 255 * 127)
            by (nonlinear_arith)
            requires
                0 <= em_milli as int <= 0xFFFF,
                0 <= font_size as int <= 255,
        ;
        vstd::arithmetic::div_mod::lemma_div_is_ordered(
            0,
            (em_milli as int) * (font_size as int) * 127,
            360,
        );
        vstd::arithmetic::div_mod::lemma_div_is_ordered(
            (em_milli as int) * (font_size as int) * 127,
            (0xFFFF * 255 * 127) as int,
            360,
        );
        assert(((0xFFFF * 255 * 127) as int) / 360 == MAX_CHAR_WIDTH_UM as int);
    }
    (em_milli as i64) * (font_size as i64) * 127 / 360
}

/// A character's width is never negative.
pub proof fn lemma_char_width_nonneg(cache: FontCache, c: char, font_size: int)
    requires
        font_size >= 0,
    ensures
        cache.spec_char_width(c, font_size) >= 0,
{
    assert(cache.spec_advance(c) * font_size * 127 >= 0) by (nonlinear_arith)
        requires
            cache.spec_advance(c) >= 0,
            font_size >= 0,
    ;
    vstd::arithmetic::div_mod::lemma_div_is_ordered(
        0,
        cache.spec_advance(c) * font_size * 127,
        360,
    );
}

/// String width adds over concatenation.
pub proof fn lemma_str_width_concat(cache: FontCache, a: Seq<char>, b: Seq<char>, font_size: int)
    ensures
        cache.spec_str_width(a + b, font_size) == cache.spec_str_width(a, font_size)
            + cache.spec_str_width(b, font_size),
    decreases b.len(),
{
    if b.len() == 0 {
        assert(a + b =~= a);
    } else {
        assert((a + b).drop_last() =~= a + b.drop_last());
        assert((a + b).last() == b.last());
        lemma_str_width_concat(cache, a, b.drop_last(), font_size);
    }
}

/// A string's width is never negative.
pub proof fn lemma_str_width_nonneg(cache: FontCache, s: Seq<char>, font_size: int)
    requires
        font_size >= 0,
    ensures
        cache.spec_str_width(s, font_size) >= 0,
    decreases s.len(),
{
    if s.len() > 0 {
        lemma_str_width_nonneg(cache, s.drop_last(), font_size);
        lemma_char_width_nonneg(cache, s.last(), font_size);
    }
}

/// The vertical metrics of a style at its effective font size.
#[derive(Clone, Copy, Debug, PartialEq, Eq, Structural)]
pub struct Metrics {
    /// Height of the tallest glyph above the baseline.
    pub glyph_height: Mm,
    /// Vertical distance between the tops of consecutive lines.
    pub line_height: Mm,
}

impl Metrics {
    /// Metrics of zero height.
    pub fn empty() -> (r: Metrics)
        ensures
            r.glyph_height.0 == 0,
            r.line_height.0 == 0,
    {
        Metrics { glyph_height: Mm(0), line_height: Mm(0) }
    }

    /// The componentwise maximum of two metrics.
    pub fn max(&self, other: &Metrics) -> (r: Metrics)
        ensures
            r.glyph_height == self.glyph_height.spec_max(other.glyph_height),
            r.line_height == self.line_height.spec_max(other.line_height),
    {
        Metrics {
            glyph_height: self.glyph_height.max_mm(other.glyph_height),
            line_height: self.line_height.max_mm(other.line_height),
        }
    }
}

/// Character-advance and line-height data for the one font the engine
/// measures text with.  All stored values are in thousandths of an em, so a
/// width in millimeters is obtained by scaling with the font size.
#[derive(Clone, Debug)]
pub struct FontCache {
    /// Advance width per character, indexed by the character's code point.
    /// Characters beyond the table use the default advance.
    pub advances: Vec<u16>,
    /// Advance width of characters not covered by the table.
    pub default_advance: u16,
    /// Line height in thousandths of an em.
    pub line_height: u16,
    /// Height of a glyph above the baseline, in thousandths of an em.
    pub glyph_height: u16,
}

impl FontCache {
    /// The advance width of a character, in thousandths of an em.
    pub open spec fn spec_advance(self, c: char) -> int {
        if (c as u32) < self.advances@.len() {
            self.advances@[c as u32 as int] as int
        } else {
            self.default_advance as int
        }
    }

    /// The width of a character at the given font size, in thousandths of a
    /// millimeter.
    pub open spec fn spec_char_width(self, c: char, font_size: int) -> int {
        em_milli_to_um(self.spec_advance(c), font_size)
    }

    /// The width of a sequence of characters at the given font size, in
    /// thousandths of a millimeter.
    pub open spec fn spec_str_width(self, s: Seq<char>, font_size: int) -> int
        decreases s.len(),
    {
        if s.len() == 0 {
            0
        } else {
            self.spec_str_width(s.drop_last(), font_size) + self.spec_char_width(
                s.last(),
                font_size,
            )
        }
    }

    /// The line height of the font at the given size, in thousandths of a
    /// millimeter.
    pub open spec fn spec_line_height(self, font_size: int) -> int {
        em_milli_to_um(self.line_height as int, font_size)
    }

    /// The glyph height of the font at the given size, in thousandths of a
    /// millimeter.
    pub open spec fn spec_glyph_height(self, font_size: int) -> int {
        em_milli_to_um(self.glyph_height as int, font_size)
    }

    /// A monospace-flavored cache: every character has the same advance.
    /// Advance and heights are given in thousandths of an em.
    pub fn monospace(advance: u16, line_height: u16, glyph_height: u16) -> (r: FontCache)
        ensures
            forall|c: char| r.spec_advance(c) == advance as int,
            r.line_height == line_height,
            r.glyph_height == glyph_height,
    {
        let advances: Vec<u16> = Vec::new();
        let cache = FontCache { advances, default_advance: advance, line_height, glyph_height };
        proof {
            assert forall|c: char| cache.spec_advance(c) == advance as int by {
                assert(cache.advances@.len() == 0);
            }
        }
        cache
    }

    /// A cache with a table of per-character advances for the code points
    /// below the table's length and a default advance for all others.
    pub fn with_advances(
        advances: Vec<u16>,
        default_advance: u16,
        line_height: u16,
        glyph_height: u16,
    ) -> (r: FontCache)
        ensures
            r.advances == advances,
            r.default_advance == default_advance,
            r.line_height == line_height,
            r.glyph_height == glyph_height,
    {
        FontCache { advances, default_advance, line_height, glyph_height }
    }

    /// The advance width of a character, in thousandths of an em.
    pub fn advance(&self, c: char) -> (r: u16)
        ensures
            r as int == self.spec_advance(c),
    {
        let code = c as u32;
        if (code as usize) < self.advances.len() {
            self.advances[code as usize]
        } else {
            self.default_advance
        }
    }

    /// The width of a character at the given font size, in thousandths of a
    /// millimeter.
    pub fn char_width(&self, c: char, font_size: u8) -> (r: Mm)
        ensures
            r.0 == self.spec_char_width(c, font_size as int),
            0 <= r.0 <= MAX_CHAR_WIDTH_UM,
    {
        let advance = self.advance(c);
        Mm(scale_em_milli(advance, font_size))
    }

    /// The width of a string at the given font size, in thousandths of a
    /// millimeter.
    pub fn str_width(&self, s: &str, font_size: u8) -> (r: Mm)
        requires
            s@.len() <= MAX_TEXT_CHARS,
        ensures
            r.0 == self.spec_str_width(s@, font_size as int),
            0 <= r.0 <= s@.len() * MAX_CHAR_WIDTH_UM,
    {
        let len = s.unicode_len();
        let mut total: i64 = 0;
        let mut i: usize = 0;
        while i < len
            invariant
                len == s@.len() <= MAX_TEXT_CHARS,
                0 <= i <= len,
                total == self.spec_str_width(s@.take(i as int), font_size as int),
                0 <= total <= i * MAX_CHAR_WIDTH_UM,
            decreases len - i,
        {
            let c = s.get_char(i);
            let w = self.char_width(c, font_size);
            proof {
                assert(s@.take(i + 1 as int).drop_last() =~= s@.take(i as int));
                assert(s@.take(i + 1 as int).last() == s@[i as int]);
            }
            total = total + w.0;
            i = i + 1;
        }
        proof {
            assert(s@.take(len as int) =~= s@);
        }
        Mm(total)
    }

    /// The line height at the given font size, in thousandths of a
    /// millimeter.
    pub fn line_height_at(&self, font_size: u8) -> (r: Mm)
        ensures
            r.0 == self.spec_line_height(font_size as int),
            0 <= r.0 <= MAX_CHAR_WIDTH_UM,
    {
        Mm(scale_em_milli(self.line_height, font_size))
    }

    /// The glyph height at the given font size, in thousandths of a
    /// millimeter.
    pub fn glyph_height_at(&self, font_size: u8) -> (r: Mm)
        ensures
            r.0 == self.spec_glyph_height(font_size as int),
            0 <= r.0 <= MAX_CHAR_WIDTH_UM,
    {
        Mm(scale_em_milli(self.glyph_height, font_size))
    }
}

impl Style {
    /// The width of a string in this style, in thousandths of a millimeter.
    pub fn str_width(&self, cache: &FontCache, s: &str) -> (r: Mm)
        requires
            s@.len() <= MAX_TEXT_CHARS,
        ensures
            r.0 == cache.spec_str_width(s@, self.effective_font_size() as int),
            0 <= r.0 <= s@.len() * MAX_CHAR_WIDTH_UM,
    {
        cache.str_width(s, self.font_size())
    }

    /// The line height of this style, in thousandths of a millimeter.
    pub fn line_height(&self, cache: &FontCache) -> (r: Mm)
        ensures
            r.0 == cache.spec_line_height(self.effective_font_size() as int),
            0 <= r.0 <= MAX_CHAR_WIDTH_UM,
    {
        cache.line_height_at(self.font_size())
    }

    /// The vertical metrics of this style, in thousandths of a millimeter.
    pub fn metrics(&self, cache: &FontCache) -> (r: Metrics)
        ensures
            r.glyph_height.0 == cache.spec_glyph_height(self.effective_font_size() as int),
            r.line_height.0 == cache.spec_line_height(self.effective_font_size() as int),
            0 <= r.glyph_height.0 <= MAX_CHAR_WIDTH_UM,
            0 <= r.line_height.0 <= MAX_CHAR_WIDTH_UM,
    {
        Metrics {
            glyph_height: cache.glyph_height_at(self.font_size()),
            line_height: cache.line_height_at(self.font_size()),
        }
    }
}

} // verus!
