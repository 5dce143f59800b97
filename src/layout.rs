use crate::glyphs::{advance_of, advances_of, char_advance, height_of, height_units, text_units};
use crate::text::{
    chars_of, count_significant, get_font_size, line_height_for, point_size_for, significant_count,
};
use crate::wrap::{views, wrap_measured, wrap_spec, Measure};
use ab_glyph::FontArc;
use vstd::prelude::*;

verus! {

/// Width of every canvas, in pixels.
pub const CANVAS_WIDTH: u32 = 800;

/// Height of every canvas, in pixels.
pub const CANVAS_HEIGHT: u32 = 1200;

/// Distance kept from the left and top edges, in pixels.
pub const PADDING: u32 = 40;

/// Widest line of text, in pixels: the canvas width less the padding on both
/// sides and a further margin of 80.
pub const MAX_LINE_WIDTH: u32 = 640;

/// Sum of `adv`.
pub open spec fn adv_sum(adv: Seq<u16>) -> nat
    decreases adv.len(),
{
    if adv.len() == 0 {
        0
    } else {
        (adv_sum(adv.drop_last()) + adv.last()) as nat
    }
}

/// Top of the text block: vertically centered, but never above the padding.
pub open spec fn start_y_spec(n_lines: nat, line_height: nat) -> int {
    let total = n_lines * line_height;
    if total + 2 * PADDING <= CANVAS_HEIGHT {
        (CANVAS_HEIGHT - total) / 2
    } else {
        PADDING as int
    }
}

/// Left edge of a line `units` font units wide at `px` pixels per `em` font
/// units: centered, but never left of the padding.
pub open spec fn line_x_spec(units: nat, px: nat, em: nat) -> int {
    let room = CANVAS_WIDTH * em - units * px;
    if room > 2 * PADDING * em {
        room / (2 * em as int)
    } else {
        PADDING as int
    }
}

pub proof fn lemma_start_y_range(n_lines: nat, line_height: nat)
    ensures
        PADDING <= start_y_spec(n_lines, line_height) <= CANVAS_HEIGHT / 2,
{
    assert(n_lines * line_height >= 0) by (nonlinear_arith);
}

pub proof fn lemma_line_x_range(units: nat, px: nat, em: nat)
    ensures
        PADDING <= line_x_spec(units, px, em) <= CANVAS_WIDTH / 2,
{
    let room = CANVAS_WIDTH * em - units * px;
    assert(units * px >= 0) by (nonlinear_arith);
    if room > 2 * PADDING * em {
        assert(room / (2 * em as int) <= 400) by (nonlinear_arith)
            requires
                room <= 800 * em,
                em > 0,
                room >= 0,
        ;
        assert(room / (2 * em as int) >= 40) by (nonlinear_arith)
            requires
                room > 80 * em,
                em > 0,
        ;
    }
}

/// Widths add up: the width of two texts one after the other is the sum of
/// their widths, and the empty text has width 0.
pub proof fn text_widths_add(font: FontArc, a: Seq<char>, b: Seq<char>)
    ensures
        text_units(font, a + b) == text_units(font, a) + text_units(font, b),
        text_units(font, Seq::<char>::empty()) == 0,
    decreases b.len(),
{
    if b.len() > 0 {
        text_widths_add(font, a, b.drop_last());
        assert((a + b).drop_last() =~= a + b.drop_last());
    } else {
        assert(a + b =~= a);
    }
}

/// Sums advances given in font units.
pub fn sum_advances(adv: &Vec<u16>) -> (r: u128)
    ensures
        r == adv_sum(adv@),
        r <= 65535 * adv.len(),
{
    let mut r: u128 = 0;
    let mut i: usize = 0;
    while i < adv.len()
        invariant
            i <= adv.len(),
            r == adv_sum(adv@.subrange(0, i as int)),
            r <= 65535 * i,
        decreases adv.len() - i,
    {
        assert(adv@.subrange(0, i + 1).drop_last() == adv@.subrange(0, i as int));
        proof {
            assert(65535 * i <= 65535 * usize::MAX) by (nonlinear_arith)
                requires
                    i <= usize::MAX,
            ;
        }
        r = r + adv[i] as u128;
        i = i + 1;
    }
    assert(adv@.subrange(0, i as int) == adv@);
    r
}

/// Width of `text` in `font`, in font units: the sum of its glyph advances.
pub fn measure_text_width(font: &FontArc, text: &str) -> (r: u128)
    ensures
        r == text_units(*font, text@),
        r <= 65535 * usize::MAX,
{
    let chars = chars_of(text);
    let mut r: u128 = 0;
    let mut i: usize = 0;
    while i < chars.len()
        invariant
            chars@ == text@,
            i <= chars.len(),
            r == text_units(*font, chars@.subrange(0, i as int)),
            r <= 65535 * i,
        decreases chars.len() - i,
    {
        assert(chars@.subrange(0, i + 1).drop_last() == chars@.subrange(0, i as int));
        proof {
            assert(65535 * i <= 65535 * usize::MAX) by (nonlinear_arith)
                requires
                    i <= usize::MAX,
            ;
        }
        r = r + char_advance(font, chars[i]) as u128;
        i = i + 1;
    }
    assert(chars@.subrange(0, i as int) == chars@);
    proof {
        assert(65535 * i <= 65535 * usize::MAX) by (nonlinear_arith)
            requires
                i <= usize::MAX,
        ;
    }
    r
}

/// Top of a block of `n_lines` lines of `line_height` pixels.
pub fn start_y(n_lines: usize, line_height: u32) -> (r: i32)
    requires
        line_height <= 1000,
    ensures
        r == start_y_spec(n_lines as nat, line_height as nat),
        PADDING <= r <= CANVAS_HEIGHT / 2,
{
    proof {
        assert((n_lines as int) * (line_height as int) <= usize::MAX * 1000) by (nonlinear_arith)
            requires
                n_lines <= usize::MAX,
                line_height <= 1000,
        ;
    }
    let total: u128 = n_lines as u128 * line_height as u128;
    if total + 80 <= 1200 {
        ((1200 - total) / 2) as i32
    } else {
        40
    }
}

/// Left edge of a line `units` font units wide, at `px` pixels per `em` font
/// units.
pub fn line_x(units: u128, px: u32, em: u32) -> (r: i32)
    requires
        units <= 65535 * usize::MAX,
    ensures
        r == line_x_spec(units as nat, px as nat, em as nat),
        PADDING <= r <= CANVAS_WIDTH / 2,
{
    proof {
        assert(units * (px as int) <= 65535 * usize::MAX * 0xffff_ffff) by (nonlinear_arith)
            requires
                units <= 65535 * usize::MAX,
                px <= 0xffff_ffff,
        ;
    }
    let up: u128 = units * px as u128;
    let full: u128 = 800 * em as u128;
    if full > up && full - up > 80 * em as u128 {
        let x = (full - up) / (2 * em as u128);
        proof {
            let room = full - up;
            assert(room <= 800 * em);
            assert(room / (2 * (em as int)) <= 400) by (nonlinear_arith)
                requires
                    room <= 800 * em,
                    em > 0,
                    room >= 0,
            ;
            assert(room / (2 * (em as int)) >= 40) by (nonlinear_arith)
                requires
                    room > 80 * em,
                    em > 0,
            ;
        }
        x as i32
    } else {
        40
    }
}

/// Where the text goes: its lines, type size and positions, with the font
/// metrics they were computed from.
pub struct TextLayout {
    /// The wrapped lines, top to bottom.
    pub lines: Vec<String>,
    /// Point size, in pixels.
    pub point_size: u32,
    /// Distance between the tops of consecutive lines, in pixels.
    pub line_height: u32,
    /// Top of the first line.
    pub start_y: i32,
    /// Left edge of each line.
    pub xs: Vec<i32>,
    /// Width of each line, in font units.
    pub widths: Vec<u128>,
    /// Advance of each character of the text, in font units.
    pub advances: Vec<u16>,
    /// Advance of the space glyph, in font units.
    pub space: u16,
    /// Height of the font, in font units.
    pub em: u32,
}

impl TextLayout {
    /// How the lines were measured.
    pub open spec fn measure(&self) -> Measure {
        Measure { px: self.point_size, em: self.em, space: self.space, limit: MAX_LINE_WIDTH }
    }

    /// The metrics are those of `font`: the advance of each character of
    /// `text` and of the space, the font's height, and each line's width.
    pub open spec fn measured_by(&self, font: FontArc, text: Seq<char>) -> bool {
        &&& self.advances@.len() == text.len()
        &&& forall|i: int|
            0 <= i < text.len() ==> #[trigger] self.advances@[i] == advance_of(font, text[i])
        &&& self.space == advance_of(font, ' ')
        &&& self.em == height_of(font)
        &&& self.widths@.len() == self.lines@.len()
        &&& forall|i: int|
            0 <= i < self.lines@.len() ==> #[trigger] self.widths@[i] == text_units(
                font,
                self.lines@[i]@,
            )
    }

    /// The layout is the one that `text` gets from its metrics.
    pub open spec fn lays_out(&self, text: Seq<char>) -> bool {
        &&& self.point_size == point_size_for(significant_count(text))
        &&& self.line_height == self.point_size * 11 / 10
        &&& self.advances@.len() == text.len()
        &&& views(self.lines@) == wrap_spec(text, self.advances@, self.measure())
        &&& self.start_y == start_y_spec(self.lines@.len(), self.line_height as nat)
        &&& self.xs@.len() == self.lines@.len()
        &&& self.widths@.len() == self.lines@.len()
        &&& forall|i: int|
            0 <= i < self.xs@.len() ==> #[trigger] self.xs@[i] == line_x_spec(
                self.widths@[i] as nat,
                self.point_size as nat,
                self.em as nat,
            )
    }
}

/// Wraps `text` in `font` at `px` pixels per em into lines at most
/// `max_width` pixels wide where words allow, measuring every glyph; returns
/// the lines with the metrics they were measured by.
pub fn wrap_text_by_width(text: &str, font: &FontArc, px: u32, max_width: u32) -> (r: (
    Vec<String>,
    Measure,
    Vec<u16>,
))
    ensures
        r.1.px == px,
        r.1.limit == max_width,
        r.2@.len() == text@.len(),
        forall|i: int| 0 <= i < text@.len() ==> #[trigger] r.2@[i] == advance_of(*font, text@[i]),
        r.1.space == advance_of(*font, ' '),
        r.1.em == height_of(*font),
        views(r.0@) == wrap_spec(text@, r.2@, r.1),
{
    let chars = chars_of(text);
    let advances = advances_of(font, &chars);
    let space = char_advance(font, ' ');
    let em = height_units(font);
    let m = Measure { px, em, space, limit: max_width };
    let lines = wrap_measured(&chars, &advances, m);
    (lines, m, advances)
}

/// Lays out `text` in `font`: picks the point size, wraps by glyph widths,
/// centers each line and the block.
pub fn layout_text(text: &str, font: &FontArc) -> (r: TextLayout)
    ensures
        r.lays_out(text@),
        r.measured_by(*font, text@),
{
    let point_size = get_font_size(count_significant(text));
    let (lines, m, advances) = wrap_text_by_width(text, font, point_size, MAX_LINE_WIDTH);
    let em = m.em;
    let line_height = line_height_for(point_size);
    let start = start_y(lines.len(), line_height);
    let mut xs: Vec<i32> = Vec::new();
    let mut widths: Vec<u128> = Vec::new();
    let mut i: usize = 0;
    while i < lines.len()
        invariant
            i <= lines.len(),
            xs@.len() == i,
            widths@.len() == i,
            forall|k: int|
                0 <= k < i ==> #[trigger] widths@[k] == text_units(*font, lines@[k]@),
            forall|k: int|
                0 <= k < i ==> #[trigger] xs@[k] == line_x_spec(
                    widths@[k] as nat,
                    point_size as nat,
                    em as nat,
                ),
        decreases lines.len() - i,
    {
        let w = measure_text_width(font, lines[i].as_str());
        xs.push(line_x(w, point_size, em));
        widths.push(w);
        i = i + 1;
    }
    TextLayout {
        lines,
        point_size,
        line_height,
        start_y: start,
        xs,
        widths,
        advances,
        space: m.space,
        em,
    }
}

} // verus!
