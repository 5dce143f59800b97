use crate::canvas::{
    apply_overlay, byte_index, chan_of, col_of, cover_size, cover_size_spec,
    create_gradient_background, gradient_byte, overlay_byte, row_of, Canvas,
};
use crate::glyphs::{height_of, parse_font, parsed_font};
use crate::layout::{layout_text, TextLayout, CANVAS_HEIGHT, CANVAS_WIDTH};
use crate::raster::{
    crop, decode_image, decoded, draw_text_white, encode_png, lanczos_of, png_of, resize_lanczos,
    rgba_of, text_drawn, to_canvas, within_draw_span, DRAW_REACH, DRAW_SPAN,
};
use crate::text::{font_key, font_key_spec, FontKey};
use ab_glyph::FontArc;
use vstd::prelude::*;

verus! {

/// Why a card could not be rendered.
#[derive(Clone, Copy, Debug, PartialEq, Eq, Structural)]
pub enum RenderError {
    /// The embedded data of this font does not parse.
    FontLoad(FontKey),
    /// The PNG encoder failed.
    Encode,
}

impl RenderError {
    /// A message for the person who asked for the card.
    pub fn message(&self) -> (r: String)
        ensures
            r@ == match self {
                RenderError::FontLoad(FontKey::Kanit) => "Failed to load Kanit font"@,
                RenderError::FontLoad(FontKey::NotoSansThai) => "Failed to load Noto Sans Thai font"@,
                RenderError::Encode => "Failed to encode image"@,
            },
    {
        match self {
            RenderError::FontLoad(FontKey::Kanit) => String::from_str("Failed to load Kanit font"),
            RenderError::FontLoad(FontKey::NotoSansThai) => String::from_str(
                "Failed to load Noto Sans Thai font",
            ),
            RenderError::Encode => String::from_str("Failed to encode image"),
        }
    }
}

/// The font files that can be selected by name.
pub struct FontFiles {
    pub kanit: Vec<u8>,
    pub noto_sans_thai: Vec<u8>,
}

impl FontFiles {
    /// The data of the font `key`.
    pub fn font_bytes(&self, key: FontKey) -> (r: &Vec<u8>)
        ensures
            key == FontKey::Kanit ==> r == &self.kanit,
            key == FontKey::NotoSansThai ==> r == &self.noto_sans_thai,
    {
        match key {
            FontKey::Kanit => &self.kanit,
            FontKey::NotoSansThai => &self.noto_sans_thai,
        }
    }
}

/// Parses the font `key` from `data`.
pub fn load_font(key: FontKey, data: Vec<u8>) -> (r: Result<FontArc, RenderError>)
    ensures
        r is Ok <==> parsed_font(data@) is Some,
        r matches Ok(f) ==> parsed_font(data@) == Some(f),
        r matches Err(e) ==> e == RenderError::FontLoad(key),
{
    match parse_font(data) {
        Ok(f) => Ok(f),
        Err(_) => Err(RenderError::FontLoad(key)),
    }
}

/// The bytes of the gradient card.
pub open spec fn gradient_card() -> Seq<u8> {
    Seq::new(
        (4 * CANVAS_WIDTH * CANVAS_HEIGHT) as nat,
        |i: int|
            gradient_byte(
                CANVAS_WIDTH as int,
                CANVAS_HEIGHT as int,
                col_of(CANVAS_WIDTH as int, i),
                row_of(CANVAS_WIDTH as int, i),
                chan_of(i),
            ) as u8,
    )
}

/// The bytes of card-sized picture `p` under the darkening overlay.
pub open spec fn darkened_card(p: Seq<u8>) -> Seq<u8> {
    Seq::new(
        p.len(),
        |i: int| overlay_byte(p[i], CANVAS_WIDTH as int, CANVAS_HEIGHT as int, i) as u8,
    )
}

/// The card-sized window of `q` (a picture `qw` pixels wide) whose top-left
/// pixel is (x, y).
pub open spec fn crop_card(q: Seq<u8>, qw: int, x: int, y: int) -> Seq<u8> {
    Seq::new(
        (4 * CANVAS_WIDTH * CANVAS_HEIGHT) as nat,
        |i: int|
            q[byte_index(
                qw,
                x + col_of(CANVAS_WIDTH as int, i),
                y + row_of(CANVAS_WIDTH as int, i),
                chan_of(i),
            )],
    )
}

/// A `w` by `h` picture scaled to cover the card and cropped to its middle;
/// nothing for an empty picture or a scaled size too large to hold.
pub open spec fn fit_cover_spec(w: u32, h: u32, p: Seq<u8>) -> Option<Seq<u8>> {
    if w == 0 || h == 0 {
        None
    } else {
        let (nw, nh) = cover_size_spec(w as int, h as int, CANVAS_WIDTH as int, CANVAS_HEIGHT as int);
        if nw > u32::MAX || nh > u32::MAX || 4 * nw * nh > isize::MAX {
            None
        } else {
            Some(
                crop_card(
                    lanczos_of(p, w, h, nw as u32, nh as u32),
                    nw,
                    (nw - CANVAS_WIDTH) / 2,
                    (nh - CANVAS_HEIGHT) / 2,
                ),
            )
        }
    }
}

/// The fitted picture that `bytes` hold, if they decode to a non-empty image.
pub open spec fn photo_spec(bytes: Seq<u8>) -> Option<Seq<u8>> {
    match decoded(bytes) {
        None => None,
        Some(img) => {
            let (w, h, p) = rgba_of(img);
            if p.len() != 4 * (w as int) * (h as int) {
                None
            } else {
                fit_cover_spec(w, h, p)
            }
        },
    }
}

/// The fitted picture from what was fetched, if anything usable was.
pub open spec fn fetched_photo(fetched: Option<&[u8]>) -> Option<Seq<u8>> {
    match fetched {
        Some(b) => photo_spec(b@),
        None => None,
    }
}

/// The background bytes: the darkened picture, or else the gradient.
pub open spec fn background_spec(fetched: Option<&[u8]>) -> Seq<u8> {
    match fetched_photo(fetched) {
        Some(p) => darkened_card(p),
        None => gradient_card(),
    }
}

/// Scales `src` to cover the card, keeping its aspect ratio, and crops the
/// middle.
pub fn fit_cover(src: &Canvas) -> (r: Option<Canvas>)
    requires
        src.wf(),
    ensures
        r is Some <==> fit_cover_spec(src.width, src.height, src.pixels@) is Some,
        r matches Some(c) ==> c.width == CANVAS_WIDTH && c.height == CANVAS_HEIGHT && c.wf()
            && fit_cover_spec(src.width, src.height, src.pixels@) == Some(c.pixels@),
{
    if src.width == 0 || src.height == 0 {
        return None;
    }
    let (nw, nh) = cover_size(src.width, src.height, CANVAS_WIDTH, CANVAS_HEIGHT);
    if nw > u32::MAX as u64 || nh > u32::MAX as u64 {
        return None;
    }
    proof {
        assert(4 * (nw as int) * (nh as int) <= 4 * 0xffff_ffff * 0xffff_ffff) by (nonlinear_arith)
            requires
                nw <= 0xffff_ffff,
                nh <= 0xffff_ffff,
        ;
    }
    let size: u128 = 4 * nw as u128 * nh as u128;
    if size > isize::MAX as u128 {
        return None;
    }
    let resized = resize_lanczos(src, nw as u32, nh as u32);
    match resized {
        Some(resized) => {
            let c = crop(
                &resized,
                ((nw - 800) / 2) as u32,
                ((nh - 1200) / 2) as u32,
                CANVAS_WIDTH,
                CANVAS_HEIGHT,
            );
            match c {
                Some(c) => {
                    let ghost want = crop_card(
                        resized.pixels@,
                        nw as int,
                        (nw - 800) / 2,
                        (nh - 1200) / 2,
                    );
                    assert(c.pixels@ =~= want);
                    Some(c)
                },
                None => None,
            }
        },
        None => None,
    }
}

/// The fitted picture in `bytes`, or nothing where they do not decode to a
/// non-empty image.
pub fn photo_from(bytes: &[u8]) -> (r: Option<Canvas>)
    ensures
        r is Some <==> photo_spec(bytes@) is Some,
        r matches Some(c) ==> c.width == CANVAS_WIDTH && c.height == CANVAS_HEIGHT && c.wf()
            && photo_spec(bytes@) == Some(c.pixels@),
{
    match decode_image(bytes) {
        Ok(img) => {
            let c = to_canvas(&img);
            proof {
                assert(4 * (c.width as int) * (c.height as int) <= 4 * 0xffff_ffff * 0xffff_ffff)
                    by (nonlinear_arith)
                    requires
                        c.width <= 0xffff_ffff,
                        c.height <= 0xffff_ffff,
                ;
            }
            let expected: u128 = 4 * c.width as u128 * c.height as u128;
            if c.pixels.len() as u128 != expected {
                return None;
            }
            fit_cover(&c)
        },
        Err(_) => None,
    }
}

/// A background and where it came from.
pub struct Background {
    pub canvas: Canvas,
    /// The canvas is a darkened picture, not the gradient.
    pub from_image: bool,
}

/// The card's background: the picture in `fetched`, fitted and darkened, or
/// the gradient where nothing was fetched or the bytes are no usable image.
/// A failed picture never fails the card.
pub fn background_from(fetched: Option<&[u8]>) -> (r: Background)
    ensures
        r.from_image == fetched_photo(fetched) is Some,
        r.canvas.width == CANVAS_WIDTH,
        r.canvas.height == CANVAS_HEIGHT,
        r.canvas.wf(),
        r.canvas.pixels@ == background_spec(fetched),
{
    let photo = match fetched {
        Some(bytes) => photo_from(bytes),
        None => None,
    };
    match photo {
        Some(mut c) => {
            let ghost fitted = c.pixels@;
            apply_overlay(&mut c);
            assert(c.pixels@ =~= darkened_card(fitted));
            Background { canvas: c, from_image: true }
        },
        None => {
            let c = create_gradient_background(CANVAS_WIDTH, CANVAS_HEIGHT);
            assert(c.pixels@ =~= gradient_card());
            Background { canvas: c, from_image: false }
        },
    }
}

/// A rendered card: the PNG, the layout of its text, and whether a picture
/// is behind it.
pub struct Card {
    pub png: Vec<u8>,
    pub layout: TextLayout,
    pub from_image: bool,
}

/// Top of line `i` of `layout`.
pub open spec fn line_top(layout: TextLayout, i: int) -> int {
    layout.start_y + i * layout.line_height
}

/// Line `i` is drawn: its top is within reach and its glyphs within the span
/// that the rasterizer can place.
pub open spec fn line_drawn(font: FontArc, layout: TextLayout, i: int) -> bool {
    &&& line_top(layout, i) <= DRAW_REACH
    &&& within_draw_span(
        layout.lines@[i]@.len(),
        layout.point_size as nat,
        height_of(font) as nat,
    )
}

/// The pixels after the first `n` lines of `layout` are drawn on `pixels`.
pub open spec fn drawn_lines(
    font: FontArc,
    pixels: Seq<u8>,
    w: u32,
    h: u32,
    layout: TextLayout,
    n: nat,
) -> Seq<u8>
    decreases n,
{
    if n == 0 {
        pixels
    } else {
        let i = n - 1;
        let before = drawn_lines(font, pixels, w, h, layout, (n - 1) as nat);
        if line_drawn(font, layout, i) {
            text_drawn(
                font,
                before,
                w,
                h,
                layout.lines@[i]@,
                layout.xs@[i],
                line_top(layout, i) as i32,
                layout.point_size as u16,
            )
        } else {
            before
        }
    }
}

/// Draws each laid-out line in white at its place. A line is left out only
/// where it starts more than `DRAW_REACH` pixels down or is too long for the
/// rasterizer's coordinates (`DRAW_SPAN`), far outside the canvas either way.
pub fn draw_layout(canvas: &mut Canvas, font: &FontArc, layout: &TextLayout)
    requires
        old(canvas).wf(),
        layout.xs@.len() == layout.lines@.len(),
        forall|i: int| 0 <= i < layout.xs@.len() ==> 40 <= #[trigger] layout.xs@[i] <= 400,
        layout.point_size <= 100,
        layout.line_height <= 110,
        40 <= layout.start_y <= 600,
        layout.em == height_of(*font),
    ensures
        final(canvas).width == old(canvas).width,
        final(canvas).height == old(canvas).height,
        final(canvas).wf(),
        final(canvas).pixels@ == drawn_lines(
            *font,
            old(canvas).pixels@,
            old(canvas).width,
            old(canvas).height,
            *layout,
            layout.lines@.len(),
        ),
{
    let ghost start = canvas.pixels@;
    let mut i: usize = 0;
    while i < layout.lines.len()
        invariant
            i <= layout.lines@.len(),
            canvas.wf(),
            canvas.width == old(canvas).width,
            canvas.height == old(canvas).height,
            start == old(canvas).pixels@,
            layout.xs@.len() == layout.lines@.len(),
            forall|k: int| 0 <= k < layout.xs@.len() ==> 40 <= #[trigger] layout.xs@[k] <= 400,
            layout.point_size <= 100,
            layout.line_height <= 110,
            40 <= layout.start_y <= 600,
            layout.em == height_of(*font),
            canvas.pixels@ == drawn_lines(
                *font,
                start,
                canvas.width,
                canvas.height,
                *layout,
                i as nat,
            ),
        decreases layout.lines@.len() - i,
    {
        proof {
            assert((i as int) * (layout.line_height as int) <= usize::MAX * 110) by (nonlinear_arith)
                requires
                    i <= usize::MAX,
                    layout.line_height <= 110,
            ;
        }
        let top: u128 = layout.start_y as u128 + i as u128 * layout.line_height as u128;
        let n = layout.lines[i].as_str().unicode_len();
        let em = layout.em;
        let px = layout.point_size;
        proof {
            assert((n as int + 1) * 131072 * (px as int) <= (usize::MAX + 1) * 131072 * 100) by (
            nonlinear_arith)
                requires
                    n <= usize::MAX,
                    px <= 100,
            ;
        }
        if top <= DRAW_REACH as u128 && em > 0 && (n as u128 + 1) * 131072 * (px as u128) <= (
        DRAW_SPAN as u128) * (em as u128) {
            draw_text_white(
                canvas,
                font,
                layout.lines[i].as_str(),
                layout.xs[i],
                top as i32,
                px as u16,
            );
        }
        i = i + 1;
    }
}

/// Renders `text` in `font` over the background from `fetched` and encodes
/// the card as PNG. This always succeeds.
pub fn render_card(text: &str, fetched: Option<&[u8]>, font: &FontArc) -> (r: Result<
    Card,
    RenderError,
>)
    ensures
        r is Ok,
        r matches Ok(card) ==> {
            &&& card.layout.lays_out(text@)
            &&& card.layout.measured_by(*font, text@)
            &&& card.from_image == fetched_photo(fetched) is Some
            &&& card.png@ == png_of(
                drawn_lines(
                    *font,
                    background_spec(fetched),
                    CANVAS_WIDTH,
                    CANVAS_HEIGHT,
                    card.layout,
                    card.layout.lines@.len(),
                ),
                CANVAS_WIDTH,
                CANVAS_HEIGHT,
            )
        },
{
    let bg = background_from(fetched);
    let mut canvas = bg.canvas;
    let layout = layout_text(text, font);
    proof {
        assert forall|i: int| 0 <= i < layout.xs@.len() implies 40 <= #[trigger] layout.xs@[i]
            <= 400 by {
            crate::layout::lemma_line_x_range(
                layout.widths@[i] as nat,
                layout.point_size as nat,
                layout.em as nat,
            );
        }
        crate::layout::lemma_start_y_range(layout.lines@.len(), layout.line_height as nat);
    }
    draw_layout(&mut canvas, font, &layout);
    match encode_card(&canvas) {
        Ok(png) => Ok(Card { png, layout, from_image: bg.from_image }),
        Err(e) => Err(e),
    }
}

/// Encodes `canvas` as PNG; a canvas with pixels always encodes.
pub fn encode_card(canvas: &Canvas) -> (r: Result<Vec<u8>, RenderError>)
    requires
        canvas.wf(),
    ensures
        canvas.width > 0 && canvas.height > 0 ==> r is Ok,
        r matches Ok(b) ==> b@ == png_of(canvas.pixels@, canvas.width, canvas.height),
        r matches Err(e) ==> e == RenderError::Encode,
{
    match encode_png(canvas) {
        Some(Ok(png)) => Ok(png),
        _ => Err(RenderError::Encode),
    }
}

/// The whole pipeline: picks the font by name (an unknown name selects the
/// default), loads it from `fonts`, and renders the card as PNG bytes. It
/// fails exactly when the chosen font's data does not parse.
pub fn generate_og_image(
    text: &str,
    fetched: Option<&[u8]>,
    font_name: &str,
    fonts: &FontFiles,
) -> (r: Result<Vec<u8>, RenderError>)
    ensures
        ({
            let key = font_key_spec(font_name@);
            let data = if key == FontKey::Kanit {
                fonts.kanit@
            } else {
                fonts.noto_sans_thai@
            };
            &&& r is Ok <==> parsed_font(data) is Some
            &&& r matches Err(e) ==> e == RenderError::FontLoad(key)
            &&& r matches Ok(b) ==> exists|l: TextLayout|
                {
                    &&& l.lays_out(text@)
                    &&& l.measured_by(parsed_font(data)->0, text@)
                    &&& b@ == png_of(
                        drawn_lines(
                            parsed_font(data)->0,
                            background_spec(fetched),
                            CANVAS_WIDTH,
                            CANVAS_HEIGHT,
                            l,
                            l.lines@.len(),
                        ),
                        CANVAS_WIDTH,
                        CANVAS_HEIGHT,
                    )
                }
        }),
{
    let key = font_key(font_name);
    let data = fonts.font_bytes(key).clone();
    let font = match load_font(key, data) {
        Ok(f) => f,
        Err(e) => return Err(e),
    };
    match render_card(text, fetched, &font) {
        Ok(card) => Ok(card.png),
        Err(e) => Err(e),
    }
}

} // verus!
