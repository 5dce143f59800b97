use crate::canvas::{byte_index, chan_of, col_of, row_of, Canvas};
use crate::glyphs::height_of;
use ab_glyph::{FontArc, PxScale};
use image::{imageops, DynamicImage, ImageBuffer, ImageError, ImageFormat, Rgba};
use imageproc::drawing::draw_text_mut;
use std::io::Cursor;
use vstd::prelude::*;

verus! {

#[verifier::external_type_specification]
#[verifier::external_body]
pub struct ExDynamicImage(DynamicImage);

#[verifier::external_type_specification]
#[verifier::external_body]
pub struct ExImageError(ImageError);

/// Widest span, in pixels, over which text is handed to the rasterizer: all
/// glyph positions then stay far inside `i32`.
pub const DRAW_SPAN: u32 = 0x0400_0000;

/// Farthest distance from the canvas origin at which a line is drawn.
pub const DRAW_REACH: i32 = 0x0010_0000;

/// The image that `bytes` decode to, if they hold one in a known format.
pub uninterp spec fn decoded(bytes: Seq<u8>) -> Option<DynamicImage>;

/// Width, height and RGBA bytes of `img` converted to 8-bit RGBA.
pub uninterp spec fn rgba_of(img: DynamicImage) -> (u32, u32, Seq<u8>);

/// RGBA bytes of a `w` by `h` picture resampled to `nw` by `nh` with the
/// Lanczos3 filter.
pub uninterp spec fn lanczos_of(pixels: Seq<u8>, w: u32, h: u32, nw: u32, nh: u32) -> Seq<u8>;

/// RGBA bytes of a `w` by `h` canvas after `text` is drawn on it in opaque
/// white with its top-left at (x, y), `px` pixels per em, in `font`.
pub uninterp spec fn text_drawn(
    font: FontArc,
    pixels: Seq<u8>,
    w: u32,
    h: u32,
    text: Seq<char>,
    x: i32,
    y: i32,
    px: u16,
) -> Seq<u8>;

/// The PNG encoding of a `w` by `h` RGBA picture.
pub uninterp spec fn png_of(pixels: Seq<u8>, w: u32, h: u32) -> Seq<u8>;

/// Text of `n` characters at `px` pixels per em in a font `em` units high
/// stays within `DRAW_SPAN` pixels, counting for each character its advance,
/// a kerning step and its outline's reach (each under 2^17 font units).
pub open spec fn within_draw_span(n: nat, px: nat, em: nat) -> bool {
    em > 0 && (n + 1) * 131072 * px <= DRAW_SPAN * em
}

/// Relies on `image::load_from_memory`: detects the format from the bytes and
/// decodes them; the result depends on the bytes alone.
#[verifier::external_body]
pub(crate) fn decode_image(bytes: &[u8]) -> (r: Result<DynamicImage, ImageError>)
    ensures
        r is Ok <==> decoded(bytes@) is Some,
        r matches Ok(img) ==> decoded(bytes@) == Some(img),
{
    image::load_from_memory(bytes)
}

/// Relies on `DynamicImage::to_rgba8`: the image as 8-bit RGBA, in a buffer of
/// at least four bytes per pixel.
#[verifier::external_body]
pub(crate) fn to_canvas(img: &DynamicImage) -> (r: Canvas)
    ensures
        (r.width, r.height, r.pixels@) == rgba_of(*img),
        r.pixels@.len() >= 4 * (r.width as int) * (r.height as int),
{
    let rgba = img.to_rgba8();
    Canvas { width: rgba.width(), height: rgba.height(), pixels: rgba.into_raw() }
}

/// Relies on `imageops::resize` with the Lanczos3 filter: an image of exactly
/// `w` by `h` pixels, in a new buffer of that size.
#[verifier::external_body]
pub(crate) fn resize_lanczos(src: &Canvas, w: u32, h: u32) -> (r: Option<Canvas>)
    requires
        4 * (w as int) * (h as int) <= isize::MAX,
    ensures
        src.wf() ==> r is Some,
        r matches Some(c) ==> c.width == w && c.height == h && c.wf() && c.pixels@ == lanczos_of(
            src.pixels@,
            src.width,
            src.height,
            w,
            h,
        ),
{
    let img = ImageBuffer::<Rgba<u8>, &[u8]>::from_raw(src.width, src.height, &src.pixels)?;
    let out = imageops::resize(&img, w, h, imageops::FilterType::Lanczos3);
    Some(Canvas { width: out.width(), height: out.height(), pixels: out.into_raw() })
}

/// Relies on `imageops::crop_imm` and `SubImage::to_image`: a copy of the
/// `w` by `h` region whose top-left pixel is (x, y).
#[verifier::external_body]
pub(crate) fn crop(src: &Canvas, x: u32, y: u32, w: u32, h: u32) -> (r: Option<Canvas>)
    requires
        x + w <= src.width,
        y + h <= src.height,
    ensures
        src.wf() ==> r is Some,
        r matches Some(c) ==> {
            &&& c.width == w
            &&& c.height == h
            &&& c.wf()
            &&& forall|i: int|
                0 <= i < c.pixels@.len() ==> #[trigger] c.pixels@[i] == src.pixels@[byte_index(
                    src.width as int,
                    x + col_of(w as int, i),
                    y + row_of(w as int, i),
                    chan_of(i),
                )]
        },
{
    let img = ImageBuffer::<Rgba<u8>, Vec<u8>>::from_raw(src.width, src.height, src.pixels.clone())?;
    let out = imageops::crop_imm(&img, x, y, w, h).to_image();
    Some(Canvas { width: out.width(), height: out.height(), pixels: out.into_raw() })
}

/// Relies on `imageproc::drawing::draw_text_mut`: draws `text` in opaque white
/// with its top-left at (x, y), clipped to the canvas. Its glyph positions are
/// sums of `x` or `y` and pixel offsets, which the bounds keep inside `i32`.
/// An empty text lays out no glyph and leaves the canvas as it was.
#[verifier::external_body]
pub(crate) fn draw_text_white(
    canvas: &mut Canvas,
    font: &FontArc,
    text: &str,
    x: i32,
    y: i32,
    px: u16,
)
    requires
        old(canvas).wf(),
        -DRAW_REACH <= x <= DRAW_REACH,
        -DRAW_REACH <= y <= DRAW_REACH,
        within_draw_span(text@.len(), px as nat, height_of(*font) as nat),
    ensures
        final(canvas).width == old(canvas).width,
        final(canvas).height == old(canvas).height,
        final(canvas).pixels@.len() == old(canvas).pixels@.len(),
        text@.len() == 0 ==> final(canvas).pixels@ == old(canvas).pixels@,
        final(canvas).pixels@ == text_drawn(
            *font,
            old(canvas).pixels@,
            old(canvas).width,
            old(canvas).height,
            text@,
            x,
            y,
            px,
        ),
{
    let (w, h) = (canvas.width, canvas.height);
    if let Some(mut img) = ImageBuffer::<Rgba<u8>, &mut [u8]>::from_raw(w, h, &mut canvas.pixels) {
        let scale = PxScale { x: px.into(), y: px.into() };
        draw_text_mut(&mut img, Rgba([255, 255, 255, 255]), x, y, scale, font, text);
    }
}

/// Relies on `ImageBuffer::write_to` with `ImageFormat::Png`: the canvas
/// encoded losslessly as PNG; the PNG encoder refuses only a zero width or
/// height.
#[verifier::external_body]
pub(crate) fn encode_png(canvas: &Canvas) -> (r: Option<Result<Vec<u8>, ImageError>>)
    ensures
        canvas.wf() ==> r is Some,
        canvas.wf() && canvas.width > 0 && canvas.height > 0 ==> r matches Some(Ok(_)),
        r matches Some(Ok(b)) ==> b@ == png_of(canvas.pixels@, canvas.width, canvas.height),
{
    let img = ImageBuffer::<Rgba<u8>, &[u8]>::from_raw(canvas.width, canvas.height, &canvas.pixels)?;
    let mut out: Vec<u8> = Vec::new();
    Some(img.write_to(&mut Cursor::new(&mut out), ImageFormat::Png).map(|_| out))
}

} // verus!
