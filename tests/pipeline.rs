use og_image::canvas::{apply_overlay, cover_size, create_gradient_background, Canvas};
use og_image::render::{
    background_from, encode_card, fit_cover, generate_og_image, photo_from, FontFiles,
    RenderError,
};
use og_image::text::FontKey;
use std::io::Cursor;

fn png_of(w: u32, h: u32, rgba: [u8; 4]) -> Vec<u8> {
    let img = image::RgbaImage::from_pixel(w, h, image::Rgba(rgba));
    let mut out = Vec::new();
    img.write_to(&mut Cursor::new(&mut out), image::ImageFormat::Png).unwrap();
    out
}

fn pixel(c: &Canvas, x: u32, y: u32) -> [u8; 4] {
    let i = (4 * (y * c.width + x)) as usize;
    [c.pixels[i], c.pixels[i + 1], c.pixels[i + 2], c.pixels[i + 3]]
}

fn near(a: u8, b: u8) -> bool {
    (a as i32 - b as i32).abs() <= 1
}

#[test]
fn gradient_corners_and_opacity() {
    let c = create_gradient_background(800, 1200);
    assert_eq!((c.width, c.height), (800, 1200));
    assert_eq!(c.pixels.len(), 800 * 1200 * 4);
    let bl = pixel(&c, 0, 1199);
    assert!(near(bl[0], 0x66) && near(bl[1], 0x7e) && near(bl[2], 0xea));
    let tr = pixel(&c, 799, 0);
    assert!(near(tr[0], 0x76) && near(tr[1], 0x4b) && near(tr[2], 0xa2));
    assert!(c.pixels.chunks(4).all(|p| p[3] == 255));
    // ratio 1200 / 2000 at the top-left corner
    assert_eq!(pixel(&c, 0, 0), [111, 95, 190, 255]);
}

#[test]
fn gradient_is_deterministic() {
    let a = create_gradient_background(800, 1200);
    let b = create_gradient_background(800, 1200);
    assert_eq!(a.pixels, b.pixels);
    let small = create_gradient_background(3, 2);
    assert_eq!(small.pixels.len(), 24);
}

#[test]
fn overlay_darkens_more_towards_bottom() {
    let mut c = Canvas { width: 1, height: 2, pixels: vec![200, 100, 50, 7, 200, 100, 50, 7] };
    apply_overlay(&mut c);
    assert_eq!(c.pixels, vec![140, 70, 35, 255, 100, 50, 25, 255]);
    let mut tall = Canvas { width: 1, height: 1200, pixels: vec![255; 4800] };
    apply_overlay(&mut tall);
    let mut last = 255;
    for y in 0..1200 {
        let v = tall.pixels[4 * y];
        assert!(v <= last);
        last = v;
        assert_eq!(tall.pixels[4 * y + 3], 255);
    }
    assert_eq!(tall.pixels[0], 178);
}

#[test]
fn cover_sizes() {
    assert_eq!(cover_size(1600, 1200, 800, 1200), (1600, 1200));
    assert_eq!(cover_size(800, 2400, 800, 1200), (800, 2400));
    assert_eq!(cover_size(400, 600, 800, 1200), (800, 1200));
    assert_eq!(cover_size(100, 300, 800, 1200), (800, 2400));
    assert_eq!(cover_size(1000, 1000, 800, 1200), (1200, 1200));
}

#[test]
fn fit_cover_gives_card_size() {
    let src = Canvas { width: 100, height: 300, pixels: vec![9; 100 * 300 * 4] };
    let c = fit_cover(&src).unwrap();
    assert_eq!((c.width, c.height), (800, 1200));
    assert_eq!(c.pixels.len(), 800 * 1200 * 4);
    let empty = Canvas { width: 0, height: 5, pixels: vec![] };
    assert!(fit_cover(&empty).is_none());
}

#[test]
fn photo_from_decodes_and_fits() {
    let c = photo_from(&png_of(300, 100, [10, 20, 30, 255])).unwrap();
    assert_eq!((c.width, c.height), (800, 1200));
    assert!(photo_from(b"not an image").is_none());
}

#[test]
fn no_url_uses_plain_gradient() {
    let bg = background_from(None);
    assert!(!bg.from_image);
    assert_eq!(bg.canvas.pixels, create_gradient_background(800, 1200).pixels);
}

#[test]
fn failed_fetch_falls_back_to_gradient() {
    // What a failed download hands over: nothing, or an error page.
    let bg = background_from(Some(b"<html>404 Not Found</html>"));
    assert!(!bg.from_image);
    assert_eq!(bg.canvas.pixels, create_gradient_background(800, 1200).pixels);
}

#[test]
fn picture_background_is_fitted_and_darkened() {
    let bg = background_from(Some(&png_of(200, 100, [200, 200, 200, 128])));
    assert!(bg.from_image);
    assert_eq!((bg.canvas.width, bg.canvas.height), (800, 1200));
    assert!(bg.canvas.pixels.chunks(4).all(|p| p[3] == 255));
    let top = pixel(&bg.canvas, 400, 0);
    let bottom = pixel(&bg.canvas, 400, 1199);
    assert_eq!(top[0], 140);
    assert!(bottom[0] < top[0]);
}

#[test]
fn encoded_card_decodes_to_opaque_card() {
    let png = encode_card(&background_from(None).canvas).unwrap();
    assert_eq!(&png[..8], &[0x89, b'P', b'N', b'G', 0x0d, 0x0a, 0x1a, 0x0a]);
    let back = image::load_from_memory(&png).unwrap().to_rgba8();
    assert_eq!(back.dimensions(), (800, 1200));
    assert!(back.pixels().all(|p| p[3] == 255));
    let dark = encode_card(&background_from(Some(&png_of(50, 50, [1, 2, 3, 4]))).canvas).unwrap();
    let back = image::load_from_memory(&dark).unwrap().to_rgba8();
    assert_eq!(back.dimensions(), (800, 1200));
    assert!(back.pixels().all(|p| p[3] == 255));
}

#[test]
fn unknown_font_name_selects_default_font() {
    let fonts = FontFiles { kanit: vec![1, 2, 3], noto_sans_thai: vec![4, 5, 6] };
    let r = generate_og_image("Hello", None, "xyz", &fonts);
    assert_eq!(r, Err(RenderError::FontLoad(FontKey::NotoSansThai)));
    let r = generate_og_image("Hello", None, "kanit", &fonts);
    assert_eq!(r, Err(RenderError::FontLoad(FontKey::Kanit)));
}

#[test]
fn error_messages() {
    assert_eq!(RenderError::FontLoad(FontKey::Kanit).message(), "Failed to load Kanit font");
    assert_eq!(
        RenderError::FontLoad(FontKey::NotoSansThai).message(),
        "Failed to load Noto Sans Thai font"
    );
    assert_eq!(RenderError::Encode.message(), "Failed to encode image");
}
