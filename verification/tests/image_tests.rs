use vinland::cursor::{argb_to_rgba, falls_back_to_default, pick_best_size, prepare_cursor_frames, CursorImage};
use vinland::wallpaper::{decode_wallpaper, wallpaper_from_decoded};

fn le(v: u32) -> [u8; 4] {
    v.to_le_bytes()
}

/// An Xcursor file whose images are given as (nominal size, width, height,
/// xhot, yhot, delay, pixel bytes).
fn xcursor_file(images: &[(u32, u32, u32, u32, u32, u32, Vec<u8>)]) -> Vec<u8> {
    let mut out = Vec::new();
    out.extend_from_slice(b"Xcur");
    out.extend_from_slice(&le(16));
    out.extend_from_slice(&le(0x10000));
    out.extend_from_slice(&le(images.len() as u32));
    let mut pos = 16 + 12 * images.len() as u32;
    for img in images {
        out.extend_from_slice(&le(0xfffd_0002));
        out.extend_from_slice(&le(img.0));
        out.extend_from_slice(&le(pos));
        pos += 36 + img.6.len() as u32;
    }
    for img in images {
        out.extend_from_slice(&le(36));
        out.extend_from_slice(&le(0xfffd_0002));
        out.extend_from_slice(&le(img.0));
        out.extend_from_slice(&le(1));
        out.extend_from_slice(&le(img.1));
        out.extend_from_slice(&le(img.2));
        out.extend_from_slice(&le(img.3));
        out.extend_from_slice(&le(img.4));
        out.extend_from_slice(&le(img.5));
        out.extend_from_slice(&img.6);
    }
    out
}

fn image(size: u32) -> CursorImage {
    CursorImage { size, width: 1, height: 1, xhot: 0, yhot: 0, delay: 0, pixels: vec![0, 0, 0, 0] }
}

#[test]
fn best_size_is_the_closest_first_on_ties() {
    let imgs = vec![image(16), image(32), image(48), image(24)];
    assert_eq!(pick_best_size(&imgs, 30), 32);
    assert_eq!(pick_best_size(&imgs, 20), 16);
    assert_eq!(pick_best_size(&imgs, 100), 48);
    assert_eq!(pick_best_size(&vec![], 24), 24);
}

#[test]
fn pixels_swap_blue_and_red() {
    assert_eq!(argb_to_rgba(&vec![1, 2, 3, 4, 10, 20, 30, 40]), vec![3, 2, 1, 4, 30, 20, 10, 40]);
    assert_eq!(argb_to_rgba(&vec![1, 2, 3, 4, 5]), vec![3, 2, 1, 4]);
    assert_eq!(argb_to_rgba(&vec![]), Vec::<u8>::new());
}

#[test]
fn cursor_frames_of_the_closest_size() {
    let data = xcursor_file(&[
        (24, 1, 1, 0, 0, 50, vec![1, 2, 3, 4]),
        (32, 2, 1, 1, 0, 70, vec![5, 6, 7, 8, 9, 10, 11, 12]),
        (24, 1, 1, 1, 1, 60, vec![13, 14, 15, 16]),
    ]);
    let frames = prepare_cursor_frames(&data, 25).unwrap();
    assert_eq!(frames.len(), 2);
    assert_eq!((frames[0].width, frames[0].height, frames[0].hotspot_x, frames[0].hotspot_y), (1, 1, 0, 0));
    assert_eq!(frames[0].delay_ms, 50);
    assert_eq!(frames[0].rgba, vec![3, 2, 1, 4]);
    assert_eq!(frames[1].delay_ms, 60);
    assert_eq!((frames[1].hotspot_x, frames[1].hotspot_y), (1, 1));
    assert_eq!(frames[1].rgba, vec![15, 14, 13, 16]);
    let big = prepare_cursor_frames(&data, 40).unwrap();
    assert_eq!(big.len(), 1);
    assert_eq!((big[0].width, big[0].height), (2, 1));
    assert_eq!(big[0].rgba, vec![7, 6, 5, 8, 11, 10, 9, 12]);
}

#[test]
fn cursor_file_errors() {
    assert!(prepare_cursor_frames(b"not a cursor", 24).is_none());
    assert!(prepare_cursor_frames(&xcursor_file(&[]), 24).is_none());
    // hotspot outside the image
    assert!(prepare_cursor_frames(&xcursor_file(&[(24, 1, 1, 2, 0, 0, vec![0, 0, 0, 0])]), 24).is_none());
}

#[test]
fn fallback_theme() {
    assert!(falls_back_to_default("Adwaita"));
    assert!(!falls_back_to_default("default"));
}

#[test]
fn wallpaper_png_is_decoded_to_rgba() {
    let raw = vec![255u8, 0, 0, 255, 0, 255, 0, 128];
    let img = image::RgbaImage::from_raw(2, 1, raw.clone()).unwrap();
    let mut bytes = std::io::Cursor::new(Vec::new());
    img.write_to(&mut bytes, image::ImageFormat::Png).unwrap();
    let w = decode_wallpaper(&bytes.into_inner()).unwrap();
    assert_eq!((w.width, w.height), (2, 1));
    assert_eq!(w.rgba, raw);
}

#[test]
fn wallpaper_garbage_is_rejected() {
    assert!(decode_wallpaper(&b"definitely not an image".to_vec()).is_none());
    assert!(decode_wallpaper(&vec![]).is_none());
}

#[test]
fn wallpaper_size_is_taken_as_i32() {
    let w = wallpaper_from_decoded(Some((3, 4, vec![1, 2]))).unwrap();
    assert_eq!((w.width, w.height, w.rgba), (3, 4, vec![1, 2]));
    let wrapped = wallpaper_from_decoded(Some((u32::MAX, 1, vec![]))).unwrap();
    assert_eq!(wrapped.width, -1);
    assert!(wallpaper_from_decoded(None).is_none());
}
