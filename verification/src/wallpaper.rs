//! The wallpaper: decoding the configured image into RGBA pixels ready to be
//! imported as a texture.

use vstd::prelude::*;

verus! {

/// A decoded wallpaper: its size in pixels and its RGBA bytes.
#[derive(Debug, Clone)]
pub struct WallpaperPixels {
    pub width: i32,
    pub height: i32,
    pub rgba: Vec<u8>,
}

/// What the image crate gives for a file's bytes, with the format guessed
/// from the contents and the result converted to 8-bit RGBA: its width, its
/// height and its raw RGBA bytes, or `None` when it cannot be decoded.
pub uninterp spec fn decoded_rgba8(bytes: Seq<u8>) -> Option<(u32, u32, Seq<u8>)>;

/// Calls `image::load_from_memory` (which guesses the format from the bytes
/// and decodes them) and converts the image with `into_rgba8`; the result is
/// `decoded_rgba8` of the bytes. Nothing is stated of the length of the raw
/// bytes: the crate keeps it as `4 * width * height`, but no clause here says so.
#[verifier::external_body]
fn decode_rgba8(bytes: &[u8]) -> (r: Option<(u32, u32, Vec<u8>)>)
    ensures
        match r {
            Some(t) => decoded_rgba8(bytes@) == Some((t.0, t.1, t.2@)),
            None => decoded_rgba8(bytes@) is None,
        },
{
    match image::load_from_memory(bytes) {
        Ok(img) => {
            let rgba = img.into_rgba8();
            let (w, h) = rgba.dimensions();
            Some((w, h, rgba.into_raw()))
        },
        Err(_) => None,
    }
}

/// The wallpaper made of a decoding result: the size taken as `i32` (as a
/// texture size is given), the bytes as they are.
pub open spec fn wallpaper_of(decoded: Option<(u32, u32, Seq<u8>)>) -> Option<(i32, i32, Seq<u8>)> {
    match decoded {
        Some((w, h, raw)) => Some((w as i32, h as i32, raw)),
        None => None,
    }
}

/// The spec value of an optional wallpaper.
pub open spec fn wallpaper_view(w: Option<WallpaperPixels>) -> Option<(i32, i32, Seq<u8>)> {
    match w {
        Some(p) => Some((p.width, p.height, p.rgba@)),
        None => None,
    }
}

/// Turns a decoding result into the wallpaper to upload: `None` stays
/// `None` (the wallpaper is left out), a decoded image keeps its bytes and
/// has its size taken as `i32`.
pub fn wallpaper_from_decoded(decoded: Option<(u32, u32, Vec<u8>)>) -> (r: Option<WallpaperPixels>)
    ensures
        wallpaper_view(r) == wallpaper_of(
            match decoded {
                Some(t) => Some((t.0, t.1, t.2@)),
                None => None,
            },
        ),
{
    match decoded {
        Some((w, h, raw)) => {
            #[verifier::truncate]
            let width = w as i32;
            #[verifier::truncate]
            let height = h as i32;
            Some(WallpaperPixels { width, height, rgba: raw })
        },
        None => None,
    }
}

/// Decodes the bytes of a wallpaper file. Gives `None` when the image
/// cannot be decoded; otherwise its RGBA pixels and size.
pub fn decode_wallpaper(bytes: &Vec<u8>) -> (r: Option<WallpaperPixels>)
    ensures
        wallpaper_view(r) == wallpaper_of(decoded_rgba8(bytes@)),
{
    let decoded = decode_rgba8(bytes.as_slice());
    wallpaper_from_decoded(decoded)
}

} // verus!
