//! Xcursor images: choosing the frames of the size closest to the one asked
//! for and converting their pixels for upload as RGBA textures.

use vstd::prelude::*;

verus! {

/// One image of an Xcursor file.
#[derive(Debug, Clone)]
pub struct CursorImage {
    /// Nominal size.
    pub size: u32,
    pub width: u32,
    pub height: u32,
    pub xhot: u32,
    pub yhot: u32,
    /// Milliseconds this image is shown in an animation.
    pub delay: u32,
    /// Pixels in file order: each a little-endian 32-bit ARGB value.
    pub pixels: Vec<u8>,
}

/// The mathematical value of a `CursorImage`.
pub struct CursorImageSpec {
    pub size: u32,
    pub width: u32,
    pub height: u32,
    pub xhot: u32,
    pub yhot: u32,
    pub delay: u32,
    pub pixels: Seq<u8>,
}

impl View for CursorImage {
    type V = CursorImageSpec;

    open spec fn view(&self) -> CursorImageSpec {
        CursorImageSpec {
            size: self.size,
            width: self.width,
            height: self.height,
            xhot: self.xhot,
            yhot: self.yhot,
            delay: self.delay,
            pixels: self.pixels@,
        }
    }
}

/// The views of a sequence of images.
pub open spec fn images_view(v: Seq<CursorImage>) -> Seq<CursorImageSpec> {
    v.map_values(|i: CursorImage| i@)
}

/// What the Xcursor parser gives for a file's bytes: its images, or `None`
/// when the file is malformed.
pub uninterp spec fn xcursor_images(data: Seq<u8>) -> Option<Seq<CursorImageSpec>>;

/// An image as the parser accepts it: a size of 1 to 0x7fff pixels each way,
/// the hotspot inside, and four bytes per pixel.
pub open spec fn image_well_formed(i: CursorImageSpec) -> bool {
    &&& 0 < i.width <= 0x7fff
    &&& 0 < i.height <= 0x7fff
    &&& i.xhot <= i.width
    &&& i.yhot <= i.height
    &&& i.pixels.len() == 4 * i.width * i.height
}

/// `xcursor::parser::parse_xcursor`: its result is named by `xcursor_images`
/// of the bytes; each image it returns passed the parser's checks (size,
/// hotspot, pixel count). The pixels are kept in file order (`pixels_rgba`).
#[verifier::external_body]
fn parse_xcursor(data: &[u8]) -> (r: Option<Vec<CursorImage>>)
    ensures
        match r {
            Some(v) => xcursor_images(data@) == Some(images_view(v@))
                && forall|k: int| 0 <= k < v@.len() ==> image_well_formed(#[trigger] v@[k]@),
            None => xcursor_images(data@) is None,
        },
{
    xcursor::parser::parse_xcursor(data).map(|images| {
        images.into_iter().map(|img| CursorImage {
            size: img.size,
            width: img.width,
            height: img.height,
            xhot: img.xhot,
            yhot: img.yhot,
            delay: img.delay,
            pixels: img.pixels_rgba,
        }).collect()
    })
}

/// Distance between a nominal size and the requested one.
pub open spec fn size_distance(s: u32, requested: u32) -> int {
    if s >= requested {
        s - requested
    } else {
        requested - s
    }
}

/// The nominal size closest to the requested one, the first of equally
/// close ones; the requested size when there are none.
pub open spec fn best_size(sizes: Seq<u32>, requested: u32) -> u32
    decreases sizes.len(),
{
    if sizes.len() == 0 {
        requested
    } else if sizes.len() == 1 {
        sizes[0]
    } else {
        let b = best_size(sizes.drop_last(), requested);
        if size_distance(sizes.last(), requested) < size_distance(b, requested) {
            sizes.last()
        } else {
            b
        }
    }
}

/// The nominal sizes of the images.
pub open spec fn sizes_of(images: Seq<CursorImageSpec>) -> Seq<u32> {
    images.map_values(|i: CursorImageSpec| i.size)
}

/// The best size is one of the sizes, and none is strictly closer.
pub proof fn lemma_best_size(sizes: Seq<u32>, requested: u32)
    requires
        sizes.len() > 0,
    ensures
        sizes.contains(best_size(sizes, requested)),
        forall|k: int| 0 <= k < sizes.len() ==> size_distance(best_size(sizes, requested), requested) <= size_distance(#[trigger] sizes[k], requested),
    decreases sizes.len(),
{
    if sizes.len() > 1 {
        let init = sizes.drop_last();
        lemma_best_size(init, requested);
        let b = best_size(init, requested);
        let j = choose|j: int| 0 <= j < init.len() && init[j] == b;
        assert(sizes[j] == b);
        assert forall|k: int| 0 <= k < sizes.len() implies size_distance(best_size(sizes, requested), requested) <= size_distance(#[trigger] sizes[k], requested) by {
            if k < sizes.len() - 1 {
                assert(sizes[k] == init[k]);
            }
        }
    } else {
        assert(sizes[0] == best_size(sizes, requested));
    }
}

/// Chooses the nominal size closest to `requested` among the images.
pub fn pick_best_size(images: &Vec<CursorImage>, requested: u32) -> (r: u32)
    ensures
        r == best_size(sizes_of(images_view(images@)), requested),
{
    let ghost sizes = sizes_of(images_view(images@));
    let n = images.len();
    if n == 0 {
        return requested;
    }
    let mut best = images[0].size;
    assert(sizes.take(1) =~= seq![sizes[0]]);
    for i in 1..n
        invariant
            n == images@.len(),
            n >= 1,
            sizes == sizes_of(images_view(images@)),
            sizes.len() == n,
            best == best_size(sizes.take(i as int), requested),
    {
        let s = images[i].size;
        assert(sizes[i as int] == s);
        assert(sizes.take(i + 1).drop_last() =~= sizes.take(i as int));
        let d_new: u32 = if s >= requested { s - requested } else { requested - s };
        let d_best: u32 = if best >= requested { best - requested } else { requested - best };
        if d_new < d_best {
            best = s;
        }
    }
    assert(sizes.take(n as int) =~= sizes);
    best
}

/// Byte `k` of the RGBA form of little-endian ARGB pixels: each pixel's
/// bytes [B, G, R, A] become [R, G, B, A].
pub open spec fn rgba_byte(px: Seq<u8>, k: int) -> u8 {
    let p = k / 4;
    let c = k % 4;
    if c == 0 {
        px[4 * p + 2]
    } else if c == 1 {
        px[4 * p + 1]
    } else if c == 2 {
        px[4 * p]
    } else {
        px[4 * p + 3]
    }
}

/// The RGBA bytes of little-endian ARGB pixels (whole pixels only).
pub open spec fn rgba_of(px: Seq<u8>) -> Seq<u8> {
    Seq::new((4 * (px.len() / 4)) as nat, |k: int| rgba_byte(px, k))
}

/// Converts little-endian ARGB pixels to RGBA bytes, the order a texture of
/// format ABGR8888 expects in memory.
pub fn argb_to_rgba(px: &Vec<u8>) -> (r: Vec<u8>)
    ensures
        r@ == rgba_of(px@),
{
    let len = px.len();
    let n = len / 4;
    assert(4 * n <= len) by (nonlinear_arith)
        requires n == len / 4;
    let mut out: Vec<u8> = Vec::new();
    let mut p: usize = 0;
    while p < n
        invariant
            n == px@.len() / 4,
            4 * n <= len,
            len == px@.len(),
            p <= n,
            out@.len() == 4 * p,
            forall|k: int| 0 <= k < out@.len() ==> #[trigger] out@[k] == rgba_byte(px@, k),
        decreases n - p,
    {
        let base = 4 * p;
        let b = px[base];
        let g = px[base + 1];
        let r = px[base + 2];
        let a = px[base + 3];
        out.push(r);
        out.push(g);
        out.push(b);
        out.push(a);
        assert forall|k: int| 0 <= k < out@.len() implies #[trigger] out@[k] == rgba_byte(px@, k) by {
            if k >= 4 * p {
                assert(k / 4 == p);
                assert(k % 4 == k - 4 * p);
            }
        }
        p = p + 1;
    }
    assert(out@ =~= rgba_of(px@));
    out
}

/// One cursor frame, ready to upload: its size, hotspot, delay and RGBA bytes.
#[derive(Debug, Clone)]
pub struct CursorFrameData {
    pub width: i32,
    pub height: i32,
    pub hotspot_x: i32,
    pub hotspot_y: i32,
    /// Milliseconds this frame is shown (0 = static).
    pub delay_ms: u32,
    pub rgba: Vec<u8>,
}

/// The mathematical value of a `CursorFrameData`.
pub struct FrameSpec {
    pub width: i32,
    pub height: i32,
    pub hotspot_x: i32,
    pub hotspot_y: i32,
    pub delay_ms: u32,
    pub rgba: Seq<u8>,
}

impl View for CursorFrameData {
    type V = FrameSpec;

    open spec fn view(&self) -> FrameSpec {
        FrameSpec {
            width: self.width,
            height: self.height,
            hotspot_x: self.hotspot_x,
            hotspot_y: self.hotspot_y,
            delay_ms: self.delay_ms,
            rgba: self.rgba@,
        }
    }
}

/// The frame that an image becomes.
pub open spec fn frame_of(i: CursorImageSpec) -> FrameSpec {
    FrameSpec {
        width: i.width as i32,
        height: i.height as i32,
        hotspot_x: i.xhot as i32,
        hotspot_y: i.yhot as i32,
        delay_ms: i.delay,
        rgba: rgba_of(i.pixels),
    }
}

/// The frames of the images of nominal size `size`, in file order.
pub open spec fn frames_of_size(images: Seq<CursorImageSpec>, size: u32) -> Seq<FrameSpec>
    decreases images.len(),
{
    if images.len() == 0 {
        Seq::<FrameSpec>::empty()
    } else {
        let init = frames_of_size(images.drop_last(), size);
        if images.last().size == size {
            init.push(frame_of(images.last()))
        } else {
            init
        }
    }
}

/// The frames a cursor file gives for a requested size: those of the
/// closest nominal size; `None` when the file is malformed or has no image.
pub open spec fn cursor_frames(data: Seq<u8>, requested: u32) -> Option<Seq<FrameSpec>> {
    match xcursor_images(data) {
        None => None,
        Some(images) => if images.len() == 0 {
            None
        } else {
            Some(frames_of_size(images, best_size(sizes_of(images), requested)))
        },
    }
}

/// Parses an Xcursor file and prepares the frames of the size closest to
/// `requested` for upload.
pub fn prepare_cursor_frames(data: &[u8], requested: u32) -> (r: Option<Vec<CursorFrameData>>)
    ensures
        match r {
            Some(v) => cursor_frames(data@, requested) == Some(v@.map_values(|f: CursorFrameData| f@)),
            None => cursor_frames(data@, requested) is None,
        },
{
    let images = match parse_xcursor(data) {
        Some(v) => v,
        None => return None,
    };
    if images.len() == 0 {
        return None;
    }
    let best = pick_best_size(&images, requested);
    let ghost iv = images_view(images@);
    let mut frames: Vec<CursorFrameData> = Vec::new();
    let n = images.len();
    assert(iv.take(0) =~= Seq::<CursorImageSpec>::empty());
    assert(frames@.map_values(|f: CursorFrameData| f@) =~= Seq::<FrameSpec>::empty());
    for i in 0..n
        invariant
            n == images@.len(),
            iv == images_view(images@),
            frames@.map_values(|f: CursorFrameData| f@) == frames_of_size(iv.take(i as int), best),
    {
        let img = &images[i];
        assert(iv[i as int] == img@);
        assert(iv.take(i + 1).drop_last() =~= iv.take(i as int));
        assert(iv.take(i + 1).last() == img@);
        if img.size == best {
            let frame = CursorFrameData {
                width: img.width as i32,
                height: img.height as i32,
                hotspot_x: img.xhot as i32,
                hotspot_y: img.yhot as i32,
                delay_ms: img.delay,
                rgba: argb_to_rgba(&img.pixels),
            };
            let ghost before = frames@;
            frames.push(frame);
            assert(frames@.map_values(|f: CursorFrameData| f@) =~= before.map_values(|f: CursorFrameData| f@).push(frame@));
        }
    }
    assert(iv.take(n as int) =~= iv);
    Some(frames)
}

/// Whether loading a cursor that a theme lacks falls back to the "default"
/// theme: it does unless the theme already was "default".
pub fn falls_back_to_default(theme: &str) -> (r: bool)
    ensures
        r == (theme@ != "default"@),
{
    let t = crate::text::chars_of(theme);
    !crate::text::chars_eq_str(t.as_slice(), "default")
}

} // verus!
