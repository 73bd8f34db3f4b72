//! The scale-adaptive resize pipeline: decoding, staged downsizing, and the
//! conversion to the pixel buffer the rest of the system consumes.
use vstd::prelude::*;

verus! {

#[verifier::external_type_specification]
#[verifier::external_body]
pub struct ExDynamicImage(image::DynamicImage);

/// What image::DynamicImage::width and image::DynamicImage::height return
/// for a value: its true dimensions.  They are fixed per value; the name
/// lets contracts tie buffer sizes to the value itself, not merely to
/// recorded copies of the numbers.
pub uninterp spec fn image_dims(img: image::DynamicImage) -> (nat, nat);

/// A decoded image: the decoder's value, together with its dimensions as
/// plain numbers the contracts can speak of.
pub struct DecodedImage {
    pub img: image::DynamicImage,
    pub width: u32,
    pub height: u32,
}

impl DecodedImage {
    /// The recorded dimensions are the wrapped image's true dimensions.
    /// Every wrapper that constructs a `DecodedImage` establishes this, and
    /// every wrapper whose bounds or buffer lengths depend on the image
    /// requires it.
    pub open spec fn wf(&self) -> bool {
        image_dims(self.img) == (self.width as nat, self.height as nat)
    }
}

/// One RGBA pixel.
#[derive(Clone, Copy, PartialEq, Eq, Structural)]
pub struct Rgba {
    pub r: u8,
    pub g: u8,
    pub b: u8,
    pub a: u8,
}

/// An in-memory thumbnail: dimensions and one RGBA pixel per position.
pub struct PixelBuffer {
    pub width: usize,
    pub height: usize,
    pub pixels: Vec<Rgba>,
}

impl PixelBuffer {
    /// The pixel rows fill the stated dimensions exactly.
    pub open spec fn wf(&self) -> bool {
        self.pixels@.len() == self.width * self.height
    }
}

/// Whether a byte sequence decodes as an image, and at what dimensions.
/// Decoding is deterministic in the bytes alone; stating the codecs
/// themselves is out of scope, so the name pins only that determinism.
pub uninterp spec fn decoded_dims(bytes: Seq<u8>) -> Option<(nat, nat)>;

/// Relies on image::load_from_memory: decode with automatic format
/// detection, deterministically in the input bytes; undecodable input is
/// reported as `None`, never a panic.  The recorded dimensions are the ones
/// the decoder's value reports through width and height.
#[verifier::external_body]
pub fn decode_image(bytes: &[u8]) -> (r: Option<DecodedImage>)
    ensures
        r is Some <==> decoded_dims(bytes@) is Some,
        r is Some ==> (r.unwrap().width as nat, r.unwrap().height as nat) == decoded_dims(
            bytes@,
        ).unwrap(),
        r is Some ==> image_dims(r.unwrap().img) == (
            r.unwrap().width as nat,
            r.unwrap().height as nat,
        ),
{
    match image::load_from_memory(bytes) {
        Ok(img) => {
            let width = img.width();
            let height = img.height();
            Some(DecodedImage { img, width, height })
        },
        Err(_) => None,
    }
}

/// Relies on image::DynamicImage::resize_exact: the result has exactly the
/// requested dimensions, not preserving aspect ratio.  The bounds — stated
/// over the image's true width via `wf` — keep the crate's internal buffer
/// allocations from overflowing their length checks.
#[verifier::external_body]
fn resize_image(src: &DecodedImage, w: u32, h: u32, fast: bool) -> (r: DecodedImage)
    requires
        src.wf(),
        w >= 1,
        h >= 1,
        (src.width as nat) * (h as nat) * 4 <= usize::MAX as nat,
        (w as nat) * (h as nat) * 4 <= usize::MAX as nat,
    ensures
        image_dims(r.img) == (w as nat, h as nat),
        r.width == w,
        r.height == h,
{
    let filter = if fast {
        image::imageops::FilterType::Nearest
    } else {
        image::imageops::FilterType::Triangle
    };
    let img = src.img.resize_exact(w, h, filter);
    DecodedImage { img, width: w, height: h }
}

/// Relies on image::DynamicImage::to_rgba8 keeping the image's dimensions
/// and on image::ImageBuffer::into_raw: the raw buffer holds the image's
/// true width * height pixels at four bytes each, which `wf` equates with
/// the recorded fields.
#[verifier::external_body]
fn image_rgba_bytes(src: &DecodedImage) -> (r: Vec<u8>)
    requires
        src.wf(),
        (src.width as nat) * (src.height as nat) * 4 <= usize::MAX as nat,
    ensures
        r@.len() == 4 * (src.width as nat) * (src.height as nat),
{
    src.img.to_rgba8().into_raw()
}

/// The PNG encoding of an RGB8 buffer at the given dimensions, or nothing
/// where encoding fails.  Encoding is deterministic in the buffer and
/// dimensions alone; stating the format itself is out of scope, so the name
/// pins only that determinism.
pub uninterp spec fn png_rgb_of(rgb: Seq<u8>, width: nat, height: nat) -> Option<Seq<u8>>;

/// Relies on image::codecs::png::PngEncoder and its ImageEncoder impl:
/// encodes an RGB8 buffer of exactly width * height pixels as PNG bytes,
/// deterministically in its arguments; an encoding failure is reported, not
/// a panic.  The length premise is the encoder's own, which it enforces
/// with an assertion.
#[verifier::external_body]
fn encode_png_rgb(rgb: &Vec<u8>, width: u32, height: u32) -> (r: Option<Vec<u8>>)
    requires
        rgb@.len() == 3 * (width as nat) * (height as nat),
    ensures
        match r {
            Some(b) => png_rgb_of(rgb@, width as nat, height as nat) == Some(b@),
            None => png_rgb_of(rgb@, width as nat, height as nat) is None,
        },
{
    let mut out: Vec<u8> = Vec::new();
    let enc = image::codecs::png::PngEncoder::new(&mut out);
    match image::ImageEncoder::write_image(
        enc,
        rgb.as_slice(),
        width,
        height,
        image::ColorType::Rgb8,
    ) {
        Ok(()) => Some(out),
        Err(_) => None,
    }
}

/// Group a flat RGBA byte buffer into pixels.
fn bytes_to_pixels(bytes: &Vec<u8>, count: usize) -> (r: Vec<Rgba>)
    requires
        bytes@.len() == 4 * count,
    ensures
        r@.len() == count,
        forall|i: int|
            0 <= i < count ==> #[trigger] r@[i] == (Rgba {
                r: bytes@[4 * i],
                g: bytes@[4 * i + 1],
                b: bytes@[4 * i + 2],
                a: bytes@[4 * i + 3],
            }),
{
    // Pins bytes@.len() <= usize::MAX for the index arithmetic below.
    let _blen: usize = bytes.len();
    let mut r: Vec<Rgba> = Vec::new();
    let mut i: usize = 0;
    while i < count
        invariant
            i <= count,
            bytes@.len() == 4 * count,
            bytes@.len() <= usize::MAX,
            r@.len() == i,
            forall|j: int|
                0 <= j < i ==> #[trigger] r@[j] == (Rgba {
                    r: bytes@[4 * j],
                    g: bytes@[4 * j + 1],
                    b: bytes@[4 * j + 2],
                    a: bytes@[4 * j + 3],
                }),
        decreases count - i,
    {
        proof {
            assert(4 * (i as int) + 3 < bytes@.len());
        }
        let b0: usize = 4 * i;
        let px = Rgba {
            r: bytes[b0],
            g: bytes[4 * i + 1],
            b: bytes[4 * i + 2],
            a: bytes[4 * i + 3],
        };
        r.push(px);
        i = i + 1;
    }
    r
}

/// Whether a buffer of `a` by `b` four-byte pixels fits a `usize` length.
fn fits_rgba(a: u32, b: u32) -> (r: bool)
    ensures
        r == ((a as nat) * (b as nat) * 4 <= usize::MAX as nat),
{
    proof {
        assert((a as u128) * (b as u128) <= 0xffff_ffff_u128 * 0xffff_ffff_u128)
            by (nonlinear_arith)
            requires
                a as u128 <= 0xffff_ffff_u128,
                b as u128 <= 0xffff_ffff_u128,
        ;
    }
    let p: u128 = (a as u128) * (b as u128);
    let p4: u128 = p * 4;
    p4 <= usize::MAX as u128
}

/// Whether the machine can hold the buffers of a resize of `w`-wide input to
/// a `size`-square output.
pub open spec fn thumb_fits(w: nat, size: nat) -> bool {
    &&& size >= 1
    &&& w * size * 4 <= usize::MAX as nat
    &&& size * size * 4 <= usize::MAX as nat
}

/// The final pipeline stage: resize to exactly `size` by `size` with the
/// fast filter and hand the pixels out as a buffer.  Returns `None` exactly
/// when the target is zero or a buffer of the involved sizes cannot exist on
/// this machine.
pub fn create_thumbnail_fast(img: &DecodedImage, size: u32) -> (r: Option<PixelBuffer>)
    requires
        img.wf(),
    ensures
        r is Some <==> thumb_fits(img.width as nat, size as nat),
        r is Some ==> {
            &&& r.unwrap().wf()
            &&& r.unwrap().width == size as usize
            &&& r.unwrap().height == size as usize
            &&& r.unwrap().pixels@.len() == (size as nat) * (size as nat)
        },
{
    if size == 0 {
        return None;
    }
    if !fits_rgba(img.width, size) {
        return None;
    }
    if !fits_rgba(size, size) {
        return None;
    }
    let resized = resize_image(img, size, size, true);
    let bytes = image_rgba_bytes(&resized);
    let count: usize = (size as usize) * (size as usize);
    assert(bytes@.len() == 4 * count) by (nonlinear_arith)
        requires
            bytes@.len() == 4 * (size as nat) * (size as nat),
            count == (size as usize) * (size as usize),
            (size as nat) * (size as nat) * 4 <= usize::MAX as nat,
    ;
    let pixels = bytes_to_pixels(&bytes, count);
    Some(PixelBuffer { width: size as usize, height: size as usize, pixels })
}

/// The first (largest) stage of the scale-adaptive plan: images more than 8
/// times the target shrink via 4x the target, more than 4 times via 2x, and
/// anything else goes straight to the target.
pub open spec fn first_stage(w: nat, h: nat, size: nat) -> nat {
    let m = if w > h {
        w
    } else {
        h
    };
    if m <= size {
        size
    } else if m > 8 * size {
        4 * size
    } else if m > 4 * size {
        2 * size
    } else {
        size
    }
}

/// Whether the staged resize of a `w` by `h` image to a `size`-square
/// thumbnail fits this machine's buffers.
pub open spec fn generation_fits(w: nat, h: nat, size: nat) -> bool {
    let t1 = first_stage(w, h, size);
    &&& size >= 1
    &&& t1 <= u32::MAX as nat
    &&& w * t1 * 4 <= usize::MAX as nat
    &&& t1 * t1 * 4 <= usize::MAX as nat
}

/// The scale-adaptive resize of a decoded image to a square thumbnail:
/// already-small images are resized directly; a source more than 8 times the
/// target shrinks in three stages (4x, then 2x with the higher-quality
/// filter, then the target), more than 4 times in two stages, anything else
/// directly.  Succeeds exactly when the required buffers fit the machine,
/// and then the result is exactly `size` by `size`.
pub fn generate_from_image(img: &DecodedImage, size: u32) -> (r: Option<PixelBuffer>)
    requires
        img.wf(),
    ensures
        r is Some <==> generation_fits(img.width as nat, img.height as nat, size as nat),
        r is Some ==> {
            &&& r.unwrap().wf()
            &&& r.unwrap().width == size as usize
            &&& r.unwrap().height == size as usize
            &&& r.unwrap().pixels@.len() == (size as nat) * (size as nat)
        },
{
    if size == 0 {
        return None;
    }
    let m: u32 = if img.width > img.height {
        img.width
    } else {
        img.height
    };
    let t1_wide: u64 = if m <= size {
        size as u64
    } else if (m as u64) > 8 * (size as u64) {
        4 * (size as u64)
    } else if (m as u64) > 4 * (size as u64) {
        2 * (size as u64)
    } else {
        size as u64
    };
    assert(t1_wide == first_stage(img.width as nat, img.height as nat, size as nat));
    if t1_wide > u32::MAX as u64 {
        return None;
    }
    let t1: u32 = t1_wide as u32;
    if !fits_rgba(img.width, t1) {
        return None;
    }
    if !fits_rgba(t1, t1) {
        return None;
    }
    assert(generation_fits(img.width as nat, img.height as nat, size as nat));
    if m <= size {
        let r = create_thumbnail_fast(img, size);
        assert(thumb_fits(img.width as nat, size as nat));
        r
    } else if (m as u64) > 8 * (size as u64) {
        // Three stages: 4x fast, 2x with the better filter, then the target.
        let four: u32 = t1;
        let two: u32 = size * 2;
        proof {
            assert((size as nat) * 2 < (four as nat) * (four as nat) * 4 <= usize::MAX as nat
                && four == 4 * (size as nat)) by (nonlinear_arith)
                requires
                    four as nat == 4 * (size as nat),
                    size >= 1,
                    (four as nat) * (four as nat) * 4 <= usize::MAX as nat,
            ;
        }
        let step1 = resize_image(img, four, four, true);
        proof {
            assert((four as nat) * (two as nat) * 4 <= (four as nat) * (four as nat) * 4
                && (two as nat) * (two as nat) * 4 <= (four as nat) * (four as nat) * 4
                && (two as nat) * (size as nat) * 4 <= (four as nat) * (four as nat) * 4
                && (size as nat) * (size as nat) * 4 <= (four as nat) * (four as nat) * 4)
                by (nonlinear_arith)
                requires
                    four as nat == 4 * (size as nat),
                    two as nat == 2 * (size as nat),
                    size >= 1,
            ;
        }
        let step2 = resize_image(&step1, two, two, false);
        let r = create_thumbnail_fast(&step2, size);
        assert(thumb_fits(step2.width as nat, size as nat));
        r
    } else if (m as u64) > 4 * (size as u64) {
        // Two stages: 2x fast, then the target.
        let two: u32 = t1;
        proof {
            assert((two as nat) * (size as nat) * 4 <= (two as nat) * (two as nat) * 4
                && (size as nat) * (size as nat) * 4 <= (two as nat) * (two as nat) * 4)
                by (nonlinear_arith)
                requires
                    two as nat == 2 * (size as nat),
                    size >= 1,
            ;
        }
        let intermediate = resize_image(img, two, two, true);
        let r = create_thumbnail_fast(&intermediate, size);
        assert(thumb_fits(intermediate.width as nat, size as nat));
        r
    } else {
        let r = create_thumbnail_fast(img, size);
        assert(thumb_fits(img.width as nat, size as nat));
        r
    }
}

/// Decode and resize a source image to a square thumbnail.  Succeeds
/// exactly when the bytes decode and the staged resize fits the machine;
/// undecodable bytes yield nothing — a missing thumbnail, not an error.
pub fn fast_thumbnail_generation(bytes: &[u8], size: u32) -> (r: Option<PixelBuffer>)
    ensures
        r is Some <==> decoded_dims(bytes@) is Some && generation_fits(
            decoded_dims(bytes@).unwrap().0,
            decoded_dims(bytes@).unwrap().1,
            size as nat,
        ),
        r is Some ==> {
            &&& r.unwrap().wf()
            &&& r.unwrap().width == size as usize
            &&& r.unwrap().height == size as usize
        },
{
    match decode_image(bytes) {
        Some(img) => generate_from_image(&img, size),
        None => None,
    }
}

/// Decode a cached thumbnail and bring it to the requested size: a cached
/// file generated at another configured size is still usable.  Undecodable
/// bytes yield nothing.
pub fn load_cached_thumbnail(bytes: &[u8], target_size: u32) -> (r: Option<PixelBuffer>)
    ensures
        r is Some <==> decoded_dims(bytes@) is Some && thumb_fits(
            decoded_dims(bytes@).unwrap().0,
            target_size as nat,
        ),
        r is Some ==> {
            &&& r.unwrap().wf()
            &&& r.unwrap().width == target_size as usize
            &&& r.unwrap().height == target_size as usize
        },
{
    match decode_image(bytes) {
        Some(img) => create_thumbnail_fast(&img, target_size),
        None => None,
    }
}

/// The alpha-dropping projection of a pixel row: three bytes per pixel, in
/// order.
pub open spec fn rgb_projection(pixels: Seq<Rgba>) -> Seq<u8>
    decreases pixels.len(),
{
    if pixels.len() == 0 {
        Seq::empty()
    } else {
        rgb_projection(pixels.drop_last()) + seq![
            pixels.last().r,
            pixels.last().g,
            pixels.last().b,
        ]
    }
}

pub proof fn lemma_rgb_projection_len(pixels: Seq<Rgba>)
    ensures
        rgb_projection(pixels).len() == 3 * pixels.len(),
    decreases pixels.len(),
{
    if pixels.len() == 0 {
    } else {
        lemma_rgb_projection_len(pixels.drop_last());
    }
}

/// Encode a thumbnail as PNG bytes for the cache, dropping the alpha
/// channel: the result is exactly the PNG encoding of the thumbnail's RGB
/// projection at its dimensions.  An encoding failure yields nothing and is
/// not fatal to the caller.
pub fn save_thumbnail_to_cache(thumb: &PixelBuffer) -> (r: Option<Vec<u8>>)
    requires
        thumb.wf(),
        thumb.width <= u32::MAX,
        thumb.height <= u32::MAX,
        (thumb.width as nat) * (thumb.height as nat) * 3 <= usize::MAX as nat,
    ensures
        match r {
            Some(b) => png_rgb_of(
                rgb_projection(thumb.pixels@),
                thumb.width as nat,
                thumb.height as nat,
            ) == Some(b@),
            None => png_rgb_of(
                rgb_projection(thumb.pixels@),
                thumb.width as nat,
                thumb.height as nat,
            ) is None,
        },
{
    let count: usize = thumb.pixels.len();
    let mut rgb: Vec<u8> = Vec::new();
    let mut i: usize = 0;
    proof {
        assert((thumb.width as nat) * (thumb.height as nat) * 3 == 3 * ((thumb.width as nat)
            * (thumb.height as nat))) by (nonlinear_arith);
    }
    while i < count
        invariant
            i <= count,
            count == thumb.pixels@.len(),
            3 * count <= usize::MAX as nat,
            rgb@ == rgb_projection(thumb.pixels@.take(i as int)),
            rgb@.len() == 3 * i,
        decreases count - i,
    {
        proof {
            assert(thumb.pixels@.take(i as int + 1).drop_last() =~= thumb.pixels@.take(i as int));
            assert(thumb.pixels@.take(i as int + 1).last() == thumb.pixels@[i as int]);
        }
        let px = thumb.pixels[i];
        rgb.push(px.r);
        rgb.push(px.g);
        rgb.push(px.b);
        proof {
            assert(rgb@ =~= rgb_projection(thumb.pixels@.take(i as int + 1)));
        }
        i = i + 1;
    }
    proof {
        assert(thumb.pixels@.take(count as int) =~= thumb.pixels@);
        assert(rgb@.len() == 3 * ((thumb.width as nat) * (thumb.height as nat)));
        assert(rgb@.len() == 3 * (thumb.width as nat) * (thumb.height as nat))
            by (nonlinear_arith)
            requires
                rgb@.len() == 3 * ((thumb.width as nat) * (thumb.height as nat)),
        ;
    }
    encode_png_rgb(&rgb, thumb.width as u32, thumb.height as u32)
}

} // verus!
