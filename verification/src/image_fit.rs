//! Fitting a picture into a budget of bytes: it is scaled down and encoded at falling
//! quality until it fits.
use image::codecs::jpeg::JpegEncoder;
use image::{DynamicImage, ExtendedColorType, ImageError, RgbImage};
use vstd::prelude::*;

verus! {

/// Best quality that is tried.
pub const BEST_QUALITY: u8 = 90;

/// Worst quality that is tried.
pub const WORST_QUALITY: u8 = 10;

/// By how much the quality falls from one try to the next.
pub const QUALITY_STEP: u8 = 5;

/// Longest side of a JPEG picture.
pub const MAX_JPEG_SIDE: u32 = 65535;

/// A picture: three bytes to a pixel, row by row.
#[derive(Debug, Clone, PartialEq, Eq)]
pub struct Picture {
    /// Pixels to a row.
    pub width: u32,
    /// Rows.
    pub height: u32,
    /// Red, green and blue of every pixel.
    pub rgb: Vec<u8>,
}

impl Picture {
    /// The bytes are those of all pixels.
    pub open spec fn wf(self) -> bool {
        self.rgb@.len() == self.width * self.height * 3
    }

    /// A picture of the given bytes; none where their number is not that of its pixels.
    pub fn new(width: u32, height: u32, rgb: Vec<u8>) -> (p: Option<Self>)
        ensures
            match p {
                Some(q) => q.wf() && q.width == width && q.height == height && q.rgb@ == rgb@,
                None => rgb@.len() != width * height * 3,
            },
    {
        assert(width * height <= u32::MAX * u32::MAX) by (nonlinear_arith)
            requires
                0 <= width <= u32::MAX,
                0 <= height <= u32::MAX,
        ;
        if rgb.len() as u128 == width as u128 * height as u128 * 3 {
            Some(Picture { width, height, rgb })
        } else {
            None
        }
    }
}

/// Why a picture was not fitted.
#[derive(Debug, Clone, Copy, PartialEq, Eq, Structural)]
pub enum FitError {
    /// A side is empty or longer than a JPEG picture's can be.
    Encode,
    /// It does not fit even at the worst quality.
    TooLarge {
        /// The budget.
        target_bytes: usize,
    },
}

/// The error of the encoder.
#[verifier::external_type_specification]
#[verifier::external_body]
pub struct ExImageError(image::ImageError);

/// The pixels, width and height that the `image` crate gives for a picture scaled with
/// a triangle filter to fit a square of `max_dim`.
pub uninterp spec fn resized(rgb: Seq<u8>, width: u32, height: u32, max_dim: u32) -> (Seq<u8>, u32, u32);

/// The bytes that the `image` crate's JPEG encoder gives for a picture.
pub uninterp spec fn jpeg(rgb: Seq<u8>, width: u32, height: u32, quality: u8) -> Seq<u8>;

/// The sides can be those of a JPEG picture.
pub open spec fn encodable(width: u32, height: u32) -> bool {
    1 <= width <= MAX_JPEG_SIDE && 1 <= height <= MAX_JPEG_SIDE
}

/// Calls `image::DynamicImage::resize` with the triangle filter and takes the result as
/// eight-bit RGB. Claimed: the result is a function of the pixels, the sides and
/// `max_dim`, and it has three bytes for each of its pixels.
#[verifier::external_body]
fn resize(picture: &Picture, max_dim: u32) -> (r: Picture)
    requires
        picture.wf(),
        max_dim <= MAX_JPEG_SIDE || (picture.width == 0 && picture.height == 0),
    ensures
        r.wf(),
        (r.rgb@, r.width, r.height) == resized(
            picture.rgb@,
            picture.width,
            picture.height,
            max_dim,
        ),
{
    let rgb = RgbImage::from_raw(picture.width, picture.height, picture.rgb.clone()).unwrap();
    let out = DynamicImage::ImageRgb8(rgb).resize(
        max_dim,
        max_dim,
        image::imageops::FilterType::Triangle,
    ).to_rgb8();
    Picture { width: out.width(), height: out.height(), rgb: out.into_raw() }
}

/// Calls `image::codecs::jpeg::JpegEncoder::encode` into a fresh buffer. Claimed: it
/// succeeds exactly where both sides are those of a JPEG picture, the bytes are a
/// function of the pixels, the sides and the quality, and they start with the marker
/// of a JPEG file.
#[verifier::external_body]
fn encode(picture: &Picture, quality: u8) -> (r: Result<Vec<u8>, ImageError>)
    requires
        picture.wf(),
    ensures
        match r {
            Ok(bytes) => {
                &&& encodable(picture.width, picture.height)
                &&& bytes@ == jpeg(picture.rgb@, picture.width, picture.height, quality)
                &&& bytes@.len() >= 2
                &&& bytes@[0] == 0xFF
                &&& bytes@[1] == 0xD8
            },
            Err(_) => !encodable(picture.width, picture.height),
        },
{
    let mut buf = Vec::new();
    let r = JpegEncoder::new_with_quality(&mut buf, quality).encode(
        &picture.rgb,
        picture.width,
        picture.height,
        ExtendedColorType::Rgb8,
    );
    r.map(|()| buf)
}

/// What to do after a try.
#[derive(Debug, Clone, Copy, PartialEq, Eq, Structural)]
pub enum QualityStep {
    /// It fits: keep it.
    Keep,
    /// It does not: try this quality.
    Lower(u8),
    /// It does not, and no worse quality is tried.
    GiveUp,
}

/// What to do after a try at a quality gave so many bytes.
pub open spec fn step_after(quality: u8, encoded_len: int, target_bytes: int) -> QualityStep {
    if encoded_len <= target_bytes {
        QualityStep::Keep
    } else if quality < WORST_QUALITY + QUALITY_STEP {
        QualityStep::GiveUp
    } else {
        QualityStep::Lower((quality - QUALITY_STEP) as u8)
    }
}

/// What to do after a try at a quality gave so many bytes.
pub fn quality_step(quality: u8, encoded_len: usize, target_bytes: usize) -> (s: QualityStep)
    ensures
        s == if encoded_len <= target_bytes {
            QualityStep::Keep
        } else if quality < WORST_QUALITY + QUALITY_STEP {
            QualityStep::GiveUp
        } else {
            QualityStep::Lower((quality - QUALITY_STEP) as u8)
        },
        s == step_after(quality, encoded_len as int, target_bytes as int),
{
    if encoded_len <= target_bytes {
        QualityStep::Keep
    } else if quality < WORST_QUALITY + QUALITY_STEP {
        QualityStep::GiveUp
    } else {
        QualityStep::Lower(quality - QUALITY_STEP)
    }
}

/// The best quality from `quality` down, in steps, at which a picture fits; none where it
/// fits at none.
pub open spec fn best_fit(
    rgb: Seq<u8>,
    width: u32,
    height: u32,
    target_bytes: usize,
    quality: u8,
) -> Option<u8>
    decreases quality,
{
    if jpeg(rgb, width, height, quality).len() <= target_bytes {
        Some(quality)
    } else if quality < WORST_QUALITY + QUALITY_STEP {
        None
    } else {
        best_fit(rgb, width, height, target_bytes, (quality - QUALITY_STEP) as u8)
    }
}

/// What a picture of these pixels is fitted to.
pub open spec fn fitted(rgb: Seq<u8>, width: u32, height: u32, target_bytes: usize) -> Result<
    Seq<u8>,
    FitError,
> {
    if !encodable(width, height) {
        Err(FitError::Encode)
    } else {
        match best_fit(rgb, width, height, target_bytes, BEST_QUALITY) {
            Some(q) => Ok(jpeg(rgb, width, height, q)),
            None => Err(FitError::TooLarge { target_bytes }),
        }
    }
}

/// The result is this one.
pub open spec fn gives(r: Result<Vec<u8>, FitError>, want: Result<Seq<u8>, FitError>) -> bool {
    match (r, want) {
        (Ok(v), Ok(bytes)) => v@ == bytes,
        (Err(e), Err(f)) => e == f,
        _ => false,
    }
}

/// Encode a picture at the best quality at which it fits the budget.
pub fn fit_quality(picture: &Picture, target_bytes: usize) -> (r: Result<Vec<u8>, FitError>)
    requires
        picture.wf(),
    ensures
        gives(r, fitted(picture.rgb@, picture.width, picture.height, target_bytes)),
        r matches Ok(v) ==> {
            &&& 2 <= v@.len() <= target_bytes
            &&& v@[0] == 0xFF
            &&& v@[1] == 0xD8
        },
{
    let mut quality: u8 = BEST_QUALITY;
    loop
        invariant
            picture.wf(),
            encodable(picture.width, picture.height) ==> best_fit(
                picture.rgb@,
                picture.width,
                picture.height,
                target_bytes,
                BEST_QUALITY,
            ) == best_fit(picture.rgb@, picture.width, picture.height, target_bytes, quality),
        decreases quality,
    {
        let encoded = match encode(picture, quality) {
            Ok(bytes) => bytes,
            Err(_) => {
                return Err(FitError::Encode);
            },
        };
        match quality_step(quality, encoded.len(), target_bytes) {
            QualityStep::Keep => {
                return Ok(encoded);
            },
            QualityStep::Lower(q) => {
                quality = q;
            },
            QualityStep::GiveUp => {
                return Err(FitError::TooLarge { target_bytes });
            },
        }
    }
}

/// Scale a picture to fit a square of `max_dim` and encode it at the best quality at
/// which it fits the budget. A square larger than a JPEG picture can be is refused,
/// unless there is nothing to scale up.
pub fn fit_jpeg(picture: &Picture, max_dim: u32, target_bytes: usize) -> (r: Result<
    Vec<u8>,
    FitError,
>)
    requires
        picture.wf(),
    ensures
        if max_dim > MAX_JPEG_SIDE && !(picture.width == 0 && picture.height == 0) {
            r == Err::<Vec<u8>, FitError>(FitError::Encode)
        } else {
            let s = resized(picture.rgb@, picture.width, picture.height, max_dim);
            gives(r, fitted(s.0, s.1, s.2, target_bytes))
        },
        r matches Ok(v) ==> {
            &&& 2 <= v@.len() <= target_bytes
            &&& v@[0] == 0xFF
            &&& v@[1] == 0xD8
        },
{
    if max_dim > MAX_JPEG_SIDE && !(picture.width == 0 && picture.height == 0) {
        return Err(FitError::Encode);
    }
    let scaled = resize(picture, max_dim);
    fit_quality(&scaled, target_bytes)
}

/// The quality that is chosen is the best: a picture fits at none of the better ones
/// that are tried.
pub proof fn better_qualities_do_not_fit(
    rgb: Seq<u8>,
    width: u32,
    height: u32,
    target_bytes: usize,
    start: u8,
    better: u8,
)
    requires
        best_fit(rgb, width, height, target_bytes, start) matches Some(q) ==> better > q,
        better <= start,
        start % QUALITY_STEP == better % QUALITY_STEP,
        better >= WORST_QUALITY,
    ensures
        jpeg(rgb, width, height, better).len() > target_bytes,
    decreases start,
{
    if better < start {
        better_qualities_do_not_fit(
            rgb,
            width,
            height,
            target_bytes,
            (start - QUALITY_STEP) as u8,
            better,
        );
    }
}

/// The qualities that are tried: 90, and each fifth below it down to 10.
pub open spec fn is_tried(q: u8) -> bool {
    10 <= q <= 90 && q % 5 == 0
}

/// The best quality that fits: it is one of those tried, the picture fits the budget at it,
/// and at none better that is tried. Where there is none, the picture fits at none of them.
pub proof fn best_quality_that_fits_is_chosen(
    rgb: Seq<u8>,
    width: u32,
    height: u32,
    target_bytes: usize,
    other: u8,
)
    requires
        is_tried(other),
    ensures
        match best_fit(rgb, width, height, target_bytes, BEST_QUALITY) {
            Some(q) => {
                &&& is_tried(q)
                &&& jpeg(rgb, width, height, q).len() <= target_bytes
                &&& other > q ==> jpeg(rgb, width, height, other).len() > target_bytes
            },
            None => jpeg(rgb, width, height, other).len() > target_bytes,
        },
        BEST_QUALITY == 90,
{
    lemma_chosen_is_tried(rgb, width, height, target_bytes, 90);
    match best_fit(rgb, width, height, target_bytes, 90) {
        Some(q) => {
            if other > q {
                better_qualities_do_not_fit(rgb, width, height, target_bytes, 90, other);
            }
        },
        None => {
            better_qualities_do_not_fit(rgb, width, height, target_bytes, 90, other);
        },
    }
}

proof fn lemma_chosen_is_tried(
    rgb: Seq<u8>,
    width: u32,
    height: u32,
    target_bytes: usize,
    start: u8,
)
    requires
        is_tried(start),
    ensures
        best_fit(rgb, width, height, target_bytes, start) matches Some(q) ==> is_tried(q) && q
            <= start && jpeg(rgb, width, height, q).len() <= target_bytes,
    decreases start,
{
    if jpeg(rgb, width, height, start).len() > target_bytes && start >= 15 {
        lemma_chosen_is_tried(rgb, width, height, target_bytes, (start - 5) as u8);
    }
}

/// What a picture is fitted to: the JPEG of it that fits, and an error that says which of the
/// two things failed.
pub proof fn fitted_picture_fits(rgb: Seq<u8>, width: u32, height: u32, target_bytes: usize)
    ensures
        match fitted(rgb, width, height, target_bytes) {
            Ok(bytes) => encodable(width, height) && bytes.len() <= target_bytes && exists|q: u8|
                is_tried(q) && bytes == #[trigger] jpeg(rgb, width, height, q),
            Err(FitError::Encode) => !encodable(width, height),
            Err(FitError::TooLarge { target_bytes: t }) => encodable(width, height) && t
                == target_bytes && forall|q: u8|
                is_tried(q) ==> #[trigger] jpeg(rgb, width, height, q).len() > target_bytes,
        },
        encodable(width, height) <==> 1 <= width <= 65535 && 1 <= height <= 65535,
{
    lemma_chosen_is_tried(rgb, width, height, target_bytes, 90);
    assert forall|q: u8| is_tried(q) && fitted(rgb, width, height, target_bytes) is Err
        && encodable(width, height) implies #[trigger] jpeg(rgb, width, height, q).len()
        > target_bytes by {
        best_quality_that_fits_is_chosen(rgb, width, height, target_bytes, q);
    }
}

/// A try is kept exactly where it fits; else the next one is five below, and below 15 there is
/// none.
pub proof fn qualities_fall_by_five(quality: u8, encoded_len: int, target_bytes: int)
    ensures
        match step_after(quality, encoded_len, target_bytes) {
            QualityStep::Keep => encoded_len <= target_bytes,
            QualityStep::Lower(q) => encoded_len > target_bytes && q == quality - 5 && q >= 10,
            QualityStep::GiveUp => encoded_len > target_bytes && quality < 15,
        },
{
}

} // verus!
