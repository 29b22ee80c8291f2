//! The image normalizer: sniffing the type of raw image bytes, deciding
//! which transform the options call for, running the lossless PNG
//! recompression here, and handing a JPEG transcode out as an explicit
//! request, since the encoder is the caller's collaborator.

use vstd::prelude::*;

verus! {

/// What the leading bytes of an image say it is.
#[derive(Debug, PartialEq, Eq, Structural, Clone, Copy)]
pub enum MimeKind {
    Png,
    Jpeg,
    Other,
}

/// The type the magic bytes declare: the PNG signature, the JPEG marker,
/// or anything else.
pub open spec fn spec_mime_of(b: Seq<u8>) -> MimeKind {
    if b.len() >= 8 && b[0] == 0x89 && b[1] == 0x50 && b[2] == 0x4e && b[3] == 0x47 && b[4] == 0x0d
        && b[5] == 0x0a && b[6] == 0x1a && b[7] == 0x0a {
        MimeKind::Png
    } else if b.len() >= 3 && b[0] == 0xff && b[1] == 0xd8 && b[2] == 0xff {
        MimeKind::Jpeg
    } else {
        MimeKind::Other
    }
}

/// Sniffs the image type from the magic bytes.
pub fn detect_mime(bytes: &Vec<u8>) -> (m: MimeKind)
    ensures
        m == spec_mime_of(bytes@),
{
    if bytes.len() >= 8 && bytes[0] == 0x89 && bytes[1] == 0x50 && bytes[2] == 0x4e && bytes[3]
        == 0x47 && bytes[4] == 0x0d && bytes[5] == 0x0a && bytes[6] == 0x1a && bytes[7] == 0x0a {
        MimeKind::Png
    } else if bytes.len() >= 3 && bytes[0] == 0xff && bytes[1] == 0xd8 && bytes[2] == 0xff {
        MimeKind::Jpeg
    } else {
        MimeKind::Other
    }
}

/// The configured conversion and optimization switches, captured once and
/// read-only from then on.
#[derive(Debug, PartialEq, Eq, Structural, Clone, Copy)]
pub struct NormalizeOptions {
    pub convert_png_to_jpg: bool,
    pub jpeg_quality: Option<u8>,
    pub png_optimise: bool,
}

/// The transform a given input type and options call for.
#[derive(Debug, PartialEq, Eq, Structural, Clone, Copy)]
pub enum NormalizePlan {
    Keep,
    OptimisePng,
    EncodeJpeg { quality: Option<u8> },
}

/// The branching rule of the normalizer: a PNG is transcoded when
/// conversion is on, else losslessly recompressed when that is on; a JPEG
/// is re-encoded only at an explicit quality; anything else passes through.
pub open spec fn spec_plan(mime: MimeKind, opts: NormalizeOptions) -> NormalizePlan {
    match mime {
        MimeKind::Png => if opts.convert_png_to_jpg {
            NormalizePlan::EncodeJpeg { quality: opts.jpeg_quality }
        } else if opts.png_optimise {
            NormalizePlan::OptimisePng
        } else {
            NormalizePlan::Keep
        },
        MimeKind::Jpeg => match opts.jpeg_quality {
            Some(q) => NormalizePlan::EncodeJpeg { quality: Some(q) },
            None => NormalizePlan::Keep,
        },
        MimeKind::Other => NormalizePlan::Keep,
    }
}

/// Decides the transform for one image.
pub fn plan_normalize(mime: MimeKind, opts: &NormalizeOptions) -> (p: NormalizePlan)
    ensures
        p == spec_plan(mime, *opts),
{
    match mime {
        MimeKind::Png => {
            if opts.convert_png_to_jpg {
                NormalizePlan::EncodeJpeg { quality: opts.jpeg_quality }
            } else if opts.png_optimise {
                NormalizePlan::OptimisePng
            } else {
                NormalizePlan::Keep
            }
        },
        MimeKind::Jpeg => {
            match opts.jpeg_quality {
                Some(q) => NormalizePlan::EncodeJpeg { quality: Some(q) },
                None => NormalizePlan::Keep,
            }
        },
        MimeKind::Other => NormalizePlan::Keep,
    }
}

/// The final bytes of one cover image and the type they sniff as.
pub struct NormalizedImage {
    pub bytes: Vec<u8>,
    pub mime: MimeKind,
}

/// A transcode the caller must run through its JPEG encoder: decode these
/// bytes and re-encode them as a JPEG, at the quality when one is given.
pub struct JpegEncodeRequest {
    pub bytes: Vec<u8>,
    pub quality: Option<u8>,
}

/// What the normalizer did with one image: finished it here, or handed a
/// transcode out.
pub enum NormalizeOutcome {
    Ready(NormalizedImage),
    NeedsJpegEncode(JpegEncodeRequest),
}

/// Why normalization aborted this image's job.
#[derive(Debug, PartialEq, Eq, Structural, Clone, Copy)]
pub enum NormalizeError {
    PngOptimise,
}

impl NormalizeError {
    /// The error as text for reporting.
    pub fn message(&self) -> (m: String)
        ensures
            m@ == "PNG optimisation failed"@,
    {
        "PNG optimisation failed".to_owned()
    }
}

/// What the lossless recompressor returns for given PNG bytes: a function
/// of the bytes alone.
pub uninterp spec fn png_recompressed(b: Seq<u8>) -> Seq<u8>;

/// Whether the recompressor accepts given bytes: also a function of the
/// bytes alone.
pub uninterp spec fn png_recompress_ok(b: Seq<u8>) -> bool;

/// The error type of the PNG library, carried through untouched.
#[verifier::external_type_specification]
#[verifier::external_body]
pub struct ExPngError(oxipng::PngError);

/// Relies on oxipng::optimize_from_memory, run with maximal compression,
/// safe chunk stripping and alpha optimization: a lossless recompression
/// whose success and output depend on the input bytes alone. It hands the
/// input back unchanged rather than grow it, and what it returns is a PNG
/// stream: it emits one, or returns the input, which it only accepts with
/// the PNG signature.
#[verifier::external_body]
fn recompress_png(bytes: &Vec<u8>) -> (r: Result<Vec<u8>, oxipng::PngError>)
    ensures
        (r is Ok) == png_recompress_ok(bytes@),
        r matches Ok(o) ==> o@ == png_recompressed(bytes@) && png_recompressed(bytes@).len()
            <= bytes@.len() && spec_mime_of(png_recompressed(bytes@)) == MimeKind::Png,
{
    let mut options = oxipng::Options::max_compression();
    options.strip = oxipng::StripChunks::Safe;
    options.optimize_alpha = true;
    oxipng::optimize_from_memory(bytes.as_slice(), &options)
}

/// Normalizes one cover image: passes it through, recompresses a PNG in
/// place, or asks the caller for a JPEG transcode, exactly as the plan for
/// its sniffed type says. Recompression succeeds exactly when the
/// recompressor accepts the bytes; a recompressed image never grows, stays
/// a PNG, and its final type is re-derived from the final bytes. A
/// recompression failure aborts with an error; it never falls back to the
/// original bytes silently.
pub fn process_cover_image(image_bytes: Vec<u8>, opts: &NormalizeOptions) -> (r: Result<
    NormalizeOutcome,
    NormalizeError,
>)
    ensures
        spec_plan(spec_mime_of(image_bytes@), *opts) == NormalizePlan::Keep ==> (r matches Ok(
            NormalizeOutcome::Ready(img),
        ) && img.bytes@ == image_bytes@ && img.mime == spec_mime_of(image_bytes@)),
        spec_plan(spec_mime_of(image_bytes@), *opts) matches NormalizePlan::EncodeJpeg { quality }
            ==> r matches Ok(NormalizeOutcome::NeedsJpegEncode(req)) && req.bytes@ == image_bytes@
            && req.quality == quality,
        spec_plan(spec_mime_of(image_bytes@), *opts) == NormalizePlan::OptimisePng ==> ((r is Ok)
            == png_recompress_ok(image_bytes@) && (match r {
            Ok(NormalizeOutcome::Ready(img)) => {
                &&& img.bytes@ == png_recompressed(image_bytes@)
                &&& img.bytes@.len() <= image_bytes@.len()
                &&& img.mime == MimeKind::Png
            },
            Ok(NormalizeOutcome::NeedsJpegEncode(_)) => false,
            Err(e) => e == NormalizeError::PngOptimise,
        })),
{
    let mime = detect_mime(&image_bytes);
    let plan = plan_normalize(mime, opts);
    match plan {
        NormalizePlan::Keep => Ok(NormalizeOutcome::Ready(NormalizedImage {
            bytes: image_bytes,
            mime,
        })),
        NormalizePlan::EncodeJpeg { quality } => Ok(NormalizeOutcome::NeedsJpegEncode(
            JpegEncodeRequest { bytes: image_bytes, quality },
        )),
        NormalizePlan::OptimisePng => {
            match recompress_png(&image_bytes) {
                Ok(optimised) => {
                    let m2 = detect_mime(&optimised);
                    Ok(NormalizeOutcome::Ready(NormalizedImage { bytes: optimised, mime: m2 }))
                },
                Err(_) => Err(NormalizeError::PngOptimise),
            }
        },
    }
}

/// Takes the caller's JPEG transcode back and re-derives the picture
/// metadata from the final bytes, as every transform must.
pub fn finish_jpeg_encode(encoded: Vec<u8>) -> (img: NormalizedImage)
    ensures
        img.bytes@ == encoded@,
        img.mime == spec_mime_of(encoded@),
{
    let mime = detect_mime(&encoded);
    NormalizedImage { bytes: encoded, mime }
}

} // verus!
