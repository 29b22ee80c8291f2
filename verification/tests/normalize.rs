use rusty_cov::image::{
    detect_mime, finish_jpeg_encode, plan_normalize, process_cover_image, MimeKind,
    NormalizeError, NormalizeOptions, NormalizeOutcome, NormalizePlan,
};

fn crc32(data: &[u8]) -> u32 {
    let mut crc: u32 = 0xffff_ffff;
    for &b in data {
        crc ^= b as u32;
        for _ in 0..8 {
            if crc & 1 != 0 {
                crc = (crc >> 1) ^ 0xedb8_8320;
            } else {
                crc >>= 1;
            }
        }
    }
    crc ^ 0xffff_ffff
}

fn adler32(data: &[u8]) -> u32 {
    let mut a: u32 = 1;
    let mut b: u32 = 0;
    for &x in data {
        a = (a + x as u32) % 65521;
        b = (b + a) % 65521;
    }
    (b << 16) | a
}

fn push_chunk(out: &mut Vec<u8>, kind: &[u8; 4], data: &[u8]) {
    out.extend_from_slice(&(data.len() as u32).to_be_bytes());
    let mut body = Vec::new();
    body.extend_from_slice(kind);
    body.extend_from_slice(data);
    out.extend_from_slice(&body);
    out.extend_from_slice(&crc32(&body).to_be_bytes());
}

/// A valid but deliberately uncompressed 8x8 single-colour PNG.
fn wasteful_png() -> Vec<u8> {
    let mut png = vec![0x89, 0x50, 0x4e, 0x47, 0x0d, 0x0a, 0x1a, 0x0a];
    let mut ihdr = Vec::new();
    ihdr.extend_from_slice(&8u32.to_be_bytes());
    ihdr.extend_from_slice(&8u32.to_be_bytes());
    ihdr.extend_from_slice(&[8, 2, 0, 0, 0]);
    push_chunk(&mut png, b"IHDR", &ihdr);
    // 8 rows, each a filter byte then 8 RGB pixels of one colour.
    let mut raw = Vec::new();
    for _ in 0..8 {
        raw.push(0u8);
        for _ in 0..8 {
            raw.extend_from_slice(&[0xaa, 0xaa, 0xaa]);
        }
    }
    let mut idat = vec![0x78, 0x01, 0x01];
    idat.extend_from_slice(&(raw.len() as u16).to_le_bytes());
    idat.extend_from_slice(&(!(raw.len() as u16)).to_le_bytes());
    idat.extend_from_slice(&raw);
    idat.extend_from_slice(&adler32(&raw).to_be_bytes());
    push_chunk(&mut png, b"IDAT", &idat);
    push_chunk(&mut png, b"IEND", &[]);
    png
}

fn opts(convert: bool, quality: Option<u8>, png_opt: bool) -> NormalizeOptions {
    NormalizeOptions { convert_png_to_jpg: convert, jpeg_quality: quality, png_optimise: png_opt }
}

#[test]
fn mime_detection() {
    assert_eq!(detect_mime(&wasteful_png()), MimeKind::Png);
    assert_eq!(detect_mime(&vec![0xff, 0xd8, 0xff, 0xe0, 0x00]), MimeKind::Jpeg);
    assert_eq!(detect_mime(&vec![0x47, 0x49, 0x46, 0x38]), MimeKind::Other);
    assert_eq!(detect_mime(&Vec::new()), MimeKind::Other);
}

#[test]
fn plan_table() {
    assert_eq!(
        plan_normalize(MimeKind::Png, &opts(true, Some(80), true)),
        NormalizePlan::EncodeJpeg { quality: Some(80) }
    );
    assert_eq!(
        plan_normalize(MimeKind::Png, &opts(true, None, false)),
        NormalizePlan::EncodeJpeg { quality: None }
    );
    assert_eq!(plan_normalize(MimeKind::Png, &opts(false, None, true)), NormalizePlan::OptimisePng);
    assert_eq!(plan_normalize(MimeKind::Png, &opts(false, Some(80), false)), NormalizePlan::Keep);
    assert_eq!(
        plan_normalize(MimeKind::Jpeg, &opts(true, Some(75), true)),
        NormalizePlan::EncodeJpeg { quality: Some(75) }
    );
    assert_eq!(plan_normalize(MimeKind::Jpeg, &opts(true, None, true)), NormalizePlan::Keep);
    assert_eq!(plan_normalize(MimeKind::Other, &opts(true, Some(80), true)), NormalizePlan::Keep);
}

#[test]
fn other_bytes_pass_through_unchanged() {
    let bytes = vec![1u8, 2, 3, 4];
    match process_cover_image(bytes.clone(), &opts(true, Some(80), true)).unwrap() {
        NormalizeOutcome::Ready(img) => {
            assert_eq!(img.bytes, bytes);
            assert_eq!(img.mime, MimeKind::Other);
        },
        NormalizeOutcome::NeedsJpegEncode(_) => panic!("no transcode for unknown bytes"),
    }
}

#[test]
fn jpeg_with_quality_requests_transcode() {
    let bytes = vec![0xff, 0xd8, 0xff, 0xe0, 1, 2, 3];
    match process_cover_image(bytes.clone(), &opts(false, Some(85), false)).unwrap() {
        NormalizeOutcome::NeedsJpegEncode(req) => {
            assert_eq!(req.bytes, bytes);
            assert_eq!(req.quality, Some(85));
        },
        NormalizeOutcome::Ready(_) => panic!("a quality was set"),
    }
}

#[test]
fn png_conversion_requests_transcode() {
    let bytes = wasteful_png();
    match process_cover_image(bytes.clone(), &opts(true, None, true)).unwrap() {
        NormalizeOutcome::NeedsJpegEncode(req) => {
            assert_eq!(req.bytes, bytes);
            assert_eq!(req.quality, None);
        },
        NormalizeOutcome::Ready(_) => panic!("conversion was on"),
    }
}

#[test]
fn png_optimisation_shrinks_wasteful_png() {
    let bytes = wasteful_png();
    match process_cover_image(bytes.clone(), &opts(false, None, true)).unwrap() {
        NormalizeOutcome::Ready(img) => {
            assert_eq!(img.mime, MimeKind::Png);
            assert!(img.bytes.len() < bytes.len());
            assert_ne!(img.bytes, bytes);
        },
        NormalizeOutcome::NeedsJpegEncode(_) => panic!("no transcode was asked for"),
    }
}

#[test]
fn png_optimisation_twice_is_stable_or_no_smaller() {
    let bytes = wasteful_png();
    let once = match process_cover_image(bytes, &opts(false, None, true)).unwrap() {
        NormalizeOutcome::Ready(img) => img.bytes,
        NormalizeOutcome::NeedsJpegEncode(_) => panic!("no transcode was asked for"),
    };
    let twice = match process_cover_image(once.clone(), &opts(false, None, true)).unwrap() {
        NormalizeOutcome::Ready(img) => img.bytes,
        NormalizeOutcome::NeedsJpegEncode(_) => panic!("no transcode was asked for"),
    };
    assert!(twice == once || twice.len() <= once.len());
}

#[test]
fn corrupt_png_aborts_with_error() {
    // The PNG signature with nothing behind it cannot be decoded; the job
    // aborts rather than falling back to the original bytes silently.
    let bytes = vec![0x89, 0x50, 0x4e, 0x47, 0x0d, 0x0a, 0x1a, 0x0a];
    match process_cover_image(bytes, &opts(false, None, true)) {
        Err(e) => {
            assert_eq!(e, NormalizeError::PngOptimise);
            assert_eq!(e.message(), "PNG optimisation failed");
        },
        Ok(_) => panic!("undecodable bytes must abort"),
    }
}

#[test]
fn finish_transcode_rederives_mime() {
    let img = finish_jpeg_encode(vec![0xff, 0xd8, 0xff, 1, 2]);
    assert_eq!(img.mime, MimeKind::Jpeg);
    assert_eq!(img.bytes, vec![0xff, 0xd8, 0xff, 1, 2]);
}
