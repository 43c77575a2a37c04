use vstd::prelude::*;

verus! {

/// Natural and encode-time dimensions of one displayed image. The encode
/// scale `scale_num / scale_den` only bounds the encoded payload's size; it
/// is independent of the layout's global scale factor and must never be
/// confused with it — the renderer receives the layout's width and preserves
/// the aspect ratio itself, so no image is ever scaled twice.
pub struct ImageInfo {
    pub orig_w: u32,
    pub orig_h: u32,
    pub scaled_w: u32,
    pub scaled_h: u32,
    pub scale_num: u32,
    pub scale_den: u32,
}

/// The hard ceiling on an encoded image's larger dimension, in pixels.
pub const MAX_ENCODE_DIM: u32 = 4000;

/// The encode-time dimensions for a `w` by `h` image: an image whose larger
/// dimension exceeds the ceiling is shrunk to it proportionally (truncating);
/// any other image is encoded as it is.
pub open spec fn spec_image_info(w: u32, h: u32) -> ImageInfo {
    let m = if w >= h {
        w as int
    } else {
        h as int
    };
    if m > MAX_ENCODE_DIM {
        ImageInfo {
            orig_w: w,
            orig_h: h,
            scaled_w: (w * MAX_ENCODE_DIM / m) as u32,
            scaled_h: (h * MAX_ENCODE_DIM / m) as u32,
            scale_num: MAX_ENCODE_DIM,
            scale_den: m as u32,
        }
    } else {
        ImageInfo { orig_w: w, orig_h: h, scaled_w: w, scaled_h: h, scale_num: 1, scale_den: 1 }
    }
}

/// Compute the encode-time scaling decision for an image's dimensions.
pub fn compute_image_info(w: u32, h: u32) -> (info: ImageInfo)
    ensures
        info == spec_image_info(w, h),
        info.scaled_w <= w,
        info.scaled_h <= h,
{
    let m: u32 = if w >= h {
        w
    } else {
        h
    };
    if m > MAX_ENCODE_DIM {
        proof {
            assert(w as int * MAX_ENCODE_DIM <= m as int * (w as int)) by (nonlinear_arith)
                requires
                    MAX_ENCODE_DIM <= m,
                    0 <= w <= m;
            vstd::arithmetic::div_mod::lemma_multiply_divide_le(
                w as int * MAX_ENCODE_DIM,
                m as int,
                w as int,
            );
            assert(h as int * MAX_ENCODE_DIM <= m as int * (h as int)) by (nonlinear_arith)
                requires
                    MAX_ENCODE_DIM <= m,
                    0 <= h <= m;
            vstd::arithmetic::div_mod::lemma_multiply_divide_le(
                h as int * MAX_ENCODE_DIM,
                m as int,
                h as int,
            );
            vstd::arithmetic::div_mod::lemma_div_pos_is_pos(w as int * MAX_ENCODE_DIM, m as int);
            vstd::arithmetic::div_mod::lemma_div_pos_is_pos(h as int * MAX_ENCODE_DIM, m as int);
        }
        let sw: u64 = (w as u64) * (MAX_ENCODE_DIM as u64) / (m as u64);
        let sh: u64 = (h as u64) * (MAX_ENCODE_DIM as u64) / (m as u64);
        ImageInfo {
            orig_w: w,
            orig_h: h,
            scaled_w: sw as u32,
            scaled_h: sh as u32,
            scale_num: MAX_ENCODE_DIM,
            scale_den: m,
        }
    } else {
        ImageInfo { orig_w: w, orig_h: h, scaled_w: w, scaled_h: h, scale_num: 1, scale_den: 1 }
    }
}

/// Decimal notation of `n`, most significant digit first, as ASCII bytes.
pub open spec fn spec_decimal(n: nat) -> Seq<u8>
    decreases n,
{
    if n < 10 {
        seq![(0x30 + n) as u8]
    } else {
        spec_decimal(n / 10) + seq![(0x30 + n % 10) as u8]
    }
}

/// Append the decimal notation of `n`.
fn push_decimal(out: &mut Vec<u8>, n: u64)
    ensures
        final(out)@ == old(out)@ + spec_decimal(n as nat),
    decreases n,
{
    if n < 10 {
        out.push(0x30 + (n as u8));
        proof {
            assert(final(out)@ =~= old(out)@ + spec_decimal(n as nat));
        }
    } else {
        push_decimal(out, n / 10);
        out.push(0x30 + ((n % 10) as u8));
        proof {
            assert(final(out)@ =~= old(out)@ + spec_decimal(n as nat));
        }
    }
}

/// `ESC ] 1337 ; File = name=image.png ; size=` — the opening of the inline
/// image control sequence, byte for byte.
pub open spec fn header_bytes() -> Seq<u8> {
    seq![
        0x1bu8, 0x5d, 0x31, 0x33, 0x33, 0x37, 0x3b, 0x46, 0x69, 0x6c, 0x65, 0x3d, 0x6e, 0x61,
        0x6d, 0x65, 0x3d, 0x69, 0x6d, 0x61, 0x67, 0x65, 0x2e, 0x70, 0x6e, 0x67, 0x3b, 0x73,
        0x69, 0x7a, 0x65, 0x3d,
    ]
}

/// `;inline=1;width=` — between the size and the width, byte for byte.
pub open spec fn width_marker_bytes() -> Seq<u8> {
    seq![
        0x3bu8, 0x69, 0x6e, 0x6c, 0x69, 0x6e, 0x65, 0x3d, 0x31, 0x3b, 0x77, 0x69, 0x64, 0x74,
        0x68, 0x3d,
    ]
}

/// `c;base64:` — closing the width (given in character columns) and opening
/// the payload, byte for byte.
pub open spec fn payload_marker_bytes() -> Seq<u8> {
    seq![0x63u8, 0x3b, 0x62, 0x61, 0x73, 0x65, 0x36, 0x34, 0x3a]
}

/// The terminal's inline-image control sequence for a base64 payload and a
/// display width in character columns, ending in BEL. The declared size is
/// the payload's length in bytes, and the declared width is authoritative:
/// the terminal scales the image to that width preserving its aspect ratio.
pub open spec fn spec_inline_image_sequence(payload: Seq<u8>, width: nat) -> Seq<u8> {
    header_bytes() + spec_decimal(payload.len() as nat) + width_marker_bytes() + spec_decimal(
        width,
    ) + payload_marker_bytes() + payload + seq![0x07u8]
}

/// Build the inline-image control sequence, byte-exact, for an already
/// base64-encoded payload.
pub fn build_inline_image_sequence(payload: &Vec<u8>, width_chars: u32) -> (r: Vec<u8>)
    ensures
        r@ == spec_inline_image_sequence(payload@, width_chars as nat),
{
    let mut out: Vec<u8> = Vec::new();
    out.push(0x1b);
    out.push(0x5d);
    out.push(0x31);
    out.push(0x33);
    out.push(0x33);
    out.push(0x37);
    out.push(0x3b);
    out.push(0x46);
    out.push(0x69);
    out.push(0x6c);
    out.push(0x65);
    out.push(0x3d);
    out.push(0x6e);
    out.push(0x61);
    out.push(0x6d);
    out.push(0x65);
    out.push(0x3d);
    out.push(0x69);
    out.push(0x6d);
    out.push(0x61);
    out.push(0x67);
    out.push(0x65);
    out.push(0x2e);
    out.push(0x70);
    out.push(0x6e);
    out.push(0x67);
    out.push(0x3b);
    out.push(0x73);
    out.push(0x69);
    out.push(0x7a);
    out.push(0x65);
    out.push(0x3d);
    proof {
        assert(out@ =~= header_bytes());
    }
    push_decimal(&mut out, payload.len() as u64);
    let ghost with_size = out@;
    out.push(0x3b);
    out.push(0x69);
    out.push(0x6e);
    out.push(0x6c);
    out.push(0x69);
    out.push(0x6e);
    out.push(0x65);
    out.push(0x3d);
    out.push(0x31);
    out.push(0x3b);
    out.push(0x77);
    out.push(0x69);
    out.push(0x64);
    out.push(0x74);
    out.push(0x68);
    out.push(0x3d);
    proof {
        assert(out@ =~= with_size + width_marker_bytes());
    }
    push_decimal(&mut out, width_chars as u64);
    let ghost with_width = out@;
    out.push(0x63);
    out.push(0x3b);
    out.push(0x62);
    out.push(0x61);
    out.push(0x73);
    out.push(0x65);
    out.push(0x36);
    out.push(0x34);
    out.push(0x3a);
    proof {
        assert(out@ =~= with_width + payload_marker_bytes());
    }
    let mut i: usize = 0;
    let ghost before_payload = out@;
    while i < payload.len()
        invariant
            i <= payload@.len(),
            out@ == before_payload + payload@.subrange(0, i as int),
        decreases payload@.len() - i,
    {
        out.push(payload[i]);
        proof {
            assert(out@ =~= before_payload + payload@.subrange(0, i + 1 as int));
        }
        i = i + 1;
    }
    proof {
        assert(payload@.subrange(0, payload@.len() as int) =~= payload@);
    }
    out.push(0x07);
    proof {
        assert(out@ =~= spec_inline_image_sequence(payload@, width_chars as nat));
    }
    out
}

/// What base64 encoding returns for given bytes: the standard alphabet with
/// padding, a pure function of the input.
pub uninterp spec fn base64_of(data: Seq<u8>) -> Seq<u8>;

/// Relies on base64's `Engine::encode` with the `STANDARD` engine: standard
/// alphabet, padded, so the output holds four bytes for every three of input,
/// rounded up. The length bound on the input keeps the encoded length within
/// `usize`, which the engine would otherwise panic over.
#[verifier::external_body]
fn base64_encode(data: &Vec<u8>) -> (r: Vec<u8>)
    requires
        data@.len() <= usize::MAX as int / 2,
    ensures
        r@ == base64_of(data@),
        r@.len() == 4 * ((data@.len() + 2) / 3),
{
    base64::Engine::encode(&base64::engine::general_purpose::STANDARD, data).into_bytes()
}

#[verifier::external_type_specification]
#[verifier::external_body]
pub struct ExDynamicImage(image::DynamicImage);

/// Relies on image's `DynamicImage::width` and `DynamicImage::height`: the
/// decoded image's dimensions in pixels. Nothing is assumed of the values.
#[verifier::external_body]
fn image_dimensions(img: &image::DynamicImage) -> (u32, u32) {
    (img.width(), img.height())
}

/// Relies on image's `DynamicImage::resize_exact` with the Lanczos3 filter:
/// a new image resampled to exactly the given dimensions, aspect ratio not
/// preserved by the call itself (the caller passes proportional dimensions).
#[verifier::external_body]
fn resize_image(img: &image::DynamicImage, w: u32, h: u32) -> image::DynamicImage {
    img.resize_exact(w, h, image::imageops::FilterType::Lanczos3)
}

/// Relies on image's `DynamicImage::write_to` with the PNG format: it writes
/// the encoded bytes into the cursor's buffer and reports any failure, which
/// is passed on as its message.
#[verifier::external_body]
fn encode_png(img: &image::DynamicImage) -> (r: Result<Vec<u8>, String>) {
    let mut data: Vec<u8> = Vec::new();
    let mut cursor = std::io::Cursor::new(&mut data);
    match img.write_to(&mut cursor, image::ImageFormat::Png) {
        Ok(()) => Ok(data),
        Err(e) => Err(e.to_string()),
    }
}

/// Encode one decoded image and build its inline-image control sequence at
/// the given display width, in character columns.
///
/// The width must already carry the layout's decision: this function never
/// re-fits the image to the terminal. Its only scaling is the encode-time
/// downsample of an image over the hard ceiling, which bounds the payload's
/// size and multiplies with — but is never confused with — the layout's
/// global scale factor.
pub fn prepare_inline_image(img: &image::DynamicImage, display_width_chars: u32) -> (r: Result<
    (ImageInfo, Vec<u8>),
    String,
>)
    ensures
        (r matches Ok(p) ==> {
            &&& p.0 == spec_image_info(p.0.orig_w, p.0.orig_h)
            &&& exists|png: Seq<u8>|
                p.1@ == spec_inline_image_sequence(
                    #[trigger] base64_of(png),
                    display_width_chars as nat,
                )
        }),
{
    let (w, h) = image_dimensions(img);
    let info = compute_image_info(w, h);
    let png: Vec<u8> = if info.scale_num < info.scale_den {
        let resized = resize_image(img, info.scaled_w, info.scaled_h);
        match encode_png(&resized) {
            Ok(d) => d,
            Err(e) => {
                return Err(e);
            },
        }
    } else {
        match encode_png(img) {
            Ok(d) => d,
            Err(e) => {
                return Err(e);
            },
        }
    };
    if png.len() > usize::MAX / 2 {
        return Err(String::from_str("encoded image too large to transmit"));
    }
    let b64 = base64_encode(&png);
    let seq = build_inline_image_sequence(&b64, display_width_chars);
    proof {
        assert(seq@ == spec_inline_image_sequence(
            base64_of(png@),
            display_width_chars as nat,
        ));
    }
    Ok((info, seq))
}

} // verus!
