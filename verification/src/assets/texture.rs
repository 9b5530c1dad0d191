use vstd::prelude::*;
use vstd::string::StringExecFns;

use crate::assets::error::AssetError;
use crate::text::push_decimal;

verus! {

// ----------------------------------------------------------------------
// The `png` crate, behind trusted items
// ----------------------------------------------------------------------

/// A `png::Decoder` reading PNG bytes held in memory, held opaquely
/// behind this handle: its reader parameter is bounded by the `std::io`
/// traits `BufRead` and `Seek`.
#[verifier::external_body]
struct PngDecoderHandle<'a> {
    decoder: png::Decoder<std::io::Cursor<&'a [u8]>>,
}

/// A `png::Reader` positioned at the image data, held opaquely for the
/// same reason as `PngDecoderHandle`.
#[verifier::external_body]
struct PngReaderHandle<'a> {
    reader: png::Reader<std::io::Cursor<&'a [u8]>>,
}

/// A decoder together with what decides its results: the bytes it
/// reads, its allocation limit, whether it normalizes to 8-bit color,
/// and whether it has read the header yet.
struct PngDecoder<'a> {
    handle: PngDecoderHandle<'a>,
    source: &'a [u8],
    limit: usize,
    normalized: bool,
    header_read: bool,
}

/// A reader together with the settings of the decoder it came from, and
/// whether it has decoded its first frame yet.
struct PngReader<'a> {
    handle: PngReaderHandle<'a>,
    source: &'a [u8],
    limit: usize,
    normalized: bool,
    frame_read: bool,
}

/// The width and height `png::Decoder::read_header_info` reads from
/// `bytes` under the allocation limit `limit`, or `None` where it fails.
pub uninterp spec fn png_header_of(bytes: Seq<u8>, limit: usize) -> Option<(u32, u32)>;

/// What `png::Decoder::read_info` finds in `bytes` under the allocation
/// limit `limit`, with or without the transformation
/// `normalize_to_color8`, wherever the frame fits the address space: the
/// image's width and height and the byte count of its decoded frame
/// (`Reader::output_buffer_size`, as a number), or how it fails for any
/// other reason.
pub uninterp spec fn png_info_of(bytes: Seq<u8>, limit: usize, normalized: bool) -> PngStep<(u32, u32, nat)>;

/// What the first `png::Reader::next_frame` decodes from `bytes` (read
/// under the limit `limit`, normalized or not) into a buffer holding
/// `buf`: the frame's width, height, color type code and bit depth, and
/// the buffer's contents afterwards, or how it fails.
pub uninterp spec fn png_frame_of(bytes: Seq<u8>, limit: usize, normalized: bool, buf: Seq<u8>) -> PngStep<(u32, u32, u8, u8, Seq<u8>)>;

/// How a step of the `png` decoder ends: with its result, refused by the
/// decoder's allocation limit (`DecodingError::LimitsExceeded`), or
/// failed for any other reason.
pub enum PngStep<T> {
    Done(T),
    OverLimit,
    Failed,
}

/// The image info a finished `read_info` step found.
pub open spec fn info_found(step: PngStep<(u32, u32, nat)>) -> (u32, u32, nat) {
    match step {
        PngStep::Done(i) => i,
        _ => (0, 0, 0),
    }
}

/// A failure of the `png` decoder, with its allocation limit told apart
/// from every other failure.
pub enum PngError {
    LimitsExceeded,
    Other(png::DecodingError),
}

/// `png::DecodingError`.
#[verifier::external_type_specification]
#[verifier::external_body]
pub struct ExPngDecodingError(png::DecodingError);

/// The color types a PNG frame can be decoded to, named as the `png`
/// crate names them.
#[derive(Debug, Clone, Copy, PartialEq, Eq, Structural)]
pub enum PngColor {
    Grayscale,
    Rgb,
    Indexed,
    GrayscaleAlpha,
    Rgba,
}

/// The sample depths a PNG frame can be decoded to, named as the `png`
/// crate names them.
#[derive(Debug, Clone, Copy, PartialEq, Eq, Structural)]
pub enum PngDepth {
    One,
    Two,
    Four,
    Eight,
    Sixteen,
}

/// What the decoder reports about one decoded frame.
#[derive(Debug, Clone, Copy, PartialEq, Eq, Structural)]
pub struct FrameLayout {
    pub width: u32,
    pub height: u32,
    pub color: PngColor,
    pub depth: PngDepth,
}

impl PngColor {
    /// The color type with PNG color type code `code`, if any.
    pub open spec fn spec_from_code(code: u8) -> Option<PngColor> {
        if code == 0 {
            Some(PngColor::Grayscale)
        } else if code == 2 {
            Some(PngColor::Rgb)
        } else if code == 3 {
            Some(PngColor::Indexed)
        } else if code == 4 {
            Some(PngColor::GrayscaleAlpha)
        } else if code == 6 {
            Some(PngColor::Rgba)
        } else {
            None
        }
    }

    /// The color type with PNG color type code `code`, if any.
    pub fn from_code(code: u8) -> (r: Option<PngColor>)
        ensures
            r == Self::spec_from_code(code),
    {
        if code == 0 {
            Some(PngColor::Grayscale)
        } else if code == 2 {
            Some(PngColor::Rgb)
        } else if code == 3 {
            Some(PngColor::Indexed)
        } else if code == 4 {
            Some(PngColor::GrayscaleAlpha)
        } else if code == 6 {
            Some(PngColor::Rgba)
        } else {
            None
        }
    }
}

impl PngDepth {
    /// The sample depth of `bits` bits, if PNG has one.
    pub open spec fn spec_from_bits(bits: u8) -> Option<PngDepth> {
        if bits == 1 {
            Some(PngDepth::One)
        } else if bits == 2 {
            Some(PngDepth::Two)
        } else if bits == 4 {
            Some(PngDepth::Four)
        } else if bits == 8 {
            Some(PngDepth::Eight)
        } else if bits == 16 {
            Some(PngDepth::Sixteen)
        } else {
            None
        }
    }

    /// The sample depth of `bits` bits, if PNG has one.
    pub fn from_bits(bits: u8) -> (r: Option<PngDepth>)
        ensures
            r == Self::spec_from_bits(bits),
    {
        if bits == 1 {
            Some(PngDepth::One)
        } else if bits == 2 {
            Some(PngDepth::Two)
        } else if bits == 4 {
            Some(PngDepth::Four)
        } else if bits == 8 {
            Some(PngDepth::Eight)
        } else if bits == 16 {
            Some(PngDepth::Sixteen)
        } else {
            None
        }
    }
}

/// A `png::Decoder` over `bytes` held in memory (`png::Decoder::new`
/// on a `std::io::Cursor`), with the crate's default allocation limit of
/// 64 MiB and no transformation. Nothing is read yet.
#[verifier::external_body]
fn png_decoder<'a>(bytes: &'a [u8]) -> (d: PngDecoder<'a>)
    ensures
        d.source@ == bytes@,
        d.limit == 67108864,
        !d.normalized,
        !d.header_read,
{
    PngDecoder {
        handle: PngDecoderHandle { decoder: png::Decoder::new(std::io::Cursor::new(bytes)) },
        source: bytes,
        limit: 67108864,
        normalized: false,
        header_read: false,
    }
}

/// Sets the decoder's allocation limit to `bytes` (`Decoder::set_limits`,
/// which replaces the limits wholesale, so it comes before any read).
#[verifier::external_body]
fn png_set_limits(d: &mut PngDecoder, bytes: usize)
    requires
        !old(d).header_read,
    ensures
        final(d).source == old(d).source,
        final(d).limit == bytes,
        final(d).normalized == old(d).normalized,
        !final(d).header_read,
{
    d.handle.decoder.set_limits(png::Limits { bytes });
    d.limit = bytes;
}

/// Asks the decoder to expand every color type to 8-bit samples and to
/// keep only the high byte of 16-bit samples
/// (`Decoder::set_transformations` with
/// `Transformations::normalize_to_color8`).
#[verifier::external_body]
fn png_normalize_to_color8(d: &mut PngDecoder)
    requires
        !old(d).header_read,
    ensures
        final(d).source == old(d).source,
        final(d).limit == old(d).limit,
        final(d).normalized,
        !final(d).header_read,
{
    d.handle.decoder.set_transformations(png::Transformations::normalize_to_color8());
    d.normalized = true;
}

/// Reads the PNG header and returns the width and height it claims
/// (`Decoder::read_header_info`): `png_header_of` the bytes and limit.
#[verifier::external_body]
fn png_read_header(d: &mut PngDecoder) -> (r: Result<(u32, u32), png::DecodingError>)
    ensures
        final(d).source == old(d).source,
        final(d).limit == old(d).limit,
        final(d).normalized == old(d).normalized,
        final(d).header_read,
        match png_header_of(old(d).source@, old(d).limit) {
            Some(size) => r == Ok::<(u32, u32), png::DecodingError>(size),
            None => r is Err,
        },
{
    let r = d.handle.decoder.read_header_info().map(|info| (info.width, info.height));
    d.header_read = true;
    r
}

/// Reads every chunk up to the image data (`Decoder::read_info`): it
/// succeeds exactly when `png_info_of` finds an image whose decoded frame
/// fits the address space; `read_info` itself refuses a frame of more
/// than `isize::MAX` bytes with `LimitsExceeded`.
#[verifier::external_body]
fn png_read_info<'a>(d: PngDecoder<'a>) -> (r: Result<PngReader<'a>, PngError>)
    ensures
        match png_info_of(d.source@, d.limit, d.normalized) {
            PngStep::Done(i) => if i.2 <= isize::MAX {
                r is Ok
            } else {
                r matches Err(PngError::LimitsExceeded)
            },
            PngStep::OverLimit => r matches Err(PngError::LimitsExceeded),
            PngStep::Failed => r matches Err(PngError::Other(_)),
        },
        r matches Ok(rd) ==> rd.source == d.source && rd.limit == d.limit && rd.normalized == d.normalized
            && !rd.frame_read,
{
    let PngDecoder { handle, source, limit, normalized, .. } = d;
    match handle.decoder.read_info() {
        Ok(reader) => Ok(PngReader { handle: PngReaderHandle { reader }, source, limit, normalized, frame_read: false }),
        Err(png::DecodingError::LimitsExceeded) => Err(PngError::LimitsExceeded),
        Err(other) => Err(PngError::Other(other)),
    }
}

/// The image's width and height (`Reader::info`), as `png_info_of` finds
/// them.
#[verifier::external_body]
fn png_image_size(r: &PngReader) -> (s: (u32, u32))
    requires
        !r.frame_read,
        png_info_of(r.source@, r.limit, r.normalized) is Done,
    ensures
        s.0 == info_found(png_info_of(r.source@, r.limit, r.normalized)).0,
        s.1 == info_found(png_info_of(r.source@, r.limit, r.normalized)).1,
{
    (r.handle.reader.info().width, r.handle.reader.info().height)
}

/// The byte count a decoded frame needs (`Reader::output_buffer_size`),
/// as `png_info_of` finds it; `None` only where it does not fit the
/// address space.
#[verifier::external_body]
fn png_output_buffer_size(r: &PngReader) -> (n: Option<usize>)
    requires
        !r.frame_read,
        png_info_of(r.source@, r.limit, r.normalized) is Done,
    ensures
        info_found(png_info_of(r.source@, r.limit, r.normalized)).2 <= isize::MAX ==> n == Some(
            info_found(png_info_of(r.source@, r.limit, r.normalized)).2 as usize,
        ),
{
    r.handle.reader.output_buffer_size()
}

/// Decodes the first frame into `buf` (`Reader::next_frame`) and reports
/// its width, height, PNG color type code and bit depth: what
/// `png_frame_of` gives for the reader's bytes and settings and the
/// buffer's contents. The buffer is written through a slice, so its
/// length never changes.
#[verifier::external_body]
fn png_next_frame(r: &mut PngReader, buf: &mut Vec<u8>) -> (res: Result<(u32, u32, u8, u8), PngError>)
    requires
        !old(r).frame_read,
    ensures
        final(r).source == old(r).source,
        final(r).limit == old(r).limit,
        final(r).normalized == old(r).normalized,
        final(r).frame_read,
        final(buf)@.len() == old(buf)@.len(),
        match png_frame_of(old(r).source@, old(r).limit, old(r).normalized, old(buf)@) {
            PngStep::Done(f) => res == Ok::<(u32, u32, u8, u8), PngError>((f.0, f.1, f.2, f.3)) && final(buf)@
                == f.4,
            PngStep::OverLimit => res matches Err(PngError::LimitsExceeded),
            PngStep::Failed => res matches Err(PngError::Other(_)),
        },
{
    r.frame_read = true;
    match r.handle.reader.next_frame(buf.as_mut_slice()) {
        Ok(info) => Ok((info.width, info.height, info.color_type as u8, info.bit_depth as u8)),
        Err(png::DecodingError::LimitsExceeded) => Err(PngError::LimitsExceeded),
        Err(other) => Err(PngError::Other(other)),
    }
}

// ----------------------------------------------------------------------
// Textures
// ----------------------------------------------------------------------

/// Default ceiling for the decoded size of one texture, in output bytes:
/// 64 MiB, the same as the decoder's own default limit.
pub const DEFAULT_MAX_TEXTURE_BYTES: u64 = 67108864;

/// A decoded texture: dimensions plus RGBA8 pixel data.
///
/// `rgba8` always holds `width * height * 4` bytes, row-major from the
/// top row, left to right: every PNG color type is normalized to this
/// one layout at load time.
#[derive(Debug, Clone, PartialEq, Eq)]
pub struct Texture {
    width: u32,
    height: u32,
    rgba8: Vec<u8>,
}

/// The four bytes of the pixel at column `x`, row `y` of a row-major
/// RGBA8 image `width` pixels wide, when they lie inside `rgba`.
pub open spec fn pixel_at(rgba: Seq<u8>, width: nat, height: nat, x: nat, y: nat) -> Option<Seq<u8>> {
    let offset = (y * width + x) * 4;
    if x < width && y < height && offset + 4 <= rgba.len() {
        Some(rgba.subrange(offset as int, offset + 4int))
    } else {
        None
    }
}

/// The product of two `u32` values fits in a `u64`.
proof fn lemma_u32_product(a: u32, b: u32)
    ensures
        a * b <= (u32::MAX as int) * (u32::MAX as int),
        (u32::MAX as int) * (u32::MAX as int) < u64::MAX,
{
    assert(a * b <= (u32::MAX as int) * (u32::MAX as int)) by (nonlinear_arith)
        requires
            a <= u32::MAX,
            b <= u32::MAX,
    ;
}

impl Texture {
    /// Pixel width, as a specification value.
    pub closed spec fn spec_width(&self) -> u32 {
        self.width
    }

    /// Pixel height, as a specification value.
    pub closed spec fn spec_height(&self) -> u32 {
        self.height
    }

    /// The RGBA8 bytes, as a specification value.
    pub closed spec fn spec_rgba8(&self) -> Seq<u8> {
        self.rgba8@
    }

    /// The texture holds exactly `width * height * 4` bytes.
    pub open spec fn wf(&self) -> bool {
        self.spec_rgba8().len() == self.spec_width() * self.spec_height() * 4
    }

    /// Pixel width of the decoded image.
    #[verifier::when_used_as_spec(spec_width)]
    pub fn width(&self) -> (r: u32)
        ensures
            r == self.spec_width(),
    {
        self.width
    }

    /// Pixel height of the decoded image.
    #[verifier::when_used_as_spec(spec_height)]
    pub fn height(&self) -> (r: u32)
        ensures
            r == self.spec_height(),
    {
        self.height
    }

    /// The RGBA8 pixel data, `width * height * 4` bytes, row-major from
    /// the top row.
    pub fn rgba8(&self) -> (r: &[u8])
        ensures
            r@ == self.spec_rgba8(),
    {
        self.rgba8.as_slice()
    }

    /// The RGBA pixel at column `x`, row `y` (origin at the top left), or
    /// `None` when the coordinates fall outside the image.
    pub fn pixel(&self, x: u32, y: u32) -> (r: Option<[u8; 4]>)
        ensures
            match pixel_at(self.spec_rgba8(), self.spec_width() as nat, self.spec_height() as nat, x as nat, y as nat) {
                Some(p) => r matches Some(a) && a@ == p,
                None => r is None,
            },
    {
        if x >= self.width || y >= self.height {
            return None;
        }
        proof {
            lemma_u32_product(y, self.width);
        }
        let len = self.rgba8.len();
        let row = y as u64 * self.width as u64;
        let index = row + x as u64;
        if index > (u64::MAX - 4) / 4 {
            proof {
                assert(index * 4 + 4 > u64::MAX) by (nonlinear_arith)
                    requires
                        index > (u64::MAX - 4) / 4,
                ;
            }
            return None;
        }
        let offset = index * 4;
        if offset + 4 > len as u64 {
            return None;
        }
        let o = offset as usize;
        let a = [self.rgba8[o], self.rgba8[o + 1], self.rgba8[o + 2], self.rgba8[o + 3]];
        proof {
            assert(a@ =~= self.rgba8@.subrange(o as int, o + 4));
        }
        Some(a)
    }
}

/// Bytes per pixel of each decoder layout this loader expands, or `None`
/// for any other layout.
pub open spec fn bytes_per_pixel(color: PngColor, depth: PngDepth) -> Option<nat> {
    if depth != PngDepth::Eight {
        None
    } else {
        match color {
            PngColor::Rgba => Some(4),
            PngColor::Rgb => Some(3),
            PngColor::Grayscale => Some(1),
            PngColor::GrayscaleAlpha => Some(2),
            PngColor::Indexed => None,
        }
    }
}

/// The RGBA bytes of pixel `p` of a frame in layout `color` (8-bit
/// samples): RGBA passes through, RGB gains opaque alpha, grayscale
/// replicates across R, G and B with opaque alpha, and grayscale-alpha
/// replicates across R, G and B keeping its alpha.
pub open spec fn rgba_of_pixel(raw: Seq<u8>, color: PngColor, p: int) -> Seq<u8> {
    match color {
        PngColor::Rgba => seq![raw[4 * p], raw[4 * p + 1], raw[4 * p + 2], raw[4 * p + 3]],
        PngColor::Rgb => seq![raw[3 * p], raw[3 * p + 1], raw[3 * p + 2], 255u8],
        PngColor::Grayscale => seq![raw[p], raw[p], raw[p], 255u8],
        _ => seq![raw[2 * p], raw[2 * p], raw[2 * p], raw[2 * p + 1]],
    }
}

/// The RGBA8 expansion of the first `n` pixels of a frame.
pub open spec fn expanded(raw: Seq<u8>, color: PngColor, n: nat) -> Seq<u8>
    decreases n,
{
    if n == 0 {
        seq![]
    } else {
        expanded(raw, color, (n - 1) as nat) + rgba_of_pixel(raw, color, n - 1)
    }
}

proof fn lemma_expanded_len(raw: Seq<u8>, color: PngColor, n: nat)
    ensures
        expanded(raw, color, n).len() == 4 * n,
    decreases n,
{
    if n > 0 {
        lemma_expanded_len(raw, color, (n - 1) as nat);
    }
}

proof fn lemma_expanded_pixel(raw: Seq<u8>, color: PngColor, n: nat, p: int)
    requires
        0 <= p < n,
    ensures
        expanded(raw, color, n).len() == 4 * n,
        expanded(raw, color, n).subrange(4 * p, 4 * p + 4) == rgba_of_pixel(raw, color, p),
    decreases n,
{
    lemma_expanded_len(raw, color, n);
    lemma_expanded_len(raw, color, (n - 1) as nat);
    let prev = expanded(raw, color, (n - 1) as nat);
    let px = rgba_of_pixel(raw, color, n - 1);
    if p == n - 1 {
        assert(expanded(raw, color, n).subrange(4 * p, 4 * p + 4) =~= px);
    } else {
        lemma_expanded_pixel(raw, color, (n - 1) as nat, p);
        assert(expanded(raw, color, n).subrange(4 * p, 4 * p + 4) =~= prev.subrange(4 * p, 4 * p + 4));
    }
}

/// Expanding a frame to RGBA8 gives four bytes per pixel, and pixel `p`'s
/// four bytes are read from that pixel's own samples alone (bytes
/// `bpp * p` to `bpp * p + bpp` of the frame): RGBA copies its four
/// samples, RGB adds an opaque alpha, grayscale copies its one sample
/// into R, G and B with an opaque alpha, and grayscale-alpha copies its
/// gray sample into R, G and B and keeps its alpha sample.
pub proof fn law_each_pixel_expands_from_its_own_samples(raw: Seq<u8>, color: PngColor, n: nat, p: int)
    requires
        0 <= p < n,
    ensures
        expanded(raw, color, n).len() == 4 * n,
        color == PngColor::Rgba ==> expanded(raw, color, n).subrange(4 * p, 4 * p + 4) == seq![
            raw[4 * p],
            raw[4 * p + 1],
            raw[4 * p + 2],
            raw[4 * p + 3],
        ],
        color == PngColor::Rgb ==> expanded(raw, color, n).subrange(4 * p, 4 * p + 4) == seq![
            raw[3 * p],
            raw[3 * p + 1],
            raw[3 * p + 2],
            0xFFu8,
        ],
        color == PngColor::Grayscale ==> expanded(raw, color, n).subrange(4 * p, 4 * p + 4) == seq![
            raw[p],
            raw[p],
            raw[p],
            0xFFu8,
        ],
        color == PngColor::GrayscaleAlpha ==> expanded(raw, color, n).subrange(4 * p, 4 * p + 4) == seq![
            raw[2 * p],
            raw[2 * p],
            raw[2 * p],
            raw[2 * p + 1],
        ],
{
    lemma_expanded_pixel(raw, color, n, p);
}

/// The `png` crate's name for a color type, as text.
pub open spec fn color_text(c: PngColor) -> Seq<char> {
    match c {
        PngColor::Grayscale => "Grayscale"@,
        PngColor::Rgb => "Rgb"@,
        PngColor::Indexed => "Indexed"@,
        PngColor::GrayscaleAlpha => "GrayscaleAlpha"@,
        PngColor::Rgba => "Rgba"@,
    }
}

/// The `png` crate's name for a color type.
fn color_name(c: PngColor) -> (r: &'static str)
    ensures
        r@ == color_text(c),
{
    match c {
        PngColor::Grayscale => "Grayscale",
        PngColor::Rgb => "Rgb",
        PngColor::Indexed => "Indexed",
        PngColor::GrayscaleAlpha => "GrayscaleAlpha",
        PngColor::Rgba => "Rgba",
    }
}

/// The `png` crate's name for a bit depth, as text.
pub open spec fn depth_text(d: PngDepth) -> Seq<char> {
    match d {
        PngDepth::One => "One"@,
        PngDepth::Two => "Two"@,
        PngDepth::Four => "Four"@,
        PngDepth::Eight => "Eight"@,
        PngDepth::Sixteen => "Sixteen"@,
    }
}

/// The `png` crate's name for a bit depth.
fn depth_name(d: PngDepth) -> (r: &'static str)
    ensures
        r@ == depth_text(d),
{
    match d {
        PngDepth::One => "One",
        PngDepth::Two => "Two",
        PngDepth::Four => "Four",
        PngDepth::Eight => "Eight",
        PngDepth::Sixteen => "Sixteen",
    }
}

/// Expands one decoded frame into RGBA8 bytes.
///
/// After normalization the decoder emits exactly four layouts, all with
/// 8-bit samples: grayscale, grayscale-with-alpha, RGB and RGBA. Any
/// other layout is `UnsupportedFeature` (the loader is narrow, the file is
/// fine); a buffer too short for the frame is `InvalidFormat`.
pub fn expand_to_rgba8(path: &str, raw: &[u8], frame: FrameLayout) -> (r: Result<Vec<u8>, AssetError>)
    ensures
        bytes_per_pixel(frame.color, frame.depth) is None ==> (r matches Err(
            AssetError::UnsupportedFeature { path: p, .. },
        ) && p@ == path@),
        bytes_per_pixel(frame.color, frame.depth) matches Some(bpp) ==> {
            let needed = frame.width * frame.height * bpp;
            &&& needed > usize::MAX ==> (r matches Err(AssetError::OverBudget { path: p, limit, actual })
                && p@ == path@ && limit == u64::MAX && actual == u64::MAX)
            &&& needed <= usize::MAX && raw@.len() < needed ==> (r matches Err(
                AssetError::InvalidFormat { path: p, .. },
            ) && p@ == path@)
            &&& needed <= usize::MAX && raw@.len() >= needed ==> (r matches Ok(v) && v@ == expanded(
                raw@,
                frame.color,
                (frame.width * frame.height) as nat,
            ))
        },
{
    proof {
        lemma_u32_product(frame.width, frame.height);
    }
    let pixel_count: u64 = frame.width as u64 * frame.height as u64;
    let bpp: u64 = match (frame.color, frame.depth) {
        (PngColor::Rgba, PngDepth::Eight) => 4,
        (PngColor::Rgb, PngDepth::Eight) => 3,
        (PngColor::Grayscale, PngDepth::Eight) => 1,
        (PngColor::GrayscaleAlpha, PngDepth::Eight) => 2,
        _ => {
            let mut feature = String::from_str("PNG decoder output ");
            feature.append(color_name(frame.color));
            feature.append(" at ");
            feature.append(depth_name(frame.depth));
            return Err(AssetError::unsupported_feature(path, feature.as_str()));
        },
    };
    if pixel_count > (usize::MAX as u64) / bpp {
        proof {
            assert(pixel_count * bpp > usize::MAX) by (nonlinear_arith)
                requires
                    pixel_count > (usize::MAX as u64) / bpp,
                    bpp >= 1,
            ;
        }
        return Err(AssetError::over_budget(path, u64::MAX, u64::MAX));
    }
    proof {
        assert(pixel_count <= pixel_count * bpp <= usize::MAX) by (nonlinear_arith)
            requires
                pixel_count <= (usize::MAX as u64) / bpp,
                bpp >= 1,
        ;
    }
    let needed: usize = (pixel_count * bpp) as usize;
    if raw.len() < needed {
        let mut reason = String::from_str(color_name(frame.color));
        reason.append(" frame holds ");
        push_decimal(&mut reason, raw.len() as u64);
        reason.append(" bytes but needs ");
        push_decimal(&mut reason, needed as u64);
        return Err(AssetError::invalid_format(path, reason.as_str()));
    }
    let count: usize = match pixel_count_as_usize(path, pixel_count) {
        Ok(c) => c,
        Err(e) => {
            return Err(e);
        },
    };
    let mut rgba: Vec<u8> = Vec::new();
    let mut p: usize = 0;
    while p < count
        invariant
            p <= count,
            count == frame.width * frame.height,
            needed == count * bpp,
            raw@.len() >= needed,
            bpp == bytes_per_pixel(frame.color, frame.depth).unwrap(),
            bytes_per_pixel(frame.color, frame.depth) is Some,
            rgba@ == expanded(raw@, frame.color, p as nat),
        decreases count - p,
    {
        proof {
            assert(bpp * p + bpp <= bpp * count) by (nonlinear_arith)
                requires
                    p < count,
                    bpp >= 1,
            ;
        }
        match frame.color {
            PngColor::Rgba => {
                let b = 4 * p;
                rgba.push(raw[b]);
                rgba.push(raw[b + 1]);
                rgba.push(raw[b + 2]);
                rgba.push(raw[b + 3]);
            },
            PngColor::Rgb => {
                let b = 3 * p;
                rgba.push(raw[b]);
                rgba.push(raw[b + 1]);
                rgba.push(raw[b + 2]);
                rgba.push(255u8);
            },
            PngColor::Grayscale => {
                rgba.push(raw[p]);
                rgba.push(raw[p]);
                rgba.push(raw[p]);
                rgba.push(255u8);
            },
            _ => {
                let b = 2 * p;
                rgba.push(raw[b]);
                rgba.push(raw[b]);
                rgba.push(raw[b]);
                rgba.push(raw[b + 1]);
            },
        }
        proof {
            assert(rgba@ =~= expanded(raw@, frame.color, p as nat) + rgba_of_pixel(raw@, frame.color, p as int));
        }
        p = p + 1;
    }
    Ok(rgba)
}

/// The RGBA8 byte count of a `width` by `height` image, or `None` when it
/// does not fit a `u64` (dimensions come from an untrusted header, and
/// `u32::MAX` squared times four overflows even a `u64`).
fn rgba8_byte_count(width: u32, height: u32) -> (r: Option<u64>)
    ensures
        rgba8_size(width, height) <= u64::MAX ==> r == Some(rgba8_size(width, height) as u64),
        rgba8_size(width, height) > u64::MAX ==> r is None,
{
    proof {
        lemma_u32_product(width, height);
    }
    let pixels: u64 = width as u64 * height as u64;
    pixels.checked_mul(4)
}

/// A pixel count as a `usize` for allocation, or `OverBudget` when it does
/// not fit the address space.
fn pixel_count_as_usize(path: &str, pixel_count: u64) -> (r: Result<usize, AssetError>)
    ensures
        pixel_count <= usize::MAX ==> r == Ok::<usize, AssetError>(pixel_count as usize),
        pixel_count > usize::MAX ==> (r matches Err(AssetError::OverBudget { path: p, limit, actual })
            && p@ == path@ && limit == u64::MAX && actual == pixel_count),
{
    if pixel_count <= usize::MAX as u64 {
        Ok(pixel_count as usize)
    } else {
        Err(AssetError::over_budget(path, u64::MAX, pixel_count))
    }
}

/// The output size, in RGBA8 bytes, of a `width` by `height` image.
pub open spec fn rgba8_size(width: u32, height: u32) -> nat {
    width as nat * height as nat * 4
}

/// Checks a `width` by `height` image against the decode budget: `Ok`
/// with its RGBA8 byte count when that is within `max_decode_bytes`,
/// otherwise `OverBudget` naming both numbers (`u64::MAX` when the count
/// does not fit a `u64`).
pub fn check_decode_budget(path: &str, width: u32, height: u32, max_decode_bytes: u64) -> (r: Result<
    u64,
    AssetError,
>)
    ensures
        rgba8_size(width, height) <= max_decode_bytes ==> r == Ok::<u64, AssetError>(
            rgba8_size(width, height) as u64,
        ),
        rgba8_size(width, height) > max_decode_bytes ==> (r matches Err(
            AssetError::OverBudget { path: p, limit, actual },
        ) && p@ == path@ && limit == max_decode_bytes && actual == if rgba8_size(width, height)
            <= u64::MAX {
            rgba8_size(width, height) as u64
        } else {
            u64::MAX
        }),
{
    match rgba8_byte_count(width, height) {
        None => Err(AssetError::over_budget(path, max_decode_bytes, u64::MAX)),
        Some(size) => {
            if size > max_decode_bytes {
                Err(AssetError::over_budget(path, max_decode_bytes, size))
            } else {
                Ok(size)
            }
        },
    }
}

/// Maps a decoder failure onto the error taxonomy: the decoder refusing
/// an allocation is `OverBudget` (with the size never established, so
/// `u64::MAX`); any other failure means damaged bytes, `InvalidFormat`.
fn map_decode_error(path: &str, max_decode_bytes: u64, source: &PngError) -> (r: AssetError)
    ensures
        match source {
            PngError::LimitsExceeded => r matches AssetError::OverBudget { path: p, limit, actual } && p@
                == path@ && limit == max_decode_bytes && actual == u64::MAX,
            PngError::Other(_) => r matches AssetError::InvalidFormat { path: p, .. } && p@ == path@,
        },
{
    match source {
        PngError::LimitsExceeded => AssetError::over_budget(path, max_decode_bytes, u64::MAX),
        PngError::Other(e) => {
            let mut reason = String::from_str("PNG decode failed: ");
            let detail = e.to_string();
            reason.append(detail.as_str());
            AssetError::invalid_format(path, reason.as_str())
        },
    }
}

/// Builds the texture once the expansion is done, refusing output whose
/// length disagrees with the image's dimensions.
pub fn finish_texture(path: &str, width: u32, height: u32, rgba8: Vec<u8>) -> (r: Result<
    Texture,
    AssetError,
>)
    ensures
        rgba8@.len() == rgba8_size(width, height) ==> (r matches Ok(t) && t.width() == width
            && t.height() == height && t.spec_rgba8() == rgba8@),
        rgba8@.len() != rgba8_size(width, height) ==> (r matches Err(
            AssetError::InvalidFormat { path: p, .. },
        ) && p@ == path@),
{
    proof {
        lemma_u32_product(width, height);
    }
    let pixels: u64 = width as u64 * height as u64;
    if pixels > u64::MAX / 4 || pixels * 4 != rgba8.len() as u64 {
        let mut reason = String::from_str("decoded ");
        push_decimal(&mut reason, rgba8.len() as u64);
        reason.append(" bytes but ");
        push_decimal(&mut reason, width as u64);
        reason.append("x");
        push_decimal(&mut reason, height as u64);
        reason.append(" RGBA8 needs ");
        if pixels > u64::MAX / 4 {
            reason.append("more than fits in memory");
        } else {
            push_decimal(&mut reason, pixels * 4);
        }
        return Err(AssetError::invalid_format(path, reason.as_str()));
    }
    Ok(Texture { width, height, rgba8 })
}

/// The allocation limit the decoder is given for the budget
/// `max_decode_bytes`: the budget itself, capped at the address space.
pub open spec fn png_limit(max_decode_bytes: u64) -> usize {
    if max_decode_bytes <= usize::MAX {
        max_decode_bytes as usize
    } else {
        usize::MAX
    }
}

/// How decoding ends where the bytes, not the machine, decide it.
pub enum TextureFailure {
    /// Damaged, truncated or inconsistent bytes: `InvalidFormat`.
    Invalid,
    /// A size past a budget: `OverBudget` with these numbers.
    OverBudget { limit: u64, actual: u64 },
    /// A decoder layout this loader does not expand: `UnsupportedFeature`.
    Unsupported,
}

/// The RGBA8 size of a `width` by `height` image as reported in an
/// `OverBudget` error: the size itself, or `u64::MAX` where it does not
/// fit a `u64`.
pub open spec fn reported_size(width: u32, height: u32) -> u64 {
    if rgba8_size(width, height) <= u64::MAX {
        rgba8_size(width, height) as u64
    } else {
        u64::MAX
    }
}

/// What decoding `bytes` under `max_decode_bytes` gives, stage by stage:
/// the header must parse and its size be within budget; the image info
/// must read, within the decoder's limit and the address space, and its
/// size be within budget; the first frame, decoded into a zeroed buffer
/// of the size the info reported, must decode within the decoder's limit
/// to an 8-bit layout this loader expands, hold enough samples and have
/// the image's own dimensions. `Ok` gives the frame as `(width, height,
/// color, raw samples)`.
pub open spec fn texture_decode(bytes: Seq<u8>, max_decode_bytes: u64) -> Result<
    (u32, u32, PngColor, Seq<u8>),
    TextureFailure,
> {
    let limit = png_limit(max_decode_bytes);
    match png_header_of(bytes, limit) {
        None => Err(TextureFailure::Invalid),
        Some(header) => {
            if rgba8_size(header.0, header.1) > max_decode_bytes {
                Err(TextureFailure::OverBudget { limit: max_decode_bytes, actual: reported_size(header.0, header.1) })
            } else {
                match png_info_of(bytes, limit, true) {
                    PngStep::Failed => Err(TextureFailure::Invalid),
                    PngStep::OverLimit => Err(TextureFailure::OverBudget { limit: max_decode_bytes, actual: u64::MAX }),
                    PngStep::Done(info) => {
                        if info.2 > isize::MAX {
                            Err(TextureFailure::OverBudget { limit: max_decode_bytes, actual: u64::MAX })
                        } else if rgba8_size(info.0, info.1) > max_decode_bytes {
                            Err(TextureFailure::OverBudget { limit: max_decode_bytes, actual: reported_size(info.0, info.1) })
                        } else {
                            match png_frame_of(bytes, limit, true, Seq::new(info.2, |i: int| 0u8)) {
                                PngStep::Failed => Err(TextureFailure::Invalid),
                                PngStep::OverLimit => Err(
                                    TextureFailure::OverBudget { limit: max_decode_bytes, actual: u64::MAX },
                                ),
                                PngStep::Done(f) => {
                                    match (PngColor::spec_from_code(f.2), PngDepth::spec_from_bits(f.3)) {
                                        (Some(color), Some(depth)) => {
                                            match bytes_per_pixel(color, depth) {
                                                None => Err(TextureFailure::Unsupported),
                                                Some(bpp) => {
                                                    if f.0 * f.1 * bpp > usize::MAX {
                                                        Err(TextureFailure::OverBudget { limit: u64::MAX, actual: u64::MAX })
                                                    } else if f.4.len() < f.0 * f.1 * bpp {
                                                        Err(TextureFailure::Invalid)
                                                    } else if f.0 != info.0 || f.1 != info.1 {
                                                        Err(TextureFailure::Invalid)
                                                    } else {
                                                        Ok((info.0, info.1, color, f.4))
                                                    }
                                                },
                                            }
                                        },
                                        _ => Err(TextureFailure::Unsupported),
                                    }
                                },
                            }
                        }
                    },
                }
            }
        },
    }
}

/// The frame buffer size decoding `bytes` under `max_decode_bytes`
/// allocates, where the header and the image info pass every check, so
/// that decoding reaches the allocation.
pub open spec fn frame_buffer_size(bytes: Seq<u8>, max_decode_bytes: u64) -> Option<nat> {
    let limit = png_limit(max_decode_bytes);
    match png_header_of(bytes, limit) {
        Some(header) => {
            if rgba8_size(header.0, header.1) > max_decode_bytes {
                None
            } else {
                match png_info_of(bytes, limit, true) {
                    PngStep::Done(info) => {
                        if info.2 <= isize::MAX && rgba8_size(info.0, info.1) <= max_decode_bytes {
                            Some(info.2)
                        } else {
                            None
                        }
                    },
                    _ => None,
                }
            }
        },
        None => None,
    }
}

/// Whether `r` is what decoding `bytes` from `path` under
/// `max_decode_bytes` gives: each outcome the bytes decide, as its error
/// for `path`, or where they decode, the texture of the expanded frame.
/// The one exception depends on the machine: once decoding reaches the
/// frame buffer's allocation, that allocation may fail, which is
/// `OverBudget` under the same budget naming the buffer's size.
pub open spec fn decode_result(path: &str, bytes: Seq<u8>, max_decode_bytes: u64, r: Result<Texture, AssetError>) -> bool {
    ||| match texture_decode(bytes, max_decode_bytes) {
        Ok(f) => r matches Ok(t) && t.width() == f.0 && t.height() == f.1 && t.spec_rgba8() == expanded(
            f.3,
            f.2,
            (f.0 * f.1) as nat,
        ),
        Err(TextureFailure::Invalid) => r matches Err(AssetError::InvalidFormat { path: p, .. }) && p@ == path@,
        Err(TextureFailure::OverBudget { limit, actual }) => r matches Err(
            AssetError::OverBudget { path: p, limit: l, actual: a },
        ) && p@ == path@ && l == limit && a == actual,
        Err(TextureFailure::Unsupported) => r matches Err(AssetError::UnsupportedFeature { path: p, .. }) && p@
            == path@,
    }
    ||| frame_buffer_size(bytes, max_decode_bytes) matches Some(n) && r matches Err(
        AssetError::OverBudget { path: p, limit, actual },
    ) && p@ == path@ && limit == max_decode_bytes && actual == n
}

/// Decodes PNG `bytes` read from `path` into a texture, refusing decodes
/// whose output would exceed `max_decode_bytes`.
///
/// Every PNG color type normalizes to RGBA8 (see `expand_to_rgba8`);
/// samples deeper than 8 bits keep their most significant byte. The size
/// the header claims is checked against the budget before any pixel
/// buffer exists, and the same ceiling is handed to the decoder as its
/// own allocation limit. Failures: damaged or truncated bytes are
/// `InvalidFormat`; a claimed or actual size past the budget is
/// `OverBudget`; a decoder layout this loader does not expand is
/// `UnsupportedFeature`. Every error names `path`. The one failure that
/// depends on the machine rather than the bytes is the frame buffer's
/// allocation, refused as `OverBudget`.
pub fn decode_texture(path: &str, bytes: Vec<u8>, max_decode_bytes: u64) -> (r: Result<Texture, AssetError>)
    ensures
        r matches Ok(t) ==> t.wf() && rgba8_size(t.width(), t.height()) <= max_decode_bytes,
        decode_result(path, bytes@, max_decode_bytes, r),
{
    let limit: usize = if max_decode_bytes <= usize::MAX as u64 {
        max_decode_bytes as usize
    } else {
        usize::MAX
    };
    let mut decoder = png_decoder(bytes.as_slice());
    png_set_limits(&mut decoder, limit);
    png_normalize_to_color8(&mut decoder);
    let (header_width, header_height) = match png_read_header(&mut decoder) {
        Ok(size) => size,
        Err(e) => {
            let mut reason = String::from_str("not a parseable PNG file: ");
            let detail = e.to_string();
            reason.append(detail.as_str());
            return Err(AssetError::invalid_format(path, reason.as_str()));
        },
    };
    match check_decode_budget(path, header_width, header_height, max_decode_bytes) {
        Ok(_) => {},
        Err(e) => {
            return Err(e);
        },
    }
    let mut reader = match png_read_info(decoder) {
        Ok(reader) => reader,
        Err(e) => {
            return Err(map_decode_error(path, max_decode_bytes, &e));
        },
    };
    let (width, height) = png_image_size(&reader);
    match check_decode_budget(path, width, height, max_decode_bytes) {
        Ok(_) => {},
        Err(e) => {
            return Err(e);
        },
    }
    let buffer_size = match png_output_buffer_size(&reader) {
        Some(n) => n,
        None => {
            return Err(AssetError::over_budget(path, max_decode_bytes, u64::MAX));
        },
    };
    let mut raw: Vec<u8> = Vec::new();
    if raw.try_reserve(buffer_size).is_err() {
        return Err(AssetError::over_budget(path, max_decode_bytes, buffer_size as u64));
    }
    raw.resize(buffer_size, 0u8);
    proof {
        assert(raw@ =~= Seq::new(buffer_size as nat, |i: int| 0u8));
    }
    let (frame_width, frame_height, color_code, bit_depth) = match png_next_frame(&mut reader, &mut raw) {
        Ok(frame) => frame,
        Err(e) => {
            return Err(map_decode_error(path, max_decode_bytes, &e));
        },
    };
    let frame = match (PngColor::from_code(color_code), PngDepth::from_bits(bit_depth)) {
        (Some(color), Some(depth)) => FrameLayout { width: frame_width, height: frame_height, color, depth },
        _ => {
            return Err(AssetError::unsupported_feature(path, "PNG decoder output of an unknown layout"));
        },
    };
    let rgba8 = match expand_to_rgba8(path, raw.as_slice(), frame) {
        Ok(v) => v,
        Err(e) => {
            return Err(e);
        },
    };
    if frame.width != width || frame.height != height {
        return Err(AssetError::invalid_format(path, "decoded frame size differs from the image header"));
    }
    proof {
        lemma_expanded_len(raw@, frame.color, (frame.width * frame.height) as nat);
    }
    finish_texture(path, width, height, rgba8)
}

/// The texture in the bytes a read of `path` produced, under the budget
/// `max_decode_bytes`; a failed read is the `Io` error for `path`.
pub fn load_texture_with_budget(path: &str, read: Result<Vec<u8>, std::io::Error>, max_decode_bytes: u64) -> (r:
    Result<Texture, AssetError>)
    ensures
        read is Err ==> (r matches Err(AssetError::Io { path: p, source }) && p@ == path@ && read
            == Err::<Vec<u8>, std::io::Error>(source)),
        r matches Ok(t) ==> t.wf() && rgba8_size(t.width(), t.height()) <= max_decode_bytes,
        read matches Ok(bytes) ==> decode_result(path, bytes@, max_decode_bytes, r),
{
    match read {
        Ok(bytes) => decode_texture(path, bytes, max_decode_bytes),
        Err(e) => Err(AssetError::io(path, e)),
    }
}

/// The texture in the bytes a read of `path` produced, under
/// `DEFAULT_MAX_TEXTURE_BYTES`.
pub fn load_texture(path: &str, read: Result<Vec<u8>, std::io::Error>) -> (r: Result<Texture, AssetError>)
    ensures
        read is Err ==> (r matches Err(AssetError::Io { path: p, source }) && p@ == path@ && read
            == Err::<Vec<u8>, std::io::Error>(source)),
        r matches Ok(t) ==> t.wf() && rgba8_size(t.width(), t.height())
            <= DEFAULT_MAX_TEXTURE_BYTES,
        read matches Ok(bytes) ==> decode_result(path, bytes@, DEFAULT_MAX_TEXTURE_BYTES, r),
{
    load_texture_with_budget(path, read, DEFAULT_MAX_TEXTURE_BYTES)
}

} // verus!
