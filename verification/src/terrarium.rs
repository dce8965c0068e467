//! Web-map raster tiles built from S2 rasters: which S2 level and source
//! serve a zoom level, where each source raster lives, and the Terrarium
//! RGB elevation encoding.
use vstd::prelude::*;
use vstd::std_specs::bits::u64_trailing_zeros;
use crate::cell::{
    cell_parent, cell_token, face_level_col_row_from_cell_id, spec_cell_parent, spec_cell_token,
    spec_face_level_col_row,
};
use crate::text::{
    decimal_digits, ends_with, has_suffix, int_decimal, push_decimal_i64, push_decimal_u64,
    push_str, replace_all, spec_replace,
};

verus! {

/// A tile of a web-map pyramid.
#[derive(Clone, Copy, Debug, PartialEq, Eq, Structural)]
pub struct MapzenTileIndex {
    /// First zoom level is 0.
    pub zoom: i32,
    /// 0 on the left, increasing toward the east.
    pub col: i32,
    /// 0 on top, increasing toward the south.
    pub row: i32,
}

/// The S2 level whose rasters serve a web-map zoom level: four levels
/// shallower, and none past level 30.
pub open spec fn spec_zoom_to_s2_level(zoom: int) -> Option<int> {
    let level = if zoom - 4 > 0 {
        zoom - 4
    } else {
        0
    };
    if 0 <= level <= 30 {
        Some(level)
    } else {
        None
    }
}

/// Web-map zoom levels map onto S2 levels four apart: zoom 4 and below
/// give level 0, zoom `z` up to 34 gives level `z - 4`, and deeper zooms
/// have no S2 level; a deeper zoom never gives a shallower level.
pub proof fn lemma_zoom_levels(zoom: int, deeper: int)
    ensures
        zoom <= 4 ==> spec_zoom_to_s2_level(zoom) == Some(0int),
        4 <= zoom <= 34 ==> spec_zoom_to_s2_level(zoom) == Some(zoom - 4),
        zoom > 34 <==> spec_zoom_to_s2_level(zoom) is None,
        zoom <= deeper && spec_zoom_to_s2_level(deeper) is Some ==> spec_zoom_to_s2_level(zoom)->0
            <= spec_zoom_to_s2_level(deeper)->0,
{
}

/// The S2 raster level for a web-map zoom level.
pub fn mapzen_zoom_to_s2_level(zoom: i32) -> (r: Option<i32>)
    requires
        zoom >= i32::MIN + 4,
    ensures
        match r {
            Some(l) => spec_zoom_to_s2_level(zoom as int) == Some(l as int),
            None => spec_zoom_to_s2_level(zoom as int) is None,
        },
{
    let shifted = zoom - 4;
    let level = if shifted > 0 {
        shifted
    } else {
        0
    };
    if 0 <= level && level <= 30 {
        Some(level)
    } else {
        None
    }
}

/// Why a raster tile cannot be built.
#[derive(Clone, Copy, Debug, PartialEq, Eq, Structural)]
pub enum RasterPlanError {
    /// The zoom level maps to no S2 level.
    UnmappedZoom,
    /// The zoom level is shallower than the content packages and there is
    /// no fallback raster source.
    NoFallback,
}

/// Which S2 rasters a web-map tile is warped from.
#[derive(Debug)]
pub struct RasterTilePlan {
    pub s2_level: i32,
    /// Template of the source raster URIs.
    pub source_template: String,
}

/// The source of a raster tile at `zoom`: the S2 level, and the layer's own
/// rasters at or below the package level, the fallback above it.
pub fn plan_raster_tile(
    zoom: i32,
    package_level: i32,
    template: &str,
    fallback_template: Option<&str>,
) -> (r: Result<RasterTilePlan, RasterPlanError>)
    requires
        zoom >= i32::MIN + 4,
    ensures
        match spec_zoom_to_s2_level(zoom as int) {
            None => r == Err::<RasterTilePlan, RasterPlanError>(RasterPlanError::UnmappedZoom),
            Some(level) => if level < package_level && fallback_template is None {
                r == Err::<RasterTilePlan, RasterPlanError>(RasterPlanError::NoFallback)
            } else {
                r matches Ok(p) && p.s2_level == level && p.source_template@ == if level
                    < package_level {
                    fallback_template.unwrap()@
                } else {
                    template@
                }
            },
        },
{
    let level = match mapzen_zoom_to_s2_level(zoom) {
        Some(l) => l,
        None => {
            return Err(RasterPlanError::UnmappedZoom);
        },
    };
    if level < package_level {
        match fallback_template {
            None => Err(RasterPlanError::NoFallback),
            Some(f) => Ok(RasterTilePlan { s2_level: level, source_template: f.to_owned() }),
        }
    } else {
        Ok(RasterTilePlan { s2_level: level, source_template: template.to_owned() })
    }
}

/// Whether elevation rasters are Terrarium PNGs (otherwise they are
/// LERC/ZSTD TIFFs): the layer's raster template ends in `.png`.
pub fn elevation_source_is_png(template: &str) -> (r: bool)
    ensures
        r == has_suffix(template@, ".png"@),
{
    ends_with(template, ".png")
}

/// A raster template with a cell's package token, face, level, column and
/// row in place of its placeholders.
pub open spec fn spec_resolve_raster_tokens(
    template: Seq<char>,
    package_token: Seq<char>,
    face: u8,
    level: i32,
    col: i32,
    row: i32,
) -> Seq<char> {
    spec_replace(
        spec_replace(
            spec_replace(
                spec_replace(
                    spec_replace(template, "{CONTENT_ROOT_TOKEN}"@, package_token),
                    "{FACE}"@,
                    decimal_digits(face as nat),
                ),
                "{LEVEL}"@,
                int_decimal(level as int),
            ),
            "{COL}"@,
            int_decimal(col as int),
        ),
        "{ROW}"@,
        int_decimal(row as int),
    )
}

/// Replaces `{CONTENT_ROOT_TOKEN}`, `{FACE}`, `{LEVEL}`, `{COL}` and
/// `{ROW}` in a raster template, in that order.
pub fn resolve_elevation_raster_uri_tokens(
    template: &str,
    package_token: u64,
    face: u8,
    level: i32,
    col: i32,
    row: i32,
) -> (r: String)
    ensures
        r@ == spec_resolve_raster_tokens(
            template@,
            spec_cell_token(package_token),
            face,
            level,
            col,
            row,
        ),
{
    proof {
        reveal_strlit("{CONTENT_ROOT_TOKEN}");
        reveal_strlit("{FACE}");
        reveal_strlit("{LEVEL}");
        reveal_strlit("{COL}");
        reveal_strlit("{ROW}");
    }
    let token = cell_token(package_token);
    let mut face_text = String::new();
    push_decimal_u64(&mut face_text, face as u64);
    let mut level_text = String::new();
    push_decimal_i64(&mut level_text, level as i64);
    let mut col_text = String::new();
    push_decimal_i64(&mut col_text, col as i64);
    let mut row_text = String::new();
    push_decimal_i64(&mut row_text, row as i64);
    let a = replace_all(template, "{CONTENT_ROOT_TOKEN}", token.as_str());
    let b = replace_all(a.as_str(), "{FACE}", face_text.as_str());
    let c = replace_all(b.as_str(), "{LEVEL}", level_text.as_str());
    let d = replace_all(c.as_str(), "{COL}", col_text.as_str());
    replace_all(d.as_str(), "{ROW}", row_text.as_str())
}

/// The URI of the raster of cell `token` and of its georeferencing
/// sidecar: the template resolved for the cell and its package at
/// `package_level`.
pub open spec fn spec_raster_source_uris(template: Seq<char>, package_level: i32, token: u64) -> (
    Seq<char>,
    Seq<char>,
) {
    let flcr = spec_face_level_col_row(token);
    let uri = spec_resolve_raster_tokens(
        template,
        spec_cell_token(spec_cell_parent(token, package_level as u64)),
        flcr.0,
        flcr.1,
        flcr.2,
        flcr.3,
    );
    (uri, uri + ".aux.xml"@)
}

/// Where the raster of S2 cell `token` and its sidecar are read from.
pub fn raster_source_uris(template: &str, package_level: i32, token: u64) -> (r: (String, String))
    requires
        0 <= package_level <= 30,
        u64_trailing_zeros(token) <= 61,
    ensures
        (r.0@, r.1@) == spec_raster_source_uris(template@, package_level, token),
{
    let package = cell_parent(token, package_level as u64);
    let (face, level, col, row) = face_level_col_row_from_cell_id(token);
    let uri = resolve_elevation_raster_uri_tokens(template, package, face, level, col, row);
    let mut sidecar = String::new();
    push_str(&mut sidecar, uri.as_str());
    push_str(&mut sidecar, ".aux.xml");
    (uri, sidecar)
}

/// Why a decoded Terrarium PNG cannot be used.
#[derive(Clone, Copy, Debug, PartialEq, Eq, Structural)]
pub enum TerrariumPngError {
    /// The `png` crate cannot read the header.
    UnreadableHeader,
    /// The image is not RGB.
    NotRgb,
    /// The image does not have 8 bits per channel.
    NotEightBit,
    /// The `png` crate cannot decode the first frame.
    UndecodableFrame,
    /// The decoded frame is not width x height RGB pixels.
    FrameSizeMismatch,
}

/// Checks a PNG header for Terrarium elevations: 8-bit RGB.
pub fn check_terrarium_png_header(is_rgb: bool, is_eight_bit: bool) -> (r: Result<
    (),
    TerrariumPngError,
>)
    ensures
        !is_rgb ==> r == Err::<(), TerrariumPngError>(TerrariumPngError::NotRgb),
        is_rgb && !is_eight_bit ==> r == Err::<(), TerrariumPngError>(
            TerrariumPngError::NotEightBit,
        ),
        is_rgb && is_eight_bit ==> r is Ok,
{
    if !is_rgb {
        Err(TerrariumPngError::NotRgb)
    } else if !is_eight_bit {
        Err(TerrariumPngError::NotEightBit)
    } else {
        Ok(())
    }
}

/// Checks that a decoded frame holds exactly `width * height` RGB pixels.
pub fn check_rgb_frame_len(width: u32, height: u32, frame_len: usize) -> (r: Result<
    (),
    TerrariumPngError,
>)
    ensures
        r is Ok <==> frame_len == width * height * 3,
        r is Err ==> r == Err::<(), TerrariumPngError>(TerrariumPngError::FrameSizeMismatch),
{
    assert((width as u128) * (height as u128) * 3 <= 0xffff_ffff * 0xffff_ffff * 3) by (
    nonlinear_arith)
        requires
            width <= 0xffff_ffff,
            height <= 0xffff_ffff,
    ;
    let expected: u128 = (width as u128) * (height as u128) * 3;
    if (frame_len as u128) == expected {
        Ok(())
    } else {
        Err(TerrariumPngError::FrameSizeMismatch)
    }
}

/// The pixels of a flat RGB buffer, three bytes each; trailing bytes that
/// make no whole pixel are dropped.
pub open spec fn spec_rgb_pixels(raw: Seq<u8>) -> Seq<[u8; 3]> {
    Seq::new(raw.len() / 3, |i: int| [raw[3 * i], raw[3 * i + 1], raw[3 * i + 2]])
}

/// Splits a flat RGB buffer into pixels.
pub fn rgb_pixels(raw: &[u8]) -> (r: Vec<[u8; 3]>)
    ensures
        r@ == spec_rgb_pixels(raw@),
{
    let len = raw.len();
    let n = len / 3;
    let mut out: Vec<[u8; 3]> = Vec::new();
    let mut i: usize = 0;
    while i < n
        invariant
            len == raw@.len(),
            n == raw@.len() / 3,
            i <= n,
            out@ =~= spec_rgb_pixels(raw@).subrange(0, i as int),
        decreases n - i,
    {
        assert(3 * i + 2 < raw@.len()) by (nonlinear_arith)
            requires
                i < n,
                n == raw@.len() / 3,
        ;
        assert(3 * i + 2 < len);
        out.push([raw[3 * i], raw[3 * i + 1], raw[3 * i + 2]]);
        i = i + 1;
    }
    out
}

/// The Terrarium value of a pixel in 1/256 m: red is the high byte and
/// green the low byte of the whole metres offset by 32768, blue the
/// fraction in 1/256 m.
pub open spec fn spec_terrarium_value(rgb: [u8; 3]) -> int {
    rgb[0] * 65536 + rgb[1] * 256 + rgb[2] - 32768 * 256
}

/// Decodes a Terrarium pixel to its elevation in 1/256 m.
pub fn terrarium_fixed_from_rgb(rgb: [u8; 3]) -> (r: i32)
    ensures
        r == spec_terrarium_value(rgb),
{
    (rgb[0] as i32) * 65536 + (rgb[1] as i32) * 256 + (rgb[2] as i32) - 8388608
}

/// Encodes whole metres (offset by 32768, so in `0..65536`) and a fraction
/// in 1/256 m as a Terrarium pixel.
pub fn terrarium_rgb(shifted_metres: u32, fraction: u8) -> (r: [u8; 3])
    requires
        shifted_metres < 65536,
    ensures
        r[0] == shifted_metres / 256,
        r[1] == shifted_metres % 256,
        r[2] == fraction,
{
    let hi = (shifted_metres >> 8) as u8;
    let lo = (shifted_metres & 0xff) as u8;
    assert(shifted_metres >> 8 == shifted_metres / 256 && shifted_metres & 0xff == shifted_metres
        % 256) by (bit_vector)
        requires
            shifted_metres < 65536,
    ;
    [hi, lo, fraction]
}

/// A Terrarium pixel decodes to what was encoded: whole metres `m`
/// (offset by 32768) and fraction `f` come back as `(m - 32768) * 256 + f`
/// 1/256 m.
pub proof fn lemma_terrarium_roundtrip(shifted_metres: u32, fraction: u8, rgb: [u8; 3])
    requires
        shifted_metres < 65536,
        rgb[0] == shifted_metres / 256,
        rgb[1] == shifted_metres % 256,
        rgb[2] == fraction,
    ensures
        spec_terrarium_value(rgb) == (shifted_metres - 32768) * 256 + fraction,
{
}

/// What `png::Decoder::read_info` reads from a PNG's header: its width,
/// its height, whether it is RGB and whether it has 8 bits per channel;
/// `None` where it cannot read the header.
pub uninterp spec fn png_header(bytes: Seq<u8>) -> Option<(u32, u32, bool, bool)>;

/// The first frame of a PNG as the `png` crate decodes it (`next_frame`
/// into a buffer of `output_buffer_size` bytes, cut to the frame's size);
/// `None` where it cannot.
pub uninterp spec fn png_first_frame(bytes: Seq<u8>) -> Option<Seq<u8>>;

/// The width, height and pixel bytes of a JPEG as
/// `zune_jpeg::JpegDecoder::decode` gives them with its default options;
/// `None` where it cannot decode it.
pub uninterp spec fn jpeg_decoding(bytes: Seq<u8>) -> Option<(u32, u32, Seq<u8>)>;

/// `png::Decoder::read_info` on `bytes`: the header's width, height, and
/// whether the color type is RGB and the bit depth 8.
#[verifier::external_body]
pub(crate) fn read_png_header(bytes: &[u8]) -> (r: Option<(u32, u32, bool, bool)>)
    ensures
        r == png_header(bytes@),
{
    let reader = png::Decoder::new(std::io::Cursor::new(bytes)).read_info().ok()?;
    let info = reader.info();
    Some((
        info.width,
        info.height,
        info.color_type == png::ColorType::Rgb,
        info.bit_depth == png::BitDepth::Eight,
    ))
}

/// `png::Reader::next_frame` on `bytes`: the first frame decoded into a
/// buffer of `output_buffer_size` bytes and cut to the size the decoder
/// reports. Where the crate gives no buffer size the result is `None`.
#[verifier::external_body]
pub(crate) fn read_png_frame(bytes: &[u8]) -> (r: Option<Vec<u8>>)
    ensures
        match r {
            Some(f) => png_first_frame(bytes@) == Some(f@),
            None => png_first_frame(bytes@) is None,
        },
{
    let mut reader = png::Decoder::new(std::io::Cursor::new(bytes)).read_info().ok()?;
    let mut raw = vec![0u8; reader.output_buffer_size()?];
    let frame = reader.next_frame(&mut raw).ok()?;
    raw.truncate(frame.buffer_size());
    Some(raw)
}

/// `zune_jpeg::JpegDecoder::decode` on `bytes` with the default options,
/// and the image's width and height from `info`.
#[verifier::external_body]
pub(crate) fn decode_jpeg(bytes: &[u8]) -> (r: Option<(u32, u32, Vec<u8>)>)
    ensures
        match r {
            Some(d) => jpeg_decoding(bytes@) == Some((d.0, d.1, d.2@)),
            None => jpeg_decoding(bytes@) is None,
        },
{
    let mut decoder = zune_jpeg::JpegDecoder::new(zune_core::bytestream::ZCursor::new(bytes));
    let pixels = decoder.decode().ok()?;
    let info = decoder.info()?;
    Some((info.width as u32, info.height as u32, pixels))
}

/// What reading a Terrarium PNG gives, from what the `png` crate reads of
/// its header and its first frame: the header must be readable and say
/// 8-bit RGB, the frame must decode to exactly width x height RGB
/// pixels; the result is the width, the height and the pixels.
pub open spec fn spec_terrarium_frame(
    header: Option<(u32, u32, bool, bool)>,
    frame: Option<Seq<u8>>,
) -> Result<(u32, u32, Seq<[u8; 3]>), TerrariumPngError> {
    match header {
        None => Err(TerrariumPngError::UnreadableHeader),
        Some((w, h, is_rgb, is_eight_bit)) => if !is_rgb {
            Err(TerrariumPngError::NotRgb)
        } else if !is_eight_bit {
            Err(TerrariumPngError::NotEightBit)
        } else {
            match frame {
                None => Err(TerrariumPngError::UndecodableFrame),
                Some(f) => if f.len() != w * h * 3 {
                    Err(TerrariumPngError::FrameSizeMismatch)
                } else {
                    Ok((w, h, spec_rgb_pixels(f)))
                },
            }
        },
    }
}

/// A Terrarium PNG is used only when the `png` crate reads it as 8-bit RGB
/// and decodes a frame of exactly its width times height pixels; the
/// pixels are then the frame's bytes taken three at a time, in order.
pub proof fn lemma_terrarium_frame_pixels(header: Option<(u32, u32, bool, bool)>, frame: Option<Seq<u8>>)
    ensures
        spec_terrarium_frame(header, frame) matches Ok((w, h, px)) ==> {
            &&& header == Some((w, h, true, true))
            &&& frame matches Some(f) && f.len() == w * h * 3 && px.len() == w * h && forall|i: int|
                0 <= i < px.len() ==> #[trigger] px[i] == [f[3 * i], f[3 * i + 1], f[3 * i + 2]]
        },
        header is None ==> spec_terrarium_frame(header, frame) == Err::<(u32, u32, Seq<[u8; 3]>), TerrariumPngError>(
            TerrariumPngError::UnreadableHeader,
        ),
        (header matches Some((w, h, rgb, eight)) && rgb && eight && (frame matches Some(f) && f.len()
            == w * h * 3)) ==> spec_terrarium_frame(header, frame) is Ok,
{
    if let Ok((w, h, px)) = spec_terrarium_frame(header, frame) {
        let f = frame.unwrap();
        assert(f.len() / 3 == w * h) by (nonlinear_arith)
            requires
                f.len() == w * h * 3,
        ;
    }
}

/// Decodes a Terrarium elevation PNG into its width, height and RGB
/// pixels.
pub fn terrarium_frame(bytes: &[u8]) -> (r: Result<(u32, u32, Vec<[u8; 3]>), TerrariumPngError>)
    ensures
        match (r, spec_terrarium_frame(png_header(bytes@), png_first_frame(bytes@))) {
            (Ok(a), Ok(b)) => a.0 == b.0 && a.1 == b.1 && a.2@ == b.2,
            (Err(e), Err(f)) => e == f,
            _ => false,
        },
{
    let (width, height, is_rgb, is_eight_bit) = match read_png_header(bytes) {
        None => {
            return Err(TerrariumPngError::UnreadableHeader);
        },
        Some(h) => h,
    };
    match check_terrarium_png_header(is_rgb, is_eight_bit) {
        Err(e) => {
            return Err(e);
        },
        Ok(()) => {},
    }
    let frame = match read_png_frame(bytes) {
        None => {
            return Err(TerrariumPngError::UndecodableFrame);
        },
        Some(f) => f,
    };
    match check_rgb_frame_len(width, height, frame.len()) {
        Err(e) => {
            return Err(e);
        },
        Ok(()) => {},
    }
    Ok((width, height, rgb_pixels(frame.as_slice())))
}

/// Decodes an RGB JPEG into its width, height and pixels (whole RGB
/// triples of the decoded bytes).
pub fn jpeg_pixels(bytes: &[u8]) -> (r: Option<(u32, u32, Vec<[u8; 3]>)>)
    ensures
        match (r, jpeg_decoding(bytes@)) {
            (Some(a), Some(b)) => a.0 == b.0 && a.1 == b.1 && a.2@ == spec_rgb_pixels(b.2),
            (None, None) => true,
            _ => false,
        },
{
    match decode_jpeg(bytes) {
        None => None,
        Some((width, height, raw)) => Some((width, height, rgb_pixels(raw.as_slice()))),
    }
}

} // verus!
