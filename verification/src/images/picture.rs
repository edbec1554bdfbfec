//! Pictures of the `image` crate, and what is known of its operations.

use vstd::prelude::*;

verus! {

/// A picture.
#[verifier::external_type_specification]
#[verifier::external_body]
pub struct ExDynamicImage(image::DynamicImage);

/// The format of a picture's file.
#[derive(Clone, Copy, Debug, PartialEq, Eq, Structural)]
pub enum ImageKind {
    Jpeg,
    Png,
    WebP,
    Avif,
    Gif,
    /// Any other, or none that could be told.
    Unknown,
}

/// Why a file was not decoded.
#[derive(Clone, Copy, Debug, PartialEq, Eq, Structural)]
pub enum DecodeFailure {
    /// It could not be read.
    Unreadable,
    /// It could not be decoded.
    Undecodable,
}

/// The width and the height of a picture.
pub uninterp spec fn picture_size(picture: image::DynamicImage) -> (u32, u32);

/// The pixels of a picture by their column and row, each as red, green, blue
/// and alpha of 8 bits.
pub uninterp spec fn pixels(picture: image::DynamicImage) -> Map<(u32, u32), (u8, u8, u8, u8)>;

/// Everything that a picture holds, written out: its size, its kind of colour,
/// its colour space and its samples.
pub uninterp spec fn content(picture: image::DynamicImage) -> Seq<u8>;

/// The bytes of the buffer that a picture stands over.
pub uninterp spec fn buffer_bytes(picture: image::DynamicImage) -> usize;

/// The bytes of one pixel of a picture.
pub uninterp spec fn pixel_bytes(picture: image::DynamicImage) -> u8;

/// A picture after a quarter turn clockwise.
pub uninterp spec fn rotated90(content: Seq<u8>) -> Seq<u8>;

/// A picture after a half turn.
pub uninterp spec fn rotated180(content: Seq<u8>) -> Seq<u8>;

/// A picture after a quarter turn the other way.
pub uninterp spec fn rotated270(content: Seq<u8>) -> Seq<u8>;

/// A picture with its rows in reverse order.
pub uninterp spec fn flipped(content: Seq<u8>) -> Seq<u8>;

/// A picture with each row in reverse order.
pub uninterp spec fn flopped(content: Seq<u8>) -> Seq<u8>;

/// The part of a picture that lies in a rectangle.
pub uninterp spec fn cropped(
    content: Seq<u8>,
    left: u32,
    top: u32,
    width: u32,
    height: u32,
) -> Seq<u8>;

/// A picture brought to another size by the triangle filter.
pub uninterp spec fn resized(content: Seq<u8>, width: u32, height: u32) -> Seq<u8>;

/// A picture put on a canvas of one colour.
pub uninterp spec fn overlay(
    content: Seq<u8>,
    size: (u32, u32),
    colour: (u8, u8, u8, u8),
    left: u32,
    top: u32,
) -> Seq<u8>;

/// A picture written as a JPEG file of this quality.
pub uninterp spec fn jpeg_written(content: Seq<u8>, quality: u8) -> Option<Seq<u8>>;

/// A picture written as a file of another format.
pub uninterp spec fn file_written(content: Seq<u8>, kind: ImageKind) -> Option<Seq<u8>>;

/// Is the pixel inside?
pub open spec fn inside(size: (u32, u32), x: u32, y: u32) -> bool {
    x < size.0 && y < size.1
}

/// Can a picture of this size be held, whose pixels take `each` bytes?
pub open spec fn holdable(width: u32, height: u32, each: u8) -> bool {
    width * height * each <= isize::MAX
}

/// Can a picture of this size be held, whose pixels take `each` bytes?
pub fn can_hold(width: u32, height: u32, each: u8) -> (holdable: bool)
    ensures
        holdable == self::holdable(width, height, each),
{
    let area: u128 = area_of(width, height);
    proof {
        assert(0 <= width * height * each <= 0xffff_fffe_0000_0001 * 255) by (nonlinear_arith)
            requires
                width <= 0xffff_ffff,
                height <= 0xffff_ffff,
                each <= 255,
        ;
    }
    area * each as u128 <= isize::MAX as u128
}

fn area_of(width: u32, height: u32) -> (area: u128)
    ensures
        area == width * height,
{
    proof {
        assert(0 <= width * height <= 0xffff_fffe_0000_0001) by (nonlinear_arith)
            requires
                width <= 0xffff_ffff,
                height <= 0xffff_ffff,
        ;
    }
    width as u128 * height as u128
}

/// Is this a reply of the decoder to a file?
pub closed spec fn read(
    input: &[u8],
    reply: Result<(image::DynamicImage, ImageKind), DecodeFailure>,
) -> bool {
    call_ensures(decode, (input,), reply)
}

/// `ImageReader` over a file in memory: the guess of its format and its
/// decoding. What it gives depends on the decoders that the process has
/// installed, and for a JPEG file on the processor, so nothing is said of it.
#[verifier::external_body]
fn decode(input: &[u8]) -> (picture: Result<
    (image::DynamicImage, ImageKind),
    DecodeFailure,
>) {
    let reader = image::ImageReader::new(std::io::Cursor::new(input))
        .with_guessed_format()
        .map_err(|_| DecodeFailure::Unreadable)?;
    let kind = match reader.format() {
        Some(image::ImageFormat::Jpeg) => ImageKind::Jpeg,
        Some(image::ImageFormat::Png) => ImageKind::Png,
        Some(image::ImageFormat::WebP) => ImageKind::WebP,
        Some(image::ImageFormat::Avif) => ImageKind::Avif,
        Some(image::ImageFormat::Gif) => ImageKind::Gif,
        _ => ImageKind::Unknown,
    };
    Ok((reader.decode().map_err(|_| DecodeFailure::Undecodable)?, kind))
}

/// Decode a file.
pub(crate) fn read_picture(input: &[u8]) -> (reply: Result<
    (image::DynamicImage, ImageKind),
    DecodeFailure,
>)
    ensures
        read(input, reply),
{
    decode(input)
}

/// `DynamicImage::as_bytes`, and how many they are: the whole buffer that the
/// picture stands over.
#[verifier::external_body]
fn buffer_len(picture: &image::DynamicImage) -> (bytes: usize)
    ensures
        bytes == buffer_bytes(*picture),
{
    picture.as_bytes().len()
}

/// `ColorType::bytes_per_pixel` of `DynamicImage::color`.
#[verifier::external_body]
pub(crate) fn pixel_len(picture: &image::DynamicImage) -> (bytes: u8)
    ensures
        bytes == pixel_bytes(*picture),
{
    picture.color().bytes_per_pixel()
}

/// Does a picture stand over a buffer that holds its pixels and nothing else?
pub open spec fn exact(picture: image::DynamicImage) -> bool {
    buffer_bytes(picture) == picture_size(picture).0 * picture_size(picture).1 * pixel_bytes(picture)
}

/// Does a picture stand over a buffer that holds its pixels and nothing else?
pub fn is_exact(picture: &image::DynamicImage) -> (found: bool)
    ensures
        found == exact(*picture),
{
    let size = size_of(picture);
    let area: u128 = area_of(size.0, size.1);
    let each: u8 = pixel_len(picture);
    proof {
        assert(0 <= size.0 * size.1 * each <= 0xffff_fffe_0000_0001 * 255) by (nonlinear_arith)
            requires
                size.0 <= 0xffff_ffff,
                size.1 <= 0xffff_ffff,
                each <= 255,
        ;
    }
    buffer_len(picture) as u128 == area * each as u128
}

/// Has a picture no pixel?
pub open spec fn empty(size: (u32, u32)) -> bool {
    size.0 == 0 || size.1 == 0
}

/// The bytes of a pixel while a picture is resampled.
pub const SAMPLE_BYTES: u8 = 16;

/// Can the weights of the old pixels behind one new pixel be listed, along an
/// edge? They take 4 bytes each in a vector that grows by doubling. Where there
/// are more than 16 new pixels to an edge, the lists are short enough for every
/// picture that can be held.
pub open spec fn edge_weighed(before: u32, after: u32) -> bool {
    before * 8 <= isize::MAX || after > 16
}

/// Is there room to bring a picture of one size to another, whose pixels take
/// `each` bytes? Besides the result there is a picture of the old width and the
/// new height, but for an empty picture or the same size.
pub open spec fn resizable(src: (u32, u32), each: u8, size: (u32, u32)) -> bool {
    ||| size == src
    ||| holdable(size.0, size.1, each) && (empty(src) || holdable(src.0, size.1, SAMPLE_BYTES)
        && edge_weighed(src.0, size.0) && edge_weighed(src.1, size.1))
}

/// Is there room to bring a picture of one size to another?
pub fn can_resize(src: (u32, u32), each: u8, size: (u32, u32)) -> (resizable: bool)
    ensures
        resizable == self::resizable(src, each, size),
{
    if size.0 == src.0 && size.1 == src.1 {
        return true;
    }
    if !can_hold(size.0, size.1, each) {
        return false;
    }
    if src.0 == 0 || src.1 == 0 {
        return true;
    }
    can_hold(src.0, size.1, SAMPLE_BYTES) && (src.0 as u64 * 8 <= isize::MAX as u64 || size.0 > 16)
        && (src.1 as u64 * 8 <= isize::MAX as u64 || size.1 > 16)
}

/// An old edge that is no longer can be resampled to any new one.
pub const SAMPLED_FROM: u32 = 4194304;

/// Any old edge can be resampled to a new one that is no longer.
pub const SAMPLED_TO: u32 = 8388608;

/// Is it sure that the resampling finds a pixel at each place along an edge?
pub open spec fn edge_sampled(before: u32, after: u32) -> bool {
    before <= SAMPLED_FROM || after <= SAMPLED_TO
}

/// Can a picture of one size be resampled to another? Nothing is resampled
/// where there are no pixels, or where the size stays.
pub open spec fn sampled(src: (u32, u32), size: (u32, u32)) -> bool {
    ||| size == src
    ||| empty(src)
    ||| empty(size)
    ||| edge_sampled(src.0, size.0) && edge_sampled(src.1, size.1)
}

/// Can a picture of one size be resampled to another?
pub fn can_sample(src: (u32, u32), size: (u32, u32)) -> (sampled: bool)
    ensures
        sampled == self::sampled(src, size),
{
    if size.0 == src.0 && size.1 == src.1 {
        return true;
    }
    if src.0 == 0 || src.1 == 0 || size.0 == 0 || size.1 == 0 {
        return true;
    }
    (src.0 <= SAMPLED_FROM || size.0 <= SAMPLED_TO) && (src.1 <= SAMPLED_FROM || size.1
        <= SAMPLED_TO)
}

/// `DynamicImage::width` and `DynamicImage::height`.
#[verifier::external_body]
pub(crate) fn size_of(picture: &image::DynamicImage) -> (size: (u32, u32))
    ensures
        size == picture_size(*picture),
{
    (picture.width(), picture.height())
}

/// `DynamicImage::rotate90`: a quarter turn clockwise. The pixels of 8 bits
/// are stated; what else the picture holds depends on the picture alone.
#[verifier::external_body]
pub(crate) fn rotate90(picture: &image::DynamicImage) -> (turned: image::DynamicImage)
    ensures
        exact(turned),
        content(turned) == rotated90(content(*picture)),
        picture_size(turned) == (picture_size(*picture).1, picture_size(*picture).0),
        forall|x: u32, y: u32| #[trigger]
            inside(picture_size(*picture), x, y) ==> pixels(turned)[(
                (picture_size(*picture).1 - 1 - y) as u32,
                x,
            )] == pixels(*picture)[(x, y)],
{
    picture.rotate90()
}

/// `DynamicImage::rotate180`: a half turn. The pixels of 8 bits are stated; what
/// else the picture holds depends on the picture alone.
#[verifier::external_body]
pub(crate) fn rotate180(picture: &image::DynamicImage) -> (turned: image::DynamicImage)
    ensures
        exact(turned),
        content(turned) == rotated180(content(*picture)),
        picture_size(turned) == picture_size(*picture),
        forall|x: u32, y: u32| #[trigger]
            inside(picture_size(*picture), x, y) ==> pixels(turned)[(
                (picture_size(*picture).0 - 1 - x) as u32,
                (picture_size(*picture).1 - 1 - y) as u32,
            )] == pixels(*picture)[(x, y)],
{
    picture.rotate180()
}

/// `DynamicImage::rotate270`: a quarter turn the other way. The pixels of 8 bits
/// are stated; what else the picture holds depends on the picture alone.
#[verifier::external_body]
pub(crate) fn rotate270(picture: &image::DynamicImage) -> (turned: image::DynamicImage)
    ensures
        exact(turned),
        content(turned) == rotated270(content(*picture)),
        picture_size(turned) == (picture_size(*picture).1, picture_size(*picture).0),
        forall|x: u32, y: u32| #[trigger]
            inside(picture_size(*picture), x, y) ==> pixels(turned)[(
                y,
                (picture_size(*picture).0 - 1 - x) as u32,
            )] == pixels(*picture)[(x, y)],
{
    picture.rotate270()
}

/// `DynamicImage::flipv`: the rows in reverse order. The pixels of 8 bits are
/// stated; what else the picture holds depends on the picture alone.
#[verifier::external_body]
pub(crate) fn flipv(picture: &image::DynamicImage) -> (turned: image::DynamicImage)
    ensures
        exact(turned),
        content(turned) == flipped(content(*picture)),
        picture_size(turned) == picture_size(*picture),
        forall|x: u32, y: u32| #[trigger]
            inside(picture_size(*picture), x, y) ==> pixels(turned)[(
                x,
                (picture_size(*picture).1 - 1 - y) as u32,
            )] == pixels(*picture)[(x, y)],
{
    picture.flipv()
}

/// `DynamicImage::fliph`: each row in reverse order. The pixels of 8 bits are
/// stated; what else the picture holds depends on the picture alone.
#[verifier::external_body]
pub(crate) fn fliph(picture: &image::DynamicImage) -> (turned: image::DynamicImage)
    ensures
        exact(turned),
        content(turned) == flopped(content(*picture)),
        picture_size(turned) == picture_size(*picture),
        forall|x: u32, y: u32| #[trigger]
            inside(picture_size(*picture), x, y) ==> pixels(turned)[(
                (picture_size(*picture).0 - 1 - x) as u32,
                y,
            )] == pixels(*picture)[(x, y)],
{
    picture.fliph()
}

/// `DynamicImage::resize_exact` with the triangle filter: a picture of the size
/// that was asked for. At its own size a picture keeps its pixels; what the
/// filter makes of them at another depends on the picture and the size alone
/// and is not stated.
///
/// The filter weighs, for each new pixel, the old ones around the place of its
/// centre, and panics where all weights are zero. Some old pixel lies within
/// half a pixel of every place that is inside the picture, so all weights are
/// zero only where the place of the last new pixels comes to lie too far behind
/// the old edge. The places are reckoned in numbers of 24 bits.
///
/// Up to 2^23 new pixels their centres are exact, and the ratio of the edges is
/// too large by one part in 2^24 at most, which over all of them is no more
/// than half a new pixel. So no place lies behind the old edge as it is rounded,
/// and the last old pixel is within what the filter spans. From up to 2^22 old
/// pixels to more new ones, a centre is rounded to no more than the new edge, so
/// the place lies behind the old edge by a quarter of an old pixel at most, and
/// the last old pixel is within three quarters. On longer edges it depends on
/// how the ratio is rounded: from 5051028 pixels to 9047458 all weights of the
/// last one are zero, and so they are from 8388610 to as many.
#[verifier::external_body]
pub(crate) fn resize_exact(picture: &image::DynamicImage, width: u32, height: u32) -> (resized:
    image::DynamicImage)
    requires
        resizable(picture_size(*picture), pixel_bytes(*picture), (width, height)),
        sampled(picture_size(*picture), (width, height)),
    ensures
        exact(resized),
        picture_size(resized) == (width, height),
        content(resized) == self::resized(content(*picture), width, height),
        (width, height) == picture_size(*picture) ==> forall|x: u32, y: u32| #[trigger]
            inside(picture_size(*picture), x, y) ==> pixels(resized)[(x, y)] == pixels(
                *picture,
            )[(x, y)],
{
    picture.resize_exact(width, height, image::imageops::FilterType::Triangle)
}

/// The smaller of two numbers.
pub open spec fn smaller(left: int, right: int) -> int {
    if left < right {
        left
    } else {
        right
    }
}

/// Is `part` what of a picture lies in a rectangle?
pub open spec fn crop_of(
    part: image::DynamicImage,
    picture: image::DynamicImage,
    left: u32,
    top: u32,
    width: u32,
    height: u32,
) -> bool {
    let size = picture_size(picture);
    let x0 = smaller(left as int, size.0 as int);
    let y0 = smaller(top as int, size.1 as int);
    &&& picture_size(part).0 == smaller(width as int, size.0 - x0)
    &&& picture_size(part).1 == smaller(height as int, size.1 - y0)
    &&& forall|x: u32, y: u32| #[trigger]
        inside(picture_size(part), x, y) ==> pixels(part)[(x, y)] == pixels(picture)[(
            (x0 + x) as u32,
            (y0 + y) as u32,
        )]
}

/// `DynamicImage::crop_imm`: the part of a picture that lies in a rectangle. The
/// pixels of 8 bits are stated; what else the part holds depends on the picture
/// and the rectangle alone.
#[verifier::external_body]
pub(crate) fn crop_imm(
    picture: &image::DynamicImage,
    left: u32,
    top: u32,
    width: u32,
    height: u32,
) -> (part: image::DynamicImage)
    ensures
        crop_of(part, *picture, left, top, width, height),
        content(part) == cropped(content(*picture), left, top, width, height),
        exact(part),
{
    picture.crop_imm(left, top, width, height)
}

/// Does the pixel lie where a picture of `size` was put?
pub open spec fn overlaid(left: u32, top: u32, size: (u32, u32), x: u32, y: u32) -> bool {
    left <= x < left + size.0 && top <= y < top + size.1
}

/// The bytes of a pixel of a canvas.
pub const CANVAS_BYTES: u8 = 4;

/// Is `padded` a canvas of one colour with a picture put on it? Its colour
/// shows beside the picture and where that is clear, and an opaque pixel covers
/// it.
pub open spec fn padding_of(
    padded: image::DynamicImage,
    picture: image::DynamicImage,
    size: (u32, u32),
    colour: (u8, u8, u8, u8),
    left: u32,
    top: u32,
) -> bool {
    &&& picture_size(padded) == size
    &&& forall|x: u32, y: u32| #[trigger]
        inside(size, x, y) ==> if overlaid(left, top, picture_size(picture), x, y) {
            let pixel = pixels(picture)[((x - left) as u32, (y - top) as u32)];
            &&& pixel.3 == 255 ==> pixels(padded)[(x, y)] == pixel
            &&& pixel.3 == 0 ==> pixels(padded)[(x, y)] == colour
        } else {
            pixels(padded)[(x, y)] == colour
        }
}

/// `RgbaImage::from_pixel` and `imageops::overlay` on it. How pixels are mixed
/// that are neither opaque nor clear depends on the arguments alone and is not
/// stated.
#[verifier::external_body]
pub(crate) fn pad_onto(
    picture: &image::DynamicImage,
    size: (u32, u32),
    colour: (u8, u8, u8, u8),
    left: u32,
    top: u32,
) -> (padded: image::DynamicImage)
    requires
        holdable(size.0, size.1, CANVAS_BYTES),
    ensures
        padding_of(padded, *picture, size, colour, left, top),
        content(padded) == overlay(content(*picture), size, colour, left, top),
        exact(padded),
{
    let pixel = image::Rgba([colour.0, colour.1, colour.2, colour.3]);
    let canvas = image::RgbaImage::from_pixel(size.0, size.1, pixel);
    let mut padded = image::DynamicImage::ImageRgba8(canvas);
    image::imageops::overlay(&mut padded, picture, left.into(), top.into());
    padded
}

/// `JpegEncoder` of this quality, over the picture as 8-bit colours; nothing
/// where it fails. The result depends on the picture and the quality alone; the
/// format is not stated.
#[verifier::external_body]
fn encode_jpeg(picture: &image::DynamicImage, quality: u8) -> (bytes: Option<Vec<u8>>)
    requires
        1 <= quality <= 100,
        exact(*picture),
        !empty(picture_size(*picture)),
    ensures
        match bytes {
            Some(bytes) => jpeg_written(content(*picture), quality) == Some(bytes@),
            None => jpeg_written(content(*picture), quality) is None,
        },
{
    let mut bytes = Vec::new();
    let cursor = std::io::Cursor::new(&mut bytes);
    let encoder = image::codecs::jpeg::JpegEncoder::new_with_quality(cursor, quality);
    let colour = image::ExtendedColorType::Rgb8;
    let (width, height) = (picture.width(), picture.height());
    let rgb = picture.to_rgb8();
    image::ImageEncoder::write_image(encoder, rgb.as_raw(), width, height, colour).ok()?;
    Some(bytes)
}

/// Is this what was written when a picture was given to be written in a format?
pub closed spec fn wrote(
    picture: image::DynamicImage,
    kind: ImageKind,
    bytes: Option<Vec<u8>>,
) -> bool {
    call_ensures(write_to, (&picture, kind), bytes)
}

/// `DynamicImage::write_to` in a format; nothing where it fails. The result
/// depends on the picture and the format alone, but for AVIF, whose encoder
/// splits its work by the machine's threads. The formats are not stated.
#[verifier::external_body]
fn write_to(picture: &image::DynamicImage, kind: ImageKind) -> (bytes: Option<Vec<u8>>)
    requires
        kind is Png || kind is WebP || kind is Avif,
        exact(*picture),
        !empty(picture_size(*picture)),
    ensures
        !(kind is Avif) ==> match bytes {
            Some(bytes) => file_written(content(*picture), kind) == Some(bytes@),
            None => file_written(content(*picture), kind) is None,
        },
{
    let format = match kind {
        ImageKind::WebP => image::ImageFormat::WebP,
        ImageKind::Avif => image::ImageFormat::Avif,
        _ => image::ImageFormat::Png,
    };
    let mut bytes = Vec::new();
    picture.write_to(&mut std::io::Cursor::new(&mut bytes), format).ok()?;
    Some(bytes)
}

/// Write a picture in a format other than JPEG; one without pixels is written in
/// none.
pub(crate) fn write_picture(picture: &image::DynamicImage, kind: ImageKind) -> (bytes: Option<Vec<u8>>)
    requires
        exact(*picture),
        kind is Png || kind is WebP || kind is Avif,
    ensures
        if empty(picture_size(*picture)) {
            bytes is None
        } else {
            &&& wrote(*picture, kind, bytes)
            &&& !(kind is Avif) ==> match bytes {
                Some(bytes) => file_written(content(*picture), kind) == Some(bytes@),
                None => file_written(content(*picture), kind) is None,
            }
        },
{
    let size = size_of(picture);
    if size.0 == 0 || size.1 == 0 {
        return None;
    }
    write_to(picture, kind)
}

/// Write a picture as a JPEG file; one without pixels is not written.
pub(crate) fn write_jpeg(picture: &image::DynamicImage, quality: u8) -> (bytes: Option<Vec<u8>>)
    requires
        exact(*picture),
        1 <= quality <= 100,
    ensures
        if empty(picture_size(*picture)) {
            bytes is None
        } else {
            match bytes {
                Some(bytes) => jpeg_written(content(*picture), quality) == Some(bytes@),
                None => jpeg_written(content(*picture), quality) is None,
            }
        },
{
    let size = size_of(picture);
    if size.0 == 0 || size.1 == 0 {
        return None;
    }
    encode_jpeg(picture, quality)
}

/// A picture can be held exactly when its bytes fit in one allocation.
pub proof fn law_picture_is_held_if_its_bytes_fit(width: u32, height: u32, each: u8, held: bool)
    requires
        call_ensures(can_hold, (width, height, each), held),
    ensures
        held <==> (width as int * height as int) * each as int <= isize::MAX as int,
{
}

/// A buffer is exact when it has neither a byte more nor a byte less than the
/// pixels take.
pub proof fn law_exact_buffer_holds_the_pixels(picture: image::DynamicImage, found: bool)
    requires
        call_ensures(is_exact, (&picture,), found),
    ensures
        found <==> buffer_bytes(picture) as int == (picture_size(picture).0 as int * picture_size(
            picture,
        ).1 as int) * pixel_bytes(picture) as int,
{
}

/// There is room for a resize where the outcome fits, and the picture of the old
/// width and the new height at 16 bytes a pixel; and never where the outcome does
/// not fit. A picture can always keep its size.
pub proof fn law_resize_needs_room(src: (u32, u32), each: u8, size: (u32, u32), room: bool)
    requires
        call_ensures(can_resize, (src, each, size), room),
    ensures
        size == src ==> room,
        size != src && (size.0 as int * size.1 as int) * each as int > isize::MAX as int ==> !room,
        size != src && src.0 > 0 && src.1 > 0 && (src.0 as int * size.1 as int) * 16
            > isize::MAX as int ==> !room,
        (size.0 as int * size.1 as int) * each as int <= isize::MAX as int && (src.0 as int
            * size.1 as int) * 16 <= isize::MAX as int && src.0 <= 0x0fff_ffff && src.1
            <= 0x0fff_ffff ==> room,
{
}

/// Every edge that shrinks to 8388608 pixels or grows from 4194304 can be
/// resampled, and so can a picture that keeps its size or has no pixel. Where both
/// of an edge are longer, it is not tried.
pub proof fn law_edges_are_resampled_up_to_a_length(
    src: (u32, u32),
    size: (u32, u32),
    sampled: bool,
)
    requires
        call_ensures(can_sample, (src, size), sampled),
    ensures
        size.0 <= 8388608 && size.1 <= 8388608 ==> sampled,
        src.0 <= 4194304 && src.1 <= 4194304 ==> sampled,
        src.0 <= 4194304 && size.1 <= 8388608 ==> sampled,
        size.0 <= 8388608 && src.1 <= 4194304 ==> sampled,
        src == size ==> sampled,
        src.0 == 0 || src.1 == 0 || size.0 == 0 || size.1 == 0 ==> sampled,
        src != size && src.1 > 0 && size.1 > 0 && src.0 > 4194304 && size.0 > 8388608 ==> !sampled,
        src != size && src.0 > 0 && size.0 > 0 && src.1 > 4194304 && size.1 > 8388608 ==> !sampled,
{
}

} // verus!
