//! From a file to a file: decoding, the transforms one after another, and
//! encoding.

use vstd::prelude::*;
use crate::images::picture;
use crate::images::picture::{DecodeFailure, ImageKind};
use crate::images::transform;
use crate::images::transform::{Gravity, Output, OutputPlan, Resize, Transform, Turn};

verus! {

/// What a caller computes of sizes, in floating point.
pub trait Sizing<P> {
    /// The largest size within what was asked for that keeps the proportions
    /// of `src`.
    fn contain(&self, src: (u32, u32), width: Option<u32>, height: Option<u32>) -> (u32, u32);

    /// The smallest size that keeps the proportions of `src` and covers `dst`.
    fn cover(&self, src: (u32, u32), dst: (u32, u32)) -> (u32, u32);

    /// Where a crop starts that leaves `room` over and is taken from `point`,
    /// if the point lies within the picture.
    fn origin(&self, point: &P, room: (u32, u32)) -> Option<(u32, u32)>;
}

/// What is told of a picture.
#[derive(Debug)]
pub struct ImageInfo {
    pub format: String,
    pub width: u32,
    pub height: u32,
}

/// The message for a file that was not decoded.
pub open spec fn decode_refusal(failure: DecodeFailure) -> Seq<char> {
    match failure {
        DecodeFailure::Unreadable => "Images could not read the input"@,
        DecodeFailure::Undecodable => "Images could not decode the input"@,
    }
}

/// The message for a file that was not decoded.
pub fn decode_message(failure: DecodeFailure) -> (message: String)
    ensures
        message@ == decode_refusal(failure),
{
    match failure {
        DecodeFailure::Unreadable => "Images could not read the input".to_owned(),
        DecodeFailure::Undecodable => "Images could not decode the input".to_owned(),
    }
}

/// What is told of a picture of this format and size.
pub fn describe(kind: ImageKind, size: (u32, u32)) -> (told: ImageInfo)
    ensures
        told.format@ == transform::media_type(kind),
        told.width == size.0,
        told.height == size.1,
{
    ImageInfo { format: transform::format_name(kind), width: size.0, height: size.1 }
}

/// The format and size of the picture in a file.
pub fn info(input: &[u8]) -> (told: Result<ImageInfo, String>)
    ensures
        !(0 < input@.len() <= 33554432) ==> (told matches Err(message) && message@
            == transform::input_refusal(input@.len() as usize)),
        0 < input@.len() <= 33554432 ==> exists|
            reply: Result<(image::DynamicImage, ImageKind), DecodeFailure>,
        | #[trigger]
            picture::read(input, reply) && match reply {
                Err(failure) => told matches Err(message) && message@ == decode_refusal(failure),
                Ok((decoded, kind)) => told matches Ok(told) && told.format@
                    == transform::media_type(kind) && told.width == picture::picture_size(decoded).0
                    && told.height == picture::picture_size(decoded).1,
            },
{
    match transform::check_input(input.len()) {
        Ok(()) => {},
        Err(message) => return Err(message),
    }
    let reply = picture::read_picture(input);
    match reply {
        Ok((decoded, kind)) => Ok(describe(kind, picture::size_of(&decoded))),
        Err(failure) => Err(decode_message(failure)),
    }
}

/// The size of a picture after a turn.
pub open spec fn turned_size(turn: Turn, size: (u32, u32)) -> (u32, u32) {
    match turn {
        Turn::Full => size,
        Turn::Half => size,
        Turn::Quarter => (size.1, size.0),
        Turn::ThreeQuarters => (size.1, size.0),
    }
}

/// Where a pixel of a picture of this size lies after a turn.
pub open spec fn turned_place(turn: Turn, size: (u32, u32), x: u32, y: u32) -> (u32, u32) {
    match turn {
        Turn::Full => (x, y),
        Turn::Quarter => ((size.1 - 1 - y) as u32, x),
        Turn::Half => ((size.0 - 1 - x) as u32, (size.1 - 1 - y) as u32),
        Turn::ThreeQuarters => (y, (size.0 - 1 - x) as u32),
    }
}

/// Where a pixel lies after the picture was turned upside down (`flip`) and
/// left to right (`flop`).
pub open spec fn flipped_place(size: (u32, u32), flip: bool, flop: bool, at: (u32, u32)) -> (
    u32,
    u32,
) {
    (
        if flop {
            (size.0 - 1 - at.0) as u32
        } else {
            at.0
        },
        if flip {
            (size.1 - 1 - at.1) as u32
        } else {
            at.1
        },
    )
}

/// Where a pixel lies after a turn and the flips.
pub open spec fn moved_place(turn: Turn, flip: bool, flop: bool, size: (u32, u32), x: u32, y: u32) -> (
    u32,
    u32,
) {
    flipped_place(turned_size(turn, size), flip, flop, turned_place(turn, size, x, y))
}

/// What a picture holds after a turn and the flips.
pub open spec fn moved_content(turn: Turn, flip: bool, flop: bool, content: Seq<u8>) -> Seq<u8> {
    let turned = match turn {
        Turn::Full => content,
        Turn::Quarter => picture::rotated90(content),
        Turn::Half => picture::rotated180(content),
        Turn::ThreeQuarters => picture::rotated270(content),
    };
    let flipped = if flip {
        picture::flipped(turned)
    } else {
        turned
    };
    if flop {
        picture::flopped(flipped)
    } else {
        flipped
    }
}

/// Is `after` the picture `before`, turned and then flipped?
pub open spec fn moved(
    turn: Turn,
    flip: bool,
    flop: bool,
    before: image::DynamicImage,
    after: image::DynamicImage,
) -> bool {
    let size = picture::picture_size(before);
    &&& picture::picture_size(after) == turned_size(turn, size)
    &&& picture::content(after) == moved_content(turn, flip, flop, picture::content(before))
    &&& picture::exact(before) ==> picture::exact(after)
    &&& forall|x: u32, y: u32| #[trigger]
        picture::inside(size, x, y) ==> picture::pixels(after)[moved_place(
            turn,
            flip,
            flop,
            size,
            x,
            y,
        )] == picture::pixels(before)[(x, y)]
}

/// Two pixels of a picture lie apart after any turn and flips, and within the
/// new picture: none is lost.
pub proof fn law_moving_loses_no_pixel(
    turn: Turn,
    flip: bool,
    flop: bool,
    size: (u32, u32),
    x: u32,
    y: u32,
    other_x: u32,
    other_y: u32,
)
    requires
        picture::inside(size, x, y),
        picture::inside(size, other_x, other_y),
        (x, y) != (other_x, other_y),
    ensures
        moved_place(turn, flip, flop, size, x, y) != moved_place(
            turn,
            flip,
            flop,
            size,
            other_x,
            other_y,
        ),
        picture::inside(
            turned_size(turn, size),
            moved_place(turn, flip, flop, size, x, y).0,
            moved_place(turn, flip, flop, size, x, y).1,
        ),
{
}

/// A turn and its complement leave every pixel where it was.
pub proof fn law_complementary_turns_cancel(degrees: i32, size: (u32, u32), x: u32, y: u32)
    requires
        degrees > i32::MIN,
        transform::turn_of(degrees) is Some,
        picture::inside(size, x, y),
    ensures
        transform::turn_of((-degrees) as i32) is Some,
        ({
            let there = transform::turn_of(degrees)->0;
            let back = transform::turn_of((-degrees) as i32)->0;
            let middle = turned_size(there, size);
            let at = turned_place(there, size, x, y);
            turned_size(back, middle) == size && turned_place(back, middle, at.0, at.1) == (x, y)
        }),
{
}

/// The degrees that a transform asks for: none where it says nothing.
pub open spec fn degrees_asked<P>(asked: Transform<P>) -> i32 {
    match asked.rotate {
        Some(degrees) => degrees,
        None => 0,
    }
}

fn turn_picture(held: image::DynamicImage, turn: Turn, flip: bool, flop: bool) -> (after:
    image::DynamicImage)
    ensures
        moved(turn, flip, flop, held, after),
{
    let ghost size = picture::picture_size(held);
    let turned = match turn {
        Turn::Full => held,
        Turn::Quarter => picture::rotate90(&held),
        Turn::Half => picture::rotate180(&held),
        Turn::ThreeQuarters => picture::rotate270(&held),
    };
    assert(moved(turn, false, false, held, turned));
    let ghost middle = picture::picture_size(turned);
    let flipped = if flip {
        picture::flipv(&turned)
    } else {
        turned
    };
    assert forall|x: u32, y: u32| #[trigger]
        picture::inside(size, x, y) implies picture::pixels(flipped)[moved_place(
        turn,
        flip,
        false,
        size,
        x,
        y,
    )] == picture::pixels(held)[(x, y)] by {
        let at = turned_place(turn, size, x, y);
        assert(picture::inside(middle, at.0, at.1));
        assert(moved_place(turn, false, false, size, x, y) == at);
    }
    assert(moved(turn, flip, false, held, flipped));
    let flopped = if flop {
        picture::fliph(&flipped)
    } else {
        flipped
    };
    assert forall|x: u32, y: u32| #[trigger]
        picture::inside(size, x, y) implies picture::pixels(flopped)[moved_place(
        turn,
        flip,
        flop,
        size,
        x,
        y,
    )] == picture::pixels(held)[(x, y)] by {
        let at = moved_place(turn, flip, false, size, x, y);
        assert(picture::inside(middle, at.0, at.1));
    }
    flopped
}

/// Is `after` the picture `before` at this size? At its own size it keeps its
/// pixels.
pub open spec fn scaled(
    before: image::DynamicImage,
    after: image::DynamicImage,
    size: (u32, u32),
) -> bool {
    &&& picture::picture_size(after) == size
    &&& picture::exact(after)
    &&& picture::content(after) == picture::resized(picture::content(before), size.0, size.1)
    &&& size == picture::picture_size(before) ==> forall|x: u32, y: u32| #[trigger]
        picture::inside(size, x, y) ==> picture::pixels(after)[(x, y)] == picture::pixels(
            before,
        )[(x, y)]
}

/// The message for a picture that is too large to be held.
pub open spec fn unholdable() -> Seq<char> {
    "Images.transform() result does not fit in memory"@
}

fn unholdable_text() -> (message: String)
    ensures
        message@ == unholdable(),
{
    "Images.transform() result does not fit in memory".to_owned()
}

/// The message for an edge that is too long to be resampled.
pub open spec fn unsampled() -> Seq<char> {
    "Images.transform() cannot resample an edge that long"@
}

/// Why a picture cannot be brought to a size, if it cannot.
pub open spec fn scale_refusal(before: image::DynamicImage, size: (u32, u32)) -> Option<Seq<char>> {
    let src = picture::picture_size(before);
    if !picture::resizable(src, picture::pixel_bytes(before), size) {
        Some(unholdable())
    } else if !picture::sampled(src, size) {
        Some(unsampled())
    } else {
        None
    }
}

/// A picture brought to a size.
pub open spec fn scale_result(
    before: image::DynamicImage,
    size: (u32, u32),
    result: Result<image::DynamicImage, String>,
) -> bool {
    match scale_refusal(before, size) {
        None => result matches Ok(after) && scaled(before, after, size),
        Some(reason) => result matches Err(message) && message@ == reason,
    }
}

fn scale(before: &image::DynamicImage, size: (u32, u32)) -> (result: Result<
    image::DynamicImage,
    String,
>)
    ensures
        scale_result(*before, size, result),
{
    let src = picture::size_of(before);
    if !picture::can_resize(src, picture::pixel_len(before), size) {
        return Err(unholdable_text());
    }
    if !picture::can_sample(src, size) {
        return Err("Images.transform() cannot resample an edge that long".to_owned());
    }
    Ok(picture::resize_exact(before, size.0, size.1))
}

/// The background that a transform asks for: black where it says nothing.
pub open spec fn background_asked(background: Option<String>) -> Seq<char> {
    match background {
        Some(name) => name@,
        None => "#000000"@,
    }
}

/// Half of what a picture leaves over of a canvas, before it.
pub open spec fn margin(canvas: u32, edge: u32) -> u32 {
    transform::room_of(canvas, edge) / 2
}

/// Is `after` the picture `before` in the middle of a canvas of one colour?
pub open spec fn padded(
    before: image::DynamicImage,
    after: image::DynamicImage,
    canvas: (u32, u32),
    colour: (u8, u8, u8, u8),
) -> bool {
    let left = margin(canvas.0, picture::picture_size(before).0);
    let top = margin(canvas.1, picture::picture_size(before).1);
    &&& picture::padding_of(after, before, canvas, colour, left, top)
    &&& picture::exact(after)
    &&& picture::content(after) == picture::overlay(
        picture::content(before),
        canvas,
        colour,
        left,
        top,
    )
}

/// A picture put in the middle of a canvas. One that reaches its size both
/// ways is left as it is, whatever the background.
pub open spec fn pad_result(
    before: image::DynamicImage,
    canvas: (u32, u32),
    background: Option<String>,
    result: Result<image::DynamicImage, String>,
) -> bool {
    let src = picture::picture_size(before);
    let name = background_asked(background);
    if src.0 >= canvas.0 && src.1 >= canvas.1 {
        result == Ok::<image::DynamicImage, String>(before)
    } else {
        match transform::colour_of(name) {
            None => result matches Err(message) && message@ == transform::bad_colour(
                crate::text::debug_quoted(name),
            ),
            Some(colour) => if picture::holdable(canvas.0, canvas.1, picture::CANVAS_BYTES) {
                result matches Ok(after) && padded(
                    before,
                    after,
                    canvas,
                    (colour.0 as u8, colour.1 as u8, colour.2 as u8, colour.3 as u8),
                )
            } else {
                result matches Err(message) && message@ == unholdable()
            },
        }
    }
}

fn pad(before: image::DynamicImage, canvas: (u32, u32), background: &Option<String>) -> (result:
    Result<image::DynamicImage, String>)
    ensures
        pad_result(before, canvas, *background, result),
{
    let src = picture::size_of(&before);
    if src.0 >= canvas.0 && src.1 >= canvas.1 {
        return Ok(before);
    }
    let name: &str = match background {
        Some(name) => name.as_str(),
        None => "#000000",
    };
    let colour = match transform::parse_background(name) {
        Ok(colour) => colour,
        Err(message) => return Err(message),
    };
    if !picture::can_hold(canvas.0, canvas.1, picture::CANVAS_BYTES) {
        return Err(unholdable_text());
    }
    let left: u32 = canvas.0.saturating_sub(src.0) / 2;
    let top: u32 = canvas.1.saturating_sub(src.1) / 2;
    Ok(picture::pad_onto(&before, canvas, colour, left, top))
}

/// The larger of two edges.
pub open spec fn longer(left: u32, right: u32) -> u32 {
    if left < right {
        right
    } else {
        left
    }
}

fn max_edge(left: u32, right: u32) -> (edge: u32)
    ensures
        edge == longer(left, right),
{
    if left < right {
        right
    } else {
        left
    }
}

/// A picture that was scaled for a crop: untouched where it has the size.
pub open spec fn scaled_for_crop(
    before: image::DynamicImage,
    after: image::DynamicImage,
    size: (u32, u32),
) -> bool {
    if size == picture::picture_size(before) {
        after == before
    } else {
        scale_refusal(before, size) is None && scaled(before, after, size)
    }
}

/// What of a scaled picture is left by a crop to `dst`. `point` is where it
/// starts from a point.
pub open spec fn crop_result<P>(
    scaled: image::DynamicImage,
    size: (u32, u32),
    dst: (u32, u32),
    gravity: Option<Gravity<P>>,
    point: Option<(u32, u32)>,
    result: Result<image::DynamicImage, String>,
) -> bool {
    match transform::origin_of(size, dst, gravity, point) {
        Some(origin) => {
            &&& result matches Ok(after)
            &&& picture::crop_of(after, scaled, origin.0, origin.1, dst.0, dst.1)
            &&& picture::exact(after)
            &&& picture::content(after) == picture::cropped(
                picture::content(scaled),
                origin.0,
                origin.1,
                dst.0,
                dst.1,
            )
        },
        None => result matches Err(message) && message@ == transform::origin_refusal(gravity),
    }
}

/// May `point` be what the caller computed of the crop's start?
pub open spec fn point_computed<P, S: Sizing<P>>(
    sizing: S,
    gravity: Option<Gravity<P>>,
    room: (u32, u32),
    point: Option<(u32, u32)>,
) -> bool {
    match gravity {
        Some(Gravity::Point(at)) => call_ensures(S::origin, (&sizing, &at, room), point),
        _ => point is None,
    }
}

/// The size that a picture is scaled to so that it covers `dst`, from what the
/// caller computed.
pub open spec fn covering(cover: (u32, u32), dst: (u32, u32)) -> (u32, u32) {
    (longer(cover.0, dst.0), longer(cover.1, dst.1))
}

/// Can a picture be scaled to a size for a crop?
pub open spec fn croppable(before: image::DynamicImage, size: (u32, u32)) -> bool {
    size == picture::picture_size(before) || scale_refusal(before, size) is None
}

/// A picture scaled so that it covers `dst`, and cropped to it, where the
/// caller computed `cover` and `point`.
pub open spec fn cover_result<P>(
    before: image::DynamicImage,
    dst: (u32, u32),
    gravity: Option<Gravity<P>>,
    cover: (u32, u32),
    point: Option<(u32, u32)>,
    result: Result<image::DynamicImage, String>,
) -> bool {
    let size = covering(cover, dst);
    if croppable(before, size) {
        exists|middle: image::DynamicImage| #[trigger]
            scaled_for_crop(before, middle, size) && crop_result(
                middle,
                size,
                dst,
                gravity,
                point,
                result,
            )
    } else {
        result matches Err(message) && message@ == scale_refusal(before, size)->0
    }
}

/// A crop that is placed by name, or not placed at all, has exactly the size
/// that was asked for.
pub proof fn law_named_crop_has_the_size_asked<P>(
    before: image::DynamicImage,
    dst: (u32, u32),
    gravity: Option<Gravity<P>>,
    cover: (u32, u32),
    point: Option<(u32, u32)>,
    after: image::DynamicImage,
)
    requires
        !(gravity matches Some(Gravity::Point(_))),
        cover_result(before, dst, gravity, cover, point, Ok(after)),
    ensures
        picture::picture_size(after) == dst,
{
    let size = covering(cover, dst);
    let middle = choose|middle: image::DynamicImage| #[trigger]
        scaled_for_crop(before, middle, size) && crop_result(
            middle,
            size,
            dst,
            gravity,
            point,
            Ok(after),
        );
    assert(picture::picture_size(middle) == size);
    transform::law_named_crop_lies_within(size, dst, gravity, point);
}

fn crop_cover<P, S: Sizing<P>>(
    before: image::DynamicImage,
    dst: (u32, u32),
    gravity: &Option<Gravity<P>>,
    sizing: &S,
) -> (result: Result<image::DynamicImage, String>)
    ensures
        exists|cover: (u32, u32), point: Option<(u32, u32)>|
            #![trigger cover_result(before, dst, *gravity, cover, point, result)]
            call_ensures(S::cover, (sizing, picture::picture_size(before), dst), cover)
                && (croppable(before, covering(cover, dst)) ==> point_computed(
                *sizing,
                *gravity,
                (
                    transform::room_of(covering(cover, dst).0, dst.0),
                    transform::room_of(covering(cover, dst).1, dst.1),
                ),
                point,
            )) && cover_result(before, dst, *gravity, cover, point, result),
{
    let src = picture::size_of(&before);
    let cover = sizing.cover(src, dst);
    let size: (u32, u32) = (max_edge(cover.0, dst.0), max_edge(cover.1, dst.1));
    let ghost held = before;
    let middle = if size.0 == src.0 && size.1 == src.1 {
        before
    } else {
        match scale(&before, size) {
            Ok(middle) => middle,
            Err(message) => {
                let result: Result<image::DynamicImage, String> = Err(message);
                assert(cover_result(held, dst, *gravity, cover, None, result));
                return result;
            },
        }
    };
    assert(scaled_for_crop(held, middle, size));
    let room_x: u32 = size.0.saturating_sub(dst.0);
    let room_y: u32 = size.1.saturating_sub(dst.1);
    let point = match gravity {
        Some(Gravity::Point(at)) => sizing.origin(at, (room_x, room_y)),
        _ => None,
    };
    let result = match transform::crop_origin(size, dst, gravity, point) {
        Ok(origin) => Ok(picture::crop_imm(&middle, origin.0, origin.1, dst.0, dst.1)),
        Err(message) => Err(message),
    };
    assert(cover_result(held, dst, *gravity, cover, point, result));
    result
}

/// What was asked for, or why it could not be read.
pub type Asked<T> = Result<T, String>;

/// The message for a transform that could not be read.
pub open spec fn unread_transform(error: Seq<char>) -> Seq<char> {
    "Images.transform() is not supported: "@ + error
}

/// Does a flag stand and hold?
pub open spec fn raised(flag: Option<bool>) -> bool {
    flag == Some(true)
}

fn is_raised(flag: Option<bool>) -> (held: bool)
    ensures
        held == raised(flag),
{
    match flag {
        Some(held) => held,
        None => false,
    }
}

/// May `result` come of resizing `before` by this plan?
pub open spec fn resize_result<P, S: Sizing<P>>(
    sizing: S,
    asked: Transform<P>,
    plan: Resize,
    before: image::DynamicImage,
    result: Result<image::DynamicImage, String>,
) -> bool {
    match plan {
        Resize::Keep => result == Ok::<image::DynamicImage, String>(before),
        Resize::Exact { size } => scale_result(before, size, result),
        Resize::Padded { size, canvas } => exists|middle: Result<image::DynamicImage, String>|
            #[trigger]
            scale_result(before, size, middle) && match middle {
                Ok(middle) => pad_result(middle, canvas, asked.background, result),
                Err(message) => result == Err::<image::DynamicImage, String>(message),
            },
        Resize::Covered { size } => exists|cover: (u32, u32), point: Option<(u32, u32)>|
            #![trigger cover_result(before, size, asked.gravity, cover, point, result)]
            call_ensures(S::cover, (&sizing, picture::picture_size(before), size), cover) && (
            croppable(before, covering(cover, size)) ==> point_computed(
                sizing,
                asked.gravity,
                (
                    transform::room_of(covering(cover, size).0, size.0),
                    transform::room_of(covering(cover, size).1, size.1),
                ),
                point,
            )) && cover_result(before, size, asked.gravity, cover, point, result),
    }
}

/// The plan for a picture of this size, where the caller computed `contained`.
pub open spec fn plan_of<P>(asked: Transform<P>, src: (u32, u32), contained: (u32, u32)) -> Option<
    Resize,
> {
    transform::resize_of(
        transform::fit_asked(asked.fit),
        src,
        transform::wanted(asked.width),
        transform::wanted(asked.height),
        contained,
    )
}

/// Why there is no plan.
pub open spec fn plan_refusal<P>(asked: Transform<P>) -> Seq<char> {
    match transform::fit_asked(asked.fit) {
        None => transform::bad_fit(crate::text::debug_quoted(asked.fit->0@)),
        Some(_) => transform::too_large(),
    }
}

/// May `contained` be what the caller computed of a picture of this size?
pub open spec fn contain_computed<P, S: Sizing<P>>(
    sizing: S,
    asked: Transform<P>,
    src: (u32, u32),
    contained: (u32, u32),
) -> bool {
    call_ensures(
        S::contain,
        (&sizing, src, transform::wanted(asked.width), transform::wanted(asked.height)),
        contained,
    )
}

/// May `result` come of a picture that was turned?
pub open spec fn sized_result<P, S: Sizing<P>>(
    sizing: S,
    asked: Transform<P>,
    before: image::DynamicImage,
    result: Result<image::DynamicImage, String>,
) -> bool {
    exists|contained: (u32, u32)| #[trigger]
        contain_computed(sizing, asked, picture::picture_size(before), contained) && match plan_of(
            asked,
            picture::picture_size(before),
            contained,
        ) {
            Some(plan) => resize_result(sizing, asked, plan, before, result),
            None => result matches Err(message) && message@ == plan_refusal(asked),
        }
}

fn resize<P, S: Sizing<P>>(before: image::DynamicImage, asked: &Transform<P>, sizing: &S) -> (result:
    Result<image::DynamicImage, String>)
    ensures
        sized_result(*sizing, *asked, before, result),
{
    let src = picture::size_of(&before);
    let contained = sizing.contain(
        src,
        transform::wanted_edge(asked.width),
        transform::wanted_edge(asked.height),
    );
    assert(contain_computed(*sizing, *asked, src, contained));
    let plan = match transform::plan_resize(asked, src, contained) {
        Ok(plan) => plan,
        Err(message) => return Err(message),
    };
    match plan {
        Resize::Keep => Ok(before),
        Resize::Exact { size } => scale(&before, size),
        Resize::Padded { size, canvas } => {
            let middle = scale(&before, size);
            assert(scale_result(before, size, middle));
            match middle {
                Ok(middle) => pad(middle, canvas, &asked.background),
                Err(message) => Err(message),
            }
        },
        Resize::Covered { size } => crop_cover(before, size, &asked.gravity, sizing),
    }
}

/// May `result` come of one transform of `before`? First the picture is turned,
/// then flipped, then resized.
pub open spec fn transformed<P, S: Sizing<P>>(
    sizing: S,
    asked: Asked<Transform<P>>,
    before: image::DynamicImage,
    result: Result<image::DynamicImage, String>,
) -> bool {
    match asked {
        Err(error) => result matches Err(message) && message@ == unread_transform(error@),
        Ok(asked) => match transform::turn_of(degrees_asked(asked)) {
            None => result matches Err(message) && message@ == transform::bad_turn(
                degrees_asked(asked),
            ),
            Some(turn) => exists|middle: image::DynamicImage| #[trigger]
                moved(turn, raised(asked.flip), raised(asked.flop), before, middle)
                    && sized_result(sizing, asked, middle, result),
        },
    }
}

/// A transform that asks for no turn, no flip and no edge leaves the picture as
/// it is, whatever else it says.
pub proof fn law_idle_transform_keeps_the_picture<P, S: Sizing<P>>(
    sizing: S,
    asked: Transform<P>,
    before: image::DynamicImage,
    result: Result<image::DynamicImage, String>,
)
    requires
        transformed(sizing, Ok(asked), before, result),
        degrees_asked(asked) == 0,
        !raised(asked.flip),
        !raised(asked.flop),
        transform::wanted(asked.width) is None,
        transform::wanted(asked.height) is None,
    ensures
        result matches Ok(after) && picture::content(after) == picture::content(before),
{
}

/// After a resize no edge is longer than 12,000 pixels, whatever the fit.
pub proof fn law_resize_keeps_to_the_longest_edge<P, S: Sizing<P>>(
    sizing: S,
    asked: Transform<P>,
    before: image::DynamicImage,
    after: image::DynamicImage,
)
    requires
        transformed(sizing, Ok(asked), before, Ok(after)),
        transform::wanted(asked.width) is Some || transform::wanted(asked.height) is Some,
    ensures
        picture::picture_size(after).0 <= 12000,
        picture::picture_size(after).1 <= 12000,
{
    let result: Result<image::DynamicImage, String> = Ok(after);
    let turn = transform::turn_of(degrees_asked(asked))->0;
    let middle = choose|middle: image::DynamicImage| #[trigger]
        moved(turn, raised(asked.flip), raised(asked.flop), before, middle) && sized_result(
            sizing,
            asked,
            middle,
            result,
        );
    let src = picture::picture_size(middle);
    let contained = choose|contained: (u32, u32)| #[trigger]
        contain_computed(sizing, asked, src, contained) && match plan_of(asked, src, contained) {
            Some(plan) => resize_result(sizing, asked, plan, middle, result),
            None => result matches Err(message) && message@ == plan_refusal(asked),
        };
    assert(resize_result(sizing, asked, plan_of(asked, src, contained)->0, middle, result));
}

/// A picture over a buffer of its pixels stays one.
proof fn lemma_transformed_is_exact<P, S: Sizing<P>>(
    sizing: S,
    asked: Asked<Transform<P>>,
    before: image::DynamicImage,
    after: image::DynamicImage,
)
    requires
        picture::exact(before),
        transformed(sizing, asked, before, Ok(after)),
    ensures
        picture::exact(after),
{
}

/// One transform of a picture.
pub fn apply_transform<P, S: Sizing<P>>(
    before: image::DynamicImage,
    asked: &Asked<Transform<P>>,
    sizing: &S,
) -> (result: Result<image::DynamicImage, String>)
    ensures
        transformed(*sizing, *asked, before, result),
{
    let asked = match asked {
        Ok(asked) => asked,
        Err(error) => {
            let mut message = "Images.transform() is not supported: ".to_owned();
            message.append(error.as_str());
            return Err(message);
        },
    };
    let degrees: i32 = match asked.rotate {
        Some(degrees) => degrees,
        None => 0,
    };
    let turn = match transform::read_turn(degrees) {
        Ok(turn) => turn,
        Err(message) => return Err(message),
    };
    let middle = turn_picture(before, turn, is_raised(asked.flip), is_raised(asked.flop));
    resize(middle, asked, sizing)
}

/// May `result` come of these transforms of `before`, one after another? The
/// first that fails ends it.
pub open spec fn chained<P, S: Sizing<P>>(
    sizing: S,
    asked: Seq<Asked<Transform<P>>>,
    before: image::DynamicImage,
    result: Result<image::DynamicImage, String>,
) -> bool
    decreases asked.len(),
{
    if asked.len() == 0 {
        result == Ok::<image::DynamicImage, String>(before)
    } else {
        exists|step: Result<image::DynamicImage, String>| #[trigger]
            transformed(sizing, asked[0], before, step) && match step {
                Ok(next) => chained(sizing, asked.drop_first(), next, result),
                Err(message) => result == Err::<image::DynamicImage, String>(message),
            }
    }
}

fn apply_all<P, S: Sizing<P>>(
    before: image::DynamicImage,
    asked: &Vec<Asked<Transform<P>>>,
    from: usize,
    sizing: &S,
) -> (result: Result<image::DynamicImage, String>)
    requires
        from <= asked@.len(),
    ensures
        chained(*sizing, asked@.skip(from as int), before, result),
    decreases asked@.len() - from,
{
    if from == asked.len() {
        return Ok(before);
    }
    let ghost rest = asked@.skip(from as int);
    let step = apply_transform(before, &asked[from], sizing);
    assert(transformed(*sizing, rest[0], before, step));
    assert(rest.drop_first() =~= asked@.skip(from + 1));
    match step {
        Ok(next) => apply_all(next, asked, from + 1, sizing),
        Err(message) => Err(message),
    }
}

/// A picture over a buffer of its pixels stays one.
proof fn lemma_chained_is_exact<P, S: Sizing<P>>(
    sizing: S,
    asked: Seq<Asked<Transform<P>>>,
    before: image::DynamicImage,
    after: image::DynamicImage,
)
    requires
        picture::exact(before),
        chained(sizing, asked, before, Ok(after)),
    ensures
        picture::exact(after),
    decreases asked.len(),
{
    if asked.len() > 0 {
        let result: Result<image::DynamicImage, String> = Ok(after);
        let step = choose|step: Result<image::DynamicImage, String>| #[trigger]
            transformed(sizing, asked[0], before, step) && match step {
                Ok(next) => chained(sizing, asked.drop_first(), next, result),
                Err(message) => result == Err::<image::DynamicImage, String>(message),
            };
        lemma_transformed_is_exact(sizing, asked[0], before, step->Ok_0);
        lemma_chained_is_exact(sizing, asked.drop_first(), step->Ok_0, after);
    }
}

/// The message for a picture that was not written.
pub open spec fn encode_refusal(kind: ImageKind) -> Seq<char> {
    match kind {
        ImageKind::Jpeg => "Images could not encode JPEG"@,
        ImageKind::WebP => "Images could not encode WebP"@,
        ImageKind::Avif => "Images could not encode AVIF"@,
        _ => "Images could not encode PNG"@,
    }
}

/// What is answered with what was written in a format, if anything was.
pub fn encode_answer(kind: ImageKind, bytes: Option<Vec<u8>>) -> (result: Result<Vec<u8>, String>)
    ensures
        match bytes {
            Some(bytes) => result == Ok::<Vec<u8>, String>(bytes),
            None => result matches Err(message) && message@ == encode_refusal(kind),
        },
{
    match bytes {
        Some(bytes) => Ok(bytes),
        None => Err(
            match kind {
                ImageKind::Jpeg => "Images could not encode JPEG".to_owned(),
                ImageKind::WebP => "Images could not encode WebP".to_owned(),
                ImageKind::Avif => "Images could not encode AVIF".to_owned(),
                _ => "Images could not encode PNG".to_owned(),
            },
        ),
    }
}

/// Is `result` a file that was written, or that it was not?
pub open spec fn file_result(
    kind: ImageKind,
    file: Option<Seq<u8>>,
    result: Result<Vec<u8>, String>,
) -> bool {
    match file {
        Some(bytes) => result matches Ok(written) && written@ == bytes,
        None => result matches Err(message) && message@ == encode_refusal(kind),
    }
}

/// The message for an output that could not be read.
pub open spec fn unread_output(error: Seq<char>) -> Seq<char> {
    "Images.output() is not supported: "@ + error
}

/// May `result` come of writing a picture as it was asked for? One without
/// pixels is written in no format. Of an AVIF file it is said that it was
/// written, not what it holds.
pub open spec fn encode_result(
    held: image::DynamicImage,
    asked: Asked<Output>,
    result: Result<Vec<u8>, String>,
) -> bool {
    match asked {
        Err(error) => result matches Err(message) && message@ == unread_output(error@),
        Ok(asked) => match transform::output_refusal(asked) {
            Some(reason) => result matches Err(message) && message@ == reason,
            None => if picture::empty(picture::picture_size(held)) {
                result matches Err(message) && message@ == encode_refusal(
                    transform::format_of(asked.format)->0,
                )
            } else {
                match transform::format_of(asked.format)->0 {
                    ImageKind::Jpeg => file_result(
                        ImageKind::Jpeg,
                        picture::jpeg_written(
                            picture::content(held),
                            transform::quality_asked(asked),
                        ),
                        result,
                    ),
                    ImageKind::Avif => exists|bytes: Option<Vec<u8>>| #[trigger]
                        picture::wrote(held, ImageKind::Avif, bytes) && match bytes {
                            Some(bytes) => result == Ok::<Vec<u8>, String>(bytes),
                            None => result matches Err(message) && message@ == encode_refusal(
                                ImageKind::Avif,
                            ),
                        },
                    kind => file_result(
                        kind,
                        picture::file_written(picture::content(held), kind),
                        result,
                    ),
                }
            },
        },
    }
}

/// Write a picture as it was asked for.
pub fn encode(held: &image::DynamicImage, asked: &Asked<Output>) -> (result: Result<
    Vec<u8>,
    String,
>)
    requires
        picture::exact(*held),
    ensures
        encode_result(*held, *asked, result),
{
    let asked = match asked {
        Ok(asked) => asked,
        Err(error) => {
            let mut message = "Images.output() is not supported: ".to_owned();
            message.append(error.as_str());
            return Err(message);
        },
    };
    match transform::plan_output(asked) {
        Err(message) => Err(message),
        Ok(OutputPlan::Jpeg { quality }) => encode_answer(
            ImageKind::Jpeg,
            picture::write_jpeg(held, quality),
        ),
        Ok(OutputPlan::Png) => encode_answer(
            ImageKind::Png,
            picture::write_picture(held, ImageKind::Png),
        ),
        Ok(OutputPlan::WebP) => encode_answer(
            ImageKind::WebP,
            picture::write_picture(held, ImageKind::WebP),
        ),
        Ok(OutputPlan::Avif) => encode_answer(
            ImageKind::Avif,
            picture::write_picture(held, ImageKind::Avif),
        ),
    }
}

/// May `result` come of a picture, these transforms and this output?
pub open spec fn picture_result<P, S: Sizing<P>>(
    sizing: S,
    asked: Seq<Asked<Transform<P>>>,
    output: Asked<Output>,
    before: image::DynamicImage,
    result: Result<Vec<u8>, String>,
) -> bool {
    exists|last: Result<image::DynamicImage, String>| #[trigger]
        chained(sizing, asked, before, last) && match last {
            Ok(last) => encode_result(last, output, result),
            Err(message) => result == Err::<Vec<u8>, String>(message),
        }
}

/// What a file comes to, of which the decoder gave `reply`. A picture over a
/// buffer that is not its pixels was not decoded.
pub open spec fn reply_result<P, S: Sizing<P>>(
    sizing: S,
    asked: Seq<Asked<Transform<P>>>,
    output: Asked<Output>,
    reply: Result<(image::DynamicImage, ImageKind), DecodeFailure>,
    result: Result<Vec<u8>, String>,
) -> bool {
    match reply {
        Err(failure) => result matches Err(message) && message@ == decode_refusal(failure),
        Ok((before, _)) => if picture::exact(before) {
            picture_result(sizing, asked, output, before, result)
        } else {
            result matches Err(message) && message@ == decode_refusal(DecodeFailure::Undecodable)
        },
    }
}

/// Transform a picture and write it.
pub fn process_picture<P, S: Sizing<P>>(
    before: image::DynamicImage,
    asked: &Vec<Asked<Transform<P>>>,
    output: &Asked<Output>,
    sizing: &S,
) -> (result: Result<Vec<u8>, String>)
    requires
        picture::exact(before),
    ensures
        picture_result(*sizing, asked@, *output, before, result),
{
    assert(asked@.skip(0) =~= asked@);
    let last = apply_all(before, asked, 0, sizing);
    assert(chained(*sizing, asked@, before, last));
    match last {
        Ok(last) => {
            proof {
                lemma_chained_is_exact(*sizing, asked@, before, last);
            }
            encode(&last, output)
        },
        Err(message) => Err(message),
    }
}

/// Decode a file, apply the transforms one after another, and write the
/// outcome.
pub fn process<P, S: Sizing<P>>(
    input: &[u8],
    asked: &Vec<Asked<Transform<P>>>,
    output: &Asked<Output>,
    sizing: &S,
) -> (result: Result<Vec<u8>, String>)
    ensures
        !(0 < input@.len() <= 33554432) ==> (result matches Err(message) && message@
            == transform::input_refusal(input@.len() as usize)),
        0 < input@.len() <= 33554432 ==> exists|
            reply: Result<(image::DynamicImage, ImageKind), DecodeFailure>,
        | #[trigger]
            picture::read(input, reply) && reply_result(*sizing, asked@, *output, reply, result),
{
    match transform::check_input(input.len()) {
        Ok(()) => {},
        Err(message) => return Err(message),
    }
    let reply = picture::read_picture(input);
    match reply {
        Ok((before, _)) => if picture::is_exact(&before) {
            process_picture(before, asked, output, sizing)
        } else {
            Err(decode_message(DecodeFailure::Undecodable))
        },
        Err(failure) => Err(decode_message(failure)),
    }
}

/// What a transform comes to on its way: the turned picture, and the size that
/// was computed for it.
proof fn lemma_way_of_a_transform<P, S: Sizing<P>>(
    sizing: S,
    asked: Transform<P>,
    before: image::DynamicImage,
    result: Result<image::DynamicImage, String>,
) -> (way: (image::DynamicImage, (u32, u32)))
    requires
        transformed(sizing, Ok(asked), before, result),
        transform::turn_of(degrees_asked(asked)) is Some,
    ensures
        moved(
            transform::turn_of(degrees_asked(asked))->0,
            raised(asked.flip),
            raised(asked.flop),
            before,
            way.0,
        ),
        contain_computed(sizing, asked, picture::picture_size(way.0), way.1),
        match plan_of(asked, picture::picture_size(way.0), way.1) {
            Some(plan) => resize_result(sizing, asked, plan, way.0, result),
            None => result matches Err(message) && message@ == plan_refusal(asked),
        },
{
    let turn = transform::turn_of(degrees_asked(asked))->0;
    let middle = choose|middle: image::DynamicImage| #[trigger]
        moved(turn, raised(asked.flip), raised(asked.flop), before, middle) && sized_result(
            sizing,
            asked,
            middle,
            result,
        );
    let src = picture::picture_size(middle);
    let contained = choose|contained: (u32, u32)| #[trigger]
        contain_computed(sizing, asked, src, contained) && match plan_of(asked, src, contained) {
            Some(plan) => resize_result(sizing, asked, plan, middle, result),
            None => result matches Err(message) && message@ == plan_refusal(asked),
        };
    (middle, contained)
}

/// A turn moves every pixel of a picture as it says. A quarter makes its rows its
/// columns, the first row the last column; half a turn reverses both; three
/// quarters make the first row the first column from the bottom up. Then a flip
/// reverses the rows and a flop each of them. No pixel changes its colour.
pub proof fn law_turns_and_flips_move_the_pixels<P, S: Sizing<P>>(
    before: image::DynamicImage,
    asked: Transform<P>,
    sizing: S,
    result: Result<image::DynamicImage, String>,
    x: u32,
    y: u32,
)
    requires
        call_ensures(
            apply_transform::<P, S>,
            (before, &Ok::<Transform<P>, String>(asked), &sizing),
            result,
        ),
        asked.width is None || asked.width->0 == 0,
        asked.height is None || asked.height->0 == 0,
        asked.rotate is None || asked.rotate->0 as int % 90 == 0,
        x < picture::picture_size(before).0,
        y < picture::picture_size(before).1,
    ensures
        ({
            let size = picture::picture_size(before);
            let degrees = if asked.rotate is None {
                0
            } else {
                asked.rotate->0 as int % 360
            };
            let turned = if degrees == 0 {
                (x as int, y as int)
            } else if degrees == 90 {
                (size.1 - 1 - y, x as int)
            } else if degrees == 180 {
                (size.0 - 1 - x, size.1 - 1 - y)
            } else {
                (y as int, size.0 - 1 - x)
            };
            let swapped = degrees == 90 || degrees == 270;
            let now = (
                if swapped {
                    size.1
                } else {
                    size.0
                },
                if swapped {
                    size.0
                } else {
                    size.1
                },
            );
            let at = (
                if asked.flop == Some(true) {
                    now.0 - 1 - turned.0
                } else {
                    turned.0
                },
                if asked.flip == Some(true) {
                    now.1 - 1 - turned.1
                } else {
                    turned.1
                },
            );
            &&& result matches Ok(after)
            &&& picture::picture_size(after) == now
            &&& 0 <= at.0 < now.0 && 0 <= at.1 < now.1
            &&& picture::pixels(after)[(at.0 as u32, at.1 as u32)] == picture::pixels(before)[(
                x,
                y,
            )]
        }),
{
    let way = lemma_way_of_a_transform(sizing, asked, before, result);
    assert(picture::inside(picture::picture_size(before), x, y));
    assert(picture::pixels(way.0)[moved_place(
        transform::turn_of(degrees_asked(asked))->0,
        raised(asked.flip),
        raised(asked.flop),
        picture::picture_size(before),
        x,
        y,
    )] == picture::pixels(before)[(x, y)]);
}

/// What could not be read is not done, and neither is a turn that is no multiple
/// of a quarter.
pub proof fn law_bad_transform_is_refused<P, S: Sizing<P>>(
    before: image::DynamicImage,
    asked: Asked<Transform<P>>,
    sizing: S,
    result: Result<image::DynamicImage, String>,
)
    requires
        call_ensures(apply_transform::<P, S>, (before, &asked, &sizing), result),
    ensures
        asked is Err ==> result is Err,
        asked is Ok && (asked->Ok_0.rotate matches Some(degrees) && degrees as int % 90 != 0)
            ==> result is Err,
{
}

/// The size of a picture that was transformed, where an edge was asked for. Turned
/// by an odd number of quarters its edges are swapped first. Squeezed, it has the
/// edges that were asked for and keeps its own otherwise; contained, it has the
/// size that was computed; scaled down, of that size and its own the shorter edge
/// each way.
pub proof fn law_transformed_picture_has_the_size_asked<P, S: Sizing<P>>(
    before: image::DynamicImage,
    asked: Transform<P>,
    sizing: S,
    after: image::DynamicImage,
    src: (u32, u32),
    width: Option<u32>,
    height: Option<u32>,
)
    requires
        src == if asked.rotate is Some && asked.rotate->0 as int % 180 != 0 {
            (picture::picture_size(before).1, picture::picture_size(before).0)
        } else {
            picture::picture_size(before)
        },
        width == if asked.width is Some && asked.width->0 > 0 {
            asked.width
        } else {
            None
        },
        height == if asked.height is Some && asked.height->0 > 0 {
            asked.height
        } else {
            None
        },
        call_ensures(
            apply_transform::<P, S>,
            (before, &Ok::<Transform<P>, String>(asked), &sizing),
            Ok::<image::DynamicImage, String>(after),
        ),
        asked.width is Some && asked.width->0 > 0 || asked.height is Some && asked.height->0 > 0,
    ensures
        ({
            let size = picture::picture_size(after);
            &&& asked.fit is Some && asked.fit->0@ == "squeeze"@ ==> {
                &&& size.0 == if width is Some {
                    width->0
                } else {
                    src.0
                }
                &&& size.1 == if height is Some {
                    height->0
                } else {
                    src.1
                }
            }
            &&& asked.fit is Some && asked.fit->0@ == "contain"@ ==> call_ensures(
                S::contain,
                (&sizing, src, width, height),
                size,
            )
            &&& asked.fit is None || asked.fit->0@ == "scale-down"@ ==> exists|
                contained: (u32, u32),
            |
                {
                    &&& #[trigger] call_ensures(
                        S::contain,
                        (&sizing, src, width, height),
                        contained,
                    )
                    &&& size.0 == if contained.0 < src.0 {
                        contained.0
                    } else {
                        src.0
                    }
                    &&& size.1 == if contained.1 < src.1 {
                        contained.1
                    } else {
                        src.1
                    }
                }
            &&& asked.fit is Some && (asked.fit->0@ == "cover"@ || asked.fit->0@ == "crop"@) && !(
            asked.gravity matches Some(Gravity::Point(_))) ==> {
                &&& size.0 == if width is Some {
                    width->0
                } else {
                    src.0
                }
                &&& size.1 == if height is Some {
                    height->0
                } else {
                    src.1
                }
            }
            &&& size.0 <= 12000 && size.1 <= 12000
        }),
{
    transform::lemma_fit_names_differ();
    let result: Result<image::DynamicImage, String> = Ok(after);
    let way = lemma_way_of_a_transform(sizing, asked, before, result);
    assert(src == picture::picture_size(way.0));
    let plan = plan_of(asked, src, way.1)->0;
    assert(call_ensures(S::contain, (&sizing, src, width, height), way.1));
    if let Resize::Covered { size } = plan {
        let (cover, point) = choose|cover: (u32, u32), point: Option<(u32, u32)>|
            #![trigger cover_result(way.0, size, asked.gravity, cover, point, result)]
            call_ensures(S::cover, (&sizing, picture::picture_size(way.0), size), cover) && (
            croppable(way.0, covering(cover, size)) ==> point_computed(
                sizing,
                asked.gravity,
                (
                    transform::room_of(covering(cover, size).0, size.0),
                    transform::room_of(covering(cover, size).1, size.1),
                ),
                point,
            )) && cover_result(way.0, size, asked.gravity, cover, point, result);
        if !(asked.gravity matches Some(Gravity::Point(_))) {
            law_named_crop_has_the_size_asked(
                way.0,
                size,
                asked.gravity,
                cover,
                point,
                after,
            );
        }
    }
    law_resize_keeps_to_the_longest_edge(sizing, asked, before, after);
}

/// What fits is done: on a machine of 64 bits a picture is squeezed, contained,
/// scaled down, covered or padded wherever the edges that were asked for, or
/// computed, are within 12000 pixels, and within 8388608 where they are cropped
/// after. Only a place that there is not, or a background that is no colour, is
/// refused besides.
pub proof fn law_resize_that_fits_is_done<P, S: Sizing<P>>(
    before: image::DynamicImage,
    asked: Transform<P>,
    sizing: S,
    result: Result<image::DynamicImage, String>,
    src: (u32, u32),
)
    requires
        isize::MAX == 0x7fff_ffff_ffff_ffff,
        call_ensures(
            apply_transform::<P, S>,
            (before, &Ok::<Transform<P>, String>(asked), &sizing),
            result,
        ),
        asked.rotate is None || asked.rotate->0 as int % 90 == 0,
        src == if asked.rotate is Some && asked.rotate->0 as int % 180 != 0 {
            (picture::picture_size(before).1, picture::picture_size(before).0)
        } else {
            picture::picture_size(before)
        },
        asked.width is Some && 0 < asked.width->0 <= 12000,
        asked.height is Some && 0 < asked.height->0 <= 12000,
        asked.fit is None || asked.fit->0@ == "scale-down"@ || asked.fit->0@ == "contain"@
            || asked.fit->0@ == "squeeze"@ || asked.fit->0@ == "cover"@ || asked.fit->0@ == "crop"@
            || asked.fit->0@ == "pad"@,
        forall|contained: (u32, u32)| #[trigger]
            call_ensures(S::contain, (&sizing, src, asked.width, asked.height), contained)
                ==> contained.0 <= 12000 && contained.1 <= 12000,
        forall|cover: (u32, u32)| #[trigger]
            call_ensures(S::cover, (&sizing, src, (asked.width->0, asked.height->0)), cover)
                ==> cover.0 <= 8388608 && cover.1 <= 8388608,
        asked.gravity is None,
        asked.background is None,
    ensures
        result is Ok,
{
    transform::lemma_fit_names_differ();
    lemma_black_is_a_colour();
    let way = lemma_way_of_a_transform(sizing, asked, before, result);
    assert(src == picture::picture_size(way.0));
    assert(contain_computed(sizing, asked, src, way.1));
    assert(call_ensures(S::contain, (&sizing, src, asked.width, asked.height), way.1));
    let each = picture::pixel_bytes(way.0);
    match plan_of(asked, src, way.1)->0 {
        Resize::Exact { size } => {
            lemma_room_for(src, each, size);
        },
        Resize::Padded { size, canvas } => {
            lemma_room_for(src, each, size);
            lemma_room_for(src, 4, canvas);
        },
        Resize::Covered { size } => {
            let (cover, point) = choose|cover: (u32, u32), point: Option<(u32, u32)>|
                #![trigger cover_result(way.0, size, asked.gravity, cover, point, result)]
                call_ensures(S::cover, (&sizing, picture::picture_size(way.0), size), cover) && (
                croppable(way.0, covering(cover, size)) ==> point_computed(
                    sizing,
                    asked.gravity,
                    (
                        transform::room_of(covering(cover, size).0, size.0),
                        transform::room_of(covering(cover, size).1, size.1),
                    ),
                    point,
                )) && cover_result(way.0, size, asked.gravity, cover, point, result);
            assert(size == (asked.width->0, asked.height->0));
            assert(call_ensures(S::cover, (&sizing, src, size), cover));
            lemma_room_for(src, each, covering(cover, size));
        },
        Resize::Keep => {},
    }
}

proof fn lemma_black_is_a_colour()
    ensures
        transform::colour_of("#000000"@) is Some,
{
    reveal_strlit("#000000");
    reveal_strlit("#");
    let black = "#000000"@;
    assert(black.subrange(0, 1) =~= "#"@);
    let hex = crate::text::without_prefix(black, "#"@);
    assert(hex.len() == 6);
    assert(forall|i: int| 0 <= i < 6 ==> #[trigger] hex[i] == black[i + 1]);
    assert(hex[0] == '0' && hex[1] == '0' && hex[2] == '0' && hex[3] == '0' && hex[4] == '0'
        && hex[5] == '0');
    assert(crate::text::hex_digit('0') is Some);
}

proof fn lemma_room_for(src: (u32, u32), each: u8, size: (u32, u32))
    requires
        isize::MAX == 0x7fff_ffff_ffff_ffff,
        size.0 <= 8388608,
        size.1 <= 8388608,
    ensures
        picture::resizable(src, each, size),
        picture::holdable(size.0, size.1, each),
        picture::sampled(src, size),
{
    assert(size.0 * size.1 * each <= 8388608 * 8388608 * 255) by (nonlinear_arith)
        requires
            size.0 <= 8388608,
            size.1 <= 8388608,
            each <= 255,
    ;
    assert(src.0 * size.1 * 16 <= 0xffff_ffff * 8388608 * 16) by (nonlinear_arith)
        requires
            src.0 <= 0xffff_ffff,
            size.1 <= 8388608,
    ;
}

/// A picture that was padded has the edges of its canvas. It lies in the middle,
/// its opaque pixels as they are; beside it and where it is clear the background
/// shows.
pub proof fn law_padded_picture_lies_in_the_middle(
    before: image::DynamicImage,
    canvas: (u32, u32),
    background: Option<String>,
    after: image::DynamicImage,
    x: u32,
    y: u32,
)
    requires
        pad_result(before, canvas, background, Ok(after)),
        picture::picture_size(before).0 < canvas.0 || picture::picture_size(before).1 < canvas.1,
        picture::picture_size(before).0 <= canvas.0,
        picture::picture_size(before).1 <= canvas.1,
        x < canvas.0,
        y < canvas.1,
    ensures
        ({
            let size = picture::picture_size(before);
            let left = (canvas.0 - size.0) / 2;
            let top = (canvas.1 - size.1) / 2;
            let name = if background is Some {
                background->0@
            } else {
                "#000000"@
            };
            let named = transform::colour_of(name)->0;
            let colour = (named.0 as u8, named.1 as u8, named.2 as u8, named.3 as u8);
            let over = left <= x < left + size.0 && top <= y < top + size.1;
            let pixel = picture::pixels(before)[((x - left) as u32, (y - top) as u32)];
            &&& picture::picture_size(after) == canvas
            &&& transform::colour_of(name) is Some
            &&& !over ==> picture::pixels(after)[(x, y)] == colour
            &&& over && pixel.3 == 255 ==> picture::pixels(after)[(x, y)] == pixel
            &&& over && pixel.3 == 0 ==> picture::pixels(after)[(x, y)] == colour
        }),
{
    assert(picture::inside(canvas, x, y));
}

/// A picture that reaches its canvas both ways is not padded.
pub proof fn law_picture_as_large_as_its_canvas_is_kept(
    before: image::DynamicImage,
    canvas: (u32, u32),
    background: Option<String>,
    result: Result<image::DynamicImage, String>,
)
    requires
        pad_result(before, canvas, background, result),
        picture::picture_size(before).0 >= canvas.0,
        picture::picture_size(before).1 >= canvas.1,
    ensures
        result matches Ok(after) && after == before,
{
}

/// A picture is written as it was asked for: as a JPEG file of the quality that
/// was asked for, 85 where none was, or as a PNG or WebP file; and the file is
/// handed on as it was written.
pub proof fn law_picture_is_written_as_asked(
    held: image::DynamicImage,
    asked: Output,
    result: Result<Vec<u8>, String>,
)
    requires
        call_ensures(encode, (&held, &Ok::<Output, String>(asked)), result),
        picture::picture_size(held).0 > 0,
        picture::picture_size(held).1 > 0,
        asked.quality is None || 1 <= asked.quality->0 <= 100,
    ensures
        asked.format is None || asked.format->0@ == "jpeg"@ || asked.format->0@ == "image/jpeg"@
            || asked.format->0@ == "jpg"@ ==> {
            let quality = if asked.quality is Some {
                asked.quality->0
            } else {
                85
            };
            let file = picture::jpeg_written(picture::content(held), quality);
            (result is Ok <==> file is Some) && (file is Some ==> result->Ok_0@ == file->0)
        },
        asked.format is Some && (asked.format->0@ == "png"@ || asked.format->0@ == "image/png"@)
            && asked.quality is None ==> {
            let file = picture::file_written(picture::content(held), ImageKind::Png);
            (result is Ok <==> file is Some) && (file is Some ==> result->Ok_0@ == file->0)
        },
        asked.format is Some && (asked.format->0@ == "webp"@ || asked.format->0@ == "image/webp"@)
            ==> {
            let file = picture::file_written(picture::content(held), ImageKind::WebP);
            (result is Ok <==> file is Some) && (file is Some ==> result->Ok_0@ == file->0)
        },
        asked.format is Some && (asked.format->0@ == "avif"@ || asked.format->0@ == "image/avif"@)
            && asked.quality is None ==> exists|bytes: Option<Vec<u8>>| #[trigger]
            picture::wrote(held, ImageKind::Avif, bytes) && (result is Ok <==> bytes is Some) && (
            bytes is Some ==> result->Ok_0 == bytes->0),
{
    transform::lemma_format_names_differ();
}

/// A picture without pixels is written in no format, and nothing is where the
/// output could not be read.
pub proof fn law_nothing_is_written_of_nothing(
    held: image::DynamicImage,
    asked: Asked<Output>,
    result: Result<Vec<u8>, String>,
)
    requires
        call_ensures(encode, (&held, &asked), result),
    ensures
        asked is Err ==> result is Err,
        picture::picture_size(held).0 == 0 || picture::picture_size(held).1 == 0 ==> result is Err,
{
}

/// What was written is answered as it is, and a failure as one.
pub proof fn law_written_file_is_answered(
    kind: ImageKind,
    bytes: Option<Vec<u8>>,
    result: Result<Vec<u8>, String>,
)
    requires
        call_ensures(encode_answer, (kind, bytes), result),
    ensures
        result is Ok <==> bytes is Some,
        bytes is Some ==> result->Ok_0 == bytes->0,
{
}

/// The transforms are applied in the order in which they come, each to what the
/// one before it made; the first that fails ends it with its error, and without
/// any the picture is written as it is.
pub proof fn law_transforms_are_applied_in_order<P, S: Sizing<P>>(
    before: image::DynamicImage,
    asked: Vec<Asked<Transform<P>>>,
    output: Asked<Output>,
    sizing: S,
    result: Result<Vec<u8>, String>,
)
    requires
        call_ensures(process_picture::<P, S>, (before, &asked, &output, &sizing), result),
    ensures
        asked@.len() == 0 ==> encode_result(before, output, result),
        asked@.len() > 0 ==> exists|step: Result<image::DynamicImage, String>| #[trigger]
            transformed(sizing, asked@[0], before, step) && match step {
                Err(message) => result is Err && result->Err_0 == message,
                Ok(next) => picture_result(sizing, asked@.skip(1), output, next, result),
            },
        asked@.len() > 0 && asked@[0] is Err ==> result is Err,
{
    let last = choose|last: Result<image::DynamicImage, String>| #[trigger]
        chained(sizing, asked@, before, last) && match last {
            Ok(last) => encode_result(last, output, result),
            Err(message) => result == Err::<Vec<u8>, String>(message),
        };
    if asked@.len() > 0 {
        assert(asked@.drop_first() =~= asked@.skip(1));
        let step = choose|step: Result<image::DynamicImage, String>| #[trigger]
            transformed(sizing, asked@[0], before, step) && match step {
                Ok(next) => chained(sizing, asked@.drop_first(), next, last),
                Err(message) => last == Err::<image::DynamicImage, String>(message),
            };
        assert(transformed(sizing, asked@[0], before, step));
        if let Ok(next) = step {
            assert(chained(sizing, asked@.skip(1), next, last));
        }
    }
}

/// A file is decoded only if it is neither empty nor over 32 MiB. Then everything
/// rests on what the decoder gave: its failure is the answer, and a sound picture
/// is what is transformed and written.
pub proof fn law_file_is_processed_as_it_decodes<P, S: Sizing<P>>(
    input: &[u8],
    asked: Vec<Asked<Transform<P>>>,
    output: Asked<Output>,
    sizing: S,
    result: Result<Vec<u8>, String>,
)
    requires
        call_ensures(process::<P, S>, (input, &asked, &output, &sizing), result),
    ensures
        input@.len() == 0 || input@.len() > 32 * 1024 * 1024 ==> result is Err,
        0 < input@.len() <= 32 * 1024 * 1024 ==> exists|
            reply: Result<(image::DynamicImage, ImageKind), DecodeFailure>,
        | #[trigger]
            picture::read(input, reply) && (reply is Err ==> result is Err) && (reply is Ok
                && picture::exact(reply->Ok_0.0) ==> picture_result(
                sizing,
                asked@,
                output,
                reply->Ok_0.0,
                result,
            )),
{
}

/// What is told of a file is the format and the size of the picture in it.
pub proof fn law_picture_is_told_as_it_is(input: &[u8], told: Result<ImageInfo, String>)
    requires
        call_ensures(info, (input,), told),
    ensures
        input@.len() == 0 || input@.len() > 32 * 1024 * 1024 ==> told is Err,
        0 < input@.len() <= 32 * 1024 * 1024 ==> exists|
            reply: Result<(image::DynamicImage, ImageKind), DecodeFailure>,
        | #[trigger]
            picture::read(input, reply) && (told is Ok <==> reply is Ok) && (reply is Ok
                ==> told->Ok_0.width == picture::picture_size(reply->Ok_0.0).0
                && told->Ok_0.height == picture::picture_size(reply->Ok_0.0).1 && (
            reply->Ok_0.1 is Png ==> told->Ok_0.format@ == "image/png"@) && (reply->Ok_0.1 is Jpeg
                ==> told->Ok_0.format@ == "image/jpeg"@) && (reply->Ok_0.1 is WebP
                ==> told->Ok_0.format@ == "image/webp"@) && (reply->Ok_0.1 is Avif
                ==> told->Ok_0.format@ == "image/avif"@) && (reply->Ok_0.1 is Gif
                ==> told->Ok_0.format@ == "image/gif"@)),
{
}

/// A description has the size that was described.
pub proof fn law_description_has_the_size(kind: ImageKind, size: (u32, u32), told: ImageInfo)
    requires
        call_ensures(describe, (kind, size), told),
    ensures
        (told.width, told.height) == size,
        kind is Png ==> told.format@ == "image/png"@,
        kind is Jpeg ==> told.format@ == "image/jpeg"@,
        kind is WebP ==> told.format@ == "image/webp"@,
        kind is Avif ==> told.format@ == "image/avif"@,
        kind is Gif ==> told.format@ == "image/gif"@,
{
}

/// A crop is taken of the picture scaled so that it covers what was asked for: of
/// its middle where no place was named, from its corner where that was, and from
/// where the point puts it otherwise.
pub proof fn law_crop_is_taken_where_it_was_placed<P>(
    before: image::DynamicImage,
    dst: (u32, u32),
    gravity: Option<Gravity<P>>,
    cover: (u32, u32),
    point: Option<(u32, u32)>,
    after: image::DynamicImage,
    size: (u32, u32),
    x: u32,
    y: u32,
)
    requires
        cover_result(before, dst, gravity, cover, point, Ok(after)),
        size.0 == if cover.0 > dst.0 {
            cover.0
        } else {
            dst.0
        },
        size.1 == if cover.1 > dst.1 {
            cover.1
        } else {
            dst.1
        },
        x < picture::picture_size(after).0,
        y < picture::picture_size(after).1,
    ensures
        exists|middle: image::DynamicImage|
            {
                &&& #[trigger] picture::picture_size(middle) == size
                &&& middle == before || picture::content(middle) == picture::resized(
                    picture::content(before),
                    size.0,
                    size.1,
                )
                &&& size != picture::picture_size(before) ==> picture::content(middle)
                    == picture::resized(picture::content(before), size.0, size.1)
                &&& gravity is None ==> picture::pixels(after)[(x, y)] == picture::pixels(middle)[(
                    (x + (size.0 - dst.0) / 2) as u32,
                    (y + (size.1 - dst.1) / 2) as u32,
                )]
                &&& gravity matches Some(Gravity::Named(name)) ==> {
                    &&& name@ == "top-left"@ || name@ == "northwest"@ ==> picture::pixels(after)[(
                        x,
                        y,
                    )] == picture::pixels(middle)[(x, y)]
                    &&& name@ == "bottom-right"@ || name@ == "southeast"@ ==> picture::pixels(
                        after,
                    )[(x, y)] == picture::pixels(middle)[(
                        (x + (size.0 - dst.0)) as u32,
                        (y + (size.1 - dst.1)) as u32,
                    )]
                }
                &&& gravity matches Some(Gravity::Point(_)) ==> (point matches Some(from) && (
                from.0 <= size.0 && from.1 <= size.1 ==> picture::pixels(after)[(x, y)]
                    == picture::pixels(middle)[((x + from.0) as u32, (y + from.1) as u32)]))
            },
{
    transform::lemma_gravity_names_differ();
    assert(size == covering(cover, dst));
    let result: Result<image::DynamicImage, String> = Ok(after);
    let middle = choose|middle: image::DynamicImage| #[trigger]
        scaled_for_crop(before, middle, size) && crop_result(
            middle,
            size,
            dst,
            gravity,
            point,
            result,
        );
    assert(picture::picture_size(middle) == size);
    assert(picture::inside(picture::picture_size(after), x, y));
}

/// A file that was not decoded or written is told as what it was.
pub proof fn law_failed_file_is_named(
    failure: DecodeFailure,
    message: String,
    kind: ImageKind,
    answer: Result<Vec<u8>, String>,
)
    requires
        call_ensures(decode_message, (failure,), message),
        call_ensures(encode_answer, (kind, None), answer),
    ensures
        failure is Unreadable ==> message@ == "Images could not read the input"@,
        failure is Undecodable ==> message@ == "Images could not decode the input"@,
        kind is Jpeg ==> answer->Err_0@ == "Images could not encode JPEG"@,
        kind is WebP ==> answer->Err_0@ == "Images could not encode WebP"@,
        kind is Avif ==> answer->Err_0@ == "Images could not encode AVIF"@,
        kind is Png ==> answer->Err_0@ == "Images could not encode PNG"@,
{
}

/// A picture that is padded has the edges of its canvas: those that were asked for,
/// and where one was not, that of the picture as it was contained. One that reaches
/// them both ways has the size that it was contained in. Above and left of the picture
/// and below and right of it the background shows.
pub proof fn law_padded_transform_fills_its_canvas<P, S: Sizing<P>>(
    before: image::DynamicImage,
    asked: Transform<P>,
    sizing: S,
    after: image::DynamicImage,
    src: (u32, u32),
    width: Option<u32>,
    height: Option<u32>,
    x: u32,
    y: u32,
)
    requires
        src == if asked.rotate is Some && asked.rotate->0 as int % 180 != 0 {
            (picture::picture_size(before).1, picture::picture_size(before).0)
        } else {
            picture::picture_size(before)
        },
        width == if asked.width is Some && asked.width->0 > 0 {
            asked.width
        } else {
            None
        },
        height == if asked.height is Some && asked.height->0 > 0 {
            asked.height
        } else {
            None
        },
        call_ensures(
            apply_transform::<P, S>,
            (before, &Ok::<Transform<P>, String>(asked), &sizing),
            Ok::<image::DynamicImage, String>(after),
        ),
        width is Some || height is Some,
        asked.fit is Some && asked.fit->0@ == "pad"@,
    ensures
        exists|contained: (u32, u32)|
            {
                let canvas = (
                    if width is Some {
                        width->0
                    } else {
                        contained.0
                    },
                    if height is Some {
                        height->0
                    } else {
                        contained.1
                    },
                );
                let name = if asked.background is Some {
                    asked.background->0@
                } else {
                    "#000000"@
                };
                let named = transform::colour_of(name)->0;
                let colour = (named.0 as u8, named.1 as u8, named.2 as u8, named.3 as u8);
                &&& #[trigger] call_ensures(S::contain, (&sizing, src, width, height), contained)
                &&& picture::picture_size(after) == if contained.0 >= canvas.0 && contained.1
                    >= canvas.1 {
                    contained
                } else {
                    canvas
                }
                &&& contained.0 <= canvas.0 && contained.1 <= canvas.1 && contained != canvas && x
                    < canvas.0 && y < canvas.1 && (x < (canvas.0 - contained.0) / 2 || y < (canvas.1
                    - contained.1) / 2 || x >= (canvas.0 - contained.0) / 2 + contained.0 || y >= (
                canvas.1 - contained.1) / 2 + contained.1) ==> picture::pixels(after)[(x, y)]
                    == colour
            },
{
    transform::lemma_fit_names_differ();
    let result: Result<image::DynamicImage, String> = Ok(after);
    let way = lemma_way_of_a_transform(sizing, asked, before, result);
    assert(src == picture::picture_size(way.0));
    let plan = plan_of(asked, src, way.1)->0;
    assert(call_ensures(S::contain, (&sizing, src, width, height), way.1));
    if let Resize::Padded { size, canvas } = plan {
        let middle = choose|middle: Result<image::DynamicImage, String>| #[trigger]
            scale_result(way.0, size, middle) && match middle {
                Ok(middle) => pad_result(middle, canvas, asked.background, result),
                Err(message) => result == Err::<image::DynamicImage, String>(message),
            };
        let held = middle->Ok_0;
        assert(picture::picture_size(held) == size);
        if size.0 <= canvas.0 && size.1 <= canvas.1 && size != canvas && x < canvas.0 && y
            < canvas.1 {
            law_padded_picture_lies_in_the_middle(held, canvas, asked.background, after, x, y);
        }
    }
}

/// A picture that is squeezed and neither turned nor flipped is the outside's
/// resampling of it to the edges that were asked for, and itself where it has them
/// already.
pub proof fn law_squeezed_picture_is_resampled_whole<P, S: Sizing<P>>(
    before: image::DynamicImage,
    asked: Transform<P>,
    sizing: S,
    after: image::DynamicImage,
)
    requires
        call_ensures(
            apply_transform::<P, S>,
            (before, &Ok::<Transform<P>, String>(asked), &sizing),
            Ok::<image::DynamicImage, String>(after),
        ),
        asked.rotate is None && asked.flip != Some(true) && asked.flop != Some(true),
        asked.width is Some && asked.width->0 > 0,
        asked.height is Some && asked.height->0 > 0,
        asked.fit is Some && asked.fit->0@ == "squeeze"@,
    ensures
        (asked.width->0, asked.height->0) == picture::picture_size(before) ==> picture::content(
            after,
        ) == picture::content(before),
        (asked.width->0, asked.height->0) != picture::picture_size(before) ==> picture::content(
            after,
        ) == picture::resized(picture::content(before), asked.width->0, asked.height->0),
{
    transform::lemma_fit_names_differ();
    let result: Result<image::DynamicImage, String> = Ok(after);
    let way = lemma_way_of_a_transform(sizing, asked, before, result);
    assert(picture::content(way.0) == picture::content(before));
}

} // verus!
