//! What a transform asks for: turns, sizes, colours and formats.
//!
//! Sizes that keep a picture's proportions are computed in floating point by
//! the caller and come in as numbers.

use vstd::prelude::*;
use crate::images::picture::ImageKind;
use crate::text;

verus! {

/// Bytes that one request may decode.
pub const MAX_INPUT_BYTES: usize = 33554432;

/// The longest edge after a resize.
pub const MAX_DIMENSION: u32 = 12000;

/// Where a crop is taken from.
#[derive(Debug)]
pub enum Gravity<P> {
    Named(String),
    /// A point of the picture; where that leaves the crop comes in as a number.
    Point(P),
}

/// What one transform asks for.
#[derive(Debug)]
pub struct Transform<P> {
    pub width: Option<u32>,
    pub height: Option<u32>,
    pub fit: Option<String>,
    pub gravity: Option<Gravity<P>>,
    pub background: Option<String>,
    pub rotate: Option<i32>,
    pub flip: Option<bool>,
    pub flop: Option<bool>,
}

/// What the output is to be.
#[derive(Debug)]
pub struct Output {
    pub format: Option<String>,
    pub quality: Option<u8>,
}

/// Is a file of this many bytes taken?
pub fn check_input(len: usize) -> (checked: Result<(), String>)
    ensures
        checked is Ok <==> 0 < len <= 33554432,
        checked matches Err(message) ==> message@ == input_refusal(len),
{
    if len > MAX_INPUT_BYTES {
        let mut message = "Images input is ".to_owned();
        text::push_dec(&mut message, len as u64);
        message.append(" bytes; celld accepts at most 33554432");
        return Err(message);
    }
    if len == 0 {
        return Err("Images input is empty".to_owned());
    }
    Ok(())
}

/// The message for a file that is not taken.
pub open spec fn input_refusal(len: usize) -> Seq<char> {
    if len > 33554432 {
        "Images input is "@ + text::dec(len as nat) + " bytes; celld accepts at most 33554432"@
    } else {
        "Images input is empty"@
    }
}

/// A turn of a picture.
#[derive(Clone, Copy, Debug, PartialEq, Eq, Structural)]
pub enum Turn {
    Full,
    Quarter,
    Half,
    ThreeQuarters,
}

/// The turn that a number of degrees asks for, if it is one.
pub open spec fn turn_of(degrees: i32) -> Option<Turn> {
    let rest = degrees as int % 360;
    if rest == 0 {
        Some(Turn::Full)
    } else if rest == 90 {
        Some(Turn::Quarter)
    } else if rest == 180 {
        Some(Turn::Half)
    } else if rest == 270 {
        Some(Turn::ThreeQuarters)
    } else {
        None
    }
}

/// The message for degrees that ask for no turn.
pub open spec fn bad_turn(degrees: i32) -> Seq<char> {
    "Images.transform() rotate must be a multiple of 90, not "@ + text::dec(
        (degrees as int % 360) as nat,
    )
}

/// The turn that a number of degrees asks for; a full turn more or less makes
/// no difference.
pub fn read_turn(degrees: i32) -> (turn: Result<Turn, String>)
    ensures
        match turn_of(degrees) {
            Some(wanted) => turn == Ok::<Turn, String>(wanted),
            None => turn matches Err(message) && message@ == bad_turn(degrees),
        },
{
    // 2147483880 is a multiple of 360 that makes every number of degrees positive.
    let shifted: u64 = (degrees as i64 + 2147483880) as u64;
    let rest: u64 = shifted % 360;
    assert(rest == degrees as int % 360);
    if rest == 0 {
        Ok(Turn::Full)
    } else if rest == 90 {
        Ok(Turn::Quarter)
    } else if rest == 180 {
        Ok(Turn::Half)
    } else if rest == 270 {
        Ok(Turn::ThreeQuarters)
    } else {
        let mut message = "Images.transform() rotate must be a multiple of 90, not ".to_owned();
        text::push_dec(&mut message, rest);
        Err(message)
    }
}

/// An edge that was asked for; 0 asks for none.
pub open spec fn wanted(edge: Option<u32>) -> Option<u32> {
    match edge {
        Some(edge) => if edge > 0 {
            Some(edge)
        } else {
            None
        },
        None => None,
    }
}

/// An edge that was asked for; 0 asks for none.
pub fn wanted_edge(edge: Option<u32>) -> (out: Option<u32>)
    ensures
        out == wanted(edge),
{
    match edge {
        Some(edge) => if edge > 0 {
            Some(edge)
        } else {
            None
        },
        None => None,
    }
}

/// How a picture is fitted into the size that was asked for.
#[derive(Clone, Copy, Debug, PartialEq, Eq, Structural)]
pub enum Fit {
    ScaleDown,
    Contain,
    Pad,
    Squeeze,
    Cover,
}

/// The fit of a name.
pub open spec fn fit_of(name: Seq<char>) -> Option<Fit> {
    if name == "scale-down"@ {
        Some(Fit::ScaleDown)
    } else if name == "contain"@ {
        Some(Fit::Contain)
    } else if name == "pad"@ {
        Some(Fit::Pad)
    } else if name == "squeeze"@ {
        Some(Fit::Squeeze)
    } else if name == "cover"@ || name == "crop"@ {
        Some(Fit::Cover)
    } else {
        None
    }
}

/// The fit that a transform asks for: `scale-down` where it says nothing.
pub open spec fn fit_asked(fit: Option<String>) -> Option<Fit> {
    match fit {
        Some(name) => fit_of(name@),
        None => Some(Fit::ScaleDown),
    }
}

/// The message for a fit that there is not, from its quoted name.
pub open spec fn bad_fit(quoted: Seq<char>) -> Seq<char> {
    "Images.transform() fit "@ + quoted + " is not supported"@
}

/// The message for a fit that there is not, from its quoted name.
pub fn bad_fit_text(quoted: &str) -> (message: String)
    ensures
        message@ == bad_fit(quoted@),
{
    let mut message = "Images.transform() fit ".to_owned();
    message.append(quoted);
    message.append(" is not supported");
    message
}

/// The fit that a transform asks for.
pub fn read_fit(fit: &Option<String>) -> (asked: Result<Fit, String>)
    ensures
        match fit_asked(*fit) {
            Some(wanted) => asked == Ok::<Fit, String>(wanted),
            None => asked matches Err(message) && message@ == bad_fit(
                text::debug_quoted(fit->0@),
            ),
        },
{
    let name = match fit {
        Some(name) => name,
        None => return Ok(Fit::ScaleDown),
    };
    if text::same(name.as_str(), "scale-down") {
        Ok(Fit::ScaleDown)
    } else if text::same(name.as_str(), "contain") {
        Ok(Fit::Contain)
    } else if text::same(name.as_str(), "pad") {
        Ok(Fit::Pad)
    } else if text::same(name.as_str(), "squeeze") {
        Ok(Fit::Squeeze)
    } else if text::same(name.as_str(), "cover") || text::same(name.as_str(), "crop") {
        Ok(Fit::Cover)
    } else {
        let quoted = text::debug_text(name.as_str());
        Err(bad_fit_text(quoted.as_str()))
    }
}

/// The edge that was asked for, or else the picture's own.
pub open spec fn edge_or(edge: Option<u32>, own: u32) -> u32 {
    match edge {
        Some(edge) => edge,
        None => own,
    }
}

/// The smaller of two edges.
pub open spec fn shorter(left: u32, right: u32) -> u32 {
    if left < right {
        left
    } else {
        right
    }
}

/// The size that a picture is brought to. `contained` is the largest that lies
/// within what was asked for and keeps the proportions.
pub open spec fn target(
    fit: Fit,
    src: (u32, u32),
    width: Option<u32>,
    height: Option<u32>,
    contained: (u32, u32),
) -> (u32, u32) {
    match fit {
        Fit::Squeeze => (edge_or(width, src.0), edge_or(height, src.1)),
        Fit::Cover => (edge_or(width, src.0), edge_or(height, src.1)),
        Fit::ScaleDown => (shorter(contained.0, src.0), shorter(contained.1, src.1)),
        Fit::Contain => contained,
        Fit::Pad => contained,
    }
}

fn min_edge(left: u32, right: u32) -> (edge: u32)
    ensures
        edge == shorter(left, right),
{
    if left < right {
        left
    } else {
        right
    }
}

fn or_own(edge: Option<u32>, own: u32) -> (out: u32)
    ensures
        out == edge_or(edge, own),
{
    match edge {
        Some(edge) => edge,
        None => own,
    }
}

/// The size that a picture is brought to.
pub fn target_size(
    fit: Fit,
    src: (u32, u32),
    width: Option<u32>,
    height: Option<u32>,
    contained: (u32, u32),
) -> (size: (u32, u32))
    ensures
        size == target(fit, src, width, height, contained),
{
    match fit {
        Fit::Squeeze | Fit::Cover => (or_own(width, src.0), or_own(height, src.1)),
        Fit::ScaleDown => (min_edge(contained.0, src.0), min_edge(contained.1, src.1)),
        Fit::Contain | Fit::Pad => contained,
    }
}

/// A picture that is only scaled down never grows.
pub proof fn law_scale_down_never_enlarges(
    src: (u32, u32),
    width: Option<u32>,
    height: Option<u32>,
    contained: (u32, u32),
)
    ensures
        target(Fit::ScaleDown, src, width, height, contained).0 <= src.0,
        target(Fit::ScaleDown, src, width, height, contained).1 <= src.1,
{
}

/// What is done to a picture's size.
#[derive(Clone, Copy, Debug, PartialEq, Eq)]
pub enum Resize {
    /// Nothing.
    Keep,
    /// It is resized to this.
    Exact { size: (u32, u32) },
    /// It is resized to `size`, then padded to `canvas`.
    Padded { size: (u32, u32), canvas: (u32, u32) },
    /// It is resized so that it covers this, then cropped to it.
    Covered { size: (u32, u32) },
}

/// The message for a size that is too large.
pub open spec fn too_large() -> Seq<char> {
    "Images.transform() result exceeds 12000px on an edge"@
}

fn too_large_text() -> (message: String)
    ensures
        message@ == too_large(),
{
    "Images.transform() result exceeds 12000px on an edge".to_owned()
}

/// Is an edge longer than any may be after a resize?
pub open spec fn beyond(size: (u32, u32)) -> bool {
    size.0 > 12000 || size.1 > 12000
}

/// What is done to a picture's size; nothing where the fit is unknown or the
/// outcome would be too large.
pub open spec fn resize_of(
    fit: Option<Fit>,
    src: (u32, u32),
    width: Option<u32>,
    height: Option<u32>,
    contained: (u32, u32),
) -> Option<Resize> {
    if width is None && height is None {
        Some(Resize::Keep)
    } else {
        match fit {
            None => None,
            Some(fit) => {
                let size = target(fit, src, width, height, contained);
                let canvas = (edge_or(width, size.0), edge_or(height, size.1));
                if beyond(size) || fit is Pad && beyond(canvas) {
                    None
                } else if fit is Cover {
                    Some(Resize::Covered { size })
                } else if fit is Pad {
                    Some(Resize::Padded { size, canvas })
                } else if size == src {
                    Some(Resize::Keep)
                } else {
                    Some(Resize::Exact { size })
                }
            },
        }
    }
}

/// What is done to the size of a picture of size `src` after its turn.
pub fn plan_resize<P>(transform: &Transform<P>, src: (u32, u32), contained: (u32, u32)) -> (plan:
    Result<Resize, String>)
    ensures
        match resize_of(
            fit_asked(transform.fit),
            src,
            wanted(transform.width),
            wanted(transform.height),
            contained,
        ) {
            Some(wanted) => plan == Ok::<Resize, String>(wanted),
            None => plan matches Err(message) && message@ == match fit_asked(transform.fit) {
                None => bad_fit(text::debug_quoted(transform.fit->0@)),
                Some(_) => too_large(),
            },
        },
{
    let width = wanted_edge(transform.width);
    let height = wanted_edge(transform.height);
    if width.is_none() && height.is_none() {
        return Ok(Resize::Keep);
    }
    let fit = match read_fit(&transform.fit) {
        Ok(fit) => fit,
        Err(message) => return Err(message),
    };
    let size = target_size(fit, src, width, height, contained);
    if size.0 > MAX_DIMENSION || size.1 > MAX_DIMENSION {
        return Err(too_large_text());
    }
    match fit {
        Fit::Cover => Ok(Resize::Covered { size }),
        Fit::Pad => {
            let canvas = (or_own(width, size.0), or_own(height, size.1));
            if canvas.0 > MAX_DIMENSION || canvas.1 > MAX_DIMENSION {
                return Err(too_large_text());
            }
            Ok(Resize::Padded { size, canvas })
        },
        _ => {
            if size.0 == src.0 && size.1 == src.1 {
                Ok(Resize::Keep)
            } else {
                Ok(Resize::Exact { size })
            }
        },
    }
}

/// Where along an edge a crop lies.
#[derive(Clone, Copy, Debug, PartialEq, Eq, Structural)]
pub enum Side {
    Start,
    Middle,
    End,
}

/// The sides that a name stands for, across and down.
pub open spec fn gravity_of(name: Seq<char>) -> Option<(Side, Side)> {
    if name == "center"@ || name == "auto"@ {
        Some((Side::Middle, Side::Middle))
    } else if name == "top"@ || name == "north"@ {
        Some((Side::Middle, Side::Start))
    } else if name == "bottom"@ || name == "south"@ {
        Some((Side::Middle, Side::End))
    } else if name == "left"@ || name == "west"@ {
        Some((Side::Start, Side::Middle))
    } else if name == "right"@ || name == "east"@ {
        Some((Side::End, Side::Middle))
    } else if name == "top-left"@ || name == "northwest"@ {
        Some((Side::Start, Side::Start))
    } else if name == "top-right"@ || name == "northeast"@ {
        Some((Side::End, Side::Start))
    } else if name == "bottom-left"@ || name == "southwest"@ {
        Some((Side::Start, Side::End))
    } else if name == "bottom-right"@ || name == "southeast"@ {
        Some((Side::End, Side::End))
    } else {
        None
    }
}

/// The sides that a name stands for, across and down.
pub fn named_gravity(name: &str) -> (sides: Option<(Side, Side)>)
    ensures
        sides == gravity_of(name@),
{
    if text::same(name, "center") || text::same(name, "auto") {
        Some((Side::Middle, Side::Middle))
    } else if text::same(name, "top") || text::same(name, "north") {
        Some((Side::Middle, Side::Start))
    } else if text::same(name, "bottom") || text::same(name, "south") {
        Some((Side::Middle, Side::End))
    } else if text::same(name, "left") || text::same(name, "west") {
        Some((Side::Start, Side::Middle))
    } else if text::same(name, "right") || text::same(name, "east") {
        Some((Side::End, Side::Middle))
    } else if text::same(name, "top-left") || text::same(name, "northwest") {
        Some((Side::Start, Side::Start))
    } else if text::same(name, "top-right") || text::same(name, "northeast") {
        Some((Side::End, Side::Start))
    } else if text::same(name, "bottom-left") || text::same(name, "southwest") {
        Some((Side::Start, Side::End))
    } else if text::same(name, "bottom-right") || text::same(name, "southeast") {
        Some((Side::End, Side::End))
    } else {
        None
    }
}

/// Where a crop starts along an edge that has `room` left over. The middle is
/// rounded up.
pub open spec fn start_at(side: Side, room: u32) -> u32 {
    match side {
        Side::Start => 0,
        Side::Middle => ((room + 1) / 2) as u32,
        Side::End => room,
    }
}

fn crop_start(side: Side, room: u32) -> (start: u32)
    ensures
        start == start_at(side, room),
{
    match side {
        Side::Start => 0,
        Side::Middle => room / 2 + room % 2,
        Side::End => room,
    }
}

/// What is left over of an edge.
pub open spec fn room_of(src: u32, dst: u32) -> u32 {
    if src < dst {
        0
    } else {
        (src - dst) as u32
    }
}

/// Where a crop starts. `point` is where it starts from a point, if the point
/// lies within the picture.
pub open spec fn origin_of<P>(
    src: (u32, u32),
    dst: (u32, u32),
    gravity: Option<Gravity<P>>,
    point: Option<(u32, u32)>,
) -> Option<(u32, u32)> {
    let room = (room_of(src.0, dst.0), room_of(src.1, dst.1));
    match gravity {
        None => Some((room.0 / 2, room.1 / 2)),
        Some(Gravity::Named(name)) => match gravity_of(name@) {
            Some((across, down)) => Some((start_at(across, room.0), start_at(down, room.1))),
            None => None,
        },
        Some(Gravity::Point(_)) => point,
    }
}

/// The message for a crop that cannot be placed, from the quoted name.
pub open spec fn bad_gravity(quoted: Seq<char>) -> Seq<char> {
    "Images.transform() gravity "@ + quoted + " is not supported"@
}

/// The message for a crop that cannot be placed, from the quoted name.
pub fn bad_gravity_text(quoted: &str) -> (message: String)
    ensures
        message@ == bad_gravity(quoted@),
{
    let mut message = "Images.transform() gravity ".to_owned();
    message.append(quoted);
    message.append(" is not supported");
    message
}

/// Why a crop cannot be placed.
pub open spec fn origin_refusal<P>(gravity: Option<Gravity<P>>) -> Seq<char> {
    match gravity {
        Some(Gravity::Named(name)) => bad_gravity(text::debug_quoted(name@)),
        _ => "Images.transform() gravity coordinates must be in [0, 1]"@,
    }
}

/// Where a crop starts.
pub fn crop_origin<P>(
    src: (u32, u32),
    dst: (u32, u32),
    gravity: &Option<Gravity<P>>,
    point: Option<(u32, u32)>,
) -> (origin: Result<(u32, u32), String>)
    ensures
        match origin_of(src, dst, *gravity, point) {
            Some(wanted) => origin == Ok::<(u32, u32), String>(wanted),
            None => origin matches Err(message) && message@ == origin_refusal(*gravity),
        },
{
    let room_x: u32 = src.0.saturating_sub(dst.0);
    let room_y: u32 = src.1.saturating_sub(dst.1);
    match gravity {
        None => Ok((room_x / 2, room_y / 2)),
        Some(Gravity::Named(name)) => match named_gravity(name.as_str()) {
            Some((across, down)) => Ok((crop_start(across, room_x), crop_start(down, room_y))),
            None => {
                let quoted = text::debug_text(name.as_str());
                Err(bad_gravity_text(quoted.as_str()))
            },
        },
        Some(Gravity::Point(_)) => match point {
            Some(origin) => Ok(origin),
            None => Err("Images.transform() gravity coordinates must be in [0, 1]".to_owned()),
        },
    }
}

/// A crop that is placed by name, or not placed at all, lies within the
/// picture.
pub proof fn law_named_crop_lies_within<P>(
    src: (u32, u32),
    dst: (u32, u32),
    gravity: Option<Gravity<P>>,
    point: Option<(u32, u32)>,
)
    requires
        dst.0 <= src.0,
        dst.1 <= src.1,
        !(gravity matches Some(Gravity::Point(_))),
        origin_of(src, dst, gravity, point) is Some,
    ensures
        ({
            let origin = origin_of(src, dst, gravity, point)->0;
            origin.0 + dst.0 <= src.0 && origin.1 + dst.1 <= src.1
        }),
{
}

/// The number that one or two hexadecimal characters spell. Of two, the first
/// may be a plus sign.
pub open spec fn hex_byte(digits: Seq<char>) -> Option<nat> {
    if digits.len() == 1 {
        text::hex_digit(digits[0])
    } else if digits.len() == 2 {
        match text::hex_digit(digits[1]) {
            None => None,
            Some(low) => if digits[0] == '+' {
                Some(low)
            } else {
                match text::hex_digit(digits[0]) {
                    Some(high) => Some((high * 16 + low) as nat),
                    None => None,
                }
            },
        }
    } else {
        None
    }
}

fn read_hex_byte(chars: &Vec<char>, from: usize, len: usize) -> (value: Option<u8>)
    requires
        len == 1 || len == 2,
        from + len <= chars@.len(),
    ensures
        value is Some <==> hex_byte(chars@.subrange(from as int, from + len)) is Some,
        value matches Some(value) ==> hex_byte(chars@.subrange(from as int, from + len)) == Some(
            value as nat,
        ),
        value matches Some(value) ==> len == 1 ==> value < 16,
{
    let ghost digits = chars@.subrange(from as int, from + len);
    assert(digits[0] == chars@[from as int]);
    if len == 1 {
        return text::hex_digit_of(chars[from]);
    }
    let total: usize = chars.len();
    assert(from + 1 < total);
    assert(digits[1] == chars@[from + 1]);
    let low = match text::hex_digit_of(chars[from + 1]) {
        Some(low) => low,
        None => return None,
    };
    if chars[from] == '+' {
        return Some(low);
    }
    match text::hex_digit_of(chars[from]) {
        Some(high) => Some(high * 16 + low),
        None => None,
    }
}

/// The colour that hexadecimal digits spell: three of one digit, or three or
/// four of two.
pub open spec fn colour_of(value: Seq<char>) -> Option<(nat, nat, nat, nat)> {
    let hex = text::without_prefix(value, "#"@);
    if hex.len() == 3 {
        match (
            hex_byte(hex.subrange(0, 1)),
            hex_byte(hex.subrange(1, 2)),
            hex_byte(hex.subrange(2, 3)),
        ) {
            (Some(red), Some(green), Some(blue)) => Some(
                ((red * 17) as nat, (green * 17) as nat, (blue * 17) as nat, 255),
            ),
            _ => None,
        }
    } else if hex.len() == 6 {
        match (
            hex_byte(hex.subrange(0, 2)),
            hex_byte(hex.subrange(2, 4)),
            hex_byte(hex.subrange(4, 6)),
        ) {
            (Some(red), Some(green), Some(blue)) => Some((red, green, blue, 255)),
            _ => None,
        }
    } else if hex.len() == 8 {
        match (
            hex_byte(hex.subrange(0, 2)),
            hex_byte(hex.subrange(2, 4)),
            hex_byte(hex.subrange(4, 6)),
            hex_byte(hex.subrange(6, 8)),
        ) {
            (Some(red), Some(green), Some(blue), Some(alpha)) => Some((red, green, blue, alpha)),
            _ => None,
        }
    } else {
        None
    }
}

/// The message for a colour that cannot be read, from its quoted form.
pub open spec fn bad_colour(quoted: Seq<char>) -> Seq<char> {
    "Images.transform() background "@ + quoted + " is not a hex color"@
}

/// The message for a colour that cannot be read, from its quoted form.
pub fn bad_colour_text(quoted: &str) -> (message: String)
    ensures
        message@ == bad_colour(quoted@),
{
    let mut message = "Images.transform() background ".to_owned();
    message.append(quoted);
    message.append(" is not a hex color");
    message
}

fn read_colour(value: &str) -> (colour: Option<(u8, u8, u8, u8)>)
    ensures
        colour is Some <==> colour_of(value@) is Some,
        colour matches Some(c) ==> colour_of(value@) == Some(
            (c.0 as nat, c.1 as nat, c.2 as nat, c.3 as nat),
        ),
{
    let hex: String = match text::strip_prefix(value, "#") {
        Some(rest) => rest,
        None => value.to_owned(),
    };
    let chars = text::chars_of(hex.as_str());
    if chars.len() == 3 {
        let red = match read_hex_byte(&chars, 0, 1) {
            Some(value) => value,
            None => return None,
        };
        let green = match read_hex_byte(&chars, 1, 1) {
            Some(value) => value,
            None => return None,
        };
        let blue = match read_hex_byte(&chars, 2, 1) {
            Some(value) => value,
            None => return None,
        };
        return Some((red * 17, green * 17, blue * 17, 255));
    }
    if chars.len() != 6 && chars.len() != 8 {
        return None;
    }
    let red = match read_hex_byte(&chars, 0, 2) {
        Some(value) => value,
        None => return None,
    };
    let green = match read_hex_byte(&chars, 2, 2) {
        Some(value) => value,
        None => return None,
    };
    let blue = match read_hex_byte(&chars, 4, 2) {
        Some(value) => value,
        None => return None,
    };
    if chars.len() == 6 {
        return Some((red, green, blue, 255));
    }
    match read_hex_byte(&chars, 6, 2) {
        Some(alpha) => Some((red, green, blue, alpha)),
        None => None,
    }
}

/// The colour that a background names.
pub fn parse_background(value: &str) -> (colour: Result<(u8, u8, u8, u8), String>)
    ensures
        colour is Ok <==> colour_of(value@) is Some,
        colour matches Ok(c) ==> colour_of(value@) == Some(
            (c.0 as nat, c.1 as nat, c.2 as nat, c.3 as nat),
        ),
        colour matches Err(message) ==> message@ == bad_colour(text::debug_quoted(value@)),
{
    match read_colour(value) {
        Some(colour) => Ok(colour),
        None => {
            let quoted = text::debug_text(value);
            Err(bad_colour_text(quoted.as_str()))
        },
    }
}

/// How a picture is written.
#[derive(Clone, Copy, Debug, PartialEq, Eq, Structural)]
pub enum OutputPlan {
    Jpeg { quality: u8 },
    Png,
    WebP,
    Avif,
}

/// The format of a name: JPEG where there is none.
pub open spec fn format_of(format: Option<String>) -> Option<ImageKind> {
    match format {
        None => Some(ImageKind::Jpeg),
        Some(name) => if name@ == "image/jpeg"@ || name@ == "jpeg"@ || name@ == "jpg"@ {
            Some(ImageKind::Jpeg)
        } else if name@ == "image/png"@ || name@ == "png"@ {
            Some(ImageKind::Png)
        } else if name@ == "image/webp"@ || name@ == "webp"@ {
            Some(ImageKind::WebP)
        } else if name@ == "image/avif"@ || name@ == "avif"@ {
            Some(ImageKind::Avif)
        } else {
            None
        },
    }
}

/// The message for a format that there is not, from its quoted name.
pub open spec fn bad_format(quoted: Seq<char>) -> Seq<char> {
    "Images.output() format "@ + quoted + " is not supported"@
}

/// The message for a format that there is not, from its quoted name.
pub fn bad_format_text(quoted: &str) -> (message: String)
    ensures
        message@ == bad_format(quoted@),
{
    let mut message = "Images.output() format ".to_owned();
    message.append(quoted);
    message.append(" is not supported");
    message
}

/// Why a picture cannot be written as asked.
pub open spec fn output_refusal(output: Output) -> Option<Seq<char>> {
    match format_of(output.format) {
        None => Some(bad_format(text::debug_quoted(output.format->0@))),
        Some(kind) => match output.quality {
            None => None,
            Some(quality) => if quality == 0 || quality > 100 {
                Some("Images.output() quality must be between 1 and 100"@)
            } else if !(kind is Jpeg || kind is WebP) {
                Some("Images.output() quality applies only to jpeg and webp"@)
            } else {
                None
            },
        },
    }
}

/// The quality that an output asks for, 85 where it says nothing.
pub open spec fn quality_asked(output: Output) -> u8 {
    match output.quality {
        Some(quality) => quality,
        None => 85,
    }
}

/// How a picture is written. Only JPEG has a quality of its own, 85 where
/// nothing is said.
pub fn plan_output(output: &Output) -> (plan: Result<OutputPlan, String>)
    ensures
        match output_refusal(*output) {
            Some(reason) => plan matches Err(message) && message@ == reason,
            None => plan matches Ok(plan) && match format_of(output.format)->0 {
                ImageKind::Jpeg => plan == (OutputPlan::Jpeg {
                    quality: quality_asked(*output),
                }) && 1 <= plan->Jpeg_quality <= 100,
                ImageKind::Png => plan is Png,
                ImageKind::WebP => plan is WebP,
                _ => plan is Avif,
            },
        },
{
    let kind = match &output.format {
        None => ImageKind::Jpeg,
        Some(name) => {
            let name = name.as_str();
            if text::same(name, "image/jpeg") || text::same(name, "jpeg") || text::same(
                name,
                "jpg",
            ) {
                ImageKind::Jpeg
            } else if text::same(name, "image/png") || text::same(name, "png") {
                ImageKind::Png
            } else if text::same(name, "image/webp") || text::same(name, "webp") {
                ImageKind::WebP
            } else if text::same(name, "image/avif") || text::same(name, "avif") {
                ImageKind::Avif
            } else {
                let quoted = text::debug_text(name);
                return Err(bad_format_text(quoted.as_str()));
            }
        },
    };
    if let Some(quality) = output.quality {
        if quality == 0 || quality > 100 {
            return Err("Images.output() quality must be between 1 and 100".to_owned());
        }
        match kind {
            ImageKind::Jpeg | ImageKind::WebP => {},
            _ => return Err(
                "Images.output() quality applies only to jpeg and webp".to_owned(),
            ),
        }
    }
    match kind {
        ImageKind::Jpeg => Ok(
            OutputPlan::Jpeg {
                quality: match output.quality {
                    Some(quality) => quality,
                    None => 85,
                },
            },
        ),
        ImageKind::Png => Ok(OutputPlan::Png),
        ImageKind::WebP => Ok(OutputPlan::WebP),
        _ => Ok(OutputPlan::Avif),
    }
}

/// The media type of a format.
pub open spec fn media_type(kind: ImageKind) -> Seq<char> {
    match kind {
        ImageKind::Jpeg => "image/jpeg"@,
        ImageKind::Png => "image/png"@,
        ImageKind::WebP => "image/webp"@,
        ImageKind::Avif => "image/avif"@,
        ImageKind::Gif => "image/gif"@,
        ImageKind::Unknown => "application/octet-stream"@,
    }
}

/// The media type of a format.
pub fn format_name(kind: ImageKind) -> (name: String)
    ensures
        name@ == media_type(kind),
{
    match kind {
        ImageKind::Jpeg => "image/jpeg".to_owned(),
        ImageKind::Png => "image/png".to_owned(),
        ImageKind::WebP => "image/webp".to_owned(),
        ImageKind::Avif => "image/avif".to_owned(),
        ImageKind::Gif => "image/gif".to_owned(),
        ImageKind::Unknown => "application/octet-stream".to_owned(),
    }
}

/// No two names of fits are the same.
pub(crate) proof fn lemma_fit_names_differ()
    ensures
        "scale-down"@ != "contain"@,
        "scale-down"@ != "pad"@,
        "scale-down"@ != "squeeze"@,
        "scale-down"@ != "cover"@,
        "scale-down"@ != "crop"@,
        "contain"@ != "pad"@,
        "contain"@ != "squeeze"@,
        "contain"@ != "cover"@,
        "contain"@ != "crop"@,
        "pad"@ != "squeeze"@,
        "pad"@ != "cover"@,
        "pad"@ != "crop"@,
        "squeeze"@ != "cover"@,
        "squeeze"@ != "crop"@,
        "cover"@ != "crop"@,
{
    reveal_strlit("scale-down");
    reveal_strlit("contain");
    reveal_strlit("pad");
    reveal_strlit("squeeze");
    reveal_strlit("cover");
    reveal_strlit("crop");
    assert("scale-down"@.len() != "contain"@.len());
    assert("scale-down"@.len() != "pad"@.len());
    assert("scale-down"@.len() != "squeeze"@.len());
    assert("scale-down"@.len() != "cover"@.len());
    assert("scale-down"@.len() != "crop"@.len());
    assert("contain"@.len() != "pad"@.len());
    assert("contain"@[0] != "squeeze"@[0]);
    assert("contain"@.len() != "cover"@.len());
    assert("contain"@.len() != "crop"@.len());
    assert("pad"@.len() != "squeeze"@.len());
    assert("pad"@.len() != "cover"@.len());
    assert("pad"@.len() != "crop"@.len());
    assert("squeeze"@.len() != "cover"@.len());
    assert("squeeze"@.len() != "crop"@.len());
    assert("cover"@.len() != "crop"@.len());
}

/// No two names of places are the same.
pub(crate) proof fn lemma_gravity_names_differ()
    ensures
        "center"@ != "auto"@,
        "center"@ != "top"@,
        "center"@ != "north"@,
        "center"@ != "bottom"@,
        "center"@ != "south"@,
        "center"@ != "left"@,
        "center"@ != "west"@,
        "center"@ != "right"@,
        "center"@ != "east"@,
        "center"@ != "top-left"@,
        "center"@ != "northwest"@,
        "center"@ != "top-right"@,
        "center"@ != "northeast"@,
        "center"@ != "bottom-left"@,
        "center"@ != "southwest"@,
        "center"@ != "bottom-right"@,
        "center"@ != "southeast"@,
        "auto"@ != "top"@,
        "auto"@ != "north"@,
        "auto"@ != "bottom"@,
        "auto"@ != "south"@,
        "auto"@ != "left"@,
        "auto"@ != "west"@,
        "auto"@ != "right"@,
        "auto"@ != "east"@,
        "auto"@ != "top-left"@,
        "auto"@ != "northwest"@,
        "auto"@ != "top-right"@,
        "auto"@ != "northeast"@,
        "auto"@ != "bottom-left"@,
        "auto"@ != "southwest"@,
        "auto"@ != "bottom-right"@,
        "auto"@ != "southeast"@,
        "top"@ != "north"@,
        "top"@ != "bottom"@,
        "top"@ != "south"@,
        "top"@ != "left"@,
        "top"@ != "west"@,
        "top"@ != "right"@,
        "top"@ != "east"@,
        "top"@ != "top-left"@,
        "top"@ != "northwest"@,
        "top"@ != "top-right"@,
        "top"@ != "northeast"@,
        "top"@ != "bottom-left"@,
        "top"@ != "southwest"@,
        "top"@ != "bottom-right"@,
        "top"@ != "southeast"@,
        "north"@ != "bottom"@,
        "north"@ != "south"@,
        "north"@ != "left"@,
        "north"@ != "west"@,
        "north"@ != "right"@,
        "north"@ != "east"@,
        "north"@ != "top-left"@,
        "north"@ != "northwest"@,
        "north"@ != "top-right"@,
        "north"@ != "northeast"@,
        "north"@ != "bottom-left"@,
        "north"@ != "southwest"@,
        "north"@ != "bottom-right"@,
        "north"@ != "southeast"@,
        "bottom"@ != "south"@,
        "bottom"@ != "left"@,
        "bottom"@ != "west"@,
        "bottom"@ != "right"@,
        "bottom"@ != "east"@,
        "bottom"@ != "top-left"@,
        "bottom"@ != "northwest"@,
        "bottom"@ != "top-right"@,
        "bottom"@ != "northeast"@,
        "bottom"@ != "bottom-left"@,
        "bottom"@ != "southwest"@,
        "bottom"@ != "bottom-right"@,
        "bottom"@ != "southeast"@,
        "south"@ != "left"@,
        "south"@ != "west"@,
        "south"@ != "right"@,
        "south"@ != "east"@,
        "south"@ != "top-left"@,
        "south"@ != "northwest"@,
        "south"@ != "top-right"@,
        "south"@ != "northeast"@,
        "south"@ != "bottom-left"@,
        "south"@ != "southwest"@,
        "south"@ != "bottom-right"@,
        "south"@ != "southeast"@,
        "left"@ != "west"@,
        "left"@ != "right"@,
        "left"@ != "east"@,
        "left"@ != "top-left"@,
        "left"@ != "northwest"@,
        "left"@ != "top-right"@,
        "left"@ != "northeast"@,
        "left"@ != "bottom-left"@,
        "left"@ != "southwest"@,
        "left"@ != "bottom-right"@,
        "left"@ != "southeast"@,
        "west"@ != "right"@,
        "west"@ != "east"@,
        "west"@ != "top-left"@,
        "west"@ != "northwest"@,
        "west"@ != "top-right"@,
        "west"@ != "northeast"@,
        "west"@ != "bottom-left"@,
        "west"@ != "southwest"@,
        "west"@ != "bottom-right"@,
        "west"@ != "southeast"@,
        "right"@ != "east"@,
        "right"@ != "top-left"@,
        "right"@ != "northwest"@,
        "right"@ != "top-right"@,
        "right"@ != "northeast"@,
        "right"@ != "bottom-left"@,
        "right"@ != "southwest"@,
        "right"@ != "bottom-right"@,
        "right"@ != "southeast"@,
        "east"@ != "top-left"@,
        "east"@ != "northwest"@,
        "east"@ != "top-right"@,
        "east"@ != "northeast"@,
        "east"@ != "bottom-left"@,
        "east"@ != "southwest"@,
        "east"@ != "bottom-right"@,
        "east"@ != "southeast"@,
        "top-left"@ != "northwest"@,
        "top-left"@ != "top-right"@,
        "top-left"@ != "northeast"@,
        "top-left"@ != "bottom-left"@,
        "top-left"@ != "southwest"@,
        "top-left"@ != "bottom-right"@,
        "top-left"@ != "southeast"@,
        "northwest"@ != "top-right"@,
        "northwest"@ != "northeast"@,
        "northwest"@ != "bottom-left"@,
        "northwest"@ != "southwest"@,
        "northwest"@ != "bottom-right"@,
        "northwest"@ != "southeast"@,
        "top-right"@ != "northeast"@,
        "top-right"@ != "bottom-left"@,
        "top-right"@ != "southwest"@,
        "top-right"@ != "bottom-right"@,
        "top-right"@ != "southeast"@,
        "northeast"@ != "bottom-left"@,
        "northeast"@ != "southwest"@,
        "northeast"@ != "bottom-right"@,
        "northeast"@ != "southeast"@,
        "bottom-left"@ != "southwest"@,
        "bottom-left"@ != "bottom-right"@,
        "bottom-left"@ != "southeast"@,
        "southwest"@ != "bottom-right"@,
        "southwest"@ != "southeast"@,
        "bottom-right"@ != "southeast"@,
{
    reveal_strlit("center");
    reveal_strlit("auto");
    reveal_strlit("top");
    reveal_strlit("north");
    reveal_strlit("bottom");
    reveal_strlit("south");
    reveal_strlit("left");
    reveal_strlit("west");
    reveal_strlit("right");
    reveal_strlit("east");
    reveal_strlit("top-left");
    reveal_strlit("northwest");
    reveal_strlit("top-right");
    reveal_strlit("northeast");
    reveal_strlit("bottom-left");
    reveal_strlit("southwest");
    reveal_strlit("bottom-right");
    reveal_strlit("southeast");
    assert("center"@.len() != "auto"@.len());
    assert("center"@.len() != "top"@.len());
    assert("center"@.len() != "north"@.len());
    assert("center"@[0] != "bottom"@[0]);
    assert("center"@.len() != "south"@.len());
    assert("center"@.len() != "left"@.len());
    assert("center"@.len() != "west"@.len());
    assert("center"@.len() != "right"@.len());
    assert("center"@.len() != "east"@.len());
    assert("center"@.len() != "top-left"@.len());
    assert("center"@.len() != "northwest"@.len());
    assert("center"@.len() != "top-right"@.len());
    assert("center"@.len() != "northeast"@.len());
    assert("center"@.len() != "bottom-left"@.len());
    assert("center"@.len() != "southwest"@.len());
    assert("center"@.len() != "bottom-right"@.len());
    assert("center"@.len() != "southeast"@.len());
    assert("auto"@.len() != "top"@.len());
    assert("auto"@.len() != "north"@.len());
    assert("auto"@.len() != "bottom"@.len());
    assert("auto"@.len() != "south"@.len());
    assert("auto"@[0] != "left"@[0]);
    assert("auto"@[0] != "west"@[0]);
    assert("auto"@.len() != "right"@.len());
    assert("auto"@[0] != "east"@[0]);
    assert("auto"@.len() != "top-left"@.len());
    assert("auto"@.len() != "northwest"@.len());
    assert("auto"@.len() != "top-right"@.len());
    assert("auto"@.len() != "northeast"@.len());
    assert("auto"@.len() != "bottom-left"@.len());
    assert("auto"@.len() != "southwest"@.len());
    assert("auto"@.len() != "bottom-right"@.len());
    assert("auto"@.len() != "southeast"@.len());
    assert("top"@.len() != "north"@.len());
    assert("top"@.len() != "bottom"@.len());
    assert("top"@.len() != "south"@.len());
    assert("top"@.len() != "left"@.len());
    assert("top"@.len() != "west"@.len());
    assert("top"@.len() != "right"@.len());
    assert("top"@.len() != "east"@.len());
    assert("top"@.len() != "top-left"@.len());
    assert("top"@.len() != "northwest"@.len());
    assert("top"@.len() != "top-right"@.len());
    assert("top"@.len() != "northeast"@.len());
    assert("top"@.len() != "bottom-left"@.len());
    assert("top"@.len() != "southwest"@.len());
    assert("top"@.len() != "bottom-right"@.len());
    assert("top"@.len() != "southeast"@.len());
    assert("north"@.len() != "bottom"@.len());
    assert("north"@[0] != "south"@[0]);
    assert("north"@.len() != "left"@.len());
    assert("north"@.len() != "west"@.len());
    assert("north"@[0] != "right"@[0]);
    assert("north"@.len() != "east"@.len());
    assert("north"@.len() != "top-left"@.len());
    assert("north"@.len() != "northwest"@.len());
    assert("north"@.len() != "top-right"@.len());
    assert("north"@.len() != "northeast"@.len());
    assert("north"@.len() != "bottom-left"@.len());
    assert("north"@.len() != "southwest"@.len());
    assert("north"@.len() != "bottom-right"@.len());
    assert("north"@.len() != "southeast"@.len());
    assert("bottom"@.len() != "south"@.len());
    assert("bottom"@.len() != "left"@.len());
    assert("bottom"@.len() != "west"@.len());
    assert("bottom"@.len() != "right"@.len());
    assert("bottom"@.len() != "east"@.len());
    assert("bottom"@.len() != "top-left"@.len());
    assert("bottom"@.len() != "northwest"@.len());
    assert("bottom"@.len() != "top-right"@.len());
    assert("bottom"@.len() != "northeast"@.len());
    assert("bottom"@.len() != "bottom-left"@.len());
    assert("bottom"@.len() != "southwest"@.len());
    assert("bottom"@.len() != "bottom-right"@.len());
    assert("bottom"@.len() != "southeast"@.len());
    assert("south"@.len() != "left"@.len());
    assert("south"@.len() != "west"@.len());
    assert("south"@[0] != "right"@[0]);
    assert("south"@.len() != "east"@.len());
    assert("south"@.len() != "top-left"@.len());
    assert("south"@.len() != "northwest"@.len());
    assert("south"@.len() != "top-right"@.len());
    assert("south"@.len() != "northeast"@.len());
    assert("south"@.len() != "bottom-left"@.len());
    assert("south"@.len() != "southwest"@.len());
    assert("south"@.len() != "bottom-right"@.len());
    assert("south"@.len() != "southeast"@.len());
    assert("left"@[0] != "west"@[0]);
    assert("left"@.len() != "right"@.len());
    assert("left"@[0] != "east"@[0]);
    assert("left"@.len() != "top-left"@.len());
    assert("left"@.len() != "northwest"@.len());
    assert("left"@.len() != "top-right"@.len());
    assert("left"@.len() != "northeast"@.len());
    assert("left"@.len() != "bottom-left"@.len());
    assert("left"@.len() != "southwest"@.len());
    assert("left"@.len() != "bottom-right"@.len());
    assert("left"@.len() != "southeast"@.len());
    assert("west"@.len() != "right"@.len());
    assert("west"@[0] != "east"@[0]);
    assert("west"@.len() != "top-left"@.len());
    assert("west"@.len() != "northwest"@.len());
    assert("west"@.len() != "top-right"@.len());
    assert("west"@.len() != "northeast"@.len());
    assert("west"@.len() != "bottom-left"@.len());
    assert("west"@.len() != "southwest"@.len());
    assert("west"@.len() != "bottom-right"@.len());
    assert("west"@.len() != "southeast"@.len());
    assert("right"@.len() != "east"@.len());
    assert("right"@.len() != "top-left"@.len());
    assert("right"@.len() != "northwest"@.len());
    assert("right"@.len() != "top-right"@.len());
    assert("right"@.len() != "northeast"@.len());
    assert("right"@.len() != "bottom-left"@.len());
    assert("right"@.len() != "southwest"@.len());
    assert("right"@.len() != "bottom-right"@.len());
    assert("right"@.len() != "southeast"@.len());
    assert("east"@.len() != "top-left"@.len());
    assert("east"@.len() != "northwest"@.len());
    assert("east"@.len() != "top-right"@.len());
    assert("east"@.len() != "northeast"@.len());
    assert("east"@.len() != "bottom-left"@.len());
    assert("east"@.len() != "southwest"@.len());
    assert("east"@.len() != "bottom-right"@.len());
    assert("east"@.len() != "southeast"@.len());
    assert("top-left"@.len() != "northwest"@.len());
    assert("top-left"@.len() != "top-right"@.len());
    assert("top-left"@.len() != "northeast"@.len());
    assert("top-left"@.len() != "bottom-left"@.len());
    assert("top-left"@.len() != "southwest"@.len());
    assert("top-left"@.len() != "bottom-right"@.len());
    assert("top-left"@.len() != "southeast"@.len());
    assert("northwest"@[0] != "top-right"@[0]);
    assert("northwest"@[5] != "northeast"@[5]);
    assert("northwest"@.len() != "bottom-left"@.len());
    assert("northwest"@[0] != "southwest"@[0]);
    assert("northwest"@.len() != "bottom-right"@.len());
    assert("northwest"@[0] != "southeast"@[0]);
    assert("top-right"@[0] != "northeast"@[0]);
    assert("top-right"@.len() != "bottom-left"@.len());
    assert("top-right"@[0] != "southwest"@[0]);
    assert("top-right"@.len() != "bottom-right"@.len());
    assert("top-right"@[0] != "southeast"@[0]);
    assert("northeast"@.len() != "bottom-left"@.len());
    assert("northeast"@[0] != "southwest"@[0]);
    assert("northeast"@.len() != "bottom-right"@.len());
    assert("northeast"@[0] != "southeast"@[0]);
    assert("bottom-left"@.len() != "southwest"@.len());
    assert("bottom-left"@.len() != "bottom-right"@.len());
    assert("bottom-left"@.len() != "southeast"@.len());
    assert("southwest"@.len() != "bottom-right"@.len());
    assert("southwest"@[5] != "southeast"@[5]);
    assert("bottom-right"@.len() != "southeast"@.len());
}

/// No two names of formats are the same.
pub(crate) proof fn lemma_format_names_differ()
    ensures
        "image/jpeg"@ != "jpeg"@,
        "image/jpeg"@ != "jpg"@,
        "image/jpeg"@ != "image/png"@,
        "image/jpeg"@ != "png"@,
        "image/jpeg"@ != "image/webp"@,
        "image/jpeg"@ != "webp"@,
        "image/jpeg"@ != "image/avif"@,
        "image/jpeg"@ != "avif"@,
        "jpeg"@ != "jpg"@,
        "jpeg"@ != "image/png"@,
        "jpeg"@ != "png"@,
        "jpeg"@ != "image/webp"@,
        "jpeg"@ != "webp"@,
        "jpeg"@ != "image/avif"@,
        "jpeg"@ != "avif"@,
        "jpg"@ != "image/png"@,
        "jpg"@ != "png"@,
        "jpg"@ != "image/webp"@,
        "jpg"@ != "webp"@,
        "jpg"@ != "image/avif"@,
        "jpg"@ != "avif"@,
        "image/png"@ != "png"@,
        "image/png"@ != "image/webp"@,
        "image/png"@ != "webp"@,
        "image/png"@ != "image/avif"@,
        "image/png"@ != "avif"@,
        "png"@ != "image/webp"@,
        "png"@ != "webp"@,
        "png"@ != "image/avif"@,
        "png"@ != "avif"@,
        "image/webp"@ != "webp"@,
        "image/webp"@ != "image/avif"@,
        "image/webp"@ != "avif"@,
        "webp"@ != "image/avif"@,
        "webp"@ != "avif"@,
        "image/avif"@ != "avif"@,
{
    reveal_strlit("image/jpeg");
    reveal_strlit("jpeg");
    reveal_strlit("jpg");
    reveal_strlit("image/png");
    reveal_strlit("png");
    reveal_strlit("image/webp");
    reveal_strlit("webp");
    reveal_strlit("image/avif");
    reveal_strlit("avif");
    assert("image/jpeg"@.len() != "jpeg"@.len());
    assert("image/jpeg"@.len() != "jpg"@.len());
    assert("image/jpeg"@.len() != "image/png"@.len());
    assert("image/jpeg"@.len() != "png"@.len());
    assert("image/jpeg"@[6] != "image/webp"@[6]);
    assert("image/jpeg"@.len() != "webp"@.len());
    assert("image/jpeg"@[6] != "image/avif"@[6]);
    assert("image/jpeg"@.len() != "avif"@.len());
    assert("jpeg"@.len() != "jpg"@.len());
    assert("jpeg"@.len() != "image/png"@.len());
    assert("jpeg"@.len() != "png"@.len());
    assert("jpeg"@.len() != "image/webp"@.len());
    assert("jpeg"@[0] != "webp"@[0]);
    assert("jpeg"@.len() != "image/avif"@.len());
    assert("jpeg"@[0] != "avif"@[0]);
    assert("jpg"@.len() != "image/png"@.len());
    assert("jpg"@[0] != "png"@[0]);
    assert("jpg"@.len() != "image/webp"@.len());
    assert("jpg"@.len() != "webp"@.len());
    assert("jpg"@.len() != "image/avif"@.len());
    assert("jpg"@.len() != "avif"@.len());
    assert("image/png"@.len() != "png"@.len());
    assert("image/png"@.len() != "image/webp"@.len());
    assert("image/png"@.len() != "webp"@.len());
    assert("image/png"@.len() != "image/avif"@.len());
    assert("image/png"@.len() != "avif"@.len());
    assert("png"@.len() != "image/webp"@.len());
    assert("png"@.len() != "webp"@.len());
    assert("png"@.len() != "image/avif"@.len());
    assert("png"@.len() != "avif"@.len());
    assert("image/webp"@.len() != "webp"@.len());
    assert("image/webp"@[6] != "image/avif"@[6]);
    assert("image/webp"@.len() != "avif"@.len());
    assert("webp"@.len() != "image/avif"@.len());
    assert("webp"@[0] != "avif"@[0]);
    assert("image/avif"@.len() != "avif"@.len());
}

/// A file is taken exactly when it is neither empty nor over 32 MiB.
pub proof fn law_input_is_bounded(len: usize, checked: Result<(), String>)
    requires
        call_ensures(check_input, (len,), checked),
    ensures
        checked is Ok <==> 1 <= len && len <= 32 * 1024 * 1024,
{
}

/// A turn is a quarter of a circle each 90 degrees, whichever way it goes and
/// however often round; no other number of degrees is a turn.
pub proof fn law_turn_is_a_multiple_of_a_quarter(degrees: i32, turn: Result<Turn, String>)
    requires
        call_ensures(read_turn, (degrees,), turn),
    ensures
        turn is Ok <==> degrees as int % 90 == 0,
        (turn matches Ok(Turn::Full)) <==> degrees as int % 360 == 0,
        (turn matches Ok(Turn::Quarter)) <==> (degrees - 90) % 360 == 0,
        (turn matches Ok(Turn::Half)) <==> (degrees - 180) % 360 == 0,
        (turn matches Ok(Turn::ThreeQuarters)) <==> (degrees + 90) % 360 == 0,
{
}

/// A full circle more or less makes no difference.
pub proof fn law_full_circle_changes_nothing(
    one: i32,
    other: i32,
    one_turn: Result<Turn, String>,
    other_turn: Result<Turn, String>,
)
    requires
        (one - other) % 360 == 0,
        call_ensures(read_turn, (one,), one_turn),
        call_ensures(read_turn, (other,), other_turn),
    ensures
        one_turn is Ok <==> other_turn is Ok,
        one_turn is Ok ==> one_turn->Ok_0 == other_turn->Ok_0,
{
}

/// An edge is asked for exactly when it is given and not 0.
pub proof fn law_zero_asks_for_no_edge(edge: Option<u32>, out: Option<u32>)
    requires
        call_ensures(wanted_edge, (edge,), out),
    ensures
        out is Some <==> edge is Some && edge->0 != 0,
        out is Some ==> out == edge,
{
}

/// Each fit has its name, `crop` is another for `cover`, and no name at all means
/// `scale-down`. Any other is refused.
pub proof fn law_fits_go_by_their_names(fit: Option<String>, asked: Result<Fit, String>)
    requires
        call_ensures(read_fit, (&fit,), asked),
    ensures
        (asked matches Ok(Fit::ScaleDown)) <==> fit is None || fit->0@ == "scale-down"@,
        (asked matches Ok(Fit::Contain)) <==> fit is Some && fit->0@ == "contain"@,
        (asked matches Ok(Fit::Pad)) <==> fit is Some && fit->0@ == "pad"@,
        (asked matches Ok(Fit::Squeeze)) <==> fit is Some && fit->0@ == "squeeze"@,
        (asked matches Ok(Fit::Cover)) <==> fit is Some && (fit->0@ == "cover"@ || fit->0@
            == "crop"@),
{
    lemma_fit_names_differ();
}

/// What a picture is brought to, by its fit. Squeezed or covered, it reaches each
/// edge that was asked for and keeps the other. Contained or padded, it takes the
/// size that lies within what was asked for. Scaled down, it takes that size where
/// that is no larger than the picture, and on no edge does it grow: each edge is
/// the picture's own or the contained one, whichever is shorter.
pub proof fn law_target_follows_the_fit(
    fit: Fit,
    src: (u32, u32),
    width: Option<u32>,
    height: Option<u32>,
    contained: (u32, u32),
    size: (u32, u32),
)
    requires
        call_ensures(target_size, (fit, src, width, height, contained), size),
    ensures
        fit is Squeeze || fit is Cover ==> {
            &&& width is Some ==> size.0 == width->0
            &&& width is None ==> size.0 == src.0
            &&& height is Some ==> size.1 == height->0
            &&& height is None ==> size.1 == src.1
        },
        fit is Contain || fit is Pad ==> size == contained,
        fit is ScaleDown ==> {
            &&& contained.0 <= src.0 && contained.1 <= src.1 ==> size == contained
            &&& size.0 <= src.0 && size.1 <= src.1
            &&& size.0 <= contained.0 && size.1 <= contained.1
            &&& size.0 == src.0 || size.0 == contained.0
            &&& size.1 == src.1 || size.1 == contained.1
            &&& width is Some && contained.0 <= width->0 ==> size.0 <= width->0
            &&& height is Some && contained.1 <= height->0 ==> size.1 <= height->0
        },
{
}

/// A transform that asks for no edge leaves the size alone, whatever else it asks.
pub proof fn law_no_edge_keeps_the_size<P>(
    transform: Transform<P>,
    src: (u32, u32),
    contained: (u32, u32),
    plan: Result<Resize, String>,
)
    requires
        call_ensures(plan_resize::<P>, (&transform, src, contained), plan),
        transform.width is None || transform.width->0 == 0,
        transform.height is None || transform.height->0 == 0,
    ensures
        plan matches Ok(Resize::Keep),
{
}

/// What the plan for a picture comes to where an edge is asked for. The picture is
/// scaled down, contained or squeezed to its target, untouched only where it has
/// that size; covered, it is cropped to the edges that were asked for; padded, it
/// is contained and the canvas has those edges. No edge of the outcome is over
/// 12000, and nothing else is refused but a fit that there is not.
pub proof fn law_plan_brings_the_picture_to_its_target<P>(
    transform: Transform<P>,
    src: (u32, u32),
    contained: (u32, u32),
    plan: Result<Resize, String>,
)
    requires
        call_ensures(plan_resize::<P>, (&transform, src, contained), plan),
        transform.width is Some && transform.width->0 > 0 || transform.height is Some
            && transform.height->0 > 0,
    ensures
        ({
            let name = if transform.fit is None {
                "scale-down"@
            } else {
                transform.fit->0@
            };
            let across = transform.width is Some && transform.width->0 > 0;
            let down = transform.height is Some && transform.height->0 > 0;
            let asked = (
                if across {
                    transform.width->0
                } else {
                    src.0
                },
                if down {
                    transform.height->0
                } else {
                    src.1
                },
            );
            let least = (
                if contained.0 <= src.0 {
                    contained.0
                } else {
                    src.0
                },
                if contained.1 <= src.1 {
                    contained.1
                } else {
                    src.1
                },
            );
            let canvas = (
                if across {
                    transform.width->0
                } else {
                    contained.0
                },
                if down {
                    transform.height->0
                } else {
                    contained.1
                },
            );
            let fits = |size: (u32, u32)| size.0 <= 12000 && size.1 <= 12000;
            let brought = |size: (u32, u32)|
                if !fits(size) {
                    plan is Err
                } else if size == src {
                    plan matches Ok(Resize::Keep)
                } else {
                    plan matches Ok(Resize::Exact { size: reached }) && reached == size
                };
            &&& name == "scale-down"@ ==> brought(least)
            &&& name == "contain"@ ==> brought(contained)
            &&& name == "squeeze"@ ==> brought(asked)
            &&& name == "cover"@ || name == "crop"@ ==> if fits(asked) {
                plan matches Ok(Resize::Covered { size }) && size == asked
            } else {
                plan is Err
            }
            &&& name == "pad"@ ==> if fits(contained) && fits(canvas) {
                plan matches Ok(Resize::Padded { size, canvas: around }) && size == contained
                    && around == canvas
            } else {
                plan is Err
            }
            &&& !(name == "scale-down"@ || name == "contain"@
            || name == "pad"@ || name == "squeeze"@ || name == "cover"@
            || name == "crop"@) ==> plan is Err
        }),
{
    lemma_fit_names_differ();
}

/// Each name of a place stands for the sides that it says, and no other name for
/// any.
pub proof fn law_places_go_by_their_names(name: &str, sides: Option<(Side, Side)>)
    requires
        call_ensures(named_gravity, (name,), sides),
    ensures
        sides is Some && (sides->0).0 is Start <==> name@ == "left"@ || name@ == "west"@ || name@ == "top-left"@
            || name@ == "northwest"@ || name@ == "bottom-left"@
            || name@ == "southwest"@,
        sides is Some && (sides->0).0 is End <==> name@ == "right"@ || name@ == "east"@
            || name@ == "top-right"@ || name@ == "northeast"@
            || name@ == "bottom-right"@ || name@ == "southeast"@,
        sides is Some && (sides->0).1 is Start <==> name@ == "top"@ || name@ == "north"@ || name@ == "top-left"@
            || name@ == "northwest"@ || name@ == "top-right"@
            || name@ == "northeast"@,
        sides is Some && (sides->0).1 is End <==> name@ == "bottom"@ || name@ == "south"@
            || name@ == "bottom-left"@ || name@ == "southwest"@
            || name@ == "bottom-right"@ || name@ == "southeast"@,
        sides is Some <==> name@ == "center"@ || name@ == "auto"@ || name@ == "top"@
            || name@ == "north"@ || name@ == "bottom"@
            || name@ == "south"@ || name@ == "left"@
            || name@ == "west"@ || name@ == "right"@
            || name@ == "east"@ || name@ == "top-left"@
            || name@ == "northwest"@ || name@ == "top-right"@
            || name@ == "northeast"@ || name@ == "bottom-left"@
            || name@ == "southwest"@ || name@ == "bottom-right"@
            || name@ == "southeast"@,
{
    lemma_gravity_names_differ();
}

/// Where a crop starts. Without a place it lies in the middle, the odd pixel
/// behind it; with one it lies at the start, at the end, or in the middle with the
/// odd pixel before it; from a point it starts where the point puts it. A crop is
/// refused for a name that is no place, or a point that is none.
pub proof fn law_crop_lies_where_it_is_placed<P>(
    src: (u32, u32),
    dst: (u32, u32),
    gravity: Option<Gravity<P>>,
    point: Option<(u32, u32)>,
    origin: Result<(u32, u32), String>,
    name: &str,
    sides: Option<(Side, Side)>,
)
    requires
        dst.0 <= src.0,
        dst.1 <= src.1,
        call_ensures(crop_origin::<P>, (src, dst, &gravity, point), origin),
        gravity matches Some(Gravity::Named(text)) ==> text@ == name@,
        call_ensures(named_gravity, (name,), sides),
    ensures
        gravity is None ==> (origin matches Ok(at) && 2 * at.0 + dst.0 <= src.0 <= 2 * at.0 + dst.0
            + 1 && 2 * at.1 + dst.1 <= src.1 <= 2 * at.1 + dst.1 + 1),
        gravity matches Some(Gravity::Named(_)) ==> {
            &&& origin is Ok <==> sides is Some
            &&& sides matches Some((across, down)) ==> {
                let at = origin->Ok_0;
                &&& across is Start ==> at.0 == 0
                &&& across is End ==> at.0 + dst.0 == src.0
                &&& across is Middle ==> 2 * at.0 + dst.0 - 1 <= src.0 <= 2 * at.0 + dst.0
                &&& down is Start ==> at.1 == 0
                &&& down is End ==> at.1 + dst.1 == src.1
                &&& down is Middle ==> 2 * at.1 + dst.1 - 1 <= src.1 <= 2 * at.1 + dst.1
            }
        },
        gravity matches Some(Gravity::Point(_)) ==> {
            &&& origin is Ok <==> point is Some
            &&& point is Some ==> origin->Ok_0 == point->0
        },
{
}

/// A crop that is as large as the picture starts at its corner, however it is
/// placed by name.
pub proof fn law_whole_crop_starts_at_the_corner<P>(
    size: (u32, u32),
    larger: (u32, u32),
    gravity: Option<Gravity<P>>,
    point: Option<(u32, u32)>,
    origin: Result<(u32, u32), String>,
)
    requires
        size.0 <= larger.0,
        size.1 <= larger.1,
        !(gravity matches Some(Gravity::Point(_))),
        call_ensures(crop_origin::<P>, (size, larger, &gravity, point), origin),
    ensures
        origin matches Ok(at) ==> at.0 == 0 && at.1 == 0,
{
}

/// A colour is written with or without its mark, in one digit for each part or in
/// two that are alike, and with or without its full opacity: it is the same colour.
pub proof fn law_colour_has_many_spellings(
    short: &str,
    long: &str,
    marked: &str,
    opaque: &str,
    short_colour: Result<(u8, u8, u8, u8), String>,
    long_colour: Result<(u8, u8, u8, u8), String>,
    marked_colour: Result<(u8, u8, u8, u8), String>,
    opaque_colour: Result<(u8, u8, u8, u8), String>,
)
    requires
        short@.len() == 3,
        forall|i: int| 0 <= i < 3 ==> #[trigger] short@[i] != '#' && short@[i] != '+',
        long@ == seq![short@[0], short@[0], short@[1], short@[1], short@[2], short@[2]],
        marked@ == seq!['#'] + long@,
        opaque@ == long@ + seq!['f', 'f'],
        call_ensures(parse_background, (short,), short_colour),
        call_ensures(parse_background, (long,), long_colour),
        call_ensures(parse_background, (marked,), marked_colour),
        call_ensures(parse_background, (opaque,), opaque_colour),
    ensures
        short_colour is Ok <==> long_colour is Ok,
        marked_colour is Ok <==> long_colour is Ok,
        opaque_colour is Ok <==> long_colour is Ok,
        long_colour is Ok ==> short_colour->Ok_0 == long_colour->Ok_0 && marked_colour->Ok_0
            == long_colour->Ok_0 && opaque_colour->Ok_0 == long_colour->Ok_0,
        long_colour matches Ok(colour) ==> colour.3 == 255,
{
    reveal_strlit("#");
    let (s, l, o) = (short@, long@, opaque@);
    assert(short@[0] != '#' && short@[1] != '#' && short@[2] != '#');
    assert(short@[0] != '+' && short@[1] != '+' && short@[2] != '+');
    if text::has_prefix(s, "#"@) {
        assert(s.subrange(0, 1)[0] == s[0]);
    }
    if text::has_prefix(l, "#"@) {
        assert(l.subrange(0, 1)[0] == l[0]);
    }
    if text::has_prefix(o, "#"@) {
        assert(o.subrange(0, 1)[0] == o[0]);
        assert(o[0] == l[0]);
    }
    assert(marked@.subrange(0, 1) =~= "#"@);
    assert(marked@.subrange(1, 7) =~= l);
    assert(text::without_prefix(marked@, "#"@) =~= l);
    assert(o[6] == 'f' && o[7] == 'f');
    assert(o.subrange(0, 2) =~= l.subrange(0, 2));
    assert(o.subrange(2, 4) =~= l.subrange(2, 4));
    assert(o.subrange(4, 6) =~= l.subrange(4, 6));
    assert(o.subrange(6, 8) =~= seq!['f', 'f']);
}

/// Each part of a colour of six digits is its first digit times 16 and its second.
pub proof fn law_colour_is_read_digit_by_digit(
    value: &str,
    colour: Result<(u8, u8, u8, u8), String>,
    digits: Seq<nat>,
)
    requires
        value@.len() == 6,
        digits.len() == 6,
        forall|i: int| 0 <= i < 6 ==> text::hex_digit(#[trigger] value@[i]) == Some(digits[i]),
        call_ensures(parse_background, (value,), colour),
    ensures
        colour matches Ok(c) && c.0 == digits[0] * 16 + digits[1] && c.1 == digits[2] * 16
            + digits[3] && c.2 == digits[4] * 16 + digits[5] && c.3 == 255,
{
    reveal_strlit("#");
    let v = value@;
    assert(text::hex_digit(v[0]) == Some(digits[0]));
    assert(text::hex_digit(v[1]) == Some(digits[1]));
    assert(text::hex_digit(v[2]) == Some(digits[2]));
    assert(text::hex_digit(v[3]) == Some(digits[3]));
    assert(text::hex_digit(v[4]) == Some(digits[4]));
    assert(text::hex_digit(v[5]) == Some(digits[5]));
    if text::has_prefix(v, "#"@) {
        assert(v.subrange(0, 1)[0] == v[0]);
    }
    assert(text::without_prefix(v, "#"@) =~= v);
}

/// A colour is refused for a digit that is none, wherever it stands, and for any
/// other number of digits than three, six or eight.
pub proof fn law_bad_colour_is_refused(value: &str, colour: Result<(u8, u8, u8, u8), String>, at: int)
    requires
        value@.len() > 0,
        value@[0] != '#',
        0 <= at < value@.len(),
        call_ensures(parse_background, (value,), colour),
    ensures
        !(value@.len() == 3 || value@.len() == 6 || value@.len() == 8) ==> colour is Err,
        text::hex_digit(value@[at]) is None && value@[at] != '+' ==> colour is Err,
{
    reveal_strlit("#");
    let v = value@;
    if text::has_prefix(v, "#"@) {
        assert(v.subrange(0, 1)[0] == v[0]);
    }
    assert(text::without_prefix(v, "#"@) =~= v);
}

/// How an output is written: in the format that it names, JPEG where it names
/// none, and JPEG in the quality that it asks for, 85 where it asks for none. A
/// format that there is not is refused, a quality that is none, and a quality for
/// PNG or AVIF.
pub proof fn law_output_goes_by_its_format(output: Output, plan: Result<OutputPlan, String>)
    requires
        call_ensures(plan_output, (&output,), plan),
    ensures
        ({
            let name = if output.format is None {
                "jpeg"@
            } else {
                output.format->0@
            };
            let jpeg = name == "image/jpeg"@ || name == "jpeg"@ || name == "jpg"@;
            let png = name == "image/png"@ || name == "png"@;
            let webp = name == "image/webp"@ || name == "webp"@;
            let avif = name == "image/avif"@ || name == "avif"@;
            let silent = output.quality is None;
            let sound = output.quality is Some && 1 <= output.quality->0 <= 100;
            &&& plan is Ok <==> (jpeg || webp) && (silent || sound) || (png || avif) && silent
            &&& (plan matches Ok(OutputPlan::Jpeg { quality })) <==> jpeg && (silent || sound)
            &&& plan matches Ok(OutputPlan::Jpeg { quality }) ==> quality == if silent {
                85
            } else {
                output.quality->0
            }
            &&& (plan matches Ok(OutputPlan::WebP)) <==> webp && (silent || sound)
            &&& (plan matches Ok(OutputPlan::Png)) <==> png && silent
            &&& (plan matches Ok(OutputPlan::Avif)) <==> avif && silent
        }),
{
    lemma_format_names_differ();
}

/// A format's media type asks for that same format where it is asked for again.
pub proof fn law_media_type_names_its_format(
    kind: ImageKind,
    name: String,
    quality: Option<u8>,
    plan: Result<OutputPlan, String>,
)
    requires
        call_ensures(format_name, (kind,), name),
        call_ensures(plan_output, (&Output { format: Some(name), quality: None },), plan),
    ensures
        kind is Jpeg ==> plan matches Ok(OutputPlan::Jpeg { .. }),
        kind is Png ==> plan matches Ok(OutputPlan::Png),
        kind is WebP ==> plan matches Ok(OutputPlan::WebP),
        kind is Avif ==> plan matches Ok(OutputPlan::Avif),
        kind is Gif ==> name@ == "image/gif"@,
        kind is Unknown ==> name@ == "application/octet-stream"@,
{
    lemma_format_names_differ();
}

/// What is refused is named: the input by its size, a turn by its degrees, and a
/// name that there is not as it is quoted.
pub proof fn law_refused_input_is_named(
    len: usize,
    checked: Result<(), String>,
    quoted: &str,
    fit: String,
    gravity: String,
    colour: String,
    format: String,
)
    requires
        call_ensures(check_input, (len,), checked),
        call_ensures(bad_fit_text, (quoted,), fit),
        call_ensures(bad_gravity_text, (quoted,), gravity),
        call_ensures(bad_colour_text, (quoted,), colour),
        call_ensures(bad_format_text, (quoted,), format),
    ensures
        len == 0 ==> checked->Err_0@ == "Images input is empty"@,
        len > 33554432 ==> checked->Err_0@ == "Images input is "@ + text::dec(len as nat)
            + " bytes; celld accepts at most 33554432"@,
        fit@ == "Images.transform() fit "@ + quoted@ + " is not supported"@,
        gravity@ == "Images.transform() gravity "@ + quoted@ + " is not supported"@,
        colour@ == "Images.transform() background "@ + quoted@ + " is not a hex color"@,
        format@ == "Images.output() format "@ + quoted@ + " is not supported"@,
{
}

/// A mark before a colour makes no difference, and of eight digits the last two are
/// how opaque it is.
pub proof fn law_colour_may_be_marked_and_transparent(
    value: &str,
    marked: &str,
    colour: Result<(u8, u8, u8, u8), String>,
    marked_colour: Result<(u8, u8, u8, u8), String>,
    eight: &str,
    six: &str,
    eight_colour: Result<(u8, u8, u8, u8), String>,
    six_colour: Result<(u8, u8, u8, u8), String>,
    digits: (nat, nat),
)
    requires
        value@.len() == 0 || value@[0] != '#',
        marked@ == seq!['#'] + value@,
        call_ensures(parse_background, (value,), colour),
        call_ensures(parse_background, (marked,), marked_colour),
        six@.len() == 6 && six@[0] != '#',
        eight@.len() == 8 && eight@.take(6) == six@,
        text::hex_digit(eight@[6]) == Some(digits.0) && text::hex_digit(eight@[7]) == Some(digits.1),
        call_ensures(parse_background, (eight,), eight_colour),
        call_ensures(parse_background, (six,), six_colour),
    ensures
        marked_colour is Ok <==> colour is Ok,
        colour is Ok ==> marked_colour->Ok_0 == colour->Ok_0,
        eight_colour is Ok <==> six_colour is Ok,
        eight_colour matches Ok(found) ==> found.0 == six_colour->Ok_0.0 && found.1
            == six_colour->Ok_0.1 && found.2 == six_colour->Ok_0.2 && found.3 == digits.0 * 16
            + digits.1,
{
    reveal_strlit("#");
    if text::has_prefix(value@, "#"@) {
        assert(value@.subrange(0, 1)[0] == value@[0]);
    }
    assert(marked@.subrange(0, 1) =~= "#"@);
    assert(text::without_prefix(marked@, "#"@) =~= value@);
    let (s, e) = (six@, eight@);
    assert(s[0] == e[0]);
    if text::has_prefix(s, "#"@) {
        assert(s.subrange(0, 1)[0] == s[0]);
    }
    if text::has_prefix(e, "#"@) {
        assert(e.subrange(0, 1)[0] == e[0]);
    }
    assert(e.subrange(0, 2) =~= s.subrange(0, 2));
    assert(e.subrange(2, 4) =~= s.subrange(2, 4));
    assert(e.subrange(4, 6) =~= s.subrange(4, 6));
    assert(e.subrange(6, 8) =~= seq![e[6], e[7]]);
}

/// A crop that is larger than the picture starts at the picture's edge, wherever it
/// is placed by name or by nothing.
pub proof fn law_larger_crop_starts_at_the_edge<P>(
    src: (u32, u32),
    dst: (u32, u32),
    gravity: Option<Gravity<P>>,
    point: Option<(u32, u32)>,
    origin: Result<(u32, u32), String>,
)
    requires
        call_ensures(crop_origin::<P>, (src, dst, &gravity, point), origin),
        !(gravity matches Some(Gravity::Point(_))),
    ensures
        src.0 <= dst.0 ==> (origin matches Ok(at) ==> at.0 == 0),
        src.1 <= dst.1 ==> (origin matches Ok(at) ==> at.1 == 0),
{
}

} // verus!
