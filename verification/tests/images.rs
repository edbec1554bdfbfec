use celld::images::process::{
    apply_transform, describe, encode, encode_answer, info, process, process_picture, Sizing,
};
use celld::images::picture::{
    can_hold, can_resize, can_sample, is_exact, ImageKind, SAMPLED_FROM, SAMPLED_TO,
};
use celld::images::transform::{
    check_input, crop_origin, format_name, named_gravity, parse_background, plan_output,
    plan_resize, read_fit, read_turn, target_size, Fit, Gravity, Output, OutputPlan, Resize, Side,
    Transform, Turn,
};
use image::{DynamicImage, ImageBuffer, ImageFormat, Rgba};
use std::io::Cursor;

struct Proportions;

impl Sizing<(f64, f64)> for Proportions {
    fn contain(&self, src: (u32, u32), width: Option<u32>, height: Option<u32>) -> (u32, u32) {
        let across = src.0.max(1) as f64;
        let down = src.1.max(1) as f64;
        let scale = match (width, height) {
            (Some(w), Some(h)) => (w as f64 / across).min(h as f64 / down),
            (Some(w), None) => w as f64 / across,
            (None, Some(h)) => h as f64 / down,
            (None, None) => 1.0,
        };
        (
            ((across * scale).round() as u32).max(1),
            ((down * scale).round() as u32).max(1),
        )
    }

    fn cover(&self, src: (u32, u32), dst: (u32, u32)) -> (u32, u32) {
        let scale = (dst.0 as f64 / src.0.max(1) as f64).max(dst.1 as f64 / src.1.max(1) as f64);
        (
            (src.0 as f64 * scale).ceil() as u32,
            (src.1 as f64 * scale).ceil() as u32,
        )
    }

    fn origin(&self, point: &(f64, f64), room: (u32, u32)) -> Option<(u32, u32)> {
        if !(0.0..=1.0).contains(&point.0) || !(0.0..=1.0).contains(&point.1) {
            return None;
        }
        Some((
            (room.0 as f64 * point.0).round() as u32,
            (room.1 as f64 * point.1).round() as u32,
        ))
    }
}

fn picture(width: u32, height: u32) -> DynamicImage {
    DynamicImage::ImageRgba8(ImageBuffer::from_fn(width, height, |x, y| {
        Rgba([(x * 17) as u8, (y * 17) as u8, 80, 255])
    }))
}

fn png_bytes(width: u32, height: u32) -> Vec<u8> {
    let mut bytes = Vec::new();
    picture(width, height)
        .write_to(&mut Cursor::new(&mut bytes), ImageFormat::Png)
        .unwrap();
    bytes
}

fn nothing() -> Transform<(f64, f64)> {
    Transform {
        width: None,
        height: None,
        fit: None,
        gravity: None,
        background: None,
        rotate: None,
        flip: None,
        flop: None,
    }
}

fn sized(width: u32, height: u32, fit: &str) -> Transform<(f64, f64)> {
    let mut asked = nothing();
    asked.width = Some(width);
    asked.height = Some(height);
    asked.fit = Some(fit.to_string());
    asked
}

fn output(format: &str, quality: Option<u8>) -> Result<Output, String> {
    Ok(Output {
        format: Some(format.to_string()),
        quality,
    })
}

fn apply(before: DynamicImage, asked: Transform<(f64, f64)>) -> Result<DynamicImage, String> {
    apply_transform(before, &Ok(asked), &Proportions)
}

fn pixel(held: &DynamicImage, x: u32, y: u32) -> [u8; 4] {
    held.to_rgba8().get_pixel(x, y).0
}

#[test]
fn resize_png_reports_new_size() {
    let input = png_bytes(32, 16);
    let out = process(
        &input,
        &vec![Ok(sized(8, 8, "cover"))],
        &output("image/png", None),
        &Proportions,
    )
    .unwrap();
    let meta = info(&out).unwrap();
    assert_eq!(meta.width, 8);
    assert_eq!(meta.height, 8);
    assert_eq!(meta.format, "image/png");
}

#[test]
fn unknown_transform_field_fails_closed() {
    let input = png_bytes(8, 8);
    let error = process::<(f64, f64), Proportions>(
        &input,
        &vec![Err("unknown field `sharpen`".to_string())],
        &output("image/png", None),
        &Proportions,
    )
    .unwrap_err();
    assert!(error.contains("not supported"), "{error}");
    assert_eq!(error, "Images.transform() is not supported: unknown field `sharpen`");
}

#[test]
fn info_reads_jpeg() {
    let input = png_bytes(10, 6);
    let jpeg = process::<(f64, f64), Proportions>(
        &input,
        &vec![],
        &output("image/jpeg", Some(70)),
        &Proportions,
    )
    .unwrap();
    let meta = info(&jpeg).unwrap();
    assert_eq!(meta.format, "image/jpeg");
    assert_eq!(meta.width, 10);
    assert_eq!(meta.height, 6);
}

#[test]
fn encode_webp_roundtrip() {
    let input = png_bytes(8, 8);
    let webp = process::<(f64, f64), Proportions>(
        &input,
        &vec![],
        &output("image/webp", None),
        &Proportions,
    )
    .unwrap();
    let meta = info(&webp).unwrap();
    assert_eq!(meta.format, "image/webp");
}

#[test]
fn inputs_are_bounded_and_not_empty() {
    assert_eq!(check_input(0), Err("Images input is empty".to_string()));
    assert_eq!(check_input(1), Ok(()));
    assert_eq!(check_input(33554432), Ok(()));
    assert_eq!(
        check_input(33554433),
        Err("Images input is 33554433 bytes; celld accepts at most 33554432".to_string())
    );
    assert_eq!(info(&[]).unwrap_err(), "Images input is empty");
    // No file format is found, which is found out on decoding.
    assert_eq!(info(&[1, 2, 3]).unwrap_err(), "Images could not decode the input");
    let refused = process::<(f64, f64), Proportions>(
        &[1, 2, 3],
        &vec![Err("never read".to_string())],
        &Err("never read".to_string()),
        &Proportions,
    );
    assert_eq!(refused.unwrap_err(), "Images could not decode the input");
}

#[test]
fn the_output_is_read_last() {
    let refused = process_picture::<(f64, f64), Proportions>(
        picture(2, 2),
        &vec![Err("first".to_string())],
        &Err("second".to_string()),
        &Proportions,
    );
    assert_eq!(refused.unwrap_err(), "Images.transform() is not supported: first");
    let refused = process_picture::<(f64, f64), Proportions>(
        picture(2, 2),
        &vec![],
        &Err("second".to_string()),
        &Proportions,
    );
    assert_eq!(refused.unwrap_err(), "Images.output() is not supported: second");
}

#[test]
fn degrees_are_turns_of_ninety() {
    assert_eq!(read_turn(0), Ok(Turn::Full));
    assert_eq!(read_turn(90), Ok(Turn::Quarter));
    assert_eq!(read_turn(-90), Ok(Turn::ThreeQuarters));
    assert_eq!(read_turn(540), Ok(Turn::Half));
    assert_eq!(read_turn(-360), Ok(Turn::Full));
    assert_eq!(
        read_turn(-1),
        Err("Images.transform() rotate must be a multiple of 90, not 359".to_string())
    );
    assert_eq!(
        read_turn(i32::MIN),
        Err("Images.transform() rotate must be a multiple of 90, not 232".to_string())
    );
}

#[test]
fn turns_and_flips_move_pixels() {
    let before = picture(3, 2);
    let mut asked = nothing();
    asked.rotate = Some(90);
    let after = apply(before.clone(), asked).unwrap();
    assert_eq!((after.width(), after.height()), (2, 3));
    assert_eq!(pixel(&after, 1, 0), pixel(&before, 0, 0));
    assert_eq!(pixel(&after, 0, 2), pixel(&before, 2, 1));

    let mut asked = nothing();
    asked.rotate = Some(270);
    let after = apply(before.clone(), asked).unwrap();
    assert_eq!((after.width(), after.height()), (2, 3));
    assert_eq!(pixel(&after, 0, 2), pixel(&before, 0, 0));

    let mut asked = nothing();
    asked.rotate = Some(180);
    let after = apply(before.clone(), asked).unwrap();
    assert_eq!(pixel(&after, 2, 1), pixel(&before, 0, 0));

    let mut asked = nothing();
    asked.flip = Some(true);
    let after = apply(before.clone(), asked).unwrap();
    assert_eq!(pixel(&after, 0, 1), pixel(&before, 0, 0));

    let mut asked = nothing();
    asked.flop = Some(true);
    let after = apply(before.clone(), asked).unwrap();
    assert_eq!(pixel(&after, 2, 0), pixel(&before, 0, 0));

    // The turn comes first, then the flips.
    let mut asked = nothing();
    asked.rotate = Some(90);
    asked.flip = Some(true);
    asked.flop = Some(true);
    let after = apply(before.clone(), asked).unwrap();
    assert_eq!(pixel(&after, 0, 2), pixel(&before, 0, 0));

    let mut asked = nothing();
    asked.flip = Some(false);
    let after = apply(before.clone(), asked).unwrap();
    assert_eq!(after.to_rgba8(), before.to_rgba8());
}

#[test]
fn turning_there_and_back_changes_nothing() {
    let before = picture(5, 3);
    let mut there = nothing();
    there.rotate = Some(90);
    let mut back = nothing();
    back.rotate = Some(-90);
    let after = apply(apply(before.clone(), there).unwrap(), back).unwrap();
    assert_eq!(after.to_rgba8(), before.to_rgba8());
}

#[test]
fn fits_have_names() {
    assert_eq!(read_fit(&None), Ok(Fit::ScaleDown));
    assert_eq!(read_fit(&Some("crop".to_string())), Ok(Fit::Cover));
    assert_eq!(
        read_fit(&Some("fi\"t".to_string())),
        Err(r#"Images.transform() fit "fi\"t" is not supported"#.to_string())
    );
}

#[test]
fn sizes_follow_the_fit() {
    let src = (100, 50);
    assert_eq!(target_size(Fit::Squeeze, src, Some(7), None, (1, 1)), (7, 50));
    assert_eq!(target_size(Fit::Cover, src, None, Some(7), (1, 1)), (100, 7));
    assert_eq!(target_size(Fit::ScaleDown, src, Some(200), None, (200, 100)), (100, 50));
    assert_eq!(target_size(Fit::Contain, src, Some(200), None, (200, 100)), (200, 100));
}

#[test]
fn plans_keep_resize_pad_or_cover() {
    let src = (100, 50);
    assert_eq!(plan_resize(&nothing(), src, src), Ok(Resize::Keep));
    // An edge of 0 asks for none, so not even the fit is looked at.
    assert_eq!(plan_resize(&sized(0, 0, "odd"), src, src), Ok(Resize::Keep));
    assert_eq!(
        plan_resize(&sized(10, 10, "odd"), src, src),
        Err("Images.transform() fit \"odd\" is not supported".to_string())
    );
    assert_eq!(plan_resize(&sized(100, 50, "squeeze"), src, (1, 1)), Ok(Resize::Keep));
    assert_eq!(
        plan_resize(&sized(10, 20, "squeeze"), src, (1, 1)),
        Ok(Resize::Exact { size: (10, 20) })
    );
    assert_eq!(
        plan_resize(&sized(10, 20, "pad"), src, (10, 5)),
        Ok(Resize::Padded { size: (10, 5), canvas: (10, 20) })
    );
    assert_eq!(
        plan_resize(&sized(10, 20, "cover"), src, (1, 1)),
        Ok(Resize::Covered { size: (10, 20) })
    );
    assert_eq!(
        plan_resize(&sized(12001, 20, "squeeze"), src, (1, 1)),
        Err("Images.transform() result exceeds 12000px on an edge".to_string())
    );
    assert_eq!(
        plan_resize(&sized(12000, 12000, "squeeze"), src, (1, 1)),
        Ok(Resize::Exact { size: (12000, 12000) })
    );
}

#[test]
fn resizing_gives_the_size_asked_for() {
    let after = apply(picture(100, 50), sized(10, 20, "squeeze")).unwrap();
    assert_eq!((after.width(), after.height()), (10, 20));
    let after = apply(picture(100, 50), sized(10, 20, "contain")).unwrap();
    assert_eq!((after.width(), after.height()), (10, 5));
    let mut asked = nothing();
    asked.width = Some(200);
    let after = apply(picture(100, 50), asked).unwrap();
    assert_eq!((after.width(), after.height()), (100, 50));
}

#[test]
fn padding_centres_the_picture() {
    let mut asked = sized(4, 4, "pad");
    asked.background = Some("#0f08".to_string());
    assert_eq!(
        apply(picture(8, 4), asked).unwrap_err(),
        "Images.transform() background \"#0f08\" is not a hex color"
    );
    let mut asked = sized(4, 4, "pad");
    asked.background = Some("0f0".to_string());
    let after = apply(picture(8, 4), asked).unwrap();
    assert_eq!((after.width(), after.height()), (4, 4));
    assert_eq!(pixel(&after, 0, 0), [0, 255, 0, 255]);
    assert_eq!(pixel(&after, 3, 3), [0, 255, 0, 255]);
    assert_ne!(pixel(&after, 0, 1), [0, 255, 0, 255]);
    let after = apply(picture(8, 4), sized(4, 4, "pad")).unwrap();
    assert_eq!(pixel(&after, 0, 0), [0, 0, 0, 255]);
    // Where nothing is left over, the background is not read.
    let mut asked = sized(8, 4, "pad");
    asked.background = Some("odd".to_string());
    let after = apply(picture(8, 4), asked).unwrap();
    assert_eq!(after.to_rgba8(), picture(8, 4).to_rgba8());
}

#[test]
fn crops_are_placed_by_name_or_point() {
    let mut asked = sized(2, 2, "crop");
    asked.gravity = Some(Gravity::Named("left".to_string()));
    let after = apply(picture(6, 2), asked).unwrap();
    assert_eq!((after.width(), after.height()), (2, 2));
    assert_eq!(pixel(&after, 0, 0), pixel(&picture(6, 2), 0, 0));
    let mut asked = sized(2, 2, "crop");
    asked.gravity = Some(Gravity::Named("southeast".to_string()));
    let after = apply(picture(6, 2), asked).unwrap();
    assert_eq!(pixel(&after, 1, 1), pixel(&picture(6, 2), 5, 1));
    let mut asked = sized(2, 2, "crop");
    asked.gravity = Some(Gravity::Point((0.25, 1.0)));
    let after = apply(picture(6, 2), asked).unwrap();
    assert_eq!(pixel(&after, 0, 0), pixel(&picture(6, 2), 1, 0));
    let mut asked = sized(2, 2, "crop");
    asked.gravity = Some(Gravity::Point((1.5, 0.0)));
    assert_eq!(
        apply(picture(6, 2), asked).unwrap_err(),
        "Images.transform() gravity coordinates must be in [0, 1]"
    );
    let mut asked = sized(2, 2, "crop");
    asked.gravity = Some(Gravity::Named("nowhere".to_string()));
    assert_eq!(
        apply(picture(6, 2), asked).unwrap_err(),
        "Images.transform() gravity \"nowhere\" is not supported"
    );
}

#[test]
fn the_middle_is_rounded_up_by_name_and_down_without() {
    let centre: Option<Gravity<(f64, f64)>> = Some(Gravity::Named("center".to_string()));
    assert_eq!(crop_origin((7, 4), (2, 1), &centre, None), Ok((3, 2)));
    let none: Option<Gravity<(f64, f64)>> = None;
    assert_eq!(crop_origin((7, 4), (2, 1), &none, None), Ok((2, 1)));
    assert_eq!(crop_origin((1, 1), (2, 2), &centre, None), Ok((0, 0)));
    assert_eq!(named_gravity("north"), Some((Side::Middle, Side::Start)));
    assert_eq!(named_gravity("bottom-left"), Some((Side::Start, Side::End)));
    assert_eq!(named_gravity("right"), Some((Side::End, Side::Middle)));
    assert_eq!(named_gravity("nowhere"), None);
}

#[test]
fn colours_have_three_six_or_eight_digits() {
    assert_eq!(parse_background("#fff"), Ok((255, 255, 255, 255)));
    assert_eq!(parse_background("123"), Ok((17, 34, 51, 255)));
    assert_eq!(parse_background("#0a0B0c"), Ok((10, 11, 12, 255)));
    assert_eq!(parse_background("0a0b0c80"), Ok((10, 11, 12, 128)));
    // A pair may be a plus sign and a digit.
    assert_eq!(parse_background("+a+b+c"), Ok((10, 11, 12, 255)));
    for wrong in ["", "#", "12", "1234", "12345g", "a+b+c+", "+++", "##fff"] {
        assert_eq!(
            parse_background(wrong),
            Err(format!("Images.transform() background {wrong:?} is not a hex color"))
        );
    }
}

#[test]
fn outputs_have_a_format_and_a_quality() {
    let plan = |format: Option<&str>, quality: Option<u8>| {
        plan_output(&Output {
            format: format.map(|name| name.to_string()),
            quality,
        })
    };
    assert_eq!(plan(None, None), Ok(OutputPlan::Jpeg { quality: 85 }));
    assert_eq!(plan(Some("jpg"), Some(1)), Ok(OutputPlan::Jpeg { quality: 1 }));
    assert_eq!(plan(Some("webp"), Some(100)), Ok(OutputPlan::WebP));
    assert_eq!(plan(Some("png"), None), Ok(OutputPlan::Png));
    assert_eq!(plan(Some("image/avif"), None), Ok(OutputPlan::Avif));
    let range = "Images.output() quality must be between 1 and 100";
    assert_eq!(plan(Some("png"), Some(0)), Err(range.to_string()));
    assert_eq!(plan(None, Some(101)), Err(range.to_string()));
    assert_eq!(
        plan(Some("png"), Some(50)),
        Err("Images.output() quality applies only to jpeg and webp".to_string())
    );
    assert_eq!(
        plan(Some("gif"), Some(0)),
        Err("Images.output() format \"gif\" is not supported".to_string())
    );
}

#[test]
fn written_pictures_keep_their_size() {
    let png = encode(&picture(3, 2), &output("png", None)).unwrap();
    let told = info(&png).unwrap();
    assert_eq!((told.width, told.height), (3, 2));
    let small = encode(&picture(16, 16), &output("jpeg", Some(1))).unwrap();
    let large = encode(&picture(16, 16), &output("jpeg", Some(100))).unwrap();
    assert!(small.len() < large.len());
    assert_eq!(
        encode_answer(ImageKind::WebP, None),
        Err("Images could not encode WebP".to_string())
    );
    assert_eq!(
        encode_answer(ImageKind::Avif, None),
        Err("Images could not encode AVIF".to_string())
    );
    assert_eq!(
        encode_answer(ImageKind::Png, None),
        Err("Images could not encode PNG".to_string())
    );
    assert_eq!(
        encode_answer(ImageKind::Jpeg, None),
        Err("Images could not encode JPEG".to_string())
    );
    assert_eq!(encode_answer(ImageKind::Png, Some(vec![1])), Ok(vec![1]));
}

#[test]
fn avif_is_written() {
    let avif = encode(&picture(4, 4), &output("avif", None)).unwrap();
    assert_eq!(&avif[4..8], b"ftyp");
}

#[test]
fn formats_have_media_types() {
    assert_eq!(format_name(ImageKind::Gif), "image/gif");
    assert_eq!(format_name(ImageKind::Unknown), "application/octet-stream");
    let told = describe(ImageKind::Avif, (4, 5));
    assert_eq!(told.format, "image/avif");
    assert_eq!((told.width, told.height), (4, 5));
}

#[test]
fn pictures_must_fit_in_memory() {
    assert!(can_hold(12000, 12000, 4));
    assert!(can_hold(0, u32::MAX, 16));
    assert!(!can_hold(u32::MAX, u32::MAX, 1));
    assert!(can_resize((12000, 12000), 4, (12000, 12000)));
    assert!(can_resize((u32::MAX, u32::MAX), 16, (u32::MAX, u32::MAX)));
    // The picture between has the old width, the new height and 16 bytes a pixel.
    assert!(can_resize((1, u32::MAX), 1, (1, 1)));
    assert!(!can_resize((u32::MAX, 1), 1, (1, u32::MAX)));
    assert!(can_resize((0, 1), 1, (1, u32::MAX)));
}

#[test]
fn an_idle_transform_keeps_the_picture() {
    let mut idle = nothing();
    idle.fit = Some("no such fit".to_string());
    idle.width = Some(0);
    idle.flip = Some(false);
    let after = apply(picture(5, 3), idle).unwrap();
    assert_eq!(after, picture(5, 3));
}

#[test]
fn a_padded_picture_keeps_to_the_longest_edge() {
    let wide = apply(picture(10, 10), sized(20000, 10, "pad"));
    assert_eq!(
        wide.unwrap_err(),
        "Images.transform() result exceeds 12000px on an edge"
    );
    let high = plan_resize(&sized(10, 12001, "pad"), (10, 10), (10, 10));
    assert_eq!(
        high.unwrap_err(),
        "Images.transform() result exceeds 12000px on an edge"
    );
    let within = plan_resize(&sized(12000, 10, "pad"), (10, 10), (10, 10));
    assert_eq!(
        within,
        Ok(Resize::Padded { size: (10, 10), canvas: (12000, 10) })
    );
}

#[test]
fn edges_too_long_to_resample_are_refused() {
    let long = 10_000_000;
    let strip = DynamicImage::ImageLuma8(ImageBuffer::new(long, 1));
    let error = apply(strip, sized(100, 2, "cover")).unwrap_err();
    assert_eq!(error, "Images.transform() cannot resample an edge that long");
    // An edge that shrinks to a short one can be as long as it likes.
    let strip = DynamicImage::ImageLuma8(ImageBuffer::new(2_000_000, 1));
    let short = apply(strip, sized(10, 1, "squeeze")).unwrap();
    assert_eq!((short.width(), short.height()), (10, 1));
    assert!(can_sample((SAMPLED_FROM, 1), (u32::MAX, 1)));
    assert!(can_sample((u32::MAX, 1), (SAMPLED_TO, 2)));
    assert!(can_sample((SAMPLED_TO, 1), (SAMPLED_TO, 2)));
    assert!(!can_sample((SAMPLED_FROM + 1, 1), (SAMPLED_TO + 1, 1)));
    assert!(can_sample((long, 1), (long, 1)));
    assert!(can_sample((0, long), (1, 2 * long)));
    assert!(!can_sample((long, 1), (long, 2)));
    assert!(!can_sample((1, long), (1, 2 * long)));
}

#[test]
fn a_long_strip_is_scaled_to_cover() {
    let strip = DynamicImage::ImageLuma8(ImageBuffer::from_pixel(1, 1_100_000, image::Luma([9])));
    let after = apply(strip, sized(2, 1, "cover")).unwrap();
    assert_eq!((after.width(), after.height()), (2, 1));
    assert_eq!(pixel(&after, 1, 0), [9, 9, 9, 255]);
}

#[test]
fn the_longest_edge_that_is_resampled_grows() {
    let strip = DynamicImage::ImageLuma8(ImageBuffer::from_pixel(
        SAMPLED_FROM,
        1,
        image::Luma([7]),
    ));
    let error = apply(strip.clone(), sized(2 * SAMPLED_FROM, 1, "squeeze")).unwrap_err();
    assert_eq!(error, "Images.transform() result exceeds 12000px on an edge");
    let after = apply(strip, sized(8, 3, "cover")).unwrap();
    assert_eq!((after.width(), after.height()), (8, 3));
    assert_eq!(pixel(&after, 7, 2), [7, 7, 7, 255]);
}

#[test]
fn buffers_hold_the_pixels_and_nothing_else() {
    assert!(is_exact(&picture(3, 2)));
    let buffer = ImageBuffer::from_raw(1, 1, vec![1, 2, 3, 4]).unwrap();
    let over = DynamicImage::ImageRgb8(buffer);
    assert!(!is_exact(&over));
    let mut turn = nothing();
    turn.rotate = Some(180);
    assert!(is_exact(&apply(over, turn).unwrap()));
}

#[test]
fn pictures_without_pixels_are_not_written() {
    let none = DynamicImage::ImageLuma8(ImageBuffer::new(0, 3));
    for (format, message) in [
        ("image/jpeg", "Images could not encode JPEG"),
        ("image/png", "Images could not encode PNG"),
        ("image/webp", "Images could not encode WebP"),
        ("image/avif", "Images could not encode AVIF"),
    ] {
        assert_eq!(encode(&none, &output(format, None)).unwrap_err(), message);
    }
    assert!(!encode(&picture(1, 1), &output("image/avif", None)).unwrap().is_empty());
}
