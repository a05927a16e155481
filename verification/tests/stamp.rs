use amogus::canvas::Canvas;
use amogus::color::Color;
use amogus::color::Palette;
use amogus::pattern::Part;
use amogus::pattern::Pattern;
use amogus::stamp::amogus_write;
use amogus::stamp::amogus_write_with;
use amogus::stamp::mean_colors;

fn synthetic_bytes(width: u32, height: u32) -> Vec<u8> {
    let mut bytes = Vec::new();
    for y in 0..height {
        for x in 0..width {
            bytes.push(((x * 40 + y * 3) % 256) as u8);
            bytes.push(((x * 7 + y * 29) % 256) as u8);
            bytes.push(((x * 13 + y * 17 + 5) % 256) as u8);
            bytes.push(200);
        }
    }
    bytes
}

fn synthetic(width: u32, height: u32) -> Canvas {
    Canvas::from_raw(width, height, synthetic_bytes(width, height)).unwrap()
}

fn opaque(red: u8, green: u8, blue: u8) -> Color {
    Color { red, green, blue, alpha: 255 }
}

fn stamped(contrast: i32, noise: u32, upright: bool, drawn: u32) -> Canvas {
    let source = synthetic(6, 8);
    let mut target = source.duplicate();
    amogus_write_with(&source, &mut target, &Pattern::base(), 1, 1, contrast, noise, upright, drawn);
    target
}

fn changed_pixels(before: &Canvas, after: &Canvas) -> usize {
    let mut changed = 0;
    for y in 0..before.height() {
        for x in 0..before.width() {
            if before.get_pixel(x, y) != after.get_pixel(x, y) {
                changed += 1;
            }
        }
    }
    changed
}

#[test]
fn mean_colors_average_the_source_under_each_part() {
    let source = synthetic(6, 8);
    let means = mean_colors(&source, &Pattern::base(), 1, 1);
    assert_eq!(
        means,
        Palette { rest: opaque(140, 143, 117), body: opaque(117, 132, 106), face: opaque(149, 111, 101) }
    );
    let mirrored = mean_colors(&source, &Pattern::base().rev(), 1, 1);
    assert_eq!(
        mirrored,
        Palette { rest: opaque(124, 140, 111), body: opaque(146, 137, 115), face: opaque(109, 104, 88) }
    );
}

#[test]
fn stamp_paints_the_separated_means() {
    let target = stamped(10, 0, true, 0);
    assert_eq!(target.get_pixel(2, 2), opaque(130, 133, 107));
    assert_eq!(target.get_pixel(1, 3), opaque(130, 133, 107));
    assert_eq!(target.get_pixel(3, 3), opaque(150, 153, 127));
    assert_eq!(target.get_pixel(4, 3), opaque(150, 153, 127));
    assert_eq!(target.get_pixel(1, 1), Color { red: 43, green: 36, blue: 35, alpha: 200 });
    assert_eq!(target.get_pixel(5, 3), Color { red: 209, green: 122, blue: 121, alpha: 200 });
    assert_eq!(changed_pixels(&synthetic(6, 8), &target), 16);
}

#[test]
fn stamp_keeps_means_that_are_already_apart() {
    let target = stamped(3, 0, true, 99);
    assert_eq!(target.get_pixel(2, 2), opaque(117, 132, 106));
    assert_eq!(target.get_pixel(3, 3), opaque(149, 111, 101));
    assert_eq!(target.get_pixel(4, 3), opaque(149, 111, 101));
}

#[test]
fn stamp_adds_the_jitter_to_the_contrast() {
    let target = stamped(3, 8, true, 21);
    assert_eq!(target.get_pixel(2, 2), opaque(132, 135, 109));
    assert_eq!(target.get_pixel(3, 3), opaque(148, 151, 125));
    let same = stamped(3, 8, true, 29);
    assert_eq!(same.into_raw(), target.into_raw());
}

#[test]
fn stamp_with_negative_contrast_pushes_the_other_way() {
    let target = stamped(-20, 0, true, 0);
    assert_eq!(target.get_pixel(2, 2), opaque(160, 163, 137));
    assert_eq!(target.get_pixel(3, 3), opaque(120, 123, 97));
}

#[test]
fn stamp_mirrored_faces_the_other_way() {
    let target = stamped(10, 0, false, 0);
    assert_eq!(target.get_pixel(2, 2), opaque(114, 130, 101));
    assert_eq!(target.get_pixel(3, 3), opaque(134, 150, 121));
    assert_eq!(target.get_pixel(4, 3), opaque(114, 130, 101));
    assert_eq!(target.get_pixel(5, 3), opaque(114, 130, 101));
    assert_eq!(target.get_pixel(1, 3), Color { red: 49, green: 94, blue: 69, alpha: 200 });
    assert_eq!(changed_pixels(&synthetic(6, 8), &target), 16);
}

#[test]
fn stamp_never_writes_under_rest_cells() {
    let source = synthetic(6, 8);
    for upright in [true, false] {
        let target = stamped(10, 5, upright, 3);
        let glyph = if upright { Pattern::base() } else { Pattern::base().rev() };
        for y in 0..8u32 {
            for x in 0..6u32 {
                let inside = x >= 1 && y >= 1;
                let painted = inside && glyph.part(x as usize - 1, y as usize - 1) != Part::Rest;
                if !painted {
                    assert_eq!(target.get_pixel(x, y), source.get_pixel(x, y));
                }
            }
        }
    }
}

#[test]
fn stamp_paints_equal_labels_in_one_color() {
    for upright in [true, false] {
        let target = stamped(7, 9, upright, 1234567);
        let glyph = if upright { Pattern::base() } else { Pattern::base().rev() };
        let mut body: Option<Color> = None;
        let mut face: Option<Color> = None;
        for dy in 0..7usize {
            for dx in 0..5usize {
                let pixel = target.get_pixel(1 + dx as u32, 1 + dy as u32);
                let seen = match glyph.part(dx, dy) {
                    Part::Rest => continue,
                    Part::Body => &mut body,
                    Part::Face => &mut face,
                };
                assert_eq!(pixel.alpha, 255);
                match seen {
                    Some(color) => assert_eq!(*color, pixel),
                    None => *seen = Some(pixel),
                }
            }
        }
        assert!(body.is_some() && face.is_some());
        assert_ne!(body, face);
    }
}

#[test]
fn stamp_on_one_color_pushes_body_down_and_face_up() {
    let mut bytes = Vec::new();
    for _ in 0..(6 * 8) {
        bytes.extend_from_slice(&[100, 100, 100, 200]);
    }
    let source = Canvas::from_raw(6, 8, bytes).unwrap();
    let mut target = source.duplicate();
    amogus_write_with(&source, &mut target, &Pattern::base(), 1, 1, 1, 0, true, 0);
    assert_eq!(target.get_pixel(2, 2), opaque(99, 99, 99));
    assert_eq!(target.get_pixel(1, 3), opaque(99, 99, 99));
    assert_eq!(target.get_pixel(3, 3), opaque(101, 101, 101));
    assert_eq!(target.get_pixel(4, 3), opaque(101, 101, 101));
    assert_eq!(target.get_pixel(1, 1), Color { red: 100, green: 100, blue: 100, alpha: 200 });
    let mut unmoved = source.duplicate();
    amogus_write_with(&source, &mut unmoved, &Pattern::base(), 1, 1, 0, 0, true, 0);
    assert_eq!(unmoved.get_pixel(2, 2), opaque(100, 100, 100));
    assert_eq!(unmoved.get_pixel(3, 3), opaque(100, 100, 100));
}

#[test]
fn stamp_reads_the_source_and_not_the_target() {
    let source = synthetic(6, 8);
    let mut target = Canvas::from_raw(6, 8, vec![9; 6 * 8 * 4]).unwrap();
    amogus_write_with(&source, &mut target, &Pattern::base(), 1, 1, 10, 0, true, 0);
    assert_eq!(target.get_pixel(2, 2), opaque(130, 133, 107));
    assert_eq!(target.get_pixel(1, 1), Color { red: 9, green: 9, blue: 9, alpha: 9 });
    assert_eq!(source.into_raw(), synthetic_bytes(6, 8));
}

#[test]
fn amogus_write_is_one_of_the_two_facings() {
    let source = synthetic(6, 8);
    let upright = stamped(10, 0, true, 0).into_raw();
    let mirrored = stamped(10, 0, false, 0).into_raw();
    let mut seen_upright = false;
    let mut seen_mirrored = false;
    for _ in 0..200 {
        let mut target = source.duplicate();
        amogus_write(&source, &mut target, &Pattern::base(), 1, 1, 10, 0);
        let bytes = target.into_raw();
        assert!(bytes == upright || bytes == mirrored);
        seen_upright = seen_upright || bytes == upright;
        seen_mirrored = seen_mirrored || bytes == mirrored;
    }
    assert!(seen_upright && seen_mirrored);
}

#[test]
fn amogus_write_draws_its_jitter_below_noise() {
    let source = synthetic(6, 8);
    let mut outcomes = Vec::new();
    for upright in [true, false] {
        for drawn in 0..4 {
            outcomes.push(stamped(10, 4, upright, drawn).into_raw());
        }
    }
    for _ in 0..50 {
        let mut target = source.duplicate();
        amogus_write(&source, &mut target, &Pattern::base(), 1, 1, 10, 4);
        let bytes = target.into_raw();
        assert!(outcomes.contains(&bytes));
    }
}
