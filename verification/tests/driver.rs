use amogus::canvas::Canvas;
use amogus::driver::apply;
use amogus::driver::apply_with;
use amogus::driver::do_it;
use amogus::driver::do_it_with;
use amogus::driver::visit_with;
use amogus::driver::wants;
use amogus::driver::Draw;
use amogus::pattern::Part;
use amogus::pattern::Pattern;
use amogus::stamp::amogus_write_with;

fn synthetic_bytes(width: u32, height: u32) -> Vec<u8> {
    let mut bytes = Vec::new();
    for y in 0..height {
        for x in 0..width {
            bytes.push(((x * 40 + y * 3) % 256) as u8);
            bytes.push(((x * 7 + y * 29) % 256) as u8);
            bytes.push(((x * 13 + y * 17 + 5) % 256) as u8);
            bytes.push(200);
        }
    }
    bytes
}

fn gray_bytes() -> Vec<u8> {
    let mut bytes = Vec::new();
    for _ in 0..(20 * 20) {
        bytes.extend_from_slice(&[128, 128, 128, 200]);
    }
    bytes
}

fn checksum(bytes: &[u8]) -> u64 {
    let mut sum: u64 = 0;
    for (i, byte) in bytes.iter().enumerate() {
        sum = (sum + (i as u64 + 1) * (*byte as u64)) % 1_000_000_007;
    }
    sum
}

fn changed_pixels(before: &[u8], after: &[u8]) -> usize {
    assert_eq!(before.len(), after.len());
    let mut changed = 0;
    for i in 0..before.len() / 4 {
        if before[4 * i..4 * i + 4] != after[4 * i..4 * i + 4] {
            changed += 1;
        }
    }
    changed
}

fn scripted() -> Vec<Draw> {
    (0..12u32)
        .map(|k| Draw { place: (k * 37 + 11) % 97, upright: k % 3 != 0, jitter: k * 5 + 2 })
        .collect()
}

fn run_scripted(count: usize, draws: &Vec<Draw>) -> Vec<u8> {
    let source = Canvas::from_raw(9, 10, synthetic_bytes(9, 10)).unwrap();
    let mut target = source.duplicate();
    do_it_with(&source, &mut target, &Pattern::base(), count, 5, 7, draws);
    target.into_raw()
}

#[test]
fn zero_count_leaves_a_gray_image_alone() {
    let painted = apply(20, 20, gray_bytes(), 1, 0, 0, 0);
    assert_eq!(painted, gray_bytes());
    let again = apply(20, 20, gray_bytes(), 1, 0, 40, 9);
    assert_eq!(again, gray_bytes());
}

#[test]
fn zero_count_leaves_any_image_alone_whatever_is_drawn() {
    assert_eq!(run_scripted(0, &scripted()), synthetic_bytes(9, 10));
    let zeros = vec![Draw { place: 0, upright: false, jitter: 0 }; 12];
    assert_eq!(run_scripted(0, &zeros), synthetic_bytes(9, 10));
}

#[test]
fn full_count_stamps_a_gray_image_in_many_places() {
    let painted = apply(20, 20, gray_bytes(), 1, 195, 0, 0);
    let before = gray_bytes();
    let changed = changed_pixels(&before, &painted);
    assert!(changed > 16);
    for i in 0..before.len() / 4 {
        let pixel = &painted[4 * i..4 * i + 4];
        assert!(pixel == [128, 128, 128, 200] || pixel == [128, 128, 128, 255]);
    }
}

#[test]
fn full_count_with_low_draws_stamps_every_place() {
    let source = Canvas::from_raw(20, 20, gray_bytes()).unwrap();
    let mut target = source.duplicate();
    let draws = vec![Draw { place: 0, upright: true, jitter: 0 }; 195];
    do_it_with(&source, &mut target, &Pattern::base(), 195, 0, 0, &draws);
    assert_eq!(target.get_pixel(0, 0).alpha, 200);
    assert_eq!(target.get_pixel(1, 1).alpha, 255);
    assert_eq!(target.get_pixel(17, 17).alpha, 255);
    assert_eq!(target.get_pixel(18, 17).alpha, 200);
    assert_eq!(target.get_pixel(19, 19).alpha, 200);
    let painted = target.into_raw();
    assert_eq!(changed_pixels(&gray_bytes(), &painted), 303);
    assert_eq!(checksum(&painted), 199646880);
}

#[test]
fn draws_at_the_count_are_turned_down() {
    let source = Canvas::from_raw(20, 20, gray_bytes()).unwrap();
    let mut target = source.duplicate();
    let draws: Vec<Draw> = (0..195)
        .map(|k| Draw { place: if k % 2 == 0 { 194 } else { 195 }, upright: true, jitter: 0 })
        .collect();
    do_it_with(&source, &mut target, &Pattern::base(), 195, 0, 0, &draws);
    assert_eq!(changed_pixels(&gray_bytes(), &target.into_raw()), 295);
}

#[test]
fn same_draws_give_the_same_image() {
    let first = run_scripted(40, &scripted());
    let second = run_scripted(40, &scripted());
    assert_eq!(first, second);
    let mut longer = scripted();
    longer.push(Draw { place: 0, upright: true, jitter: 0 });
    assert_eq!(run_scripted(40, &longer), first);
    let mut other = scripted();
    other[0].upright = !other[0].upright;
    assert_ne!(run_scripted(40, &other), first);
    let mut unread = scripted();
    unread[1].upright = !unread[1].upright;
    unread[1].jitter = 77;
    assert_eq!(run_scripted(40, &unread), first);
}

#[test]
fn scripted_run_stamps_where_draw_and_score_agree() {
    let source = synthetic_bytes(9, 10);
    let sparse = run_scripted(40, &scripted());
    assert_eq!(changed_pixels(&source, &sparse), 45);
    assert_eq!(checksum(&sparse), 9699513);
    let dense = run_scripted(90, &scripted());
    assert_eq!(changed_pixels(&source, &dense), 47);
    assert_eq!(checksum(&dense), 9727829);
    let all = run_scripted(1000, &scripted());
    assert_eq!(changed_pixels(&source, &all), 47);
    assert_eq!(checksum(&all), 9736553);
    assert_eq!(&all[4 * (4 * 9 + 4)..4 * (4 * 9 + 4) + 4], &[110, 126, 154, 255]);
    assert_eq!(&all[4 * (3 * 9 + 2)..4 * (3 * 9 + 2) + 4], &[117, 132, 118, 255]);
    assert_eq!(&sparse[4 * (3 * 9 + 2)..4 * (3 * 9 + 2) + 4], &[98, 146, 116, 255]);
    assert_eq!(&all[0..4], &[0, 0, 5, 200]);
}

#[test]
fn places_are_visited_in_raster_order() {
    let source = Canvas::from_raw(7, 9, synthetic_bytes(7, 9)).unwrap();
    let glyph = Pattern::base();
    let skip = Draw { place: 500, upright: true, jitter: 0 };
    let take = Draw { place: 0, upright: true, jitter: 0 };
    let mut target = source.duplicate();
    do_it_with(&source, &mut target, &glyph, 63, 10, 0, &vec![skip, take, take, skip]);
    let mut right = source.duplicate();
    amogus_write_with(&source, &mut right, &glyph, 1, 0, 10, 0, true, 0);
    let mut below = source.duplicate();
    amogus_write_with(&source, &mut below, &glyph, 0, 1, 10, 0, true, 0);
    assert_eq!(right.get_pixel(2, 2).red, 127);
    assert_eq!(below.get_pixel(2, 2).red, 90);
    assert_eq!(target.get_pixel(2, 2), below.get_pixel(2, 2));
    assert_eq!(target.get_pixel(2, 1), right.get_pixel(2, 1));
    let painted = target.into_raw();
    assert_eq!(changed_pixels(&synthetic_bytes(7, 9), &painted), 23);
    assert_eq!(checksum(&painted), 5007847);
    let mut only_second = source.duplicate();
    do_it_with(&source, &mut only_second, &glyph, 63, 10, 0, &vec![skip, take, skip, skip]);
    assert_eq!(only_second.into_raw(), right.into_raw());
    let mut only_third = source.duplicate();
    do_it_with(&source, &mut only_third, &glyph, 63, 10, 0, &vec![skip, skip, take, skip]);
    assert_eq!(only_third.into_raw(), below.into_raw());
}

#[test]
fn apply_with_the_same_draws_gives_the_same_bytes() {
    let first = apply_with(9, 10, synthetic_bytes(9, 10), 1, 40, 5, 7, &scripted());
    let second = apply_with(9, 10, synthetic_bytes(9, 10), 1, 40, 5, 7, &scripted());
    assert_eq!(first, second);
    assert_eq!(first, run_scripted(40, &scripted()));
    assert_eq!(checksum(&first), 9699513);
    let mut other = scripted();
    other[0].upright = !other[0].upright;
    assert_ne!(apply_with(9, 10, synthetic_bytes(9, 10), 1, 40, 5, 7, &other), first);
    let untouched = apply_with(9, 10, synthetic_bytes(9, 10), 1, 0, 5, 7, &scripted());
    assert_eq!(untouched, synthetic_bytes(9, 10));
    let large = vec![Draw { place: 0, upright: false, jitter: 0 }; 60];
    let painted = apply_with(20, 20, gray_bytes(), 2, 195, 0, 0, &large);
    assert_eq!(changed_pixels(&gray_bytes(), &painted), 243);
}

#[test]
fn zero_count_needs_no_part_of_the_glyph() {
    let source = Canvas::from_raw(9, 10, synthetic_bytes(9, 10)).unwrap();
    let bare = Pattern::new(vec![vec![Part::Rest, Part::Body]]).unwrap();
    let mut target = source.duplicate();
    do_it(&source, &mut target, &bare, 0, 5, 7);
    assert_eq!(target.into_raw(), synthetic_bytes(9, 10));
    let mut scripted_target = source.duplicate();
    let draws = vec![Draw { place: 0, upright: true, jitter: 0 }; 72];
    do_it_with(&source, &mut scripted_target, &bare, 0, 5, 7, &draws);
    assert_eq!(scripted_target.into_raw(), synthetic_bytes(9, 10));
}

#[test]
fn wants_weighs_the_draw_against_count_and_score() {
    let source = Canvas::from_raw(9, 10, synthetic_bytes(9, 10)).unwrap();
    let glyph = Pattern::base();
    assert!(wants(&source, &glyph, 0, 0, 40, 11));
    assert!(!wants(&source, &glyph, 0, 1, 40, 48));
    assert!(wants(&source, &glyph, 0, 1, 90, 48));
    assert!(!wants(&source, &glyph, 0, 2, 90, 85));
    assert!(!wants(&source, &glyph, 2, 1, 90, 76));
    assert!(wants(&source, &glyph, 0, 0, 40, 90 + 11));
    assert!(!wants(&source, &glyph, 0, 0, 0, 0));
}

#[test]
fn visit_with_stamps_only_an_accepted_place() {
    let source = Canvas::from_raw(9, 10, synthetic_bytes(9, 10)).unwrap();
    let mut target = source.duplicate();
    let glyph = Pattern::base();
    visit_with(&source, &mut target, &glyph, 0, 1, 40, 5, 7, Draw { place: 48, upright: true, jitter: 1 });
    assert_eq!(target.duplicate().into_raw(), synthetic_bytes(9, 10));
    visit_with(&source, &mut target, &glyph, 0, 1, 90, 5, 7, Draw { place: 48, upright: true, jitter: 1 });
    assert_eq!(changed_pixels(&synthetic_bytes(9, 10), &target.into_raw()), 16);
}

#[test]
fn a_glyph_as_large_as_the_image_has_no_place() {
    let source = Canvas::from_raw(5, 7, synthetic_bytes(5, 7)).unwrap();
    let mut target = source.duplicate();
    do_it(&source, &mut target, &Pattern::base(), 1000, 3, 3);
    assert_eq!(target.into_raw(), synthetic_bytes(5, 7));
    let narrow = Canvas::from_raw(5, 30, synthetic_bytes(5, 30)).unwrap();
    let mut same = narrow.duplicate();
    do_it(&narrow, &mut same, &Pattern::base(), 1000, 3, 3);
    assert_eq!(same.into_raw(), synthetic_bytes(5, 30));
    assert_eq!(apply(6, 8, synthetic_bytes(6, 8), 2, 1000, 3, 3), synthetic_bytes(6, 8));
}

#[test]
fn do_it_paints_only_opaque_pixels_over_a_copy() {
    let source = Canvas::from_raw(9, 10, synthetic_bytes(9, 10)).unwrap();
    let mut target = source.duplicate();
    do_it(&source, &mut target, &Pattern::base(), 1000, 5, 7);
    assert_eq!(source.duplicate().into_raw(), synthetic_bytes(9, 10));
    let before = synthetic_bytes(9, 10);
    let after = target.into_raw();
    assert!(changed_pixels(&before, &after) >= 16);
    assert_eq!(&after[0..4], &before[0..4]);
    for i in 0..before.len() / 4 {
        if before[4 * i..4 * i + 4] != after[4 * i..4 * i + 4] {
            assert_eq!(after[4 * i + 3], 255);
        }
    }
}

#[test]
fn apply_enlarges_the_glyph_by_size() {
    let source = Canvas::from_raw(20, 20, gray_bytes()).unwrap();
    let mut target = source.duplicate();
    let draws = vec![Draw { place: 0, upright: false, jitter: 0 }; 60];
    do_it_with(&source, &mut target, &Pattern::base().mul(2), 195, 0, 0, &draws);
    assert_eq!(changed_pixels(&gray_bytes(), &target.into_raw()), 243);
    let painted = apply(20, 20, gray_bytes(), 2, 100000, 0, 0);
    let changed = changed_pixels(&gray_bytes(), &painted);
    assert!(changed >= 150 && changed < 400);
    assert_eq!(&painted[0..4], &[128, 128, 128, 200]);
}

#[test]
fn apply_keeps_bytes_beyond_the_pixels() {
    let mut bytes = gray_bytes();
    bytes.extend_from_slice(&[1, 2, 3]);
    let painted = apply(20, 20, bytes, 1, 400, 0, 0);
    assert_eq!(painted.len(), 1603);
    assert_eq!(&painted[1600..], &[1, 2, 3]);
}
