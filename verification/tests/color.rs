use amogus::color::offset_of;
use amogus::color::se;
use amogus::color::separate;
use amogus::color::Color;
use amogus::color::Palette;
use amogus::pattern::Part;

fn rgb(red: u8, green: u8, blue: u8) -> Color {
    Color { red, green, blue, alpha: 255 }
}

#[test]
fn se_is_the_mean_gap_of_three_channels() {
    assert_eq!(se(&rgb(10, 20, 30), &rgb(10, 20, 30)), 0);
    assert_eq!(se(&rgb(10, 20, 30), &rgb(13, 17, 36)), 4);
    assert_eq!(se(&rgb(13, 17, 36), &rgb(10, 20, 30)), 4);
    assert_eq!(se(&rgb(0, 0, 0), &rgb(255, 255, 255)), 255);
    assert_eq!(se(&rgb(0, 0, 0), &rgb(1, 1, 0)), 0);
    assert_eq!(se(&rgb(0, 0, 0), &rgb(1, 1, 1)), 1);
    assert_eq!(se(&rgb(200, 0, 0), &rgb(0, 0, 0)), 66);
}

#[test]
fn se_does_not_read_alpha() {
    let a = Color { red: 1, green: 2, blue: 3, alpha: 0 };
    let b = Color { red: 1, green: 2, blue: 3, alpha: 255 };
    assert_eq!(se(&a, &b), 0);
}

#[test]
fn offset_of_adds_the_jitter_below_noise() {
    assert_eq!(offset_of(10, 0, 12345), 10);
    assert_eq!(offset_of(10, 8, 21), 15);
    assert_eq!(offset_of(-3, 1, 4000000000), -3);
    assert_eq!(offset_of(0, 7, 6), 6);
    assert_eq!(offset_of(0, 7, 7), 0);
    assert_eq!(offset_of(i32::MAX, u32::MAX, u32::MAX - 1), 2147483647 + 4294967294);
    assert_eq!(offset_of(i32::MIN, 0, 5), -2147483648);
}

#[test]
fn separate_pulls_close_colors_apart() {
    let means = Palette { rest: rgb(100, 110, 120), body: rgb(102, 108, 121), face: rgb(99, 111, 119) };
    let palette = separate(means, 12);
    assert_eq!(palette.rest, rgb(100, 110, 120));
    assert_eq!(palette.body, rgb(88, 98, 108));
    assert_eq!(palette.face, rgb(112, 122, 132));
    assert_eq!(palette.get(Part::Rest), palette.rest);
    assert_eq!(palette.get(Part::Body), palette.body);
    assert_eq!(palette.get(Part::Face), palette.face);
}

#[test]
fn separate_keeps_channels_in_range() {
    let means = Palette { rest: rgb(5, 250, 128), body: rgb(5, 250, 128), face: rgb(5, 250, 128) };
    let palette = separate(means, 20);
    assert_eq!(palette.body, rgb(0, 230, 108));
    assert_eq!(palette.face, rgb(25, 255, 148));
    let far = separate(means, 1000);
    assert_eq!(far.body, rgb(0, 0, 0));
    assert_eq!(far.face, rgb(255, 255, 255));
}

#[test]
fn separate_with_a_negative_offset_swaps_the_directions() {
    let means = Palette { rest: rgb(100, 100, 100), body: rgb(100, 100, 100), face: rgb(100, 100, 100) };
    let palette = separate(means, -30);
    assert_eq!(palette.body, rgb(130, 130, 130));
    assert_eq!(palette.face, rgb(70, 70, 70));
}

#[test]
fn separate_leaves_distant_colors_alone() {
    let means = Palette { rest: rgb(10, 10, 10), body: rgb(110, 110, 110), face: rgb(210, 210, 210) };
    assert_eq!(separate(means, 10), means);
    let touching = Palette { rest: rgb(0, 0, 0), body: rgb(9, 9, 9), face: rgb(18, 18, 18) };
    assert_eq!(separate(touching, 3), touching);
    assert_eq!(separate(touching, 0), touching);
}

#[test]
fn separate_measures_the_face_against_the_body_mean() {
    let equal = Palette { rest: rgb(100, 100, 100), body: rgb(100, 100, 100), face: rgb(100, 100, 100) };
    let palette = separate(equal, 1);
    assert_eq!(palette.rest, rgb(100, 100, 100));
    assert_eq!(palette.body, rgb(99, 99, 99));
    assert_eq!(palette.face, rgb(101, 101, 101));
    let near_mean = Palette { rest: rgb(100, 100, 100), body: rgb(101, 101, 101), face: rgb(121, 121, 121) };
    let moved = separate(near_mean, 5);
    assert_eq!(moved.body, rgb(95, 95, 95));
    assert_eq!(moved.face, rgb(105, 105, 105));
    let near_moved_body = Palette { rest: rgb(100, 100, 100), body: rgb(108, 108, 108), face: rgb(97, 97, 97) };
    let kept = separate(near_moved_body, 3);
    assert_eq!(kept.body, rgb(97, 97, 97));
    assert_eq!(kept.face, rgb(97, 97, 97));
}

#[test]
fn separate_moves_the_face_though_the_body_stays() {
    let means = Palette { rest: rgb(0, 0, 0), body: rgb(200, 200, 200), face: rgb(201, 199, 200) };
    let moved = separate(means, 4);
    assert_eq!(moved.body, rgb(200, 200, 200));
    assert_eq!(moved.face, rgb(4, 4, 4));
}

#[test]
fn separate_makes_painted_colors_opaque() {
    let means = Palette {
        rest: Color { red: 1, green: 2, blue: 3, alpha: 255 },
        body: Color { red: 1, green: 2, blue: 3, alpha: 255 },
        face: Color { red: 90, green: 90, blue: 90, alpha: 255 },
    };
    let palette = separate(means, 2);
    assert_eq!(palette.body, Color { red: 0, green: 0, blue: 1, alpha: 255 });
    assert_eq!(palette.face, Color { red: 90, green: 90, blue: 90, alpha: 255 });
}
