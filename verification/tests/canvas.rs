use amogus::canvas::Canvas;
use amogus::color::Color;

fn counting(len: usize) -> Vec<u8> {
    (0..len).map(|i| (i % 251) as u8).collect()
}

#[test]
fn from_raw_needs_four_bytes_for_each_pixel() {
    assert!(Canvas::from_raw(3, 2, counting(24)).is_some());
    assert!(Canvas::from_raw(3, 2, counting(23)).is_none());
    assert!(Canvas::from_raw(3, 2, counting(30)).is_some());
    assert!(Canvas::from_raw(0, 0, Vec::new()).is_some());
    assert!(Canvas::from_raw(0, 7, Vec::new()).is_some());
    assert!(Canvas::from_raw(1, 1, Vec::new()).is_none());
    assert!(Canvas::from_raw(u32::MAX, u32::MAX, counting(16)).is_none());
}

#[test]
fn canvas_reports_its_dimensions() {
    let canvas = Canvas::from_raw(3, 2, counting(24)).unwrap();
    assert_eq!(canvas.width(), 3);
    assert_eq!(canvas.height(), 2);
}

#[test]
fn get_pixel_reads_rows_from_the_top() {
    let canvas = Canvas::from_raw(3, 2, counting(24)).unwrap();
    assert_eq!(canvas.get_pixel(0, 0), Color { red: 0, green: 1, blue: 2, alpha: 3 });
    assert_eq!(canvas.get_pixel(2, 0), Color { red: 8, green: 9, blue: 10, alpha: 11 });
    assert_eq!(canvas.get_pixel(0, 1), Color { red: 12, green: 13, blue: 14, alpha: 15 });
    assert_eq!(canvas.get_pixel(2, 1), Color { red: 20, green: 21, blue: 22, alpha: 23 });
}

#[test]
fn put_pixel_writes_the_four_bytes_of_one_pixel() {
    let mut canvas = Canvas::from_raw(3, 2, counting(26)).unwrap();
    canvas.put_pixel(1, 1, Color { red: 201, green: 202, blue: 203, alpha: 204 });
    assert_eq!(canvas.get_pixel(1, 1), Color { red: 201, green: 202, blue: 203, alpha: 204 });
    let mut expected = counting(26);
    expected[16] = 201;
    expected[17] = 202;
    expected[18] = 203;
    expected[19] = 204;
    assert_eq!(canvas.into_raw(), expected);
}

#[test]
fn into_raw_gives_back_every_byte() {
    let canvas = Canvas::from_raw(2, 2, counting(19)).unwrap();
    assert_eq!(canvas.into_raw(), counting(19));
}

#[test]
fn duplicate_is_a_canvas_of_its_own() {
    let first = Canvas::from_raw(2, 1, counting(8)).unwrap();
    let mut second = first.duplicate();
    assert_eq!(second.width(), 2);
    assert_eq!(second.height(), 1);
    second.put_pixel(0, 0, Color { red: 9, green: 9, blue: 9, alpha: 9 });
    assert_eq!(first.get_pixel(0, 0), Color { red: 0, green: 1, blue: 2, alpha: 3 });
    assert_eq!(second.get_pixel(0, 0), Color { red: 9, green: 9, blue: 9, alpha: 9 });
    assert_eq!(second.get_pixel(1, 0), first.get_pixel(1, 0));
    assert_eq!(first.into_raw(), counting(8));
}
