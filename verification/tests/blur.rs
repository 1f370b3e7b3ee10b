use mosaic::blur::blur_rect;
use mosaic::image::Image;

#[test]
fn blur_averages_each_block() {
    let mut img = Image::new(30, 14);
    for y in 0..14 {
        for x in 0..30 {
            img.put_pixel(x, y, [(x * 8) as u8, (y * 10) as u8, 7, 255]);
        }
    }
    let original = img.clone();
    blur_rect(&mut img, 2, 27, 1, 12);
    // First block: x 2..14, y 1..13; mean of x*8 over x = 2..13 is 60, of y*10 over 1..12 is 65.
    assert_eq!(img.get_pixel(2, 1), [60, 65, 7, 255]);
    assert_eq!(img.get_pixel(13, 12), [60, 65, 7, 255]);
    // Last block in a row is narrower: x 26..28, mean of x*8 is 212.
    assert_eq!(img.get_pixel(27, 1), [212, 65, 7, 255]);
    // Bottom row of blocks is one row high: y 13 is outside (end_y = 12) and unchanged.
    assert_eq!(img.get_pixel(5, 13), original.get_pixel(5, 13));
    // Outside the region nothing changes.
    assert_eq!(img.get_pixel(0, 0), original.get_pixel(0, 0));
    assert_eq!(img.get_pixel(29, 5), original.get_pixel(29, 5));
}

#[test]
fn blur_of_empty_region_changes_nothing() {
    let mut img = Image::new(4, 4);
    img.put_pixel(1, 1, [9, 9, 9, 9]);
    let original = img.clone();
    blur_rect(&mut img, 3, 1, 0, 3);
    assert_eq!(img.as_raw(), original.as_raw());
}

#[test]
fn blurring_twice_is_blurring_once() {
    let mut img = Image::new(25, 25);
    for y in 0..25 {
        for x in 0..25 {
            img.put_pixel(x, y, [(x * 7 + y) as u8, (x * y) as u8, (y * 3) as u8, 200]);
        }
    }
    blur_rect(&mut img, 0, 24, 0, 24);
    let once = img.clone();
    blur_rect(&mut img, 0, 24, 0, 24);
    assert_eq!(img.as_raw(), once.as_raw());
}
