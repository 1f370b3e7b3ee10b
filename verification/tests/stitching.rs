use mosaic::image::Image;
use mosaic::overlap::{find_overlap, find_overlap_horizontal};
use mosaic::stitch::{stitch_frames, stitch_frames_horizontal};

fn gradient(width: u32, height: u32) -> Image {
    let mut img = Image::new(width, height);
    for y in 0..height {
        for x in 0..width {
            img.put_pixel(x, y, [x as u8, y as u8, 0, 255]);
        }
    }
    img
}

/// Second frame whose top 40 rows repeat the bottom 40 rows of `img1`.
fn scrolled_down(img1: &Image) -> Image {
    let mut img2 = Image::new(100, 100);
    for x in 0..100 {
        for y in 0..40 {
            img2.put_pixel(x, y, img1.get_pixel(x, 60 + y));
        }
        for y in 40..100 {
            img2.put_pixel(x, y, [x as u8, y as u8 + 100, 50, 255]);
        }
    }
    img2
}

/// Second frame whose left 40 columns repeat the right 40 columns of `img1`.
fn scrolled_right(img1: &Image) -> Image {
    let mut img2 = Image::new(100, 100);
    for y in 0..100 {
        for x in 0..40 {
            img2.put_pixel(x, y, img1.get_pixel(60 + x, y));
        }
        for x in 40..100 {
            img2.put_pixel(x, y, [x as u8 + 100, y as u8, 50, 255]);
        }
    }
    img2
}

#[test]
fn test_find_overlap_perfect() {
    let img1 = gradient(100, 100);
    let img2 = scrolled_down(&img1);
    let overlap = find_overlap(&img1, &img2);
    assert_eq!(overlap, 40);
}

#[test]
fn test_find_overlap_none() {
    let mut img1 = Image::new(100, 100);
    let mut img2 = Image::new(100, 100);
    for y in 0..100 {
        for x in 0..100 {
            img1.put_pixel(x, y, [255, 0, 0, 255]);
            img2.put_pixel(x, y, [0, 255, 0, 255]);
        }
    }
    let overlap = find_overlap(&img1, &img2);
    assert_eq!(overlap, 0);
}

#[test]
fn test_stitch_frames() {
    let img1 = gradient(100, 100);
    let img2 = scrolled_down(&img1);
    let stitched = stitch_frames(vec![img1, img2]);
    // Height should be 100 + (100 - 40) = 160
    assert_eq!(stitched.width(), 100);
    assert_eq!(stitched.height(), 160);
}

#[test]
fn test_find_overlap_horizontal_perfect() {
    let img1 = gradient(100, 100);
    let img2 = scrolled_right(&img1);
    let overlap = find_overlap_horizontal(&img1, &img2);
    assert_eq!(overlap, 40);
}

#[test]
fn test_stitch_frames_horizontal() {
    let img1 = gradient(100, 100);
    let img2 = scrolled_right(&img1);
    let stitched = stitch_frames_horizontal(vec![img1, img2]);
    // Width should be 100 + (100 - 40) = 160
    assert_eq!(stitched.width(), 160);
    assert_eq!(stitched.height(), 100);
}

#[test]
fn identical_frames_overlap_completely() {
    let img = gradient(100, 100);
    assert_eq!(find_overlap(&img, &img.clone()), 100);
    assert_eq!(find_overlap_horizontal(&img, &img.clone()), 100);
}

#[test]
fn stitching_identical_frames_gives_the_frame() {
    let img = gradient(100, 100);
    let stitched = stitch_frames(vec![img.clone(), img.clone()]);
    assert_eq!(stitched.dimensions(), (100, 100));
    assert_eq!(stitched.as_raw(), img.as_raw());
    let stitched = stitch_frames_horizontal(vec![img.clone(), img.clone()]);
    assert_eq!(stitched.dimensions(), (100, 100));
    assert_eq!(stitched.as_raw(), img.as_raw());
}

#[test]
fn stitched_rows_come_from_the_right_frames() {
    let img1 = gradient(100, 100);
    let img2 = scrolled_down(&img1);
    let stitched = stitch_frames(vec![img1.clone(), img2.clone()]);
    for x in 0..100 {
        for y in 0..100 {
            assert_eq!(stitched.get_pixel(x, y), img1.get_pixel(x, y));
        }
        for y in 100..160 {
            assert_eq!(stitched.get_pixel(x, y), img2.get_pixel(x, y - 60));
        }
    }
}

#[test]
fn stitched_columns_come_from_the_right_frames() {
    let img1 = gradient(100, 100);
    let img2 = scrolled_right(&img1);
    let stitched = stitch_frames_horizontal(vec![img1.clone(), img2.clone()]);
    for y in 0..100 {
        for x in 0..100 {
            assert_eq!(stitched.get_pixel(x, y), img1.get_pixel(x, y));
        }
        for x in 100..160 {
            assert_eq!(stitched.get_pixel(x, y), img2.get_pixel(x - 60, y));
        }
    }
}

#[test]
fn stitching_no_frames_or_one_frame() {
    let empty = stitch_frames(vec![]);
    assert_eq!(empty.dimensions(), (0, 0));
    let img = gradient(30, 20);
    let one = stitch_frames(vec![img.clone()]);
    assert_eq!(one.as_raw(), img.as_raw());
    assert_eq!(one.dimensions(), (30, 20));
}

#[test]
fn unrelated_frame_is_appended_whole() {
    // No overlap: the second frame adds all of its 100 rows.
    let mut img1 = Image::new(100, 100);
    let mut img2 = Image::new(100, 100);
    for y in 0..100 {
        for x in 0..100 {
            img1.put_pixel(x, y, [255, 0, 0, 255]);
            img2.put_pixel(x, y, [0, 255, 0, 255]);
        }
    }
    let stitched = stitch_frames(vec![img1, img2]);
    assert_eq!(stitched.dimensions(), (100, 200));
    assert_eq!(stitched.get_pixel(5, 150), [0, 255, 0, 255]);
    assert_eq!(stitched.get_pixel(5, 50), [255, 0, 0, 255]);
}

#[test]
fn crop_copies_the_clamped_region() {
    let img = gradient(10, 8);
    let c = img.crop_imm(3, 2, 4, 100);
    assert_eq!(c.dimensions(), (4, 6));
    assert_eq!(c.get_pixel(0, 0), [3, 2, 0, 255]);
    assert_eq!(c.get_pixel(3, 5), [6, 7, 0, 255]);
    let outside = img.crop_imm(20, 20, 5, 5);
    assert_eq!(outside.dimensions(), (0, 0));
}

#[test]
fn replace_pastes_and_clips() {
    let mut base = Image::new(5, 5);
    let top = gradient(3, 3);
    base.replace(&top, 3, -1);
    assert_eq!(base.get_pixel(3, 0), [0, 1, 0, 255]);
    assert_eq!(base.get_pixel(4, 1), [1, 2, 0, 255]);
    assert_eq!(base.get_pixel(2, 0), [0, 0, 0, 0]);
    assert_eq!(base.get_pixel(3, 2), [0, 0, 0, 0]);
}

#[test]
fn from_raw_needs_an_exact_buffer() {
    assert!(Image::from_raw(2, 2, vec![0u8; 16]).is_some());
    assert!(Image::from_raw(2, 2, vec![0u8; 15]).is_none());
    assert!(Image::from_raw(2, 2, vec![0u8; 17]).is_none());
    let img = Image::from_raw(1, 1, vec![1, 2, 3, 4]).unwrap();
    assert_eq!(img.get_pixel(0, 0), [1, 2, 3, 4]);
    assert_eq!(img.into_raw(), vec![1, 2, 3, 4]);
}

fn transposed(img: &Image) -> Image {
    let (w, h) = img.dimensions();
    let mut t = Image::new(h, w);
    for y in 0..h {
        for x in 0..w {
            t.put_pixel(y, x, img.get_pixel(x, y));
        }
    }
    t
}

#[test]
fn horizontal_overlap_is_vertical_overlap_of_transposes() {
    let img1 = gradient(100, 80);
    let mut img2 = Image::new(100, 80);
    for y in 0..80 {
        for x in 0..30 {
            img2.put_pixel(x, y, img1.get_pixel(70 + x, y));
        }
        for x in 30..100 {
            img2.put_pixel(x, y, [x as u8 + 100, y as u8, 50, 255]);
        }
    }
    let h = find_overlap_horizontal(&img1, &img2);
    let v = find_overlap(&transposed(&img1), &transposed(&img2));
    assert_eq!(h, 30);
    assert_eq!(h, v);
}

#[test]
fn horizontal_stitch_is_transposed_vertical_stitch() {
    let img1 = gradient(100, 100);
    let img2 = scrolled_right(&img1);
    let horizontal = stitch_frames_horizontal(vec![img1.clone(), img2.clone()]);
    let vertical = stitch_frames(vec![transposed(&img1), transposed(&img2)]);
    let back = transposed(&vertical);
    assert_eq!(horizontal.dimensions(), (160, 100));
    assert_eq!(horizontal.dimensions(), back.dimensions());
    assert_eq!(horizontal.as_raw(), back.as_raw());
}

#[test]
fn many_identical_frames_stitch_to_the_frame() {
    let img = gradient(60, 50);
    let stitched = stitch_frames(vec![img.clone(), img.clone(), img.clone(), img.clone()]);
    assert_eq!(stitched.dimensions(), (60, 50));
    assert_eq!(stitched.as_raw(), img.as_raw());
    let stitched = stitch_frames_horizontal(vec![img.clone(), img.clone(), img.clone()]);
    assert_eq!(stitched.dimensions(), (60, 50));
    assert_eq!(stitched.as_raw(), img.as_raw());
}
