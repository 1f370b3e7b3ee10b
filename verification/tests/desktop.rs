use mosaic::desktop::{crop_fits, crop_offset, desktop_bounds, global_point, MonitorRect};

#[test]
fn test_desktop_bounds_logic() {
    let (x, y, w, h) = desktop_bounds(&vec![]);
    assert!(w > 0);
    assert!(h > 0);
    println!("Desktop bounds: x={}, y={}, w={}, h={}", x, y, w, h);
}

#[test]
fn test_get_monitor_and_crop_coords_logic() {
    // One monitor at the desktop origin; the selection starts at (0, 0) and its corner is at (10, 10).
    let (min_x, min_y, _, _) = desktop_bounds(&vec![MonitorRect { x: 0, y: 0, width: 1920, height: 1080 }]);
    let (global_start_x, global_start_y) = global_point(min_x, min_y, 0, 0);
    let (crop_x, crop_y) = crop_offset(min_x, min_y, 10, 10, 0, 0);
    println!("Coords: start_x={}, start_y={}, crop_x={}, crop_y={}", global_start_x, global_start_y, crop_x, crop_y);
    assert_eq!(crop_x, 10);
    assert_eq!(crop_y, 10);
}

#[test]
fn desktop_covers_all_monitors() {
    let monitors = vec![
        MonitorRect { x: 0, y: 0, width: 1920, height: 1080 },
        MonitorRect { x: -1280, y: 200, width: 1280, height: 1024 },
        MonitorRect { x: 1920, y: -300, width: 2560, height: 1440 },
    ];
    assert_eq!(desktop_bounds(&monitors), (-1280, -300, 5760, 1524));
}

#[test]
fn default_desktop_without_monitors() {
    assert_eq!(desktop_bounds(&vec![]), (0, 0, 1920, 1080));
}

#[test]
fn crop_offsets_are_clamped_at_zero() {
    assert_eq!(crop_offset(-1280, 0, 100, 50, 0, 0), (0, 50));
    assert_eq!(crop_offset(-1280, -300, 1500, 400, 0, 0), (220, 100));
    assert_eq!(global_point(-1280, -300, 1500, 400), (220, 100));
}

#[test]
fn crop_fits_inside_screenshot() {
    assert!(crop_fits(10, 10, 90, 90, 100, 100));
    assert!(!crop_fits(10, 10, 91, 90, 100, 100));
    assert!(!crop_fits(0, 50, 10, 51, 100, 100));
}
