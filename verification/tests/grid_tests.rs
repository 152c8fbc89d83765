use pplib::Color;
use pplib::Error;
use pplib::Ppm;

#[test]
fn new_grid_is_black() {
    let grid = Ppm::new(3, 2);
    assert_eq!(grid.width(), 3);
    assert_eq!(grid.height(), 2);
    assert_eq!(grid.color_depth(), 255);
    assert_eq!(grid.pixels().len(), 6);
    for c in grid.pixels() {
        assert_eq!(*c, Color::new(0, 0, 0));
    }
}

#[test]
fn color_accessors_and_conversions() {
    let c = Color::new(1, 2, 3);
    assert_eq!(c.red(), 1);
    assert_eq!(c.green(), 2);
    assert_eq!(c.blue(), 3);
    let t: (u8, u8, u8) = c.into();
    assert_eq!(t, (1, 2, 3));
    let back: Color = (1, 2, 3).into();
    assert_eq!(back, c);
}

#[test]
fn pixel_at_is_absent_outside_dimensions() {
    let grid = Ppm::new(2, 2);
    assert_eq!(grid.pixel_at(2, 0), None);
    assert_eq!(grid.pixel_at(0, 2), None);
    assert_eq!(grid.pixel_at(2, 2), None);
    assert_eq!(grid.pixel_at(usize::MAX, usize::MAX), None);
    assert!(grid.pixel_at(1, 1).is_some());
}

#[test]
fn set_pixel_writes_in_bounds() {
    let mut grid = Ppm::new(2, 2);
    assert_eq!(grid.set_pixel(1, 0, Color::new(5, 6, 7)), Ok(()));
    assert_eq!(grid.pixel_at(1, 0), Some(&Color::new(5, 6, 7)));
    assert_eq!(grid.pixel_at(0, 0), Some(&Color::new(0, 0, 0)));
}

#[test]
fn set_pixel_rejects_out_of_bounds() {
    let mut grid = Ppm::new(2, 2);
    assert_eq!(
        grid.set_pixel(2, 0, Color::new(5, 6, 7)),
        Err(Error::OutOfBounds)
    );
    assert_eq!(
        grid.set_pixel(0, 2, Color::new(5, 6, 7)),
        Err(Error::OutOfBounds)
    );
    for c in grid.pixels() {
        assert_eq!(*c, Color::new(0, 0, 0));
    }
    assert_eq!(Error::OutOfBounds.message(), "Pixel position is out of bounds!");
}

#[test]
fn set_pixels_replaces_matching_buffer() {
    let mut grid = Ppm::new(2, 1);
    let buffer = [Color::new(1, 1, 1), Color::new(2, 2, 2)];
    assert_eq!(grid.set_pixels(&buffer), Ok(()));
    assert_eq!(grid.pixel_at(0, 0), Some(&Color::new(1, 1, 1)));
    assert_eq!(grid.pixel_at(1, 0), Some(&Color::new(2, 2, 2)));
}

#[test]
fn set_pixels_rejects_mismatched_length() {
    let mut grid = Ppm::new(2, 1);
    let buffer = [Color::new(1, 1, 1)];
    assert_eq!(grid.set_pixels(&buffer), Err(Error::OutOfBounds));
    assert_eq!(grid.pixel_at(0, 0), Some(&Color::new(0, 0, 0)));
}

#[test]
fn iter_pixels_is_row_major() {
    let mut bytes = b"P6\n2 2\n255\n".to_vec();
    bytes.extend_from_slice(&[10, 20, 30, 40, 50, 60, 70, 80, 90, 100, 110, 120]);
    let grid = Ppm::from_bytes(&bytes).unwrap();
    let listing = grid.iter_pixels();
    assert_eq!(listing.len(), 4);
    assert_eq!(listing[0], (0, 0, Color::new(10, 20, 30)));
    assert_eq!(listing[1], (1, 0, Color::new(40, 50, 60)));
    assert_eq!(listing[2], (0, 1, Color::new(70, 80, 90)));
    assert_eq!(listing[3], (1, 1, Color::new(100, 110, 120)));
}

#[test]
fn metadata_setters_overwrite() {
    let mut grid = Ppm::new(2, 2);
    grid.set_width(7);
    grid.set_height(9);
    grid.set_color_depth(15);
    assert_eq!(grid.width(), 7);
    assert_eq!(grid.height(), 9);
    assert_eq!(grid.color_depth(), 15);
    assert_eq!(grid.pixels().len(), 4);
}
