use pplib::Color;
use pplib::Ppm;

#[test]
fn encodes_fresh_one_by_one_grid() {
    let grid = Ppm::new(1, 1);
    let bytes = grid.to_bytes();
    let mut expected = b"P6\n1 1\n255\n".to_vec();
    expected.extend_from_slice(&[0, 0, 0]);
    assert_eq!(bytes, expected);
}

#[test]
fn encodes_pixels_in_row_major_order() {
    let mut grid = Ppm::new(2, 2);
    grid.set_pixel(0, 0, Color::new(1, 2, 3)).unwrap();
    grid.set_pixel(1, 0, Color::new(4, 5, 6)).unwrap();
    grid.set_pixel(0, 1, Color::new(7, 8, 9)).unwrap();
    grid.set_pixel(1, 1, Color::new(10, 11, 12)).unwrap();
    let bytes = grid.to_bytes();
    let mut expected = b"P6\n2 2\n255\n".to_vec();
    expected.extend_from_slice(&[1, 2, 3, 4, 5, 6, 7, 8, 9, 10, 11, 12]);
    assert_eq!(bytes, expected);
}

#[test]
fn encode_round_trips_through_decode() {
    let mut original = b"P6\n3 2\n100\n".to_vec();
    original.extend_from_slice(&[
        1, 2, 3, 4, 5, 6, 7, 8, 9, 10, 11, 12, 13, 14, 15, 16, 17, 18,
    ]);
    let grid = Ppm::from_bytes(&original).unwrap();
    assert_eq!(grid.color_depth(), 100);
    assert_eq!(grid.to_bytes(), original);
}

#[test]
fn decode_round_trips_through_encode() {
    let mut grid = Ppm::new(2, 3);
    grid.set_color_depth(31);
    grid.set_pixel(1, 2, Color::new(200, 100, 50)).unwrap();
    let decoded = Ppm::from_bytes(&grid.to_bytes()).unwrap();
    assert_eq!(decoded.width(), grid.width());
    assert_eq!(decoded.height(), grid.height());
    assert_eq!(decoded.color_depth(), grid.color_depth());
    assert_eq!(decoded.pixels(), grid.pixels());
}

#[test]
fn commented_file_re_encodes_without_comments() {
    let mut commented = b"P6\n#generated\n1 2\n255\n".to_vec();
    commented.extend_from_slice(&[1, 2, 3, 4, 5, 6]);
    let grid = Ppm::from_bytes(&commented).unwrap();
    let mut expected = b"P6\n1 2\n255\n".to_vec();
    expected.extend_from_slice(&[1, 2, 3, 4, 5, 6]);
    assert_eq!(grid.to_bytes(), expected);
}

#[test]
fn encodes_empty_grid() {
    let grid = Ppm::new(0, 4);
    assert_eq!(grid.to_bytes(), b"P6\n0 4\n255\n".to_vec());
}
