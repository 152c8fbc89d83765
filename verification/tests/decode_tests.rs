use pplib::Color;
use pplib::Error;
use pplib::Ppm;

fn header_and_body(header: &str, body: &[u8]) -> Vec<u8> {
    let mut bytes = Vec::new();
    bytes.extend_from_slice(header.as_bytes());
    bytes.extend_from_slice(body);
    bytes
}

const FOUR_TRIPLES: [u8; 12] = [10, 20, 30, 40, 50, 60, 70, 80, 90, 100, 110, 120];

#[test]
fn decodes_two_by_two() {
    let bytes = header_and_body("P6\n2 2\n255\n", &FOUR_TRIPLES);
    let grid = Ppm::from_bytes(&bytes).unwrap();
    assert_eq!(grid.width(), 2);
    assert_eq!(grid.height(), 2);
    assert_eq!(grid.color_depth(), 255);
    assert_eq!(grid.pixel_at(0, 0), Some(&Color::new(10, 20, 30)));
    assert_eq!(grid.pixel_at(1, 0), Some(&Color::new(40, 50, 60)));
    assert_eq!(grid.pixel_at(0, 1), Some(&Color::new(70, 80, 90)));
    assert_eq!(grid.pixel_at(1, 1), Some(&Color::new(100, 110, 120)));
}

#[test]
fn comment_line_is_ignored() {
    let plain = header_and_body("P6\n2 2\n255\n", &FOUR_TRIPLES);
    let commented = header_and_body("P6\n#note\n2 2\n255\n", &FOUR_TRIPLES);
    let a = Ppm::from_bytes(&plain).unwrap();
    let b = Ppm::from_bytes(&commented).unwrap();
    assert_eq!(a.width(), b.width());
    assert_eq!(a.height(), b.height());
    assert_eq!(a.color_depth(), b.color_depth());
    assert_eq!(a.pixels(), b.pixels());
}

#[test]
fn comments_before_every_field() {
    let bytes = header_and_body("#a\nP6\n#b\n#c\n2 2\n#d\n255\n", &FOUR_TRIPLES);
    let grid = Ppm::from_bytes(&bytes).unwrap();
    assert_eq!(grid.width(), 2);
    assert_eq!(grid.height(), 2);
    assert_eq!(grid.color_depth(), 255);
    assert_eq!(grid.pixel_at(1, 1), Some(&Color::new(100, 110, 120)));
}

#[test]
fn rejects_ascii_variant_signature() {
    let bytes = header_and_body("P3\n2 2\n255\n", &FOUR_TRIPLES);
    assert_eq!(Ppm::from_bytes(&bytes), Err(Error::InvalidSignature));
}

#[test]
fn rejects_empty_signature_line() {
    let bytes = header_and_body("\n2 2\n255\n", &FOUR_TRIPLES);
    assert_eq!(Ppm::from_bytes(&bytes), Err(Error::InvalidSignature));
}

#[test]
fn truncated_body_leaves_black_pixels() {
    let bytes = header_and_body("P6\n2 2\n255\n", &[1, 2]);
    let grid = Ppm::from_bytes(&bytes).unwrap();
    assert_eq!(grid.pixels().len(), 4);
    for (_, _, c) in grid.iter_pixels() {
        assert_eq!(c, Color::new(0, 0, 0));
    }
}

#[test]
fn partial_body_fills_leading_pixels() {
    let bytes = header_and_body("P6\n2 2\n255\n", &[1, 2, 3, 4, 5, 6, 7]);
    let grid = Ppm::from_bytes(&bytes).unwrap();
    assert_eq!(grid.pixel_at(0, 0), Some(&Color::new(1, 2, 3)));
    assert_eq!(grid.pixel_at(1, 0), Some(&Color::new(4, 5, 6)));
    assert_eq!(grid.pixel_at(0, 1), Some(&Color::new(0, 0, 0)));
    assert_eq!(grid.pixel_at(1, 1), Some(&Color::new(0, 0, 0)));
}

#[test]
fn excess_body_bytes_are_ignored() {
    let bytes = header_and_body("P6\n1 1\n255\n", &[9, 8, 7, 1, 2, 3, 4]);
    let grid = Ppm::from_bytes(&bytes).unwrap();
    assert_eq!(grid.pixels().len(), 1);
    assert_eq!(grid.pixel_at(0, 0), Some(&Color::new(9, 8, 7)));
}

#[test]
fn zero_width_yields_empty_buffer() {
    let bytes = header_and_body("P6\n0 5\n255\n", &[1, 2, 3]);
    let grid = Ppm::from_bytes(&bytes).unwrap();
    assert_eq!(grid.width(), 0);
    assert_eq!(grid.height(), 5);
    assert_eq!(grid.pixels().len(), 0);
    assert_eq!(grid.pixel_at(0, 0), None);
}

#[test]
fn zero_height_yields_empty_buffer() {
    let bytes = header_and_body("P6\n5 0\n255\n", &[1, 2, 3]);
    let grid = Ppm::from_bytes(&bytes).unwrap();
    assert_eq!(grid.pixels().len(), 0);
    assert_eq!(grid.pixel_at(0, 0), None);
}

#[test]
fn missing_line_feed_is_eof() {
    assert_eq!(Ppm::from_bytes(b"P6"), Err(Error::UnexpectedEof));
    assert_eq!(Ppm::from_bytes(b""), Err(Error::UnexpectedEof));
    assert_eq!(Ppm::from_bytes(b"P6\n2 2"), Err(Error::UnexpectedEof));
}

#[test]
fn dimensions_without_space_is_eof() {
    assert_eq!(Ppm::from_bytes(b"P6\n22\n255\n"), Err(Error::UnexpectedEof));
}

#[test]
fn unparsable_dimension_is_invalid_format() {
    assert_eq!(Ppm::from_bytes(b"P6\nx 2\n255\n"), Err(Error::InvalidFormat));
    assert_eq!(Ppm::from_bytes(b"P6\n2 x\n255\n"), Err(Error::InvalidFormat));
    assert_eq!(Ppm::from_bytes(b"P6\n 2\n255\n"), Err(Error::InvalidFormat));
    assert_eq!(Ppm::from_bytes(b"P6\n2 \n255\n"), Err(Error::InvalidFormat));
    assert_eq!(Ppm::from_bytes(b"P6\n2 2 2\n255\n"), Err(Error::InvalidFormat));
}

#[test]
fn unparsable_color_depth_is_invalid_format() {
    assert_eq!(Ppm::from_bytes(b"P6\n2 2\nabc\n"), Err(Error::InvalidFormat));
    assert_eq!(Ppm::from_bytes(b"P6\n2 2\n\n"), Err(Error::InvalidFormat));
}

#[test]
fn missing_color_depth_line_is_invalid_format() {
    assert_eq!(Ppm::from_bytes(b"P6\n2 2\n255"), Err(Error::InvalidFormat));
}

#[test]
fn leading_zeros_parse() {
    let bytes = header_and_body("P6\n02 002\n0255\n", &FOUR_TRIPLES);
    let grid = Ppm::from_bytes(&bytes).unwrap();
    assert_eq!(grid.width(), 2);
    assert_eq!(grid.height(), 2);
    assert_eq!(grid.color_depth(), 255);
}

#[test]
fn oversized_value_is_invalid_format() {
    assert_eq!(
        Ppm::from_bytes(b"P6\n99999999999999999999999999 2\n255\n"),
        Err(Error::InvalidFormat)
    );
}

#[test]
fn error_messages_name_the_failure() {
    assert_eq!(Error::InvalidSignature.message(), "Invalid signature!");
    assert_eq!(Error::InvalidFormat.message(), "Invalid file format!");
    assert_eq!(Error::UnexpectedEof.message(), "Unexpected end of file!");
}
