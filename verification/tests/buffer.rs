use rrt::buffer::{PixelBuffer, Rgb};

fn rgb(r: u8, g: u8, b: u8) -> Rgb {
    Rgb { r, g, b }
}

#[test]
fn new_buffer_is_black() {
    let pb = PixelBuffer::new(4, 3);
    assert_eq!(pb.width(), 4);
    assert_eq!(pb.height(), 3);
    for y in 0..3 {
        for x in 0..4 {
            assert_eq!(pb.get_pixel(x, y), rgb(0, 0, 0));
        }
    }
    let bytes = pb.bytes();
    assert_eq!(bytes.len(), 36);
    assert!(bytes.iter().all(|&b| b == 0));
}

#[test]
fn set_then_get_round_trip() {
    let mut pb = PixelBuffer::new(3, 2);
    pb.set_pixel(1, 0, rgb(10, 20, 30));
    pb.set_pixel(2, 1, rgb(40, 50, 60));
    assert_eq!(pb.get_pixel(1, 0), rgb(10, 20, 30));
    assert_eq!(pb.get_pixel(2, 1), rgb(40, 50, 60));
    assert_eq!(pb.get_pixel(0, 0), rgb(0, 0, 0));
}

#[test]
fn set_pixel_flips_vertically() {
    // Scan coordinates (0, 0) are the bottom-left pixel; in a 2x2 buffer the
    // bottom row is stored second, so the write lands at flat index 2.
    let mut pb = PixelBuffer::new(2, 2);
    pb.set_pixel(0, 0, rgb(1, 2, 3));
    let bytes = pb.bytes();
    assert_eq!(&bytes[6..9], &[1, 2, 3]);
    assert!(bytes[0..6].iter().all(|&b| b == 0));
    assert!(bytes[9..12].iter().all(|&b| b == 0));
}

#[test]
fn from_scan_order_flips_rows() {
    // Scan order is bottom row first: c0 c1 then c2 c3. The buffer stores
    // the top row first, so it reads c2 c3 c0 c1.
    let colors = vec![rgb(1, 1, 1), rgb(2, 2, 2), rgb(3, 3, 3), rgb(4, 4, 4)];
    let pb = PixelBuffer::from_scan_order(&colors, 2, 2);
    let bytes = pb.bytes();
    assert_eq!(
        bytes,
        vec![3, 3, 3, 4, 4, 4, 1, 1, 1, 2, 2, 2]
    );
    assert_eq!(pb.get_pixel(0, 0), rgb(1, 1, 1));
    assert_eq!(pb.get_pixel(1, 0), rgb(2, 2, 2));
    assert_eq!(pb.get_pixel(0, 1), rgb(3, 3, 3));
    assert_eq!(pb.get_pixel(1, 1), rgb(4, 4, 4));
}

#[test]
fn from_scan_order_single_row_and_column() {
    let row = vec![rgb(9, 8, 7), rgb(6, 5, 4)];
    let pb = PixelBuffer::from_scan_order(&row, 2, 1);
    assert_eq!(pb.bytes(), vec![9, 8, 7, 6, 5, 4]);

    let col = vec![rgb(9, 8, 7), rgb(6, 5, 4)];
    let pb = PixelBuffer::from_scan_order(&col, 1, 2);
    // The later scan row is the top of the picture, stored first.
    assert_eq!(pb.bytes(), vec![6, 5, 4, 9, 8, 7]);
}

#[test]
fn empty_buffer_has_no_bytes() {
    let pb = PixelBuffer::from_scan_order(&Vec::new(), 0, 0);
    assert_eq!(pb.bytes().len(), 0);
}

#[test]
fn same_scan_gives_identical_bytes() {
    // Building the buffer twice from the same immutable scan colors gives a
    // byte-identical stream.
    let colors: Vec<Rgb> = (0u16..60)
        .map(|i| rgb((i % 256) as u8, (i * 3 % 256) as u8, (i * 7 % 256) as u8))
        .collect();
    let b1 = PixelBuffer::from_scan_order(&colors, 10, 6).bytes();
    let b2 = PixelBuffer::from_scan_order(&colors, 10, 6).bytes();
    assert_eq!(b1, b2);
}
