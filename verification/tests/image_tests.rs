use rabbitink::image::{
    bytes_equal, minimum_pitch, ConstImage, HasImageHeader, Image, ImageBuffer, ImageFormat,
    Point, Size,
};

#[test]
fn test_1bpp() {
    let mut buf = ImageBuffer::new(ImageFormat::Mono1Bpp, 100, 100, None);
    // Mark the byte where the sub-image must start: row 2, byte offset 1.
    buf.set_byte(13 * 2 + 1, 0xab);
    let view = buf.view_img();
    assert_eq!(view.header().width(), 100);
    assert_eq!(view.header().height(), 100);
    assert_eq!(view.header().pitch(), 13);

    let sub0 = view.subimg(Point::new(8, 2), Size::new(64, 10));
    assert_eq!(sub0.header().width(), 64);
    assert_eq!(sub0.header().height(), 10);
    assert_eq!(sub0.header().pitch(), 13);
    assert_eq!(sub0.data()[0], 0xab);
}

#[test]
fn test_minimum_pitch() {
    assert_eq!(minimum_pitch(1, 100), 13);
    assert_eq!(minimum_pitch(1, 400), 50);
    assert_eq!(minimum_pitch(8, 400), 400);
    assert_eq!(minimum_pitch(32, 3), 12);
    assert_eq!(minimum_pitch(16, 2), 4);
}

#[test]
fn test_fill_and_rows() {
    let mut buf = ImageBuffer::new(ImageFormat::Mono8Bpp, 5, 3, Some(8));
    buf.fill(0x7f);
    assert_eq!(buf.data().len(), 24);
    assert!(buf.data().iter().all(|b| *b == 0x7f));
    let v = buf.view_img();
    let row = v.row(1);
    assert_eq!(row.len(), 5);
    let padded = v.row_padded(1);
    assert_eq!(padded.len(), 8);
}

#[test]
fn test_copy_from_live_rows_only() {
    let mut dst = ImageBuffer::new(ImageFormat::Mono8Bpp, 4, 2, Some(6));
    dst.fill(0xee);
    let mut src = ImageBuffer::new(ImageFormat::Mono8Bpp, 4, 2, Some(4));
    for i in 0..8usize {
        src.set_byte(i, i as u8);
    }
    let sv = src.view_img();
    dst.copy_from(&sv);
    // Live bytes copied, padding untouched.
    assert_eq!(&dst.data()[0..4], &[0, 1, 2, 3]);
    assert_eq!(&dst.data()[4..6], &[0xee, 0xee]);
    assert_eq!(&dst.data()[6..10], &[4, 5, 6, 7]);
}

#[test]
fn test_bytes_equal() {
    assert!(bytes_equal(&[1, 2, 3], &[1, 2, 3]));
    assert!(!bytes_equal(&[1, 2, 3], &[1, 2, 4]));
    assert!(!bytes_equal(&[1, 2], &[1, 2, 3]));
}
