use rabbitink::image::convert::repack_mono;
use rabbitink::image::{ConstImage, HasImageHeader, Image, ImageBuffer, ImageFormat, Size};
use rabbitink::imgproc::dithering::{bw_target, floyd_steinberg, grey16_target, TargetColorSpace};
use rabbitink::imgproc::mono::bayer_threshold;
use rabbitink::imgproc::rotate::rotate;
use rabbitink::imgproc::{DitheringMethod, MonoImgproc, MonoImgprocOptions, Rotation};

fn bgra_buffer(width: i32, height: i32, bytes: &[u8]) -> ImageBuffer {
    let mut buf = ImageBuffer::new(ImageFormat::BGRA, width, height, None);
    for (i, b) in bytes.iter().enumerate() {
        buf.set_byte(i, *b);
    }
    buf
}

#[test]
fn test_rotate90() {
    let input_img_data: Vec<u8> = vec![0, 1, 2, 3, 4, 5, 6, 7, 8, 9, 10, 11];
    let mut input_img = ImageBuffer::new(ImageFormat::DoubleByte, 2, 3, None);
    for (i, b) in input_img_data.iter().enumerate() {
        input_img.set_byte(i, *b);
    }

    let output_img = rotate(&input_img.view_img(), Rotation::Rotate90, Size::new(4, 3));
    assert_eq!(output_img.header().width(), 4);
    assert_eq!(output_img.header().height(), 3);
    assert_eq!(output_img.header().pitch(), 8);

    assert_eq!(
        output_img.data(),
        &[0, 0, 8, 9, 4, 5, 0, 1, 0, 0, 10, 11, 6, 7, 2, 3, 0, 0, 0, 0, 0, 0, 0, 0]
    );
}

#[test]
fn test_basic() {
    // A 32x1 BGRA strip of alternating full-bright and black pixels.
    let mut v = Vec::<u8>::new();
    for i in 0..(4 * 32) {
        v.push(if (i / 4) % 2 == 0 { 0xff } else { 0 });
    }
    let color_img = bgra_buffer(32, 1, &v);

    {
        let mut output_img = ImageBuffer::new(ImageFormat::Mono1Bpp, 32, 1, None);
        let imgproc = MonoImgproc::new(MonoImgprocOptions {
            input_size: Size::new(32, 1),
            output_size: Size::new(32, 1),
            rotation: Rotation::NoRotation,
        });
        imgproc.process(&color_img.view_img(), &mut output_img, DitheringMethod::Bayers4);
        assert_eq!(output_img.data()[0], 0b01010101);
        assert_eq!(output_img.data()[1], 0b01010101);
        assert_eq!(output_img.data()[2], 0b01010101);
        assert_eq!(output_img.data()[3], 0b01010101);
    }

    {
        let mut output_img = ImageBuffer::new(ImageFormat::Mono1Bpp, 32, 1, None);
        let imgproc = MonoImgproc::new(MonoImgprocOptions {
            input_size: Size::new(32, 1),
            output_size: Size::new(32, 1),
            rotation: Rotation::Rotate180,
        });
        imgproc.process(&color_img.view_img(), &mut output_img, DitheringMethod::Bayers4);
        assert_eq!(output_img.data()[0], 0b10101010);
        assert_eq!(output_img.data()[1], 0b10101010);
        assert_eq!(output_img.data()[2], 0b10101010);
        assert_eq!(output_img.data()[3], 0b10101010);
    }
}

#[test]
fn test_rot90() {
    // A 4x32 BGRA image whose even pixels (in raster order) are white:
    // every row is white at columns 0 and 2.
    let mut v = Vec::<u8>::new();
    for i in 0..(4 * 128) {
        v.push(if (i / 4) % 2 == 0 { 0xff } else { 0 });
    }
    let color_img = bgra_buffer(4, 32, &v);

    let mut output_img = ImageBuffer::new(ImageFormat::Mono1Bpp, 32, 4, Some(4));
    let imgproc = MonoImgproc::new(MonoImgprocOptions {
        input_size: Size::new(4, 32),
        output_size: Size::new(32, 4),
        rotation: Rotation::Rotate90,
    });
    imgproc.process(&color_img.view_img(), &mut output_img, DitheringMethod::NoDithering);

    assert_eq!(output_img.data()[0], 255);
    assert_eq!(output_img.data()[4], 0);
    assert_eq!(output_img.data()[8], 255);
    assert_eq!(output_img.data()[12], 0);
}

#[test]
fn test_rotation_involution_180() {
    let mut v = Vec::<u8>::new();
    for i in 0..(4 * 6) {
        v.push(i as u8);
    }
    let img = bgra_buffer(3, 2, &v);
    let once = rotate(&img.view_img(), Rotation::Rotate180, Size::new(3, 2));
    let twice = rotate(&once.view_img(), Rotation::Rotate180, Size::new(3, 2));
    assert_eq!(twice.data(), img.data());
}

#[test]
fn test_rotation_involution_90_270() {
    let mut v = Vec::<u8>::new();
    for i in 0..(4 * 6) {
        v.push((7 * i + 3) as u8);
    }
    let img = bgra_buffer(3, 2, &v);
    let once = rotate(&img.view_img(), Rotation::Rotate90, Size::new(2, 3));
    let back = rotate(&once.view_img(), Rotation::Rotate270, Size::new(3, 2));
    assert_eq!(back.data(), img.data());
}

#[test]
fn test_rotated_size() {
    assert_eq!(Rotation::NoRotation.rotated_size(Size::new(3, 7)), Size::new(3, 7));
    assert_eq!(Rotation::Rotate180.rotated_size(Size::new(3, 7)), Size::new(3, 7));
    assert_eq!(Rotation::Rotate90.rotated_size(Size::new(3, 7)), Size::new(7, 3));
    assert_eq!(Rotation::Rotate270.rotated_size(Size::new(3, 7)), Size::new(7, 3));
}

#[test]
fn test_repack_round_trip_1bpp() {
    // An arbitrary 1-bpp image: 12x2, pitch 2.
    let mut src = ImageBuffer::new(ImageFormat::Mono1Bpp, 12, 2, None);
    src.set_byte(0, 0b1011_0010);
    src.set_byte(1, 0b0000_1101);
    src.set_byte(2, 0b0110_1001);
    src.set_byte(3, 0b0000_0110);
    let unpacked = repack_mono(&src.view_img(), ImageFormat::Mono8Bpp, 12);
    let packed = repack_mono(&unpacked.view_img(), ImageFormat::Mono1Bpp, 2);
    assert_eq!(packed.data(), src.data());
}

#[test]
fn test_repack_round_trip_8bpp() {
    // An 8-bpp mono image whose pixels are all 0x00 or 0xFF.
    let mut src = ImageBuffer::new(ImageFormat::Mono8Bpp, 5, 2, None);
    let pix = [0xff, 0x00, 0xff, 0xff, 0x00, 0x00, 0xff, 0x00, 0x00, 0xff];
    for (i, b) in pix.iter().enumerate() {
        src.set_byte(i, *b);
    }
    let packed = repack_mono(&src.view_img(), ImageFormat::Mono1Bpp, 1);
    let unpacked = repack_mono(&packed.view_img(), ImageFormat::Mono8Bpp, 5);
    assert_eq!(unpacked.data(), src.data());
}

#[test]
fn test_find_nearest_and_residual() {
    let grey16 = TargetColorSpace::new(0x10, 16);
    assert_eq!(grey16.find_nearest_and_residual(0x57), (0x50, 0x07));
    assert_eq!(grey16.find_nearest_and_residual(0x00), (0x00, 0x00));
    assert_eq!(grey16.find_nearest_and_residual(0xff), (0xf0, 0x0f));
    let bw = TargetColorSpace::new(0xf0, 2);
    assert_eq!(bw.find_nearest_and_residual(0xef), (0x00, 0xef));
    assert_eq!(bw.find_nearest_and_residual(0xf0), (0xf0, 0x00));
    assert_eq!(bw.find_nearest_and_residual(0xff), (0xf0, 0x0f));
}

#[test]
fn test_floyd_steinberg_bw_row() {
    // One row of two mid-bright pixels against the black/white target:
    // the first quantizes to black with residual 200, whose 7/16 share
    // pushes the second over the white threshold.
    let v = vec![200, 200, 200, 0, 200, 200, 200, 0];
    let img = bgra_buffer(2, 1, &v);
    let out = floyd_steinberg(&img.view_img(), bw_target());
    assert_eq!(out.data(), &[0x00, 0xf0]);
}

#[test]
fn test_floyd_steinberg_uniform_grey16() {
    // A uniform 0x80 image maps to the exact 0x80 level with no residual,
    // so diffusion changes nothing anywhere.
    let v = vec![0x80u8; 4 * 6];
    let img = bgra_buffer(3, 2, &v);
    let out = floyd_steinberg(&img.view_img(), grey16_target());
    assert_eq!(out.data(), &[0x80; 6]);
    assert_eq!(out.header().pitch(), 3);
}

#[test]
fn test_bayer_thresholds() {
    let row0 = [0, 128, 32, 160];
    let row1 = [192, 64, 224, 96];
    let row2 = [48, 176, 16, 144];
    let row3 = [240, 112, 208, 80];
    for x in 0..4 {
        assert_eq!(bayer_threshold(DitheringMethod::Bayers4, x, 0), row0[x as usize]);
        assert_eq!(bayer_threshold(DitheringMethod::Bayers4, x, 1), row1[x as usize]);
        assert_eq!(bayer_threshold(DitheringMethod::Bayers4, x, 2), row2[x as usize]);
        assert_eq!(bayer_threshold(DitheringMethod::Bayers4, x, 3), row3[x as usize]);
        assert_eq!(bayer_threshold(DitheringMethod::NoDithering, x, 2), 128);
    }
    assert_eq!(bayer_threshold(DitheringMethod::Bayers2, 0, 0), 0);
    assert_eq!(bayer_threshold(DitheringMethod::Bayers2, 1, 0), 128);
    assert_eq!(bayer_threshold(DitheringMethod::Bayers2, 0, 1), 192);
    assert_eq!(bayer_threshold(DitheringMethod::Bayers2, 1, 1), 64);
    assert_eq!(bayer_threshold(DitheringMethod::Bayers2, 2, 2), 0);
}
