use rtlib::rgb::{ImageSize, RGBuffer, RGB8};
use rtlib::rng::PCGRng;

#[test]
fn sampling_pixels() {
    let mut rng = PCGRng::new(0xf12456955, 0x454555);

    let color = RGB8 { red: 0, green: 0, blue: 255 };
    let pixel_size = 256;
    let width = 3;
    let height = 3;
    let res_x = width * pixel_size;
    let res_y = height * pixel_size;
    let mut col_buffer = RGBuffer::new(ImageSize::new(res_x, res_y));
    for j in 1..height {
        for i in 0..res_x {
            col_buffer.set(i, j * pixel_size, &color);
        }
    }
    for i in 1..width {
        for j in 0..res_y {
            col_buffer.set(i * pixel_size, j, &color);
        }
    }
    let samples_per_pixel = 256;
    let red = RGB8 { red: 255, green: 0, blue: 0 };
    for _s in 0..samples_per_pixel {
        for i in 0..width {
            for j in 0..height {
                let px = rng.rand_range(pixel_size as u32) as usize;
                let py = rng.rand_range(pixel_size as u32) as usize;
                col_buffer.set(i * pixel_size + px, j * pixel_size + py, &red);
            }
        }
    }
    let bytes = col_buffer.to_bytes();
    assert_eq!(res_x * res_y * 3, bytes.len());
}

#[test]
fn raster_starts_black() {
    let buffer = RGBuffer::new(ImageSize::new(4, 3));
    let black = RGB8 { red: 0, green: 0, blue: 0 };
    for y in 0..3 {
        for x in 0..4 {
            assert_eq!(Some(&black), buffer.get(x, y));
        }
    }
    assert_eq!(4, buffer.width());
    assert_eq!(3, buffer.height());
    assert_eq!(vec![0u8; 36], buffer.to_bytes());
}

#[test]
fn raster_set_then_get() {
    let mut buffer = RGBuffer::new(ImageSize::new(4, 3));
    let color = RGB8 { red: 1, green: 2, blue: 3 };
    buffer.set(2, 1, &color);
    let black = RGB8 { red: 0, green: 0, blue: 0 };
    for y in 0..3 {
        for x in 0..4 {
            let expected = if (x, y) == (2, 1) { color } else { black };
            assert_eq!(Some(&expected), buffer.get(x, y));
        }
    }
    let bytes = buffer.to_bytes();
    assert_eq!(&[1u8, 2, 3][..], &bytes[18..21]);
}

#[test]
fn raster_get_goes_by_index() {
    let mut buffer = RGBuffer::new(ImageSize::new(4, 3));
    let color = RGB8 { red: 9, green: 8, blue: 7 };
    buffer.set(1, 2, &color);
    assert_eq!(Some(&color), buffer.get(5, 1));
    assert_eq!(None, buffer.get(0, 3));
    assert_eq!(None, buffer.get(4, 2));
    assert_eq!(None, buffer.get(usize::MAX, 0));
    assert_eq!(None, buffer.get(0, usize::MAX));
    assert_eq!(None, buffer.get(usize::MAX, usize::MAX));
}

#[test]
fn raster_from_pixels() {
    let pixels: Vec<RGB8> = (0..6u8)
        .map(|i| RGB8 { red: i, green: 10 + i, blue: 20 + i })
        .collect();
    let buffer = RGBuffer::from((3, pixels.clone()));
    assert_eq!(3, buffer.width());
    assert_eq!(2, buffer.height());
    assert_eq!(Some(&pixels[4]), buffer.get(1, 1));
    assert_eq!(
        vec![0u8, 10, 20, 1, 11, 21, 2, 12, 22, 3, 13, 23, 4, 14, 24, 5, 15, 25],
        buffer.to_bytes()
    );
}

#[test]
fn raster_without_pixels() {
    let buffer = RGBuffer::new(ImageSize::new(0, 5));
    assert_eq!(None, buffer.get(0, 0));
    assert_eq!(0, buffer.to_bytes().len());
}
