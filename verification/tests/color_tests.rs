use rtlib::color::{AccumlationBuffer, AccumlationTileBuffer, TMOType};
use rtlib::rgb::{ImageSize, RGB8};
use rtlib::tile::Tile;

#[derive(Clone, Copy, Debug, PartialEq)]
struct Weighted {
    spectrum: [f32; 3],
    weight: f32,
}

const EMPTY: Weighted = Weighted { spectrum: [0.0; 3], weight: 0.0 };

fn plus(a: Weighted, b: Weighted) -> Weighted {
    Weighted {
        spectrum: [
            a.spectrum[0] + b.spectrum[0],
            a.spectrum[1] + b.spectrum[1],
            a.spectrum[2] + b.spectrum[2],
        ],
        weight: a.weight + b.weight,
    }
}

fn one(color: [f32; 3]) -> Weighted {
    Weighted { spectrum: color, weight: 1.0 }
}

fn resolve(s: Weighted) -> [f32; 3] {
    if s.weight == 0.0 {
        [0.0; 3]
    } else {
        let inv = s.weight.recip();
        [s.spectrum[0] * inv, s.spectrum[1] * inv, s.spectrum[2] * inv]
    }
}

fn to_rgb8(s: Weighted) -> RGB8 {
    let c = resolve(s);
    let channel = |v: f32| (v.clamp(0.0, 1.0) * 255.0) as u8;
    RGB8 { red: channel(c[0]), green: channel(c[1]), blue: channel(c[2]) }
}

fn box_weight(x: f32, y: f32, radius: f32) -> f32 {
    if x.abs() > radius || y.abs() > radius {
        0.0
    } else {
        1.0
    }
}

#[test]
fn accumulation_resolves_to_the_color() {
    let c = [0.25f32, 0.5, 0.75];
    for k in [1usize, 2, 3, 8, 64] {
        let mut buffer = AccumlationBuffer::new(ImageSize::new(4, 3), EMPTY);
        for _ in 0..k {
            buffer.add(2, 1, one(c), plus);
        }
        let sample = *buffer.get(2, 1).unwrap();
        assert_eq!(k as f32, sample.weight);
        assert_eq!(c, resolve(sample));
        assert_eq!(EMPTY, *buffer.get(1, 1).unwrap());
        assert_eq!([0.0; 3], resolve(*buffer.get(0, 0).unwrap()));
    }
}

#[test]
fn accumulation_set_and_get() {
    let mut buffer = AccumlationBuffer::new(ImageSize::new(3, 2), EMPTY);
    buffer.add(1, 1, one([1.0, 1.0, 1.0]), plus);
    buffer.set(1, 1, one([0.5, 0.0, 0.0]));
    assert_eq!(one([0.5, 0.0, 0.0]), *buffer.get(1, 1).unwrap());
    assert_eq!(Some(&one([0.5, 0.0, 0.0])), buffer.get(4, 0));
    assert_eq!(None, buffer.get(0, 2));
    assert_eq!(None, buffer.get(usize::MAX, usize::MAX));
}

#[test]
fn accumulation_to_raster() {
    let mut buffer = AccumlationBuffer::new(ImageSize::new(2, 2), EMPTY);
    buffer.add(1, 0, one([1.0, 0.0, 0.0]), plus);
    buffer.add(1, 0, one([1.0, 0.0, 0.0]), plus);
    buffer.add(0, 1, one([0.0, 1.0, 2.0]), plus);
    let image = buffer.to_rgb8_buffer(to_rgb8);
    assert_eq!(2, image.width());
    assert_eq!(2, image.height());
    assert_eq!(Some(&RGB8 { red: 0, green: 0, blue: 0 }), image.get(0, 0));
    assert_eq!(Some(&RGB8 { red: 255, green: 0, blue: 0 }), image.get(1, 0));
    assert_eq!(Some(&RGB8 { red: 0, green: 255, blue: 255 }), image.get(0, 1));
    assert_eq!(Some(&RGB8 { red: 0, green: 0, blue: 0 }), image.get(1, 1));
}

fn deposit(
    buffer: &mut AccumlationTileBuffer<Weighted>,
    fx: f32,
    fy: f32,
    radius: f32,
    color: [f32; 3],
) {
    let footprint = (
        (fx - radius).floor() as i64,
        (fx + radius).ceil() as i64,
        (fy - radius).floor() as i64,
        (fy + radius).ceil() as i64,
    );
    buffer.add(
        fx as usize,
        fy as usize,
        footprint,
        one(color),
        |px: usize, py: usize| {
            let w = box_weight(fx - (px as f32 + 0.5), fy - (py as f32 + 0.5), radius);
            if w > 0.0 {
                Some(Weighted {
                    spectrum: [color[0] * w, color[1] * w, color[2] * w],
                    weight: w,
                })
            } else {
                None
            }
        },
        plus,
    );
}

fn total_weight(buffer: &AccumlationTileBuffer<Weighted>, w: usize, h: usize) -> f32 {
    let mut sum = 0.0;
    for y in 0..h {
        for x in 0..w {
            if let Some(s) = buffer.get(x, y) {
                sum += s.weight;
            }
        }
    }
    sum
}

#[test]
fn box_filter_deposits_weight_one() {
    let tile = Tile::new(0, 0, 8, 8);
    for (fx, fy) in [(3.5f32, 4.5f32), (3.25, 4.75), (0.5, 0.5), (7.9, 7.1), (2.0001, 5.9999)] {
        let mut buffer = AccumlationTileBuffer::new(tile, Some(1), 8, 8, EMPTY);
        deposit(&mut buffer, fx, fy, 0.5, [1.0, 1.0, 1.0]);
        assert_eq!(1.0, total_weight(&buffer, 8, 8));
        let cell = buffer.get(fx as usize, fy as usize).unwrap();
        assert_eq!(1.0, cell.weight);
    }
}

#[test]
fn wide_filter_is_clipped_to_the_buffer() {
    let tile = Tile::new(2, 2, 4, 4);
    let mut buffer = AccumlationTileBuffer::new(tile, Some(1), 8, 8, EMPTY);
    // the buffer covers the pixels 1..5 in both directions
    assert_eq!(None, buffer.get(0, 2));
    assert_eq!(None, buffer.get(5, 2));
    assert_eq!(Some(EMPTY), buffer.get(1, 1));
    assert_eq!(Some(EMPTY), buffer.get(4, 4));
    deposit(&mut buffer, 3.0, 3.0, 10.0, [1.0, 0.0, 0.0]);
    assert_eq!(16.0, total_weight(&buffer, 8, 8));
}

#[test]
fn tile_buffer_at_the_image_corner() {
    let tile = Tile::new(0, 0, 2, 2);
    let buffer = AccumlationTileBuffer::new(tile, Some(3), 4, 3, EMPTY);
    for y in 0..5 {
        for x in 0..6 {
            let inside = x < 4 && y < 3;
            assert_eq!(inside, buffer.get(x, y).is_some());
        }
    }
}

#[test]
fn unfiltered_tile_buffer_takes_the_sample_as_it_is() {
    let tile = Tile::new(4, 4, 6, 6);
    let mut buffer = AccumlationTileBuffer::new(tile, None, 8, 8, EMPTY);
    assert_eq!(None, buffer.get(3, 4));
    assert_eq!(None, buffer.get(6, 5));
    let c = [0.1f32, 0.2, 0.3];
    for _ in 0..3 {
        buffer.add(5, 4, (0, 0, 0, 0), one(c), |_x: usize, _y: usize| None, plus);
    }
    let cell = buffer.get(5, 4).unwrap();
    assert_eq!(3.0, cell.weight);
    assert_eq!(Some(EMPTY), buffer.get(4, 4));
    assert_eq!(3.0, total_weight(&buffer, 8, 8));
}

#[test]
fn tiles_merge_into_the_image() {
    let mut image = AccumlationBuffer::new(ImageSize::new(4, 4), EMPTY);
    let whole = Tile::new(0, 0, 4, 4);
    for tile in whole.split(2, 2) {
        let mut buffer = AccumlationTileBuffer::new(tile, Some(1), 4, 4, EMPTY);
        let mut pixels = tile.into_iter();
        while let Some((x, y)) = pixels.next() {
            deposit(&mut buffer, x as f32 + 0.5, y as f32 + 0.5, 1.0, [1.0, 0.5, 0.25]);
        }
        image.add_accumulation_tile_buffer(&buffer, plus);
    }
    // each sample reaches the 3 by 3 pixels around it, as far as they exist
    for y in 0..4usize {
        for x in 0..4usize {
            let reach = |v: usize| if v == 0 || v == 3 { 2.0f32 } else { 3.0f32 };
            let sample = image.get(x, y).unwrap();
            assert_eq!(reach(x) * reach(y), sample.weight);
            assert_eq!([1.0, 0.5, 0.25], resolve(*sample));
        }
    }
}

#[test]
fn merge_leaves_the_rest_alone() {
    let mut image = AccumlationBuffer::new(ImageSize::new(4, 4), one([1.0, 1.0, 1.0]));
    let mut buffer = AccumlationTileBuffer::new(Tile::new(2, 2, 4, 4), None, 4, 4, EMPTY);
    buffer.add(3, 2, (0, 0, 0, 0), one([0.0, 0.0, 0.0]), |_x: usize, _y: usize| None, plus);
    image.add_accumulation_tile_buffer(&buffer, plus);
    for y in 0..4 {
        for x in 0..4 {
            let expected = if (x, y) == (3, 2) { 2.0 } else { 1.0 };
            assert_eq!(expected, image.get(x, y).unwrap().weight);
        }
    }
}

#[test]
fn tone_map_operators() {
    assert_ne!(TMOType::Linear, TMOType::Gamma);
    assert_ne!(TMOType::Gamma, TMOType::Reinhard);
}
