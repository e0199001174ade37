use rtlib::tile::{Tile, TileIterator};

#[test]
fn test_tile_iterator() {
    let tile = Tile::new(0, 0, 2, 2);
    let mut tile_iter = TileIterator { tile: tile, x: 0, y: 0 };
    assert_eq!(tile_iter.next(), Some((0, 0)));
    assert_eq!(tile_iter.next(), Some((1, 0)));
    assert_eq!(tile_iter.next(), Some((0, 1)));
    assert_eq!(tile_iter.next(), Some((1, 1)));
    assert_eq!(tile_iter.next(), None);

    let tile = Tile::new(0, 0, 3, 3);
    let mut pixels = tile.into_iter();
    while let Some((x, y)) = pixels.next() {
        println!("({}, {})", x, y);
    }
}

#[test]
fn tile_walk_is_row_major() {
    let tile = Tile::new(3, 5, 7, 8);
    let mut walk = tile.into_iter();
    let mut k = 0;
    while let Some((x, y)) = walk.next() {
        assert_eq!((3 + k % 4, 5 + k / 4), (x, y));
        k += 1;
    }
    assert_eq!(12, k);
    assert_eq!(None, walk.next());
    assert_eq!(None, walk.next());
}

#[test]
fn tile_measures() {
    let tile = Tile::new(2, 3, 10, 7);
    assert_eq!(8, tile.width());
    assert_eq!(4, tile.height());
    let size = tile.size();
    assert_eq!((8, 4), (size.width, size.height));
}

#[test]
fn tile_split_even() {
    let tile = Tile::new(0, 0, 4, 4);
    let tiles = tile.split(2, 2);
    assert_eq!(
        vec![
            Tile::new(0, 0, 2, 2),
            Tile::new(2, 0, 4, 2),
            Tile::new(0, 2, 2, 4),
            Tile::new(2, 2, 4, 4)
        ],
        tiles
    );
}

#[test]
fn tile_split_cuts_the_last_pieces() {
    let tile = Tile::new(1, 2, 8, 7);
    let tiles = tile.split(3, 4);
    assert_eq!(
        vec![
            Tile::new(1, 2, 4, 6),
            Tile::new(4, 2, 7, 6),
            Tile::new(7, 2, 8, 6),
            Tile::new(1, 6, 4, 7),
            Tile::new(4, 6, 7, 7),
            Tile::new(7, 6, 8, 7)
        ],
        tiles
    );
}

#[test]
fn tile_split_larger_than_tile() {
    let tile = Tile::new(5, 5, 9, 6);
    assert_eq!(vec![tile], tile.split(100, 100));
    assert_eq!(vec![tile], tile.split(usize::MAX, usize::MAX));
}

#[test]
fn tile_split_covers_every_pixel_once() {
    let tile = Tile::new(3, 1, 20, 14);
    for (xs, ys) in [(1usize, 1usize), (4, 3), (5, 5), (16, 2), (17, 13)] {
        let tiles = tile.split(xs, ys);
        let mut count = vec![0u32; 20 * 14];
        for t in tiles.iter() {
            assert!(t.x1 < t.x2 && t.y1 < t.y2);
            assert!(t.x2 - t.x1 <= xs && t.y2 - t.y1 <= ys);
            for y in t.y1..t.y2 {
                for x in t.x1..t.x2 {
                    count[y * 20 + x] += 1;
                }
            }
        }
        for y in 0..14 {
            for x in 0..20 {
                let inside = 3 <= x && x < 20 && 1 <= y && y < 14;
                assert_eq!(if inside { 1 } else { 0 }, count[y * 20 + x]);
            }
        }
    }
}
