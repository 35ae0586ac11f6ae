use image::{DynamicImage, GenericImageView, GrayImage, Luma, Rgba, RgbaImage};
use papercut::{
    get_combined_size, join, partition, reload_tile, slice, try_get_combined_size, try_join,
    try_reload_tile, try_slice, GridLayout, Tile, TileError,
};

fn create_dummy_tile(width: u32, height: u32, number: i32) -> Tile {
    let image = DynamicImage::ImageRgba8(RgbaImage::new(width, height));
    Tile::new(image, number, (0, 0), (0, 0), None)
}

fn gradient(width: u32, height: u32) -> DynamicImage {
    DynamicImage::ImageRgba8(RgbaImage::from_fn(width, height, |x, y| {
        Rgba([x as u8, y as u8, (x + y) as u8, 255])
    }))
}

fn plain(width: u32, height: u32, shade: u8) -> DynamicImage {
    DynamicImage::ImageRgba8(RgbaImage::from_pixel(width, height, Rgba([shade, shade, shade, 255])))
}

#[test]
fn test_get_combined_size_single_tile() {
    let tiles = vec![create_dummy_tile(100, 200, 1)];
    let combined_size = get_combined_size(&tiles);
    assert_eq!(combined_size, (100, 200));
}

#[test]
fn test_get_combined_size_multiple_tiles() {
    let tiles = vec![
        create_dummy_tile(100, 200, 1),
        create_dummy_tile(100, 200, 2),
        create_dummy_tile(100, 200, 3),
        create_dummy_tile(100, 200, 4),
    ];
    let combined_size = get_combined_size(&tiles);
    assert_eq!(combined_size, (200, 400));
}

#[test]
fn test_get_combined_size_non_square_layout() {
    let tiles = vec![
        create_dummy_tile(50, 50, 1),
        create_dummy_tile(50, 50, 2),
        create_dummy_tile(50, 50, 3),
    ];
    let combined_size = get_combined_size(&tiles);
    assert_eq!(combined_size, (100, 100));
}

#[test]
fn test_get_combined_size_large_number_of_tiles() {
    let tiles = (0..16)
        .map(|i| create_dummy_tile(10, 20, i))
        .collect::<Vec<_>>();
    let combined_size = get_combined_size(&tiles);
    assert_eq!(combined_size, (40, 80));
}

#[test]
fn get_combined_size_goes_by_the_first_tile() {
    let tiles = vec![
        create_dummy_tile(7, 3, 1),
        create_dummy_tile(100, 200, 2),
        create_dummy_tile(1, 1, 3),
        create_dummy_tile(1, 1, 4),
        create_dummy_tile(1, 1, 5),
    ];
    assert_eq!(get_combined_size(&tiles), (21, 6));
}

#[test]
fn tile_accessors_name_the_cell() {
    let tile = Tile::new(plain(2, 2, 0), 7, (3, 2), (100, 50), None);
    assert_eq!(tile.column(), 3);
    assert_eq!(tile.row(), 2);
    assert_eq!(tile.number, 7);
    assert_eq!(tile.coords, (100, 50));
    assert_eq!(tile.basename(), None);
    assert_eq!(tile.generate_filename("tile", "png"), "tile_02_03.png");
    assert_eq!(tile.generate_filename("shot", "JPEG"), "shot_02_03.jpg");
    assert_eq!(tile.describe(), "<Tile #7>");
}

#[test]
fn tile_with_a_file_knows_its_names() {
    let path = "/tmp/out/tile_02_03.png".to_string();
    let tile = Tile::new(plain(2, 2, 0), 12, (2, 1), (0, 0), Some(path.clone()));
    assert_eq!(tile.basename(), Some("tile_02_03".to_string()));
    assert_eq!(tile.describe(), "<Tile #12 - tile_02_03.png>");
    let copy = tile.clone();
    assert_eq!(copy.filename, Some(path));
    assert_eq!(copy.number, 12);
    assert_eq!(copy.position, (2, 1));
    assert_eq!(copy.image, tile.image);
    let nameless = Tile::new(plain(1, 1, 0), -3, (0, 0), (0, 0), Some("..".to_string()));
    assert_eq!(nameless.describe(), "<Tile #-3 - >");
    assert_eq!(nameless.basename(), None);
}

#[test]
fn slice_two_by_two() {
    let image = gradient(100, 100);
    let tiles = slice(&image, None, Some(2), Some(2)).unwrap();
    assert_eq!(tiles.len(), 4);
    let origins: Vec<(i32, i32)> = tiles.iter().map(|t| t.coords).collect();
    assert_eq!(origins, vec![(0, 0), (50, 0), (0, 50), (50, 50)]);
    let cells: Vec<(i32, i32)> = tiles.iter().map(|t| t.position).collect();
    assert_eq!(cells, vec![(1, 1), (2, 1), (1, 2), (2, 2)]);
    let numbers: Vec<i32> = tiles.iter().map(|t| t.number).collect();
    assert_eq!(numbers, vec![1, 2, 3, 4]);
    for tile in tiles.iter() {
        assert_eq!((tile.image.width(), tile.image.height()), (50, 50));
        assert_eq!(tile.filename, None);
        let (ox, oy) = (tile.coords.0 as u32, tile.coords.1 as u32);
        for y in 0..50 {
            for x in 0..50 {
                assert_eq!(tile.image.get_pixel(x, y), image.get_pixel(ox + x, oy + y));
            }
        }
    }
}

#[test]
fn slice_names_follow_the_cells() {
    let image = gradient(30, 20);
    let tiles = slice(&image, None, Some(3), Some(2)).unwrap();
    let names: Vec<String> = tiles.iter().map(|t| t.generate_filename("p", "png")).collect();
    assert_eq!(
        names,
        vec![
            "p_01_01.png",
            "p_01_02.png",
            "p_01_03.png",
            "p_02_01.png",
            "p_02_02.png",
            "p_02_03.png"
        ]
    );
}

#[test]
fn slice_drops_what_does_not_fill_a_tile() {
    let image = gradient(101, 100);
    let tiles = slice(&image, None, Some(2), Some(1)).unwrap();
    assert_eq!(tiles.len(), 2);
    assert_eq!(tiles[0].coords, (0, 0));
    assert_eq!(tiles[1].coords, (50, 0));
    for tile in tiles.iter() {
        assert_eq!((tile.image.width(), tile.image.height()), (50, 100));
    }
    assert_eq!(tiles[1].image.get_pixel(49, 99), image.get_pixel(99, 99));
}

#[test]
fn slice_cuts_every_tile_that_fits() {
    let image = gradient(10, 3);
    let tiles = slice(&image, None, Some(4), Some(1)).unwrap();
    assert_eq!(tiles.len(), 5);
    let origins: Vec<(i32, i32)> = tiles.iter().map(|t| t.coords).collect();
    assert_eq!(origins, vec![(0, 0), (2, 0), (4, 0), (6, 0), (8, 0)]);
    assert_eq!(tiles[4].position, (5, 1));
    assert_eq!(tiles[4].number, 5);
}

#[test]
fn slice_by_tile_count_uses_the_near_square_grid() {
    let image = gradient(90, 60);
    let tiles = slice(&image, Some(5), None, None).unwrap();
    assert_eq!(tiles.len(), 6);
    assert_eq!((tiles[0].image.width(), tiles[0].image.height()), (30, 30));
    assert_eq!(tiles[5].coords, (60, 30));
    assert_eq!(tiles[5].position, (3, 2));
    let ignored = slice(&image, Some(5), Some(9), Some(9)).unwrap();
    assert_eq!(ignored.len(), 6);
}

#[test]
fn slice_keeps_the_sample_format() {
    let gray = GrayImage::from_fn(8, 8, |x, y| Luma([(8 * y + x) as u8]));
    let image = DynamicImage::ImageLuma8(gray);
    let tiles = slice(&image, Some(4), None, None).unwrap();
    assert_eq!(tiles.len(), 4);
    assert_eq!(tiles[3].image.color(), image.color());
    assert_eq!(tiles[3].image.as_bytes()[0], 36);
    assert_eq!(tiles[3].image.get_pixel(1, 2), image.get_pixel(5, 6));
}

#[test]
fn slice_refuses_bad_requests() {
    let image = gradient(100, 100);
    assert_eq!(slice(&image, None, None, None).err(), Some(TileError::InvalidInput));
    assert_eq!(slice(&image, Some(1), None, None).err(), Some(TileError::InvalidInput));
    assert_eq!(slice(&image, Some(9802), None, None).err(), Some(TileError::InvalidInput));
    assert_eq!(slice(&image, None, Some(1), Some(1)).err(), Some(TileError::InvalidInput));
    assert_eq!(slice(&image, None, Some(100), Some(1)).err(), Some(TileError::InvalidInput));
    assert_eq!(slice(&image, None, Some(2), None).err(), Some(TileError::InvalidInput));
    let tiny = gradient(1, 1);
    assert_eq!(slice(&tiny, Some(0), None, None).err(), Some(TileError::InvalidInput));
}

#[test]
fn partition_follows_the_layout() {
    let image = gradient(7, 5);
    let layout = GridLayout::for_image(7, 5, 2, 2);
    assert_eq!((layout.tile_width, layout.tile_height), (3, 2));
    let tiles = partition(&image, layout);
    assert_eq!(tiles.len(), 4);
    assert_eq!(tiles[3].coords, (3, 2));
    assert_eq!(tiles[3].image.get_pixel(2, 1), image.get_pixel(5, 3));
}

#[test]
fn join_four_tiles_without_a_size() {
    let image = gradient(100, 100);
    let tiles = slice(&image, None, Some(2), Some(2)).unwrap();
    let joined = join(&tiles, 0, 0).unwrap();
    assert_eq!((joined.width(), joined.height()), (100, 100));
    assert_eq!(joined, image);
}

#[test]
fn join_with_a_size_leaves_the_rest_blank() {
    let tiles = vec![
        Tile::new(plain(2, 2, 10), 1, (1, 1), (0, 0), None),
        Tile::new(plain(2, 2, 20), 2, (2, 1), (3, 1), None),
    ];
    let joined = join(&tiles, 6, 4).unwrap();
    assert_eq!((joined.width(), joined.height()), (6, 4));
    assert_eq!(joined.color(), image::ColorType::Rgba8);
    for y in 0..4 {
        for x in 0..6 {
            let expected = if x < 2 && y < 2 {
                Rgba([10, 10, 10, 255])
            } else if (3..5).contains(&x) && (1..3).contains(&y) {
                Rgba([20, 20, 20, 255])
            } else {
                Rgba([0, 0, 0, 0])
            };
            assert_eq!(joined.get_pixel(x, y), expected, "at ({}, {})", x, y);
        }
    }
}

#[test]
fn join_lets_the_later_tile_show() {
    let tiles = vec![
        Tile::new(plain(3, 3, 10), 1, (1, 1), (0, 0), None),
        Tile::new(plain(3, 3, 20), 2, (2, 1), (2, 2), None),
    ];
    let joined = join(&tiles, 5, 5).unwrap();
    assert_eq!(joined.get_pixel(1, 1), Rgba([10, 10, 10, 255]));
    assert_eq!(joined.get_pixel(2, 2), Rgba([20, 20, 20, 255]));
    assert_eq!(joined.get_pixel(4, 4), Rgba([20, 20, 20, 255]));
    assert_eq!(joined.get_pixel(4, 0), Rgba([0, 0, 0, 0]));
}

#[test]
fn join_needs_both_sides_to_use_a_given_size() {
    let tiles = vec![create_dummy_tile(4, 3, 1), create_dummy_tile(4, 3, 2)];
    let joined = join(&tiles, 50, 0).unwrap();
    assert_eq!((joined.width(), joined.height()), (8, 3));
    let joined = join(&tiles, 0, 50).unwrap();
    assert_eq!((joined.width(), joined.height()), (8, 3));
}

#[test]
fn join_of_no_tiles_is_a_blank_canvas() {
    let joined = join(&[], 3, 2).unwrap();
    assert_eq!(joined, DynamicImage::ImageRgba8(RgbaImage::new(3, 2)));
}

#[test]
fn join_refuses_a_tile_beyond_the_canvas() {
    let wide = vec![Tile::new(plain(50, 50, 1), 1, (1, 1), (60, 0), None)];
    assert_eq!(join(&wide, 100, 100).err(), Some(TileError::CompositingError));
    let tall = vec![Tile::new(plain(50, 50, 1), 1, (1, 1), (0, 51), None)];
    assert_eq!(join(&tall, 100, 100).err(), Some(TileError::CompositingError));
    let snug = vec![Tile::new(plain(50, 50, 1), 1, (1, 1), (50, 50), None)];
    assert!(join(&snug, 100, 100).is_ok());
    let negative = vec![Tile::new(plain(50, 50, 1), 1, (1, 1), (-1, 0), None)];
    assert_eq!(join(&negative, 100, 100).err(), Some(TileError::CompositingError));
    let second = vec![
        Tile::new(plain(50, 50, 1), 1, (1, 1), (0, 0), None),
        Tile::new(plain(50, 50, 1), 2, (2, 1), (51, 0), None),
    ];
    assert_eq!(join(&second, 100, 100).err(), Some(TileError::CompositingError));
}

#[test]
fn join_guesses_wrong_for_a_grid_that_is_not_near_square() {
    let image = gradient(90, 10);
    let tiles = slice(&image, None, Some(3), Some(1)).unwrap();
    assert_eq!(tiles.len(), 3);
    assert_eq!(get_combined_size(&tiles), (60, 20));
    assert_eq!(join(&tiles, 0, 0).err(), Some(TileError::CompositingError));
    assert_eq!(join(&tiles, 90, 10).unwrap(), image);
}

#[test]
fn reload_tile_places_the_tile_by_its_size() {
    let tile = reload_tile(plain(50, 40, 9), 3, (2, 1), "/out/tile_02_03.png");
    assert_eq!(tile.number, 3);
    assert_eq!(tile.position, (2, 1));
    assert_eq!(tile.coords, (100, 40));
    assert_eq!(tile.filename, Some("/out/tile_02_03.png".to_string()));
    assert_eq!((tile.image.width(), tile.image.height()), (50, 40));
    let back = reload_tile(plain(50, 40, 9), 1, (-1, 0), "x");
    assert_eq!(back.coords, (-50, 0));
}

#[test]
fn sliced_named_reloaded_and_joined() {
    let image = gradient(64, 48);
    let tiles = slice(&image, Some(12), None, None).unwrap();
    assert_eq!(tiles.len(), 12);
    let mut reloaded = Vec::new();
    for (i, tile) in tiles.iter().enumerate() {
        let name = tile.generate_filename("part", "png");
        assert!(papercut::is_tile_file(&name));
        let position = papercut::get_image_column_row(&name).unwrap();
        reloaded.push(reload_tile(tile.image.clone(), i as i32 + 1, position, &name));
    }
    for (tile, again) in tiles.iter().zip(reloaded.iter()) {
        assert_eq!(again.coords, tile.coords);
        assert_eq!(again.position, (tile.position.0 - 1, tile.position.1 - 1));
    }
    assert_eq!(join(&reloaded, 64, 48).unwrap(), image);
}

#[test]
fn try_slice_wants_a_pixel_for_every_cell() {
    let image = gradient(3, 100);
    assert!(try_slice(&image, None, Some(4), Some(2)).is_none());
    assert!(try_slice(&gradient(100, 1), None, Some(4), Some(2)).is_none());
    assert!(try_slice(&gradient(0, 0), Some(4), None, None).is_none());
    let cut = try_slice(&image, None, Some(3), Some(2)).unwrap().unwrap();
    assert_eq!(cut.len(), 6);
    assert_eq!((cut[0].image.width(), cut[0].image.height()), (1, 50));
    let refused = try_slice(&image, Some(1), None, None).unwrap();
    assert_eq!(refused.err(), Some(TileError::InvalidInput));
    let refused = try_slice(&gradient(0, 0), None, None, None).unwrap();
    assert_eq!(refused.err(), Some(TileError::InvalidInput));
}

#[test]
fn try_get_combined_size_needs_a_tile_and_room() {
    assert_eq!(try_get_combined_size(&[]), None);
    let tiles = vec![create_dummy_tile(10, 20, 1), create_dummy_tile(10, 20, 2)];
    assert_eq!(try_get_combined_size(&tiles), Some((20, 20)));
    let flat = DynamicImage::ImageLuma8(GrayImage::new(u32::MAX, 0));
    let wide = vec![
        Tile::new(flat.clone(), 1, (1, 1), (0, 0), None),
        Tile::new(flat, 2, (2, 1), (0, 0), None),
    ];
    assert_eq!(try_get_combined_size(&wide), None);
    assert_eq!(try_get_combined_size(&wide[..1]), Some((u32::MAX, 0)));
}

#[test]
fn try_join_needs_a_canvas_that_can_be_made() {
    assert!(try_join(&[], 0, 0).is_none());
    assert!(try_join(&[], 5, 0).is_none());
    assert!(try_join(&[], u32::MAX, u32::MAX).is_none());
    let blank = try_join(&[], 2, 2).unwrap().unwrap();
    assert_eq!(blank, DynamicImage::ImageRgba8(RgbaImage::new(2, 2)));
    let tiles = vec![create_dummy_tile(2, 2, 1)];
    let joined = try_join(&tiles, 0, 0).unwrap().unwrap();
    assert_eq!((joined.width(), joined.height()), (2, 2));
    let beyond = vec![Tile::new(plain(2, 2, 1), 1, (1, 1), (1, 0), None)];
    let refused = try_join(&beyond, 2, 2).unwrap();
    assert_eq!(refused.err(), Some(TileError::CompositingError));
}

#[test]
fn try_reload_tile_needs_an_origin_that_fits() {
    let tile = try_reload_tile(plain(50, 40, 9), 3, (2, 1), "tile_02_03.png").unwrap();
    assert_eq!(tile.coords, (100, 40));
    assert_eq!(tile.filename, Some("tile_02_03.png".to_string()));
    let flat = DynamicImage::ImageLuma8(GrayImage::new(1 << 30, 0));
    assert!(try_reload_tile(flat.clone(), 1, (2, 0), "x").is_none());
    assert!(try_reload_tile(flat.clone(), 1, (-3, 0), "x").is_none());
    let edge = try_reload_tile(flat, 1, (-2, 7), "x").unwrap();
    assert_eq!(edge.coords, (i32::MIN, 0));
}

#[test]
fn join_pastes_the_rgba_copy_of_other_formats() {
    let gray = GrayImage::from_fn(8, 6, |x, y| Luma([(20 * y + x) as u8]));
    let image = DynamicImage::ImageLuma8(gray);
    let tiles = slice(&image, None, Some(2), Some(3)).unwrap();
    assert_eq!(tiles.len(), 6);
    let joined = join(&tiles, 8, 6).unwrap();
    assert_eq!(joined.color(), image::ColorType::Rgba8);
    assert_eq!(joined, DynamicImage::ImageRgba8(image.to_rgba8()));
    assert_eq!(joined.get_pixel(5, 4), Rgba([85, 85, 85, 255]));
}

#[test]
fn join_on_a_larger_canvas_leaves_the_margin_blank() {
    let image = gradient(9, 7);
    let tiles = slice(&image, None, Some(2), Some(2)).unwrap();
    assert_eq!(tiles.len(), 4);
    let joined = join(&tiles, 9, 7).unwrap();
    for y in 0..7 {
        for x in 0..9 {
            let expected = if x < 8 && y < 6 { image.get_pixel(x, y) } else { Rgba([0, 0, 0, 0]) };
            assert_eq!(joined.get_pixel(x, y), expected, "at ({}, {})", x, y);
        }
    }
}

#[test]
fn slicing_by_count_and_joining_with_no_size_gives_the_image_back() {
    for n in [2u32, 3, 4, 5, 6, 7, 9, 10, 12, 16, 17, 50, 99, 100] {
        let (c, r) = papercut::calc_columns_rows(n);
        for (tile_width, tile_height) in [(1u32, 1u32), (3, 2), (5, 7)] {
            let (width, height) = (c * tile_width, r * tile_height);
            let image = gradient(width, height);
            let tiles = slice(&image, Some(n), None, None).unwrap();
            assert_eq!(tiles.len() as u32, c * r);
            assert_eq!(get_combined_size(&tiles), (width, height));
            let joined = try_join(&tiles, 0, 0).unwrap().unwrap();
            assert_eq!(joined, image, "for {} tiles of {}x{}", n, tile_width, tile_height);
        }
    }
    let gray = GrayImage::from_fn(12, 6, |x, y| Luma([(16 * y + x) as u8]));
    let image = DynamicImage::ImageLuma8(gray);
    let tiles = slice(&image, Some(5), None, None).unwrap();
    let joined = join(&tiles, 0, 0).unwrap();
    assert_eq!(joined, DynamicImage::ImageRgba8(image.to_rgba8()));
}

#[test]
fn tiles_of_other_formats_carry_the_rgba_copy_of_their_rectangle() {
    let gray = image::ImageBuffer::from_fn(9, 4, |x, y| image::Luma([(4000 * y + 37 * x) as u16]));
    let image = DynamicImage::ImageLuma16(gray);
    let whole = image.to_rgba8();
    let tiles = slice(&image, None, Some(3), Some(2)).unwrap();
    assert_eq!(tiles.len(), 6);
    for tile in tiles.iter() {
        let copy = tile.image.to_rgba8();
        let (ox, oy) = (tile.coords.0 as u32, tile.coords.1 as u32);
        for y in 0..2 {
            for x in 0..3 {
                assert_eq!(copy.get_pixel(x, y), whole.get_pixel(ox + x, oy + y));
            }
        }
    }
}
