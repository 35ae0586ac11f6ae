use papercut::{
    decode_position, encode_file_name, encode_position, format_extension, get_basename,
    get_columns_rows, get_image_column_row, is_tile_file, is_tile_stem, rewrite_jpeg,
    stem_tokens, TileError,
};

#[test]
fn test_get_columns_rows_valid_filenames() {
    let filenames = vec![
        "tile_01_01.png".to_string(),
        "tile_01_02.png".to_string(),
        "tile_02_01.png".to_string(),
        "tile_02_02.png".to_string(),
    ];

    let (num_columns, num_rows) = get_columns_rows(&filenames);
    assert_eq!(num_columns, 2);
    assert_eq!(num_rows, 2);
}

#[test]
fn test_get_columns_rows_missing_parts() {
    let filenames = vec![
        "tile_01_01.png".to_string(),
        "tile_01.png".to_string(), // Missing column
        "tile_02_01.png".to_string(),
    ];

    let (num_columns, num_rows) = get_columns_rows(&filenames);
    assert_eq!(num_columns, 1);
    assert_eq!(num_rows, 2);
}

#[test]
fn test_get_columns_rows_empty_filenames() {
    let filenames: Vec<String> = vec![];
    let (num_columns, num_rows) = get_columns_rows(&filenames);
    assert_eq!(num_columns, 0);
    assert_eq!(num_rows, 0);
}

#[test]
fn test_get_basename() {
    assert_eq!(get_basename("/path/to/image.png"), "image");
    assert_eq!(get_basename("image.jpeg"), "image");
    assert_eq!(get_basename("/path/to/image"), "image");
    assert_eq!(get_basename("/path/to/.hiddenfile"), ".hiddenfile");
    assert_eq!(get_basename(""), "");
}

#[test]
fn get_columns_rows_takes_the_largest_of_each() {
    let filenames = vec![
        "a_03_07.png".to_string(),
        "a_12_02.png".to_string(),
        "no position here.png".to_string(),
        "a_05_05.png".to_string(),
    ];
    assert_eq!(get_columns_rows(&filenames), (7, 12));
}

#[test]
fn get_columns_rows_keeps_negative_numbers() {
    let filenames = vec!["x-3_-2.png".to_string(), "x-5_-1.png".to_string()];
    assert_eq!(get_columns_rows(&filenames), (-1, -3));
}

#[test]
fn get_columns_rows_reads_short_stems_whole() {
    let filenames = vec!["3_4.png".to_string()];
    assert_eq!(get_columns_rows(&filenames), (4, 3));
}

#[test]
fn encode_position_puts_the_row_first() {
    assert_eq!(encode_position("tile", 3, 2), "tile_02_03");
    assert_eq!(encode_position("", 1, 1), "_01_01");
    assert_eq!(encode_position("a_b", 10, 99), "a_b_99_10");
}

#[test]
fn encode_position_widens_for_large_and_negative_numbers() {
    assert_eq!(encode_position("t", 100, 5), "t_05_100");
    assert_eq!(encode_position("t", 0, 12345), "t_12345_00");
    assert_eq!(encode_position("t", -1, -12), "t_-12_-1");
    assert_eq!(encode_position("t", i32::MAX, i32::MIN), "t_-2147483648_2147483647");
}

#[test]
fn encode_file_name_appends_the_extension() {
    assert_eq!(encode_file_name("tile", 3, 2, "png"), "tile_02_03.png");
    assert_eq!(encode_file_name("tile", 3, 2, "PNG"), "tile_02_03.png");
    assert_eq!(encode_file_name("photo", 12, 7, "JPEG"), "photo_07_12.jpg");
    assert_eq!(encode_file_name("photo", 12, 7, "jpg"), "photo_07_12.jpg");
}

#[test]
fn format_extension_lowers_and_shortens() {
    assert_eq!(format_extension("png"), "png");
    assert_eq!(format_extension("PNG"), "png");
    assert_eq!(format_extension("Jpeg"), "jpg");
    assert_eq!(format_extension("JPEG2000"), "jpg2000");
    assert_eq!(format_extension(""), "");
}

#[test]
fn rewrite_jpeg_replaces_every_occurrence() {
    assert_eq!(rewrite_jpeg("jpeg"), "jpg");
    assert_eq!(rewrite_jpeg("jpegjpeg"), "jpgjpg");
    assert_eq!(rewrite_jpeg("a jpeg and a jpeg"), "a jpg and a jpg");
    assert_eq!(rewrite_jpeg("jjpeg"), "jjpg");
    assert_eq!(rewrite_jpeg("jpe"), "jpe");
    assert_eq!(rewrite_jpeg("jpejpeg"), "jpejpg");
    assert_eq!(rewrite_jpeg("JPEG"), "JPEG");
    assert_eq!(rewrite_jpeg("tiff"), "tiff");
    assert_eq!(rewrite_jpeg("tiff"), "tiff".replace("jpeg", "jpg"));
    assert_eq!(rewrite_jpeg("xjpegyjpejpegg"), "xjpegyjpejpegg".replace("jpeg", "jpg"));
}

#[test]
fn decode_position_swaps_and_counts_from_zero() {
    assert_eq!(decode_position("tile_02_03"), Ok((2, 1)));
    assert_eq!(decode_position("tile_01_01"), Ok((0, 0)));
    assert_eq!(decode_position("tile_99_98"), Ok((97, 98)));
    assert_eq!(decode_position("02_03"), Ok((2, 1)));
    assert_eq!(decode_position("t_5_100"), Ok((99, 4)));
    assert_eq!(decode_position("xx01_-2"), Ok((-3, 0)));
    assert_eq!(decode_position("x+1_+2"), Ok((1, 0)));
    assert_eq!(decode_position("9_999"), Ok((998, 8)));
    assert_eq!(decode_position("-99_1"), Ok((0, -100)));
    assert_eq!(decode_position("-999_1"), Ok((0, 998)));
}

#[test]
fn decode_position_refuses_what_is_no_position() {
    let refused = Err(TileError::InvalidFilenameFormat);
    assert_eq!(decode_position("abcdef"), refused);
    assert_eq!(decode_position(""), refused);
    assert_eq!(decode_position("1_2"), refused);
    assert_eq!(decode_position("01_2"), refused);
    assert_eq!(decode_position("tile_01"), refused);
    assert_eq!(decode_position("tile_0102"), refused);
    assert_eq!(decode_position("tile_1__2"), refused);
    assert_eq!(decode_position("tile_12_"), refused);
    assert_eq!(decode_position("tile_a1_02"), refused);
    assert_eq!(decode_position("tile_01_b2"), refused);
    assert_eq!(decode_position("tile_-_02"), refused);
    assert_eq!(decode_position("tile 1_+"), refused);
    assert_eq!(decode_position("tile_\u{0661}1_02"), refused);
    assert_eq!(decode_position("\u{00e9}1_2"), refused);
}

#[test]
fn stem_tokens_reads_both_numbers_in_order() {
    assert_eq!(stem_tokens("tile_02_03"), Some((2, 3)));
    assert_eq!(stem_tokens("1_2"), Some((1, 2)));
    assert_eq!(stem_tokens("_"), None);
    assert_eq!(stem_tokens(""), None);
    assert_eq!(stem_tokens("tile_01"), None);
    assert_eq!(stem_tokens("\u{00e9}\u{00e9}\u{00e9}01_02"), Some((1, 2)));
}

#[test]
fn get_image_column_row_reads_the_stem_of_a_path() {
    assert_eq!(get_image_column_row("tile_02_03.png"), Ok((2, 1)));
    assert_eq!(get_image_column_row("/some/dir/tile_02_03.png"), Ok((2, 1)));
    assert_eq!(get_image_column_row("tile_02_03"), Ok((2, 1)));
    assert_eq!(get_image_column_row("tile_10_07.tar.gz"), Err(TileError::InvalidFilenameFormat));
}

#[test]
fn get_image_column_row_refuses_names_without_a_position() {
    assert_eq!(get_image_column_row("abcdef.png"), Err(TileError::InvalidFilenameFormat));
    assert_eq!(get_image_column_row(""), Err(TileError::InvalidFilenameFormat));
    assert_eq!(get_image_column_row("/"), Err(TileError::InvalidFilenameFormat));
    assert_eq!(get_image_column_row(".."), Err(TileError::InvalidFilenameFormat));
    assert_eq!(get_image_column_row("1_2.png"), Err(TileError::InvalidFilenameFormat));
}

#[test]
fn every_cell_up_to_99_survives_the_round_trip() {
    for row in 1..=99 {
        for column in 1..=99 {
            let stem = encode_position("tile", column, row);
            assert_eq!(decode_position(&stem), Ok((column - 1, row - 1)));
            let name = encode_file_name("tile", column, row, "png");
            assert_eq!(get_image_column_row(&name), Ok((column - 1, row - 1)));
        }
    }
}

#[test]
fn is_tile_stem_wants_an_underscore_and_no_joined() {
    assert!(is_tile_stem("tile_01_02"));
    assert!(is_tile_stem("_"));
    assert!(is_tile_stem("joine_d"));
    assert!(is_tile_stem("Joined_01_02"));
    assert!(!is_tile_stem("tile"));
    assert!(!is_tile_stem(""));
    assert!(!is_tile_stem("joined"));
    assert!(!is_tile_stem("joined_01_02"));
}

#[test]
fn is_tile_file_goes_by_the_stem() {
    assert!(is_tile_file("tile_01_02.png"));
    assert!(is_tile_file("/dir_a/tile_01_02.png"));
    assert!(!is_tile_file("/dir_a/tile.png"));
    assert!(!is_tile_file("joined_01_02.png"));
    assert!(!is_tile_file("tile.p_g"));
    assert!(!is_tile_file(""));
}

#[test]
fn get_basename_cuts_at_the_last_dot() {
    assert_eq!(get_basename("archive.tar.gz"), "archive.tar");
    assert_eq!(get_basename("dir.d/name"), "name");
    assert_eq!(get_basename("name."), "name");
    assert_eq!(get_basename(".hidden.txt"), ".hidden");
    assert_eq!(get_basename("..."), "..");
    assert_eq!(get_basename("a/b/"), "b");
    assert_eq!(get_basename("a/.."), "");
    assert_eq!(get_basename("/"), "");
    assert_eq!(get_basename("tile_02_03.png"), "tile_02_03");
}

#[test]
fn encoded_names_are_tile_files_unless_the_prefix_says_joined() {
    for (column, row) in [(1, 1), (3, 2), (99, 99), (100, 7), (-1, 0)] {
        assert!(is_tile_stem(&encode_position("tile", column, row)));
        assert!(is_tile_stem(&encode_position("", column, row)));
        assert!(is_tile_stem(&encode_position("join", column, row)));
        assert!(!is_tile_stem(&encode_position("joined", column, row)));
        assert!(!is_tile_stem(&encode_position("joined_up", column, row)));
        assert!(is_tile_file(&encode_file_name("tile", column, row, "png")));
        assert!(!is_tile_file(&encode_file_name("joined", column, row, "png")));
    }
}

#[test]
fn names_in_directories_and_with_dotted_prefixes_survive_the_round_trip() {
    for (column, row) in [(1, 1), (3, 2), (10, 9), (99, 99)] {
        let name = encode_file_name("/data/set.v2/photo.final", column, row, "JPEG");
        assert!(name.ends_with(".jpg"));
        assert_eq!(get_image_column_row(&name), Ok((column - 1, row - 1)));
        assert_eq!(
            get_basename(&name),
            encode_position("photo.final", column, row)
        );
    }
}
