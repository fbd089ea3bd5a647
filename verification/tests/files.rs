use ghoul::formats::{format_of, type_matches};
use ghoul::raw_name::{raw_dimensions, raw_file_name};
use ghoul::shared_types::{SpriteData, SpriteFormat};
use ghoul::sprite_get::{get_bmp, get_png, get_raw, BmpError, PngColor, PngImage};
use ghoul::sprite_make::{bmp_header, make_bmp, make_png};

fn sprite(width: u16, height: u16, bit_depth: u16, pixels: Vec<u8>, palette: Vec<u8>) -> SpriteData {
    SpriteData { width, height, bit_depth, pixels, palette }
}

fn default_alpha(index: usize) -> u8 {
    if index % 32 == 0 || (index % 32 == 8 && index != 8) {
        0x00
    } else {
        0x80
    }
}

#[test]
fn bmp_header_states_sizes_and_dimensions() {
    assert_eq!(
        bmp_header(3, 2, 8),
        vec![
            0x42, 0x4d, 0x26, 0x03, 0, 0, 0, 0, 0, 0, 0x1A, 0x03, 0, 0, 0x0C, 0, 0, 0, 3, 0, 2,
            0, 1, 0, 8, 0
        ]
    );
    assert_eq!(
        bmp_header(4, 4, 4),
        vec![0x42, 0x4d, 90, 0, 0, 0, 0, 0, 0, 0, 74, 0, 0, 0, 12, 0, 0, 0, 4, 0, 4, 0, 1, 0, 4, 0]
    );
    assert_eq!(bmp_header(0x1234, 0xFFFF, 1)[18..22].to_vec(), vec![0x34, 0x12, 0xFF, 0xFF]);
    assert_eq!(bmp_header(1, 1, 2)[10..12].to_vec(), vec![38, 0]);
}

#[test]
fn bmp_file_has_a_grey_ramp_and_rows_bottom_up() {
    let file = make_bmp(sprite(4, 2, 8, vec![1, 2, 3, 4, 5, 6, 7, 8], vec![])).unwrap();
    assert_eq!(file.len(), 26 + 768 + 8);
    assert_eq!(file[..26].to_vec(), bmp_header(4, 2, 8));
    for color in 0..256usize {
        assert_eq!(file[26 + 3 * color..29 + 3 * color].to_vec(), vec![color as u8; 3]);
    }
    assert_eq!(file[794..].to_vec(), vec![5, 6, 7, 8, 1, 2, 3, 4]);
}

#[test]
fn bmp_rows_are_filled_to_whole_words() {
    let palette: Vec<u8> = (0..64u8).collect();
    let file = make_bmp(sprite(3, 1, 4, vec![1, 2, 3], palette)).unwrap();
    assert_eq!(file.len(), 26 + 48 + 4);
    assert_eq!(file[26..32].to_vec(), vec![2, 1, 0, 6, 5, 4]);
    assert_eq!(file[74..].to_vec(), vec![0x12, 0x30, 0, 0]);

    let file = make_bmp(sprite(3, 2, 8, vec![1, 2, 3, 4, 5, 6], vec![])).unwrap();
    assert_eq!(file[794..].to_vec(), vec![4, 5, 6, 0, 1, 2, 3, 0]);
}

#[test]
fn bmp_is_not_made_of_what_does_not_fit() {
    assert!(make_bmp(sprite(4, 2, 2, vec![0; 8], vec![])).is_none());
    assert!(make_bmp(sprite(4, 0, 8, vec![], vec![])).is_none());
    assert!(make_bmp(sprite(4, 1, 8, vec![0; 4], vec![0; 100])).is_none());
    // a row of bits that no longer fits 16 bits
    assert!(make_bmp(sprite(8190, 1, 8, vec![0; 8190], vec![])).is_none());
    assert!(make_bmp(sprite(8188, 1, 8, vec![0; 8188], vec![])).is_some());
    // more pixel bytes per row than a row of the file holds
    assert!(make_bmp(sprite(2, 1, 8, vec![0; 9], vec![])).is_none());
}

#[test]
fn bmp_written_is_read_back() {
    let pixels: Vec<u8> = vec![1, 2, 3, 4, 5, 6, 7, 8];
    let back = get_bmp(make_bmp(sprite(4, 2, 8, pixels.clone(), vec![])).unwrap()).unwrap();
    assert_eq!((back.width, back.height, back.bit_depth), (4, 2, 8));
    assert_eq!(back.pixels, pixels);
    assert_eq!(back.palette.len(), 1024);
    for color in 0..256usize {
        assert_eq!(
            back.palette[4 * color..4 * color + 4].to_vec(),
            vec![color as u8, color as u8, color as u8, default_alpha(color)]
        );
    }
    assert_eq!(back.palette[3], 0x00);
    assert_eq!(back.palette[4 * 8 + 3], 0x80);
    assert_eq!(back.palette[4 * 32 + 3], 0x00);
    assert_eq!(back.palette[4 * 40 + 3], 0x00);
    assert_eq!(back.palette[4 * 41 + 3], 0x80);

    let palette: Vec<u8> = (0..64u8).collect();
    let back = get_bmp(make_bmp(sprite(3, 1, 4, vec![1, 2, 3], palette)).unwrap()).unwrap();
    assert_eq!((back.width, back.height, back.bit_depth), (3, 1, 4));
    assert_eq!(back.pixels, vec![1, 2, 3]);
    assert_eq!(back.palette[..8].to_vec(), vec![0, 1, 2, 0x00, 4, 5, 6, 0x80]);
}

#[test]
fn bmp_rows_are_read_as_stretches_of_the_width() {
    // three pixels and one byte of filling per row: the filling is read as a pixel
    let back = get_bmp(make_bmp(sprite(3, 2, 8, vec![1, 2, 3, 4, 5, 6], vec![])).unwrap()).unwrap();
    assert_eq!(back.pixels, vec![0, 1, 2, 4, 5, 6]);
}

fn info_header_file(width: u32, height: i32, bitcount: u16, compression: u32, colors: u32) -> Vec<u8> {
    let flags: u32 = if compression == 3 { 12 } else if compression == 6 { 16 } else { 0 };
    let table: u32 = 54 + flags;
    let offset: u32 = table + 4 * 2;
    let mut file: Vec<u8> = vec![0x42, 0x4d, 0, 0, 0, 0, 0, 0, 0, 0];
    file.extend_from_slice(&offset.to_le_bytes());
    file.extend_from_slice(&40u32.to_le_bytes());
    file.extend_from_slice(&width.to_le_bytes());
    file.extend_from_slice(&height.to_le_bytes());
    file.extend_from_slice(&1u16.to_le_bytes());
    file.extend_from_slice(&bitcount.to_le_bytes());
    file.extend_from_slice(&compression.to_le_bytes());
    file.extend_from_slice(&[0; 12]);
    file.extend_from_slice(&colors.to_le_bytes());
    file.extend_from_slice(&[0; 4]);
    file.extend_from_slice(&vec![0xEE; flags as usize]);
    file.extend_from_slice(&[30, 20, 10, 0, 33, 22, 11, 0]);
    file
}

#[test]
fn bmp_with_an_info_header_and_bit_masks() {
    for compression in [0u32, 3, 6] {
        let mut file = info_header_file(4, 1, 8, compression, 2);
        file.extend_from_slice(&[9, 8, 7, 6]);
        let back = get_bmp(file).unwrap();
        assert_eq!((back.width, back.height, back.bit_depth), (4, 1, 8));
        assert_eq!(back.pixels, vec![9, 8, 7, 6]);
        assert_eq!(back.palette, vec![10, 20, 30, 0x00, 11, 22, 33, 0x80]);
    }
}

#[test]
fn bmp_colour_count_of_zero_means_all_colours() {
    let mut file = info_header_file(2, 1, 1, 0, 0);
    file.extend_from_slice(&[0b1000_0000, 0, 0, 0]);
    let back = get_bmp(file).unwrap();
    assert_eq!(back.bit_depth, 1);
    assert_eq!(back.pixels, vec![1, 0]);
    assert_eq!(back.palette, vec![10, 20, 30, 0x00, 11, 22, 33, 0x80]);
}

#[test]
fn bmp_errors() {
    assert_eq!(get_bmp(vec![]).err(), Some(BmpError::OutOfBounds));
    assert_eq!(get_bmp(vec![0; 17]).err(), Some(BmpError::OutOfBounds));
    // a header size that is not known
    let mut file = vec![0u8; 64];
    file[14] = 16;
    assert_eq!(get_bmp(file).err(), Some(BmpError::UnreadableHeader));
    // an info header cut short
    let mut file = vec![0u8; 40];
    file[14] = 40;
    assert_eq!(get_bmp(file).err(), Some(BmpError::OutOfBounds));
    // a compression method without a name
    let file = info_header_file(4, 1, 8, 7, 2);
    assert_eq!(get_bmp(file).err(), Some(BmpError::OutOfBounds));
    // pixel data that is not there
    let file = info_header_file(4, 1, 8, 0, 2);
    assert_eq!(get_bmp(file).err(), Some(BmpError::OutOfBounds));
    // 24 bits per pixel
    let mut file = info_header_file(1, 1, 24, 0, 2);
    file.extend_from_slice(&[1, 2, 3, 0]);
    assert_eq!(get_bmp(file).err(), Some(BmpError::UnsupportedDepth));
    // a negative height
    let mut file = info_header_file(4, -1, 8, 0, 2);
    file.extend_from_slice(&[9, 8, 7, 6]);
    assert_eq!(get_bmp(file).err(), Some(BmpError::OutOfBounds));
    // wider than a sprite can be
    let file = info_header_file(70000, 0, 8, 0, 2);
    assert_eq!(get_bmp(file).err(), Some(BmpError::TooLarge));
    // more colours announced than the file holds
    let mut file = info_header_file(4, 1, 8, 0, 3);
    file.extend_from_slice(&[9, 8]);
    assert_eq!(get_bmp(file).err(), Some(BmpError::OutOfBounds));
}

fn png(color: PngColor, bit_depth: u8, bytes: Vec<u8>) -> PngImage {
    PngImage { color, bit_depth, width: 2, height: 2, bytes, palette: None, trns: None }
}

#[test]
fn indexed_png_keeps_its_palette() {
    let image = PngImage {
        color: PngColor::Indexed,
        bit_depth: 4,
        width: 4,
        height: 1,
        bytes: vec![0x12, 0x34],
        palette: Some(vec![1, 2, 3, 4, 5, 6, 7]),
        trns: Some(vec![9]),
    };
    let back = get_png(image);
    assert_eq!((back.width, back.height, back.bit_depth), (4, 1, 4));
    assert_eq!(back.pixels, vec![1, 2, 3, 4]);
    assert_eq!(back.palette, vec![1, 2, 3, 9, 4, 5, 6, 0x80]);
}

#[test]
fn png_transparency_longer_than_the_palette_is_cut() {
    let image = PngImage {
        color: PngColor::Indexed,
        bit_depth: 8,
        width: 1,
        height: 1,
        bytes: vec![0],
        palette: Some(vec![1, 2, 3]),
        trns: Some(vec![7, 8, 9]),
    };
    assert_eq!(get_png(image).palette, vec![1, 2, 3, 7]);
}

#[test]
fn other_png_colour_types_give_their_first_channel() {
    assert_eq!(get_png(png(PngColor::Grayscale, 8, vec![1, 2, 3, 4])).pixels, vec![1, 2, 3, 4]);
    assert_eq!(
        get_png(png(PngColor::GrayscaleAlpha, 8, vec![1, 9, 2, 9, 3, 9, 4, 9])).pixels,
        vec![1, 2, 3, 4]
    );
    assert_eq!(get_png(png(PngColor::Rgb, 8, vec![1, 8, 9, 2, 8, 9, 3])).pixels, vec![1, 2]);
    assert_eq!(
        get_png(png(PngColor::Rgba, 8, vec![1, 7, 8, 9, 2, 7, 8, 9])).pixels,
        vec![1, 2]
    );
    let grey = PngImage { palette: Some(vec![1, 2, 3]), ..png(PngColor::Grayscale, 8, vec![0]) };
    assert!(get_png(grey).palette.is_empty());
}

#[test]
fn png_bit_depths_below_eight_are_unpacked() {
    let back = get_png(png(PngColor::Grayscale, 1, vec![0b1010_0000]));
    assert_eq!(back.bit_depth, 1);
    assert_eq!(back.pixels, vec![1, 0, 1, 0, 0, 0, 0, 0]);
    let back = get_png(png(PngColor::Grayscale, 2, vec![0b00_01_10_11]));
    assert_eq!(back.bit_depth, 2);
    assert_eq!(back.pixels, vec![0, 1, 2, 3]);
    let back = get_png(png(PngColor::Grayscale, 16, vec![5, 6]));
    assert_eq!(back.bit_depth, 8);
    assert_eq!(back.pixels, vec![5, 6]);
}

#[test]
fn png_dimensions_are_cut_to_sixteen_bits() {
    let image = PngImage { width: 0x1_0005, height: 0xFFFF, ..png(PngColor::Grayscale, 8, vec![]) };
    let back = get_png(image);
    assert_eq!((back.width, back.height), (5, 0xFFFF));
}

#[test]
fn png_parts_of_a_sprite_without_palette() {
    let parts = make_png(sprite(3, 1, 4, vec![1, 2, 3], vec![])).unwrap();
    assert_eq!(parts.pixels, vec![0x12, 0x30]);
    assert_eq!(parts.palette.len(), 48);
    assert_eq!(parts.palette[..9].to_vec(), vec![0, 0, 0, 1, 1, 1, 2, 2, 2]);
    assert_eq!(parts.palette[45..].to_vec(), vec![15, 15, 15]);
    assert_eq!(parts.transparency, vec![0xFF; 16]);
}

#[test]
fn png_parts_of_a_sprite_with_palette() {
    let palette: Vec<u8> = (0..1024usize).map(|i| (i % 256) as u8).collect();
    let parts = make_png(sprite(2, 1, 8, vec![200, 100], palette)).unwrap();
    assert_eq!(parts.pixels, vec![200, 100]);
    assert_eq!(parts.palette.len(), 768);
    assert_eq!(parts.palette[..6].to_vec(), vec![0, 1, 2, 4, 5, 6]);
    assert_eq!(parts.transparency.len(), 256);
    assert_eq!(parts.transparency[..3].to_vec(), vec![3, 7, 11]);
    assert!(make_png(sprite(2, 1, 8, vec![0, 0], vec![0; 64])).is_none());
    assert!(make_png(sprite(2, 1, 2, vec![0, 0], vec![])).is_none());
}

fn dims(name: &str) -> (u16, u16) {
    raw_dimensions(&name.as_bytes().to_vec())
}

#[test]
fn raw_names_carry_width_and_height() {
    assert_eq!(dims("stance-w-64-h-128"), (64, 128));
    assert_eq!(dims("stance-W-64-H-128"), (64, 128));
    assert_eq!(dims("h-2-w-3"), (3, 2));
    assert_eq!(dims("x-w-+7-h-007"), (7, 7));
    assert_eq!(dims("x-w-65535-h-65536"), (65535, 0));
    assert_eq!(dims("x-w-70000-h-5"), (0, 5));
    assert_eq!(dims("x-w-99999999999999999999-h-5"), (0, 5));
    assert_eq!(dims("w-5"), (5, 0));
    assert_eq!(dims("a-w"), (0, 0));
    assert_eq!(dims("a-w--h-3"), (0, 3));
    assert_eq!(dims("w-1-w-2"), (2, 0));
    assert_eq!(dims("x-w-12a-h-1"), (0, 1));
    assert_eq!(dims("x-w-+-h-1"), (0, 1));
    assert_eq!(dims("x-w--5-h-1"), (0, 1));
    assert_eq!(dims("x-ww-5-h-1"), (0, 1));
    assert_eq!(dims("w-h-4"), (0, 4));
    assert_eq!(dims(""), (0, 0));
    assert_eq!(dims("---"), (0, 0));
}

#[test]
fn raw_dump_becomes_an_eight_bit_sprite() {
    let name = "idle-w-2-h-3".as_bytes().to_vec();
    let back = get_raw(&name, vec![1, 2, 3, 4, 5, 6]).unwrap();
    assert_eq!((back.width, back.height, back.bit_depth), (2, 3, 8));
    assert_eq!(back.pixels, vec![1, 2, 3, 4, 5, 6]);
    assert!(back.palette.is_empty());
    assert!(get_raw(&"idle-w-2".as_bytes().to_vec(), vec![1, 2]).is_none());
    assert!(get_raw(&"idle-h-2".as_bytes().to_vec(), vec![1, 2]).is_none());
}

fn format(extension: &str) -> SpriteFormat {
    format_of(&extension.as_bytes().to_vec())
}

#[test]
fn extensions_name_formats() {
    assert_eq!(format("png"), SpriteFormat::PNG);
    assert_eq!(format("PNG"), SpriteFormat::PNG);
    assert_eq!(format("Raw"), SpriteFormat::RAW);
    assert_eq!(format("bIn"), SpriteFormat::BIN);
    assert_eq!(format("bmp"), SpriteFormat::BMP);
    assert_eq!(format("jpg"), SpriteFormat::NONE);
    assert_eq!(format("pn"), SpriteFormat::NONE);
    assert_eq!(format("pngs"), SpriteFormat::NONE);
    assert_eq!(format(""), SpriteFormat::NONE);
    assert_eq!(format("p\u{4e}g"), SpriteFormat::PNG);
    assert_eq!(format("\u{10}ng"), SpriteFormat::NONE);
}

#[test]
fn files_match_the_format_their_extension_names() {
    let png = "PNG".as_bytes().to_vec();
    let txt = "txt".as_bytes().to_vec();
    assert!(type_matches(Some(&png), SpriteFormat::PNG));
    assert!(!type_matches(Some(&png), SpriteFormat::BMP));
    assert!(!type_matches(Some(&txt), SpriteFormat::NONE));
    assert!(!type_matches(None, SpriteFormat::PNG));
    assert!(!type_matches(None, SpriteFormat::NONE));
}

#[test]
fn raw_file_names_carry_the_dimensions() {
    let name = raw_file_name(&"idle".as_bytes().to_vec(), 64, 128);
    assert_eq!(name, "idle-W-64-H-128.raw".as_bytes().to_vec());
    assert_eq!(raw_file_name(&vec![], 0, 65535), "-W-0-H-65535.raw".as_bytes().to_vec());
    assert_eq!(raw_file_name(&"a".as_bytes().to_vec(), 10000, 9), "a-W-10000-H-9.raw".as_bytes().to_vec());
    assert_eq!(raw_file_name(&"a".as_bytes().to_vec(), 1005, 100), "a-W-1005-H-100.raw".as_bytes().to_vec());
}

#[test]
fn raw_file_names_are_read_back() {
    for stem in ["idle", "", "a-w", "x-w-3-h-4", "h", "run-"] {
        for (width, height) in [(1u16, 1u16), (64, 128), (65535, 10), (7, 60000)] {
            let mut name = raw_file_name(&stem.as_bytes().to_vec(), width, height);
            name.truncate(name.len() - 4);
            assert_eq!(raw_dimensions(&name), (width, height));
        }
    }
}
