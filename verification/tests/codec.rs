use ghoul::bin_header::{get_bytes, get_header, BinHeader};
use ghoul::shared_types::{SpriteData, SpriteError};
use ghoul::sprite_compress::{compress, compress_stream, decompress};
use ghoul::sprite_get::get_bin;
use ghoul::sprite_make::make_bin;
use ghoul::window::find_match;

fn image(width: u16, height: u16, bit_depth: u16, pixels: Vec<u8>, palette: Vec<u8>) -> SpriteData {
    SpriteData { width, height, bit_depth, pixels, palette }
}

#[test]
fn distinct_pixels_give_five_literals() {
    let pixels: Vec<u8> = (0u8..10).collect();
    let packed = compress_stream(&pixels);
    assert_eq!(packed.iterations, 5);
    assert_eq!(packed.stream, vec![128, 0, 192, 128, 224, 128, 176, 96, 120, 64, 72, 255]);
}

#[test]
fn repeating_pattern_takes_the_earliest_offset() {
    let mut pixels: Vec<u8> = Vec::new();
    for _ in 0..10 {
        pixels.push(1);
        pixels.push(2);
    }
    assert_eq!(find_match(&pixels, 4), (0, 4));
    assert_eq!(find_match(&pixels, 8), (0, 8));
    assert_eq!(find_match(&pixels, 16), (0, 4));
    let packed = compress_stream(&pixels);
    assert_eq!(packed.iterations, 5);
    assert_eq!(packed.stream, vec![128, 129, 64, 64, 128, 0, 32, 0, 80, 0, 8, 255]);
}

#[test]
fn eight_bit_file_round_trip() {
    let pixels: Vec<u8> = (0u8..10).collect();
    let file = make_bin(image(5, 2, 8, pixels.clone(), vec![]), false).unwrap();
    assert_eq!(
        file,
        vec![
            1, 0, 0, 0, 8, 0, 5, 0, 2, 0, 0, 0, 0, 0, 0, 0, 0, 0, 5, 0, 0, 128, 128, 192, 128,
            224, 96, 176, 64, 120, 255, 72
        ]
    );
    let back = get_bin(file).unwrap();
    assert_eq!(back.width, 5);
    assert_eq!(back.height, 2);
    assert_eq!(back.bit_depth, 8);
    assert_eq!(back.pixels, pixels);
    assert!(back.palette.is_empty());
}

#[test]
fn odd_length_stream_ends_in_a_zero_that_is_not_decoded() {
    let pixels: Vec<u8> = vec![7; 9];
    let packed = compress(image(3, 3, 8, pixels.clone(), vec![])).unwrap();
    assert_eq!(packed.iterations, 4);
    assert_eq!(packed.stream, vec![131, 131, 193, 193, 192, 0, 48, 112, 0, 255, 255, 255]);
    let file = make_bin(image(3, 3, 8, pixels.clone(), vec![]), false).unwrap();
    let header = get_header(file[0..16].to_vec());
    let back = decompress(file, header).unwrap();
    assert_eq!(back.pixels, pixels);
}

#[test]
fn four_bit_file_round_trip() {
    let pixels: Vec<u8> = vec![1, 2, 3, 4, 5, 6, 7, 8, 9];
    let file = make_bin(image(3, 3, 4, pixels.clone(), vec![]), false).unwrap();
    assert_eq!(
        file,
        vec![
            1, 0, 0, 0, 4, 0, 3, 0, 3, 0, 0, 0, 0, 0, 0, 0, 0, 0, 3, 0, 161, 144, 97, 217, 32,
            225, 255, 0, 255, 255, 255, 255
        ]
    );
    let back = get_bin(file).unwrap();
    assert_eq!(back.bit_depth, 4);
    assert_eq!(back.pixels, pixels);
}

#[test]
fn header_round_trip_at_the_edges() {
    let header = BinHeader {
        compressed: true,
        clut: 0x20,
        bit_depth: 4,
        width: 0,
        height: 0xFFFF,
        tw: 0x1234,
        th: 0xABCD,
        hash: 0xFFFF,
    };
    let bytes = get_bytes(header);
    assert_eq!(bytes, vec![1, 0, 0x20, 0, 4, 0, 0, 0, 0xFF, 0xFF, 0x34, 0x12, 0xCD, 0xAB, 0xFF, 0xFF]);
    assert_eq!(get_header(bytes), header);
}

#[test]
fn unsupported_bit_depth_is_refused() {
    assert_eq!(
        compress(image(1, 1, 2, vec![1], vec![])).err(),
        Some(SpriteError::InvalidBitDepth)
    );
}

#[test]
fn padding_is_a_whole_block_when_the_stream_already_fits() {
    let pixels: Vec<u8> = (0u8..26).collect();
    let packed = compress_stream(&pixels);
    assert_eq!(packed.iterations, 13);
    assert_eq!(packed.stream.len(), 44);
    assert_eq!(
        packed.stream[..28].to_vec(),
        vec![
            128, 0, 192, 128, 224, 128, 176, 96, 120, 64, 76, 40, 46, 24, 27, 14, 15, 136, 8,
            196, 132, 226, 130, 177, 97, 120, 192, 200
        ]
    );
    assert_eq!(packed.stream[28..].to_vec(), vec![255u8; 16]);
}

#[test]
fn padding_law_holds_for_many_lengths() {
    for len in 0usize..200 {
        let pixels: Vec<u8> = (0..len).map(|i| (i * 37 % 251) as u8).collect();
        let packed = compress_stream(&pixels);
        assert_eq!((packed.stream.len() + 20) % 16, 0);
        let body = (17 * packed.iterations + 7) / 8;
        assert!(packed.stream.len() > body);
        assert!(packed.stream.len() <= body + 16);
        assert!(packed.stream[body..].iter().all(|byte| *byte == 0xFF));
    }
}

#[test]
fn empty_stream_is_padding_alone() {
    let packed = compress_stream(&Vec::new());
    assert_eq!(packed.iterations, 0);
    assert_eq!(packed.stream, vec![255u8; 12]);
}

#[test]
fn long_run_is_cut_into_matches_of_growing_length() {
    let pixels: Vec<u8> = vec![9; 300];
    let packed = compress_stream(&pixels);
    assert_eq!(packed.iterations, 9);
    assert_eq!(
        packed.stream,
        vec![
            132, 132, 194, 66, 64, 0, 32, 0, 80, 0, 104, 0, 116, 0, 122, 0, 125, 0, 20, 128, 255,
            255, 255, 255, 255, 255, 255, 255
        ]
    );
    assert_eq!(find_match(&pixels, 128), (0, 128));
    assert_eq!(find_match(&pixels, 150), (0, 130));
    assert_eq!(find_match(&pixels, 298), (0, 2));
}

#[test]
fn matches_reach_back_through_the_window() {
    let pixels: Vec<u8> = (0..600usize).map(|i| (i * 7 % 256) as u8).collect();
    assert_eq!(find_match(&pixels, 256), (0, 130));
    assert_eq!(find_match(&pixels, 386), (130, 130));
    assert_eq!(find_match(&pixels, 516), (0, 84));
    let packed = compress_stream(&pixels);
    assert_eq!(packed.iterations, 131);
    assert_eq!(packed.stream.len(), 284);
    let sum: u32 = packed.stream.iter().map(|byte| *byte as u32).sum();
    assert_eq!(sum, 38675);
    let file = make_bin(image(600, 1, 8, pixels.clone(), vec![]), false).unwrap();
    assert_eq!(file.len() % 16, 0);
    assert_eq!(get_bin(file).unwrap().pixels, pixels);
}

#[test]
fn find_match_at_the_ends_finds_nothing() {
    let pixels: Vec<u8> = vec![3; 20];
    assert_eq!(find_match(&pixels, 0), (0, 0));
    assert_eq!(find_match(&pixels, 20), (0, 0));
    assert_eq!(find_match(&pixels, 21), (0, 0));
    assert_eq!(find_match(&Vec::new(), 0), (0, 0));
}

#[test]
fn equal_runs_keep_the_first_offset() {
    // 7 8 9 stands at offsets 0 and 4; what follows each differs from what follows position 8
    let pixels: Vec<u8> = vec![7, 8, 9, 1, 7, 8, 9, 2, 7, 8, 9, 3];
    assert_eq!(find_match(&pixels, 8), (0, 3));
    // a longer run later in the window wins over an earlier shorter one
    let pixels: Vec<u8> = vec![7, 8, 1, 1, 7, 8, 9, 2, 7, 8, 9, 3];
    assert_eq!(find_match(&pixels, 8), (4, 3));
}

#[test]
fn decoder_copies_a_run_that_overlaps_itself() {
    let mut file = get_bytes(BinHeader {
        compressed: true,
        clut: 0,
        bit_depth: 8,
        width: 7,
        height: 1,
        tw: 0,
        th: 0,
        hash: 0,
    });
    file.extend_from_slice(&[0, 0, 2, 0]);
    file.extend_from_slice(&[131, 130, 32, 0, 0, 128]);
    let back = get_bin(file).unwrap();
    assert_eq!(back.pixels, vec![5, 6, 6, 6, 6, 6, 6]);
}

#[test]
fn decoded_pixels_are_cut_or_filled_to_the_dimensions() {
    let pixels: Vec<u8> = (0u8..10).collect();
    let mut file = make_bin(image(5, 2, 8, pixels.clone(), vec![]), false).unwrap();
    // the same stream under a header of 4 by 2 and of 6 by 2
    file[6] = 4;
    assert_eq!(get_bin(file.clone()).unwrap().pixels, vec![0, 1, 2, 3, 4, 5, 6, 7]);
    file[6] = 6;
    assert_eq!(get_bin(file).unwrap().pixels, vec![0, 1, 2, 3, 4, 5, 6, 7, 8, 9, 0, 0]);
}

#[test]
fn embedded_palette_round_trip() {
    let palette: Vec<u8> = (0..64usize).map(|i| (i * 3 % 256) as u8).collect();
    let pixels: Vec<u8> = vec![1, 2, 3, 4, 5, 6, 7, 15];
    let file = make_bin(image(4, 2, 4, pixels.clone(), palette.clone()), false).unwrap();
    assert_eq!(file.len(), 96);
    assert_eq!(file[..16].to_vec(), vec![1, 0, 32, 0, 4, 0, 4, 0, 2, 0, 0, 0, 0, 0, 0, 0]);
    assert_eq!(file[16..80].to_vec(), palette);
    assert_eq!(
        file[80..].to_vec(),
        vec![0, 0, 2, 0, 161, 144, 125, 217, 255, 192, 255, 255, 255, 255, 255, 255]
    );
    let back = get_bin(file).unwrap();
    assert_eq!(back.pixels, pixels);
    assert_eq!(back.palette, palette);
    assert_eq!(back.bit_depth, 4);
}

#[test]
fn uncompressed_files_round_trip() {
    let pixels: Vec<u8> = vec![1, 2, 3, 4, 5, 6, 7, 15];
    let file = make_bin(image(4, 2, 4, pixels.clone(), vec![]), true).unwrap();
    assert_eq!(file, vec![0, 0, 0, 0, 4, 0, 4, 0, 2, 0, 0, 0, 0, 0, 0, 0, 33, 67, 101, 247]);
    assert_eq!(get_bin(file).unwrap().pixels, pixels);

    let pixels: Vec<u8> = vec![200, 100, 0];
    let file = make_bin(image(3, 1, 8, pixels.clone(), vec![]), true).unwrap();
    assert_eq!(file[16..].to_vec(), pixels);
    assert_eq!(get_bin(file).unwrap().pixels, pixels);

    let pixels: Vec<u8> = vec![1, 2, 3];
    let file = make_bin(image(3, 1, 4, pixels.clone(), vec![]), true).unwrap();
    assert_eq!(file[16..].to_vec(), vec![0x21, 0x03]);
    assert_eq!(get_bin(file).unwrap().pixels, pixels);
}

#[test]
fn round_trip_of_many_images() {
    for seed in 0usize..40 {
        let width = 1 + seed % 7;
        let height = 1 + seed / 7;
        for depth in [4u16, 8u16] {
            let limit = if depth == 4 { 16 } else { 256 };
            let pixels: Vec<u8> = (0..width * height)
                .map(|i| ((i * i + seed * 5) / (1 + seed % 3) % limit) as u8)
                .collect();
            for uncompressed in [false, true] {
                let source = image(width as u16, height as u16, depth, pixels.clone(), vec![]);
                let file = make_bin(source, uncompressed).unwrap();
                let back = get_bin(file).unwrap();
                assert_eq!(back.width as usize, width);
                assert_eq!(back.height as usize, height);
                assert_eq!(back.bit_depth, depth);
                assert_eq!(back.pixels, pixels);
            }
        }
    }
}

#[test]
fn short_files_are_malformed() {
    assert_eq!(get_bin(vec![1; 15]).err(), Some(SpriteError::MalformedHeader));
    assert_eq!(get_bin(vec![]).err(), Some(SpriteError::MalformedHeader));
    let header = BinHeader {
        compressed: true,
        clut: 0,
        bit_depth: 8,
        width: 1,
        height: 1,
        tw: 0,
        th: 0,
        hash: 0,
    };
    // no room for the token count
    let mut file = get_bytes(header);
    file.extend_from_slice(&[0, 0, 0]);
    assert_eq!(decompress(file, header).err(), Some(SpriteError::MalformedHeader));
    // half a word of stream
    let mut file = get_bytes(header);
    file.extend_from_slice(&[0, 0, 0, 0, 7]);
    assert_eq!(decompress(file, header).err(), Some(SpriteError::MalformedHeader));
    // a palette is announced and missing
    let with_palette = BinHeader { clut: 0x20, ..header };
    let mut file = get_bytes(with_palette);
    file.extend_from_slice(&[0; 100]);
    assert_eq!(get_bin(file).err(), Some(SpriteError::MalformedHeader));
    // an uncompressed file that ends before its pixels
    let stored = BinHeader { compressed: false, width: 3, height: 3, ..header };
    let mut file = get_bytes(stored);
    file.extend_from_slice(&[0; 8]);
    assert_eq!(get_bin(file).err(), Some(SpriteError::MalformedHeader));
}

#[test]
fn unknown_bit_depths_are_refused_on_reading() {
    for compressed in [false, true] {
        let header = BinHeader {
            compressed,
            clut: 0,
            bit_depth: 16,
            width: 1,
            height: 1,
            tw: 0,
            th: 0,
            hash: 0,
        };
        let mut file = get_bytes(header);
        file.extend_from_slice(&[0; 16]);
        assert_eq!(get_bin(file).err(), Some(SpriteError::InvalidBitDepth));
    }
    assert_eq!(
        make_bin(image(1, 1, 0, vec![0], vec![]), true).err(),
        Some(SpriteError::InvalidBitDepth)
    );
}

#[test]
fn stream_that_ends_early_is_truncated() {
    let header = BinHeader {
        compressed: true,
        clut: 0,
        bit_depth: 8,
        width: 2,
        height: 1,
        tw: 0,
        th: 0,
        hash: 0,
    };
    // one token announced, none there
    let mut file = get_bytes(header);
    file.extend_from_slice(&[0, 0, 1, 0]);
    assert_eq!(decompress(file, header).err(), Some(SpriteError::TruncatedBitstream));
    // one token announced, 16 of its 17 bits there
    let mut file = get_bytes(header);
    file.extend_from_slice(&[0, 0, 1, 0, 0xFF, 0xFF]);
    assert_eq!(decompress(file, header).err(), Some(SpriteError::TruncatedBitstream));
    // three tokens announced, two literals and 14 bits there
    let mut file = get_bytes(header);
    file.extend_from_slice(&[0, 0, 3, 0, 0xFF, 0xFF, 0xFF, 0xFF, 0xFF, 0xFF]);
    assert_eq!(decompress(file, header).err(), Some(SpriteError::TruncatedBitstream));
}

#[test]
fn match_before_any_pixel_is_invalid() {
    let header = BinHeader {
        compressed: true,
        clut: 0,
        bit_depth: 8,
        width: 4,
        height: 1,
        tw: 0,
        th: 0,
        hash: 0,
    };
    let mut file = get_bytes(header);
    file.extend_from_slice(&[0, 0, 1, 0, 0, 0, 0, 0]);
    assert_eq!(decompress(file, header).err(), Some(SpriteError::InvalidReference));
    // a literal, then a match that starts past the two pixels decoded
    let mut file = get_bytes(header);
    file.extend_from_slice(&[0, 0, 2, 0]);
    // 1 00000101 00000110 | 0 000000010 0000000 | padding
    file.extend_from_slice(&[0x83, 0x82, 0x40, 0x00, 0x00, 0x00]);
    assert_eq!(decompress(file, header).err(), Some(SpriteError::InvalidReference));
}

#[test]
fn token_count_is_stored_in_two_swapped_halves() {
    let mut state: u64 = 1;
    let mut pixels: Vec<u8> = Vec::new();
    for _ in 0..1200 {
        state = (state * 1103515245 + 12345) % (1 << 31);
        pixels.push((state >> 16) as u8);
    }
    let packed = compress_stream(&pixels);
    let file = make_bin(image(1200, 1, 8, pixels, vec![]), false).unwrap();
    let count = packed.iterations as u32;
    assert_eq!(count, 600);
    assert_eq!(
        file[16..20].to_vec(),
        vec![(count >> 16) as u8, (count >> 24) as u8, count as u8, (count >> 8) as u8]
    );
    for pair in 0..packed.stream.len() / 2 {
        assert_eq!(file[20 + 2 * pair], packed.stream[2 * pair + 1]);
        assert_eq!(file[20 + 2 * pair + 1], packed.stream[2 * pair]);
    }
}

#[test]
fn default_sprite_is_empty_and_eight_bit() {
    let empty = SpriteData::default();
    assert_eq!((empty.width, empty.height, empty.bit_depth), (0, 0, 8));
    assert!(empty.pixels.is_empty());
    assert!(empty.palette.is_empty());
}
