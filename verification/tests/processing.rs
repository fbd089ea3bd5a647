use std::path::PathBuf;

use ghoul::process::{
    alpha_for, can_process, carry_palette, color_count, output_depth, palette_from_rgb,
    process_sprite, reindex_pixels, set_alpha,
};
use ghoul::shared_types::{HashMode, Parameters, SpriteData, SpriteFormat};

fn parameters() -> Parameters {
    Parameters {
        directory_mode: false,
        source_path: PathBuf::from("in.png"),
        target_path: PathBuf::from("."),
        palette_file: PathBuf::new(),
        source_format: SpriteFormat::PNG,
        target_format: SpriteFormat::BIN,
        palette_transfer: false,
        forced_bit_depth: false,
        bit_depth: 8,
        as_rgb: false,
        opaque: false,
        uncompressed: false,
        reindex: false,
        hash_mode: HashMode::GENERATE,
        hash_value: 0,
        verbose: false,
        overwrite: false,
    }
}

fn sprite(width: u16, height: u16, bit_depth: u16, pixels: Vec<u8>, palette: Vec<u8>) -> SpriteData {
    SpriteData { width, height, bit_depth, pixels, palette }
}

#[test]
fn default_alpha_is_transparent_at_the_start_of_groups() {
    assert_eq!(alpha_for(0), 0x00);
    assert_eq!(alpha_for(1), 0x80);
    assert_eq!(alpha_for(8), 0x80);
    assert_eq!(alpha_for(16), 0x80);
    assert_eq!(alpha_for(24), 0x80);
    assert_eq!(alpha_for(32), 0x00);
    assert_eq!(alpha_for(40), 0x00);
    assert_eq!(alpha_for(48), 0x80);
    assert_eq!(alpha_for(64), 0x00);
    assert_eq!(alpha_for(72), 0x00);
    assert_eq!(alpha_for(255), 0x80);
}

#[test]
fn bit_depth_is_forced_or_at_least_four() {
    assert_eq!(output_depth(false, 8, 1), 4);
    assert_eq!(output_depth(false, 8, 2), 4);
    assert_eq!(output_depth(false, 8, 4), 4);
    assert_eq!(output_depth(false, 4, 8), 8);
    assert_eq!(output_depth(true, 4, 8), 4);
    assert_eq!(output_depth(true, 8, 1), 8);
    assert_eq!(output_depth(true, 0x1_0004, 8), 4);
    assert_eq!(color_count(4), 16);
    assert_eq!(color_count(8), 256);
    assert_eq!(color_count(0), 1);
    assert_eq!(color_count(16), 65536);
}

#[test]
fn pixels_are_reindexed_in_place() {
    let mut pixels: Vec<u8> = vec![0, 8, 16, 24, 9, 17];
    reindex_pixels(&mut pixels);
    assert_eq!(pixels, vec![0, 16, 8, 24, 17, 9]);
}

#[test]
fn carried_palette_is_filled_or_cut() {
    let carried = carry_palette(vec![1, 2, 3, 4, 5, 6, 7, 8], 16);
    assert_eq!(carried.len(), 64);
    assert_eq!(carried[..8].to_vec(), vec![1, 2, 3, 4, 5, 6, 7, 8]);
    // the first entry that is added counts as entry 0, and is transparent
    assert_eq!(carried[8..16].to_vec(), vec![0, 0, 0, 0x00, 0, 0, 0, 0x80]);
    assert_eq!(carried[8 + 4 * 8..8 + 4 * 8 + 4].to_vec(), vec![0, 0, 0, 0x80]);
    let palette: Vec<u8> = (0..100u8).collect();
    assert_eq!(carry_palette(palette.clone(), 16), palette[..64].to_vec());
    assert_eq!(carry_palette(palette[..64].to_vec(), 16), palette[..64].to_vec());
    // five bytes count as one entry: fifteen are added
    assert_eq!(carry_palette(vec![9; 5], 16).len(), 65);
}

#[test]
fn rgb_palette_gets_an_alpha_after_every_triple() {
    assert_eq!(
        palette_from_rgb(&vec![1, 2, 3, 4, 5, 6, 7]),
        vec![1, 2, 3, 0x80, 4, 5, 6, 0x80, 7]
    );
    assert_eq!(palette_from_rgb(&vec![1, 2]), vec![1, 2]);
    assert_eq!(palette_from_rgb(&vec![]), Vec::<u8>::new());
}

#[test]
fn alpha_is_set_for_every_entry() {
    let done = set_alpha(vec![1, 2, 3, 0x55, 4, 5, 6, 0x55, 7], 4, false);
    assert_eq!(done, vec![1, 2, 3, 0x00, 4, 5, 6, 0x80, 7, 0, 0, 0x80, 0, 0, 0, 0x80]);
    let done = set_alpha(vec![1, 2, 3, 0x55, 4, 5, 6, 0x55, 7], 2, true);
    assert_eq!(done, vec![1, 2, 3, 0xFF, 4, 5, 6, 0xFF]);
    assert_eq!(set_alpha(vec![], 0, true), Vec::<u8>::new());
}

#[test]
fn padded_rows_are_trimmed_and_depth_raised() {
    let data = sprite(3, 2, 2, vec![1, 2, 3, 0, 1, 0, 3, 0], vec![]);
    assert!(can_process(&data, &parameters()));
    let ready = process_sprite(data, &parameters(), None).unwrap();
    assert_eq!((ready.width, ready.height, ready.bit_depth), (3, 2, 4));
    assert_eq!(ready.pixels, vec![1, 2, 3, 1, 0, 3]);
    assert!(ready.palette.is_empty());
}

#[test]
fn sprite_without_size_is_not_processed() {
    assert!(process_sprite(sprite(0, 2, 8, vec![], vec![]), &parameters(), None).is_none());
    assert!(process_sprite(sprite(2, 0, 8, vec![], vec![]), &parameters(), None).is_none());
}

#[test]
fn reindexing_and_forced_depth() {
    let asked = Parameters { reindex: true, forced_bit_depth: true, bit_depth: 8, ..parameters() };
    let ready = process_sprite(sprite(2, 1, 4, vec![8, 16], vec![]), &asked, None).unwrap();
    assert_eq!(ready.bit_depth, 8);
    assert_eq!(ready.pixels, vec![16, 8]);
}

#[test]
fn source_palette_is_looked_up_when_read_as_rgb() {
    let palette: Vec<u8> = vec![10, 0, 0, 0, 20, 0, 0, 0, 30, 0, 0, 0];
    let asked = Parameters { as_rgb: true, ..parameters() };
    let data = sprite(3, 1, 8, vec![2, 0, 1], palette.clone());
    assert!(can_process(&data, &asked));
    let ready = process_sprite(data, &asked, None).unwrap();
    assert_eq!(ready.pixels, vec![30, 10, 20]);
    // neither -palcopy nor a palette file: the output has no palette
    assert!(ready.palette.is_empty());
    // a pixel without a palette entry
    assert!(!can_process(&sprite(3, 1, 8, vec![2, 3, 1], palette.clone()), &asked));
    // the entry is there once the pixel is reindexed
    let palette: Vec<u8> = vec![7; 36];
    let moved = Parameters { reindex: true, ..asked.clone() };
    assert!(!can_process(&sprite(1, 1, 8, vec![16], palette.clone()), &asked));
    assert!(can_process(&sprite(1, 1, 8, vec![16], palette), &moved));
}

#[test]
fn too_few_pixels_cannot_be_processed() {
    assert!(!can_process(&sprite(3, 2, 8, vec![1, 2, 3, 4], vec![]), &parameters()));
    assert!(can_process(&sprite(3, 2, 8, vec![1, 2, 3, 4, 5, 6], vec![]), &parameters()));
    // rows of two with a third pixel in the last row
    assert!(can_process(&sprite(3, 2, 8, vec![1, 2, 3, 4, 5], vec![]), &parameters()));
    let forced = Parameters { forced_bit_depth: true, bit_depth: 17, ..parameters() };
    assert!(!can_process(&sprite(1, 1, 8, vec![1], vec![]), &forced));
}

#[test]
fn palette_is_carried_over_when_asked() {
    let asked = Parameters { palette_transfer: true, ..parameters() };
    let data = sprite(1, 1, 4, vec![1], vec![1, 2, 3, 4, 5, 6, 7, 8]);
    let ready = process_sprite(data, &asked, Some(vec![9; 48])).unwrap();
    assert_eq!(ready.palette.len(), 64);
    assert_eq!(ready.palette[..12].to_vec(), vec![1, 2, 3, 4, 5, 6, 7, 8, 0, 0, 0, 0]);

    let opaque = Parameters { opaque: true, ..asked.clone() };
    let data = sprite(1, 1, 4, vec![1], vec![1, 2, 3, 4, 5, 6, 7, 8]);
    let ready = process_sprite(data, &opaque, None).unwrap();
    assert_eq!(ready.palette[..12].to_vec(), vec![1, 2, 3, 0xFF, 5, 6, 7, 0xFF, 0, 0, 0, 0xFF]);

    // nothing to carry over: no palette, or a black opaque one
    let ready = process_sprite(sprite(1, 1, 4, vec![1], vec![]), &asked, None).unwrap();
    assert!(ready.palette.is_empty());
    let ready = process_sprite(sprite(1, 1, 4, vec![1], vec![]), &opaque, None).unwrap();
    assert_eq!(ready.palette.len(), 64);
    assert_eq!(ready.palette[..8].to_vec(), vec![0, 0, 0, 0xFF, 0, 0, 0, 0xFF]);
}

#[test]
fn palette_file_is_read_as_rgb() {
    let data = sprite(1, 1, 4, vec![1], vec![50; 64]);
    let ready = process_sprite(data, &parameters(), Some(vec![1, 2, 3, 4, 5, 6, 7])).unwrap();
    assert_eq!(ready.palette.len(), 64);
    assert_eq!(
        ready.palette[..16].to_vec(),
        vec![1, 2, 3, 0x00, 4, 5, 6, 0x80, 7, 0, 0, 0x80, 0, 0, 0, 0x80]
    );
    let opaque = Parameters { opaque: true, ..parameters() };
    let data = sprite(1, 1, 8, vec![1], vec![]);
    let ready = process_sprite(data, &opaque, Some(vec![1, 2, 3])).unwrap();
    assert_eq!(ready.palette.len(), 1024);
    assert_eq!(ready.palette[..8].to_vec(), vec![1, 2, 3, 0xFF, 0, 0, 0, 0xFF]);
}
