use ghoul::bit_depth::{bpp_4to8, bpp_8to4};
use ghoul::sprite_get::get_bin;
use ghoul::sprite_make::make_bin;
use ghoul::shared_types::SpriteData;
use ghoul::sprite_transform::{
    align_to_4, bpp_from_1, bpp_from_2, bpp_from_4, bpp_to_4, indexed_as_rgb, transform_index,
    trim_padding,
};

#[test]
fn packing_puts_the_first_pixel_high_unless_flipped() {
    assert_eq!(bpp_4to8(vec![1, 2, 3, 4], false), vec![0x12, 0x34]);
    assert_eq!(bpp_4to8(vec![1, 2, 3, 4], true), vec![0x21, 0x43]);
    assert_eq!(bpp_to_4(vec![1, 2, 3, 4], false), vec![0x12, 0x34]);
    assert_eq!(bpp_to_4(vec![1, 2, 3, 4], true), vec![0x21, 0x43]);
    assert_eq!(bpp_4to8(vec![], true), Vec::<u8>::new());
}

#[test]
fn packing_an_odd_count_fills_the_free_nibble_with_zero() {
    assert_eq!(bpp_4to8(vec![1, 2, 3], false), vec![0x12, 0x30]);
    assert_eq!(bpp_4to8(vec![1, 2, 3], true), vec![0x21, 0x03]);
    assert_eq!(bpp_to_4(vec![7], false), vec![0x70]);
    assert_eq!(bpp_to_4(vec![7], true), vec![0x07]);
}

#[test]
fn packing_clamps_to_four_bits() {
    assert_eq!(bpp_4to8(vec![200, 3], false), vec![0xF3]);
    assert_eq!(bpp_4to8(vec![16, 255], true), vec![0xFF]);
    assert_eq!(bpp_to_4(vec![17], true), vec![0x0F]);
}

#[test]
fn unpacking_yields_two_pixels_per_byte() {
    assert_eq!(bpp_8to4(vec![0xAB, 0x0F], false), vec![0xA, 0xB, 0x0, 0xF]);
    assert_eq!(bpp_8to4(vec![0xAB, 0x0F], true), vec![0xB, 0xA, 0xF, 0x0]);
    assert_eq!(bpp_from_4(vec![0xAB], false), vec![0xA, 0xB]);
    assert_eq!(bpp_from_4(vec![0xAB], true), vec![0xB, 0xA]);
    for len in 0usize..20 {
        assert_eq!(bpp_8to4(vec![0x5A; len], true).len(), 2 * len);
    }
}

#[test]
fn unpack_then_pack_gives_every_byte_back() {
    let bytes: Vec<u8> = (0..=255u8).collect();
    for flip in [false, true] {
        assert_eq!(bpp_4to8(bpp_8to4(bytes.clone(), flip), flip), bytes);
        assert_eq!(bpp_to_4(bpp_from_4(bytes.clone(), flip), flip), bytes);
    }
}

#[test]
fn pack_then_unpack_gives_four_bit_pixels_back() {
    let pixels: Vec<u8> = (0..31usize).map(|i| (i * 5 % 16) as u8).collect();
    for flip in [false, true] {
        let mut back = bpp_8to4(bpp_4to8(pixels.clone(), flip), flip);
        assert_eq!(back.len(), 32);
        assert_eq!(back.pop(), Some(0));
        assert_eq!(back, pixels);
    }
}

#[test]
fn packed_bytes_survive_the_codec() {
    let packed: Vec<u8> = (0..60usize).map(|i| (i * 29 % 256) as u8).collect();
    for flip in [false, true] {
        let pixels = bpp_8to4(packed.clone(), flip);
        let sprite =
            SpriteData { width: 12, height: 10, bit_depth: 4, pixels, palette: Vec::new() };
        let file = make_bin(sprite, false).unwrap();
        let back = get_bin(file).unwrap();
        assert_eq!(bpp_4to8(back.pixels, flip), packed);
    }
}

#[test]
fn reindexing_swaps_the_middle_blocks_of_every_32() {
    assert_eq!(transform_index(0), 0);
    assert_eq!(transform_index(7), 7);
    assert_eq!(transform_index(8), 16);
    assert_eq!(transform_index(15), 23);
    assert_eq!(transform_index(16), 8);
    assert_eq!(transform_index(23), 15);
    assert_eq!(transform_index(24), 24);
    assert_eq!(transform_index(40), 48);
    assert_eq!(transform_index(48), 40);
    assert_eq!(transform_index(239), 247);
    assert_eq!(transform_index(247), 239);
    assert_eq!(transform_index(255), 255);
    for value in 0..=255u8 {
        assert_eq!(transform_index(transform_index(value)), value);
    }
}

#[test]
fn palette_lookup_takes_the_first_channel() {
    let palette: Vec<u8> = vec![10, 11, 12, 13, 20, 21, 22, 23, 30, 31, 32, 33];
    assert_eq!(indexed_as_rgb(vec![0, 2, 1, 1], &palette), vec![10, 30, 20, 20]);
    assert_eq!(indexed_as_rgb(vec![], &palette), Vec::<u8>::new());
}

#[test]
fn one_bit_pixels_unpack_in_either_order() {
    assert_eq!(bpp_from_1(vec![0b1011_0000], false), vec![1, 0, 1, 1, 0, 0, 0, 0]);
    assert_eq!(bpp_from_1(vec![0b1011_0000], true), vec![0, 0, 0, 0, 1, 1, 0, 1]);
    assert_eq!(bpp_from_1(vec![0x80, 0x01], false).len(), 16);
}

#[test]
fn two_bit_pixels_unpack_in_either_order() {
    assert_eq!(bpp_from_2(vec![0b11_10_01_00], false), vec![3, 2, 1, 0]);
    assert_eq!(bpp_from_2(vec![0b11_10_01_00], true), vec![0, 1, 2, 3]);
    assert_eq!(bpp_from_2(vec![0x1B, 0xFF], false), vec![0, 1, 2, 3, 3, 3, 3, 3]);
}

#[test]
fn rows_of_odd_width_get_a_zero() {
    assert_eq!(align_to_4(vec![1, 2, 3, 4, 5, 6], 2), vec![1, 2, 3, 0, 4, 5, 6, 0]);
    assert_eq!(align_to_4(vec![1, 2, 3, 4], 2), vec![1, 2, 3, 4]);
    assert_eq!(align_to_4(vec![1, 2, 3, 4, 5], 1), vec![1, 2, 3, 4, 5, 0]);
    // seven pixels in two rows: rows of three, the seventh pixel is dropped
    assert_eq!(align_to_4(vec![1, 2, 3, 4, 5, 6, 7], 2), vec![1, 2, 3, 0, 4, 5, 6, 0]);
    assert_eq!(align_to_4(vec![], 3), Vec::<u8>::new());
}

#[test]
fn trimming_keeps_the_first_pixels_of_every_row() {
    assert_eq!(trim_padding(vec![1, 2, 3, 0, 4, 5, 6, 0], 3, 2), vec![1, 2, 3, 4, 5, 6]);
    assert_eq!(trim_padding(vec![1, 2, 3, 4], 2, 2), vec![1, 2, 3, 4]);
    assert_eq!(trim_padding(vec![1, 2, 3, 4], 0, 2), Vec::<u8>::new());
    assert_eq!(trim_padding(vec![1, 2, 3, 4, 5, 6], 1, 3), vec![1, 3, 5]);
    assert_eq!(trim_padding(align_to_4(vec![1, 2, 3, 4, 5, 6], 2), 3, 2), vec![1, 2, 3, 4, 5, 6]);
}
