use tilepack::basic_types::{Color, ColorStruct};
use tilepack::color_processor::{
    bit16_to_bit5, colors_from_rgb8, create_16bit_color, create_16bit_color_argb16,
    create_32bit_color, unpack_32bit_color,
};

#[test]
fn bit16_to_bit5_agrees_with_the_single_precision_product() {
    let factor: f32 = 31.0 / 255.0;
    for num in 0..=u16::MAX {
        assert_eq!(bit16_to_bit5(num), ((num as f32) * factor) as u16);
    }
}

#[test]
fn bit16_to_bit5_truncates() {
    assert_eq!(bit16_to_bit5(0), 0);
    assert_eq!(bit16_to_bit5(8), 0);
    assert_eq!(bit16_to_bit5(9), 1);
    assert_eq!(bit16_to_bit5(128), 15);
    assert_eq!(bit16_to_bit5(254), 30);
    assert_eq!(bit16_to_bit5(255), 31);
    assert_eq!(bit16_to_bit5(256), 31);
    assert_eq!(bit16_to_bit5(65535), 7967);
}

#[test]
fn palette_word_has_red_low_and_blue_high() {
    assert_eq!(create_16bit_color(255, 0, 0, 255), 0x001F);
    assert_eq!(create_16bit_color(0, 255, 0, 255), 0x03E0);
    assert_eq!(create_16bit_color(0, 0, 255, 255), 0x7C00);
    assert_eq!(create_16bit_color(255, 255, 255, 255), 0x7FFF);
    assert_eq!(create_16bit_color(128, 64, 32, 0), 15 | (7 << 5) | (3 << 10));
}

#[test]
fn palette_word_ignores_alpha() {
    assert_eq!(create_16bit_color(10, 20, 30, 0), create_16bit_color(10, 20, 30, 255));
    assert_eq!(create_16bit_color(255, 255, 255, 0xFFFF) & 0x8000, 0);
}

#[test]
fn palette_word_of_wide_channels_overlaps() {
    // 65535 scales to 7967, which takes 13 bits and runs into the other fields.
    assert_eq!(create_16bit_color(65535, 0, 0, 0), 7967);
    assert_eq!(create_16bit_color(0, 65535, 0, 0), 7967u16 << 5);
    assert_eq!(create_16bit_color(0, 0, 65535, 0), 7967u16 << 10);
}

#[test]
fn pure_red_is_0x801f() {
    assert_eq!(create_16bit_color_argb16(255, 0, 0, 255), 0x801F);
    assert_eq!(create_16bit_color_argb16(255, 0, 0, 255), 0b1_00000_00000_11111);
}

#[test]
fn truecolor_word_flags_any_alpha_but_zero() {
    assert_eq!(create_16bit_color_argb16(0, 0, 0, 0), 0);
    assert_eq!(create_16bit_color_argb16(0, 0, 0, 1), 0x8000);
    assert_eq!(create_16bit_color_argb16(255, 255, 255, 0), 0x7FFF);
    assert_eq!(create_16bit_color_argb16(255, 255, 255, 128), 0xFFFF);
}

#[test]
fn word_of_32_bits_holds_one_channel_per_byte() {
    assert_eq!(create_32bit_color(0x12, 0x34, 0x56, 0x78), 0x12345678);
    assert_eq!(create_32bit_color(255, 0, 0, 0), 0xFF000000);
    assert_eq!(create_32bit_color(0, 0, 0, 255), 0x000000FF);
}

#[test]
fn word_of_32_bits_masks_each_channel() {
    assert_eq!(create_32bit_color(0x112, 0x234, 0x356, 0x478), 0x12345678);
    assert_eq!(create_32bit_color(0x100, 0x100, 0x100, 0x100), 0);
}

#[test]
fn unpacking_a_32_bit_word_gives_red_first() {
    assert_eq!(unpack_32bit_color(0x12345678), ColorStruct { r: 0x12u8, g: 0x34, b: 0x56, a: 0x78 });
    assert_eq!(unpack_32bit_color(0xFF00FFFF), ColorStruct { r: 0xFFu8, g: 0, b: 0xFF, a: 0xFF });
}

#[test]
fn a_color_is_read_back_from_its_32_bit_word() {
    for value in [0u8, 1, 7, 31, 128, 200, 254, 255] {
        let color: Color = ColorStruct { r: value, g: value ^ 0x55, b: 255 - value, a: value / 2 };
        let word = create_32bit_color(color.r as u32, color.g as u32, color.b as u32, color.a as u32);
        assert_eq!(unpack_32bit_color(word), color);
    }
}

#[test]
fn color_from_and_into_an_array() {
    let color = Color::from([1u8, 2, 3, 4]);
    assert_eq!(color, ColorStruct { r: 1u8, g: 2, b: 3, a: 4 });
    let channels: [u8; 4] = color.into();
    assert_eq!(channels, [1, 2, 3, 4]);
}

#[test]
fn colors_are_equal_by_all_four_channels() {
    let color: Color = ColorStruct { r: 1, g: 2, b: 3, a: 4 };
    assert_eq!(color, color.clone());
    assert_ne!(color, ColorStruct { r: 1u8, g: 2, b: 3, a: 5 });
}

#[test]
fn rgb8_buffer_gives_opaque_colors() {
    let raw = vec![1u8, 2, 3, 4, 5, 6, 7];
    assert_eq!(
        colors_from_rgb8(&raw),
        vec![ColorStruct { r: 1u8, g: 2, b: 3, a: 255 }, ColorStruct { r: 4u8, g: 5, b: 6, a: 255 }]
    );
    assert_eq!(colors_from_rgb8(&vec![9u8, 9]), Vec::<Color>::new());
}
