use tilepack::basic_types::{ColorStruct, Vector2};
use tilepack::image_settings::{BitsPerPixel, OutputType, TileCLI, TileSettings};

#[test]
fn bit_depth_from_and_to_its_number() {
    assert_eq!(BitsPerPixel::from_num(4), BitsPerPixel::Bpp4);
    assert_eq!(BitsPerPixel::from_num(8), BitsPerPixel::Bpp8);
    assert_eq!(BitsPerPixel::from_num(16), BitsPerPixel::Bpp16);
    assert_eq!(BitsPerPixel::from(4), BitsPerPixel::Bpp4);
    assert_eq!(BitsPerPixel::from(8), BitsPerPixel::Bpp8);
    assert_eq!(BitsPerPixel::from(16), BitsPerPixel::Bpp16);
    assert_eq!(BitsPerPixel::Bpp4.to_num(), 4);
    assert_eq!(BitsPerPixel::Bpp8.to_num(), 8);
    assert_eq!(BitsPerPixel::Bpp16.to_num(), 16);
}

#[test]
fn palette_limit_of_each_depth() {
    assert_eq!(BitsPerPixel::Bpp4.get_max_palette_length(), 16);
    assert_eq!(BitsPerPixel::Bpp8.get_max_palette_length(), 256);
}

#[test]
fn bit_depth_in_words() {
    assert_eq!(BitsPerPixel::Bpp4.to_string(), "Bits per pixel: 4");
    assert_eq!(BitsPerPixel::Bpp8.to_string(), "Bits per pixel: 8");
    assert_eq!(BitsPerPixel::Bpp16.to_string(), "Bits per pixel: 16");
}

#[test]
fn default_settings() {
    let settings = TileSettings::default();
    assert!(settings.bpp == BitsPerPixel::Bpp8);
    assert!(settings.size_per_tile == Vector2 { x: 8, y: 8 });
    assert!(!settings.include_map_data);
    assert!(settings.transparent_color == Some(ColorStruct { r: 0xFF, g: 0, b: 0xFF, a: 0xFF }));
    assert_eq!(settings.starting_palette_index, 0);
    assert!(settings.image_size == Vector2 { x: 0, y: 0 });
    assert!(settings.metatile_size == Vector2 { x: 1, y: 1 });
    assert_eq!(settings.output_name, None);
}

fn command_line() -> TileCLI {
    TileCLI {
        files: vec!["sprite.png".to_string()],
        bpp: 4,
        size_per_tile: vec![8, 16],
        size_per_metatile: vec![2, 4],
        include_map_data: true,
        transparent_color: Some(0xFF00FF80),
        starting_palette_index: 3,
        output_type: OutputType::Raw,
        output_name: Some("out".to_string()),
    }
}

#[test]
fn settings_from_the_command_line() {
    let settings = TileSettings::from(&command_line());
    assert!(settings.bpp == BitsPerPixel::Bpp4);
    assert!(settings.size_per_tile == Vector2 { x: 8, y: 16 });
    assert!(settings.include_map_data);
    assert!(settings.transparent_color == Some(ColorStruct { r: 0xFF, g: 0, b: 0xFF, a: 0x80 }));
    assert_eq!(settings.starting_palette_index, 3);
    assert!(settings.image_size == Vector2 { x: 0, y: 0 });
    assert!(settings.metatile_size == Vector2 { x: 2, y: 4 });
    assert_eq!(settings.output_name, Some("out".to_string()));
}

#[test]
fn settings_without_transparent_color_or_name() {
    let mut asked = command_line();
    asked.bpp = 16;
    asked.transparent_color = None;
    asked.output_name = None;
    let settings = TileSettings::from(&asked);
    assert!(settings.bpp == BitsPerPixel::Bpp16);
    assert!(settings.transparent_color == None);
    assert_eq!(settings.output_name, None);
}

#[test]
fn a_tile_side_is_cut_to_16_bits() {
    let mut asked = command_line();
    asked.size_per_tile = vec![65536 + 8, 65535, 7];
    let settings = TileSettings::from(&asked);
    assert!(settings.size_per_tile == Vector2 { x: 8, y: 65535 });
}
