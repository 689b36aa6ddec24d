use tilepack::basic_types::{Color, ColorStruct, FinishedRawData, TileError, Vector2, Warning};
use tilepack::color_processor::create_16bit_color;
use tilepack::image_processor::process_image;
use tilepack::image_settings::{BitsPerPixel, TileSettings};

fn gray(level: u8) -> Color {
    ColorStruct { r: level, g: level, b: level, a: 255 }
}

fn settings(bpp: BitsPerPixel, image: (usize, usize), tile: (u16, u16), metatile: (usize, usize)) -> TileSettings {
    TileSettings {
        bpp,
        size_per_tile: Vector2::new(tile.0, tile.1),
        transparent_color: None,
        starting_palette_index: 0,
        image_size: Vector2::new(image.0, image.1),
        metatile_size: Vector2::new(metatile.0, metatile.1),
        ..TileSettings::default()
    }
}

/// An image whose pixel at index `i` has the gray level `i`.
fn ramp(count: usize) -> Vec<Color> {
    (0..count).map(|level| gray(level as u8)).collect()
}

#[test]
fn three_colors_in_four_tiles_at_4_bits() {
    let colors = [gray(10), gray(20), gray(30)];
    let data: Vec<Color> = (0..256).map(|i| colors[i % 3]).collect();
    let raw = process_image(data, settings(BitsPerPixel::Bpp4, (16, 16), (8, 8), (1, 1))).unwrap();
    // 4 tiles of 64 pixels, two pixels to a byte: 32 bytes for each tile
    assert_eq!(raw.image_data.len(), 4 * 32);
    assert_eq!(raw.palette_data.len(), 6);
    assert_eq!(raw.warnings, vec![]);
    let word = |color: Color| create_16bit_color(color.r as u16, color.g as u16, color.b as u16, 255);
    let mut palette = Vec::new();
    for color in colors {
        palette.push((word(color) & 0xFF) as u8);
        palette.push((word(color) >> 8) as u8);
    }
    assert_eq!(raw.palette_data, palette);
}

#[test]
fn pure_red_at_16_bits_is_1f_80() {
    let red: Color = ColorStruct { r: 255, g: 0, b: 0, a: 255 };
    let raw = process_image(vec![red; 64], settings(BitsPerPixel::Bpp16, (8, 8), (8, 8), (1, 1))).unwrap();
    assert_eq!(raw.image_data.len(), 128);
    for pixel in raw.image_data.chunks(2) {
        assert_eq!(pixel, [0x1F, 0x80]);
    }
    assert_eq!(raw.palette_data, Vec::<u8>::new());
    assert_eq!(raw.warnings, vec![]);
}

#[test]
fn tiles_are_written_in_the_order_of_the_grid() {
    let raw = process_image(ramp(16), settings(BitsPerPixel::Bpp8, (4, 4), (2, 2), (1, 1))).unwrap();
    assert_eq!(raw.image_data, vec![0, 1, 4, 5, 2, 3, 6, 7, 8, 9, 12, 13, 10, 11, 14, 15]);
}

#[test]
fn tiles_of_a_metatile_are_written_together() {
    // 4 by 4 tiles of one pixel, in metatiles of 2 by 2 tiles
    let raw = process_image(ramp(16), settings(BitsPerPixel::Bpp8, (4, 4), (1, 1), (2, 2))).unwrap();
    assert_eq!(raw.image_data, vec![0, 1, 4, 5, 2, 3, 6, 7, 8, 9, 12, 13, 10, 11, 14, 15]);
    // 2 by 2 tiles of 2 by 2 pixels, all in one metatile: the order of the grid
    let whole = process_image(ramp(16), settings(BitsPerPixel::Bpp8, (4, 4), (2, 2), (2, 2))).unwrap();
    assert_eq!(whole.image_data, vec![0, 1, 4, 5, 2, 3, 6, 7, 8, 9, 12, 13, 10, 11, 14, 15]);
    // 4 by 2 tiles of 2 by 1 pixels, in metatiles of 1 by 2 tiles
    let tall = process_image(ramp(16), settings(BitsPerPixel::Bpp8, (8, 2), (2, 1), (1, 2))).unwrap();
    assert_eq!(tall.image_data, vec![0, 1, 8, 9, 2, 3, 10, 11, 4, 5, 12, 13, 6, 7, 14, 15]);
}

#[test]
fn the_palette_is_built_over_the_whole_image_not_for_each_tile() {
    let data = vec![gray(1), gray(2), gray(3), gray(4), gray(4), gray(3), gray(2), gray(1)];
    let raw = process_image(data, settings(BitsPerPixel::Bpp8, (4, 2), (2, 2), (1, 1))).unwrap();
    assert_eq!(raw.image_data, vec![0, 1, 3, 2, 2, 3, 1, 0]);
    assert_eq!(raw.palette_data.len(), 8);
}

#[test]
fn pixels_past_the_image_count_for_the_palette_only() {
    let data = vec![gray(1), gray(1), gray(1), gray(1), gray(9)];
    let raw = process_image(data, settings(BitsPerPixel::Bpp8, (2, 2), (2, 2), (1, 1))).unwrap();
    assert_eq!(raw.image_data, vec![0, 0, 0, 0]);
    assert_eq!(raw.palette_data.len(), 4);
}

#[test]
fn four_bits_pack_each_tile_by_itself() {
    let data = vec![gray(1), gray(2), gray(3), gray(3), gray(2), gray(1)];
    // two tiles of 3 pixels: each leaves its third pixel out
    let raw = process_image(data, settings(BitsPerPixel::Bpp4, (6, 1), (3, 1), (1, 1))).unwrap();
    assert_eq!(raw.image_data, vec![0x10, 0x12]);
}

#[test]
fn transparent_color_is_the_first_palette_entry() {
    let magenta: Color = ColorStruct { r: 255, g: 0, b: 255, a: 255 };
    let mut wanted = settings(BitsPerPixel::Bpp8, (2, 1), (1, 1), (1, 1));
    wanted.transparent_color = Some(magenta);
    let raw = process_image(vec![gray(255), magenta], wanted).unwrap();
    assert_eq!(raw.image_data, vec![1, 0]);
    assert_eq!(raw.palette_data, vec![0x1F, 0x7C, 0xFF, 0x7F]);
}

#[test]
fn truecolor_pixels_are_not_tiled() {
    let data: Vec<Color> = (0..16).map(|i| ColorStruct { r: (i * 17) as u8, g: 0, b: 0, a: 255 }).collect();
    let raw = process_image(data.clone(), settings(BitsPerPixel::Bpp16, (4, 4), (2, 2), (1, 1))).unwrap();
    let mut wanted = Vec::new();
    for color in &data {
        let word = 0x8000u16 | (color.r as u16 * 31 / 255);
        wanted.push((word & 0xFF) as u8);
        wanted.push((word >> 8) as u8);
    }
    assert_eq!(raw.image_data, wanted);
}

#[test]
fn truecolor_writes_every_pixel_that_was_given() {
    let mut data = vec![gray(255); 4];
    data.push(ColorStruct { r: 0, g: 0, b: 255, a: 0 });
    let raw = process_image(data, settings(BitsPerPixel::Bpp16, (2, 2), (2, 2), (1, 1))).unwrap();
    assert_eq!(raw.image_data, vec![0xFF, 0xFF, 0xFF, 0xFF, 0xFF, 0xFF, 0xFF, 0xFF, 0x00, 0x7C]);
}

#[test]
fn truecolor_knows_no_palette_overflow() {
    let data: Vec<Color> = (0..1024).map(|i| ColorStruct { r: i as u8, g: (i >> 8) as u8, b: 0, a: 255 }).collect();
    let raw = process_image(data, settings(BitsPerPixel::Bpp16, (32, 32), (8, 8), (2, 2))).unwrap();
    assert_eq!(raw.image_data.len(), 2048);
    assert_eq!(raw.palette_data.len(), 0);
}

#[test]
fn fewer_pixels_than_one_tile() {
    let result = process_image(ramp(3), settings(BitsPerPixel::Bpp8, (0, 0), (2, 2), (1, 1)));
    assert_eq!(result, Err(TileError::TooFewPixels));
}

#[test]
fn fewer_pixels_than_the_image() {
    let result = process_image(ramp(15), settings(BitsPerPixel::Bpp8, (4, 4), (2, 2), (1, 1)));
    assert_eq!(result, Err(TileError::TooFewPixels));
    let truecolor = process_image(ramp(15), settings(BitsPerPixel::Bpp16, (4, 4), (2, 2), (1, 1)));
    assert_eq!(truecolor, Err(TileError::TooFewPixels));
}

#[test]
fn image_that_is_not_whole_tiles() {
    let result = process_image(ramp(20), settings(BitsPerPixel::Bpp8, (5, 4), (2, 2), (1, 1)));
    assert_eq!(result, Err(TileError::NotDivisible));
    let truecolor = process_image(ramp(20), settings(BitsPerPixel::Bpp16, (4, 5), (2, 2), (1, 1)));
    assert_eq!(truecolor, Err(TileError::NotDivisible));
}

#[test]
fn tile_without_extent() {
    let result = process_image(ramp(16), settings(BitsPerPixel::Bpp8, (4, 4), (0, 2), (1, 1)));
    assert_eq!(result, Err(TileError::NotDivisible));
}

#[test]
fn grid_that_is_not_whole_metatiles() {
    let result = process_image(ramp(24), settings(BitsPerPixel::Bpp8, (6, 4), (2, 2), (2, 1)));
    assert_eq!(result, Err(TileError::NotDivisible));
    let none = process_image(ramp(16), settings(BitsPerPixel::Bpp8, (4, 4), (2, 2), (0, 1)));
    assert_eq!(none, Err(TileError::NotDivisible));
}

#[test]
fn too_many_colors_for_the_depth() {
    let result = process_image(ramp(64), settings(BitsPerPixel::Bpp4, (8, 8), (8, 8), (1, 1)));
    assert_eq!(result, Err(TileError::PaletteOverflow { length: 64, max: 16 }));
    let wide = process_image(ramp(64), settings(BitsPerPixel::Bpp8, (8, 8), (8, 8), (1, 1)));
    assert!(wide.is_ok());
}

#[test]
fn sizes_are_looked_at_before_the_palette() {
    let result = process_image(ramp(64), settings(BitsPerPixel::Bpp4, (8, 8), (3, 8), (1, 1)));
    assert_eq!(result, Err(TileError::NotDivisible));
}

#[test]
fn starting_index_of_10_with_5_colors_at_4_bits() {
    let data: Vec<Color> = (0..4).map(|i| gray(i as u8)).chain([gray(4); 4]).collect();
    let mut wanted = settings(BitsPerPixel::Bpp4, (4, 2), (2, 2), (1, 1));
    wanted.starting_palette_index = 10;
    let raw = process_image(data.clone(), wanted.clone()).unwrap();
    // the indices are 10 to 14
    assert_eq!(raw.image_data, vec![0xBA, 0xEE, 0xDC, 0xEE]);
    assert_eq!(raw.warnings, vec![]);
    wanted.starting_palette_index = 11;
    let highest = process_image(data.clone(), wanted.clone()).unwrap();
    assert_eq!(highest.image_data, vec![0xCB, 0xFF, 0xED, 0xFF]);
    assert_eq!(highest.warnings, vec![]);
    wanted.starting_palette_index = 13;
    assert_eq!(process_image(data, wanted), Err(TileError::StartingIndexTooHigh));
}

#[test]
fn an_index_that_does_not_fit_is_written_as_zero_with_a_warning_for_its_tile() {
    let data: Vec<Color> = (0..4).map(|i| gray(i as u8)).chain([gray(4); 4]).collect();
    let mut wanted = settings(BitsPerPixel::Bpp4, (4, 2), (2, 2), (1, 1));
    wanted.starting_palette_index = 12;
    // tiles: [0, 1, 4, 4] and [2, 3, 4, 4]; the entry 4 gets the index 16
    let raw = process_image(data, wanted).unwrap();
    assert_eq!(
        raw,
        FinishedRawData {
            image_data: vec![0xDC, 0x00, 0xFE, 0x00],
            palette_data: raw.palette_data.clone(),
            warnings: vec![Warning::TooManyColors { tile: 0 }, Warning::TooManyColors { tile: 1 }],
        }
    );
}

#[test]
fn only_the_tiles_that_lose_an_index_are_warned_about() {
    let data = vec![gray(0), gray(1), gray(2), gray(3), gray(4), gray(0)];
    let mut wanted = settings(BitsPerPixel::Bpp4, (6, 1), (2, 1), (1, 1));
    wanted.starting_palette_index = 12;
    let raw = process_image(data, wanted).unwrap();
    assert_eq!(raw.image_data, vec![0xDC, 0xFE, 0xC0]);
    assert_eq!(raw.warnings, vec![Warning::TooManyColors { tile: 2 }]);
}

#[test]
fn what_was_written_can_be_read_back() {
    let colors: Vec<Color> = (0..12).map(|i| ColorStruct { r: (i * 20) as u8, g: (255 - i * 9) as u8, b: (i * i) as u8, a: 255 }).collect();
    let data: Vec<Color> = (0..64).map(|i| colors[(i * 7 + i / 5) % 12]).collect();
    for (bpp, start) in [(BitsPerPixel::Bpp4, 0u32), (BitsPerPixel::Bpp4, 3), (BitsPerPixel::Bpp8, 0), (BitsPerPixel::Bpp8, 100)] {
        let mut wanted = settings(bpp, (8, 8), (4, 2), (2, 1));
        wanted.starting_palette_index = start;
        let raw = process_image(data.clone(), wanted).unwrap();
        assert_eq!(raw.warnings, vec![]);
        let mut indices = Vec::new();
        for byte in &raw.image_data {
            if bpp == BitsPerPixel::Bpp4 {
                indices.push((byte % 16) as usize);
                indices.push((byte / 16) as usize);
            } else {
                indices.push(*byte as usize);
            }
        }
        assert_eq!(indices.len(), 64);
        // 2 by 4 tiles of 4 by 2 pixels, metatiles of 2 by 1 tiles: the order of the grid
        for (place, index) in indices.iter().enumerate() {
            let (number, offset) = (place / 8, place % 8);
            let row = (number / 2) * 2 + offset / 4;
            let column = (number % 2) * 4 + offset % 4;
            let color = data[row * 8 + column];
            let entry = index - start as usize;
            let word = raw.palette_data[2 * entry] as u16 | (raw.palette_data[2 * entry + 1] as u16) << 8;
            assert_eq!(word, create_16bit_color(color.r as u16, color.g as u16, color.b as u16, 255));
        }
    }
}
