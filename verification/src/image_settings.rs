use crate::basic_types::{Color, ColorStruct, Vector2};
use crate::color_processor::{color_of_rgba8888, unpack_32bit_color};
use vstd::prelude::*;

verus! {

/// How many bits one pixel takes in the output. 4 and 8 bits hold an index
/// into a palette, 16 bits hold the color itself.
#[derive(Debug, Clone, Copy, PartialEq, Eq, Structural, PartialOrd, Ord)]
pub enum BitsPerPixel {
    Bpp4,
    Bpp8,
    Bpp16,
}

impl BitsPerPixel {
    /// The number of bits.
    pub open spec fn bits(self) -> int {
        match self {
            BitsPerPixel::Bpp4 => 4,
            BitsPerPixel::Bpp8 => 8,
            BitsPerPixel::Bpp16 => 16,
        }
    }

    /// The pixels are indices into a palette.
    pub open spec fn has_palette(self) -> bool {
        self != BitsPerPixel::Bpp16
    }

    /// The most colors a palette of this depth can hold. It has no meaning
    /// for a depth without a palette, where it is 0.
    pub open spec fn max_palette_length(self) -> int {
        match self {
            BitsPerPixel::Bpp4 => 16,
            BitsPerPixel::Bpp8 => 256,
            BitsPerPixel::Bpp16 => 0,
        }
    }

    /// The largest index that one pixel of this depth can hold.
    pub open spec fn max_index(self) -> int {
        match self {
            BitsPerPixel::Bpp4 => 0xF,
            BitsPerPixel::Bpp8 => 0xFF,
            BitsPerPixel::Bpp16 => 0xFFFF,
        }
    }

    /// `bpp` is one of the three depths.
    pub open spec fn is_bit_depth(bpp: int) -> bool {
        bpp == 4 || bpp == 8 || bpp == 16
    }

    pub fn from_num(bpp: usize) -> (depth: Self)
        requires
            Self::is_bit_depth(bpp as int),
        ensures
            depth.bits() == bpp,
    {
        if bpp == 4 {
            BitsPerPixel::Bpp4
        } else if bpp == 8 {
            BitsPerPixel::Bpp8
        } else {
            BitsPerPixel::Bpp16
        }
    }

    pub fn to_num(&self) -> (bpp: usize)
        ensures
            bpp == self.bits(),
    {
        match self {
            BitsPerPixel::Bpp4 => 4,
            BitsPerPixel::Bpp8 => 8,
            BitsPerPixel::Bpp16 => 16,
        }
    }

    pub fn get_max_palette_length(&self) -> (length: usize)
        requires
            self.has_palette(),
        ensures
            length == self.max_palette_length(),
    {
        match self {
            BitsPerPixel::Bpp4 => 16,
            _ => 256,
        }
    }

    /// The depth in words.
    pub fn to_string(&self) -> (text: String)
        ensures
            text@ == (match self {
                BitsPerPixel::Bpp4 => "Bits per pixel: 4"@,
                BitsPerPixel::Bpp8 => "Bits per pixel: 8"@,
                BitsPerPixel::Bpp16 => "Bits per pixel: 16"@,
            }),
    {
        match self {
            BitsPerPixel::Bpp4 => "Bits per pixel: 4".to_owned(),
            BitsPerPixel::Bpp8 => "Bits per pixel: 8".to_owned(),
            BitsPerPixel::Bpp16 => "Bits per pixel: 16".to_owned(),
        }
    }

    /// The depth of this many bits.
    pub fn from(value: u8) -> (depth: Self)
        requires
            Self::is_bit_depth(value as int),
        ensures
            depth.bits() == value,
    {
        if value == 4 {
            BitsPerPixel::Bpp4
        } else if value == 8 {
            BitsPerPixel::Bpp8
        } else {
            BitsPerPixel::Bpp16
        }
    }
}

#[derive(Clone, PartialEq, Eq, PartialOrd, Ord)]
pub struct TileSettings {
    pub bpp: BitsPerPixel,
    pub size_per_tile: Vector2<u16>,
    pub include_map_data: bool,
    pub transparent_color: Option<Color>,
    pub starting_palette_index: u32,
    pub image_size: Vector2<usize>,
    pub metatile_size: Vector2<usize>,
    pub output_name: Option<String>,
}

/// The form in which the data are written.
#[derive(Debug, Clone, Copy, PartialEq, Eq, Structural)]
pub enum OutputType {
    Raw,
    ImprF,
}

/// What was asked for on the command line, as plain values.
#[derive(Debug, Clone, PartialEq, Eq)]
pub struct TileCLI {
    /// The files to process
    pub files: Vec<String>,
    /// Bits per pixel that the image will be. 4 & 8 bits per pixel are paletted, while 16 is truecolor mode
    pub bpp: u8,
    /// The size of each basic tile
    pub size_per_tile: Vec<usize>,
    /// The size of each metatile (useful for keeping sprites that are larger than the basic tile size together)
    pub size_per_metatile: Vec<usize>,
    /// If the map data (order in which the tiles are placed) should be included with the other data
    pub include_map_data: bool,
    /// The transparent color to use (will be first in the palette)
    pub transparent_color: Option<u32>,
    /// The starting index of the palette
    pub starting_palette_index: u32,
    /// The output type for the data
    pub output_type: OutputType,
    /// Output filename for the data (only works if you have one file)
    pub output_name: Option<String>,
}

impl TileCLI {
    /// The values can be made into settings: the depth is one of the three,
    /// and both sizes have their two numbers.
    pub open spec fn is_complete(self) -> bool {
        &&& BitsPerPixel::is_bit_depth(self.bpp as int)
        &&& self.size_per_tile@.len() >= 2
        &&& self.size_per_metatile@.len() >= 2
    }
}

impl TileSettings {
    /// The settings that the command line asks for. The size of the image is
    /// not known yet and is left at zero. A tile's sides are cut to 16 bits.
    pub fn from(value: &TileCLI) -> (settings: Self)
        requires
            value.is_complete(),
        ensures
            settings.bpp.bits() == value.bpp,
            settings.size_per_tile.x == value.size_per_tile@[0] as u16,
            settings.size_per_tile.y == value.size_per_tile@[1] as u16,
            settings.include_map_data == value.include_map_data,
            settings.transparent_color == (match value.transparent_color {
                Some(packed) => Some(color_of_rgba8888(packed)),
                None => None,
            }),
            settings.starting_palette_index == value.starting_palette_index,
            settings.image_size == (Vector2::<usize> { x: 0, y: 0 }),
            settings.metatile_size.x == value.size_per_metatile@[0],
            settings.metatile_size.y == value.size_per_metatile@[1],
            settings.output_name == value.output_name,
    {
        Self {
            bpp: BitsPerPixel::from(value.bpp),
            size_per_tile: Vector2 {
                x: #[verifier::truncate]
                (value.size_per_tile[0] as u16),
                y: #[verifier::truncate]
                (value.size_per_tile[1] as u16),
            },
            include_map_data: value.include_map_data,
            transparent_color: {
                match value.transparent_color {
                    Some(value) => {
                        // Red is the highest byte
                        Some(unpack_32bit_color(value))
                    },
                    None => None,
                }
            },
            starting_palette_index: value.starting_palette_index,
            image_size: Vector2 { x: 0, y: 0 },
            metatile_size: Vector2 { x: value.size_per_metatile[0], y: value.size_per_metatile[1] },
            output_name: value.output_name.clone(),
        }
    }

    /// The extent of one tile.
    pub open spec fn tile_extent(self) -> Vector2<usize> {
        Vector2 { x: self.size_per_tile.x as usize, y: self.size_per_tile.y as usize }
    }

    /// The number of pixels of one tile.
    pub open spec fn tile_area(self) -> int {
        self.size_per_tile.x * self.size_per_tile.y
    }

    /// The extent of the image, counted in tiles.
    pub open spec fn grid_extent(self) -> Vector2<usize> {
        Vector2 {
            x: (self.image_size.x as int / self.size_per_tile.x as int) as usize,
            y: (self.image_size.y as int / self.size_per_tile.y as int) as usize,
        }
    }
}

impl Default for TileSettings {
    fn default() -> (settings: Self)
        ensures
            settings.bpp == BitsPerPixel::Bpp8,
            settings.size_per_tile == (Vector2::<u16> { x: 8, y: 8 }),
            !settings.include_map_data,
            settings.transparent_color == Some(
                ColorStruct::<u8> { r: 0xFF, g: 0, b: 0xFF, a: 0xFF },
            ),
            settings.starting_palette_index == 0,
            settings.image_size == (Vector2::<usize> { x: 0, y: 0 }),
            settings.metatile_size == (Vector2::<usize> { x: 1, y: 1 }),
            settings.output_name is None,
    {
        TileSettings {
            bpp: BitsPerPixel::Bpp8,
            size_per_tile: Vector2 { x: 8, y: 8 },
            include_map_data: false,
            transparent_color: Some(ColorStruct { r: 0xFF, g: 0, b: 0xFF, a: 0xFF }),
            starting_palette_index: 0,
            image_size: Vector2 { x: 0, y: 0 },
            metatile_size: Vector2 { x: 1, y: 1 },
            output_name: None,
        }
    }
}

} // verus!
