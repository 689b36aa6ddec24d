pub mod basic_types;
pub mod color_processor;
pub mod image_model;
pub mod image_processor;
pub mod image_settings;
pub mod packing;
pub mod palette;
pub mod sequences;
pub mod tiling;
