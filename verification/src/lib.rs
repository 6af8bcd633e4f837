pub mod arena;
pub mod image;
pub mod rect;
pub mod phys;
pub mod world;
pub mod asset;
pub mod tools;
pub mod stratego;
pub mod block;
pub mod palette;
pub mod words;
pub mod obj;
pub mod mesh;
pub mod glyph;
pub mod snek;
pub mod input;
pub mod render;
pub mod game;
pub mod geometry;
pub mod appearance;
pub mod json_data;
