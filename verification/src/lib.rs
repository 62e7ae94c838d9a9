//! Verified core of a layered pixel-art editor: coordinate and rectangle
//! arithmetic, Bresenham line rasterisation, reversible image edits with an
//! undo/redo history, and layer management.

pub mod bresenham;
pub mod color;
pub mod edit;
pub mod image;
pub mod layermanager;
pub mod textureimage;
pub mod tools;
pub mod types;
