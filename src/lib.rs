//! Decoding of GameCube game assets: disc and archive containers, typed
//! binary records, display-list topology and tiled pixel formats.

pub mod error;
pub mod reader;
pub mod disc;
pub mod gx;
pub mod texture;
pub mod pak;
pub mod cskr;
pub mod cinf;
pub mod cmdl;
pub mod ancs;
pub mod mesh;
pub mod gltf;
