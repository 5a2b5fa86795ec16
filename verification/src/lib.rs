//! Discrete core of a two-dimensional particle sandbox.

pub mod single;
pub mod area;
pub mod particle;
pub mod cpu_physics;
pub mod material;
pub mod params;
pub mod forces;
pub mod bonds;
pub mod ports;
pub mod contacts;
pub mod tools;
pub mod settle;
pub mod compact;
pub mod archive;
pub mod spawn;
pub mod growth;
pub mod source;
pub mod input;
pub mod frame;
pub mod thumbnail;
pub mod palette;
pub mod capacity;
pub mod device;
pub mod preview;
pub mod catalog;
pub mod panels;
pub mod compute;
