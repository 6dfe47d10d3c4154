//! Sprite-atlas toolkit: a MaxRects bin packer, a transparent-border
//! trimmer, a grid auto-detector and a Cocos2d-x Format-3 plist emitter.

pub mod area;
pub mod compose;
pub mod detect;
pub mod geom;
pub mod hash;
pub mod job;
pub mod numfmt;
pub mod packer;
pub mod plist;
pub mod raster;
pub mod split;
pub mod trim;
pub mod types;
