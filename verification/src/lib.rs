//! The verified core of a window backend that redraws only what changed.

pub mod atlas;
pub mod bits;
pub mod collections;
pub mod convert;
pub mod damage;
pub mod damage_laws;
pub mod dispatcher;
pub mod display;
pub mod event_laws;
pub mod events;
pub mod filters;
pub mod fraction;
pub mod fx;
pub mod geom;
pub mod input;
pub mod keyboard;
pub mod outcome;
pub mod paint_laws;
pub mod path;
pub mod platform;
pub mod pool;
pub mod raster;
pub mod region;
pub mod renderer;
pub mod scene;
pub mod scene_laws;
pub mod snapshot;
pub mod spatial;
pub mod stats;
pub mod text;
pub mod translate;
pub mod window;
