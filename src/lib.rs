//! Per-output, per-workspace wallpaper engine: GPU device selection, output
//! scaling and buffer negotiation decisions, pixel conversion, and the
//! deduplicating wallpaper cache.

pub mod drm;
pub mod output;
pub mod gpu;
pub mod scene;
pub mod feedback;
pub mod compositor;
pub mod pixels;
pub mod config;
