//! Content-aware image cropping: finds the most visually interesting window
//! of a requested size inside a decoded image and crops to it. Candidate
//! windows are enumerated over a half-overlapping grid, each is scored by the
//! Shannon entropy of its pooled channel-intensity distribution, and the
//! first window of each strict score improvement wins. The enumeration,
//! extraction and selection are verified; the entropy value itself comes from
//! the `entropy` crate behind a stated interface.

pub mod buffer;
pub mod cropper;
pub mod region;
pub mod scorer;
pub mod select;

pub use buffer::PixelBuffer;
pub use cropper::{CropError, SmartCropper};
pub use region::Region;
