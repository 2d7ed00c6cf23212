//! Decision engine of an adaptive image re-encoder: which format a file is,
//! how large it becomes, which encoder settings a quality dial selects, which
//! JPEG candidate wins, and how untrusted upload items are vetted.
use vstd::prelude::*;

pub mod config;
pub mod exif;
pub mod format;
pub mod jpeg;
pub mod png;
pub mod resize;
pub mod sanitize;
pub mod scratch;
pub mod upload;

verus! {

} // verus!
