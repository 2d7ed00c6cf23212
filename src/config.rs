//! One operation's compression policy, and the encoder work it selects.
use vstd::prelude::*;
use crate::format::ImageKind;
use crate::png::{png_quantization_plan, png_target, png_tier, QuantizationPlan};

verus! {

/// The policy shared by every item of one operation.
#[derive(Clone, Copy, Debug, PartialEq, Eq)]
pub struct CompressionConfig {
    pub lossless: bool,
    pub quality_jpg: u8,
    pub quality_webp: u8,
    pub quality_png: u8,
    pub preserve_exif: bool,
    pub resize_width: Option<u32>,
    pub resize_height: Option<u32>,
}

/// The encoder work for one image.
#[derive(Clone, Copy, Debug, PartialEq, Eq)]
pub enum EncodePlan {
    /// Full-fidelity PNG, then a fast structural optimiser pass.
    PngLossless,
    /// Palette quantisation, then an optimiser pass that strips all
    /// non-essential chunks; an optimiser failure keeps the quantised bytes.
    PngQuantized(QuantizationPlan),
    /// JPEG at quality 100.
    JpegMaximum,
    /// The JPEG quality search around the requested quality.
    JpegSearch { quality: u8 },
    /// Lossless WebP.
    WebPLossless,
    /// Lossy WebP at the requested quality with the fixed profile.
    WebPLossy { quality: u8 },
}

/// Whether `p` is the plan owed to an image of kind `kind` under `c`.
pub open spec fn is_plan_for(kind: ImageKind, c: CompressionConfig, p: EncodePlan) -> bool {
    match kind {
        ImageKind::Png => if c.lossless {
            p == EncodePlan::PngLossless
        } else {
            p matches EncodePlan::PngQuantized(q) && q.target as int == png_target(c.quality_png)
                && (q.floor_offset as int, q.speed as int, q.dither_percent as int) == png_tier(
                q.target as int,
            ) && q.min_quality as int == if q.target >= q.floor_offset {
                q.target - q.floor_offset
            } else {
                0
            }
        },
        ImageKind::Jpeg => if c.lossless {
            p == EncodePlan::JpegMaximum
        } else {
            p == EncodePlan::JpegSearch { quality: c.quality_jpg }
        },
        ImageKind::WebP => if c.lossless {
            p == EncodePlan::WebPLossless
        } else {
            p == EncodePlan::WebPLossy { quality: c.quality_webp }
        },
    }
}

/// Selects the encoder work for an image of kind `kind` under `config`.
pub fn plan_encoding(kind: ImageKind, config: &CompressionConfig) -> (r: EncodePlan)
    ensures
        is_plan_for(kind, *config, r),
{
    match kind {
        ImageKind::Png => if config.lossless {
            EncodePlan::PngLossless
        } else {
            EncodePlan::PngQuantized(png_quantization_plan(config.quality_png))
        },
        ImageKind::Jpeg => if config.lossless {
            EncodePlan::JpegMaximum
        } else {
            EncodePlan::JpegSearch { quality: config.quality_jpg }
        },
        ImageKind::WebP => if config.lossless {
            EncodePlan::WebPLossless
        } else {
            EncodePlan::WebPLossy { quality: config.quality_webp }
        },
    }
}

/// Whether the original's EXIF segment is carried into the output: only
/// for JPEG, and only when asked for.
pub fn reattaches_exif(kind: ImageKind, config: &CompressionConfig) -> (r: bool)
    ensures
        r == (config.preserve_exif && kind == ImageKind::Jpeg),
{
    config.preserve_exif && kind == ImageKind::Jpeg
}

} // verus!
