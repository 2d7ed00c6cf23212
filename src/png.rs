//! Palette-quantisation settings that the PNG quality dial selects.
use vstd::prelude::*;

verus! {

/// Settings for one palette quantisation.
#[derive(Clone, Copy, Debug, PartialEq, Eq)]
pub struct QuantizationPlan {
    /// The requested quality clamped to `10..=100`: the top of the quality window.
    pub target: u8,
    /// How far below `target` the window reaches.
    pub floor_offset: u8,
    /// `target - floor_offset`, stopping at zero: the bottom of the window.
    pub min_quality: u8,
    /// Quantiser search speed (higher is faster).
    pub speed: u8,
    /// Dithering level in hundredths (60 is a level of 0.6).
    pub dither_percent: u8,
}

/// The requested quality clamped to `10..=100`.
pub open spec fn png_target(q: u8) -> int {
    if q < 10 {
        10
    } else if q > 100 {
        100
    } else {
        q as int
    }
}

/// Offset, speed and dithering of the tier that a clamped quality falls in:
/// 80 and up; 60 to 79; below 60.
pub open spec fn png_tier(t: int) -> (int, int, int) {
    if t >= 80 {
        (25, 8, 60)
    } else if t >= 60 {
        (30, 9, 80)
    } else {
        (40, 10, 100)
    }
}

/// Chooses the quantisation settings for a requested PNG quality.
pub fn png_quantization_plan(quality: u8) -> (r: QuantizationPlan)
    ensures
        r.target as int == png_target(quality),
        (r.floor_offset as int, r.speed as int, r.dither_percent as int) == png_tier(r.target as int),
        r.min_quality as int == if r.target >= r.floor_offset {
            r.target - r.floor_offset
        } else {
            0
        },
{
    let target: u8 = if quality < 10 {
        10
    } else if quality > 100 {
        100
    } else {
        quality
    };
    let (floor_offset, speed, dither_percent): (u8, u8, u8) = if target >= 80 {
        (25, 8, 60)
    } else if target >= 60 {
        (30, 9, 80)
    } else {
        (40, 10, 100)
    };
    QuantizationPlan {
        target,
        floor_offset,
        min_quality: target.saturating_sub(floor_offset),
        speed,
        dither_percent,
    }
}

#[verifier::external_type_specification]
#[verifier::external_body]
pub struct ExOptimizerError(oxipng::PngError);

/// Optimiser preset of the lossless pass: fast.
pub const LOSSLESS_PRESET: u8 = 1;

/// Optimiser preset of the pass after quantisation.
pub const QUANTIZED_PRESET: u8 = 2;

/// What oxipng makes of a PNG stream under the preset `preset`.
pub uninterp spec fn png_optimized(data: Seq<u8>, preset: u8) -> Seq<u8>;

/// What oxipng makes of a PNG stream under the preset `preset` with every
/// non-critical chunk stripped.
pub uninterp spec fn png_optimized_stripped(data: Seq<u8>, preset: u8) -> Seq<u8>;

/// Relies on oxipng's `Options::from_preset` and `optimize_from_memory`:
/// `data` recompressed without changing pixels, or an error for a stream it
/// cannot read. A preset sets no timeout, so the result depends on the
/// arguments alone.
#[verifier::external_body]
fn optimize_png(data: &Vec<u8>, preset: u8) -> (r: Result<Vec<u8>, oxipng::PngError>)
    ensures
        r matches Ok(v) ==> v@ == png_optimized(data@, preset),
{
    oxipng::optimize_from_memory(data, &oxipng::Options::from_preset(preset))
}

/// Relies on oxipng's `Options::from_preset`, its `strip` field set to
/// `StripChunks::All`, and `optimize_from_memory`: as `optimize_png`, with
/// all non-critical chunks dropped.
#[verifier::external_body]
fn optimize_png_stripped(data: &Vec<u8>, preset: u8) -> (r: Result<Vec<u8>, oxipng::PngError>)
    ensures
        r matches Ok(v) ==> v@ == png_optimized_stripped(data@, preset),
{
    let mut options = oxipng::Options::from_preset(preset);
    options.strip = oxipng::StripChunks::All;
    oxipng::optimize_from_memory(data, &options)
}

/// Best-effort optimisation: the optimiser's output where it succeeded,
/// else the bytes it was given.
pub fn keep_optimized(data: Vec<u8>, attempt: Result<Vec<u8>, oxipng::PngError>) -> (r: Vec<u8>)
    ensures
        match attempt {
            Ok(v) => r == v,
            Err(_) => r == data,
        },
{
    match attempt {
        Ok(v) => v,
        Err(_) => data,
    }
}

/// The fast structural pass over a full-fidelity PNG; its error is passed on.
pub fn optimize_lossless_png(data: &Vec<u8>) -> (r: Result<Vec<u8>, oxipng::PngError>)
    ensures
        r matches Ok(v) ==> v@ == png_optimized(data@, LOSSLESS_PRESET),
{
    optimize_png(data, LOSSLESS_PRESET)
}

/// The stronger pass over a quantised PNG, stripping all non-critical
/// chunks; where the optimiser fails, the quantised bytes stand as they are.
pub fn optimize_quantized_png(data: Vec<u8>) -> (r: Vec<u8>)
    ensures
        r@ == data@ || r@ == png_optimized_stripped(data@, QUANTIZED_PRESET),
{
    let attempt = optimize_png_stripped(&data, QUANTIZED_PRESET);
    keep_optimized(data, attempt)
}

/// The PLTE and tRNS tables of an indexed PNG.
pub struct PaletteTables {
    /// Red, green and blue of each palette entry, in order.
    pub rgb: Vec<u8>,
    /// Alpha of each palette entry, in order.
    pub alpha: Vec<u8>,
    /// Whether some entry is not fully opaque, so that the tRNS table is written.
    pub has_transparency: bool,
}

/// Whether `t` holds the tables of `palette` (entries as red, green, blue, alpha).
pub open spec fn tables_of(palette: Seq<(u8, u8, u8, u8)>, t: PaletteTables) -> bool {
    &&& t.rgb@.len() == 3 * palette.len()
    &&& t.alpha@.len() == palette.len()
    &&& forall|i: int|
        0 <= i < palette.len() ==> t.rgb@[3 * i] == (#[trigger] palette[i]).0 && t.rgb@[3 * i + 1]
            == palette[i].1 && t.rgb@[3 * i + 2] == palette[i].2 && t.alpha@[i] == palette[i].3
    &&& t.has_transparency == exists|i: int| 0 <= i < palette.len() && palette[i].3 < 255
}

/// Splits a quantised palette into the colour table and the alpha table.
pub fn palette_tables(palette: &Vec<(u8, u8, u8, u8)>) -> (r: PaletteTables)
    requires
        3 * palette@.len() <= usize::MAX,
    ensures
        tables_of(palette@, r),
{
    let mut rgb: Vec<u8> = Vec::new();
    let mut alpha: Vec<u8> = Vec::new();
    let mut has_transparency = false;
    let mut i: usize = 0;
    while i < palette.len()
        invariant
            i <= palette@.len(),
            rgb@.len() == 3 * i,
            alpha@.len() == i,
            forall|k: int|
                0 <= k < i ==> rgb@[3 * k] == (#[trigger] palette@[k]).0 && rgb@[3 * k + 1] == palette@[k].1
                    && rgb@[3 * k + 2] == palette@[k].2 && alpha@[k] == palette@[k].3,
            has_transparency == exists|k: int| 0 <= k < i && palette@[k].3 < 255,
        decreases palette@.len() - i,
    {
        let c = palette[i];
        let ghost prev_rgb = rgb@;
        let ghost prev_alpha = alpha@;
        rgb.push(c.0);
        rgb.push(c.1);
        rgb.push(c.2);
        alpha.push(c.3);
        if c.3 < 255 {
            has_transparency = true;
        }
        assert forall|k: int| 0 <= k < i + 1 implies rgb@[3 * k] == (#[trigger] palette@[k]).0 && rgb@[3 * k
            + 1] == palette@[k].1 && rgb@[3 * k + 2] == palette@[k].2 && alpha@[k]
            == palette@[k].3 by {
            assert(rgb@ == prev_rgb.push(c.0).push(c.1).push(c.2));
            assert(alpha@ == prev_alpha.push(c.3));
            if k < i {
                assert(3 * k + 2 < 3 * i);
                assert(rgb@[3 * k] == prev_rgb[3 * k]);
                assert(rgb@[3 * k + 1] == prev_rgb[3 * k + 1]);
                assert(rgb@[3 * k + 2] == prev_rgb[3 * k + 2]);
                assert(alpha@[k] == prev_alpha[k]);
            } else {
                assert(k == i);
                assert(rgb@[3 * k] == c.0);
            }
        }
        if !has_transparency {
            assert forall|k: int| 0 <= k < i + 1 implies !(palette@[k].3 < 255) by {}
        } else {
            if c.3 < 255 {
                assert(palette@[i as int].3 < 255);
            }
        }
        i = i + 1;
    }
    PaletteTables { rgb, alpha, has_transparency }
}

} // verus!
