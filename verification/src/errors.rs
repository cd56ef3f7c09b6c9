//! The validation errors the filters report.  Each bounded parameter that
//! falls outside its documented range yields one of these before any pixel
//! is touched; the pipeline driver aborts the remaining steps on any of
//! them.

use vstd::prelude::*;

verus! {

#[derive(Clone, Copy, PartialEq, Eq, Structural, Debug)]
pub enum FxError {
    /// The saturation factor must be non-negative.
    SaturationFactorNegative,
    /// The noise intensity must lie between 0 and 1.
    NoiseIntensityOutOfRange,
    /// The brightness factor must lie between 0 and 2.
    BrightnessFactorOutOfRange,
    /// The target color name is not in the color table.
    UnknownTargetColor,
    /// The replacement color name is not in the color table.
    UnknownReplacementColor,
    /// Dithering needs at least two quantization levels.
    DitherLevelsTooSmall,
    /// Only quarter-turn rotations are valid.
    InvalidRotationAngle,
    /// The glitch direction must be "vertical" or "horizontal".
    InvalidGlitchDirection,
    /// The wind strength must be at least one sample.
    WindStrengthZero,
    /// The pixelation block size must be at least one pixel.
    PixelateBlockZero,
    /// The oil-painting filter needs between 1 and 255 intensity buckets.
    OilPaintingLevelsOutOfRange,
    /// Scan lines need a positive thickness-plus-spacing period.
    ScanLinePeriodZero,
    /// A glitch band cannot be drawn on an image with no pixels.
    GlitchOnEmptyImage,
}

impl FxError {
    /// A short description, for the pipeline driver to report.
    pub fn describe(&self) -> &'static str {
        match self {
            FxError::SaturationFactorNegative => "Saturation factor must be non-negative",
            FxError::NoiseIntensityOutOfRange => "Noise intensity must be between 0.0 and 1.0",
            FxError::BrightnessFactorOutOfRange => "Brightness factor must be between 0.0 and 2.0",
            FxError::UnknownTargetColor => "Invalid target color",
            FxError::UnknownReplacementColor => "Invalid replacement color",
            FxError::DitherLevelsTooSmall => "Levels must be at least 2",
            FxError::InvalidRotationAngle => "Invalid angle specified",
            FxError::InvalidGlitchDirection => "Invalid direction. Use 'vertical', 'horizontal'.",
            FxError::WindStrengthZero => "Wind strength must be at least 1",
            FxError::PixelateBlockZero => "Block size must be at least 1",
            FxError::OilPaintingLevelsOutOfRange => "Intensity levels must be between 1 and 255",
            FxError::ScanLinePeriodZero => "Line thickness plus spacing must be at least 1",
            FxError::GlitchOnEmptyImage => "Cannot glitch an empty image",
        }
    }
}

} // verus!
