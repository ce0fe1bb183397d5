//! Parameter tables of the hardware video encoders.
//!
//! Each quality preset maps to one row of concrete encoder settings;
//! the caller renders the numbers into the option strings the encoder
//! library expects.

use vstd::prelude::*;

use crate::config::QualityPreset;

verus! {

/// One row of the NVENC table: the speed/quality preset tier, the
/// constant-quality level, and the target bitrate in megabits per
/// second.
#[derive(Debug, Clone, Copy, PartialEq, Eq, Structural)]
pub struct NvencParams {
    pub preset_level: u8,
    pub cq: u8,
    pub bitrate_mbps: u32,
}

/// The NVENC parameters of a quality preset.
pub fn nvenc_params(quality: QualityPreset) -> (r: NvencParams)
    ensures
        r == match quality {
            QualityPreset::Low => NvencParams { preset_level: 2, cq: 30, bitrate_mbps: 20 },
            QualityPreset::Medium => NvencParams { preset_level: 4, cq: 25, bitrate_mbps: 40 },
            QualityPreset::High => NvencParams { preset_level: 7, cq: 20, bitrate_mbps: 80 },
            QualityPreset::Ultra => NvencParams { preset_level: 7, cq: 15, bitrate_mbps: 120 },
        },
{
    match quality {
        QualityPreset::Low => NvencParams { preset_level: 2, cq: 30, bitrate_mbps: 20 },
        QualityPreset::Medium => NvencParams { preset_level: 4, cq: 25, bitrate_mbps: 40 },
        QualityPreset::High => NvencParams { preset_level: 7, cq: 20, bitrate_mbps: 80 },
        QualityPreset::Ultra => NvencParams { preset_level: 7, cq: 15, bitrate_mbps: 120 },
    }
}

/// The VAAPI constant-quantiser value of a quality preset.
pub fn vaapi_qp(quality: QualityPreset) -> (r: u8)
    ensures
        r == match quality {
            QualityPreset::Low => 30u8,
            QualityPreset::Medium => 25u8,
            QualityPreset::High => 20u8,
            QualityPreset::Ultra => 15u8,
        },
{
    match quality {
        QualityPreset::Low => 30,
        QualityPreset::Medium => 25,
        QualityPreset::High => 20,
        QualityPreset::Ultra => 15,
    }
}

} // verus!
