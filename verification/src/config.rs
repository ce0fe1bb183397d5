//! Configuration recognised by the capture core.
//!
//! The on-disk file and the IPC surface deliver configuration as plain
//! strings and numbers; this module holds the typed configuration, its
//! defaults, the validation of the rolling-window length, and the
//! parsing of the string form.  Reading and writing the file itself
//! happens outside the library.

use vstd::prelude::*;

verus! {

/// Encoder quality presets, each a row of the parameter tables.
#[derive(Debug, Clone, Copy, PartialEq, Eq, Structural)]
pub enum QualityPreset {
    Low,
    Medium,
    High,
    Ultra,
}

/// Which hardware video encoder to drive.
#[derive(Debug, Clone, Copy, PartialEq, Eq, Structural)]
pub enum EncoderToUse {
    H264Nvenc,
    H264Vaapi,
}

/// The typed configuration of the capture core.
#[derive(Debug, Clone, Copy, PartialEq, Eq, Structural)]
pub struct AppConfig {
    pub encoder: EncoderToUse,
    pub max_seconds: u32,
    pub use_mic: bool,
    pub quality: QualityPreset,
}

impl Default for AppConfig {
    /// Five minutes of shadow capture through the VAAPI encoder at
    /// medium quality, recording the default sink.
    fn default() -> (r: Self)
        ensures
            r.encoder == EncoderToUse::H264Vaapi,
            r.max_seconds == 300,
            r.use_mic == false,
            r.quality == QualityPreset::Medium,
    {
        Self {
            encoder: EncoderToUse::H264Vaapi,
            max_seconds: 300,
            use_mic: false,
            quality: QualityPreset::Medium,
        }
    }
}

/// The configuration as it crosses the IPC surface: enumerations still
/// in string form.
pub struct AppConfigDbus {
    pub encoder: String,
    pub max_seconds: u32,
    pub use_mic: bool,
    pub quality: String,
}

/// Rejected configuration values.
#[derive(Debug, Clone, Copy, PartialEq, Eq, Structural)]
pub enum ConfigError {
    /// The encoder string names no known encoder.
    UnknownEncoder,
    /// The quality string names no known preset.
    UnknownQuality,
    /// The rolling window exceeds one day.
    WindowTooLong,
}

/// ASCII lowercase of one character; other characters are unchanged.
pub open spec fn lower_char_spec(c: char) -> char {
    if 'A' <= c && c <= 'Z' {
        ((c as u8 + 32) as u8) as char
    } else {
        c
    }
}

/// ASCII lowercase of a character sequence.
pub open spec fn lower_chars(s: Seq<char>) -> Seq<char> {
    s.map(|i: int, c: char| lower_char_spec(c))
}

/// ASCII lowercase of one character.
fn lower_char(c: char) -> (r: char)
    ensures
        r == lower_char_spec(c),
{
    let u = c as u32;
    if 65 <= u && u <= 90 {
        ((u + 32) as u8) as char
    } else {
        c
    }
}

/// Whether `s`, lowered ASCII-wise, equals `t`.
fn matches_lower(s: &str, t: &str) -> (r: bool)
    ensures
        r == (lower_chars(s@) == t@),
{
    let n = s.unicode_len();
    if n != t.unicode_len() {
        proof {
            assert(lower_chars(s@).len() == s@.len());
        }
        return false;
    }
    let mut i: usize = 0;
    while i < n
        invariant
            0 <= i <= n,
            n == s@.len(),
            n == t@.len(),
            forall|j: int| 0 <= j < i ==> lower_char_spec(s@[j]) == t@[j],
        decreases n - i,
    {
        let c = lower_char(s.get_char(i));
        let d = t.get_char(i);
        if c != d {
            proof {
                assert(lower_chars(s@)[i as int] != t@[i as int]);
            }
            return false;
        }
        i = i + 1;
    }
    proof {
        assert(lower_chars(s@) =~= t@);
    }
    true
}

impl AppConfig {
    /// Parses the string form of the configuration.  Encoder and
    /// quality names are matched without regard to ASCII case; an
    /// unknown encoder is reported before an unknown quality.
    pub fn try_from(value: &AppConfigDbus) -> (r: Result<AppConfig, ConfigError>)
        ensures
            match r {
                Ok(c) => {
                    &&& (lower_chars(value.encoder@) == "h264_nvenc"@ && c.encoder
                        == EncoderToUse::H264Nvenc) || (lower_chars(value.encoder@)
                        == "h264_vaapi"@ && c.encoder == EncoderToUse::H264Vaapi)
                    &&& (lower_chars(value.quality@) == "low"@ && c.quality == QualityPreset::Low)
                        || (lower_chars(value.quality@) == "medium"@ && c.quality
                        == QualityPreset::Medium) || (lower_chars(value.quality@) == "high"@
                        && c.quality == QualityPreset::High) || (lower_chars(value.quality@)
                        == "ultra"@ && c.quality == QualityPreset::Ultra)
                    &&& c.max_seconds == value.max_seconds
                    &&& c.use_mic == value.use_mic
                },
                Err(ConfigError::UnknownEncoder) => lower_chars(value.encoder@) != "h264_nvenc"@
                    && lower_chars(value.encoder@) != "h264_vaapi"@,
                Err(ConfigError::UnknownQuality) => {
                    &&& (lower_chars(value.encoder@) == "h264_nvenc"@ || lower_chars(
                        value.encoder@,
                    ) == "h264_vaapi"@)
                    &&& lower_chars(value.quality@) != "low"@
                    &&& lower_chars(value.quality@) != "medium"@
                    &&& lower_chars(value.quality@) != "high"@
                    &&& lower_chars(value.quality@) != "ultra"@
                },
                Err(_) => false,
            },
    {
        let encoder = if matches_lower(value.encoder.as_str(), "h264_nvenc") {
            EncoderToUse::H264Nvenc
        } else if matches_lower(value.encoder.as_str(), "h264_vaapi") {
            EncoderToUse::H264Vaapi
        } else {
            return Err(ConfigError::UnknownEncoder);
        };

        let quality = if matches_lower(value.quality.as_str(), "low") {
            QualityPreset::Low
        } else if matches_lower(value.quality.as_str(), "medium") {
            QualityPreset::Medium
        } else if matches_lower(value.quality.as_str(), "high") {
            QualityPreset::High
        } else if matches_lower(value.quality.as_str(), "ultra") {
            QualityPreset::Ultra
        } else {
            return Err(ConfigError::UnknownQuality);
        };

        Ok(
            AppConfig {
                encoder,
                max_seconds: value.max_seconds,
                use_mic: value.use_mic,
                quality,
            },
        )
    }
}

/// Validates the rolling-window length and scales it to microseconds.
/// Anything above one day of shadow capture is rejected.
pub fn shadow_window_micros(max_seconds: u32) -> (r: Result<u64, ConfigError>)
    ensures
        max_seconds <= 86400 <==> r is Ok,
        r is Ok ==> r.unwrap() == max_seconds as u64 * 1_000_000,
        r is Err ==> r == Err::<u64, ConfigError>(ConfigError::WindowTooLong),
{
    if max_seconds > 86400 {
        Err(ConfigError::WindowTooLong)
    } else {
        Ok(max_seconds as u64 * 1_000_000)
    }
}

} // verus!
