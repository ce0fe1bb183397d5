use waycap_core::config::{
    shadow_window_micros, AppConfig, AppConfigDbus, ConfigError, EncoderToUse, QualityPreset,
};
use waycap_core::encoder_params::{nvenc_params, vaapi_qp, NvencParams};

fn dbus_config(encoder: &str, quality: &str) -> AppConfigDbus {
    AppConfigDbus {
        encoder: encoder.to_string(),
        max_seconds: 120,
        use_mic: true,
        quality: quality.to_string(),
    }
}

#[test]
fn test_default_config() {
    let c = AppConfig::default();
    assert_eq!(c.encoder, EncoderToUse::H264Vaapi);
    assert_eq!(c.max_seconds, 300);
    assert!(!c.use_mic);
    assert_eq!(c.quality, QualityPreset::Medium);
}

#[test]
fn test_try_from_accepts_mixed_case() {
    let c = AppConfig::try_from(&dbus_config("H264_NVENC", "Ultra")).unwrap();
    assert_eq!(c.encoder, EncoderToUse::H264Nvenc);
    assert_eq!(c.quality, QualityPreset::Ultra);
    assert_eq!(c.max_seconds, 120);
    assert!(c.use_mic);

    let c = AppConfig::try_from(&dbus_config("h264_vaapi", "low")).unwrap();
    assert_eq!(c.encoder, EncoderToUse::H264Vaapi);
    assert_eq!(c.quality, QualityPreset::Low);
}

#[test]
fn test_try_from_unknown_encoder() {
    assert_eq!(
        AppConfig::try_from(&dbus_config("h265_hevc", "low")),
        Err(ConfigError::UnknownEncoder)
    );
}

#[test]
fn test_try_from_unknown_quality() {
    assert_eq!(
        AppConfig::try_from(&dbus_config("h264_nvenc", "best")),
        Err(ConfigError::UnknownQuality)
    );
}

#[test]
fn test_window_micros_bounds() {
    assert_eq!(shadow_window_micros(300), Ok(300_000_000));
    assert_eq!(shadow_window_micros(86400), Ok(86_400_000_000));
    assert_eq!(shadow_window_micros(86401), Err(ConfigError::WindowTooLong));
}

#[test]
fn test_nvenc_parameter_table() {
    assert_eq!(
        nvenc_params(QualityPreset::Low),
        NvencParams {
            preset_level: 2,
            cq: 30,
            bitrate_mbps: 20
        }
    );
    assert_eq!(
        nvenc_params(QualityPreset::Medium),
        NvencParams {
            preset_level: 4,
            cq: 25,
            bitrate_mbps: 40
        }
    );
    assert_eq!(
        nvenc_params(QualityPreset::High),
        NvencParams {
            preset_level: 7,
            cq: 20,
            bitrate_mbps: 80
        }
    );
    assert_eq!(
        nvenc_params(QualityPreset::Ultra),
        NvencParams {
            preset_level: 7,
            cq: 15,
            bitrate_mbps: 120
        }
    );
}

#[test]
fn test_vaapi_parameter_table() {
    assert_eq!(vaapi_qp(QualityPreset::Low), 30);
    assert_eq!(vaapi_qp(QualityPreset::Medium), 25);
    assert_eq!(vaapi_qp(QualityPreset::High), 20);
    assert_eq!(vaapi_qp(QualityPreset::Ultra), 15);
}
