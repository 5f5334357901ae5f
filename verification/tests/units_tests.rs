use codecophony::units::{micros_to_frames, micros_to_frames_ceil, micros_to_frames_floor,
    frames_to_micros, EngineConfig};

#[test]
fn half_second_at_cd_rate() {
    assert_eq!(micros_to_frames(500_000, 44100), 22050);
    assert_eq!(frames_to_micros(22050, 44100), 500_000);
}

#[test]
fn rounding_is_to_nearest_half_away_from_zero() {
    // 50 us at 10 kHz is exactly half a frame.
    assert_eq!(micros_to_frames(50, 10_000), 1);
    assert_eq!(micros_to_frames(-50, 10_000), -1);
    assert_eq!(micros_to_frames(49, 10_000), 0);
    assert_eq!(micros_to_frames(-49, 10_000), 0);
    // 1 us at 44.1 kHz is far below half a frame.
    assert_eq!(micros_to_frames(1, 44100), 0);
}

#[test]
fn ceil_and_floor_conversions() {
    assert_eq!(micros_to_frames_ceil(1, 44100), 1);
    assert_eq!(micros_to_frames_floor(1, 44100), 0);
    assert_eq!(micros_to_frames_ceil(1_500, 1000), 2);
    assert_eq!(micros_to_frames_floor(1_500, 1000), 1);
    assert_eq!(micros_to_frames_ceil(-1_500, 1000), -1);
    assert_eq!(micros_to_frames_floor(-1_500, 1000), -2);
    assert_eq!(micros_to_frames_ceil(2_000, 1000), 2);
    assert_eq!(micros_to_frames_floor(2_000, 1000), 2);
}

#[test]
fn fade_windows_at_cd_rate() {
    let cfg = EngineConfig { sample_hz: 44100, frames_per_buffer: 256 };
    assert_eq!(cfg.fadein_frames(), 441);
    assert_eq!(cfg.fadeout_frames(), 11025);
}

#[test]
fn fade_windows_never_collapse() {
    let cfg = EngineConfig { sample_hz: 100, frames_per_buffer: 1 };
    assert_eq!(cfg.fadein_frames(), 1);
    assert_eq!(cfg.fadeout_frames(), 25);
}
