use genpack_install::display::{
    desired_kms_scale, parse_drm_mode, primary_drm_resolution, scale_for, speaks_japanese,
    Connector, DisplaySettings, DisplayWait, Look,
};

fn by_singles(h: u32) -> f32 {
    ((h as f32 / 720.0).clamp(1.0, 4.0) * 100.0).round() / 100.0
}

#[test]
fn scale_agrees_with_single_precision() {
    for h in 0..=20_000u32 {
        assert_eq!(scale_for(h) as f32 / 100.0, by_singles(h), "{}", h);
    }
    for h in [1 << 24, (1 << 24) + 1, u32::MAX - 1, u32::MAX] {
        assert_eq!(scale_for(h) as f32 / 100.0, by_singles(h), "{}", h);
    }
}

#[test]
fn scale_of_common_displays() {
    assert_eq!(scale_for(480), 100);
    assert_eq!(scale_for(720), 100);
    assert_eq!(scale_for(768), 107);
    assert_eq!(scale_for(846), 117);
    assert_eq!(scale_for(1080), 150);
    assert_eq!(scale_for(1200), 167);
    assert_eq!(scale_for(1440), 200);
    assert_eq!(scale_for(2160), 300);
    assert_eq!(scale_for(2880), 400);
    assert_eq!(scale_for(4320), 400);
}

#[test]
fn scale_shows_the_design_height() {
    for h in 720..=2880i64 {
        let off = 720 * scale_for(h as u32) as i64 - 100 * h;
        assert!(-360 <= off && off <= 360);
    }
}

#[test]
fn modes_are_read() {
    assert_eq!(parse_drm_mode("1920x1080"), Some((1920, 1080)));
    assert_eq!(parse_drm_mode(" 1920x1080i\n"), Some((1920, 1080)));
    assert_eq!(parse_drm_mode("1920x1080x60"), None);
    assert_eq!(parse_drm_mode("1920"), None);
    assert_eq!(parse_drm_mode("x1080"), None);
    assert_eq!(parse_drm_mode("1920xi"), None);
    assert_eq!(parse_drm_mode("1920 x1080"), None);
    assert_eq!(parse_drm_mode("4294967296x1"), None);
    assert_eq!(parse_drm_mode("4294967295x0"), Some((4294967295, 0)));
    assert_eq!(parse_drm_mode(""), None);
}

fn connector(name: &str, status: Option<&str>, modes: Option<&str>) -> Connector {
    Connector {
        name: name.to_string(),
        status: status.map(|s| s.to_string()),
        modes: modes.map(|s| s.to_string()),
    }
}

#[test]
fn largest_connected_display_counts() {
    let all = Some(vec![
        connector("card0", Some("connected\n"), Some("9999x9999\n")),
        connector("version-1", Some("connected\n"), Some("9999x9999\n")),
        connector("card0-DP-1", Some("disconnected\n"), Some("9999x9999\n")),
        connector("card0-DP-2", None, Some("9999x9999\n")),
        connector("card0-DP-3", Some("connected\n"), None),
        connector("card0-DP-4", Some("connected\n"), Some("")),
        connector("card0-DP-5", Some("connected\n"), Some("bad\n9999x9999\n")),
        connector("card0-HDMI-A-1", Some("connected\n"), Some("1920x1080\n4000x4000\n")),
        connector("card1-DP-1", Some(" connected "), Some("1080x1920\n")),
        connector("card1-DP-2", Some("connected"), Some("1024x768")),
    ]);
    assert_eq!(primary_drm_resolution(&all), Some((1920, 1080)));
    let more = Some(vec![
        connector("card0-A-1", Some("connected"), Some("0x0")),
        connector("card0-A-2", Some("connected"), Some("4294967295x4294967295")),
    ]);
    assert_eq!(primary_drm_resolution(&more), Some((4294967295, 4294967295)));
    assert_eq!(primary_drm_resolution(&Some(vec![])), None);
    assert_eq!(primary_drm_resolution(&None), None);
}

fn settings(scale: bool, backend: Option<&str>, wayland: bool, x11: bool) -> DisplaySettings {
    DisplaySettings {
        scale_given: scale,
        backend: backend.map(|b| b.to_string()),
        wayland,
        x11,
    }
}

#[test]
fn scale_is_set_only_without_a_window_system() {
    let full_hd = Some((1920, 1080));
    assert_eq!(desired_kms_scale(&settings(false, None, false, false), full_hd), Some(150));
    assert_eq!(desired_kms_scale(&settings(true, None, false, false), full_hd), None);
    assert_eq!(desired_kms_scale(&settings(false, None, true, false), full_hd), None);
    assert_eq!(desired_kms_scale(&settings(false, None, false, true), full_hd), None);
    let kms = Some("linuxkms-femtovg");
    assert_eq!(desired_kms_scale(&settings(false, kms, true, true), full_hd), Some(150));
    assert_eq!(desired_kms_scale(&settings(false, Some("winit"), true, false), full_hd), None);
    assert_eq!(desired_kms_scale(&settings(true, kms, false, false), full_hd), None);
    assert_eq!(desired_kms_scale(&settings(false, None, false, false), None), None);
}

#[test]
fn waiting_for_a_display_is_told_every_ten_seconds() {
    const SECOND: u128 = 1_000_000_000;
    let mut w = DisplayWait::new();
    assert_eq!(w.look(false, 0), Look::Again { notice: true });
    assert_eq!(w.look(false, SECOND / 2), Look::Again { notice: false });
    assert_eq!(w.look(false, 10 * SECOND - 1), Look::Again { notice: false });
    assert_eq!(w.look(false, 10 * SECOND), Look::Again { notice: true });
    assert_eq!(w.look(false, 19 * SECOND), Look::Again { notice: false });
    assert_eq!(w.look(false, 21 * SECOND), Look::Again { notice: true });
    assert_eq!(w.look(true, 22 * SECOND), Look::Ready { waited: true });
    assert_eq!(DisplayWait::new().look(true, 0), Look::Ready { waited: false });
}

#[test]
fn japanese_is_told_by_the_locale() {
    assert!(speaks_japanese(Some("ja_JP.UTF-8")));
    assert!(!speaks_japanese(Some("en_US.UTF-8")));
    assert!(!speaks_japanese(Some("")));
    assert!(!speaks_japanese(None));
}
