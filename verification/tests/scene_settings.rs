use rust_renderer::scene_settings::SceneSettings;

#[test]
fn test_toggle_render_lights() {
    let mut settings = SceneSettings::default();
    settings.toggle_render_lights();
    assert!(settings.render_lights);
    settings.toggle_render_lights();
    assert!(!settings.render_lights);
}

#[test]
fn test_toggle_wire_frame_mode() {
    let mut settings = SceneSettings::default();
    settings.toggle_wire_frame_mode();
    assert!(settings.wire_frame_mode);
    settings.toggle_wire_frame_mode();
    assert!(!settings.wire_frame_mode);
}

#[test]
fn test_toggle_overlay() {
    let mut settings = SceneSettings::default();
    settings.toggle_overlay();
    assert!(settings.show_overlay);
    settings.toggle_overlay();
    assert!(!settings.show_overlay);
}

#[test]
fn test_as_pairs() {
    let mut settings = SceneSettings::default();
    settings.render_lights = true;
    settings.wire_frame_mode = true;
    let pairs = settings.as_pairs();
    assert_eq!(pairs.len(), 2);
    assert_eq!(
        pairs.get(0),
        Some(&("render_lights".to_string(), "true".to_string()))
    );
    assert_eq!(
        pairs.get(1),
        Some(&("wire_frame_mode".to_string(), "true".to_string()))
    );
}

#[test]
fn as_pairs_of_default_settings_are_false() {
    let settings = SceneSettings::default();
    let pairs = settings.as_pairs();
    assert_eq!(pairs[0], ("render_lights".to_string(), "false".to_string()));
    assert_eq!(pairs[1], ("wire_frame_mode".to_string(), "false".to_string()));
}

#[test]
fn toggles_touch_only_their_own_setting() {
    let mut settings = SceneSettings::default();
    settings.toggle_wire_frame_mode();
    assert!(!settings.render_lights);
    assert!(!settings.show_overlay);
    settings.toggle_overlay();
    settings.toggle_overlay();
    assert!(settings.wire_frame_mode);
    assert!(!settings.show_overlay);
}
