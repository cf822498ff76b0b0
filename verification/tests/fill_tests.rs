use skwd_paper::fill::{clamp_override, fill_flag, flag_for, FillMode};

#[test]
fn shader_flags_map_fill_modes() {
    assert_eq!(flag_for(FillMode::Fill), 0);
    assert_eq!(flag_for(FillMode::Span), 0);
    assert_eq!(flag_for(FillMode::Stretch), 0);
    assert_eq!(flag_for(FillMode::Fit), 1);
    assert_eq!(flag_for(FillMode::Center), 1);
    assert_eq!(flag_for(FillMode::Tile), 2);
}

#[test]
fn clamp_override_wins_over_the_mode() {
    assert_eq!(clamp_override(Some("clamp")), Some(0));
    assert_eq!(clamp_override(Some("border")), Some(1));
    assert_eq!(clamp_override(Some("repeat")), Some(2));
    assert_eq!(clamp_override(Some("mirror")), None);
    assert_eq!(clamp_override(None), None);
    assert_eq!(fill_flag(Some(2), FillMode::Fit), 2);
    assert_eq!(fill_flag(None, FillMode::Fit), 1);
    assert_eq!(FillMode::default(), FillMode::Fill);
}
