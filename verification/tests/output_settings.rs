use embedded_graphics_web_simulator::output_settings::OutputSettings;
use embedded_graphics_web_simulator::output_settings::OutputSettingsBuilder;

#[test]
fn build_with_no_calls_yields_defaults() {
    let settings = OutputSettingsBuilder::new().build();
    assert_eq!(settings.scale, 1);
    assert_eq!(settings.pixel_spacing, 0);
}

#[test]
fn default_settings_match_built_defaults() {
    let settings = OutputSettings::default();
    assert_eq!(settings, OutputSettingsBuilder::new().build());
}

#[test]
fn scale_one_succeeds() {
    let settings = OutputSettingsBuilder::new().scale(1).build();
    assert_eq!(settings.scale, 1);
    assert_eq!(settings.pixel_spacing, 0);
}

#[test]
fn scale_and_spacing_are_kept() {
    let settings = OutputSettingsBuilder::new().scale(3).pixel_spacing(1).build();
    assert_eq!(settings.scale, 3);
    assert_eq!(settings.pixel_spacing, 1);
}

#[test]
fn spacing_zero_is_accepted() {
    let settings = OutputSettingsBuilder::new().scale(2).pixel_spacing(0).build();
    assert_eq!(settings.scale, 2);
    assert_eq!(settings.pixel_spacing, 0);
}

#[test]
fn setter_order_does_not_matter() {
    let a = OutputSettingsBuilder::new().scale(4).pixel_spacing(2).build();
    let b = OutputSettingsBuilder::new().pixel_spacing(2).scale(4).build();
    assert_eq!(a, b);
}
