use localtools::r01::router::RouterSystem;

#[test]
fn sysfs_reading_is_trimmed_and_parsed() {
    assert_eq!(RouterSystem::read_int_text("48500\n"), Some(48500));
    assert_eq!(RouterSystem::read_int_text("  -12 "), Some(-12));
    assert_eq!(RouterSystem::read_int_text("warm"), None);
    assert_eq!(RouterSystem::read_int_text(""), None);
}

#[test]
fn temperature_defaults_to_zero() {
    assert_eq!(RouterSystem::temp_from(Some(51234)), 51234);
    assert_eq!(RouterSystem::temp_from(None), 0);
}

#[test]
fn fan_pwm_is_clamped_to_a_byte() {
    assert_eq!(RouterSystem::fan_pwm_from(Some(-5)), 0);
    assert_eq!(RouterSystem::fan_pwm_from(Some(128)), 128);
    assert_eq!(RouterSystem::fan_pwm_from(Some(300)), 255);
    assert_eq!(RouterSystem::fan_pwm_from(None), 0);
}

#[test]
fn fan_rpm_is_never_negative() {
    assert_eq!(RouterSystem::fan_rpm_from(Some(-40)), 0);
    assert_eq!(RouterSystem::fan_rpm_from(Some(2100)), 2100);
    assert_eq!(RouterSystem::fan_rpm_from(None), 0);
}

#[test]
fn max_backlight_defaults_to_255() {
    assert_eq!(RouterSystem::max_backlight_from(None), 255);
    assert_eq!(RouterSystem::max_backlight_from(Some(100)), 100);
}

#[test]
fn idle_seconds_parses_the_uci_value() {
    assert_eq!(RouterSystem::idle_seconds_from(Some("300")), Some(300));
    assert_eq!(RouterSystem::idle_seconds_from(Some("soon")), None);
    assert_eq!(RouterSystem::idle_seconds_from(None), None);
}

#[test]
fn fan_mode_falls_back_to_auto() {
    assert_eq!(RouterSystem::fan_mode_text(None), "auto");
    assert_eq!(RouterSystem::fan_mode_text(Some("manual".to_string())), "manual");
}

#[test]
fn wifi_credentials_need_a_name() {
    let admin = RouterSystem::wifi_credentials(false, Some("home".to_string()), Some("pw".to_string()));
    assert_eq!(admin, Some(("home".to_string(), "pw".to_string())));
    assert_eq!(RouterSystem::wifi_credentials(false, Some(String::new()), Some("pw".to_string())), None);
    assert_eq!(RouterSystem::wifi_credentials(false, Some("home".to_string()), None), None);
    assert_eq!(RouterSystem::wifi_credentials(true, Some("home".to_string()), Some("pw".to_string())), None);
}

#[test]
fn display_blank_values() {
    assert_eq!(RouterSystem::blank_value(true), "4");
    assert_eq!(RouterSystem::blank_value(false), "0");
}

#[test]
fn uci_commands_are_spelled_out() {
    assert_eq!(RouterSystem::uci_set_arg("r01.fan.mode", "auto"), "r01.fan.mode=auto");
    assert_eq!(RouterSystem::init_script("r01-fan"), "/etc/init.d/r01-fan");
    assert_eq!(RouterSystem::uci_value("  1234\n"), "1234");
}
