use localtools::hibat::charts::{build_status_segments, lighten, ThemeColors};
use localtools::hibat::app::{discover_batteries, ChartTab, TimeRange};
use localtools::hibat::collector::{
    battery_file_path, battery_names, collect_all, collect_one, BatteryFiles, SupplyEntry,
};
use localtools::hibat::config::{
    config_path, db_path, detect_desktop_theme, gtk_settings_paths, parse_color, CollectorConfig,
    DesktopTheme, ThemeConfig,
};
use localtools::hibat::db::{retention_cutoff, retention_cutoff_at, BatteryRecord, BatteryStatus};

#[test]
fn time_range_labels_and_formats() {
    assert_eq!(TimeRange::Recent(12).label(), "12h");
    assert_eq!(TimeRange::Yesterday.label(), "Yesterday");
    assert_eq!(TimeRange::ThreeMonths.label(), "90 Days");
    assert_eq!(TimeRange::Week.time_format(), "%a %H:%M");
    assert_eq!(TimeRange::All.time_format(), "%Y-%m-%d");
    assert_eq!(TimeRange::Recent(3).time_format(), "%H:%M");
}

#[test]
fn time_range_bounds() {
    let now = 1_700_000_000;
    let midnight = 1_699_990_000;
    assert_eq!(TimeRange::Recent(2).start_end_at(now, midnight), (now - 7200, now));
    assert_eq!(TimeRange::Yesterday.start_end_at(now, midnight), (midnight - 86400, midnight));
    assert_eq!(TimeRange::All.start_end_at(now, midnight), (0, now));
    assert_eq!(TimeRange::Week.start_end_at(now, midnight), (now - 7 * 86400, now));
    assert_eq!(TimeRange::Year.range_seconds(), Some(365 * 86400));
    assert_eq!(TimeRange::All.range_seconds(), None);
}

#[test]
fn display_range_pads_by_an_eighth() {
    let now = 80_000;
    assert_eq!(TimeRange::Recent(2).display_range_at(now, 0), (80_000 - 7200 - 900, 80_900));
    assert_eq!(TimeRange::All.display_range_at(-16, 0), (2, -18));
}

#[test]
fn bounds_from_the_clock() {
    let (start, end) = TimeRange::All.start_end().unwrap();
    assert_eq!(start, 0);
    assert!(end > 1_600_000_000);
    let (start, end) = TimeRange::Recent(3).start_end().unwrap();
    assert_eq!(end - start, 3 * 3600);
    let (start, end) = TimeRange::Week.start_end().unwrap();
    assert_eq!(end - start, 7 * 86400);
    if let Some((start, end)) = TimeRange::Yesterday.start_end() {
        assert_eq!(end - start, 86400);
        assert!(end <= TimeRange::All.start_end().unwrap().1);
    }
    let (lo, hi) = TimeRange::Recent(8).display_range().unwrap();
    assert_eq!(hi - lo, 8 * 3600 + 2 * 3600);
}

#[test]
fn downsampling_widths() {
    assert_eq!(TimeRange::Recent(1).downsample_interval(), None);
    assert_eq!(TimeRange::Yesterday.downsample_interval(), None);
    assert_eq!(TimeRange::Week.downsample_interval(), Some(300));
    assert_eq!(TimeRange::All.downsample_interval(), Some(14400));
}

#[test]
fn chart_tabs() {
    assert_eq!(ChartTab::Voltage.label(), "Voltage");
    let all = ChartTab::all();
    assert_eq!(all[0], ChartTab::Capacity);
    assert_eq!(all[4], ChartTab::Health);
}

#[test]
fn battery_status_text() {
    assert_eq!(BatteryStatus::from_str_opt(Some("Charging")), BatteryStatus::Charging);
    assert_eq!(BatteryStatus::from_str_opt(Some("Not charging")), BatteryStatus::NotCharging);
    assert_eq!(BatteryStatus::from_str_opt(Some("charging")), BatteryStatus::Unknown);
    assert_eq!(BatteryStatus::from_str_opt(None), BatteryStatus::Unknown);
    for st in [
        BatteryStatus::Charging,
        BatteryStatus::Discharging,
        BatteryStatus::Full,
        BatteryStatus::NotCharging,
        BatteryStatus::Unknown,
    ] {
        assert_eq!(BatteryStatus::from_str_opt(Some(st.as_str())), st);
    }
}

fn entry(name: &str, kind: Option<&str>) -> SupplyEntry {
    SupplyEntry { name: name.into(), kind: kind.map(String::from) }
}

#[test]
fn batteries_are_selected_and_sorted() {
    let names = battery_names(&[
        entry("BAT1", Some("Battery\n")),
        entry("AC", Some("Mains\n")),
        entry("hid-mouse", Some("Battery")),
        entry("BAT0", Some(" Battery ")),
        entry("ucsi", None),
    ]);
    assert_eq!(names, vec!["BAT0", "BAT1"]);
}

fn files(name: &str) -> BatteryFiles {
    BatteryFiles {
        name: name.into(),
        timestamp: 42,
        capacity: Some("87\n".into()),
        status: Some("Discharging\n".into()),
        voltage_now: Some("12000000".into()),
        current_now: None,
        power_now: Some("-1500000".into()),
        energy_now: Some("not a number".into()),
        energy_full: Some("+50000000".into()),
        energy_full_design: Some("99999999999999999999".into()),
        cycle_count: Some("  12  ".into()),
        temp: Some("3000000000".into()),
    }
}

#[test]
fn records_read_numbers_as_the_files_hold_them() {
    let r = collect_one(&files("BAT0"));
    assert_eq!(r.battery, "BAT0");
    assert_eq!(r.timestamp, 42);
    assert_eq!(r.id, None);
    assert_eq!(r.capacity, Some(87));
    assert_eq!(r.status, BatteryStatus::Discharging);
    assert_eq!(r.voltage_now, Some(12_000_000));
    assert_eq!(r.current_now, None);
    assert_eq!(r.power_now, Some(-1_500_000));
    assert_eq!(r.energy_now, None);
    assert_eq!(r.energy_full, Some(50_000_000));
    assert_eq!(r.energy_full_design, None);
    assert_eq!(r.cycle_count, Some(12));
    assert_eq!(r.temperature, None);
    let all = collect_all(&[files("BAT0"), files("BAT1")]);
    assert_eq!(all.len(), 2);
    assert_eq!(all[1].battery, "BAT1");
}

#[test]
fn battery_paths() {
    assert_eq!(
        battery_file_path("/sys/class/power_supply", "BAT0", "capacity"),
        "/sys/class/power_supply/BAT0/capacity"
    );
}

#[test]
fn collector_defaults() {
    let c = CollectorConfig::default();
    assert_eq!(c.battery_path, "/sys/class/power_supply");
    assert_eq!(c.max_db_size_mb, 100);
    assert_eq!(c.retention_days, 365);
}

#[test]
fn desktop_theme_detection() {
    assert_eq!(detect_desktop_theme(Some("Dracula-dark"), &[]), DesktopTheme::Dracula);
    assert_eq!(
        detect_desktop_theme(Some("Adwaita"), &[None, Some("gtk-theme-name=Catppuccin-Mocha".into())]),
        DesktopTheme::CatppuccinMocha
    );
    assert_eq!(detect_desktop_theme(None, &[Some("x".into())]), DesktopTheme::Generic);
    let (g3, g4) = gtk_settings_paths("/home/u");
    assert_eq!(g3, "/home/u/.config/gtk-3.0/settings.ini");
    assert_eq!(g4, "/home/u/.config/gtk-4.0/settings.ini");
}

#[test]
fn palettes() {
    let d = ThemeConfig::for_theme(DesktopTheme::Dracula);
    assert_eq!(d.background, "#282a36");
    assert_eq!(d.health_warn_color, "#f1fa8c");
    assert!(!d.dark_mode);
    let g = ThemeConfig::for_theme(DesktopTheme::Generic);
    assert_eq!(g.accent_color, "#88c0d0");
    let c = ThemeConfig::for_theme(DesktopTheme::CatppuccinMocha);
    assert_eq!(c.grid_color, "#45475a");
}

#[test]
fn colors_parse_or_fall_back_to_white() {
    assert_eq!(parse_color("#282a36"), (0x28, 0x2a, 0x36));
    assert_eq!(parse_color("##FFaa00"), (0xff, 0xaa, 0x00));
    assert_eq!(parse_color("+f+f+f"), (15, 15, 15));
    assert_eq!(parse_color("#12345"), (255, 255, 255));
    assert_eq!(parse_color("zz0000"), (255, 255, 255));
    assert_eq!(parse_color("é1234"), (255, 255, 255));
}

#[test]
fn config_and_database_paths() {
    assert_eq!(config_path(Some("/home/u")), "/home/u/.config/hibat/config.toml");
    assert_eq!(config_path(None), "./.config/hibat/config.toml");
    assert_eq!(db_path(Some("/root/")), "/root/.cache/hibat/hibat.db");
}

#[test]
fn chart_colours_follow_the_theme() {
    let theme = ThemeConfig::for_theme(DesktopTheme::Dracula);
    let colors = ThemeColors::from_config(&theme);
    assert_eq!(colors.charge, parse_color(&theme.charge_color));
    assert_eq!(colors.status_color(BatteryStatus::Charging), colors.charge);
    assert_eq!(colors.status_color(BatteryStatus::Discharging), colors.discharge);
    assert_eq!(colors.status_color(BatteryStatus::Full), colors.full);
    assert_eq!(colors.status_color(BatteryStatus::Unknown), colors.text);
    assert_eq!(lighten((10, 250, 128), 10), (20, 255, 138));
}

fn names(v: &[&str]) -> Vec<String> {
    v.iter().map(|s| s.to_string()).collect()
}

#[test]
fn discovered_batteries_merge_stored_and_live() {
    let (offered, shown) = discover_batteries(names(&["BAT1"]), &names(&["BAT0", "BAT1", "BAT0"]), "");
    assert_eq!(offered, names(&["BAT1", "BAT0"]));
    assert_eq!(shown, "BAT1");
    let (_, shown) = discover_batteries(names(&["BAT1"]), &names(&["BAT0"]), "BAT0");
    assert_eq!(shown, "BAT0");
    let (_, shown) = discover_batteries(names(&["BAT1"]), &names(&["BAT0"]), "BAT9");
    assert_eq!(shown, "BAT1");
    let (offered, shown) = discover_batteries(Vec::new(), &[], "BAT0");
    assert!(offered.is_empty());
    assert_eq!(shown, "");
}

#[test]
fn purge_cutoff() {
    assert_eq!(retention_cutoff_at(1_000_000, 2), Some(1_000_000 - 2 * 86400));
    assert_eq!(retention_cutoff_at(0, 0), Some(0));
    assert_eq!(retention_cutoff_at(i64::MIN, 1), None);
    assert_eq!(retention_cutoff_at(0, 106_751_991_167_301), None);
    assert_eq!(retention_cutoff_at(i64::MAX, 106_751_991_167_300), Some(i64::MAX - 106_751_991_167_300 * 86400));
    let cutoff = retention_cutoff(30).unwrap();
    assert!(cutoff > 1_600_000_000 - 30 * 86400);
}

fn reading(ts: i64, capacity: Option<i32>, status: BatteryStatus) -> BatteryRecord {
    BatteryRecord {
        id: None,
        timestamp: ts,
        battery: "BAT0".into(),
        capacity,
        status,
        voltage_now: None,
        current_now: None,
        power_now: None,
        energy_now: None,
        energy_full: None,
        energy_full_design: None,
        cycle_count: None,
        temperature: None,
    }
}

#[test]
fn capacity_line_is_cut_where_the_status_changes() {
    assert!(build_status_segments(&[]).is_empty());
    let rs = vec![
        reading(10, Some(50), BatteryStatus::Discharging),
        reading(20, Some(48), BatteryStatus::Discharging),
        reading(30, None, BatteryStatus::Charging),
        reading(40, Some(60), BatteryStatus::Charging),
        reading(50, Some(61), BatteryStatus::Full),
    ];
    let segs = build_status_segments(&rs);
    assert_eq!(segs.len(), 3);
    assert_eq!(segs[0].0, BatteryStatus::Discharging);
    assert_eq!(segs[0].1, vec![(10, 50), (20, 48), (30, 0)]);
    assert_eq!(segs[1].0, BatteryStatus::Charging);
    assert_eq!(segs[1].1, vec![(30, 0), (40, 60), (50, 61)]);
    assert_eq!(segs[2].0, BatteryStatus::Full);
    assert_eq!(segs[2].1, vec![(50, 61)]);
    let one = build_status_segments(&rs[..1]);
    assert_eq!(one.len(), 1);
    assert_eq!(one[0].1, vec![(10, 50)]);
}
