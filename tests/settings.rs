use neuro_accel::{
    resolve_curve_params, DefaultSettings, SettingConstraint, SettingGroup, Settings,
};

fn entries(list: &[(&str, f64)]) -> Vec<(String, f64)> {
    list.iter().map(|(k, v)| (k.to_string(), *v)).collect()
}

#[test]
fn insert_and_get() {
    let mut s: Settings<f64> = Settings::new();
    assert_eq!(s.len(), 0);
    assert_eq!(s.get("range"), None);
    s.insert("range".to_string(), 40.0);
    s.insert("offset".to_string(), 2.0);
    s.insert("range".to_string(), 50.0);
    assert_eq!(s.len(), 2);
    assert_eq!(s.get("range"), Some(50.0));
    assert_eq!(s.get("offset"), Some(2.0));
}

#[test]
fn from_entries_later_wins() {
    let s = Settings::from_entries(&entries(&[("dpi", 800.0), ("min_sens", 0.15), ("dpi", 1600.0)]));
    assert_eq!(s.len(), 2);
    assert_eq!(s.get("dpi"), Some(1600.0));
    let mut keys = s.keys();
    keys.sort();
    assert_eq!(keys, vec!["dpi".to_string(), "min_sens".to_string()]);
}

#[test]
fn resolve_falls_back_to_defaults_then_zero() {
    let defaults = Settings::from_entries(&entries(&[("range", 40.0), ("growth_base", 1.05)]));
    let values = Settings::from_entries(&entries(&[("range", 12.0)]));
    assert_eq!(values.resolve("range", &defaults, 0.0), 12.0);
    assert_eq!(values.resolve("growth_base", &defaults, 0.0), 1.05);
    assert_eq!(values.resolve("unknown", &defaults, 0.0), 0.0);
}

#[test]
fn update_existing_ignores_new_keys() {
    let mut s = Settings::from_entries(&entries(&[("range", 20.0)]));
    s.update_existing("range", 25.0);
    s.update_existing("offset", 3.0);
    assert_eq!(s.get("range"), Some(25.0));
    assert_eq!(s.get("offset"), None);
    assert_eq!(s.len(), 1);
}

#[test]
fn curve_params_resolve() {
    let defaults = Settings::from_entries(&entries(&[
        ("min_sens", 0.6),
        ("max_sens", 7.0),
        ("range", 40.0),
        ("growth_base", 1.05),
        ("offset", 0.0),
    ]));
    let values = Settings::from_entries(&entries(&[("offset", 4.0), ("max_sens", 3.0)]));
    let p = resolve_curve_params(&values, &defaults, 0.0);
    assert_eq!(p.range, 40.0);
    assert_eq!(p.offset, 4.0);
    assert_eq!(p.min_sens, 0.6);
    assert_eq!(p.max_sens, 3.0);
    assert_eq!(p.growth_base, 1.05);
    let none = resolve_curve_params(&Settings::new(), &Settings::new(), -1.0);
    assert_eq!(none.range, -1.0);
}

fn constraint(label: &'static str, min: f64, max: f64, step: f64, default: f64) -> SettingConstraint<f64> {
    SettingConstraint { label, min, max, step, default }
}

#[test]
fn constraint_table_splits_by_group() {
    let rows = vec![
        (SettingGroup::Curve, "min_sens".to_string(), constraint("Base Sens", 0.1, 2.0, 0.05, 0.6)),
        (SettingGroup::Raw, "dpi".to_string(), constraint("DPI", 0.0, 64000.0, 1.0, 1600.0)),
        (SettingGroup::Curve, "range".to_string(), constraint("Accel Range", 10.0, 200.0, 1.0, 40.0)),
    ];
    let d = DefaultSettings::from_table(&rows);
    assert_eq!(d.curve_settings.len(), 2);
    assert_eq!(d.raw_accel_settings.len(), 1);
    assert_eq!(d.curve_settings.get("range").map(|c| c.label), Some("Accel Range"));
    assert!(d.curve_settings.get("dpi").is_none());
    let defaults = d.curve_settings.defaults();
    assert_eq!(defaults.get("min_sens"), Some(0.6));
    assert_eq!(defaults.get("range"), Some(40.0));
    assert_eq!(defaults.len(), 2);
    assert_eq!(d.raw_accel_settings.defaults().get("dpi"), Some(1600.0));
}
