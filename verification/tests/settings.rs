use kuvatin::paths::{FilePath, Part};
use kuvatin::settings::Settings;

fn path(names: &[&str]) -> FilePath {
    FilePath {
        parts: names
            .iter()
            .map(|n| Part::Name(n.chars().map(|c| c as u32).collect()))
            .collect(),
    }
}

#[test]
fn missing_settings_are_the_defaults() {
    let s = Settings::load(None);
    assert!(!s.check_updates && s.latest_seen.is_empty());
    assert_eq!(s.last_update_check, 0);
    let kept = Settings::load(Some(Settings {
        check_updates: true,
        last_update_check: 1_757_000_000,
        latest_seen: "2.9.0".into(),
    }));
    assert!(kept.check_updates);
    assert_eq!(kept.last_update_check, 1_757_000_000);
    assert_eq!(kept.clone().latest_seen, "2.9.0");
}

#[test]
fn settings_are_saved_under_the_config_directory() {
    let config = path(&["config"]);
    assert_eq!(
        Settings::path(Some(&config)),
        Some(path(&["config", "Kuvatin", "settings.toml"]))
    );
    assert_eq!(Settings::path(None), None);
    let target = Settings::save(Some(&config)).ok().unwrap();
    assert_eq!(target.folder, path(&["config", "Kuvatin"]));
    assert_eq!(target.file, path(&["config", "Kuvatin", "settings.toml"]));
    assert_eq!(Settings::save(None).err(), Some("no config directory"));
}
