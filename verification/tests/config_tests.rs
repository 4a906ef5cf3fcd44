use carto_config::decode::parse_settings;
use carto_config::encode::encode_settings;
use carto_config::Config;
use carto_config::Lense;
use carto_config::Limit;
use carto_config::UserSettings;

#[test]
fn limit_default_is_one_hundred() {
    assert_eq!(Limit::default(), Limit::Finite(100));
}

#[test]
fn settings_default_values() {
    let s = UserSettings::default();
    assert_eq!(s.domain_crawl_limit, Limit::Finite(100));
    assert!(!s.run_wizard);
    assert!(s.allow_list.is_empty());
    assert!(s.block_list.is_empty());
}

#[test]
fn missing_file_defaults_and_writes_back() {
    let (config, write_back) = Config::new(None).expect("defaulting never fails");
    assert_eq!(config.user_settings, UserSettings::default());
    let doc = write_back.expect("a defaulted record is written back");
    let reread = parse_settings(&doc).expect("the written document must re-read");
    assert_eq!(reread, config.user_settings);
}

#[test]
fn load_preserves_custom_values() {
    let custom = UserSettings {
        domain_crawl_limit: Limit::Finite(100),
        run_wizard: true,
        allow_list: vec!["example.com".to_string()],
        block_list: Vec::new(),
    };
    let doc = encode_settings(&custom);
    let (config, write_back) = Config::new(Some(&doc)).expect("a valid file must load");
    assert_eq!(config.user_settings, custom);
    assert!(write_back.is_none(), "an existing file is not rewritten");
}

#[test]
fn corrupt_file_is_fatal() {
    let result = Config::new(Some("this is not a settings file"));
    assert!(result.is_err(), "a corrupt file must not default silently");
}

#[test]
fn lens_registry_starts_empty() {
    let (from_defaults, _) = Config::new(None).unwrap();
    assert!(from_defaults.lenses.is_empty());

    let doc = encode_settings(&UserSettings {
        domain_crawl_limit: Limit::Infinite,
        run_wizard: true,
        allow_list: vec!["a.example".to_string()],
        block_list: vec!["b.example".to_string()],
    });
    let (from_file, _) = Config::new(Some(&doc)).unwrap();
    assert!(from_file.lenses.is_empty());
}

#[test]
fn lens_registry_keyed_by_name() {
    let (mut config, _) = Config::new(None).unwrap();
    let lense = Lense {
        name: "rust-docs".to_string(),
        domains: vec!["docs.rs".to_string()],
        urls: vec!["https://doc.rust-lang.org/book".to_string()],
    };
    config.lenses.insert(lense.name.clone(), lense.clone());
    assert_eq!(config.lenses.len(), 1);
    assert_eq!(config.lenses.get("rust-docs"), Some(&lense));
}

#[test]
fn settings_file_path_under_prefs_dir() {
    assert_eq!(
        Config::prefs_file_in("/home/alice/.config/carto"),
        "/home/alice/.config/carto/settings.ron"
    );
}

#[test]
fn lenses_dir_under_data_dir() {
    assert_eq!(
        Config::lenses_dir_in("/home/alice/.local/share/carto"),
        "/home/alice/.local/share/carto/lenses"
    );
}

#[test]
fn resolved_paths_have_fixed_tails() {
    if let Some(p) = Config::prefs_file() {
        assert!(p.ends_with("/settings.ron"));
    }
    if let Some(p) = Config::lenses_dir() {
        assert!(p.ends_with("/lenses"));
    }
    if let (Some(prefs_dir), Some(prefs_file)) = (Config::prefs_dir(), Config::prefs_file()) {
        assert_eq!(prefs_file, format!("{prefs_dir}/settings.ron"));
    }
    if let (Some(data_dir), Some(lenses_dir)) = (Config::data_dir(), Config::lenses_dir()) {
        assert_eq!(lenses_dir, format!("{data_dir}/lenses"));
    }
}
