use media_tagger::config::{Config, ConfigCell, ConfigError};

fn sample(path: &str) -> Config {
    Config { download_path: String::from(path) }
}

#[test]
fn default_path_names_the_user() {
    assert_eq!(
        Config::new(Some("ann"), Some("bob")).download_path,
        "C:\\Users\\ann\\Music\\VK Downloads"
    );
    assert_eq!(Config::new(None, Some("bob")).download_path, "C:\\Users\\bob\\Music\\VK Downloads");
    assert_eq!(Config::new(None, None).download_path, "C:\\Users\\User\\Music\\VK Downloads");
}

#[test]
fn cell_is_filled_once() {
    let mut cell = ConfigCell::new();
    assert!(!cell.is_initialized());
    assert!(Config::init(&mut cell, Ok(sample("first"))).is_ok());
    assert!(cell.is_initialized());
    assert_eq!(Config::get_unwrap(&cell).download_path, "first");
    assert!(matches!(
        Config::init(&mut cell, Ok(sample("second"))),
        Err(ConfigError::AlreadyInitialized)
    ));
    assert_eq!(Config::get_unwrap(&cell).download_path, "first");
}

#[test]
fn failed_load_leaves_the_cell_empty() {
    let mut cell = ConfigCell::new();
    let failed = Config::init(&mut cell, Err(ConfigError::Load(String::from("unreadable"))));
    match failed {
        Err(ConfigError::Load(reason)) => assert_eq!(reason, "unreadable"),
        other => panic!("expected a load failure, found {:?}", other),
    }
    assert!(!cell.is_initialized());
}

#[test]
fn failed_load_is_handed_on_even_when_filled() {
    let mut cell = ConfigCell::new();
    Config::init(&mut cell, Ok(sample("first"))).unwrap();
    let failed = Config::init(&mut cell, Err(ConfigError::Load(String::from("gone"))));
    assert!(matches!(failed, Err(ConfigError::Load(_))));
    assert_eq!(Config::get_unwrap(&cell).download_path, "first");
}

#[test]
fn get_loads_only_into_an_empty_cell() {
    let mut cell = ConfigCell::new();
    let mut calls = 0;
    let got = Config::get(&mut cell, || {
        calls += 1;
        Ok(sample("loaded"))
    });
    assert_eq!(got.unwrap().download_path, "loaded");
    let again = Config::get(&mut cell, || {
        calls += 1;
        Ok(sample("other"))
    });
    assert_eq!(again.unwrap().download_path, "loaded");
    assert_eq!(calls, 1);
}

#[test]
fn get_hands_on_a_failed_load() {
    let mut cell = ConfigCell::new();
    let got = Config::get(&mut cell, || Err(ConfigError::Load(String::from("bad json"))));
    assert!(matches!(got, Err(ConfigError::Load(_))));
    assert!(!cell.is_initialized());
    let got = Config::get(&mut cell, || Ok(sample("later")));
    assert_eq!(got.unwrap().download_path, "later");
}

#[test]
fn path_is_validated_by_the_probe() {
    let config = sample("/music");
    let mut asked = String::new();
    assert!(config.validate_path(|path| {
        asked.push_str(path);
        true
    }));
    assert_eq!(asked, "/music");
    assert!(!config.validate_path(|_| false));
}
