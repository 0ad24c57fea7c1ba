use fcache::config::{
    disabled_by_env, parse_bool_value, parse_compiler_identity, parse_size, CompilerIdentityPolicy,
    Config, ConfigError, ConfigFile, ConfigVariables, FileConfig, ValueFault,
};

fn no_variables() -> ConfigVariables {
    ConfigVariables {
        dir: None,
        max_size: None,
        disable: None,
        read_only: None,
        direct: None,
        compiler_identity: None,
    }
}

fn home() -> Option<Vec<u8>> {
    Some(b"/home/user/.cache".to_vec())
}

#[test]
fn sizes() {
    assert_eq!(parse_size("10 GiB", "x").unwrap(), 10 << 30);
    assert_eq!(parse_size("2mb", "x").unwrap(), 2 << 20);
    assert_eq!(parse_size("42", "x").unwrap(), 42);
}

#[test]
fn invalid_and_overflowing_sizes_are_rejected() {
    assert!(matches!(parse_size("many", "x"), Err(ConfigError::Value(_, _))));
    assert!(matches!(
        parse_size("18446744073709551615 KiB", "x"),
        Err(ConfigError::Value(_, _))
    ));
}

#[test]
fn explicitly_selected_missing_config_is_an_error() {
    let missing = b"/tmp/somewhere/missing.toml".to_vec();
    let file = ConfigFile::Unreadable {
        path: missing.clone(),
        source: "entity not found".to_string(),
    };
    match Config::load_with(&home(), file, &no_variables()).unwrap_err() {
        ConfigError::Read { path, source } => {
            assert_eq!(path, missing);
            assert_eq!(source, "entity not found");
        }
        other => panic!("expected a read error, got {other:?}"),
    }
}

#[test]
fn absent_default_config_is_ignored() {
    let config = Config::load_with(&home(), ConfigFile::Ignored, &no_variables()).unwrap();
    assert!(config.enabled);
    assert!(!config.read_only);
    assert!(config.direct);
    assert_eq!(config.compiler_identity, CompilerIdentityPolicy::Auto);
    assert_eq!(config.max_size, 10 << 30);
}

#[test]
fn file_values_load_and_environment_values_override_them() {
    let file = FileConfig {
        dir: Some(b"/from-file".to_vec()),
        max_size: Some("2 MiB".to_string()),
        enabled: Some(true),
        read_only: Some(false),
        direct: Some(true),
        compiler_identity: Some("strict".to_string()),
    };
    let config = Config::load_with(&home(), ConfigFile::Read(file.clone()), &no_variables()).unwrap();
    assert_eq!(config.cache_dir, b"/from-file");
    assert_eq!(config.max_size, 2 << 20);
    assert_eq!(config.compiler_identity, CompilerIdentityPolicy::Strict);

    let variables = ConfigVariables {
        dir: Some(b"/from-environment".to_vec()),
        max_size: Some(b"3 MiB".to_vec()),
        disable: Some(b"yes".to_vec()),
        read_only: Some(b"on".to_vec()),
        direct: Some(b"off".to_vec()),
        compiler_identity: Some(b"auto".to_vec()),
    };
    let config = Config::load_with(&home(), ConfigFile::Read(file), &variables).unwrap();
    assert_eq!(config.cache_dir, b"/from-environment");
    assert_eq!(config.max_size, 3 << 20);
    assert!(!config.enabled);
    assert!(config.read_only);
    assert!(!config.direct);
    assert_eq!(config.compiler_identity, CompilerIdentityPolicy::Auto);
}

#[test]
fn compiler_identity_policy_is_validated() {
    let variables = ConfigVariables {
        compiler_identity: Some(b"fastest".to_vec()),
        ..no_variables()
    };
    match Config::load_with(&home(), ConfigFile::Ignored, &variables).unwrap_err() {
        ConfigError::Value(_, fault) => {
            assert!(fault.message().contains("expected 'auto' or 'strict'"))
        }
        other => panic!("expected a value error, got {other:?}"),
    }
    assert_eq!(
        parse_compiler_identity(b"strict", "x").unwrap(),
        CompilerIdentityPolicy::Strict
    );
}

#[test]
fn disable_value_can_be_checked_without_loading_config() {
    for value in ["", "1", "true", "YES", "on"] {
        assert_eq!(
            parse_bool_value("FCACHE_DISABLE", &Some(value.as_bytes().to_vec())).unwrap(),
            Some(true)
        );
    }
    for value in ["0", "false", "NO", "off"] {
        assert_eq!(
            parse_bool_value("FCACHE_DISABLE", &Some(value.as_bytes().to_vec())).unwrap(),
            Some(false)
        );
    }
    assert_eq!(parse_bool_value("FCACHE_DISABLE", &None).unwrap(), None);
    assert!(!disabled_by_env(&None).unwrap());
    assert!(disabled_by_env(&Some(b"1".to_vec())).unwrap());
}

#[test]
fn invalid_boolean_value_is_rejected() {
    let error =
        parse_bool_value("FCACHE_DISABLE", &Some(b"sometimes".to_vec())).unwrap_err();
    match error {
        ConfigError::Value(name, fault) => {
            assert_eq!(name, "FCACHE_DISABLE");
            assert_eq!(fault.message(), "expected a boolean value, got 'sometimes'");
            assert_eq!(
                ConfigError::Value(name, fault).message(),
                "invalid FCACHE_DISABLE: expected a boolean value, got 'sometimes'"
            );
        }
        other => panic!("expected a value error, got {other:?}"),
    }
    assert!(matches!(
        parse_bool_value("FCACHE_DISABLE", &Some(vec![0xff])),
        Err(ConfigError::Value(_, ValueFault::NotText))
    ));
}

#[test]
fn without_a_home_the_cache_directory_must_be_given() {
    assert!(matches!(
        Config::load_with(&None, ConfigFile::Ignored, &no_variables()),
        Err(ConfigError::NoCacheDirectory)
    ));
    let config = Config::defaults(&home()).unwrap();
    assert_eq!(config.cache_dir, b"/home/user/.cache/fcache");
}

#[test]
fn a_named_configuration_file_has_to_be_there() {
    let home = Some(b"/home/user/.config".to_vec());
    assert_eq!(
        Config::config_file(&Some(b"/etc/fcache.toml".to_vec()), &home),
        (b"/etc/fcache.toml".to_vec(), true)
    );
    assert_eq!(
        Config::config_file(&None, &home),
        (b"/home/user/.config/fcache/config.toml".to_vec(), false)
    );
    assert_eq!(Config::config_file(&None, &None), (b"fcache.toml".to_vec(), false));
}
