use lgtmcli::config::{
    default_profile_name, default_schema_version, insert_profile, join_path, legacy_profile_path,
    load_saved_profile, normalize_profile_name, profile_dir, profile_path, read_env,
    resolve_auth_inputs, resolve_value, sanitize_non_empty, select_existing_profile_path,
    AuthOverrides, ConfigSource, EnvValue, GrafanaConfig, LegacyProfileFile, ProfilesFile,
    ResolvedAuthInputs, ResolvedValue, StoredProfile,
};
use lgtmcli::error::Failure;

fn profile(url: &str, token: &str) -> StoredProfile {
    StoredProfile { grafana_url: url.to_string(), grafana_token: token.to_string(), extra: vec![] }
}

fn present(v: &str) -> EnvValue {
    EnvValue::Present(v.to_string())
}

fn file(active: &str, profiles: Vec<(&str, StoredProfile)>) -> ProfilesFile {
    ProfilesFile {
        schema_version: 1,
        active_profile: active.to_string(),
        profiles: profiles.into_iter().map(|(n, p)| (n.to_string(), p)).collect(),
        extra: vec![],
    }
}

#[test]
fn labels_name_each_source() {
    assert_eq!(ConfigSource::Flag.as_label(), "--url/--token flag");
    assert_eq!(ConfigSource::Env.as_label(), "environment variable");
    assert_eq!(ConfigSource::Profile.as_label(), "saved profile");
}

#[test]
fn blank_settings_are_refused_and_others_trimmed() {
    assert_eq!(sanitize_non_empty("  x  ".to_string(), "f").unwrap(), "x");
    assert!(matches!(sanitize_non_empty(" \t".to_string(), "f"), Err(Failure::EmptyValue(n)) if n == "f"));
    assert_eq!(read_env("E", EnvValue::NotPresent).unwrap(), None);
    assert_eq!(read_env("E", present(" v ")).unwrap(), Some("v".to_string()));
    assert!(matches!(read_env("E", EnvValue::NotUnicode), Err(Failure::NonUnicodeEnv(n)) if n == "E"));
    assert!(matches!(read_env("E", present("")), Err(Failure::EmptyValue(n)) if n == "E"));
}

#[test]
fn flag_beats_environment_beats_profile() {
    let v = resolve_value(Some("flag".into()), "--url", "GRAFANA_URL", present("env"), Some("prof".into()))
        .unwrap()
        .unwrap();
    assert_eq!((v.value.as_str(), v.source), ("flag", ConfigSource::Flag));
    let v = resolve_value(None, "--url", "GRAFANA_URL", present("env"), Some("prof".into())).unwrap().unwrap();
    assert_eq!((v.value.as_str(), v.source), ("env", ConfigSource::Env));
    let v = resolve_value(None, "--url", "GRAFANA_URL", EnvValue::NotPresent, Some(" prof ".into()))
        .unwrap()
        .unwrap();
    assert_eq!((v.value.as_str(), v.source), ("prof", ConfigSource::Profile));
    assert!(resolve_value(None, "--url", "GRAFANA_URL", EnvValue::NotPresent, None).unwrap().is_none());
    // A flag hides a broken environment variable.
    assert!(resolve_value(Some("f".into()), "--url", "GRAFANA_URL", EnvValue::NotUnicode, None).is_ok());
    assert!(matches!(
        resolve_value(Some(" ".into()), "--url", "GRAFANA_URL", EnvValue::NotPresent, None),
        Err(Failure::EmptyValue(n)) if n == "--url"
    ));
    assert!(matches!(
        resolve_value(None, "--url", "GRAFANA_URL", EnvValue::NotPresent, Some("".into())),
        Err(Failure::EmptyValue(n)) if n == "saved profile"
    ));
}

#[test]
fn auth_inputs_resolve_url_then_token() {
    let overrides = AuthOverrides { base_url: None, token: Some("flag-token".into()) };
    let saved = Some(profile("https://p.example", "profile-token"));
    let inputs = resolve_auth_inputs(&overrides, present("https://env.example"), present("env-token"), &saved)
        .unwrap();
    let url = inputs.base_url.as_ref().unwrap();
    let token = inputs.token.as_ref().unwrap();
    assert_eq!((url.value.as_str(), url.source), ("https://env.example", ConfigSource::Env));
    assert_eq!((token.value.as_str(), token.source), ("flag-token", ConfigSource::Flag));

    let config = GrafanaConfig::resolve(&AuthOverrides::default(), EnvValue::NotPresent, EnvValue::NotPresent, &saved)
        .unwrap();
    assert_eq!(config.base_url, "https://p.example");
    assert_eq!(config.token_source, ConfigSource::Profile);

    assert!(matches!(
        GrafanaConfig::resolve(&AuthOverrides::default(), EnvValue::NotPresent, present("t"), &None),
        Err(Failure::MissingUrl)
    ));
    assert!(matches!(
        GrafanaConfig::resolve(&AuthOverrides::default(), present("u"), EnvValue::NotPresent, &None),
        Err(Failure::MissingToken)
    ));
}

#[test]
fn into_required_needs_both_values() {
    let both = ResolvedAuthInputs {
        base_url: Some(ResolvedValue { value: "u".into(), source: ConfigSource::Env }),
        token: Some(ResolvedValue { value: "t".into(), source: ConfigSource::Profile }),
    };
    let c = both.into_required().unwrap();
    assert_eq!((c.base_url.as_str(), c.token.as_str()), ("u", "t"));
    assert_eq!((c.url_source, c.token_source), (ConfigSource::Env, ConfigSource::Profile));
    let no_url = ResolvedAuthInputs { base_url: None, token: None };
    assert!(matches!(no_url.into_required(), Err(Failure::MissingUrl)));
}

#[test]
fn profiles_stay_sorted_and_replace_by_name() {
    let mut entries: Vec<(String, StoredProfile)> = vec![];
    insert_profile(&mut entries, "work".into(), profile("w", "1"));
    insert_profile(&mut entries, "default".into(), profile("d", "2"));
    insert_profile(&mut entries, "zed".into(), profile("z", "3"));
    insert_profile(&mut entries, "work".into(), profile("w2", "4"));
    let names: Vec<&str> = entries.iter().map(|(n, _)| n.as_str()).collect();
    assert_eq!(names, vec!["default", "work", "zed"]);
    assert_eq!(entries[1].1.grafana_url, "w2");
}

#[test]
fn sanitize_normalizes_names_and_active_profile() {
    let raw = ProfilesFile {
        schema_version: 0,
        active_profile: "  missing ".into(),
        profiles: vec![
            (" b ".to_string(), profile(" https://b ", " tb ")),
            ("".to_string(), profile("https://d", "td")),
        ],
        extra: vec![],
    };
    let f = raw.sanitize().unwrap();
    assert_eq!(f.schema_version, 1);
    assert_eq!(f.active_profile, "default");
    let names: Vec<&str> = f.profiles.iter().map(|(n, _)| n.as_str()).collect();
    assert_eq!(names, vec!["b", "default"]);
    assert_eq!(f.profiles[0].1.grafana_url, "https://b");
    assert_eq!(f.profiles[0].1.grafana_token, "tb");

    let only_other = file("gone", vec![("ops", profile("o", "t"))]).sanitize().unwrap();
    assert_eq!(only_other.active_profile, "ops");

    let bad = file("x", vec![("x", profile("u", " "))]).sanitize();
    assert!(matches!(bad, Err(Failure::EmptyValue(n)) if n == "saved profile grafana_token"));
}

#[test]
fn legacy_file_becomes_default_profile() {
    let legacy = LegacyProfileFile { grafana_url: " https://l ".into(), grafana_token: "t".into(), extra: vec![] };
    let f = ProfilesFile::from_legacy(legacy).unwrap();
    assert_eq!(f.active_profile, "default");
    assert_eq!(f.profiles.len(), 1);
    assert_eq!(f.profiles[0].0, "default");
    assert_eq!(f.profiles[0].1.grafana_url, "https://l");
    let bad = LegacyProfileFile { grafana_url: "".into(), grafana_token: "t".into(), extra: vec![] };
    assert!(matches!(ProfilesFile::from_legacy(bad), Err(Failure::EmptyValue(n)) if n == "Grafana URL"));
}

#[test]
fn saving_then_loading_selects_the_saved_profile() {
    let start = file("work", vec![("default", profile("d", "1")), ("work", profile("w", "2"))]);
    let saved = start.with_saved_profile(" https://new ", " tok ").unwrap();
    assert_eq!(saved.active_profile, "work");
    let p = load_saved_profile(Some(saved)).unwrap();
    assert_eq!((p.grafana_url.as_str(), p.grafana_token.as_str()), ("https://new", "tok"));

    let fresh = ProfilesFile::default().with_saved_profile("https://x", "y").unwrap();
    assert_eq!(fresh.schema_version, 1);
    assert_eq!(fresh.active_profile, "default");
    let p = load_saved_profile(Some(fresh)).unwrap();
    assert_eq!(p.grafana_url, "https://x");

    assert!(matches!(
        ProfilesFile::default().with_saved_profile("https://x", "  "),
        Err(Failure::EmptyValue(n)) if n == "Grafana token"
    ));
}

#[test]
fn loading_falls_back_to_first_profile() {
    let f = file("nope", vec![("a", profile("ua", "ta")), ("b", profile("ub", "tb"))]);
    assert_eq!(load_saved_profile(Some(f)).unwrap().grafana_url, "ua");
    assert!(load_saved_profile(Some(file("x", vec![]))).is_none());
    assert!(load_saved_profile(None).is_none());
}

#[test]
fn profile_paths_follow_xdg_then_home() {
    assert_eq!(profile_dir(Some("/x"), Some("/h")).as_deref(), Some("/x"));
    assert_eq!(profile_dir(Some(""), Some("/h")).as_deref(), Some("/h/.config"));
    assert_eq!(profile_dir(None, Some("/h/")).as_deref(), Some("/h/.config"));
    assert_eq!(profile_dir(None, Some("")), None);
    assert_eq!(profile_path(Some("/cfg"), None).as_deref(), Some("/cfg/lgtmcli/profiles.json"));
    assert_eq!(legacy_profile_path(None, Some("/home/me")).as_deref(), Some("/home/me/.config/lgtmcli/profile.json"));
    assert_eq!(join_path("", "a"), "a");
    assert_eq!(select_existing_profile_path(Some("p".into()), false, Some("l".into()), true).as_deref(), Some("l"));
    assert_eq!(select_existing_profile_path(Some("p".into()), true, Some("l".into()), true).as_deref(), Some("p"));
    assert_eq!(select_existing_profile_path(None, false, Some("l".into()), true), None);
    assert_eq!(select_existing_profile_path(Some("p".into()), false, Some("l".into()), false), None);
}

#[test]
fn defaults_and_name_normalization() {
    assert_eq!(default_schema_version(), 1);
    assert_eq!(default_profile_name(), "default");
    assert_eq!(normalize_profile_name("  ops ".into()), "ops");
    assert_eq!(normalize_profile_name("   ".into()), "default");
}

#[test]
fn saved_profile_survives_a_reload() {
    let loaded = file("work", vec![("default", profile("d", "1")), ("work", profile("w", "2"))])
        .sanitize()
        .unwrap();
    let saved = loaded.with_saved_profile("https://new", "tok").unwrap();
    let reloaded = saved.sanitize().unwrap();
    assert_eq!(reloaded.active_profile, "work");
    let p = load_saved_profile(Some(reloaded)).unwrap();
    assert_eq!((p.grafana_url.as_str(), p.grafana_token.as_str()), ("https://new", "tok"));
}
