use typope::config::{
    config_file, manifest_config, resolve_bool_arg, supported_file_names, Config, ConfigFile,
    EngineConfig, TypeEngineConfig, TypePattern, Walk,
};
use typope::lang::Mapping;
use typope::pattern::IgnorePattern;

fn walk(settings: [Option<bool>; 6]) -> Walk {
    Walk {
        extend_exclude: vec![],
        ignore_hidden: settings[0],
        ignore_files: settings[1],
        ignore_dot: settings[2],
        ignore_vcs: settings[3],
        ignore_global: settings[4],
        ignore_parent: settings[5],
    }
}

#[test]
fn test_update_from_nothing() {
    let defaulted = Config::default();

    let mut actual = defaulted.clone();
    actual.update(&Config::default());

    assert_eq!(actual, defaulted);
}

#[test]
fn walk_default_respects_everything() {
    let walk = Walk::default();
    assert!(walk.extend_exclude.is_empty());
    assert!(walk.ignore_hidden());
    assert!(walk.ignore_dot());
    assert!(walk.ignore_vcs());
    assert!(walk.ignore_global());
    assert!(walk.ignore_parent());
    assert_eq!(walk, super_walk());
}

fn super_walk() -> Walk {
    walk([Some(true); 6])
}

#[test]
fn walk_settings_fall_back_on_wider_ones() {
    let nothing = walk([None; 6]);
    assert!(nothing.ignore_hidden() && nothing.ignore_dot() && nothing.ignore_vcs());
    assert!(nothing.ignore_global() && nothing.ignore_parent());

    let no_files = walk([None, Some(false), None, None, None, None]);
    assert!(no_files.ignore_hidden());
    assert!(!no_files.ignore_dot());
    assert!(!no_files.ignore_vcs());
    assert!(!no_files.ignore_global());
    assert!(!no_files.ignore_parent());

    let no_vcs = walk([None, Some(true), None, Some(false), None, None]);
    assert!(no_vcs.ignore_dot());
    assert!(!no_vcs.ignore_vcs());
    assert!(!no_vcs.ignore_global());
    assert!(no_vcs.ignore_parent());

    let narrow = walk([Some(false), Some(false), Some(true), Some(false), Some(true), Some(true)]);
    assert!(!narrow.ignore_hidden());
    assert!(narrow.ignore_dot());
    assert!(!narrow.ignore_vcs());
    assert!(narrow.ignore_global());
    assert!(narrow.ignore_parent());
}

#[test]
fn walk_update_lays_one_layer_over_another() {
    let mut base = Walk::default();
    base.extend_exclude.push("a".into());
    let mut layer = walk([None, Some(false), None, None, None, Some(true)]);
    layer.extend_exclude.push("b".into());
    base.update(&layer);
    assert_eq!(base.extend_exclude, vec!["a".to_owned(), "b".to_owned()]);
    assert_eq!(base.ignore_hidden, Some(true));
    assert_eq!(base.ignore_files, Some(false));
    assert_eq!(base.ignore_dot, None);
    assert_eq!(base.ignore_vcs, None);
    assert_eq!(base.ignore_global, None);
    assert_eq!(base.ignore_parent, Some(true));

    let mut base = Walk::default();
    base.update(&walk([Some(false), None, None, Some(false), None, None]));
    assert_eq!(base.ignore_hidden, Some(false));
    assert_eq!(base.ignore_files, Some(true));
    assert_eq!(base.ignore_dot, Some(true));
    assert_eq!(base.ignore_vcs, Some(false));
    assert_eq!(base.ignore_global, None);
    assert_eq!(base.ignore_parent, Some(true));

    let mut base = Walk::default();
    let before = base.clone();
    base.update(&walk([None; 6]));
    assert_eq!(base, before);
}

#[test]
fn engine_update_takes_the_flag_and_keeps_the_regexes() {
    let mut base = EngineConfig::default();
    assert!(base.check_file());
    base.extend_ignore_re.push(IgnorePattern::new("abc").unwrap());
    let mut layer = EngineConfig { check_file: Some(false), extend_ignore_re: vec![] };
    layer.extend_ignore_re.push(IgnorePattern::new("def").unwrap());
    base.update(&layer);
    assert!(!base.check_file());
    assert_eq!(base.extend_ignore_re.len(), 1);
    assert_eq!(base.extend_ignore_re[0].as_str(), "abc");

    let mut base = EngineConfig { check_file: Some(false), extend_ignore_re: vec![] };
    base.update(&EngineConfig { check_file: None, extend_ignore_re: vec![] });
    assert_eq!(base.check_file, Some(false));
    assert!(EngineConfig { check_file: None, extend_ignore_re: vec![] }.check_file());
}

#[test]
fn engine_configs_are_compared_by_the_text_of_their_regexes() {
    let a = EngineConfig {
        check_file: Some(true),
        extend_ignore_re: vec![IgnorePattern::new("a+").unwrap()],
    };
    let b = a.clone();
    assert_eq!(a, b);
    let c = EngineConfig {
        check_file: Some(true),
        extend_ignore_re: vec![IgnorePattern::new("a*").unwrap()],
    };
    assert_ne!(a, c);
    assert_ne!(a, EngineConfig::default());
    assert_ne!(a, EngineConfig { check_file: None, ..a.clone() });
}

fn types(entries: &[(&str, Option<bool>)]) -> TypeEngineConfig {
    TypeEngineConfig {
        patterns: entries
            .iter()
            .map(|(name, check_file)| TypePattern {
                name: (*name).to_owned(),
                engine: EngineConfig { check_file: *check_file, extend_ignore_re: vec![] },
            })
            .collect(),
    }
}

#[test]
fn type_update_merges_type_by_type() {
    let mut base = types(&[("rust", Some(false)), ("cpp", None)]);
    base.update(&types(&[("cpp", Some(false)), ("po", None), ("rust", None)]));
    assert_eq!(base.get("rust").unwrap().check_file, Some(false));
    assert_eq!(base.get("cpp").unwrap().check_file, Some(false));
    assert_eq!(base.get("po").unwrap().check_file, Some(true));
    assert!(base.get("go").is_none());
    assert_eq!(base.patterns.len(), 3);
}

#[test]
fn type_configs_are_compared_whatever_their_order() {
    let a = types(&[("rust", Some(false)), ("cpp", None)]);
    let b = types(&[("cpp", None), ("rust", Some(false))]);
    assert_eq!(a, b);
    assert_ne!(a, types(&[("rust", Some(false))]));
    assert_ne!(a, types(&[("rust", Some(true)), ("cpp", None)]));
    assert_ne!(types(&[]), a);
    assert_eq!(types(&[]), TypeEngineConfig::default());
}

#[test]
fn config_from_path_lays_the_type_over_the_default() {
    let mapping = Mapping::build();
    let mut config = Config::default();
    config.default.extend_ignore_re.push(IgnorePattern::new("abc").unwrap());
    config.type_.merge("cpp", &EngineConfig { check_file: Some(false), extend_ignore_re: vec![] });

    let rust = config.config_from_path(&mapping, "file.rs");
    assert!(rust.check_file());
    assert_eq!(rust.extend_ignore_re.len(), 1);
    let cpp = config.config_from_path(&mapping, "file.cpp");
    assert!(!cpp.check_file());
    assert_eq!(cpp.extend_ignore_re.len(), 1);
    let unknown = config.config_from_path(&mapping, "file.unknown");
    assert_eq!(unknown, config.default);
}

#[test]
fn config_update_updates_every_part() {
    let mut config = Config::default();
    let mut layer = Config::default();
    layer.files.ignore_hidden = Some(false);
    layer.default.check_file = Some(false);
    layer.type_.merge("po", &EngineConfig { check_file: Some(true), extend_ignore_re: vec![] });
    config.update(&layer);
    assert!(!config.files.ignore_hidden());
    assert!(!config.default.check_file());
    assert_eq!(config.type_.get("po").unwrap().check_file, Some(true));
}

#[test]
fn config_files_are_told_by_their_name() {
    assert_eq!(config_file("Cargo.toml"), ConfigFile::CargoToml);
    assert_eq!(config_file("pyproject.toml"), ConfigFile::PyprojectToml);
    assert_eq!(config_file("typos.toml"), ConfigFile::Plain);
    assert_eq!(config_file("cargo.toml"), ConfigFile::Plain);
    assert_eq!(
        supported_file_names(),
        vec!["typos.toml", "_typos.toml", ".typos.toml", "Cargo.toml", "pyproject.toml"]
    );
}

#[test]
fn manifest_config_prefers_the_workspace() {
    let mut workspace = Config::default();
    workspace.files.ignore_hidden = Some(false);
    let package = Config::default();
    assert_eq!(manifest_config(Some(workspace.clone()), Some(package.clone())), Some(workspace));
    assert_eq!(manifest_config(None, Some(package.clone())), Some(package));
    assert_eq!(manifest_config(None, None), None);
}

#[test]
fn switches_are_resolved_in_pairs() {
    assert_eq!(resolve_bool_arg(true, false), Some(true));
    assert_eq!(resolve_bool_arg(false, true), Some(false));
    assert_eq!(resolve_bool_arg(false, false), None);
    assert_eq!(resolve_bool_arg(true, true), None);
}
