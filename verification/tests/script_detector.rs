use easy_term::script_detector::{detect_package_manager, detect_scripts, Lockfiles, PackageJson};

fn no_lockfiles() -> Lockfiles {
    Lockfiles { pnpm_lock_yaml: false, bun_lockb: false, bun_lock: false, yarn_lock: false }
}

#[test]
fn detect_package_manager_defaults_to_npm_with_no_lockfile() {
    assert_eq!(detect_package_manager(&no_lockfiles()), "npm");
}

#[test]
fn detect_package_manager_reads_pnpm_lockfile() {
    assert_eq!(detect_package_manager(&Lockfiles { pnpm_lock_yaml: true, ..no_lockfiles() }), "pnpm");
}

#[test]
fn detect_package_manager_reads_yarn_lockfile() {
    assert_eq!(detect_package_manager(&Lockfiles { yarn_lock: true, ..no_lockfiles() }), "yarn");
}

#[test]
fn detect_package_manager_reads_either_bun_lockfile_spelling() {
    assert_eq!(detect_package_manager(&Lockfiles { bun_lock: true, ..no_lockfiles() }), "bun");
    assert_eq!(detect_package_manager(&Lockfiles { bun_lockb: true, ..no_lockfiles() }), "bun");
}

#[test]
fn detect_package_manager_prefers_pnpm_when_multiple_lockfiles_exist() {
    assert_eq!(detect_package_manager(&Lockfiles { pnpm_lock_yaml: true, yarn_lock: true, ..no_lockfiles() }), "pnpm");
    let all = Lockfiles { pnpm_lock_yaml: true, bun_lockb: true, bun_lock: true, yarn_lock: true };
    assert_eq!(detect_package_manager(&all), "pnpm");
    assert_eq!(detect_package_manager(&Lockfiles { bun_lock: true, yarn_lock: true, ..no_lockfiles() }), "bun");
}

#[test]
fn detect_scripts_without_a_package_json_returns_empty_config() {
    let config = detect_scripts("npm", PackageJson::Missing).unwrap();

    assert_eq!(config.name, None);
    assert_eq!(config.package_manager, "npm");
    assert!(config.scripts.is_empty());
}

#[test]
fn detect_scripts_parses_name_and_scripts_with_package_manager_prefix() {
    let text = r#"{"name": "my-app", "scripts": {"dev": "vite", "build": "vite build"}}"#;
    let config = detect_scripts("pnpm", PackageJson::Read(text.to_string())).unwrap();

    assert_eq!(config.name, Some("my-app".to_string()));
    assert_eq!(config.package_manager, "pnpm");
    assert_eq!(config.scripts.len(), 2);
    let dev = config.scripts.iter().find(|s| s.name == "dev").unwrap();
    assert_eq!(dev.command, "pnpm run dev");
}

#[test]
fn detect_scripts_ignores_non_string_script_entries() {
    let text = r#"{"scripts": {"dev": "vite", "weird": {"nested": true}}}"#;
    let config = detect_scripts("npm", PackageJson::Read(text.to_string())).unwrap();

    assert_eq!(config.scripts.len(), 1);
    assert_eq!(config.scripts[0].name, "dev");
    assert_eq!(config.name, None);
}

#[test]
fn detect_scripts_tolerates_a_package_json_with_no_scripts_field() {
    let config = detect_scripts("npm", PackageJson::Read(r#"{"name": "no-scripts"}"#.to_string())).unwrap();

    assert_eq!(config.name, Some("no-scripts".to_string()));
    assert!(config.scripts.is_empty());
}

#[test]
fn detect_scripts_rejects_malformed_package_json() {
    let err = detect_scripts("npm", PackageJson::Read("{ not json".to_string())).err().unwrap();
    assert_eq!(err.code, "DETECT_PKG_JSON_INVALID");
    assert!(err.message.starts_with("package.json inválido: "));
}

#[test]
fn detect_scripts_reports_an_unreadable_package_json() {
    let err = detect_scripts("npm", PackageJson::Unreadable("permission denied".to_string())).err().unwrap();
    assert_eq!(err.code, "DETECT_IO_ERROR");
    assert_eq!(err.message, "No se pudo leer package.json: permission denied");
}

#[test]
fn a_non_string_name_is_no_name() {
    let config = detect_scripts("yarn", PackageJson::Read(r#"{"name": 5, "scripts": []}"#.to_string())).unwrap();
    assert_eq!(config.name, None);
    assert!(config.scripts.is_empty());
}
