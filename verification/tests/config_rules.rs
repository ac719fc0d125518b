use oukaro::installed_apps::{
    InstalledAppsError, list_installed_user_apps, list_installed_user_apps_from_packages_xml,
    list_installed_user_apps_from_pm,
};
use oukaro::manager::{
    ConfigCommand, InspectOutput, ManagerError, apply_command, ensure_not_in_other_group,
    format_inspect_text, is_user_app, join_names, parse_package_csv,
};
use oukaro::manager_config::Config;
use oukaro::package_name::{PackageNameFault, is_valid_package_name, validate_package_name};
use oukaro::package_set::{PackageMap, PackageSet};
use oukaro::pm::PmOutput;

fn set_of(names: &[&str]) -> PackageSet {
    let owned: Vec<String> = names.iter().map(|n| n.to_string()).collect();
    PackageSet::from_names(&owned)
}

fn expect_error<T>(r: Result<T, InstalledAppsError>) -> InstalledAppsError {
    match r {
        Ok(_) => panic!("expected an error"),
        Err(e) => e,
    }
}

#[test]
fn adding_to_one_group_is_refused_when_the_other_holds_the_package() {
    let mut config = Config::default();
    assert!(apply_command(&mut config, &ConfigCommand::AddPrivApp("com.example.a".to_string())).is_ok());
    let error = apply_command(&mut config, &ConfigCommand::AddSystemApp("com.example.a".to_string()))
        .unwrap_err();
    assert_eq!(
        error,
        ManagerError::AlreadyInGroup {
            package: "com.example.a".to_string(),
            group: "priv-app".to_string()
        }
    );
    assert_eq!(error.message(), "Package `com.example.a` already exists in priv-app");
    assert!(config.app.system_app.is_empty());
    assert!(apply_command(&mut config, &ConfigCommand::RemovePrivApp("com.example.a".to_string())).is_ok());
    assert!(apply_command(&mut config, &ConfigCommand::AddSystemApp("com.example.a".to_string())).is_ok());
    assert!(apply_command(&mut config, &ConfigCommand::RemoveSystemApp("com.example.zzz".to_string())).is_ok());
    assert_eq!(config.app.system_app.to_vec(), vec!["com.example.a".to_string()]);
    assert!(ensure_not_in_other_group(&config.app.system_app, "com.example.b", "system-app").is_ok());
}

#[test]
fn replace_sets_both_groups_or_nothing() {
    let mut config = Config::default();
    let ok = apply_command(
        &mut config,
        &ConfigCommand::Replace { system: "b.b, a.a".to_string(), priv_app: "c.c".to_string() },
    );
    assert!(ok.is_ok());
    assert_eq!(config.app.system_app.to_vec(), vec!["a.a".to_string(), "b.b".to_string()]);
    let refused = apply_command(
        &mut config,
        &ConfigCommand::Replace { system: "x.x,y.y".to_string(), priv_app: "y.y,x.x,z.z".to_string() },
    )
    .unwrap_err();
    assert_eq!(
        refused.message(),
        "Packages cannot exist in both system and priv groups: x.x, y.y"
    );
    assert_eq!(config.app.system_app.to_vec(), vec!["a.a".to_string(), "b.b".to_string()]);
    assert_eq!(config.app.priv_app.to_vec(), vec!["c.c".to_string()]);
}

#[test]
fn inspect_text_lists_each_group_on_a_line() {
    let output = InspectOutput {
        system_app: vec!["a.a".to_string(), "b.b".to_string()],
        priv_app: vec![],
        installed_user_apps: vec!["a.a".to_string()],
        missing_configured_apps: vec!["b.b".to_string()],
    };
    assert_eq!(
        format_inspect_text(&output),
        "system_app=a.a,b.b\npriv_app=\ninstalled_user_apps=a.a\nmissing_configured_apps=b.b\n"
    );
}

#[test]
fn printed_group_reads_back_as_the_same_group() {
    let names = set_of(&["com.example.beta", "com.example.alpha"]).to_vec();
    let joined = join_names(&names, ",");
    assert_eq!(joined, "com.example.alpha,com.example.beta");
    assert_eq!(parse_package_csv(&joined).to_vec(), names);
    assert!(parse_package_csv("").is_empty());
}

#[test]
fn user_app_rules_prefer_flags_then_legacy_then_location() {
    assert!(is_user_app(Some(0), Some(true), "/system/app/x"));
    assert!(!is_user_app(Some(0x81), None, "/data/app/x"));
    assert!(is_user_app(None, Some(false), "/system/app/x"));
    assert!(!is_user_app(None, Some(true), "/data/app/x"));
    assert!(is_user_app(None, None, "/data/app/x"));
    assert!(is_user_app(None, None, "/mnt/expand/u/app/x"));
    assert!(!is_user_app(None, None, "/mnt/expand/u/media/x"));
    assert!(!is_user_app(None, None, "/system/app/x"));
}

#[test]
fn installed_apps_come_from_pm_or_metadata() {
    let listed = list_installed_user_apps_from_pm(&PmOutput {
        success: true,
        stdout: "package:b.b\npackage:a.a\n".to_string(),
        stderr: String::new(),
    })
    .unwrap();
    assert_eq!(listed.to_vec(), vec!["a.a".to_string(), "b.b".to_string()]);
    let failed = expect_error(list_installed_user_apps_from_pm(&PmOutput {
        success: false,
        stdout: String::new(),
        stderr: " no service \n".to_string(),
    }));
    assert_eq!(failed, InstalledAppsError::PmListFailed("no service".to_string()));
    assert_eq!(failed.message(), "`pm list packages -3 --user 0` failed: no service");

    let empty = list_installed_user_apps_from_packages_xml(PackageSet::new(), None).unwrap();
    assert!(empty.is_empty());
    let missing = expect_error(list_installed_user_apps_from_packages_xml(set_of(&["a.a"]), None));
    assert_eq!(missing, InstalledAppsError::NoRestrictions);
    assert_eq!(
        missing.message(),
        "No readable package-restrictions metadata was found for system user 0"
    );
    let mut states = PackageMap::new();
    states.insert("a.a", false);
    let filtered =
        list_installed_user_apps_from_packages_xml(set_of(&["a.a", "b.b"]), Some(states)).unwrap();
    assert_eq!(filtered.to_vec(), vec!["b.b".to_string()]);
    let both = InstalledAppsError::ListFailed { pm: "p".to_string(), fallback: "f".to_string() };
    assert_eq!(
        both.message(),
        "Failed to list installed user apps for system user 0 via `pm list packages -3 --user 0` and package metadata fallback: p: f"
    );
}

#[test]
fn package_names_are_validated_segment_by_segment() {
    assert!(is_valid_package_name("com.example.app_2"));
    assert!(validate_package_name("a.b").is_ok());
    let empty = validate_package_name("").unwrap_err();
    assert_eq!(empty.fault, PackageNameFault::Empty);
    assert_eq!(empty.message(), "Package name must not be empty");
    let single = validate_package_name("example").unwrap_err();
    assert_eq!(single.fault, PackageNameFault::TooFewSegments);
    assert_eq!(single.message(), "Package name `example` must contain at least two segments");
    let hole = validate_package_name("com..app").unwrap_err();
    assert_eq!(hole.message(), "Package name `com..app` must not contain empty segments");
    let digit = validate_package_name("com.1app").unwrap_err();
    assert_eq!(digit.fault, PackageNameFault::InvalidSegmentStart("1app".to_string()));
    assert_eq!(
        digit.message(),
        "Package name `com.1app` has invalid segment `1app`: each segment must start with an ASCII letter"
    );
    let dash = validate_package_name("com.my-app.x").unwrap_err();
    assert_eq!(dash.fault, PackageNameFault::InvalidSegmentCharacter("my-app".to_string()));
    assert_eq!(
        dash.message(),
        "Package name `com.my-app.x` has invalid segment `my-app`: only ASCII letters, digits, and underscores are allowed"
    );
    assert!(!is_valid_package_name(".com.example"));
    assert!(!is_valid_package_name("com.example."));
}

#[test]
fn metadata_is_asked_only_when_pm_fails() {
    let listed = list_installed_user_apps(Ok(set_of(&["a.a"])), || panic!("metadata asked"));
    assert_eq!(listed.map(|s| s.to_vec()).ok(), Some(vec!["a.a".to_string()]));
    let fallback = list_installed_user_apps(Err("pm gone".to_string()), || Ok(set_of(&["b.b"])));
    assert_eq!(fallback.map(|s| s.to_vec()).ok(), Some(vec!["b.b".to_string()]));
    let both = expect_error(list_installed_user_apps(Err("pm gone".to_string()), || Err("no files".to_string())));
    assert_eq!(
        both,
        InstalledAppsError::ListFailed { pm: "pm gone".to_string(), fallback: "no files".to_string() }
    );
}
