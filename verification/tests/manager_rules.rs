use oukaro::manager::{
    InspectOutput, build_inspect_output, filter_installed_for_system_user, parse_package_csv,
    parse_pm_list_output, validate_package_sets,
};
use oukaro::manager_config::App;
use oukaro::manager_xml::{parse_package_restrictions_xml, parse_packages_xml_user_apps};
use oukaro::package_set::{PackageMap, PackageSet};

fn set_of(names: &[&str]) -> PackageSet {
    let owned: Vec<String> = names.iter().map(|n| n.to_string()).collect();
    PackageSet::from_names(&owned)
}

fn names(v: &[&str]) -> Vec<String> {
    v.iter().map(|n| n.to_string()).collect()
}

#[test]
fn csv_parser_trims_entries_and_ignores_empty_values() {
    let parsed = parse_package_csv(" com.example.alpha ,,com.example.beta, ");

    assert_eq!(
        parsed.to_vec(),
        names(&["com.example.alpha", "com.example.beta"])
    );
}

#[test]
fn pm_list_parser_extracts_user_packages() {
    let parsed = parse_pm_list_output(
        "package:com.example.alpha\npackage:com.example.beta\nignored-line\npackage:\n",
    );

    assert_eq!(
        parsed.to_vec(),
        names(&["com.example.alpha", "com.example.beta"])
    );
}

#[test]
fn packages_xml_parser_extracts_non_system_packages() {
    let parsed = parse_packages_xml_user_apps(
        r#"
            <packages>
              <package name="com.example.user" codePath="/data/app/~~abc/com.example.user/base.apk" publicFlags="0" />
              <package name="com.example.adopted" codePath="/mnt/expand/uuid/app/com.example.adopted/base.apk" publicFlags="0" />
              <package name="com.example.system" codePath="/system/app/System/System.apk" publicFlags="1" />
              <package name="com.example.legacy" codePath="/data/app/legacy/base.apk" system="false" />
            </packages>
            "#,
    )
    .unwrap();

    assert_eq!(
        parsed.to_vec(),
        names(&["com.example.adopted", "com.example.legacy", "com.example.user"])
    );
}

#[test]
fn package_restrictions_parser_reads_system_user_install_states() {
    let parsed = parse_package_restrictions_xml(
        r#"
            <package-restrictions>
              <pkg name="com.example.alpha" inst="true" />
              <pkg name="com.example.beta" inst="false" />
              <package name="com.example.gamma" installed="false" />
              <pkg name="com.example.delta" />
            </package-restrictions>
            "#,
    )
    .unwrap();

    assert_eq!(
        parsed.keys(),
        names(&[
            "com.example.alpha",
            "com.example.beta",
            "com.example.delta",
            "com.example.gamma"
        ])
    );
    assert_eq!(parsed.values(), vec![true, false, true, false]);
}

#[test]
fn system_user_filter_excludes_packages_explicitly_uninstalled_for_user_zero() {
    let packages = set_of(&["com.example.alpha", "com.example.beta", "com.example.gamma"]);
    let mut system_user_states = PackageMap::new();
    system_user_states.insert("com.example.alpha", true);
    system_user_states.insert("com.example.beta", false);

    let filtered = filter_installed_for_system_user(packages, &system_user_states);

    assert_eq!(
        filtered.to_vec(),
        names(&["com.example.alpha", "com.example.gamma"])
    );
}

#[test]
fn validate_package_sets_rejects_duplicate_membership() {
    let error = validate_package_sets(
        &set_of(&["com.example.shared"]),
        &set_of(&["com.example.shared"]),
    )
    .unwrap_err();

    assert!(
        error
            .message()
            .contains("Packages cannot exist in both system and priv groups")
    );
}

#[test]
fn inspect_output_reports_missing_packages() {
    let app = App {
        system_app: set_of(&["com.example.alpha", "com.example.beta"]),
        priv_app: set_of(&["com.example.gamma"]),
    };
    let installed = set_of(&["com.example.alpha", "com.example.delta"]);

    let output = build_inspect_output(&app, &installed);

    assert_eq!(
        output,
        InspectOutput {
            system_app: vec![
                "com.example.alpha".to_string(),
                "com.example.beta".to_string(),
            ],
            priv_app: vec!["com.example.gamma".to_string()],
            installed_user_apps: vec![
                "com.example.alpha".to_string(),
                "com.example.delta".to_string(),
            ],
            missing_configured_apps: vec![
                "com.example.beta".to_string(),
                "com.example.gamma".to_string(),
            ],
        }
    );
}
