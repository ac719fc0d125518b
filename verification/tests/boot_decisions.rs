use oukaro::boot::{
    BootError, DataPathStep, OverlayMount, RestrictionsOutcome,
    check_package_visible_to_system_user_with_pm, data_path_after_install_check,
    data_path_from_pm_output, is_installed_from_pm_probe, is_installed_from_restrictions,
    is_mount_target, mount_overlyfs, overlay_mount_options, package_available_for_system_user,
    stale_entries, staging_dir_name,
};
use oukaro::boot_config::{App, Config};
use oukaro::candidates::{CandidateOutcome, first_loaded};
use oukaro::install_path::{
    CodePathFacts, has_known_user_app_prefix, is_adopted_storage_app_path,
    normalize_user_app_code_path,
};
use oukaro::package_set::{PackageMap, PackageSet};
use oukaro::package_state::SystemUserPackageState;
use oukaro::pm::{PmOutput, parse_pm_path_output, pm_path_failure_indicates_missing_package};

fn pm(success: bool, stdout: &str, stderr: &str) -> PmOutput {
    PmOutput { success, stdout: stdout.to_string(), stderr: stderr.to_string() }
}

fn set_of(names: &[&str]) -> PackageSet {
    let owned: Vec<String> = names.iter().map(|n| n.to_string()).collect();
    PackageSet::from_names(&owned)
}

#[test]
fn pm_path_output_lists_apks_in_order() {
    let paths = parse_pm_path_output(
        "  package:/data/app/x/base.apk \r\nnoise\npackage: /data/app/x/split_a.apk\npackage:\n",
    );
    assert_eq!(
        paths,
        vec!["/data/app/x/base.apk".to_string(), "/data/app/x/split_a.apk".to_string()]
    );
}

#[test]
fn pm_failure_without_output_means_missing_package() {
    assert!(pm_path_failure_indicates_missing_package("", "  \n"));
    assert!(pm_path_failure_indicates_missing_package(
        "",
        "Error: Unknown package: com.example"
    ));
    assert!(pm_path_failure_indicates_missing_package(
        "",
        "Package com.example is NOT INSTALLED FOR user 0"
    ));
    assert!(!pm_path_failure_indicates_missing_package(
        "",
        "Security exception: permission denied"
    ));
    assert!(!pm_path_failure_indicates_missing_package(
        "package:/data/app/x/base.apk",
        "unknown package"
    ));
}

#[test]
fn pm_probe_reports_visibility_and_failures() {
    let visible = check_package_visible_to_system_user_with_pm(
        "com.example",
        &pm(true, "package:/data/app/x/base.apk\n", ""),
    );
    assert_eq!(visible, Ok(true));
    let empty = check_package_visible_to_system_user_with_pm("com.example", &pm(true, "", ""));
    assert_eq!(empty, Ok(false));
    let missing = check_package_visible_to_system_user_with_pm(
        "com.example",
        &pm(false, "", "Unable to find package: com.example"),
    );
    assert_eq!(missing, Ok(false));
    let failed = check_package_visible_to_system_user_with_pm(
        "com.example",
        &pm(false, "", "  Failure calling service package  "),
    )
    .unwrap_err();
    assert_eq!(
        failed.message(),
        "`pm path --user 0 com.example` failed: Failure calling service package"
    );
    let silent = check_package_visible_to_system_user_with_pm(
        "com.example",
        &pm(false, "package:/data/app/x/base.apk", ""),
    )
    .unwrap_err();
    assert_eq!(
        silent,
        BootError::PmPathFailed {
            package: "com.example".to_string(),
            detail: "no error output".to_string(),
        }
    );
}

#[test]
fn restrictions_decide_installation_when_read() {
    let mut states = PackageMap::new();
    states.insert("com.example.hidden", SystemUserPackageState { installed: true, hidden: true });
    states.insert("com.example.gone", SystemUserPackageState { installed: false, hidden: false });
    assert!(!package_available_for_system_user(&states, "com.example.hidden"));
    assert!(!package_available_for_system_user(&states, "com.example.gone"));
    assert!(package_available_for_system_user(&states, "com.example.unrecorded"));

    let outcome = RestrictionsOutcome::States(states);
    assert_eq!(is_installed_from_restrictions(&outcome, "com.example.gone"), Some(false));
    assert_eq!(is_installed_from_restrictions(&outcome, "com.example.other"), Some(true));
    assert_eq!(
        is_installed_from_restrictions(&RestrictionsOutcome::Absent, "com.example"),
        None
    );
}

#[test]
fn failed_restrictions_and_failed_probe_report_both() {
    let outcome = RestrictionsOutcome::Failed("parse package restrictions".to_string());
    let error = is_installed_from_pm_probe(&outcome, "com.example", &pm(false, "", "boom")).unwrap_err();
    assert_eq!(
        error.message(),
        "Fallback `pm path --user 0` probe also failed: `pm path --user 0 com.example` failed: boom: parse package restrictions"
    );
    let fine = is_installed_from_pm_probe(
        &outcome,
        "com.example",
        &pm(true, "package:/data/app/x/base.apk", ""),
    );
    assert_eq!(fine, Ok(true));
    let absent = is_installed_from_pm_probe(
        &RestrictionsOutcome::Absent,
        "com.example",
        &pm(false, "", "boom"),
    )
    .unwrap_err();
    assert_eq!(absent.message(), "`pm path --user 0 com.example` failed: boom");
}

#[test]
fn uninstalled_package_never_gets_a_data_path() {
    assert_eq!(
        data_path_after_install_check(Some("/data/app/x".to_string()), Some(false)),
        DataPathStep::Resolved(None)
    );
    assert_eq!(data_path_after_install_check(None, Some(false)), DataPathStep::Resolved(None));
}

#[test]
fn packages_xml_directory_is_preferred_unless_uninstalled() {
    assert_eq!(
        data_path_after_install_check(Some("/data/app/x".to_string()), Some(true)),
        DataPathStep::Resolved(Some("/data/app/x".to_string()))
    );
    assert_eq!(
        data_path_after_install_check(Some("/data/app/x".to_string()), None),
        DataPathStep::Resolved(Some("/data/app/x".to_string()))
    );
    assert_eq!(data_path_after_install_check(None, None), DataPathStep::Resolved(None));
    assert_eq!(data_path_after_install_check(None, Some(true)), DataPathStep::QueryPm);
}

#[test]
fn pm_output_gives_the_apk_directory() {
    assert_eq!(
        data_path_from_pm_output(
            "com.example",
            &pm(true, "package:/data/app/~~abc/com.example/base.apk\npackage:/data/app/other/split.apk\n", "")
        ),
        Ok(Some("/data/app/~~abc/com.example".to_string()))
    );
    assert_eq!(data_path_from_pm_output("com.example", &pm(false, "", "gone")), Ok(None));
    assert_eq!(data_path_from_pm_output("com.example", &pm(true, "", "")), Ok(None));
    let error = data_path_from_pm_output("com.example", &pm(true, "package:/", "")).unwrap_err();
    assert_eq!(error.message(), "package com.example apk path has no parent");
}

#[test]
fn code_path_normalization_follows_install_locations() {
    let dir = CodePathFacts { is_dir: true, is_file: false, parent_exists: true };
    let file = CodePathFacts { is_dir: false, is_file: true, parent_exists: true };
    let absent = CodePathFacts { is_dir: false, is_file: false, parent_exists: false };
    assert_eq!(
        normalize_user_app_code_path("/data/app/~~abc/com.example", dir),
        Some("/data/app/~~abc/com.example".to_string())
    );
    assert_eq!(
        normalize_user_app_code_path("/data/app/~~abc/com.example/base.apk", file),
        Some("/data/app/~~abc/com.example".to_string())
    );
    assert_eq!(
        normalize_user_app_code_path(
            "/data/app/~~abc/com.example/base.APK",
            CodePathFacts { is_dir: false, is_file: false, parent_exists: true }
        ),
        Some("/data/app/~~abc/com.example".to_string())
    );
    assert_eq!(normalize_user_app_code_path("/data/app/~~abc/com.example/base.apk", absent), None);
    assert_eq!(normalize_user_app_code_path("/system/app/Example", dir), None);
    assert_eq!(normalize_user_app_code_path("/system/app/Example/Example.apk", file), None);
    assert_eq!(normalize_user_app_code_path("/data/app/notes.txt", absent), None);
}

#[test]
fn backslashes_count_as_slashes_for_install_locations() {
    assert!(has_known_user_app_prefix("\\data\\app\\com.example\\base.apk"));
    assert!(!has_known_user_app_prefix("/mnt/expand//app/com.example"));
    assert!(has_known_user_app_prefix("/mnt/expand/uuid/app"));
    let chars: Vec<char> = "/mnt/expand/uuid/apps/x".chars().collect();
    assert!(!is_adopted_storage_app_path(&chars));
}

#[test]
fn mountinfo_fifth_field_is_the_mount_point() {
    let mountinfo = "36 35 98:0 /mnt1 /mnt2 rw,noatime master:1 - ext3 /dev/root rw\n\
                     40 36 0:42 / /system/app rw - overlay overlay rw\n";
    assert!(is_mount_target(mountinfo, "/system/app"));
    assert!(is_mount_target(mountinfo, "/mnt2"));
    assert!(!is_mount_target(mountinfo, "/system/priv-app"));
    assert!(!is_mount_target(mountinfo, "/mnt1"));
}

#[test]
fn overlay_is_mounted_only_where_nothing_is() {
    assert_eq!(
        overlay_mount_options("/lower/app", "/upper/app", "/work/app"),
        "lowerdir=/lower/app,upperdir=/upper/app,workdir=/work/app"
    );
    let mounted = "40 36 0:42 / /system/app rw - overlay overlay rw\n";
    assert_eq!(
        mount_overlyfs("/l", "/u", "/w", "/system/app", mounted),
        OverlayMount::AlreadyMounted
    );
    assert_eq!(
        mount_overlyfs("/l", "/u", "/w", "/system/priv-app", mounted),
        OverlayMount::Mount { options: "lowerdir=/l,upperdir=/u,workdir=/w".to_string() }
    );
}

#[test]
fn cleanup_spares_kept_packages() {
    let entries = vec![
        "com.example.keep".to_string(),
        "com.example.stale".to_string(),
        ".com.example.keep.tmp".to_string(),
    ];
    let keep = set_of(&["com.example.keep"]);
    assert_eq!(
        stale_entries(&entries, &keep),
        vec!["com.example.stale".to_string(), ".com.example.keep.tmp".to_string()]
    );
    assert_eq!(staging_dir_name("com.example"), ".com.example.tmp");
}

#[test]
fn first_loaded_candidate_decides() {
    let outcomes = vec![
        CandidateOutcome::Missing,
        CandidateOutcome::Loaded(0u32),
        CandidateOutcome::Loaded(1u32),
    ];
    assert_eq!(first_loaded(outcomes), Ok(Some(0)));
    let after_failure = vec![CandidateOutcome::Failed("bad".to_string()), CandidateOutcome::Loaded(7u32)];
    assert_eq!(first_loaded(after_failure), Ok(Some(7)));
}

#[test]
fn last_failure_is_reported_when_nothing_loads() {
    let outcomes: Vec<CandidateOutcome<u32>> = vec![
        CandidateOutcome::Failed("first".to_string()),
        CandidateOutcome::Failed("second".to_string()),
        CandidateOutcome::Missing,
    ];
    assert_eq!(first_loaded(outcomes), Err("second".to_string()));
    let none: Vec<CandidateOutcome<u32>> = vec![CandidateOutcome::Missing, CandidateOutcome::Missing];
    assert_eq!(first_loaded(none), Ok(None));
    assert!(CandidateOutcome::Loaded(1u32).is_loaded());
    assert!(!CandidateOutcome::<u32>::Missing.is_loaded());
}

#[test]
fn boot_config_starts_empty_and_takes_loaded_groups() {
    let mut config = Config::new();
    let app = config.get();
    assert!(app.system_app.is_empty());
    assert!(app.priv_app.is_empty());

    let loaded = Config::from_app(App {
        system_app: set_of(&["com.example.b", "com.example.a"]),
        priv_app: set_of(&["com.example.p"]),
    });
    config.apply_loaded(loaded);
    let app = config.get();
    assert_eq!(
        app.system_app.to_vec(),
        vec!["com.example.a".to_string(), "com.example.b".to_string()]
    );
    assert_eq!(app.priv_app.to_vec(), vec!["com.example.p".to_string()]);
}
