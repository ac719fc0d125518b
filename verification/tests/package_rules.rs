use oukaro::install_path::has_known_user_app_prefix;
use oukaro::package_state::SystemUserPackageState;

#[test]
fn package_state_matches_android_is_available_semantics() {
    assert!(SystemUserPackageState::default().is_available());
    assert!(
        !SystemUserPackageState {
            installed: false,
            hidden: false,
        }
        .is_available()
    );
    assert!(
        !SystemUserPackageState {
            installed: true,
            hidden: true,
        }
        .is_available()
    );
}

#[test]
fn known_user_app_prefix_covers_android_install_locations() {
    assert!(has_known_user_app_prefix(
        "/data/app/~~token/com.example/base.apk"
    ));
    assert!(has_known_user_app_prefix(
        "/data/app-private/com.example.locked/base.apk"
    ));
    assert!(has_known_user_app_prefix(
        "/mnt/expand/uuid/app/com.example/base.apk"
    ));
}

#[test]
fn known_user_app_prefix_rejects_non_app_roots() {
    assert!(!has_known_user_app_prefix(
        "/system/app/Example/Example.apk"
    ));
    assert!(!has_known_user_app_prefix(
        "/mnt/expand/uuid/media/com.example/base.apk"
    ));
    assert!(!has_known_user_app_prefix(
        "/data/user/0/com.example/files"
    ));
}
