use oukaro::boot_xml::{parse_package_code_path, parse_package_restrictions_xml};
use oukaro::manager_xml::parse_packages_xml_user_apps;
use oukaro::package_state::SystemUserPackageState;
use oukaro::package_xml::{
    code_path_from_elements, install_states_from_elements, package_code_path_entry,
    package_install_entry, package_state_entry, package_user_app, system_user_states_from_elements,
    user_apps_from_elements,
};
use oukaro::xml_events::{XmlAttribute, XmlElement, bytes_eq};

fn attr(key: &str, value: &str) -> XmlAttribute {
    XmlAttribute { key: key.as_bytes().to_vec(), value: value.to_string() }
}

fn element(name: &str, attributes: Vec<XmlAttribute>) -> XmlElement {
    XmlElement { name: name.as_bytes().to_vec(), attributes }
}

#[test]
fn code_path_comes_from_the_first_matching_package() {
    let contents = r#"<packages>
        <package name="com.example.other" codePath="/data/app/other" />
        <package name="com.example.app" codePath="/data/app/~~a/com.example.app" />
        <package name="com.example.app" codePath="/data/app/~~b/com.example.app" />
    </packages>"#;
    assert_eq!(
        parse_package_code_path(contents, "com.example.app"),
        Ok(Some("/data/app/~~a/com.example.app".to_string()))
    );
    assert_eq!(parse_package_code_path(contents, "com.example.none"), Ok(None));
    assert_eq!(
        parse_package_code_path(r#"<packages><package name="com.example.app"/></packages>"#, "com.example.app"),
        Ok(None)
    );
}

#[test]
fn code_path_reading_stops_at_the_match() {
    let contents = r#"<packages><package name="com.example.app" codePath="/data/app/x" /><broken"#;
    assert_eq!(
        parse_package_code_path(contents, "com.example.app"),
        Ok(Some("/data/app/x".to_string()))
    );
    assert!(parse_package_code_path(contents, "com.example.other").is_err());
}

#[test]
fn system_user_states_read_boolish_flags() {
    let parsed = parse_package_restrictions_xml(
        r#"<package-restrictions>
            <pkg name="com.example.a" inst="0" />
            <pkg name="com.example.b" hidden="yes" />
            <package name="com.example.c" installed="maybe" blocked="On" />
            <pkg name="com.example.d" inst="FALSE" inst="true" />
            <pkg inst="false" />
        </package-restrictions>"#,
    )
    .unwrap();
    assert_eq!(
        parsed.keys(),
        vec![
            "com.example.a".to_string(),
            "com.example.b".to_string(),
            "com.example.c".to_string(),
            "com.example.d".to_string()
        ]
    );
    assert_eq!(
        parsed.values(),
        vec![
            SystemUserPackageState { installed: false, hidden: false },
            SystemUserPackageState { installed: true, hidden: true },
            SystemUserPackageState { installed: true, hidden: true },
            SystemUserPackageState { installed: true, hidden: false },
        ]
    );
}

#[test]
fn packages_xml_parser_rejects_invalid_document() {
    assert!(parse_packages_xml_user_apps("<packages><package").is_err());
    assert!(parse_packages_xml_user_apps("<packages></packages>").unwrap().is_empty());
}

#[test]
fn element_interpretation_follows_the_last_attribute() {
    let user = vec![
        attr("name", "com.example.first"),
        attr("name", "com.example.app"),
        attr("codePath", "/system/app/X"),
        attr("publicFlags", "1"),
        attr("publicFlags", "4"),
    ];
    assert_eq!(package_user_app(&user), Some("com.example.app".to_string()));
    let legacy = vec![attr("name", "a.b"), attr("codePath", "/data/app/x"), attr("system", "TRUE")];
    assert_eq!(package_user_app(&legacy), None);
    let by_path = vec![attr("name", "a.b"), attr("codePath", "/mnt/expand/u/app/x")];
    assert_eq!(package_user_app(&by_path), Some("a.b".to_string()));
    let bad_flags = vec![attr("name", "a.b"), attr("codePath", "/system/app/x"), attr("publicFlags", "x")];
    assert_eq!(package_user_app(&bad_flags), None);
    let no_path = vec![attr("name", "a.b"), attr("publicFlags", "0")];
    assert_eq!(package_user_app(&no_path), None);

    assert_eq!(
        package_install_entry(&[attr("name", "a.b"), attr("installed", "False")]),
        Some(("a.b".to_string(), false))
    );
    assert_eq!(
        package_install_entry(&[attr("name", "a.b"), attr("inst", "0")]),
        Some(("a.b".to_string(), true))
    );
    assert_eq!(package_install_entry(&[attr("inst", "false")]), None);
    assert_eq!(
        package_state_entry(&[attr("name", "a.b"), attr("blocked", "1"), attr("hidden", "off")]),
        Some(("a.b".to_string(), SystemUserPackageState { installed: true, hidden: false }))
    );
    assert_eq!(
        package_code_path_entry(&[attr("name", "a.b"), attr("codePath", "/data/app/x")], "a.b"),
        Some(Some("/data/app/x".to_string()))
    );
    assert_eq!(package_code_path_entry(&[attr("name", "a.c")], "a.b"), None);
}

#[test]
fn element_lists_are_interpreted_by_tag() {
    let els = vec![
        element("package", vec![attr("name", "u.one"), attr("codePath", "/data/app/1"), attr("publicFlags", "0")]),
        element("pkg", vec![attr("name", "u.two"), attr("codePath", "/data/app/2")]),
        element("package", vec![attr("name", "u.three"), attr("codePath", "/data/app/3"), attr("inst", "false")]),
    ];
    assert_eq!(
        user_apps_from_elements(&els).to_vec(),
        vec!["u.one".to_string(), "u.three".to_string()]
    );
    let states = install_states_from_elements(&els);
    assert_eq!(
        states.keys(),
        vec!["u.one".to_string(), "u.three".to_string(), "u.two".to_string()]
    );
    assert_eq!(states.values(), vec![true, false, true]);
    let sys = system_user_states_from_elements(&els);
    assert_eq!(sys.len(), 3);
    assert_eq!(code_path_from_elements(&els, "u.two"), None);
    assert_eq!(code_path_from_elements(&els, "u.three"), Some("/data/app/3".to_string()));
    assert!(bytes_eq(b"pkg", b"pkg"));
    assert!(!bytes_eq(b"pkg", b"pk"));
}

#[test]
fn restrictions_reader_skips_nameless_tags() {
    let parsed = parse_package_restrictions_xml(
        r#"<package-restrictions><pkg name="a.b" inst="false"/><pkg name="c.d" hidden="true"/><pkg name="e.f" inst="maybe" blocked="1"/><package name="g.h"/><pkg inst="false"/></package-restrictions>"#,
    )
    .unwrap();
    assert_eq!(
        parsed.keys(),
        vec!["a.b".to_string(), "c.d".to_string(), "e.f".to_string(), "g.h".to_string()]
    );
    assert_eq!(
        parsed.values(),
        vec![
            SystemUserPackageState { installed: false, hidden: false },
            SystemUserPackageState { installed: true, hidden: true },
            SystemUserPackageState { installed: true, hidden: true },
            SystemUserPackageState { installed: true, hidden: false },
        ]
    );
}

#[test]
fn malformed_attribute_of_a_kept_tag_is_an_error() {
    assert!(parse_packages_xml_user_apps(r#"<packages><package name="a.b" name2=x /></packages>"#).is_err());
    assert!(parse_packages_xml_user_apps(r#"<packages><other a=x /></packages>"#).unwrap().is_empty());
}
