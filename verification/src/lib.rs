//! Verified core of a tool that keeps chosen user apps as system apps on
//! Android: decoding of Android binary XML (ABX) and text XML, parsing of the
//! package manager's metadata, validation of package names, the manager's
//! configuration rules and the boot-time decisions about package data paths,
//! overlay mounts and stale staged packages.

pub mod text;
pub mod numbers;
pub mod unicode;
pub mod xml_error;
pub mod markup;
pub mod abx;
pub mod xmlish;
pub mod package_name;
pub mod package_state;
pub mod package_set;
pub mod candidates;
pub mod pm;
pub mod install_path;
pub mod xml_events;
pub mod package_xml;
pub mod manager_config;
pub mod manager;
pub mod manager_xml;
pub mod installed_apps;
pub mod boot_config;
pub mod boot_xml;
pub mod boot;
