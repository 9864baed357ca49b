use cloud_image_index::error::ReposError;
use cloud_image_index::helpers::{arch_options_for, filename_from_url, FzfInvoker};
use cloud_image_index::registry::{RegistryCell, Repository};
use cloud_image_index::strutil::parse_u32;

fn sample_repos() -> Vec<Repository> {
    vec![
        Repository::new(
            "ubuntu".to_string(),
            "https://cloud-images.example/{}/index.json".to_string(),
            Some(vec![("base_for_paths".to_string(), "https://cloud-images.example/{}/".to_string())]),
        ),
        Repository::new("debian".to_string(), "https://cloud.debian.example/{}/latest".to_string(), None),
    ]
}

#[test]
fn double_initialization_fails_and_keeps_the_first() {
    let mut cell = RegistryCell::new();
    assert!(cell.init(sample_repos()).is_ok());
    let second = vec![Repository::new("other".to_string(), "https://other/{}".to_string(), None)];
    match cell.init(second) {
        Err(ReposError::AlreadyInitialized) => {},
        other => panic!("expected AlreadyInitialized, got {other:?}"),
    }
    // the first configuration is intact
    let all = cell.all().expect("initialized");
    assert_eq!(all.len(), 2);
    assert_eq!(all[0].name(), "ubuntu");
    let found = cell.by_name("debian").expect("initialized");
    assert_eq!(found.expect("present").url(), "https://cloud.debian.example/{}/latest");
    assert!(cell.by_name("missing").expect("initialized").is_none());
}

#[test]
fn uninitialized_registry_reports_it() {
    let cell = RegistryCell::new();
    assert!(matches!(cell.all(), Err(ReposError::NotInitialized)));
    assert!(matches!(cell.all_owned(), Err(ReposError::NotInitialized)));
    assert!(matches!(cell.by_name("x"), Err(ReposError::NotInitialized)));
}

#[test]
fn owned_copy_matches_the_configuration() {
    let mut cell = RegistryCell::new();
    cell.init(sample_repos()).expect("first init");
    let owned = cell.all_owned().expect("initialized");
    assert_eq!(owned.len(), 2);
    assert_eq!(
        owned[0].param("base_for_paths").expect("parameter present"),
        "https://cloud-images.example/{}/"
    );
    assert!(owned[1].param("base_for_paths").is_none());
    assert!(owned[0].param("missing").is_none());
}

#[test]
fn arch_menus_per_distro() {
    assert_eq!(arch_options_for("Ubuntu"), vec!["amd64", "arm64", "ppc64el", "s390x"]);
    assert_eq!(arch_options_for("Debian"), vec!["amd64", "arm64"]);
    assert_eq!(arch_options_for("AlmaLinux"), vec!["x86_64", "aarch64"]);
    assert_eq!(arch_options_for("Gentoo"), vec!["amd64"]);
}

#[test]
fn download_filename_takes_the_last_segment() {
    assert_eq!(filename_from_url("https://x/a/b/image.qcow2"), "image.qcow2");
    assert_eq!(filename_from_url("https://x/a/b/"), "b");
    assert_eq!(filename_from_url("///"), "download");
    assert_eq!(filename_from_url(""), "download");
}

#[test]
fn picker_holds_title_and_items() {
    let picker = FzfInvoker::new("Select".to_string(), vec!["a".to_string(), "b".to_string()]);
    assert_eq!(picker.msg(), "Select");
    assert_eq!(picker.items().len(), 2);
    assert_eq!(picker.items()[1], "b");
}

#[test]
fn decimal_parse_matches_expectations() {
    assert_eq!(parse_u32("12"), Some(12));
    assert_eq!(parse_u32("0"), Some(0));
    assert_eq!(parse_u32(""), None);
    assert_eq!(parse_u32("12a"), None);
    assert_eq!(parse_u32("4294967295"), Some(u32::MAX));
    assert_eq!(parse_u32("4294967296"), None);
}
