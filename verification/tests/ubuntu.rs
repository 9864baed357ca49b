use cloud_image_index::catalog::{Catalog, Item, Product, Version};
use cloud_image_index::error::ResolveError;
use cloud_image_index::image::Image;
use cloud_image_index::registry::Repository;
use cloud_image_index::ubuntu::{
    catalog_file_name, construct_repo_url, ubuntu_base_for_paths, ubuntu_list,
};

fn sample_item(path: &str, sha: Option<&str>) -> Item {
    Item::new(
        Some(path.to_string()),
        sha.map(|s| s.to_string()),
        Some("disk-kvm.img".to_string()),
    )
}

fn sample_catalog() -> Catalog {
    let items = vec![
        ("disk1.img".to_string(), sample_item("server/noble/n.img", Some("aa"))),
        ("manifest".to_string(), Item::new(None, None, None)),
    ];
    let versions = vec![("20240501".to_string(), Version::new(items))];
    let product = Product::new(
        Some("amd64".to_string()),
        Some("ubuntu".to_string()),
        Some("noble".to_string()),
        None,
        Some("24.04".to_string()),
        versions,
    );
    let arm_product = Product::new(
        None,
        Some("ubuntu".to_string()),
        Some("noble".to_string()),
        None,
        Some("24.04".to_string()),
        vec![(
            "20240502".to_string(),
            Version::new(vec![(
                "disk1.img".to_string(),
                sample_item("server/noble/arm.img", None),
            )]),
        )],
    );
    Catalog::new(vec![
        ("com.ubuntu:noble:amd64".to_string(), product),
        ("com.ubuntu:noble:arm64".to_string(), arm_product),
    ])
}

#[test]
fn flattening_yields_one_image_per_kept_triple() {
    let catalog = sample_catalog();
    let images: Vec<Image> =
        ubuntu_list(&catalog, "amd64", false, "https://cloud-images.example/releases/")
            .expect("flattening succeeds");
    assert_eq!(images.len(), 1);
    let img = &images[0];
    assert_eq!(img.os(), "ubuntu");
    assert_eq!(img.name(), "noble");
    assert_eq!(img.distro_version(), "24.04");
    assert_eq!(img.version(), "20240501");
    assert_eq!(img.arch(), "amd64");
    assert_eq!(img.image_type(), "disk1.img");
    assert_eq!(
        img.url(),
        "https://cloud-images.example/releases/server/noble/n.img"
    );
    assert_eq!(img.sha256(), Some("aa"));
}

#[test]
fn arch_is_inferred_from_the_product_key_tail() {
    let catalog = sample_catalog();
    let images = ubuntu_list(&catalog, "arm64", false, "https://x/").expect("flattening succeeds");
    assert_eq!(images.len(), 1);
    assert_eq!(images[0].arch(), "arm64");
    assert_eq!(images[0].version(), "20240502");
}

#[test]
fn disk_image_filter_drops_other_extensions() {
    let items = vec![
        ("a".to_string(), sample_item("x.tar.gz", None)),
        ("b".to_string(), sample_item("y.qcow2", None)),
    ];
    let product = Product::new(
        Some("amd64".to_string()),
        Some("ubuntu".to_string()),
        None,
        None,
        None,
        vec![("v1".to_string(), Version::new(items))],
    );
    let catalog = Catalog::new(vec![("k:amd64".to_string(), product)]);
    let images = ubuntu_list(&catalog, "amd64", true, "https://x/").expect("flattening succeeds");
    assert_eq!(images.len(), 1);
    assert_eq!(images[0].image_type(), "b");
    // the defaults fill in missing release and version metadata
    assert_eq!(images[0].name(), "ubuntu");
    assert_eq!(images[0].distro_version(), "No distro version found");
}

#[test]
fn missing_os_fails_the_whole_parse() {
    let product = Product::new(
        Some("amd64".to_string()),
        None,
        None,
        None,
        None,
        vec![(
            "v1".to_string(),
            Version::new(vec![("a".to_string(), sample_item("x.img", None))]),
        )],
    );
    let catalog = Catalog::new(vec![("k".to_string(), product)]);
    match ubuntu_list(&catalog, "amd64", false, "https://x/") {
        Err(ResolveError::Parse(_)) => {},
        other => panic!("expected a parse error, got {other:?}"),
    }
}

#[test]
fn join_failure_falls_back_to_concatenation() {
    let items = vec![("a".to_string(), sample_item("rel/path.img", None))];
    let product = Product::new(
        Some("amd64".to_string()),
        Some("ubuntu".to_string()),
        None,
        None,
        None,
        vec![("v1".to_string(), Version::new(items))],
    );
    let catalog = Catalog::new(vec![("k".to_string(), product)]);
    let images = ubuntu_list(&catalog, "amd64", false, "not a url ").expect("flatten");
    assert_eq!(images[0].url(), "not a url rel/path.img");
}

#[test]
fn repo_url_substitutes_the_track() {
    let repo = Repository::new(
        "ubuntu".to_string(),
        "https://cloud-images.example/{}/streams/v1/index.json".to_string(),
        Some(vec![(
            "base_for_paths".to_string(),
            "https://cloud-images.example/{}/".to_string(),
        )]),
    );
    assert_eq!(
        construct_repo_url(&repo, "releases"),
        "https://cloud-images.example/releases/streams/v1/index.json"
    );
    assert_eq!(
        ubuntu_base_for_paths(&repo, "releases").expect("parameter present"),
        "https://cloud-images.example/releases/"
    );
    let bare = Repository::new("ubuntu".to_string(), "https://x/{}".to_string(), None);
    match ubuntu_base_for_paths(&bare, "releases") {
        Err(ResolveError::Configuration(_)) => {},
        other => panic!("expected a configuration error, got {other:?}"),
    }
}

#[test]
fn catalog_cache_name_comes_from_the_url() {
    assert_eq!(catalog_file_name("https://x/streams/v1/index.json"), "index.json");
    assert_eq!(catalog_file_name("https://x/streams/"), "repo.json");
}
