use cloud_image_index::debian::{
    build_codename_options, codename_options, codenames_or_default, detect_major_in_text,
    discover_build_dirs, normalize_arch, parse_codename_dirs, parse_debian_line, repository_root,
    repository_template, repository_urls, verify_asset, DebianProvider, ImageAsset, ImageRequest,
};
use cloud_image_index::debian::debian_list;
use cloud_image_index::error::ResolveError;
use cloud_image_index::registry::Repository;

fn debian_repo() -> Repository {
    Repository::new(
        "debian".to_string(),
        "https://cloud.debian.org/images/cloud/{}/latest".to_string(),
        None,
    )
}

#[test]
fn manifest_line_captures_groups_verbatim() {
    let sha = "e".repeat(128);
    let line = format!("{sha}  debian-12-genericcloud-amd64.qcow2");
    let parts = parse_debian_line(&line).expect("line should parse");
    assert_eq!(parts.sha, sha);
    assert_eq!(parts.file, "debian-12-genericcloud-amd64.qcow2");
    assert_eq!(parts.dver, "12");
    assert_eq!(parts.variant, "genericcloud");
    assert_eq!(parts.arch, "amd64");
    assert_eq!(parts.ext, "qcow2");
}

#[test]
fn manifest_line_digest_case_is_irrelevant() {
    let lower = format!("{}  debian-12-nocloud-arm64.raw", "a".repeat(64));
    let upper = format!("{}  debian-12-nocloud-arm64.raw", "A".repeat(64));
    let p1 = parse_debian_line(&lower).expect("lowercase digest should parse");
    let p2 = parse_debian_line(&upper).expect("uppercase digest should parse");
    assert_eq!(p1.file, p2.file);
    assert_eq!(p2.sha, "A".repeat(64));
}

#[test]
fn manifest_line_accepts_star_marker() {
    let line = format!("{} *debian-13-genericcloud-amd64.qcow2", "0".repeat(128));
    let parts = parse_debian_line(&line).expect("line should parse");
    assert_eq!(parts.file, "debian-13-genericcloud-amd64.qcow2");
}

#[test]
fn manifest_line_rejects_other_shapes() {
    assert!(parse_debian_line("").is_none());
    assert!(parse_debian_line("not a line").is_none());
    let bad_ext = format!("{}  debian-12-genericcloud-amd64.iso", "a".repeat(64));
    assert!(parse_debian_line(&bad_ext).is_none());
    let bad_arch = format!("{}  debian-12-genericcloud-mips64.qcow2", "a".repeat(64));
    assert!(parse_debian_line(&bad_arch).is_none());
    let no_space = format!("{}debian-12-genericcloud-amd64.qcow2", "a".repeat(64));
    assert!(parse_debian_line(&no_space).is_none());
}

#[test]
fn build_dirs_latest_first_then_dates_descending() {
    let html = r#"
        <a href="20230101-1111/">old</a>
        <a href="latest/">latest</a>
        <a href="20240101-1200/">new</a>
        <a href="20240101-1200/">dup</a>
        <a href="weird/">skip</a>
        <a href="2024/">skip</a>
    "#;
    let dirs = discover_build_dirs(html);
    assert_eq!(
        dirs,
        vec![
            "latest".to_string(),
            "20240101-1200".to_string(),
            "20230101-1111".to_string()
        ]
    );
}

#[test]
fn end_to_end_synthetic_index_resolves_one_candidate() {
    let index = r#"<a href="latest/">latest</a> <a href="20240101-1200/">b</a>"#;
    let dirs = discover_build_dirs(index);
    assert_eq!(dirs[0], "latest");
    let sha = "5".repeat(128);
    let manifest = format!("{sha}  debian-12-genericcloud-amd64.qcow2");
    let fetched: Vec<(String, Option<String>)> = dirs
        .into_iter()
        .map(|d| {
            if d == "latest" {
                (d, Some(manifest.clone()))
            } else {
                (d, None)
            }
        })
        .collect();
    let images = debian_list("test", "https://x.example/cloud/test/", &fetched, "amd64");
    assert_eq!(images.len(), 1);
    let img = &images[0];
    assert_eq!(img.distro_version(), "12");
    assert_eq!(img.image_type(), "genericcloud");
    assert_eq!(img.version(), "latest");
    assert_eq!(img.name(), "test");
    assert_eq!(img.arch(), "amd64");
    assert_eq!(
        img.url(),
        "https://x.example/cloud/test/latest/debian-12-genericcloud-amd64.qcow2"
    );
    assert_eq!(img.checksum_value(), Some(sha.as_str()));
}

#[test]
fn listing_excludes_non_matching_architecture() {
    let sha = "6".repeat(64);
    let manifest = format!(
        "{sha}  debian-12-genericcloud-amd64.qcow2\n{sha}  debian-12-genericcloud-arm64.qcow2"
    );
    let fetched = vec![("latest".to_string(), Some(manifest))];
    let images = debian_list("bookworm", "https://x/", &fetched, "arm64");
    assert_eq!(images.len(), 1);
    assert_eq!(images[0].arch(), "arm64");
}

#[test]
fn request_arch_is_normalized_not_filenames() {
    assert_eq!(normalize_arch("x86_64"), "amd64");
    assert_eq!(normalize_arch("arm64"), "arm64");
    let sha = "7".repeat(64);
    let manifest = format!("{sha}  debian-12-nocloud-amd64.raw");
    let fetched = vec![("20240101".to_string(), Some(manifest))];
    let images = debian_list("bookworm", "https://x/", &fetched, "x86_64");
    assert_eq!(images.len(), 1);
    assert_eq!(images[0].arch(), "amd64");
}

#[test]
fn codename_discovery_and_defaults() {
    let html = r#"<a href="bookworm/">b</a> <a href="trixie/">t</a> <a href="bookworm/">b</a>"#;
    let names = parse_codename_dirs(html);
    assert_eq!(names, vec!["bookworm".to_string(), "trixie".to_string()]);
    assert_eq!(
        codenames_or_default(Vec::new()),
        vec![
            "stable".to_string(),
            "bookworm".to_string(),
            "trixie".to_string()
        ]
    );
    assert_eq!(codename_options(), vec!["stable", "bookworm", "trixie"]);
}

#[test]
fn major_detection_finds_first_occurrence() {
    let text = "aaa debian-12-genericcloud-amd64.qcow2\nbbb debian-13-x";
    assert_eq!(detect_major_in_text(text), Some("12".to_string()));
    assert_eq!(detect_major_in_text("nothing here"), None);
}

#[test]
fn codename_options_order_majors_numerically_descending() {
    let pairs = vec![
        ("bookworm".to_string(), Some("12".to_string())),
        ("unknown".to_string(), None),
        ("forky".to_string(), Some("14".to_string())),
        ("trixie".to_string(), Some("13".to_string())),
    ];
    let options = build_codename_options(pairs);
    let codenames: Vec<&str> = options.iter().map(|o| o.codename.as_str()).collect();
    assert_eq!(codenames, vec!["forky", "trixie", "bookworm", "unknown"]);
    assert_eq!(options[0].label, "14 (forky)");
    assert_eq!(options[3].label, "unknown");
}

#[test]
fn repository_url_helpers_split_and_root() {
    let repo = debian_repo();
    let (prefix, suffix) = repository_template(&repo).expect("template splits");
    assert_eq!(prefix, "https://cloud.debian.org/images/cloud/");
    assert_eq!(suffix, "/latest");
    assert_eq!(
        repository_root(&repo).expect("root"),
        "https://cloud.debian.org/images/cloud/"
    );
    let urls = repository_urls(&repo, "bookworm").expect("urls");
    assert_eq!(
        urls.latest,
        "https://cloud.debian.org/images/cloud/bookworm/latest/"
    );
    assert_eq!(
        urls.listing_root,
        "https://cloud.debian.org/images/cloud/bookworm/"
    );
}

#[test]
fn provider_selects_first_matching_line() {
    let provider = DebianProvider;
    let req = ImageRequest {
        distro: "debian".to_string(),
        codename_or_major: "bookworm".to_string(),
        arch: "x86_64".to_string(),
        variant: "GenericCloud".to_string(),
        format: "qcow2".to_string(),
    };
    let sha = "9".repeat(128);
    let sums = format!(
        "{sha}  debian-12-nocloud-amd64.qcow2\n{sha}  debian-12-genericcloud-amd64.qcow2"
    );
    let asset = provider
        .select_asset(&req, &sums, "https://x/latest/")
        .expect("asset resolves");
    assert_eq!(asset.filename, "debian-12-genericcloud-amd64.qcow2");
    assert_eq!(asset.url, "https://x/latest/debian-12-genericcloud-amd64.qcow2");
    assert_eq!(asset.sha512, sha);
}

#[test]
fn provider_reports_filters_when_nothing_matches() {
    let provider = DebianProvider;
    let req = ImageRequest {
        distro: "debian".to_string(),
        codename_or_major: "bookworm".to_string(),
        arch: "amd64".to_string(),
        variant: "nocloud".to_string(),
        format: "raw".to_string(),
    };
    match provider.select_asset(&req, "nothing here", "https://x/") {
        Err(ResolveError::EmptyResult(filters)) => {
            assert_eq!(
                filters,
                vec!["nocloud".to_string(), "amd64".to_string(), "raw".to_string()]
            );
        },
        other => panic!("expected an empty result, got {other:?}"),
    }
}

#[test]
fn asset_verification_checks_sha512() {
    let bytes = b"abc";
    let good = "ddaf35a193617abacc417349ae20413112e6fa4e89a97ea20a9eeee64b55d39a\
                2192992a274fc1a836ba3c23a3feebbd454d4423643ce80e2a9ac94fa54ca49f";
    let asset = ImageAsset {
        url: "https://x/f".to_string(),
        sha512: good.to_uppercase(),
        filename: "f".to_string(),
    };
    assert!(verify_asset(bytes, &asset).is_ok());
    let bad_asset = ImageAsset {
        url: "https://x/f".to_string(),
        sha512: good.to_string(),
        filename: "f".to_string(),
    };
    // flipping one bit of the input must change the digest
    match verify_asset(b"abd", &bad_asset) {
        Err(ResolveError::ChecksumMismatch { expected, actual }) => {
            assert_eq!(expected, good);
            assert_ne!(actual, good);
        },
        other => panic!("expected a checksum mismatch, got {other:?}"),
    }
}
