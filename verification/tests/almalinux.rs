use cloud_image_index::almalinux::{
    almalinux_list, majors_or_default, parse_alma_line, parse_artifact_filename, parse_major_dirs,
    repository_base_url, split_version_parts, AlmaArtifact,
};
use cloud_image_index::error::ResolveError;
use cloud_image_index::registry::Repository;

#[test]
fn split_version_with_latest() {
    let (distro, version) = split_version_parts("latest", "9");
    assert_eq!(distro, "9");
    assert_eq!(version, "latest");
}

#[test]
fn split_version_with_release_and_build() {
    let (distro, version) = split_version_parts("9.4-20240513", "9");
    assert_eq!(distro, "9.4");
    assert_eq!(version, "20240513");
}

#[test]
fn split_version_without_delimiter() {
    let (distro, version) = split_version_parts("20240513", "9");
    assert_eq!(distro, "9");
    assert_eq!(version, "20240513");
}

#[test]
fn parse_valid_artifact_filename() {
    let artifact = parse_artifact_filename(
        "AlmaLinux-9-GenericCloud-9.4-20240513.x86_64.qcow2",
        "x86_64",
    )
    .expect("expected artifact to parse");

    assert_eq!(
        artifact,
        AlmaArtifact {
            filename: "AlmaLinux-9-GenericCloud-9.4-20240513.x86_64.qcow2".to_string(),
            major: "9".to_string(),
            variant: "GenericCloud".to_string(),
            distro_version: "9.4".to_string(),
            image_version: "20240513".to_string(),
            arch: "x86_64".to_string(),
            format: "qcow2".to_string(),
        }
    );
}

#[test]
fn parse_skips_other_architectures() {
    assert!(
        parse_artifact_filename(
            "AlmaLinux-9-GenericCloud-9.4-20240513.aarch64.qcow2",
            "x86_64"
        )
        .is_none()
    );
}

#[test]
fn parse_skips_checksum_artifacts() {
    assert!(
        parse_artifact_filename(
            "AlmaLinux-9-GenericCloud-9.4-20240513.x86_64.qcow2.CHECKSUM",
            "x86_64"
        )
        .is_none()
    );
}

#[test]
fn parse_accepts_uefi_variant_with_hyphens() {
    let artifact = parse_artifact_filename(
        "AlmaLinux-9-GenericCloud-UEFI-CVM-9.4-20240513.x86_64.qcow2",
        "x86_64",
    )
    .expect("expected artifact to parse");
    assert_eq!(artifact.variant, "GenericCloud-UEFI-CVM");
    assert_eq!(artifact.distro_version, "9.4");
    assert_eq!(artifact.image_version, "20240513");
}

#[test]
fn parse_rejects_signature_extension() {
    assert!(
        parse_artifact_filename("AlmaLinux-9-GenericCloud-latest.x86_64.qcow2.sig", "x86_64")
            .is_none()
    );
}

#[test]
fn parse_latest_fragment_uses_major() {
    let artifact =
        parse_artifact_filename("AlmaLinux-9-GenericCloud-latest.x86_64.qcow2", "x86_64")
            .expect("expected artifact to parse");
    assert_eq!(artifact.distro_version, "9");
    assert_eq!(artifact.image_version, "latest");
}

#[test]
fn checksum_line_parses() {
    let line = "SHA256 (AlmaLinux-9-GenericCloud-9.4-20240513.x86_64.qcow2) = \
                a1b2c3d4e5f6a1b2c3d4e5f6a1b2c3d4e5f6a1b2c3d4e5f6a1b2c3d4e5f6a1b2";
    let (file, sha) = parse_alma_line(line).expect("expected line to parse");
    assert_eq!(file, "AlmaLinux-9-GenericCloud-9.4-20240513.x86_64.qcow2");
    assert_eq!(
        sha,
        "a1b2c3d4e5f6a1b2c3d4e5f6a1b2c3d4e5f6a1b2c3d4e5f6a1b2c3d4e5f6a1b2"
    );
}

#[test]
fn checksum_line_rejects_short_digest() {
    assert!(parse_alma_line("SHA256 (AlmaLinux-9-G-latest.x86_64.qcow2) = abc123").is_none());
    assert!(parse_alma_line("MD5 (AlmaLinux-9-G-latest.x86_64.qcow2) = abc123").is_none());
}

#[test]
fn listing_parses_and_orders_most_recent_first() {
    let sha_a = "a".repeat(64);
    let sha_b = "b".repeat(64);
    let sha_c = "c".repeat(64);
    let body = format!(
        "SHA256 (AlmaLinux-9-GenericCloud-9.3-20231113.x86_64.qcow2) = {sha_a}\n\
         \n\
         SHA256 (AlmaLinux-9-GenericCloud-9.4-20240513.x86_64.qcow2) = {sha_b}\n\
         SHA256 (AlmaLinux-9-GenericCloud-9.4-20240513.aarch64.qcow2) = {sha_c}\n\
         not a checksum line\n"
    );
    let images = almalinux_list("https://repo.example/9/x86_64/", &body, "x86_64");
    assert_eq!(images.len(), 2);
    assert_eq!(images[0].distro_version(), "9.4");
    assert_eq!(images[0].version(), "20240513");
    assert_eq!(
        images[0].url(),
        "https://repo.example/9/x86_64/AlmaLinux-9-GenericCloud-9.4-20240513.x86_64.qcow2"
    );
    assert_eq!(images[0].checksum_value(), Some(sha_b.as_str()));
    assert_eq!(images[1].distro_version(), "9.3");
    assert_eq!(images[0].os(), "almalinux");
    assert_eq!(images[0].name(), "GenericCloud");
    assert_eq!(images[0].image_type(), "qcow2");
}

#[test]
fn listing_sort_is_idempotent() {
    let sha = "d".repeat(64);
    let body = format!(
        "SHA256 (AlmaLinux-8-GenericCloud-8.9-20240101.x86_64.qcow2) = {sha}\n\
         SHA256 (AlmaLinux-9-GenericCloud-9.4-20240513.x86_64.qcow2) = {sha}\n\
         SHA256 (AlmaLinux-9-TestCloud-9.4-20240513.x86_64.qcow2) = {sha}\n"
    );
    let once = almalinux_list("https://repo.example/", &body, "x86_64");
    let urls: Vec<String> = once.iter().map(|i| i.url().to_string()).collect();
    // sorting the already-sorted candidate list is a no-op
    let again = cloud_image_index::almalinux::sort_images(once.clone());
    let urls_again: Vec<String> = again.iter().map(|i| i.url().to_string()).collect();
    assert_eq!(urls, urls_again);
    assert_eq!(once[0].distro_version(), "9.4");
    assert_eq!(once[0].name(), "GenericCloud");
    assert_eq!(once[1].name(), "TestCloud");
    assert_eq!(once[2].distro_version(), "8.9");
}

#[test]
fn base_url_substitutes_both_placeholders() {
    let repo = Repository::new(
        "almalinux".to_string(),
        "https://repo.example/{}/cloud/{}/images".to_string(),
        None,
    );
    let base = repository_base_url(&repo, "9", "x86_64").expect("base url");
    assert_eq!(base, "https://repo.example/9/cloud/x86_64/images/");
}

#[test]
fn base_url_needs_two_placeholders() {
    let repo = Repository::new(
        "almalinux".to_string(),
        "https://repo.example/{}/images".to_string(),
        None,
    );
    match repository_base_url(&repo, "9", "x86_64") {
        Err(ResolveError::Configuration(_)) => {},
        other => panic!("expected a configuration error, got {other:?}"),
    }
}

#[test]
fn major_dirs_are_distinct_descending() {
    let html = r#"<a href="8/">8</a> <a href="9/">9</a> <a href="8/">8</a> <a href="10/">10</a> <a href="123/">123</a>"#;
    let majors = parse_major_dirs(html);
    assert_eq!(majors, vec!["9".to_string(), "8".to_string(), "10".to_string()]);
}

#[test]
fn majors_fall_back_to_defaults() {
    assert_eq!(majors_or_default(None), vec!["9".to_string(), "8".to_string()]);
    assert_eq!(
        majors_or_default(Some(Vec::new())),
        vec!["9".to_string(), "8".to_string()]
    );
    assert_eq!(
        majors_or_default(Some(vec!["10".to_string()])),
        vec!["10".to_string()]
    );
}
