use cloud_image_index::checksum::{ChecksumKind, ImageChecksum};
use cloud_image_index::error::ResolveError;
use cloud_image_index::image::Image;
use cloud_image_index::wizard::{
    artifact_label, filter_by_field, format_image_label, options_asc, options_desc, ImageField,
    SelectionWizard,
};

fn img(name: &str, dv: &str, v: &str, arch: &str, ty: &str, url: &str) -> Image {
    Image::new(
        "debian".to_string(),
        name.to_string(),
        dv.to_string(),
        v.to_string(),
        arch.to_string(),
        url.to_string(),
        Some(ImageChecksum::new(ChecksumKind::Sha512, "00".to_string())),
        ty.to_string(),
    )
}

fn candidates() -> Vec<Image> {
    vec![
        img("bookworm", "12", "latest", "amd64", "genericcloud", "https://x/a.qcow2"),
        img("bookworm", "12", "latest", "amd64", "genericcloud", "https://x/a.raw"),
        img("bookworm", "12", "20240101-1200", "amd64", "nocloud", "https://x/b.qcow2"),
        img("bookworm", "11", "latest", "amd64", "genericcloud", "https://x/c.qcow2"),
    ]
}

#[test]
fn options_are_distinct_and_ordered() {
    let c = candidates();
    let versions = options_desc(&c, ImageField::Version);
    assert_eq!(versions, vec!["latest".to_string(), "20240101-1200".to_string()]);
    let dvs = options_desc(&c, ImageField::DistroVersion);
    assert_eq!(dvs, vec!["12".to_string(), "11".to_string()]);
    let types = options_asc(&c, ImageField::ImageType);
    assert_eq!(types, vec!["genericcloud".to_string(), "nocloud".to_string()]);
}

#[test]
fn filtering_keeps_matching_candidates_in_order() {
    let c = candidates();
    let kept = filter_by_field(&c, ImageField::DistroVersion, "12");
    assert_eq!(kept.len(), 3);
    assert_eq!(kept[0].url(), "https://x/a.qcow2");
    assert_eq!(kept[2].url(), "https://x/b.qcow2");
}

#[test]
fn narrowing_follows_the_fixed_sequence() {
    let mut wizard = SelectionWizard::new(candidates());
    wizard
        .narrow(ImageField::DistroVersion, "12")
        .expect("distro version narrows");
    wizard.narrow(ImageField::Version, "latest").expect("version narrows");
    wizard
        .narrow(ImageField::ImageType, "genericcloud")
        .expect("type narrows");
    assert_eq!(wizard.candidates().len(), 2);
    let labels = wizard.labels();
    assert_eq!(labels.len(), 2);
    assert_eq!(
        labels[0],
        "bookworm | genericcloud | latest | amd64 | https://x/a.qcow2"
    );
    let chosen = wizard.finish_by_label(&labels[1]).expect("label maps back");
    assert_eq!(chosen.url(), "https://x/a.raw");
    assert!(wizard.finish_by_label("no such label").is_none());
}

#[test]
fn emptying_filter_reports_every_chosen_value() {
    let mut wizard = SelectionWizard::new(candidates());
    wizard
        .narrow(ImageField::DistroVersion, "11")
        .expect("distro version narrows");
    match wizard.narrow(ImageField::ImageType, "nocloud") {
        Err(ResolveError::EmptyResult(chosen)) => {
            assert_eq!(chosen, vec!["11".to_string(), "nocloud".to_string()]);
        },
        other => panic!("expected an empty result, got {other:?}"),
    }
    // the failed step left the survivors untouched
    assert_eq!(wizard.candidates().len(), 1);
    assert_eq!(wizard.chosen(), &vec!["11".to_string()]);
}

#[test]
fn labels_distinguish_otherwise_equal_candidates() {
    let a = img("n", "12", "v", "amd64", "t", "https://x/1");
    let b = img("n", "12", "v", "amd64", "t", "https://x/2");
    assert_ne!(artifact_label(&a), artifact_label(&b));
    assert_eq!(format_image_label(&a), "n | amd64 | https://x/1");
}
