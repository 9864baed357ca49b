//! The normalized representation of one downloadable cloud image,
//! independent of which upstream repository format described it.

use vstd::prelude::*;

use crate::checksum::{ChecksumKind, ChecksumModel, ImageChecksum};

verus! {

/// Ghost-level picture of an [`Image`]: the characters of every field.
pub struct ImageModel {
    pub os: Seq<char>,
    pub name: Seq<char>,
    pub distro_version: Seq<char>,
    pub version: Seq<char>,
    pub arch: Seq<char>,
    pub url: Seq<char>,
    pub checksum: Option<ChecksumModel>,
    pub image_type: Seq<char>,
}

/// Normalised representation of a cloud image, regardless of the upstream
/// repository format. Immutable once built.
#[derive(Debug, Clone)]
pub struct Image {
    os: String,
    name: String,
    distro_version: String,
    version: String,
    arch: String,
    url: String,
    checksum: Option<ImageChecksum>,
    image_type: String,
}

impl View for Image {
    type V = ImageModel;

    closed spec fn view(&self) -> ImageModel {
        ImageModel {
            os: self.os@,
            name: self.name@,
            distro_version: self.distro_version@,
            version: self.version@,
            arch: self.arch@,
            url: self.url@,
            checksum: match self.checksum {
                Some(c) => Some(c@),
                None => None,
            },
            image_type: self.image_type@,
        }
    }
}

/// What an optional checksum looks like at the ghost level.
pub open spec fn checksum_model_of(c: Option<ImageChecksum>) -> Option<ChecksumModel> {
    match c {
        Some(cs) => Some(cs@),
        None => None,
    }
}

// ---------------------------------------------------------------------------
// URL joining
// ---------------------------------------------------------------------------

/// The absolute URL that `url::Url::parse(base)` followed by `join(rel)`
/// yields, named but not defined: `None` when parsing or joining fails.
/// Both operations are pure functions of their string arguments.
pub uninterp spec fn url_join_of(base: Seq<char>, rel: Seq<char>) -> Option<Seq<char>>;

/// Relies on `url::Url::parse` and `url::Url::join`: both depend on their
/// string arguments alone; on success the result is the resolved absolute
/// URL in serialized form.
#[verifier::external_body]
fn url_join(base: &str, rel: &str) -> (r: Option<String>)
    ensures
        r is Some <==> url_join_of(base@, rel@) is Some,
        r matches Some(u) ==> Some(u@) == url_join_of(base@, rel@),
{
    match url::Url::parse(base).and_then(|b| b.join(rel)) {
        Ok(u) => Some(String::from(u)),
        Err(_) => None,
    }
}

/// The URL an item ends up with: the RFC-style join of base and relative
/// path when that succeeds, naive concatenation otherwise.
pub open spec fn joined_url(base: Seq<char>, rel: Seq<char>) -> Seq<char> {
    match url_join_of(base, rel) {
        Some(u) => u,
        None => base + rel,
    }
}

impl Image {
    pub fn new(
        os: String,
        name: String,
        distro_version: String,
        version: String,
        arch: String,
        url: String,
        checksum: Option<ImageChecksum>,
        image_type: String,
    ) -> (r: Self)
        ensures
            r@ == (ImageModel {
                os: os@,
                name: name@,
                distro_version: distro_version@,
                version: version@,
                arch: arch@,
                url: url@,
                checksum: checksum_model_of(checksum),
                image_type: image_type@,
            }),
    {
        Image { os, name, distro_version, version, arch, url, checksum, image_type }
    }

    /// Operating system, e.g. `ubuntu`.
    pub fn os(&self) -> (r: &str)
        ensures
            r@ == self@.os,
    {
        self.os.as_str()
    }

    /// Release name, e.g. a codename.
    pub fn name(&self) -> (r: &str)
        ensures
            r@ == self@.name,
    {
        self.name.as_str()
    }

    /// Version of the distribution, e.g. `24.04`.
    pub fn distro_version(&self) -> (r: &str)
        ensures
            r@ == self@.distro_version,
    {
        self.distro_version.as_str()
    }

    /// Build version of the image itself, e.g. `20251001`.
    pub fn version(&self) -> (r: &str)
        ensures
            r@ == self@.version,
    {
        self.version.as_str()
    }

    /// Architecture, e.g. `amd64`.
    pub fn arch(&self) -> (r: &str)
        ensures
            r@ == self@.arch,
    {
        self.arch.as_str()
    }

    /// Absolute URL of the artifact.
    pub fn url(&self) -> (r: &str)
        ensures
            r@ == self@.url,
    {
        self.url.as_str()
    }

    pub fn checksum(&self) -> (r: Option<&ImageChecksum>)
        ensures
            match r {
                Some(c) => self@.checksum == Some(c@),
                None => self@.checksum is None,
            },
    {
        self.checksum.as_ref()
    }

    pub fn checksum_value(&self) -> (r: Option<&str>)
        ensures
            match r {
                Some(v) => self@.checksum matches Some(c) && c.value == v@,
                None => self@.checksum is None,
            },
    {
        match &self.checksum {
            Some(c) => Some(c.value()),
            None => None,
        }
    }

    pub fn checksum_kind(&self) -> (r: Option<ChecksumKind>)
        ensures
            match r {
                Some(k) => self@.checksum matches Some(c) && c.kind == k,
                None => self@.checksum is None,
            },
    {
        match &self.checksum {
            Some(c) => Some(c.kind()),
            None => None,
        }
    }

    /// Convenience for callers expecting SHA-256: `None` when the checksum
    /// is absent or uses another algorithm.
    pub fn sha256(&self) -> (r: Option<&str>)
        ensures
            match r {
                Some(v) => self@.checksum matches Some(c) && c.kind == ChecksumKind::Sha256
                    && c.value == v@,
                None => !(self@.checksum matches Some(c) && c.kind == ChecksumKind::Sha256),
            },
    {
        match &self.checksum {
            Some(c) => match c.kind() {
                ChecksumKind::Sha256 => Some(c.value()),
                ChecksumKind::Sha512 => None,
            },
            None => None,
        }
    }

    /// Image type or variant, e.g. `genericcloud`.
    pub fn image_type(&self) -> (r: &str)
        ensures
            r@ == self@.image_type,
    {
        self.image_type.as_str()
    }

    /// A field-for-field copy.
    pub fn duplicate(&self) -> (r: Self)
        ensures
            r@ == self@,
    {
        Image {
            os: self.os.clone(),
            name: self.name.clone(),
            distro_version: self.distro_version.clone(),
            version: self.version.clone(),
            arch: self.arch.clone(),
            url: self.url.clone(),
            checksum: match &self.checksum {
                Some(c) => Some(ImageChecksum::new(c.kind(), String::from_str(c.value()))),
                None => None,
            },
            image_type: self.image_type.clone(),
        }
    }

    /// Build an image from Simplestreams-style metadata: the optional
    /// SHA-256 digest is wrapped into a typed checksum, and the artifact
    /// URL is the base joined with the relative path, falling back to
    /// naive concatenation when the join fails.
    pub fn from_metadata(
        os_name: String,
        release_name: &str,
        distro_version: &str,
        version: &str,
        architecture: &str,
        base_url: &str,
        relative_path: &str,
        sha256: Option<String>,
        image_type: String,
    ) -> (r: Self)
        ensures
            r@.os == os_name@,
            r@.name == release_name@,
            r@.distro_version == distro_version@,
            r@.version == version@,
            r@.arch == architecture@,
            r@.url == joined_url(base_url@, relative_path@),
            r@.image_type == image_type@,
            match sha256 {
                Some(v) => r@.checksum matches Some(c) && c.kind == ChecksumKind::Sha256
                    && c.value == v@,
                None => r@.checksum is None,
            },
    {
        let checksum = match sha256 {
            Some(value) => Some(ImageChecksum::new(ChecksumKind::Sha256, value)),
            None => None,
        };

        let absolute_url = match url_join(base_url, relative_path) {
            Some(u) => u,
            None => crate::strutil::concat2(base_url, relative_path),
        };

        Image::new(
            os_name,
            String::from_str(release_name),
            String::from_str(distro_version),
            String::from_str(version),
            String::from_str(architecture),
            absolute_url,
            checksum,
            image_type,
        )
    }

    /// Build an image from already-normalized parts.
    pub fn from_parts(
        os: String,
        name: String,
        distro_version: String,
        version: String,
        arch: String,
        url: String,
        checksum: Option<ImageChecksum>,
        image_type: String,
    ) -> (r: Self)
        ensures
            r@ == (ImageModel {
                os: os@,
                name: name@,
                distro_version: distro_version@,
                version: version@,
                arch: arch@,
                url: url@,
                checksum: checksum_model_of(checksum),
                image_type: image_type@,
            }),
    {
        Image::new(os, name, distro_version, version, arch, url, checksum, image_type)
    }
}

/// The models of an image list, in order.
pub open spec fn image_views(s: Seq<Image>) -> Seq<ImageModel> {
    s.map_values(|i: Image| i@)
}

} // verus!
