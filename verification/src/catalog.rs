//! The Simplestreams catalog tree: products grouping versions grouping
//! artifact items. Ephemeral — a catalog is flattened into normalized
//! images and discarded.
//!
//! Each level keeps its entries as an ordered list of `(key, value)`
//! pairs; the key of a version entry is the image build version, the key
//! of an item entry its alias.

use vstd::prelude::*;

verus! {

/// Ghost-level picture of an [`Item`].
pub struct ItemModel {
    pub path: Option<Seq<char>>,
    pub sha256: Option<Seq<char>>,
    pub ftype: Option<Seq<char>>,
}

/// One downloadable artifact inside a catalog version.
#[derive(Debug)]
pub struct Item {
    pub path: Option<String>,
    sha256: Option<String>,
    ftype: Option<String>,
}

impl View for Item {
    type V = ItemModel;

    closed spec fn view(&self) -> ItemModel {
        ItemModel {
            path: match self.path {
                Some(ref p) => Some(p@),
                None => None,
            },
            sha256: match self.sha256 {
                Some(ref s) => Some(s@),
                None => None,
            },
            ftype: match self.ftype {
                Some(ref f) => Some(f@),
                None => None,
            },
        }
    }
}

impl Item {
    pub fn new(path: Option<String>, sha256: Option<String>, ftype: Option<String>) -> (r: Self)
        ensures
            r@.path == (match path {
                Some(p) => Some(p@),
                None => None::<Seq<char>>,
            }),
            r@.sha256 == (match sha256 {
                Some(s) => Some(s@),
                None => None::<Seq<char>>,
            }),
            r@.ftype == (match ftype {
                Some(f) => Some(f@),
                None => None::<Seq<char>>,
            }),
    {
        Item { path, sha256, ftype }
    }

    pub fn path(&self) -> (r: &Option<String>)
        ensures
            r matches Some(p) ==> self@.path == Some(p@),
            r is None ==> self@.path is None,
    {
        &self.path
    }

    pub fn sha256(&self) -> (r: &Option<String>)
        ensures
            r matches Some(s) ==> self@.sha256 == Some(s@),
            r is None ==> self@.sha256 is None,
    {
        &self.sha256
    }

    pub fn ftype(&self) -> (r: &Option<String>)
        ensures
            r matches Some(f) ==> self@.ftype == Some(f@),
            r is None ==> self@.ftype is None,
    {
        &self.ftype
    }
}

/// Ghost-level picture of a [`Version`]: alias/item pairs in order.
pub type VersionModel = Seq<(Seq<char>, ItemModel)>;

/// Wraps the list of artifact items for a specific product version,
/// keyed by their alias (e.g. `disk1.img`).
#[derive(Debug)]
pub struct Version {
    items: Vec<(String, Item)>,
}

/// The model of an item list.
pub open spec fn items_model(items: Seq<(String, Item)>) -> VersionModel {
    items.map_values(|e: (String, Item)| (e.0@, e.1@))
}

impl View for Version {
    type V = VersionModel;

    closed spec fn view(&self) -> VersionModel {
        items_model(self.items@)
    }
}

impl Version {
    pub fn new(items: Vec<(String, Item)>) -> (r: Self)
        ensures
            r@ == items_model(items@),
    {
        Version { items }
    }

    /// Borrow all artifacts keyed by their alias.
    pub fn items(&self) -> (r: &Vec<(String, Item)>)
        ensures
            items_model(r@) == self@,
    {
        &self.items
    }
}

/// Ghost-level picture of a [`Product`].
pub struct ProductModel {
    pub arch: Option<Seq<char>>,
    pub os: Option<Seq<char>>,
    pub release: Option<Seq<char>>,
    pub release_codename: Option<Seq<char>>,
    pub distro_version: Option<Seq<char>>,
    pub versions: Seq<(Seq<char>, VersionModel)>,
}

/// Metadata for a Simplestreams product, which groups all artifacts of a
/// specific release. The key of each entry in `versions` is the image
/// build version.
#[derive(Debug)]
pub struct Product {
    arch: Option<String>,
    os: Option<String>,
    release: Option<String>,
    release_codename: Option<String>,
    distro_version: Option<String>,
    versions: Vec<(String, Version)>,
}

/// The model of a version list.
pub open spec fn versions_model(versions: Seq<(String, Version)>) -> Seq<
    (Seq<char>, VersionModel),
> {
    versions.map_values(|e: (String, Version)| (e.0@, e.1@))
}

/// The model of an optional string.
pub open spec fn opt_view(s: Option<String>) -> Option<Seq<char>> {
    match s {
        Some(v) => Some(v@),
        None => None,
    }
}

impl View for Product {
    type V = ProductModel;

    closed spec fn view(&self) -> ProductModel {
        ProductModel {
            arch: opt_view(self.arch),
            os: opt_view(self.os),
            release: opt_view(self.release),
            release_codename: opt_view(self.release_codename),
            distro_version: opt_view(self.distro_version),
            versions: versions_model(self.versions@),
        }
    }
}

impl Product {
    pub fn new(
        arch: Option<String>,
        os: Option<String>,
        release: Option<String>,
        release_codename: Option<String>,
        distro_version: Option<String>,
        versions: Vec<(String, Version)>,
    ) -> (r: Self)
        ensures
            r@.arch == opt_view(arch),
            r@.os == opt_view(os),
            r@.release == opt_view(release),
            r@.release_codename == opt_view(release_codename),
            r@.distro_version == opt_view(distro_version),
            r@.versions == versions_model(versions@),
    {
        Product { arch, os, release, release_codename, distro_version, versions }
    }

    pub fn os(&self) -> (r: Option<String>)
        ensures
            opt_view(r) == self@.os,
    {
        clone_opt(&self.os)
    }

    pub fn release(&self) -> (r: Option<String>)
        ensures
            opt_view(r) == self@.release,
    {
        clone_opt(&self.release)
    }

    pub fn release_codename(&self) -> (r: Option<String>)
        ensures
            opt_view(r) == self@.release_codename,
    {
        clone_opt(&self.release_codename)
    }

    pub fn distro_version(&self) -> (r: Option<String>)
        ensures
            opt_view(r) == self@.distro_version,
    {
        clone_opt(&self.distro_version)
    }

    pub fn arch(&self) -> (r: Option<String>)
        ensures
            opt_view(r) == self@.arch,
    {
        clone_opt(&self.arch)
    }

    pub fn versions(&self) -> (r: &Vec<(String, Version)>)
        ensures
            versions_model(r@) == self@.versions,
    {
        &self.versions
    }
}

/// Clone an optional string, keeping its characters.
fn clone_opt(s: &Option<String>) -> (r: Option<String>)
    ensures
        opt_view(r) == opt_view(*s),
{
    match s {
        Some(v) => Some(v.clone()),
        None => None,
    }
}

/// Ghost-level picture of a [`Catalog`]: key/product pairs in order.
pub type CatalogModel = Seq<(Seq<char>, ProductModel)>;

/// Top-level container for the Simplestreams catalog returned by a
/// repository, keyed by product identifier.
#[derive(Debug)]
pub struct Catalog {
    products: Vec<(String, Product)>,
}

/// The model of a product list.
pub open spec fn products_model(products: Seq<(String, Product)>) -> CatalogModel {
    products.map_values(|e: (String, Product)| (e.0@, e.1@))
}

impl View for Catalog {
    type V = CatalogModel;

    closed spec fn view(&self) -> CatalogModel {
        products_model(self.products@)
    }
}

impl Catalog {
    pub fn new(products: Vec<(String, Product)>) -> (r: Self)
        ensures
            r@ == products_model(products@),
    {
        Catalog { products }
    }

    /// Borrow the catalog entries keyed by their product identifier.
    pub fn products(&self) -> (r: &Vec<(String, Product)>)
        ensures
            products_model(r@) == self@,
    {
        &self.products
    }
}

} // verus!
