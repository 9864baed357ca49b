//! The Ubuntu provider: a Simplestreams catalog of products, each
//! grouping versions that group artifact items, flattened into normalized
//! images filtered by the requested architecture.

use vstd::prelude::*;

use crate::catalog::{Catalog, CatalogModel, ItemModel, ProductModel, VersionModel};
use crate::checksum::{ChecksumKind, ChecksumModel};
use crate::error::ResolveError;
use crate::image::{image_views, joined_url, Image, ImageModel};
use crate::registry::Repository;
use crate::strutil::{
    ends_with, replace_first, replace_first_spec, str_eq, str_ends_with, substring,
};

verus! {

// ---------------------------------------------------------------------------
// Architecture resolution
// ---------------------------------------------------------------------------

/// The architecture tokens a product key may end with.
pub open spec fn known_arch(s: Seq<char>) -> bool {
    s == "amd64"@ || s == "arm64"@ || s == "ppc64el"@ || s == "s390x"@
}

/// The segment of a product key after its last colon, or the whole key.
pub open spec fn product_tail(key: Seq<char>) -> Seq<char> {
    key.subrange(crate::almalinux::last_index_of(key, ':') + 1, key.len() as int)
}

/// The architecture a product resolves to: its explicit field when
/// present, else the trailing colon-delimited segment of its key when
/// that is a known token, else nothing — such a product is dropped.
pub open spec fn resolved_arch(key: Seq<char>, p: ProductModel) -> Option<Seq<char>> {
    match p.arch {
        Some(a) => Some(a),
        None => {
            if known_arch(product_tail(key)) {
                Some(product_tail(key))
            } else {
                None
            }
        },
    }
}

/// Does this product resolve to exactly the requested architecture?
fn resolves_to(key: &str, product: &crate::catalog::Product, target_arch: &str) -> (r: bool)
    ensures
        r == (resolved_arch(key@, product@) == Some(target_arch@)),
{
    match product.arch() {
        Some(a) => str_eq(a.as_str(), target_arch),
        None => {
            let n = key.unicode_len();
            let mut k: usize = n;
            while k > 0 && key.get_char(k - 1) != ':'
                invariant
                    k <= n,
                    n == key@.len(),
                    forall|t: int| k <= t < n ==> key@[t] != ':',
                decreases k,
            {
                k -= 1;
            }
            proof {
                if k == 0 {
                    crate::almalinux::lemma_last_index_scan(key@, ':', -1);
                } else {
                    crate::almalinux::lemma_last_index_scan(key@, ':', k as int - 1);
                }
            }
            let tail = substring(key, k, n);
            let is_known = str_eq(tail.as_str(), "amd64") || str_eq(tail.as_str(), "arm64")
                || str_eq(tail.as_str(), "ppc64el") || str_eq(tail.as_str(), "s390x");
            if is_known {
                str_eq(tail.as_str(), target_arch)
            } else {
                false
            }
        },
    }
}

// ---------------------------------------------------------------------------
// Flattening
// ---------------------------------------------------------------------------

/// Keep an item when it has a path and, under the disk-image filter, the
/// path names a disk image.
pub open spec fn keep_item(item: ItemModel, only_disk_images: bool) -> bool {
    &&& item.path is Some
    &&& (!only_disk_images || ends_with(item.path->Some_0, ".img"@) || ends_with(
        item.path->Some_0,
        ".qcow2"@,
    ))
}

/// The release name a product reports, defaulted.
pub open spec fn release_name_of(p: ProductModel) -> Seq<char> {
    match p.release {
        Some(r) => r,
        None => "ubuntu"@,
    }
}

/// The distro version a product reports, with the placeholder
/// substituted when upstream omits it.
pub open spec fn distro_version_of(p: ProductModel) -> Seq<char> {
    match p.distro_version {
        Some(d) => d,
        None => "No distro version found"@,
    }
}

/// The image one kept item yields: the version map's key is the image's
/// build version, the item's alias its type, and the URL joins the base
/// with the item's relative path.
pub open spec fn item_image_model(
    os: Seq<char>,
    release_name: Seq<char>,
    distro_version: Seq<char>,
    version_id: Seq<char>,
    arch: Seq<char>,
    base: Seq<char>,
    alias: Seq<char>,
    item: ItemModel,
) -> ImageModel {
    ImageModel {
        os: os,
        name: release_name,
        distro_version: distro_version,
        version: version_id,
        arch: arch,
        url: joined_url(base, item.path->Some_0),
        checksum: match item.sha256 {
            Some(v) => Some(ChecksumModel { kind: ChecksumKind::Sha256, value: v }),
            None => None,
        },
        image_type: alias,
    }
}

/// The images of one version's items from `idx` on: one per kept item.
pub open spec fn items_images(
    items: VersionModel,
    os: Seq<char>,
    release_name: Seq<char>,
    distro_version: Seq<char>,
    version_id: Seq<char>,
    arch: Seq<char>,
    base: Seq<char>,
    only_disk_images: bool,
    idx: int,
) -> Seq<ImageModel>
    decreases items.len() - idx,
{
    if idx < 0 || idx >= items.len() {
        Seq::<ImageModel>::empty()
    } else {
        let head = if keep_item(items[idx].1, only_disk_images) {
            seq![
                item_image_model(
                    os,
                    release_name,
                    distro_version,
                    version_id,
                    arch,
                    base,
                    items[idx].0,
                    items[idx].1,
                ),
            ]
        } else {
            Seq::<ImageModel>::empty()
        };
        head + items_images(
            items,
            os,
            release_name,
            distro_version,
            version_id,
            arch,
            base,
            only_disk_images,
            idx + 1,
        )
    }
}

/// The images of one product's versions from `idx` on.
pub open spec fn versions_images(
    versions: Seq<(Seq<char>, VersionModel)>,
    os: Seq<char>,
    release_name: Seq<char>,
    distro_version: Seq<char>,
    arch: Seq<char>,
    base: Seq<char>,
    only_disk_images: bool,
    idx: int,
) -> Seq<ImageModel>
    decreases versions.len() - idx,
{
    if idx < 0 || idx >= versions.len() {
        Seq::<ImageModel>::empty()
    } else {
        items_images(
            versions[idx].1,
            os,
            release_name,
            distro_version,
            versions[idx].0,
            arch,
            base,
            only_disk_images,
            0,
        ) + versions_images(
            versions,
            os,
            release_name,
            distro_version,
            arch,
            base,
            only_disk_images,
            idx + 1,
        )
    }
}

/// The images one product contributes: every (version, item) pair of a
/// product resolving to the requested architecture, none otherwise.
pub open spec fn product_images(
    key: Seq<char>,
    p: ProductModel,
    target_arch: Seq<char>,
    base: Seq<char>,
    only_disk_images: bool,
) -> Seq<ImageModel> {
    if resolved_arch(key, p) == Some(target_arch) {
        versions_images(
            p.versions,
            p.os->Some_0,
            release_name_of(p),
            distro_version_of(p),
            target_arch,
            base,
            only_disk_images,
            0,
        )
    } else {
        Seq::<ImageModel>::empty()
    }
}

/// The images of the catalog's products from `idx` on.
pub open spec fn catalog_images_from(
    products: CatalogModel,
    target_arch: Seq<char>,
    base: Seq<char>,
    only_disk_images: bool,
    idx: int,
) -> Seq<ImageModel>
    decreases products.len() - idx,
{
    if idx < 0 || idx >= products.len() {
        Seq::<ImageModel>::empty()
    } else {
        product_images(products[idx].0, products[idx].1, target_arch, base, only_disk_images)
            + catalog_images_from(products, target_arch, base, only_disk_images, idx + 1)
    }
}

/// Does some version of this product keep at least one item?
pub open spec fn product_has_kept(p: ProductModel, only_disk_images: bool) -> bool {
    exists|v: int, k: int|
        0 <= v < p.versions.len() && 0 <= k < p.versions[v].1.len() && keep_item(
            #[trigger] p.versions[v].1[k].1,
            only_disk_images,
        )
}

/// A catalog is missing an OS name when a product that contributes at
/// least one image lacks one; that fails the whole parse.
pub open spec fn catalog_missing_os(
    products: CatalogModel,
    target_arch: Seq<char>,
    only_disk_images: bool,
) -> bool {
    exists|i: int|
        0 <= i < products.len() && resolved_arch(
            (#[trigger] products[i]).0,
            products[i].1,
        ) == Some(target_arch) && products[i].1.os is None && product_has_kept(
            products[i].1,
            only_disk_images,
        )
}

/// Does some version of this product keep at least one item?
fn has_kept_item(product: &crate::catalog::Product, only_disk_images: bool) -> (r: bool)
    ensures
        r == product_has_kept(product@, only_disk_images),
{
    let versions = product.versions();
    let ghost vm = product@.versions;
    let mut v: usize = 0;
    while v < versions.len()
        invariant
            v <= versions@.len(),
            vm == crate::catalog::versions_model(versions@),
            vm == product@.versions,
            forall|a: int, k: int|
                0 <= a < v && 0 <= k < vm[a].1.len() ==> !keep_item(
                    #[trigger] vm[a].1[k].1,
                    only_disk_images,
                ),
        decreases versions@.len() - v,
    {
        let items = versions[v].1.items();
        let ghost im = vm[v as int].1;
        proof {
            assert(im == crate::catalog::items_model(items@));
        }
        let mut k: usize = 0;
        while k < items.len()
            invariant
                k <= items@.len(),
                im == crate::catalog::items_model(items@),
                vm == product@.versions,
                v < vm.len(),
                im == vm[v as int].1,
                forall|t: int| 0 <= t < k ==> !keep_item(#[trigger] im[t].1, only_disk_images),
            decreases items@.len() - k,
        {
            if item_kept(&items[k].1, only_disk_images) {
                proof {
                    assert(im[k as int].1 == items@[k as int].1@);
                    assert(keep_item(vm[v as int].1[k as int].1, only_disk_images));
                }
                return true;
            }
            proof {
                assert(im[k as int].1 == items@[k as int].1@);
            }
            k += 1;
        }
        v += 1;
    }
    false
}

/// Keep this item?
fn item_kept(item: &crate::catalog::Item, only_disk_images: bool) -> (r: bool)
    ensures
        r == keep_item(item@, only_disk_images),
{
    match item.path() {
        Some(path) => {
            if !only_disk_images {
                true
            } else {
                str_ends_with(path.as_str(), ".img") || str_ends_with(path.as_str(), ".qcow2")
            }
        },
        None => false,
    }
}

/// Flatten a catalog into normalized images for one architecture:
/// exactly one image per (product, version, item) triple whose product
/// resolves to the requested architecture and whose item is kept. A
/// contributing product without an OS name fails the whole parse.
pub fn ubuntu_list(
    catalog: &Catalog,
    target_arch: &str,
    only_disk_images: bool,
    base_url_for_paths: &str,
) -> (r: Result<Vec<Image>, ResolveError>)
    ensures
        match r {
            Ok(images) => !catalog_missing_os(catalog@, target_arch@, only_disk_images)
                && image_views(images@) == catalog_images_from(
                catalog@,
                target_arch@,
                base_url_for_paths@,
                only_disk_images,
                0,
            ),
            Err(e) => catalog_missing_os(catalog@, target_arch@, only_disk_images) && (
            e matches ResolveError::Parse(_)),
        },
{
    let products = catalog.products();
    let ghost cm = catalog@;
    let mut out: Vec<Image> = Vec::new();
    let mut i: usize = 0;
    proof {
        assert(image_views(out@) =~= Seq::<ImageModel>::empty());
    }
    while i < products.len()
        invariant
            i <= products@.len(),
            cm == crate::catalog::products_model(products@),
            cm == catalog@,
            image_views(out@) + catalog_images_from(
                cm,
                target_arch@,
                base_url_for_paths@,
                only_disk_images,
                i as int,
            ) == catalog_images_from(cm, target_arch@, base_url_for_paths@, only_disk_images, 0),
            forall|t: int|
                0 <= t < i ==> !(resolved_arch((#[trigger] cm[t]).0, cm[t].1) == Some(target_arch@)
                    && cm[t].1.os is None && product_has_kept(cm[t].1, only_disk_images)),
        decreases products@.len() - i,
    {
        let ghost pm = cm[i as int].1;
        let ghost prod_imgs = product_images(
            cm[i as int].0,
            pm,
            target_arch@,
            base_url_for_paths@,
            only_disk_images,
        );
        let ghost out_at_prod = image_views(out@);
        let key = &products[i].0;
        let product = &products[i].1;
        proof {
            assert(cm[i as int] == (products@[i as int].0@, products@[i as int].1@));
        }
        if !resolves_to(key.as_str(), product, target_arch) {
            proof {
                assert(prod_imgs =~= Seq::<ImageModel>::empty());
                assert(image_views(out@) =~= out_at_prod + prod_imgs);
            }
        } else {
            let os = match product.os() {
                Some(os) => os,
                None => {
                    if has_kept_item(product, only_disk_images) {
                        proof {
                            assert(catalog_missing_os(cm, target_arch@, only_disk_images));
                        }
                        return Err(
                            ResolveError::Parse(
                                String::from_str("catalog product lacks an OS name"),
                            ),
                        );
                    }
                    proof {
                        lemma_no_kept_no_images(
                            pm,
                            target_arch@,
                            base_url_for_paths@,
                            only_disk_images,
                        );
                        assert(prod_imgs =~= Seq::<ImageModel>::empty());
                        assert(image_views(out@) =~= out_at_prod + prod_imgs);
                    }
                    proof {
                        assert(catalog_images_from(
                            cm,
                            target_arch@,
                            base_url_for_paths@,
                            only_disk_images,
                            i as int,
                        ) == prod_imgs + catalog_images_from(
                            cm,
                            target_arch@,
                            base_url_for_paths@,
                            only_disk_images,
                            i + 1,
                        ));
                        assert(image_views(out@) + catalog_images_from(
                            cm,
                            target_arch@,
                            base_url_for_paths@,
                            only_disk_images,
                            i + 1,
                        ) =~= catalog_images_from(
                            cm,
                            target_arch@,
                            base_url_for_paths@,
                            only_disk_images,
                            0,
                        ));
                    }
                    i += 1;
                    continue;
                },
            };
            let ghost osv = os@;
            proof {
                assert(pm.os == Some(osv));
            }
            let release_name = match product.release() {
                Some(r) => r,
                None => String::from_str("ubuntu"),
            };
            let distro_version = match product.distro_version() {
                Some(d) => d,
                None => String::from_str("No distro version found"),
            };
            proof {
                assert(release_name@ == release_name_of(pm));
                assert(distro_version@ == distro_version_of(pm));
            }
            let versions = product.versions();
            let ghost vm = pm.versions;
            let mut v: usize = 0;
            proof {
                assert(vm == crate::catalog::versions_model(versions@));
                assert(image_views(out@) + versions_images(
                    vm,
                    osv,
                    release_name@,
                    distro_version@,
                    target_arch@,
                    base_url_for_paths@,
                    only_disk_images,
                    0,
                ) =~= out_at_prod + prod_imgs);
            }
            while v < versions.len()
                invariant
                    v <= versions@.len(),
                    vm == crate::catalog::versions_model(versions@),
                    osv == os@,
                    image_views(out@) + versions_images(
                        vm,
                        osv,
                        release_name@,
                        distro_version@,
                        target_arch@,
                        base_url_for_paths@,
                        only_disk_images,
                        v as int,
                    ) == out_at_prod + prod_imgs,
                decreases versions@.len() - v,
            {
                let ghost ver_imgs = items_images(
                    vm[v as int].1,
                    osv,
                    release_name@,
                    distro_version@,
                    vm[v as int].0,
                    target_arch@,
                    base_url_for_paths@,
                    only_disk_images,
                    0,
                );
                let ghost out_at_ver = image_views(out@);
                let version_id = &versions[v].0;
                let items = versions[v].1.items();
                let ghost im = vm[v as int].1;
                proof {
                    assert(vm[v as int] == (versions@[v as int].0@, versions@[v as int].1@));
                    assert(im == crate::catalog::items_model(items@));
                }
                let mut k: usize = 0;
                while k < items.len()
                    invariant
                        k <= items@.len(),
                        im == crate::catalog::items_model(items@),
                        osv == os@,
                        image_views(out@) + items_images(
                            im,
                            osv,
                            release_name@,
                            distro_version@,
                            version_id@,
                            target_arch@,
                            base_url_for_paths@,
                            only_disk_images,
                            k as int,
                        ) == out_at_ver + ver_imgs,
                    decreases items@.len() - k,
                {
                    let ghost item_m = im[k as int].1;
                    let ghost out_before = image_views(out@);
                    let alias = &items[k].0;
                    let item = &items[k].1;
                    proof {
                        assert(im[k as int] == (items@[k as int].0@, items@[k as int].1@));
                    }
                    if item_kept(item, only_disk_images) {
                        let path = match item.path() {
                            Some(p) => String::from_str(p.as_str()),
                            None => {
                                proof {
                                    assert(false);
                                }
                                String::new()
                            },
                        };
                        let sha256 = match item.sha256() {
                            Some(s) => Some(String::from_str(s.as_str())),
                            None => None,
                        };
                        let img = Image::from_metadata(
                            String::from_str(os.as_str()),
                            release_name.as_str(),
                            distro_version.as_str(),
                            version_id.as_str(),
                            target_arch,
                            base_url_for_paths,
                            path.as_str(),
                            sha256,
                            String::from_str(alias.as_str()),
                        );
                        proof {
                            assert(img@ == item_image_model(
                                osv,
                                release_name@,
                                distro_version@,
                                version_id@,
                                target_arch@,
                                base_url_for_paths@,
                                alias@,
                                item_m,
                            ));
                        }
                        out.push(img);
                        proof {
                            assert(image_views(out@) =~= out_before + seq![img@]) by {
                                assert(forall|t: int|
                                    0 <= t < out@.len() ==> #[trigger] image_views(out@)[t]
                                        == out@[t]@);
                                assert(forall|t: int|
                                    0 <= t < out_before.len() ==> #[trigger] out_before[t]
                                        == out@[t]@);
                            }
                        }
                    }
                    proof {
                        assert(image_views(out@) + items_images(
                            im,
                            osv,
                            release_name@,
                            distro_version@,
                            version_id@,
                            target_arch@,
                            base_url_for_paths@,
                            only_disk_images,
                            k + 1,
                        ) =~= out_at_ver + ver_imgs);
                    }
                    k += 1;
                }
                proof {
                    assert(items_images(
                        im,
                        osv,
                        release_name@,
                        distro_version@,
                        version_id@,
                        target_arch@,
                        base_url_for_paths@,
                        only_disk_images,
                        items@.len() as int,
                    ) =~= Seq::<ImageModel>::empty());
                    assert(image_views(out@) =~= out_at_ver + ver_imgs);
                    assert(image_views(out@) + versions_images(
                        vm,
                        osv,
                        release_name@,
                        distro_version@,
                        target_arch@,
                        base_url_for_paths@,
                        only_disk_images,
                        v + 1,
                    ) =~= out_at_prod + prod_imgs);
                }
                v += 1;
            }
            proof {
                assert(versions_images(
                    vm,
                    osv,
                    release_name@,
                    distro_version@,
                    target_arch@,
                    base_url_for_paths@,
                    only_disk_images,
                    versions@.len() as int,
                ) =~= Seq::<ImageModel>::empty());
                assert(image_views(out@) =~= out_at_prod + prod_imgs);
            }
        }
        proof {
            assert(catalog_images_from(
                cm,
                target_arch@,
                base_url_for_paths@,
                only_disk_images,
                i as int,
            ) == prod_imgs + catalog_images_from(
                cm,
                target_arch@,
                base_url_for_paths@,
                only_disk_images,
                i + 1,
            ));
            assert(image_views(out@) + catalog_images_from(
                cm,
                target_arch@,
                base_url_for_paths@,
                only_disk_images,
                i + 1,
            ) =~= catalog_images_from(cm, target_arch@, base_url_for_paths@, only_disk_images, 0));
        }
        i += 1;
    }
    proof {
        assert(catalog_images_from(
            cm,
            target_arch@,
            base_url_for_paths@,
            only_disk_images,
            products@.len() as int,
        ) =~= Seq::<ImageModel>::empty());
        assert(image_views(out@) =~= catalog_images_from(
            cm,
            target_arch@,
            base_url_for_paths@,
            only_disk_images,
            0,
        ));
        assert(!catalog_missing_os(cm, target_arch@, only_disk_images));
    }
    Ok(out)
}

/// A product without a kept item contributes no image, whatever its
/// other fields hold.
proof fn lemma_no_kept_no_images(
    p: ProductModel,
    target_arch: Seq<char>,
    base: Seq<char>,
    only_disk_images: bool,
)
    requires
        !product_has_kept(p, only_disk_images),
    ensures
        versions_images(
            p.versions,
            p.os->Some_0,
            release_name_of(p),
            distro_version_of(p),
            target_arch,
            base,
            only_disk_images,
            0,
        ) == Seq::<ImageModel>::empty(),
{
    lemma_versions_images_empty(p, target_arch, base, only_disk_images, 0);
}

proof fn lemma_versions_images_empty(
    p: ProductModel,
    target_arch: Seq<char>,
    base: Seq<char>,
    only_disk_images: bool,
    idx: int,
)
    requires
        !product_has_kept(p, only_disk_images),
        idx >= 0,
    ensures
        versions_images(
            p.versions,
            p.os->Some_0,
            release_name_of(p),
            distro_version_of(p),
            target_arch,
            base,
            only_disk_images,
            idx,
        ) == Seq::<ImageModel>::empty(),
    decreases p.versions.len() - idx,
{
    if idx < p.versions.len() {
        lemma_items_images_empty(p, target_arch, base, only_disk_images, idx, 0);
        lemma_versions_images_empty(p, target_arch, base, only_disk_images, idx + 1);
        assert(versions_images(
            p.versions,
            p.os->Some_0,
            release_name_of(p),
            distro_version_of(p),
            target_arch,
            base,
            only_disk_images,
            idx,
        ) =~= Seq::<ImageModel>::empty());
    }
}

proof fn lemma_items_images_empty(
    p: ProductModel,
    target_arch: Seq<char>,
    base: Seq<char>,
    only_disk_images: bool,
    v: int,
    idx: int,
)
    requires
        !product_has_kept(p, only_disk_images),
        0 <= v < p.versions.len(),
        idx >= 0,
    ensures
        items_images(
            p.versions[v].1,
            p.os->Some_0,
            release_name_of(p),
            distro_version_of(p),
            p.versions[v].0,
            target_arch,
            base,
            only_disk_images,
            idx,
        ) == Seq::<ImageModel>::empty(),
    decreases p.versions[v].1.len() - idx,
{
    if idx < p.versions[v].1.len() {
        assert(!keep_item(p.versions[v].1[idx].1, only_disk_images));
        lemma_items_images_empty(p, target_arch, base, only_disk_images, v, idx + 1);
        assert(items_images(
            p.versions[v].1,
            p.os->Some_0,
            release_name_of(p),
            distro_version_of(p),
            p.versions[v].0,
            target_arch,
            base,
            only_disk_images,
            idx,
        ) =~= Seq::<ImageModel>::empty());
    }
}

// ---------------------------------------------------------------------------
// Repository URL helpers
// ---------------------------------------------------------------------------

/// The catalog URL for one release track: the template with the track
/// substituted for its first placeholder.
pub fn construct_repo_url(repo: &Repository, track: &str) -> (r: String)
    ensures
        r@ == replace_first_spec(repo@.url, "{}"@, track@),
{
    proof {
        reveal_strlit("{}");
    }
    replace_first(repo.url(), "{}", track)
}

/// The base URL that item paths are joined to: the repository's
/// `base_for_paths` parameter with the track substituted, or a
/// configuration error when the parameter is absent.
pub fn ubuntu_base_for_paths(repo: &Repository, track: &str) -> (r: Result<String, ResolveError>)
    ensures
        match r {
            Ok(u) => (match repo@.other_parameters {
                Some(params) => (match crate::registry::param_lookup(params, "base_for_paths"@) {
                    Some(t) => u@ == replace_first_spec(t, "{}"@, track@),
                    None => false,
                }),
                None => false,
            }),
            Err(e) => (match repo@.other_parameters {
                Some(params) => crate::registry::param_lookup(
                    params,
                    "base_for_paths"@,
                ) is None,
                None => true,
            }) && (e matches ResolveError::Configuration(_)),
        },
{
    proof {
        reveal_strlit("base_for_paths");
        reveal_strlit("{}");
    }
    match repo.param("base_for_paths") {
        Some(template) => Ok(replace_first(template.as_str(), "{}", track)),
        None => Err(
            ResolveError::Configuration(
                String::from_str("repository lacks the base_for_paths parameter"),
            ),
        ),
    }
}

/// The cache filename for a catalog URL: the segment after the last
/// slash, or a fixed fallback when the URL ends with a slash.
pub open spec fn catalog_file_name_spec(url: Seq<char>) -> Seq<char> {
    let seg = url.subrange(crate::almalinux::last_index_of(url, '/') + 1, url.len() as int);
    if seg.len() > 0 {
        seg
    } else {
        "repo.json"@
    }
}

/// The filename under which a catalog URL is cached.
pub fn catalog_file_name(url: &str) -> (r: String)
    ensures
        r@ == catalog_file_name_spec(url@),
{
    let n = url.unicode_len();
    let mut k: usize = n;
    while k > 0 && url.get_char(k - 1) != '/'
        invariant
            k <= n,
            n == url@.len(),
            forall|t: int| k <= t < n ==> url@[t] != '/',
        decreases k,
    {
        k -= 1;
    }
    proof {
        if k == 0 {
            crate::almalinux::lemma_last_index_scan(url@, '/', -1);
        } else {
            crate::almalinux::lemma_last_index_scan(url@, '/', k as int - 1);
        }
    }
    if k < n {
        substring(url, k, n)
    } else {
        String::from_str("repo.json")
    }
}

} // verus!
