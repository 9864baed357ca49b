//! The AlmaLinux provider: a flat `CHECKSUM` manifest whose lines name
//! artifact files, with the artifact metadata embedded in the filename.
//!
//! Filenames follow the schema
//! `AlmaLinux-<major>-<variant>-<versionFragment>.<arch>.<ext>`; the
//! version fragment splits into a distro version and an image build
//! version. Results are ordered most recent first: distro version
//! descending, then image version descending, then variant name
//! ascending, then format ascending.

use vstd::prelude::*;

use crate::checksum::{ChecksumKind, ChecksumModel, ImageChecksum};
use crate::error::ResolveError;
use crate::image::{Image, ImageModel};
use crate::listutil::{
    distinct_sorted_desc, first_index_from, lemma_first_index_from_scan, lemma_str_set_is_seq_set,
    seq_set, sorted_strict_desc, split_lines, split_newlines, trim, trim_spec, views_of,
};
use crate::strutil::{
    concat2, contains_ci, contains_str_ci, ends_with_ci, eq_ignore_case, exec_is_digit,
    exec_is_hex_digit, is_alnum, is_hex_digit, lemma_str_lt_connex, lemma_str_lt_trans,
    match_at, str_eq_ignore_case, str_ends_with_ci, str_le, str_lt, str_match_at, substring,
};
use crate::image::image_views;
use crate::html::{href_captures, href_captures_spec, HrefKind};
use crate::registry::{param_lookup, Repository};
use crate::strutil::{
    first_match, first_non_digit, has_match, replace_first, replace_first_spec,
    with_trailing_slash,
};

verus! {

// ---------------------------------------------------------------------------
// Artifact filename grammar
// ---------------------------------------------------------------------------

/// Characters a variant may hold.
pub open spec fn is_variant_char(c: char) -> bool {
    is_alnum(c) || c == '-'
}

/// Characters a version fragment may hold.
pub open spec fn is_fragment_char(c: char) -> bool {
    is_alnum(c) || c == '-' || c == '.'
}

/// Characters an architecture token may hold.
pub open spec fn is_arch_char(c: char) -> bool {
    is_alnum(c) || c == '_'
}

fn exec_is_variant_char(c: char) -> (r: bool)
    ensures
        r == is_variant_char(c),
{
    exec_is_alnum_or(c, '-')
}

fn exec_is_fragment_char(c: char) -> (r: bool)
    ensures
        r == is_fragment_char(c),
{
    exec_is_alnum_or(c, '-') || c == '.'
}

fn exec_is_arch_char(c: char) -> (r: bool)
    ensures
        r == is_arch_char(c),
{
    exec_is_alnum_or(c, '_')
}

fn exec_is_alnum_or(c: char, extra: char) -> (r: bool)
    ensures
        r == (is_alnum(c) || c == extra),
{
    crate::strutil::exec_is_alnum(c) || c == extra
}

/// Index of the first character at or after `from` that an architecture
/// token cannot hold, or the length when all qualify.
pub open spec fn first_non_arch(t: Seq<char>, from: int) -> int
    decreases t.len() - from,
{
    if from < 0 || from >= t.len() {
        t.len() as int
    } else if is_arch_char(t[from]) {
        first_non_arch(t, from + 1)
    } else {
        from
    }
}

/// Can `t` split at `i` into `<fragment> "." <arch> "." <ext>`? The
/// fragment runs to `i`, the architecture token to the next character it
/// cannot hold, which must be the dot before a non-empty extension.
pub open spec fn fae_ok_at(t: Seq<char>, i: int) -> bool {
    &&& 1 <= i < t.len()
    &&& t[i] == '.'
    &&& (forall|x: int| 0 <= x < i ==> is_fragment_char(#[trigger] t[x]))
    &&& {
        let k = first_non_arch(t, i + 1);
        &&& i + 1 < k
        &&& k < t.len()
        &&& t[k] == '.'
        &&& k + 1 < t.len()
    }
}

/// The rightmost admissible fragment split, or -1: the fragment is
/// matched greedily.
pub open spec fn fae_pos_from(t: Seq<char>, i: int) -> int
    decreases i + 1,
{
    if i < 0 {
        -1
    } else if fae_ok_at(t, i) {
        i
    } else {
        fae_pos_from(t, i - 1)
    }
}

pub open spec fn fae_pos(t: Seq<char>) -> int {
    fae_pos_from(t, t.len() - 1)
}

/// Can the remainder after the major split at `j` into
/// `<variant> "-" <rest>` with `rest` an admissible fragment split? The
/// variant is matched greedily.
pub open spec fn variant_ok_at(r: Seq<char>, j: int) -> bool {
    &&& 1 <= j < r.len()
    &&& r[j] == '-'
    &&& (forall|x: int| 0 <= x < j ==> is_variant_char(#[trigger] r[x]))
    &&& fae_pos(r.subrange(j + 1, r.len() as int)) >= 0
}

pub open spec fn variant_pos_from(r: Seq<char>, j: int) -> int
    decreases j + 1,
{
    if j < 0 {
        -1
    } else if variant_ok_at(r, j) {
        j
    } else {
        variant_pos_from(r, j - 1)
    }
}

pub open spec fn variant_pos(r: Seq<char>) -> int {
    variant_pos_from(r, r.len() - 1)
}

/// The raw pieces of an artifact filename.
pub struct AlmaPartsModel {
    pub major: Seq<char>,
    pub variant: Seq<char>,
    pub version_fragment: Seq<char>,
    pub arch: Seq<char>,
    pub ext: Seq<char>,
}

/// Parse `AlmaLinux-<major>-<variant>-<versionFragment>.<arch>.<ext>`:
/// the major is the digit run after the fixed prefix, the variant and the
/// version fragment are matched greedily.
pub open spec fn alma_filename_parts(f: Seq<char>) -> Option<AlmaPartsModel> {
    if !match_at(f, 0, "AlmaLinux-"@) {
        None
    } else {
        let d = first_non_digit(f, 10);
        if d <= 10 || d >= f.len() || f[d] != '-' {
            None
        } else {
            let r = f.subrange(d + 1, f.len() as int);
            let j = variant_pos(r);
            if j < 0 {
                None
            } else {
                let t = r.subrange(j + 1, r.len() as int);
                let i = fae_pos(t);
                let k = first_non_arch(t, i + 1);
                Some(
                    AlmaPartsModel {
                        major: f.subrange(10, d),
                        variant: r.subrange(0, j),
                        version_fragment: t.subrange(0, i),
                        arch: t.subrange(i + 1, k),
                        ext: t.subrange(k + 1, t.len() as int),
                    },
                )
            }
        }
    }
}

fn exec_first_non_arch(t: &str, from: usize) -> (r: usize)
    requires
        from <= t@.len(),
    ensures
        r == first_non_arch(t@, from as int),
        from <= r <= t@.len(),
{
    let n = t.unicode_len();
    let mut k: usize = from;
    while k < n && exec_is_arch_char(t.get_char(k))
        invariant
            from <= k <= n,
            n == t@.len(),
            first_non_arch(t@, from as int) == first_non_arch(t@, k as int),
        decreases n - k,
    {
        k += 1;
    }
    k
}

fn exec_first_non_digit(t: &str, from: usize) -> (r: usize)
    requires
        from <= t@.len(),
    ensures
        r == first_non_digit(t@, from as int),
        from <= r <= t@.len(),
{
    let n = t.unicode_len();
    let mut k: usize = from;
    while k < n && exec_is_digit(t.get_char(k))
        invariant
            from <= k <= n,
            n == t@.len(),
            first_non_digit(t@, from as int) == first_non_digit(t@, k as int),
        decreases n - k,
    {
        k += 1;
    }
    k
}

fn exec_fae_ok_at(t: &str, i: usize) -> (r: bool)
    ensures
        r == fae_ok_at(t@, i as int),
{
    let n = t.unicode_len();
    if i < 1 || i >= n {
        return false;
    }
    if t.get_char(i) != '.' {
        return false;
    }
    let mut x: usize = 0;
    while x < i && exec_is_fragment_char(t.get_char(x))
        invariant
            x <= i < n,
            n == t@.len(),
            forall|y: int| 0 <= y < x ==> is_fragment_char(#[trigger] t@[y]),
        decreases i - x,
    {
        x += 1;
    }
    if x < i {
        return false;
    }
    let k = exec_first_non_arch(t, i + 1);
    i + 1 < k && k < n && t.get_char(k) == '.' && k + 1 < n
}

fn exec_fae_pos(t: &str) -> (r: Option<usize>)
    ensures
        match r {
            Some(i) => fae_pos(t@) == i && fae_ok_at(t@, i as int),
            None => fae_pos(t@) == -1,
        },
{
    let n = t.unicode_len();
    let mut i: usize = n;
    while i > 0
        invariant
            i <= n,
            n == t@.len(),
            fae_pos(t@) == fae_pos_from(t@, i as int - 1),
        decreases i,
    {
        if exec_fae_ok_at(t, i - 1) {
            return Some(i - 1);
        }
        i -= 1;
    }
    None
}

fn exec_variant_ok_at(r: &str, j: usize) -> (b: bool)
    ensures
        b == variant_ok_at(r@, j as int),
{
    let n = r.unicode_len();
    if j < 1 || j >= n {
        return false;
    }
    if r.get_char(j) != '-' {
        return false;
    }
    let mut x: usize = 0;
    while x < j && exec_is_variant_char(r.get_char(x))
        invariant
            x <= j < n,
            n == r@.len(),
            forall|y: int| 0 <= y < x ==> is_variant_char(#[trigger] r@[y]),
        decreases j - x,
    {
        x += 1;
    }
    if x < j {
        return false;
    }
    let rest = r.substring_char(j + 1, n);
    match exec_fae_pos(rest) {
        Some(_) => true,
        None => false,
    }
}

fn exec_variant_pos(r: &str) -> (res: Option<usize>)
    ensures
        match res {
            Some(j) => variant_pos(r@) == j && variant_ok_at(r@, j as int),
            None => variant_pos(r@) == -1,
        },
{
    let n = r.unicode_len();
    let mut j: usize = n;
    while j > 0
        invariant
            j <= n,
            n == r@.len(),
            variant_pos(r@) == variant_pos_from(r@, j as int - 1),
        decreases j,
    {
        if exec_variant_ok_at(r, j - 1) {
            return Some(j - 1);
        }
        j -= 1;
    }
    None
}

// ---------------------------------------------------------------------------
// Version fragment splitting
// ---------------------------------------------------------------------------

/// Index of the last `c`, or -1.
pub open spec fn last_index_of(s: Seq<char>, c: char) -> int
    decreases s.len(),
{
    if s.len() == 0 {
        -1
    } else if s.last() == c {
        s.len() - 1
    } else {
        last_index_of(s.drop_last(), c)
    }
}

/// A backward scan that stopped at `c` (or fell off) computes the last
/// index.
pub proof fn lemma_last_index_scan(s: Seq<char>, c: char, k: int)
    requires
        -1 <= k < s.len(),
        k >= 0 ==> s[k] == c,
        forall|t: int| k < t < s.len() ==> s[t] != c,
    ensures
        last_index_of(s, c) == k,
    decreases s.len(),
{
    if s.len() > 0 {
        if s.last() == c {
            assert(k == s.len() - 1);
        } else {
            assert(k < s.len() - 1);
            lemma_last_index_scan(s.drop_last(), c, k);
        }
    }
}

/// Split a version fragment against its major: `latest` (any case) pairs
/// the major with `latest`; otherwise the fragment splits at its last
/// hyphen into trimmed non-empty halves; otherwise the fragment is the
/// build version of the major itself.
pub open spec fn split_version_spec(fragment: Seq<char>, major: Seq<char>) -> (Seq<char>, Seq<
    char,
>) {
    if eq_ignore_case(fragment, "latest"@) {
        (major, "latest"@)
    } else {
        let k = last_index_of(fragment, '-');
        if k >= 0 {
            let release = trim_spec(fragment.subrange(0, k));
            let build = trim_spec(fragment.subrange(k + 1, fragment.len() as int));
            if release.len() > 0 && build.len() > 0 {
                (release, build)
            } else {
                (major, fragment)
            }
        } else {
            (major, fragment)
        }
    }
}

/// Split a version fragment into (distro version, image build version).
pub fn split_version_parts(version_fragment: &str, major: &str) -> (r: (String, String))
    ensures
        (r.0@, r.1@) == split_version_spec(version_fragment@, major@),
{
    if str_eq_ignore_case(version_fragment, "latest") {
        return (String::from_str(major), String::from_str("latest"));
    }
    let n = version_fragment.unicode_len();
    let mut k: usize = n;
    while k > 0 && version_fragment.get_char(k - 1) != '-'
        invariant
            k <= n,
            n == version_fragment@.len(),
            forall|t: int| k <= t < n ==> version_fragment@[t] != '-',
        decreases k,
    {
        k -= 1;
    }
    if k == 0 {
        proof {
            lemma_last_index_scan(version_fragment@, '-', -1);
        }
        return (String::from_str(major), String::from_str(version_fragment));
    }
    proof {
        lemma_last_index_scan(version_fragment@, '-', k as int - 1);
    }
    let release = trim(version_fragment.substring_char(0, k - 1));
    let build = trim(version_fragment.substring_char(k, n));
    if release.unicode_len() > 0 && build.unicode_len() > 0 {
        (release, build)
    } else {
        (String::from_str(major), String::from_str(version_fragment))
    }
}

// ---------------------------------------------------------------------------
// Parsed artifacts
// ---------------------------------------------------------------------------

/// Ghost-level picture of an [`AlmaArtifact`].
pub struct AlmaArtifactModel {
    pub filename: Seq<char>,
    pub major: Seq<char>,
    pub variant: Seq<char>,
    pub distro_version: Seq<char>,
    pub image_version: Seq<char>,
    pub arch: Seq<char>,
    pub format: Seq<char>,
}

/// One artifact as read off a manifest filename.
#[derive(Debug, Clone, PartialEq, Eq)]
pub struct AlmaArtifact {
    pub filename: String,
    pub major: String,
    pub variant: String,
    pub distro_version: String,
    pub image_version: String,
    pub arch: String,
    pub format: String,
}

impl View for AlmaArtifact {
    type V = AlmaArtifactModel;

    open spec fn view(&self) -> AlmaArtifactModel {
        AlmaArtifactModel {
            filename: self.filename@,
            major: self.major@,
            variant: self.variant@,
            distro_version: self.distro_version@,
            image_version: self.image_version@,
            arch: self.arch@,
            format: self.format@,
        }
    }
}

/// The artifact an acceptable filename describes: the filename must
/// parse, its architecture must equal the expected one up to case, and
/// its extension must not look like a checksum or signature companion
/// file.
pub open spec fn alma_artifact_spec(f: Seq<char>, expected_arch: Seq<char>) -> Option<
    AlmaArtifactModel,
> {
    match alma_filename_parts(f) {
        None => None,
        Some(p) => {
            if !eq_ignore_case(p.arch, expected_arch) {
                None
            } else if contains_ci(p.ext, "checksum"@) || ends_with_ci(p.ext, ".sig"@) {
                None
            } else {
                let dv = split_version_spec(p.version_fragment, p.major);
                Some(
                    AlmaArtifactModel {
                        filename: f,
                        major: p.major,
                        variant: p.variant,
                        distro_version: dv.0,
                        image_version: dv.1,
                        arch: p.arch,
                        format: p.ext,
                    },
                )
            }
        },
    }
}

/// Parse an artifact filename, rejecting architecture mismatches and
/// checksum or signature companion files.
pub fn parse_artifact_filename(filename: &str, expected_arch: &str) -> (r: Option<AlmaArtifact>)
    ensures
        (match r {
            Some(a) => Some(a@),
            None => None,
        }) == alma_artifact_spec(filename@, expected_arch@),
{
    let n = filename.unicode_len();
    if !str_match_at(filename, 0, "AlmaLinux-") {
        return None;
    }
    proof {
        reveal_strlit("AlmaLinux-");
    }
    let d = exec_first_non_digit(filename, 10);
    if d <= 10 || d >= n || filename.get_char(d) != '-' {
        return None;
    }
    let rest = filename.substring_char(d + 1, n);
    let j = match exec_variant_pos(rest) {
        Some(j) => j,
        None => {
            return None;
        },
    };
    let ghost rv = rest@;
    assert(variant_ok_at(rv, j as int));
    let tail = rest.substring_char(j + 1, rest.unicode_len());
    let ghost tv = tail@;
    let i = match exec_fae_pos(tail) {
        Some(i) => i,
        None => {
            proof {
                assert(tv =~= rv.subrange(j + 1, rv.len() as int));
            }
            return None;
        },
    };
    proof {
        assert(tv =~= rv.subrange(j + 1, rv.len() as int));
        assert(fae_ok_at(tv, i as int));
    }
    let k = exec_first_non_arch(tail, i + 1);
    let arch = substring(tail, i + 1, k);
    let ext = substring(tail, k + 1, tail.unicode_len());
    if !str_eq_ignore_case(arch.as_str(), expected_arch) {
        return None;
    }
    if contains_str_ci(ext.as_str(), "checksum") || str_ends_with_ci(ext.as_str(), ".sig") {
        return None;
    }
    let major = substring(filename, 10, d);
    let variant = substring(rest, 0, j);
    let fragment = substring(tail, 0, i);
    let split = split_version_parts(fragment.as_str(), major.as_str());
    Some(
        AlmaArtifact {
            filename: String::from_str(filename),
            major,
            variant,
            distro_version: split.0,
            image_version: split.1,
            arch,
            format: ext,
        },
    )
}

// ---------------------------------------------------------------------------
// Manifest lines
// ---------------------------------------------------------------------------

/// Parse `SHA256 (<filename>) = <hex>`: the filename starts with
/// `AlmaLinux-`, runs to the first closing parenthesis, and the digest is
/// exactly 64 hex characters reaching the end of the line. The result is
/// `(filename, digest)`.
pub open spec fn alma_line_spec(line: Seq<char>) -> Option<(Seq<char>, Seq<char>)> {
    if !match_at(line, 0, "SHA256 ("@) {
        None
    } else {
        let p = first_index_from(line, ')', 8);
        if p >= line.len() || p < 19 || !match_at(line, 8, "AlmaLinux-"@) {
            None
        } else if !match_at(line, p, ") = "@) {
            None
        } else if line.len() != p + 4 + 64 {
            None
        } else if exists|x: int| p + 4 <= x < line.len() && !is_hex_digit(#[trigger] line[x]) {
            None
        } else {
            Some((line.subrange(8, p), line.subrange(p + 4, line.len() as int)))
        }
    }
}

/// Parse one manifest line into `(filename, digest)`.
pub fn parse_alma_line(line: &str) -> (r: Option<(String, String)>)
    ensures
        (match r {
            Some(p) => Some((p.0@, p.1@)),
            None => None,
        }) == alma_line_spec(line@),
{
    let n = line.unicode_len();
    if !str_match_at(line, 0, "SHA256 (") {
        return None;
    }
    proof {
        reveal_strlit("SHA256 (");
    }
    let mut p: usize = 8;
    while p < n && line.get_char(p) != ')'
        invariant
            8 <= p <= n,
            n == line@.len(),
            forall|t: int| 8 <= t < p ==> line@[t] != ')',
        decreases n - p,
    {
        p += 1;
    }
    proof {
        lemma_first_index_from_scan(line@, ')', 8, p as int);
    }
    if p >= n || p < 19 || !str_match_at(line, 8, "AlmaLinux-") {
        return None;
    }
    proof {
        reveal_strlit("AlmaLinux-");
    }
    if !str_match_at(line, p, ") = ") {
        return None;
    }
    proof {
        reveal_strlit(") = ");
    }
    if n - p != 68 {
        return None;
    }
    let mut x: usize = p + 4;
    while x < n && exec_is_hex_digit(line.get_char(x))
        invariant
            p + 4 <= x <= n,
            n == line@.len(),
            forall|t: int| p + 4 <= t < x ==> is_hex_digit(#[trigger] line@[t]),
        decreases n - x,
    {
        x += 1;
    }
    if x < n {
        return None;
    }
    Some((substring(line, 8, p), substring(line, p + 4, n)))
}

/// Every digest a manifest line yields fits the checksum model's
/// well-formedness: exactly 64 hex characters under the SHA-256 tag.
pub proof fn lemma_alma_checksum_wf(line: Seq<char>)
    ensures
        alma_line_spec(line) matches Some(p) ==> crate::checksum::checksum_wf(
            ChecksumModel { kind: ChecksumKind::Sha256, value: p.1 },
        ),
{
}

// ---------------------------------------------------------------------------
// Image construction
// ---------------------------------------------------------------------------

/// The normalized image one accepted artifact yields: the variant becomes
/// the name, the format the image type, and the URL is the listing base
/// followed by the filename.
pub open spec fn alma_image_model(base: Seq<char>, a: AlmaArtifactModel, sha: Seq<char>) -> ImageModel {
    ImageModel {
        os: "almalinux"@,
        name: a.variant,
        distro_version: a.distro_version,
        version: a.image_version,
        arch: a.arch,
        url: base + a.filename,
        checksum: Some(ChecksumModel { kind: ChecksumKind::Sha256, value: sha }),
        image_type: a.format,
    }
}

/// Build the normalized image for one artifact.
fn make_image(base_url: &str, artifact: AlmaArtifact, checksum: ImageChecksum) -> (r: Image)
    requires
        checksum@.kind == ChecksumKind::Sha256,
    ensures
        r@ == alma_image_model(base_url@, artifact@, checksum@.value),
{
    let url = concat2(base_url, artifact.filename.as_str());
    Image::from_parts(
        String::from_str("almalinux"),
        artifact.variant,
        artifact.distro_version,
        artifact.image_version,
        artifact.arch,
        url,
        Some(checksum),
        artifact.format,
    )
}

// ---------------------------------------------------------------------------
// Collecting images from the manifest
// ---------------------------------------------------------------------------

/// The images one manifest line yields: none when the trimmed line is
/// empty, fails the line grammar, or names an unacceptable artifact.
pub open spec fn alma_line_images(line: Seq<char>, base: Seq<char>, arch: Seq<char>) -> Seq<
    ImageModel,
> {
    let t = trim_spec(line);
    if t.len() == 0 {
        Seq::<ImageModel>::empty()
    } else {
        match alma_line_spec(t) {
            None => Seq::<ImageModel>::empty(),
            Some(fs) => match alma_artifact_spec(fs.0, arch) {
                None => Seq::<ImageModel>::empty(),
                Some(a) => seq![alma_image_model(base, a, fs.1)],
            },
        }
    }
}

/// The images of all manifest lines from `idx` on, in manifest order.
pub open spec fn alma_images_from(
    lines: Seq<Seq<char>>,
    base: Seq<char>,
    arch: Seq<char>,
    idx: int,
) -> Seq<ImageModel>
    decreases lines.len() - idx,
{
    if idx < 0 || idx >= lines.len() {
        Seq::<ImageModel>::empty()
    } else {
        alma_line_images(lines[idx], base, arch) + alma_images_from(lines, base, arch, idx + 1)
    }
}

/// Every image a manifest body yields, in manifest order.
pub open spec fn alma_images_spec(body: Seq<char>, base: Seq<char>, arch: Seq<char>) -> Seq<
    ImageModel,
> {
    alma_images_from(split_newlines(body), base, arch, 0)
}

// ---------------------------------------------------------------------------
// Ordering
// ---------------------------------------------------------------------------

/// `a` orders at or before `b`: distro version descending, then image
/// version descending, then name ascending, then image type ascending.
pub open spec fn image_le(a: ImageModel, b: ImageModel) -> bool {
    ||| str_lt(b.distro_version, a.distro_version)
    ||| (b.distro_version == a.distro_version && (str_lt(b.version, a.version) || (b.version
        == a.version && (str_lt(a.name, b.name) || (a.name == b.name && str_le(
        a.image_type,
        b.image_type,
    ))))))
}

/// Sorted under [`image_le`].
pub open spec fn images_sorted(s: Seq<ImageModel>) -> bool {
    forall|i: int, j: int| 0 <= i < j < s.len() ==> image_le(#[trigger] s[i], #[trigger] s[j])
}

/// Any two images are comparable.
pub proof fn lemma_image_le_total(a: ImageModel, b: ImageModel)
    ensures
        image_le(a, b) || image_le(b, a),
{
    if !image_le(a, b) && !image_le(b, a) {
        lemma_str_lt_connex(a.distro_version, b.distro_version);
        lemma_str_lt_connex(a.version, b.version);
        lemma_str_lt_connex(a.name, b.name);
        lemma_str_lt_connex(a.image_type, b.image_type);
    }
}

/// The ordering is transitive.
pub proof fn lemma_image_le_trans(a: ImageModel, b: ImageModel, c: ImageModel)
    requires
        image_le(a, b),
        image_le(b, c),
    ensures
        image_le(a, c),
{
    if str_lt(c.distro_version, b.distro_version) && str_lt(b.distro_version, a.distro_version) {
        lemma_str_lt_trans(c.distro_version, b.distro_version, a.distro_version);
    } else if b.distro_version == a.distro_version && c.distro_version == b.distro_version {
        if str_lt(c.version, b.version) && str_lt(b.version, a.version) {
            lemma_str_lt_trans(c.version, b.version, a.version);
        } else if b.version == a.version && c.version == b.version {
            if str_lt(a.name, b.name) && str_lt(b.name, c.name) {
                lemma_str_lt_trans(a.name, b.name, c.name);
            } else if a.name == b.name && b.name == c.name {
                if str_lt(a.image_type, b.image_type) && str_lt(b.image_type, c.image_type) {
                    lemma_str_lt_trans(a.image_type, b.image_type, c.image_type);
                }
            }
        }
    }
}

/// Stable insertion: `x` goes after every element ordering at or before
/// it.
pub open spec fn insert_image(x: ImageModel, s: Seq<ImageModel>) -> Seq<ImageModel>
    decreases s.len(),
{
    if s.len() > 0 && image_le(s[0], x) {
        seq![s[0]] + insert_image(x, s.drop_first())
    } else {
        seq![x] + s
    }
}

/// Stable insertion sort under [`image_le`], processing left to right.
pub open spec fn sort_images_spec(s: Seq<ImageModel>) -> Seq<ImageModel>
    decreases s.len(),
{
    if s.len() == 0 {
        s
    } else {
        insert_image(s.last(), sort_images_spec(s.drop_last()))
    }
}

/// Inserting at the position a left-to-right scan finds reproduces the
/// spec-level insertion.
proof fn lemma_insert_image_at(x: ImageModel, s: Seq<ImageModel>, j: int)
    requires
        0 <= j <= s.len(),
        forall|k: int| 0 <= k < j ==> image_le(#[trigger] s[k], x),
        j < s.len() ==> !image_le(s[j], x),
    ensures
        insert_image(x, s) == s.insert(j, x),
    decreases j,
{
    if j == 0 {
        if s.len() > 0 {
            assert(!image_le(s[0], x));
        }
        assert(insert_image(x, s) == seq![x] + s);
        assert(s.insert(0, x) =~= seq![x] + s);
    } else {
        assert(image_le(s[0], x));
        lemma_insert_image_at(x, s.drop_first(), j - 1);
        assert(insert_image(x, s) == seq![s[0]] + s.drop_first().insert(j - 1, x));
        assert(s.insert(j, x) =~= seq![s[0]] + s.drop_first().insert(j - 1, x));
    }
}

/// Inserting an element that every element orders at or before appends
/// it.
proof fn lemma_insert_image_end(x: ImageModel, s: Seq<ImageModel>)
    requires
        forall|k: int| 0 <= k < s.len() ==> image_le(#[trigger] s[k], x),
    ensures
        insert_image(x, s) == s.push(x),
    decreases s.len(),
{
    if s.len() == 0 {
        assert(insert_image(x, s) =~= s.push(x));
    } else {
        assert(image_le(s[0], x));
        lemma_insert_image_end(x, s.drop_first());
        assert(insert_image(x, s) == seq![s[0]] + s.drop_first().push(x));
        assert(s.push(x) =~= seq![s[0]] + s.drop_first().push(x));
    }
}

/// Sorting an already-sorted list is a no-op: the candidate ordering is
/// idempotent.
pub proof fn lemma_sort_images_noop(s: Seq<ImageModel>)
    requires
        images_sorted(s),
    ensures
        sort_images_spec(s) == s,
    decreases s.len(),
{
    if s.len() > 0 {
        assert(images_sorted(s.drop_last())) by {
            assert(forall|i: int, j: int|
                0 <= i < j < s.drop_last().len() ==> image_le(
                    #[trigger] s.drop_last()[i],
                    #[trigger] s.drop_last()[j],
                ));
        }
        lemma_sort_images_noop(s.drop_last());
        assert(forall|k: int|
            0 <= k < s.drop_last().len() ==> image_le(#[trigger] s.drop_last()[k], s.last()));
        lemma_insert_image_end(s.last(), s.drop_last());
        assert(s.drop_last().push(s.last()) =~= s);
    }
}

/// Is `a` at or before `b` in the provider ordering?
fn image_le_exec(a: &Image, b: &Image) -> (r: bool)
    ensures
        r == image_le(a@, b@),
{
    if crate::strutil::str_lt_exec(b.distro_version(), a.distro_version()) {
        return true;
    }
    if !crate::strutil::str_eq(b.distro_version(), a.distro_version()) {
        return false;
    }
    if crate::strutil::str_lt_exec(b.version(), a.version()) {
        return true;
    }
    if !crate::strutil::str_eq(b.version(), a.version()) {
        return false;
    }
    if crate::strutil::str_lt_exec(a.name(), b.name()) {
        return true;
    }
    if !crate::strutil::str_eq(a.name(), b.name()) {
        return false;
    }
    crate::strutil::str_lt_exec(a.image_type(), b.image_type()) || crate::strutil::str_eq(
        a.image_type(),
        b.image_type(),
    )
}

/// Sort candidates most recent first; the sort is stable, and sorting an
/// already-sorted list returns it unchanged.
pub fn sort_images(images: Vec<Image>) -> (r: Vec<Image>)
    ensures
        image_views(r@) == sort_images_spec(image_views(images@)),
        images_sorted(image_views(r@)),
{
    let ghost orig = image_views(images@);
    let bound = images.len();
    proof {
        assert(orig.len() == bound);
    }
    let mut rest = images;
    let mut out: Vec<Image> = Vec::new();
    let mut i: usize = 0;
    proof {
        assert(orig.take(0) =~= Seq::<ImageModel>::empty());
        assert(image_views(rest@) =~= orig.skip(0));
    }
    while rest.len() > 0
        invariant
            orig.len() <= usize::MAX,
            i + rest@.len() == orig.len(),
            image_views(rest@) == orig.skip(i as int),
            image_views(out@) == sort_images_spec(orig.take(i as int)),
            images_sorted(image_views(out@)),
        decreases rest@.len(),
    {
        let ghost rest_before = rest@;
        let x = rest.remove(0);
        proof {
            assert(image_views(rest_before)[0] == x@);
            assert(x@ == orig[i as int]);
            assert(image_views(rest@) =~= orig.skip(i + 1)) by {
                assert(rest@ =~= rest_before.drop_first());
                assert(forall|k: int|
                    0 <= k < rest@.len() ==> #[trigger] image_views(rest@)[k] == rest_before[k + 1]@
                        && image_views(rest_before)[k + 1] == rest_before[k + 1]@);
            }
        }
        let ghost before = image_views(out@);
        let ghost out_snap = out@;
        let mut j: usize = 0;
        while j < out.len() && image_le_exec(&out[j], &x)
            invariant
                out@ == out_snap,
                j <= out@.len(),
                forall|k: int| 0 <= k < j ==> image_le(#[trigger] out@[k]@, x@),
            decreases out@.len() - j,
        {
            j += 1;
        }
        proof {
            assert(before == image_views(out@));
            assert(forall|k: int| 0 <= k < out@.len() ==> #[trigger] before[k] == out@[k]@);
            assert forall|k: int| j <= k < out@.len() implies image_le(x@, #[trigger] out@[k]@) by {
                lemma_image_le_total(out@[j as int]@, x@);
                if k > j {
                    assert(image_le(before[j as int], before[k]));
                    lemma_image_le_trans(x@, out@[j as int]@, out@[k]@);
                }
            }
            lemma_insert_image_at(x@, before, j as int);
        }
        out.insert(j, x);
        proof {
            assert(out@ == out_snap.insert(j as int, x));
            assert(forall|k: int|
                0 <= k < out@.len() ==> out@[k] == if k < j {
                    out_snap[k]
                } else if k == j {
                    x
                } else {
                    out_snap[k - 1]
                });
            assert(image_views(out@) =~= before.insert(j as int, x@)) by {
                assert(forall|k: int|
                    0 <= k < out@.len() ==> #[trigger] image_views(out@)[k] == out@[k]@);
            }
            assert(images_sorted(image_views(out@))) by {
                assert forall|a: int, b: int| 0 <= a < b < out@.len() implies image_le(
                    #[trigger] image_views(out@)[a],
                    #[trigger] image_views(out@)[b],
                ) by {
                    assert(image_views(out@)[a] == out@[a]@ && image_views(out@)[b] == out@[b]@);
                    if a < j && b < j {
                        assert(image_le(before[a], before[b]));
                    } else if a < j && b == j {
                        assert(image_le(out@[a]@, x@));
                    } else if a < j && b > j {
                        assert(image_le(before[a], before[b - 1]));
                    } else if a == j {
                        assert(image_le(x@, out_snap[b - 1]@));
                    } else {
                        assert(image_le(before[a - 1], before[b - 1]));
                    }
                }
            }
            assert(orig.take(i + 1).drop_last() =~= orig.take(i as int));
            assert(orig.take(i + 1).last() == orig[i as int]);
            assert(sort_images_spec(orig.take(i + 1)) == insert_image(x@, before));
            assert(image_views(out@) == sort_images_spec(orig.take(i + 1)));
        }
        i += 1;
    }
    proof {
        assert(orig.take(orig.len() as int) =~= orig);
    }
    out
}

// ---------------------------------------------------------------------------
// The provider's listing
// ---------------------------------------------------------------------------

/// Parse a fetched `CHECKSUM` manifest into normalized images for one
/// (major, architecture) listing, ordered most recent first.
pub fn almalinux_list(base_url: &str, checksum_body: &str, arch: &str) -> (r: Vec<Image>)
    ensures
        image_views(r@) == sort_images_spec(
            alma_images_spec(checksum_body@, base_url@, arch@),
        ),
        images_sorted(image_views(r@)),
{
    let lines = split_lines(checksum_body);
    let ghost lv = views_of(lines@);
    let mut collected: Vec<Image> = Vec::new();
    let mut i: usize = 0;
    proof {
        assert(image_views(collected@) =~= Seq::<ImageModel>::empty());
    }
    while i < lines.len()
        invariant
            i <= lines@.len(),
            lv == views_of(lines@),
            lv == split_newlines(checksum_body@),
            image_views(collected@) + alma_images_from(lv, base_url@, arch@, i as int)
                == alma_images_from(lv, base_url@, arch@, 0),
        decreases lines@.len() - i,
    {
        let ghost line_imgs = alma_line_images(lv[i as int], base_url@, arch@);
        let ghost col_before = image_views(collected@);
        proof {
            assert(lv[i as int] == lines@[i as int]@);
        }
        let t = trim(lines[i].as_str());
        if t.unicode_len() > 0 {
            match parse_alma_line(t.as_str()) {
                Some(pair) => {
                    match parse_artifact_filename(pair.0.as_str(), arch) {
                        Some(artifact) => {
                            let ghost am = artifact@;
                            let ghost sha = pair.1@;
                            let checksum = ImageChecksum::new(ChecksumKind::Sha256, pair.1);
                            let img = make_image(base_url, artifact, checksum);
                            proof {
                                assert(line_imgs =~= seq![img@]);
                            }
                            collected.push(img);
                            proof {
                                assert(image_views(collected@) =~= col_before + line_imgs) by {
                                    assert(forall|k: int|
                                        0 <= k < collected@.len()
                                            ==> #[trigger] image_views(collected@)[k]
                                            == collected@[k]@);
                                    assert(forall|k: int|
                                        0 <= k < col_before.len() ==> #[trigger] col_before[k]
                                            == collected@[k]@);
                                }
                            }
                        },
                        None => {
                            proof {
                                assert(line_imgs =~= Seq::<ImageModel>::empty());
                            }
                        },
                    }
                },
                None => {
                    proof {
                        assert(line_imgs =~= Seq::<ImageModel>::empty());
                    }
                },
            }
        } else {
            proof {
                assert(line_imgs =~= Seq::<ImageModel>::empty());
            }
        }
        proof {
            assert(alma_images_from(lv, base_url@, arch@, i as int) == line_imgs
                + alma_images_from(lv, base_url@, arch@, i + 1));
            assert(image_views(collected@) + alma_images_from(lv, base_url@, arch@, i + 1)
                =~= alma_images_from(lv, base_url@, arch@, 0));
        }
        i += 1;
    }
    proof {
        assert(alma_images_from(lv, base_url@, arch@, lines@.len() as int)
            =~= Seq::<ImageModel>::empty());
        assert(image_views(collected@) =~= alma_images_spec(checksum_body@, base_url@, arch@));
    }
    sort_images(collected)
}

// ---------------------------------------------------------------------------
// Repository configuration
// ---------------------------------------------------------------------------

/// The listing base URL for one (major, arch) pair: the template with the
/// major substituted for its first placeholder, the architecture for the
/// second, and a trailing slash guaranteed. `None` when the template
/// lacks a second placeholder.
pub open spec fn alma_base_url_spec(template: Seq<char>, major: Seq<char>, arch: Seq<char>) -> Option<
    Seq<char>,
> {
    let once = replace_first_spec(template, "{}"@, major);
    if first_match(once, "{}"@) < 0 {
        None
    } else {
        Some(with_trailing_slash(replace_first_spec(once, "{}"@, arch)))
    }
}

/// Build the per-(major, arch) listing URL from the repository's URL
/// template, which must hold two positional placeholders.
pub fn repository_base_url(repo: &Repository, major: &str, arch: &str) -> (r: Result<
    String,
    ResolveError,
>)
    ensures
        match r {
            Ok(u) => alma_base_url_spec(repo@.url, major@, arch@) == Some(u@),
            Err(e) => alma_base_url_spec(repo@.url, major@, arch@) is None && (
            e matches ResolveError::Configuration(_)),
        },
{
    proof {
        reveal_strlit("{}");
    }
    let replaced_major = replace_first(repo.url(), "{}", major);
    if !has_match(replaced_major.as_str(), "{}") {
        return Err(
            ResolveError::Configuration(
                String::from_str("repository URL template needs two placeholders"),
            ),
        );
    }
    let replaced_arch = replace_first(replaced_major.as_str(), "{}", arch);
    let n = replaced_arch.as_str().unicode_len();
    if n > 0 && replaced_arch.as_str().get_char(n - 1) == '/' {
        Ok(replaced_arch)
    } else {
        let r = concat2(replaced_arch.as_str(), "/");
        proof {
            reveal_strlit("/");
            assert(r@ =~= replaced_arch@.push('/'));
        }
        Ok(r)
    }
}

/// The URL under which major-version directories are listed: an explicit
/// `majors_root` parameter when configured, else the template prefix
/// before its first placeholder. `None` when neither is available.
pub open spec fn majors_root_spec(repo: crate::registry::RepositoryModel) -> Option<Seq<char>> {
    let from_param = match repo.other_parameters {
        Some(params) => param_lookup(params, "majors_root"@),
        None => None,
    };
    match from_param {
        Some(v) => Some(v),
        None => {
            let p = first_match(repo.url, "{}"@);
            if p < 0 {
                None
            } else {
                Some(repo.url.subrange(0, p))
            }
        },
    }
}

/// Determine the majors listing root from the repository configuration.
pub fn majors_root_url(repo: &Repository) -> (r: Result<String, ResolveError>)
    ensures
        match r {
            Ok(u) => majors_root_spec(repo@) == Some(u@),
            Err(e) => majors_root_spec(repo@) is None && (
            e matches ResolveError::Configuration(_)),
        },
{
    proof {
        reveal_strlit("majors_root");
        reveal_strlit("{}");
    }
    match repo.param("majors_root") {
        Some(root) => Ok(root),
        None => {
            match crate::strutil::find_first(repo.url(), "{}") {
                Some(p) => {
                    proof {
                        crate::strutil::lemma_first_match_found(repo@.url, "{}"@, p as int, 0);
                    }
                    Ok(substring(repo.url(), 0, p))
                },
                None => {
                    proof {
                        crate::strutil::lemma_first_match_none(repo@.url, "{}"@, 0);
                    }
                    Err(
                        ResolveError::Configuration(
                            String::from_str("cannot determine the majors root"),
                        ),
                    )
                },
            }
        },
    }
}

// ---------------------------------------------------------------------------
// Major-version discovery
// ---------------------------------------------------------------------------

/// The distinct one-or-two-digit directory names an index document links
/// to, newest (lexicographically largest) first.
pub fn parse_major_dirs(html: &str) -> (r: Vec<String>)
    ensures
        sorted_strict_desc(views_of(r@)),
        seq_set(views_of(r@)) == seq_set(href_captures_spec(HrefKind::Major, html@)),
{
    let captures = href_captures(HrefKind::Major, html);
    let r = distinct_sorted_desc(&captures);
    proof {
        lemma_str_set_is_seq_set(r@);
        lemma_str_set_is_seq_set(captures@);
    }
    r
}

/// The majors to offer: what discovery found when it found anything,
/// else the built-in defaults, newest first.
pub fn majors_or_default(discovered: Option<Vec<String>>) -> (r: Vec<String>)
    ensures
        (match discovered {
            Some(l) => l@.len() > 0,
            None => false,
        }) ==> r@ == (match discovered {
            Some(l) => l@,
            None => Seq::<String>::empty(),
        }),
        (match discovered {
            Some(l) => l@.len() == 0,
            None => true,
        }) ==> r@.len() == 2 && r@[0]@ == "9"@ && r@[1]@ == "8"@,
{
    match discovered {
        Some(list) => {
            if list.len() > 0 {
                return list;
            }
            default_majors()
        },
        None => default_majors(),
    }
}

/// The built-in fallback majors, newest first.
fn default_majors() -> (r: Vec<String>)
    ensures
        r@.len() == 2 && r@[0]@ == "9"@ && r@[1]@ == "8"@,
{
    let mut v: Vec<String> = Vec::new();
    v.push(String::from_str("9"));
    v.push(String::from_str("8"));
    v
}

} // verus!
