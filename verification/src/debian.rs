//! The Debian provider: an HTML directory index names build directories
//! (`latest` or date-stamped), and each directory carries a detached
//! `SHA512SUMS` manifest whose lines pair a digest with a filename of the
//! shape `debian-<major>-<variant>-<arch>.<ext>`.

use vstd::prelude::*;

use crate::checksum::{ChecksumKind, ChecksumModel, ImageChecksum};
use crate::error::ResolveError;
use crate::html::{href_captures, href_captures_spec, HrefKind};
use crate::image::{image_views, Image, ImageModel};
use crate::listutil::{
    distinct_sorted_desc, lemma_str_set_is_seq_set, seq_set, sorted_strict_desc, split_lines,
    split_newlines, trim, trim_spec, views_of,
};
use crate::registry::Repository;
use crate::strutil::{
    all_digits, concat2, concat3, ends_with, eq_ignore_case, exec_is_digit, exec_is_hex_digit,
    exec_is_space, exec_lower_code, first_match, first_non_digit, is_alnum, is_digit, is_hex_digit,
    is_space, lower_code, match_at, match_at_ci, str_eq, str_match_at, str_match_at_ci, substring,
    with_trailing_slash,
};

verus! {

// ---------------------------------------------------------------------------
// Build directories
// ---------------------------------------------------------------------------

/// A linked directory the provider considers a build: `latest`, an
/// 8-digit date, or a date with a 4-digit time suffix.
pub open spec fn valid_build_dir(s: Seq<char>) -> bool {
    ||| s == "latest"@
    ||| (s.len() == 8 && all_digits(s))
    ||| (s.len() == 13 && s[8] == '-' && all_digits(s.subrange(0, 8)) && all_digits(
        s.subrange(9, 13),
    ))
}

/// Is this directory name a build directory?
pub fn is_valid_build_dir(s: &str) -> (r: bool)
    ensures
        r == valid_build_dir(s@),
{
    let n = s.unicode_len();
    if str_eq(s, "latest") {
        return true;
    }
    if n != 8 && n != 13 {
        return false;
    }
    if n == 13 && s.get_char(8) != '-' {
        return false;
    }
    let limit: usize = if n == 8 {
        8
    } else {
        13
    };
    let mut i: usize = 0;
    while i < limit
        invariant
            n == s@.len(),
            n == 8 || (n == 13 && s@[8] == '-'),
            limit == n,
            i <= limit,
            forall|k: int| 0 <= k < i && k != 8 ==> is_digit(#[trigger] s@[k]),
        decreases limit - i,
    {
        if i != 8 && !exec_is_digit(s.get_char(i)) {
            proof {
                reveal_strlit("latest");
                assert(s@ != "latest"@);
                if n == 8 {
                    assert(!all_digits(s@));
                } else {
                    if i < 8 {
                        assert(!all_digits(s@.subrange(0, 8))) by {
                            assert(s@.subrange(0, 8)[i as int] == s@[i as int]);
                        }
                    } else {
                        assert(!all_digits(s@.subrange(9, 13))) by {
                            assert(s@.subrange(9, 13)[i - 9] == s@[i as int]);
                        }
                    }
                    assert(s@ != "latest"@);
                }
            }
            return false;
        }
        i += 1;
    }
    proof {
        if n == 8 {
            assert(all_digits(s@));
        } else {
            assert(all_digits(s@.subrange(0, 8))) by {
                assert(forall|k: int|
                    0 <= k < 8 ==> #[trigger] s@.subrange(0, 8)[k] == s@[k]);
            }
            assert(all_digits(s@.subrange(9, 13))) by {
                assert(forall|k: int|
                    0 <= k < 4 ==> #[trigger] s@.subrange(9, 13)[k] == s@[k + 9]);
            }
        }
    }
    true
}

/// The set of valid build-directory names a capture list holds.
pub open spec fn valid_dir_set(caps: Seq<Seq<char>>) -> Set<Seq<char>> {
    Set::new(|v: Seq<char>| seq_set(caps).contains(v) && valid_build_dir(v))
}

/// The build directories an index document links to, without duplicates,
/// most recent first: `latest` sorts lexicographically above every
/// date-stamped name, so one descending order covers both.
pub fn discover_build_dirs(index_html: &str) -> (r: Vec<String>)
    ensures
        sorted_strict_desc(views_of(r@)),
        seq_set(views_of(r@)) == valid_dir_set(href_captures_spec(HrefKind::AnyDir, index_html@)),
{
    let caps = href_captures(HrefKind::AnyDir, index_html);
    let ghost cv = views_of(caps@);
    let mut kept: Vec<String> = Vec::new();
    let mut i: usize = 0;
    proof {
        assert(seq_set(views_of(kept@)) =~= valid_dir_set(cv.take(0)));
    }
    while i < caps.len()
        invariant
            i <= caps@.len(),
            cv == views_of(caps@),
            seq_set(views_of(kept@)) == valid_dir_set(cv.take(i as int)),
        decreases caps@.len() - i,
    {
        let ghost kept_before = views_of(kept@);
        if is_valid_build_dir(caps[i].as_str()) {
            kept.push(caps[i].clone());
            proof {
                assert(views_of(kept@) =~= kept_before.push(cv[i as int]));
            }
        }
        proof {
            lemma_valid_dir_set_step(cv, i as int, views_of(kept@), kept_before);
        }
        i += 1;
    }
    proof {
        assert(cv.take(cv.len() as int) =~= cv);
    }
    let r = distinct_sorted_desc(&kept);
    proof {
        lemma_str_set_is_seq_set(r@);
        lemma_str_set_is_seq_set(kept@);
    }
    r
}

/// One filtering step keeps the valid-directory set in sync.
proof fn lemma_valid_dir_set_step(
    cv: Seq<Seq<char>>,
    i: int,
    kept_now: Seq<Seq<char>>,
    kept_before: Seq<Seq<char>>,
)
    requires
        0 <= i < cv.len(),
        seq_set(kept_before) == valid_dir_set(cv.take(i)),
        valid_build_dir(cv[i]) ==> kept_now == kept_before.push(cv[i]),
        !valid_build_dir(cv[i]) ==> kept_now == kept_before,
    ensures
        seq_set(kept_now) == valid_dir_set(cv.take(i + 1)),
{
    assert forall|v: Seq<char>| seq_set(kept_now).contains(v) implies valid_dir_set(
        cv.take(i + 1),
    ).contains(v) by {
        let k = choose|k: int| 0 <= k < kept_now.len() && (#[trigger] kept_now[k]) == v;
        if valid_build_dir(cv[i]) && k == kept_before.len() {
            assert(v == cv[i]);
            assert(cv.take(i + 1)[i] == cv[i]);
        } else {
            assert(kept_before[k] == v);
            assert(seq_set(kept_before).contains(v));
            let m = choose|m: int| 0 <= m < cv.take(i).len() && (#[trigger] cv.take(i)[m]) == v;
            assert(cv.take(i + 1)[m] == v);
        }
    }
    assert forall|v: Seq<char>| valid_dir_set(cv.take(i + 1)).contains(v) implies seq_set(
        kept_now,
    ).contains(v) by {
        let m = choose|m: int| 0 <= m < cv.take(i + 1).len() && (#[trigger] cv.take(i + 1)[m]) == v;
        if m < i {
            assert(cv.take(i)[m] == v);
            assert(valid_dir_set(cv.take(i)).contains(v));
            let k = choose|k: int| 0 <= k < kept_before.len() && (#[trigger] kept_before[k]) == v;
            assert(kept_now[k] == v);
        } else {
            assert(v == cv[i]);
            assert(kept_now[kept_before.len() as int] == v);
        }
    }
    assert(seq_set(kept_now) =~= valid_dir_set(cv.take(i + 1)));
}

// ---------------------------------------------------------------------------
// Architecture normalization
// ---------------------------------------------------------------------------

/// Debian calls `x86_64` `amd64`; the normalization applies to the
/// request only, never to upstream filenames.
pub open spec fn normalize_arch_spec(a: Seq<char>) -> Seq<char> {
    if a == "x86_64"@ {
        "amd64"@
    } else {
        a
    }
}

/// Normalize a requested architecture to Debian's naming.
pub fn normalize_arch(arch: &str) -> (r: String)
    ensures
        r@ == normalize_arch_spec(arch@),
{
    if str_eq(arch, "x86_64") {
        String::from_str("amd64")
    } else {
        String::from_str(arch)
    }
}

// ---------------------------------------------------------------------------
// Manifest lines
// ---------------------------------------------------------------------------

/// The pieces of one manifest line.
pub struct DebianLineModel {
    pub sha: Seq<char>,
    pub file: Seq<char>,
    pub dver: Seq<char>,
    pub variant: Seq<char>,
    pub arch: Seq<char>,
    pub ext: Seq<char>,
}

/// Case-insensitively one of the two architectures a filename may name.
pub open spec fn debian_arch_token(s: Seq<char>) -> bool {
    eq_ignore_case(s, "amd64"@) || eq_ignore_case(s, "arm64"@)
}

/// Case-insensitively one of the two accepted extensions.
pub open spec fn debian_ext_token(s: Seq<char>) -> bool {
    eq_ignore_case(s, "qcow2"@) || eq_ignore_case(s, "raw"@)
}

/// Index of the first character at or after `from` that is neither a
/// letter nor a digit, or the length.
pub open spec fn first_non_alnum(t: Seq<char>, from: int) -> int
    decreases t.len() - from,
{
    if from < 0 || from >= t.len() {
        t.len() as int
    } else if is_alnum(t[from]) {
        first_non_alnum(t, from + 1)
    } else {
        from
    }
}

/// Index of the first non-hex character at or after `from`, or the
/// length.
pub open spec fn first_non_hex(t: Seq<char>, from: int) -> int
    decreases t.len() - from,
{
    if from < 0 || from >= t.len() {
        t.len() as int
    } else if is_hex_digit(t[from]) {
        first_non_hex(t, from + 1)
    } else {
        from
    }
}

/// Index of the first non-space character at or after `from`, or the
/// length.
pub open spec fn first_non_ws(t: Seq<char>, from: int) -> int
    decreases t.len() - from,
{
    if from < 0 || from >= t.len() {
        t.len() as int
    } else if is_space(t[from]) {
        first_non_ws(t, from + 1)
    } else {
        from
    }
}

/// Parse one trimmed manifest line,
/// `<hex-digest> <ws>+ [*] debian-<major>-<variant>-<arch>.<ext>`: the
/// digest is 64 or 128 hex characters in either case, the literals and
/// tokens of the filename match case-insensitively, and the extension
/// ends the line.
pub open spec fn debian_line_spec(t: Seq<char>) -> Option<DebianLineModel> {
    let h = first_non_hex(t, 0);
    if h != 64 && h != 128 {
        None
    } else {
        let w = first_non_ws(t, h);
        if w == h || w >= t.len() {
            None
        } else {
            let f0 = if t[w] == '*' {
                w + 1
            } else {
                w
            };
            if !match_at_ci(t, f0, "debian-"@) {
                None
            } else {
                let d1 = first_non_digit(t, f0 + 7);
                if d1 == f0 + 7 || d1 >= t.len() || t[d1] != '-' {
                    None
                } else {
                    let v1 = first_non_alnum(t, d1 + 1);
                    if v1 == d1 + 1 || v1 >= t.len() || t[v1] != '-' {
                        None
                    } else if !(v1 + 6 < t.len() && t[v1 + 6] == '.' && debian_arch_token(
                        t.subrange(v1 + 1, v1 + 6),
                    )) {
                        None
                    } else if !debian_ext_token(t.subrange(v1 + 7, t.len() as int)) {
                        None
                    } else {
                        Some(
                            DebianLineModel {
                                sha: t.subrange(0, h),
                                file: t.subrange(f0, t.len() as int),
                                dver: t.subrange(f0 + 7, d1),
                                variant: t.subrange(d1 + 1, v1),
                                arch: t.subrange(v1 + 1, v1 + 6),
                                ext: t.subrange(v1 + 7, t.len() as int),
                            },
                        )
                    }
                }
            }
        }
    }
}

fn exec_first_non_alnum(t: &str, from: usize) -> (r: usize)
    requires
        from <= t@.len(),
    ensures
        r == first_non_alnum(t@, from as int),
        from <= r <= t@.len(),
{
    let n = t.unicode_len();
    let mut k: usize = from;
    while k < n && crate::strutil::exec_is_alnum(t.get_char(k))
        invariant
            from <= k <= n,
            n == t@.len(),
            first_non_alnum(t@, from as int) == first_non_alnum(t@, k as int),
        decreases n - k,
    {
        k += 1;
    }
    k
}

fn exec_first_non_hex(t: &str, from: usize) -> (r: usize)
    requires
        from <= t@.len(),
    ensures
        r == first_non_hex(t@, from as int),
        from <= r <= t@.len(),
{
    let n = t.unicode_len();
    let mut k: usize = from;
    while k < n && exec_is_hex_digit(t.get_char(k))
        invariant
            from <= k <= n,
            n == t@.len(),
            first_non_hex(t@, from as int) == first_non_hex(t@, k as int),
        decreases n - k,
    {
        k += 1;
    }
    k
}

fn exec_first_non_ws(t: &str, from: usize) -> (r: usize)
    requires
        from <= t@.len(),
    ensures
        r == first_non_ws(t@, from as int),
        from <= r <= t@.len(),
{
    let n = t.unicode_len();
    let mut k: usize = from;
    while k < n && exec_is_space(t.get_char(k))
        invariant
            from <= k <= n,
            n == t@.len(),
            first_non_ws(t@, from as int) == first_non_ws(t@, k as int),
        decreases n - k,
    {
        k += 1;
    }
    k
}

fn exec_first_non_digit_local(t: &str, from: usize) -> (r: usize)
    requires
        from <= t@.len(),
    ensures
        r == first_non_digit(t@, from as int),
        from <= r <= t@.len(),
{
    let n = t.unicode_len();
    let mut k: usize = from;
    while k < n && exec_is_digit(t.get_char(k))
        invariant
            from <= k <= n,
            n == t@.len(),
            first_non_digit(t@, from as int) == first_non_digit(t@, k as int),
        decreases n - k,
    {
        k += 1;
    }
    k
}

/// The parsed pieces of one manifest line.
#[derive(Debug, Clone, PartialEq, Eq)]
pub struct DebianLineParts {
    pub sha: String,
    pub file: String,
    pub dver: String,
    pub variant: String,
    pub arch: String,
    pub ext: String,
}

impl View for DebianLineParts {
    type V = DebianLineModel;

    open spec fn view(&self) -> DebianLineModel {
        DebianLineModel {
            sha: self.sha@,
            file: self.file@,
            dver: self.dver@,
            variant: self.variant@,
            arch: self.arch@,
            ext: self.ext@,
        }
    }
}

/// Parse one trimmed manifest line.
pub fn parse_debian_line(t: &str) -> (r: Option<DebianLineParts>)
    ensures
        (match r {
            Some(p) => Some(p@),
            None => None,
        }) == debian_line_spec(t@),
{
    let n = t.unicode_len();
    let h = exec_first_non_hex(t, 0);
    if h != 64 && h != 128 {
        return None;
    }
    let w = exec_first_non_ws(t, h);
    if w == h || w >= n {
        return None;
    }
    let f0: usize = if t.get_char(w) == '*' {
        w + 1
    } else {
        w
    };
    if !str_match_at_ci(t, f0, "debian-") {
        return None;
    }
    proof {
        reveal_strlit("debian-");
    }
    let d1 = exec_first_non_digit_local(t, f0 + 7);
    if d1 == f0 + 7 || d1 >= n || t.get_char(d1) != '-' {
        return None;
    }
    let v1 = exec_first_non_alnum(t, d1 + 1);
    if v1 == d1 + 1 || v1 >= n || t.get_char(v1) != '-' {
        return None;
    }
    if !(n - v1 > 6 && t.get_char(v1 + 6) == '.') {
        return None;
    }
    let arch = substring(t, v1 + 1, v1 + 6);
    if !(crate::strutil::str_eq_ignore_case(arch.as_str(), "amd64")
        || crate::strutil::str_eq_ignore_case(arch.as_str(), "arm64")) {
        return None;
    }
    let ext = substring(t, v1 + 7, n);
    if !(crate::strutil::str_eq_ignore_case(ext.as_str(), "qcow2")
        || crate::strutil::str_eq_ignore_case(ext.as_str(), "raw")) {
        return None;
    }
    Some(
        DebianLineParts {
            sha: substring(t, 0, h),
            file: substring(t, f0, n),
            dver: substring(t, f0 + 7, d1),
            variant: substring(t, d1 + 1, v1),
            arch,
            ext,
        },
    )
}

// ---------------------------------------------------------------------------
// Collecting images
// ---------------------------------------------------------------------------

/// The normalized image one accepted manifest line yields inside one
/// build directory.
pub open spec fn debian_image_model(
    codename: Seq<char>,
    base: Seq<char>,
    dir: Seq<char>,
    want: Seq<char>,
    p: DebianLineModel,
) -> ImageModel {
    ImageModel {
        os: "debian"@,
        name: codename,
        distro_version: p.dver,
        version: dir,
        arch: want,
        url: base + dir + "/"@ + p.file,
        checksum: Some(ChecksumModel { kind: ChecksumKind::Sha512, value: p.sha }),
        image_type: p.variant,
    }
}

/// The images one manifest line yields: one when the trimmed line parses
/// and names exactly the wanted architecture, none otherwise.
pub open spec fn debian_line_images(
    line: Seq<char>,
    codename: Seq<char>,
    base: Seq<char>,
    dir: Seq<char>,
    want: Seq<char>,
) -> Seq<ImageModel> {
    match debian_line_spec(trim_spec(line)) {
        None => Seq::<ImageModel>::empty(),
        Some(p) => {
            if p.arch == want {
                seq![debian_image_model(codename, base, dir, want, p)]
            } else {
                Seq::<ImageModel>::empty()
            }
        },
    }
}

/// The images of all manifest lines from `idx` on, in manifest order.
pub open spec fn debian_manifest_images(
    lines: Seq<Seq<char>>,
    codename: Seq<char>,
    base: Seq<char>,
    dir: Seq<char>,
    want: Seq<char>,
    idx: int,
) -> Seq<ImageModel>
    decreases lines.len() - idx,
{
    if idx < 0 || idx >= lines.len() {
        Seq::<ImageModel>::empty()
    } else {
        debian_line_images(lines[idx], codename, base, dir, want) + debian_manifest_images(
            lines,
            codename,
            base,
            dir,
            want,
            idx + 1,
        )
    }
}

/// The images one build directory yields: none when its manifest could
/// not be fetched — such a directory is skipped, not fatal.
pub open spec fn debian_dir_images(
    pair: (Seq<char>, Option<Seq<char>>),
    codename: Seq<char>,
    base: Seq<char>,
    want: Seq<char>,
) -> Seq<ImageModel> {
    match pair.1 {
        None => Seq::<ImageModel>::empty(),
        Some(manifest) => debian_manifest_images(
            split_newlines(manifest),
            codename,
            base,
            pair.0,
            want,
            0,
        ),
    }
}

/// The images of all build directories from `idx` on, in directory
/// order.
pub open spec fn debian_images_from(
    pairs: Seq<(Seq<char>, Option<Seq<char>>)>,
    codename: Seq<char>,
    base: Seq<char>,
    want: Seq<char>,
    idx: int,
) -> Seq<ImageModel>
    decreases pairs.len() - idx,
{
    if idx < 0 || idx >= pairs.len() {
        Seq::<ImageModel>::empty()
    } else {
        debian_dir_images(pairs[idx], codename, base, want) + debian_images_from(
            pairs,
            codename,
            base,
            want,
            idx + 1,
        )
    }
}

/// The model of a directory/manifest list.
pub open spec fn dir_pairs_model(pairs: Seq<(String, Option<String>)>) -> Seq<
    (Seq<char>, Option<Seq<char>>),
> {
    pairs.map_values(
        |e: (String, Option<String>)| (
            e.0@,
            match e.1 {
                Some(m) => Some(m@),
                None => None,
            },
        ),
    )
}

/// Every image the fetched build directories yield for one codename and
/// architecture, in directory order then manifest order. The requested
/// architecture is normalized; upstream filenames are not.
pub fn debian_list(
    codename: &str,
    base: &str,
    fetched: &Vec<(String, Option<String>)>,
    arch: &str,
) -> (r: Vec<Image>)
    ensures
        image_views(r@) == debian_images_from(
            dir_pairs_model(fetched@),
            codename@,
            base@,
            normalize_arch_spec(arch@),
            0,
        ),
{
    let want = normalize_arch(arch);
    let ghost pm = dir_pairs_model(fetched@);
    let ghost wv = want@;
    let mut out: Vec<Image> = Vec::new();
    let mut i: usize = 0;
    proof {
        assert(image_views(out@) =~= Seq::<ImageModel>::empty());
    }
    while i < fetched.len()
        invariant
            i <= fetched@.len(),
            pm == dir_pairs_model(fetched@),
            wv == want@,
            image_views(out@) + debian_images_from(pm, codename@, base@, wv, i as int)
                == debian_images_from(pm, codename@, base@, wv, 0),
        decreases fetched@.len() - i,
    {
        let ghost dir_imgs = debian_dir_images(pm[i as int], codename@, base@, wv);
        let ghost out_at_dir = image_views(out@);
        proof {
            assert(pm[i as int].0 == fetched@[i as int].0@);
        }
        match &fetched[i].1 {
            Some(manifest) => {
                let ghost mv = manifest@;
                proof {
                    assert(pm[i as int].1 == Some(mv));
                }
                let dir = &fetched[i].0;
                let lines = split_lines(manifest.as_str());
                let ghost lv = views_of(lines@);
                let mut j: usize = 0;
                proof {
                    assert(image_views(out@) + debian_manifest_images(
                        lv,
                        codename@,
                        base@,
                        dir@,
                        wv,
                        0,
                    ) =~= out_at_dir + dir_imgs);
                }
                while j < lines.len()
                    invariant
                        j <= lines@.len(),
                        lv == views_of(lines@),
                        wv == want@,
                        image_views(out@) + debian_manifest_images(
                            lv,
                            codename@,
                            base@,
                            dir@,
                            wv,
                            j as int,
                        ) == out_at_dir + dir_imgs,
                    decreases lines@.len() - j,
                {
                    let ghost line_imgs = debian_line_images(lv[j as int], codename@, base@, dir@, wv);
                    let ghost out_before = image_views(out@);
                    proof {
                        assert(lv[j as int] == lines@[j as int]@);
                    }
                    let t = trim(lines[j].as_str());
                    match parse_debian_line(t.as_str()) {
                        Some(parts) => {
                            if str_eq(parts.arch.as_str(), want.as_str()) {
                                let ghost partsm = parts@;
                                let url = concat3(base, dir.as_str(), "/");
                                let url = concat2(url.as_str(), parts.file.as_str());
                                proof {
                                    reveal_strlit("/");
                                }
                                let checksum = ImageChecksum::new(ChecksumKind::Sha512, parts.sha);
                                let img = Image::from_parts(
                                    String::from_str("debian"),
                                    String::from_str(codename),
                                    parts.dver,
                                    dir.clone(),
                                    want.clone(),
                                    url,
                                    Some(checksum),
                                    parts.variant,
                                );
                                proof {
                                    assert(img@ == debian_image_model(
                                        codename@,
                                        base@,
                                        dir@,
                                        wv,
                                        partsm,
                                    ));
                                    assert(line_imgs =~= seq![img@]);
                                }
                                out.push(img);
                                proof {
                                    assert(image_views(out@) =~= out_before + line_imgs) by {
                                        assert(forall|k: int|
                                            0 <= k < out@.len()
                                                ==> #[trigger] image_views(out@)[k] == out@[k]@);
                                        assert(forall|k: int|
                                            0 <= k < out_before.len() ==> #[trigger] out_before[k]
                                                == out@[k]@);
                                    }
                                }
                            } else {
                                proof {
                                    assert(line_imgs =~= Seq::<ImageModel>::empty());
                                }
                            }
                        },
                        None => {
                            proof {
                                assert(line_imgs =~= Seq::<ImageModel>::empty());
                            }
                        },
                    }
                    proof {
                        assert(debian_manifest_images(lv, codename@, base@, dir@, wv, j as int)
                            == line_imgs + debian_manifest_images(
                            lv,
                            codename@,
                            base@,
                            dir@,
                            wv,
                            j + 1,
                        ));
                        assert(image_views(out@) + debian_manifest_images(
                            lv,
                            codename@,
                            base@,
                            dir@,
                            wv,
                            j + 1,
                        ) =~= out_at_dir + dir_imgs);
                    }
                    j += 1;
                }
                proof {
                    assert(debian_manifest_images(
                        lv,
                        codename@,
                        base@,
                        dir@,
                        wv,
                        lines@.len() as int,
                    ) =~= Seq::<ImageModel>::empty());
                    assert(image_views(out@) =~= out_at_dir + dir_imgs);
                }
            },
            None => {
                proof {
                    assert(pm[i as int].1 is None);
                    assert(dir_imgs =~= Seq::<ImageModel>::empty());
                    assert(image_views(out@) =~= out_at_dir + dir_imgs);
                }
            },
        }
        proof {
            assert(debian_images_from(pm, codename@, base@, wv, i as int) == dir_imgs
                + debian_images_from(pm, codename@, base@, wv, i + 1));
            assert(image_views(out@) + debian_images_from(pm, codename@, base@, wv, i + 1)
                =~= debian_images_from(pm, codename@, base@, wv, 0));
        }
        i += 1;
    }
    proof {
        assert(debian_images_from(pm, codename@, base@, wv, fetched@.len() as int)
            =~= Seq::<ImageModel>::empty());
        assert(image_views(out@) =~= debian_images_from(pm, codename@, base@, wv, 0));
    }
    out
}

// ---------------------------------------------------------------------------
// Major-version detection
// ---------------------------------------------------------------------------

/// The major version named by a `debian-<digits>-` occurrence at `i`.
pub open spec fn major_capture_at(s: Seq<char>, i: int) -> Option<Seq<char>> {
    if !match_at(s, i, "debian-"@) {
        None
    } else {
        let d = first_non_digit(s, i + 7);
        if d > i + 7 && d < s.len() && s[d] == '-' {
            Some(s.subrange(i + 7, d))
        } else {
            None
        }
    }
}

/// The first major version a document names, scanning from `i`.
pub open spec fn first_major_from(s: Seq<char>, i: int) -> Option<Seq<char>>
    decreases s.len() - i,
{
    if i < 0 || i >= s.len() {
        None
    } else {
        match major_capture_at(s, i) {
            Some(c) => Some(c),
            None => first_major_from(s, i + 1),
        }
    }
}

/// The major version of the release a checksum manifest describes: the
/// digits of the first `debian-<digits>-` occurrence, if any.
pub fn detect_major_in_text(text: &str) -> (r: Option<String>)
    ensures
        (match r {
            Some(m) => Some(m@),
            None => None,
        }) == first_major_from(text@, 0),
{
    let n = text.unicode_len();
    let mut i: usize = 0;
    while i < n
        invariant
            i <= n,
            n == text@.len(),
            first_major_from(text@, 0) == first_major_from(text@, i as int),
        decreases n - i,
    {
        if str_match_at(text, i, "debian-") {
            proof {
                reveal_strlit("debian-");
            }
            let d = exec_first_non_digit_local(text, i + 7);
            if d > i + 7 && d < n && text.get_char(d) == '-' {
                return Some(substring(text, i + 7, d));
            }
        }
        i += 1;
    }
    None
}

// ---------------------------------------------------------------------------
// Repository URL templates
// ---------------------------------------------------------------------------

/// The template split at its first placeholder, or `None` without one.
pub open spec fn template_split_spec(url: Seq<char>) -> Option<(Seq<char>, Seq<char>)> {
    let p = first_match(url, "{}"@);
    if p < 0 {
        None
    } else {
        Some((url.subrange(0, p), url.subrange(p + 2, url.len() as int)))
    }
}

/// Split the repository URL template into the prefix and suffix around
/// its first placeholder.
pub fn repository_template(repo: &Repository) -> (r: Result<(String, String), ResolveError>)
    ensures
        match r {
            Ok(parts) => template_split_spec(repo@.url) == Some((parts.0@, parts.1@)),
            Err(e) => template_split_spec(repo@.url) is None && (
            e matches ResolveError::Configuration(_)),
        },
{
    proof {
        reveal_strlit("{}");
    }
    match crate::strutil::find_first(repo.url(), "{}") {
        Some(p) => {
            proof {
                crate::strutil::lemma_first_match_found(repo@.url, "{}"@, p as int, 0);
            }
            let n = repo.url().unicode_len();
            Ok((substring(repo.url(), 0, p), substring(repo.url(), p + 2, n)))
        },
        None => {
            proof {
                crate::strutil::lemma_first_match_none(repo@.url, "{}"@, 0);
            }
            Err(
                ResolveError::Configuration(
                    String::from_str("repository URL template needs a placeholder"),
                ),
            )
        },
    }
}

/// The root under which codename directories are listed.
pub open spec fn repository_root_spec(url: Seq<char>) -> Option<Seq<char>> {
    match template_split_spec(url) {
        Some(parts) => Some(with_trailing_slash(parts.0)),
        None => None,
    }
}

/// The root under which codename directories are listed: the template
/// prefix, with a trailing slash guaranteed.
pub fn repository_root(repo: &Repository) -> (r: Result<String, ResolveError>)
    ensures
        match r {
            Ok(u) => repository_root_spec(repo@.url) == Some(u@),
            Err(e) => repository_root_spec(repo@.url) is None && (
            e matches ResolveError::Configuration(_)),
        },
{
    match repository_template(repo) {
        Ok(parts) => Ok(crate::strutil::ensure_trailing_slash(parts.0)),
        Err(e) => Err(e),
    }
}

/// Ghost-level picture of a [`DebianRepoUrls`].
pub struct DebianRepoUrlsModel {
    pub latest: Seq<char>,
    pub listing_root: Seq<char>,
}

/// The two URLs a codename resolves to: its `latest` directory and the
/// root under which its build directories are listed.
#[derive(Debug)]
pub struct DebianRepoUrls {
    pub latest: String,
    pub listing_root: String,
}

impl View for DebianRepoUrls {
    type V = DebianRepoUrlsModel;

    open spec fn view(&self) -> DebianRepoUrlsModel {
        DebianRepoUrlsModel { latest: self.latest@, listing_root: self.listing_root@ }
    }
}

/// The URLs a codename resolves to: the codename substituted into the
/// template with a trailing slash; the listing root is the same URL with
/// a final `latest/` segment stripped.
pub open spec fn repository_urls_spec(url: Seq<char>, codename: Seq<char>) -> Option<
    DebianRepoUrlsModel,
> {
    match template_split_spec(url) {
        None => None,
        Some(parts) => {
            let latest = with_trailing_slash(parts.0 + codename + parts.1);
            let root = if ends_with(latest, "latest/"@) {
                latest.subrange(0, latest.len() - 7)
            } else {
                latest
            };
            Some(DebianRepoUrlsModel { latest, listing_root: with_trailing_slash(root) })
        },
    }
}

/// Resolve the two URLs of one codename.
pub fn repository_urls(repo: &Repository, codename: &str) -> (r: Result<
    DebianRepoUrls,
    ResolveError,
>)
    ensures
        match r {
            Ok(urls) => repository_urls_spec(repo@.url, codename@) == Some(urls@),
            Err(e) => repository_urls_spec(repo@.url, codename@) is None && (
            e matches ResolveError::Configuration(_)),
        },
{
    let parts = match repository_template(repo) {
        Ok(parts) => parts,
        Err(e) => {
            return Err(e);
        },
    };
    let joined = concat3(parts.0.as_str(), codename, parts.1.as_str());
    let latest = crate::strutil::ensure_trailing_slash(joined);
    proof {
        reveal_strlit("latest/");
    }
    let n = latest.as_str().unicode_len();
    let root = if crate::strutil::str_ends_with(latest.as_str(), "latest/") {
        substring(latest.as_str(), 0, n - 7)
    } else {
        String::from_str(latest.as_str())
    };
    let listing_root = crate::strutil::ensure_trailing_slash(root);
    Ok(DebianRepoUrls { latest, listing_root })
}

// ---------------------------------------------------------------------------
// Codenames
// ---------------------------------------------------------------------------

/// The built-in codename fallbacks, in their fixed order.
pub fn codename_options() -> (r: Vec<&'static str>)
    ensures
        r@.len() == 3,
        r@[0]@ == "stable"@,
        r@[1]@ == "bookworm"@,
        r@[2]@ == "trixie"@,
{
    let mut v: Vec<&'static str> = Vec::new();
    v.push("stable");
    v.push("bookworm");
    v.push("trixie");
    v
}

/// The distinct codename directories an index document links to, in
/// ascending order.
pub fn parse_codename_dirs(html: &str) -> (r: Vec<String>)
    ensures
        crate::listutil::sorted_strict_asc(views_of(r@)),
        seq_set(views_of(r@)) == seq_set(href_captures_spec(HrefKind::Codename, html@)),
{
    let caps = href_captures(HrefKind::Codename, html);
    let r = crate::listutil::distinct_sorted_asc(&caps);
    proof {
        lemma_str_set_is_seq_set(r@);
        lemma_str_set_is_seq_set(caps@);
    }
    r
}

/// The codenames to offer: what discovery found when it found anything,
/// else the built-in defaults.
pub fn codenames_or_default(discovered: Vec<String>) -> (r: Vec<String>)
    ensures
        discovered@.len() > 0 ==> r@ == discovered@,
        discovered@.len() == 0 ==> r@.len() == 3 && r@[0]@ == "stable"@ && r@[1]@ == "bookworm"@
            && r@[2]@ == "trixie"@,
{
    if discovered.len() > 0 {
        discovered
    } else {
        let mut v: Vec<String> = Vec::new();
        v.push(String::from_str("stable"));
        v.push(String::from_str("bookworm"));
        v.push(String::from_str("trixie"));
        v
    }
}

/// Ghost-level picture of a [`CodenameOption`].
pub struct CodenameOptionModel {
    pub codename: Seq<char>,
    pub label: Seq<char>,
    pub major_version: Option<Seq<char>>,
}

/// One offered codename, with the detected major version and the label
/// shown to the operator.
#[derive(Debug, Clone, PartialEq, Eq)]
pub struct CodenameOption {
    pub codename: String,
    pub label: String,
    pub major_version: Option<String>,
}

impl View for CodenameOption {
    type V = CodenameOptionModel;

    open spec fn view(&self) -> CodenameOptionModel {
        CodenameOptionModel {
            codename: self.codename@,
            label: self.label@,
            major_version: match self.major_version {
                Some(ref m) => Some(m@),
                None => None,
            },
        }
    }
}

/// The option one (codename, detected major) pair yields: the label is
/// `<major> (<codename>)` when a major was detected, the codename alone
/// otherwise.
pub open spec fn codename_option_of(pair: (Seq<char>, Option<Seq<char>>)) -> CodenameOptionModel {
    CodenameOptionModel {
        codename: pair.0,
        label: match pair.1 {
            Some(m) => m + " ("@ + pair.0 + ")"@,
            None => pair.0,
        },
        major_version: pair.1,
    }
}

/// A decimal string a 32-bit parse accepts.
pub open spec fn parses_u32(s: Seq<char>) -> bool {
    s.len() > 0 && all_digits(s) && crate::strutil::digits_value(s) <= u32::MAX
}

/// `a` orders at or before `b`: detected majors first, numerically
/// descending when both parse, lexicographically descending otherwise;
/// options without a major last, by codename ascending.
pub open spec fn codename_le(a: CodenameOptionModel, b: CodenameOptionModel) -> bool {
    match (a.major_version, b.major_version) {
        (Some(ma), Some(mb)) => {
            if parses_u32(ma) && parses_u32(mb) {
                crate::strutil::digits_value(mb) <= crate::strutil::digits_value(ma)
            } else {
                crate::strutil::str_le(mb, ma)
            }
        },
        (Some(ma), None) => true,
        (None, Some(mb)) => false,
        (None, None) => crate::strutil::str_le(a.codename, b.codename),
    }
}

/// Stable insertion under [`codename_le`].
pub open spec fn insert_codename(x: CodenameOptionModel, s: Seq<CodenameOptionModel>) -> Seq<
    CodenameOptionModel,
>
    decreases s.len(),
{
    if s.len() > 0 && codename_le(s[0], x) {
        seq![s[0]] + insert_codename(x, s.drop_first())
    } else {
        seq![x] + s
    }
}

/// Stable insertion sort under [`codename_le`], processing left to
/// right.
pub open spec fn sort_codenames_spec(s: Seq<CodenameOptionModel>) -> Seq<CodenameOptionModel>
    decreases s.len(),
{
    if s.len() == 0 {
        s
    } else {
        insert_codename(s.last(), sort_codenames_spec(s.drop_last()))
    }
}

/// Inserting at the position a left-to-right scan finds reproduces the
/// spec-level insertion.
proof fn lemma_insert_codename_at(x: CodenameOptionModel, s: Seq<CodenameOptionModel>, j: int)
    requires
        0 <= j <= s.len(),
        forall|k: int| 0 <= k < j ==> codename_le(#[trigger] s[k], x),
        j < s.len() ==> !codename_le(s[j], x),
    ensures
        insert_codename(x, s) == s.insert(j, x),
    decreases j,
{
    if j == 0 {
        if s.len() > 0 {
            assert(!codename_le(s[0], x));
        }
        assert(insert_codename(x, s) == seq![x] + s);
        assert(s.insert(0, x) =~= seq![x] + s);
    } else {
        assert(codename_le(s[0], x));
        lemma_insert_codename_at(x, s.drop_first(), j - 1);
        assert(insert_codename(x, s) == seq![s[0]] + s.drop_first().insert(j - 1, x));
        assert(s.insert(j, x) =~= seq![s[0]] + s.drop_first().insert(j - 1, x));
    }
}

/// The models of an option list, in order.
pub open spec fn codename_option_views(s: Seq<CodenameOption>) -> Seq<CodenameOptionModel> {
    s.map_values(|o: CodenameOption| o@)
}

/// Is `a` at or before `b` in the codename ordering?
fn codename_le_exec(a: &CodenameOption, b: &CodenameOption) -> (r: bool)
    ensures
        r == codename_le(a@, b@),
{
    match (&a.major_version, &b.major_version) {
        (Some(ma), Some(mb)) => {
            match (crate::strutil::parse_u32(ma.as_str()), crate::strutil::parse_u32(mb.as_str())) {
                (Some(va), Some(vb)) => vb <= va,
                _ => crate::strutil::str_lt_exec(mb.as_str(), ma.as_str()) || str_eq(
                    mb.as_str(),
                    ma.as_str(),
                ),
            }
        },
        (Some(_), None) => true,
        (None, Some(_)) => false,
        (None, None) => crate::strutil::str_lt_exec(a.codename.as_str(), b.codename.as_str())
            || str_eq(a.codename.as_str(), b.codename.as_str()),
    }
}

/// Build the offered options from (codename, detected major) pairs:
/// label each pair, then order them, majors first and newest first.
pub fn build_codename_options(pairs: Vec<(String, Option<String>)>) -> (r: Vec<CodenameOption>)
    ensures
        codename_option_views(r@) == sort_codenames_spec(
            dir_pairs_model(pairs@).map_values(|p: (Seq<char>, Option<Seq<char>>)| codename_option_of(p)),
        ),
{
    let ghost target = dir_pairs_model(pairs@).map_values(
        |p: (Seq<char>, Option<Seq<char>>)| codename_option_of(p),
    );
    let bound = pairs.len();
    proof {
        assert(target.len() == bound);
    }
    let mut rest = pairs;
    let mut out: Vec<CodenameOption> = Vec::new();
    let mut i: usize = 0;
    proof {
        assert(target.take(0) =~= Seq::<CodenameOptionModel>::empty());
        assert(dir_pairs_model(rest@) =~= dir_pairs_model(rest@).skip(0));
    }
    while rest.len() > 0
        invariant
            bound == target.len(),
            i + rest@.len() == target.len(),
            forall|k: int|
                0 <= k < rest@.len() ==> codename_option_of(
                    #[trigger] dir_pairs_model(rest@)[k],
                ) == target[i + k],
            codename_option_views(out@) == sort_codenames_spec(target.take(i as int)),
        decreases rest@.len(),
    {
        let ghost rest_before = rest@;
        let pair = rest.remove(0);
        proof {
            assert(dir_pairs_model(rest_before)[0] == (pair.0@, match pair.1 {
                Some(ref m) => Some(m@),
                None => None::<Seq<char>>,
            }));
            assert(forall|k: int|
                0 <= k < rest@.len() ==> #[trigger] dir_pairs_model(rest@)[k]
                    == dir_pairs_model(rest_before)[k + 1]);
        }
        let x = match &pair.1 {
            Some(m) => {
                let mut label = String::from_str(m.as_str());
                label.append(" (");
                label.append(pair.0.as_str());
                label.append(")");
                proof {
                    assert(label@ =~= m@ + " ("@ + pair.0@ + ")"@);
                }
                CodenameOption { codename: pair.0, label, major_version: pair.1 }
            },
            None => {
                let label = String::from_str(pair.0.as_str());
                CodenameOption { codename: pair.0, label, major_version: None }
            },
        };
        proof {
            assert(x@ == target[i as int]);
        }
        let ghost before = codename_option_views(out@);
        let ghost out_snap = out@;
        let mut j: usize = 0;
        while j < out.len() && codename_le_exec(&out[j], &x)
            invariant
                out@ == out_snap,
                j <= out@.len(),
                forall|k: int| 0 <= k < j ==> codename_le(#[trigger] out@[k]@, x@),
            decreases out@.len() - j,
        {
            j += 1;
        }
        proof {
            assert(before == codename_option_views(out@));
            assert(forall|k: int| 0 <= k < out@.len() ==> #[trigger] before[k] == out@[k]@);
            lemma_insert_codename_at(x@, before, j as int);
        }
        out.insert(j, x);
        proof {
            assert(out@ == out_snap.insert(j as int, x));
            assert(forall|k: int|
                0 <= k < out@.len() ==> out@[k] == if k < j {
                    out_snap[k]
                } else if k == j {
                    x
                } else {
                    out_snap[k - 1]
                });
            assert(codename_option_views(out@) =~= before.insert(j as int, x@)) by {
                assert(forall|k: int|
                    0 <= k < out@.len() ==> #[trigger] codename_option_views(out@)[k] == out@[k]@);
            }
            assert(target.take(i + 1).drop_last() =~= target.take(i as int));
            assert(target.take(i + 1).last() == target[i as int]);
            assert(sort_codenames_spec(target.take(i + 1)) == insert_codename(x@, before));
        }
        i += 1;
    }
    proof {
        assert(target.take(target.len() as int) =~= target);
    }
    out
}

// ---------------------------------------------------------------------------
// Direct asset resolution
// ---------------------------------------------------------------------------

/// Ghost-level picture of an [`ImageRequest`].
pub struct ImageRequestModel {
    pub distro: Seq<char>,
    pub codename_or_major: Seq<char>,
    pub arch: Seq<char>,
    pub variant: Seq<char>,
    pub format: Seq<char>,
}

/// A fully-specified request for one artifact.
#[derive(Debug, Clone)]
pub struct ImageRequest {
    pub distro: String,
    pub codename_or_major: String,
    pub arch: String,
    pub variant: String,
    pub format: String,
}

impl View for ImageRequest {
    type V = ImageRequestModel;

    open spec fn view(&self) -> ImageRequestModel {
        ImageRequestModel {
            distro: self.distro@,
            codename_or_major: self.codename_or_major@,
            arch: self.arch@,
            variant: self.variant@,
            format: self.format@,
        }
    }
}

/// Ghost-level picture of an [`ImageAsset`].
pub struct ImageAssetModel {
    pub url: Seq<char>,
    pub sha512: Seq<char>,
    pub filename: Seq<char>,
}

/// One resolved artifact: its URL, its promised digest, its filename.
#[derive(Debug, Clone)]
pub struct ImageAsset {
    pub url: String,
    pub sha512: String,
    pub filename: String,
}

impl View for ImageAsset {
    type V = ImageAssetModel;

    open spec fn view(&self) -> ImageAssetModel {
        ImageAssetModel { url: self.url@, sha512: self.sha512@, filename: self.filename@ }
    }
}

/// The Debian implementation of direct asset resolution.
#[derive(Debug)]
pub struct DebianProvider;

/// `seg` spells `v` folded to ASCII lowercase, character for character.
pub open spec fn spells_lowered(seg: Seq<char>, v: Seq<char>) -> bool {
    seg.len() == v.len() && forall|i: int|
        0 <= i < seg.len() ==> (#[trigger] seg[i]) as u32 == lower_code(v[i])
}

/// The filename matched at position `i` of a manifest line:
/// `debian-<digits>-<variant lowered>-<arch>.<format>`, with the variant
/// folded to lowercase and the architecture and format exact.
pub open spec fn asset_capture_at(
    line: Seq<char>,
    i: int,
    variant: Seq<char>,
    arch: Seq<char>,
    format: Seq<char>,
) -> Option<Seq<char>> {
    if !match_at(line, i, "debian-"@) {
        None
    } else {
        let d = first_non_digit(line, i + 7);
        let vl = variant.len() as int;
        if d == i + 7 || d >= line.len() || line[d] != '-' {
            None
        } else if !(d + 1 + vl < line.len() && spells_lowered(
            line.subrange(d + 1, d + 1 + vl),
            variant,
        ) && line[d + 1 + vl] == '-') {
            None
        } else if !match_at(line, d + 2 + vl, arch) {
            None
        } else {
            let dot = d + 2 + vl + arch.len();
            if !(dot < line.len() && line[dot] == '.' && match_at(line, dot + 1, format)) {
                None
            } else {
                Some(line.subrange(i, dot + 1 + format.len()))
            }
        }
    }
}

/// The leftmost filename match in a line, scanning from `i`.
pub open spec fn first_asset_from(
    line: Seq<char>,
    variant: Seq<char>,
    arch: Seq<char>,
    format: Seq<char>,
    i: int,
) -> Option<Seq<char>>
    decreases line.len() - i,
{
    if i < 0 || i >= line.len() {
        None
    } else {
        match asset_capture_at(line, i, variant, arch, format) {
            Some(c) => Some(c),
            None => first_asset_from(line, variant, arch, format, i + 1),
        }
    }
}

/// Index of the first space at or after `from`, or the length.
pub open spec fn first_ws(t: Seq<char>, from: int) -> int
    decreases t.len() - from,
{
    if from < 0 || from >= t.len() {
        t.len() as int
    } else if is_space(t[from]) {
        from
    } else {
        first_ws(t, from + 1)
    }
}

/// The first whitespace-separated token of a line.
pub open spec fn first_token(line: Seq<char>) -> Seq<char> {
    let a = first_non_ws(line, 0);
    line.subrange(a, first_ws(line, a))
}

/// The asset of the first manifest line holding a filename match, from
/// line `idx` on: the URL is the base followed by the filename, and the
/// promised digest is the line's first token.
pub open spec fn select_asset_from(
    lines: Seq<Seq<char>>,
    base: Seq<char>,
    variant: Seq<char>,
    arch: Seq<char>,
    format: Seq<char>,
    idx: int,
) -> Option<ImageAssetModel>
    decreases lines.len() - idx,
{
    if idx < 0 || idx >= lines.len() {
        None
    } else {
        match first_asset_from(lines[idx], variant, arch, format, 0) {
            Some(file) => Some(
                ImageAssetModel {
                    url: base + file,
                    sha512: first_token(lines[idx]),
                    filename: file,
                },
            ),
            None => select_asset_from(lines, base, variant, arch, format, idx + 1),
        }
    }
}

/// The asset a manifest body resolves to, if any line matches.
pub open spec fn select_asset_spec(
    sums: Seq<char>,
    base: Seq<char>,
    variant: Seq<char>,
    arch: Seq<char>,
    format: Seq<char>,
) -> Option<ImageAssetModel> {
    select_asset_from(split_newlines(sums), base, variant, arch, format, 0)
}

fn exec_spells_lowered(seg: &str, v: &str) -> (r: bool)
    ensures
        r == spells_lowered(seg@, v@),
{
    let n = seg.unicode_len();
    if n != v.unicode_len() {
        return false;
    }
    let mut i: usize = 0;
    while i < n
        invariant
            i <= n,
            n == seg@.len(),
            n == v@.len(),
            forall|k: int| 0 <= k < i ==> (#[trigger] seg@[k]) as u32 == lower_code(v@[k]),
        decreases n - i,
    {
        if seg.get_char(i) as u32 != exec_lower_code(v.get_char(i)) {
            return false;
        }
        i += 1;
    }
    true
}

/// The filename matched at position `i` of a manifest line, if any.
fn exec_asset_capture_at(line: &str, i: usize, variant: &str, arch: &str, format: &str) -> (r:
    Option<String>)
    ensures
        (match r {
            Some(c) => Some(c@),
            None => None,
        }) == asset_capture_at(line@, i as int, variant@, arch@, format@),
{
    if !str_match_at(line, i, "debian-") {
        return None;
    }
    proof {
        reveal_strlit("debian-");
    }
    let n = line.unicode_len();
    let d = exec_first_non_digit_local(line, i + 7);
    let vl = variant.unicode_len();
    if d == i + 7 || d >= n || line.get_char(d) != '-' {
        return None;
    }
    if !(n - d > vl && n - d - vl > 1 && line.get_char(d + 1 + vl) == '-') {
        return None;
    }
    let seg = line.substring_char(d + 1, d + 1 + vl);
    if !exec_spells_lowered(seg, variant) {
        return None;
    }
    if !str_match_at(line, d + 2 + vl, arch) {
        return None;
    }
    let al = arch.unicode_len();
    let dot = d + 2 + vl + al;
    if !(dot < n && line.get_char(dot) == '.' && str_match_at(line, dot + 1, format)) {
        return None;
    }
    let fl = format.unicode_len();
    Some(substring(line, i, dot + 1 + fl))
}

/// The leftmost filename match in a line, if any.
fn exec_first_asset(line: &str, variant: &str, arch: &str, format: &str) -> (r: Option<String>)
    ensures
        (match r {
            Some(c) => Some(c@),
            None => None,
        }) == first_asset_from(line@, variant@, arch@, format@, 0),
{
    let n = line.unicode_len();
    let mut i: usize = 0;
    while i < n
        invariant
            i <= n,
            n == line@.len(),
            first_asset_from(line@, variant@, arch@, format@, 0) == first_asset_from(
                line@,
                variant@,
                arch@,
                format@,
                i as int,
            ),
        decreases n - i,
    {
        match exec_asset_capture_at(line, i, variant, arch, format) {
            Some(c) => {
                return Some(c);
            },
            None => {},
        }
        i += 1;
    }
    None
}

/// The first whitespace-separated token of a line.
fn exec_first_token(line: &str) -> (r: String)
    ensures
        r@ == first_token(line@),
{
    let n = line.unicode_len();
    let a = exec_first_non_ws(line, 0);
    let mut b: usize = a;
    while b < n && !exec_is_space(line.get_char(b))
        invariant
            a <= b <= n,
            n == line@.len(),
            first_ws(line@, a as int) == first_ws(line@, b as int),
        decreases n - b,
    {
        b += 1;
    }
    substring(line, a, b)
}

impl DebianProvider {
    /// Resolve a request against a fetched `SHA512SUMS` body: the first
    /// line naming a file of the requested variant (folded to
    /// lowercase), architecture (normalized) and format wins; without
    /// one, the request's filter values are reported.
    pub fn select_asset(&self, req: &ImageRequest, sums: &str, base: &str) -> (r: Result<
        ImageAsset,
        ResolveError,
    >)
        ensures
            match r {
                Ok(asset) => select_asset_spec(
                    sums@,
                    base@,
                    req@.variant,
                    normalize_arch_spec(req@.arch),
                    req@.format,
                ) == Some(asset@),
                Err(e) => select_asset_spec(
                    sums@,
                    base@,
                    req@.variant,
                    normalize_arch_spec(req@.arch),
                    req@.format,
                ) is None && (e matches ResolveError::EmptyResult(fs) && fs@.len() == 3
                    && fs@[0]@ == req@.variant && fs@[1]@ == req@.arch && fs@[2]@ == req@.format),
            },
    {
        let want = normalize_arch(&req.arch);
        let lines = split_lines(sums);
        let ghost lv = views_of(lines@);
        let mut i: usize = 0;
        while i < lines.len()
            invariant
                i <= lines@.len(),
                lv == views_of(lines@),
                lv == split_newlines(sums@),
                want@ == normalize_arch_spec(req@.arch),
                select_asset_from(lv, base@, req@.variant, want@, req@.format, 0)
                    == select_asset_from(lv, base@, req@.variant, want@, req@.format, i as int),
            decreases lines@.len() - i,
        {
            proof {
                assert(lv[i as int] == lines@[i as int]@);
            }
            match exec_first_asset(lines[i].as_str(), req.variant.as_str(), want.as_str(),
                req.format.as_str()) {
                Some(file) => {
                    let sha = exec_first_token(lines[i].as_str());
                    let url = concat2(base, file.as_str());
                    return Ok(ImageAsset { url, sha512: sha, filename: file });
                },
                None => {},
            }
            i += 1;
        }
        let mut filters: Vec<String> = Vec::new();
        filters.push(String::from_str(req.variant.as_str()));
        filters.push(String::from_str(req.arch.as_str()));
        filters.push(String::from_str(req.format.as_str()));
        Err(ResolveError::EmptyResult(filters))
    }
}

/// Check fetched bytes against the digest an asset promises: success
/// exactly when the SHA-512 of the bytes spells the promised value,
/// ignoring case.
pub fn verify_asset(bytes: &[u8], asset: &ImageAsset) -> (r: Result<(), ResolveError>)
    ensures
        r is Ok <==> eq_ignore_case(
            crate::checksum::hex_of_bytes(crate::checksum::sha512_of(bytes@)),
            asset@.sha512,
        ),
        r matches Err(e) ==> e matches ResolveError::ChecksumMismatch { expected, actual }
            && expected@ == asset@.sha512 && actual@ == crate::checksum::hex_of_bytes(
            crate::checksum::sha512_of(bytes@),
        ),
{
    let got = crate::checksum::compute_digest_hex(ChecksumKind::Sha512, bytes);
    if crate::strutil::str_eq_ignore_case(got.as_str(), asset.sha512.as_str()) {
        Ok(())
    } else {
        Err(
            ResolveError::ChecksumMismatch {
                expected: String::from_str(asset.sha512.as_str()),
                actual: got,
            },
        )
    }
}

} // verus!
