//! Extraction of directory links from upstream HTML indexes. Each
//! provider accepts a different shape of `href="<name>/"` target: the
//! name grammar is the parameter, the scan is shared.

use vstd::prelude::*;

use crate::listutil::views_of;
use crate::strutil::{is_digit, is_lower, match_at, str_match_at, substring};

verus! {

/// Which shape of directory name an index scan accepts.
#[derive(Debug, Clone, Copy, PartialEq, Eq, Structural)]
pub enum HrefKind {
    /// Any non-empty name free of slashes and quotes: a build directory,
    /// validated further by the caller.
    AnyDir,
    /// A lowercase codename: `[a-z0-9]` then one or more of `[a-z0-9-]`.
    Codename,
    /// A major version: one or two digits.
    Major,
}

/// Characters a codename may hold.
pub open spec fn is_codename_char(c: char) -> bool {
    is_lower(c) || is_digit(c) || c == '-'
}

/// Characters an unconstrained directory name may hold.
pub open spec fn is_dir_char(c: char) -> bool {
    c != '"' && c != '/'
}

/// Does the kind's name class hold `c`?
pub open spec fn name_char(kind: HrefKind, c: char) -> bool {
    match kind {
        HrefKind::AnyDir => is_dir_char(c),
        HrefKind::Codename => is_codename_char(c),
        HrefKind::Major => is_digit(c),
    }
}

/// First index at or after `from` whose character the kind's name class
/// rejects, or the length.
pub open spec fn name_end(kind: HrefKind, s: Seq<char>, from: int) -> int
    decreases s.len() - from,
{
    if from < 0 || from >= s.len() {
        s.len() as int
    } else if name_char(kind, s[from]) {
        name_end(kind, s, from + 1)
    } else {
        from
    }
}

/// The directory name captured by an `href="<name>/"` occurrence
/// starting at `i`, when the pattern matches there: the name runs to the
/// first character its class rejects, which must open the closing `/"`.
pub open spec fn href_capture_at(kind: HrefKind, s: Seq<char>, i: int) -> Option<Seq<char>> {
    if !match_at(s, i, "href=\""@) {
        None
    } else {
        let start = i + 6;
        let e = name_end(kind, s, start);
        let ok = {
            &&& e < s.len()
            &&& s[e] == '/'
            &&& e + 1 < s.len()
            &&& s[e + 1] == '"'
            &&& match kind {
                HrefKind::AnyDir => e > start,
                HrefKind::Codename => e >= start + 2 && s[start] != '-',
                HrefKind::Major => e == start + 1 || e == start + 2,
            }
        };
        if ok {
            Some(s.subrange(start, e))
        } else {
            None
        }
    }
}

/// Every captured name from position `i` on, in order of occurrence.
pub open spec fn href_captures_from(kind: HrefKind, s: Seq<char>, i: int) -> Seq<Seq<char>>
    decreases s.len() - i,
{
    if i < 0 || i >= s.len() {
        Seq::<Seq<char>>::empty()
    } else {
        match href_capture_at(kind, s, i) {
            Some(c) => seq![c] + href_captures_from(kind, s, i + 1),
            None => href_captures_from(kind, s, i + 1),
        }
    }
}

/// Every captured name in a document, in order of occurrence.
pub open spec fn href_captures_spec(kind: HrefKind, s: Seq<char>) -> Seq<Seq<char>> {
    href_captures_from(kind, s, 0)
}

fn exec_name_char(kind: HrefKind, c: char) -> (r: bool)
    ensures
        r == name_char(kind, c),
{
    match kind {
        HrefKind::AnyDir => c != '"' && c != '/',
        HrefKind::Codename => ('a' <= c && c <= 'z') || ('0' <= c && c <= '9') || c == '-',
        HrefKind::Major => '0' <= c && c <= '9',
    }
}

fn exec_name_end(kind: HrefKind, s: &str, from: usize) -> (r: usize)
    requires
        from <= s@.len(),
    ensures
        r == name_end(kind, s@, from as int),
        from <= r <= s@.len(),
{
    let n = s.unicode_len();
    let mut k: usize = from;
    while k < n && exec_name_char(kind, s.get_char(k))
        invariant
            from <= k <= n,
            n == s@.len(),
            name_end(kind, s@, from as int) == name_end(kind, s@, k as int),
        decreases n - k,
    {
        k += 1;
    }
    k
}

/// The name captured at position `i`, when the pattern matches there.
fn exec_href_capture_at(kind: HrefKind, s: &str, i: usize) -> (r: Option<String>)
    ensures
        (match r {
            Some(c) => Some(c@),
            None => None,
        }) == href_capture_at(kind, s@, i as int),
{
    if !str_match_at(s, i, "href=\"") {
        return None;
    }
    proof {
        reveal_strlit("href=\"");
    }
    let n = s.unicode_len();
    let start = i + 6;
    let e = exec_name_end(kind, s, start);
    let run = e - start;
    let shape = match kind {
        HrefKind::AnyDir => run > 0,
        HrefKind::Codename => run >= 2 && s.get_char(start) != '-',
        HrefKind::Major => run == 1 || run == 2,
    };
    let ok = e < n && s.get_char(e) == '/' && e + 1 < n && s.get_char(e + 1) == '"' && shape;
    if ok {
        Some(substring(s, start, e))
    } else {
        None
    }
}

/// Every directory name an index document links to, in order of
/// occurrence.
pub fn href_captures(kind: HrefKind, html: &str) -> (r: Vec<String>)
    ensures
        views_of(r@) == href_captures_spec(kind, html@),
{
    let n = html.unicode_len();
    let mut out: Vec<String> = Vec::new();
    let mut i: usize = 0;
    proof {
        assert(views_of(out@) =~= Seq::<Seq<char>>::empty());
    }
    while i < n
        invariant
            i <= n,
            n == html@.len(),
            views_of(out@) + href_captures_from(kind, html@, i as int) == href_captures_spec(
                kind,
                html@,
            ),
        decreases n - i,
    {
        let ghost out_before = views_of(out@);
        match exec_href_capture_at(kind, html, i) {
            Some(name) => {
                let ghost nv = name@;
                out.push(name);
                proof {
                    assert(views_of(out@) =~= out_before + seq![nv]);
                    assert(href_captures_from(kind, html@, i as int) == seq![nv]
                        + href_captures_from(kind, html@, i + 1));
                    assert(views_of(out@) + href_captures_from(kind, html@, i + 1)
                        =~= href_captures_spec(kind, html@));
                }
            },
            None => {
                proof {
                    assert(href_captures_from(kind, html@, i as int) == href_captures_from(
                        kind,
                        html@,
                        i + 1,
                    ));
                }
            },
        }
        i += 1;
    }
    proof {
        assert(href_captures_from(kind, html@, n as int) =~= Seq::<Seq<char>>::empty());
        assert(views_of(out@) =~= href_captures_spec(kind, html@));
    }
    out
}

} // verus!
