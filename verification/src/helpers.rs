//! Small helpers around the pickers: the architecture menus per
//! distribution, the picker-state holder, and the download filename
//! derived from a URL.

use vstd::prelude::*;

use crate::almalinux::{last_index_of, lemma_last_index_scan};
use crate::strutil::{str_eq, substring};

verus! {

/// The architecture options offered for one distribution. The lists are
/// intentionally small to keep the menus manageable.
pub fn arch_options_for(distro: &str) -> (r: Vec<&'static str>)
    ensures
        distro@ == "Ubuntu"@ ==> r@.len() == 4 && r@[0]@ == "amd64"@ && r@[1]@ == "arm64"@
            && r@[2]@ == "ppc64el"@ && r@[3]@ == "s390x"@,
        distro@ == "Debian"@ ==> r@.len() == 2 && r@[0]@ == "amd64"@ && r@[1]@ == "arm64"@,
        distro@ == "AlmaLinux"@ ==> r@.len() == 2 && r@[0]@ == "x86_64"@ && r@[1]@ == "aarch64"@,
        distro@ != "Ubuntu"@ && distro@ != "Debian"@ && distro@ != "AlmaLinux"@ ==> r@.len() == 1
            && r@[0]@ == "amd64"@,
{
    proof {
        reveal_strlit("Ubuntu");
        reveal_strlit("Debian");
        reveal_strlit("AlmaLinux");
        assert("Ubuntu"@ != "Debian"@) by {
            assert("Ubuntu"@[0] != "Debian"@[0]);
        }
        assert("Ubuntu"@ != "AlmaLinux"@) by {
            assert("Ubuntu"@[0] != "AlmaLinux"@[0]);
        }
        assert("Debian"@ != "AlmaLinux"@);
    }
    let mut v: Vec<&'static str> = Vec::new();
    if str_eq(distro, "Ubuntu") {
        v.push("amd64");
        v.push("arm64");
        v.push("ppc64el");
        v.push("s390x");
    } else if str_eq(distro, "Debian") {
        v.push("amd64");
        v.push("arm64");
    } else if str_eq(distro, "AlmaLinux") {
        v.push("x86_64");
        v.push("aarch64");
    } else {
        v.push("amd64");
    }
    v
}

/// Ghost-level picture of an [`FzfInvoker`].
pub struct FzfInvokerModel {
    pub msg: Seq<char>,
    pub items: Seq<Seq<char>>,
}

/// Holds the title and the entries of one interactive menu; the terminal
/// interaction itself happens outside the library.
#[derive(Debug)]
pub struct FzfInvoker {
    msg: String,
    items: Vec<String>,
}

impl View for FzfInvoker {
    type V = FzfInvokerModel;

    closed spec fn view(&self) -> FzfInvokerModel {
        FzfInvokerModel { msg: self.msg@, items: crate::listutil::views_of(self.items@) }
    }
}

impl FzfInvoker {
    pub fn new(msg: String, items: Vec<String>) -> (r: Self)
        ensures
            r@.msg == msg@,
            r@.items == crate::listutil::views_of(items@),
    {
        FzfInvoker { msg, items }
    }

    /// The menu title.
    pub fn msg(&self) -> (r: &str)
        ensures
            r@ == self@.msg,
    {
        self.msg.as_str()
    }

    /// The menu entries, in order.
    pub fn items(&self) -> (r: &Vec<String>)
        ensures
            crate::listutil::views_of(r@) == self@.items,
    {
        &self.items
    }
}

// ---------------------------------------------------------------------------
// Download filenames
// ---------------------------------------------------------------------------

/// The last non-empty slash-separated segment of a URL.
pub open spec fn last_nonempty_segment(url: Seq<char>) -> Option<Seq<char>>
    decreases url.len(),
{
    if url.len() == 0 {
        None
    } else if url.last() == '/' {
        last_nonempty_segment(url.drop_last())
    } else {
        Some(url.subrange(last_index_of(url, '/') + 1, url.len() as int))
    }
}

/// The filename a download is stored under: the URL's last non-empty
/// path segment, or a fixed fallback.
pub open spec fn filename_from_url_spec(url: Seq<char>) -> Seq<char> {
    match last_nonempty_segment(url) {
        Some(s) => s,
        None => "download"@,
    }
}

/// Derive the local filename for a download URL.
#[verifier::rlimit(100)]
pub fn filename_from_url(url: &str) -> (r: String)
    ensures
        r@ == filename_from_url_spec(url@),
{
    let n = url.unicode_len();
    let mut end: usize = n;
    proof {
        assert(url@.take(n as int) =~= url@);
    }
    while end > 0 && url.get_char(end - 1) == '/'
        invariant
            end <= n,
            n == url@.len(),
            last_nonempty_segment(url@) == last_nonempty_segment(url@.take(end as int)),
        decreases end,
    {
        proof {
            assert(url@.take(end as int).last() == url@[end - 1]);
            assert(url@.take(end as int).drop_last() =~= url@.take(end as int - 1));
        }
        end -= 1;
    }
    if end == 0 {
        proof {
            assert(url@.take(0).len() == 0);
        }
        return String::from_str("download");
    }
    let ghost pre = url@.take(end as int);
    proof {
        assert(pre.last() == url@[end - 1]);
        assert(pre.last() != '/');
    }
    let mut k: usize = end;
    while k > 0 && url.get_char(k - 1) != '/'
        invariant
            k <= end,
            end <= n,
            n == url@.len(),
            forall|t: int| k <= t < end ==> url@[t] != '/',
        decreases k,
    {
        k -= 1;
    }
    proof {
        assert(forall|t: int| 0 <= t < end ==> pre[t] == url@[t]);
        if k == 0 {
            lemma_last_index_scan(pre, '/', -1);
        } else {
            lemma_last_index_scan(pre, '/', k as int - 1);
        }
        assert(pre.subrange(last_index_of(pre, '/') + 1, pre.len() as int) =~= url@.subrange(
            k as int,
            end as int,
        ));
    }
    substring(url, k, end)
}

} // verus!
