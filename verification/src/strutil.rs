//! Verified building blocks for the text processing that every provider
//! parser shares: substring matching, searching, case-insensitive
//! comparison, lexicographic ordering and decimal parsing, all specified
//! over `Seq<char>` views.

use vstd::prelude::*;

verus! {

// ---------------------------------------------------------------------------
// Character classes
// ---------------------------------------------------------------------------

/// An ASCII decimal digit.
pub open spec fn is_digit(c: char) -> bool {
    '0' <= c && c <= '9'
}

/// An ASCII lowercase letter.
pub open spec fn is_lower(c: char) -> bool {
    'a' <= c && c <= 'z'
}

/// An ASCII uppercase letter.
pub open spec fn is_upper(c: char) -> bool {
    'A' <= c && c <= 'Z'
}

/// An ASCII letter or digit.
pub open spec fn is_alnum(c: char) -> bool {
    is_digit(c) || is_lower(c) || is_upper(c)
}

/// An ASCII hexadecimal digit, either case.
pub open spec fn is_hex_digit(c: char) -> bool {
    is_digit(c) || ('a' <= c && c <= 'f') || ('A' <= c && c <= 'F')
}

/// ASCII whitespace, the separator class accepted between the digest and
/// the filename of a checksum-manifest line.
pub open spec fn is_space(c: char) -> bool {
    c == ' ' || c == '\t' || c == '\r' || c == '\n' || c == '\u{b}' || c == '\u{c}'
}

/// The code point of `c` with an ASCII uppercase letter folded to its
/// lowercase counterpart; the basis of case-insensitive comparison.
pub open spec fn lower_code(c: char) -> int {
    if is_upper(c) {
        c as u32 + 32
    } else {
        c as u32 as int
    }
}

pub fn exec_is_digit(c: char) -> (r: bool)
    ensures
        r == is_digit(c),
{
    '0' <= c && c <= '9'
}

pub fn exec_is_alnum(c: char) -> (r: bool)
    ensures
        r == is_alnum(c),
{
    ('0' <= c && c <= '9') || ('a' <= c && c <= 'z') || ('A' <= c && c <= 'Z')
}

pub fn exec_is_hex_digit(c: char) -> (r: bool)
    ensures
        r == is_hex_digit(c),
{
    ('0' <= c && c <= '9') || ('a' <= c && c <= 'f') || ('A' <= c && c <= 'F')
}

pub fn exec_is_space(c: char) -> (r: bool)
    ensures
        r == is_space(c),
{
    c == ' ' || c == '\t' || c == '\r' || c == '\n' || c == '\u{b}' || c == '\u{c}'
}

pub fn exec_lower_code(c: char) -> (r: u32)
    ensures
        r == lower_code(c),
{
    if 'A' <= c && c <= 'Z' {
        c as u32 + 32
    } else {
        c as u32
    }
}

// ---------------------------------------------------------------------------
// Substring matching and searching
// ---------------------------------------------------------------------------

/// `pat` occurs in `s` starting at position `i`.
pub open spec fn match_at(s: Seq<char>, i: int, pat: Seq<char>) -> bool {
    0 <= i && i + pat.len() <= s.len() && s.subrange(i, i + pat.len() as int) == pat
}

/// `s` ends with `pat`.
pub open spec fn ends_with(s: Seq<char>, pat: Seq<char>) -> bool {
    match_at(s, s.len() - pat.len(), pat)
}

/// Does `pat` occur in `s` at position `i`?
pub fn str_match_at(s: &str, i: usize, pat: &str) -> (r: bool)
    ensures
        r == match_at(s@, i as int, pat@),
{
    let n = s.unicode_len();
    let m = pat.unicode_len();
    if i > n || m > n - i {
        return false;
    }
    let mut j: usize = 0;
    while j < m
        invariant
            i + m <= n,
            n == s@.len(),
            m == pat@.len(),
            j <= m,
            forall|k: int| 0 <= k < j ==> s@[i + k] == pat@[k],
        decreases m - j,
    {
        if s.get_char(i + j) != pat.get_char(j) {
            assert(s@.subrange(i as int, i + m) != pat@) by {
                assert(s@.subrange(i as int, i + m)[j as int] == s@[i + j]);
            }
            return false;
        }
        j += 1;
    }
    assert(s@.subrange(i as int, i + m) =~= pat@);
    true
}

/// The two strings hold the same characters.
pub fn str_eq(a: &str, b: &str) -> (r: bool)
    ensures
        r == (a@ == b@),
{
    let n = a.unicode_len();
    if n != b.unicode_len() {
        return false;
    }
    let r = str_match_at(a, 0, b);
    assert(a@.subrange(0, a@.len() as int) =~= a@);
    r
}

/// Position of the first occurrence of `pat` in `s`, if any.
pub fn find_first(s: &str, pat: &str) -> (r: Option<usize>)
    ensures
        match r {
            Some(i) => match_at(s@, i as int, pat@) && forall|k: int|
                0 <= k < i ==> !match_at(s@, k, pat@),
            None => forall|k: int| !match_at(s@, k, pat@),
        },
{
    let n = s.unicode_len();
    let m = pat.unicode_len();
    if m > n {
        return None;
    }
    if m == 0 {
        assert(s@.subrange(0, 0) =~= pat@);
        return Some(0);
    }
    let mut i: usize = 0;
    while i <= n - m
        invariant
            0 < m <= n,
            n == s@.len(),
            m == pat@.len(),
            i <= n - m + 1,
            forall|k: int| 0 <= k < i ==> !match_at(s@, k, pat@),
        decreases n - i,
    {
        if str_match_at(s, i, pat) {
            return Some(i);
        }
        i += 1;
    }
    assert(forall|k: int| k > n - m ==> !match_at(s@, k, pat@));
    None
}

/// Does `s` end with `pat`?
pub fn str_ends_with(s: &str, pat: &str) -> (r: bool)
    ensures
        r == ends_with(s@, pat@),
{
    let n = s.unicode_len();
    let m = pat.unicode_len();
    if m > n {
        return false;
    }
    str_match_at(s, n - m, pat)
}

// ---------------------------------------------------------------------------
// Case-insensitive comparison
// ---------------------------------------------------------------------------

/// Equality up to ASCII case folding.
pub open spec fn eq_ignore_case(a: Seq<char>, b: Seq<char>) -> bool {
    a.len() == b.len() && forall|i: int| 0 <= i < a.len() ==> lower_code(a[i]) == lower_code(b[i])
}

/// `pat` occurs in `s` at `i`, up to ASCII case folding.
pub open spec fn match_at_ci(s: Seq<char>, i: int, pat: Seq<char>) -> bool {
    0 <= i && i + pat.len() <= s.len() && eq_ignore_case(s.subrange(i, i + pat.len() as int), pat)
}

/// `pat` occurs somewhere in `s`, up to ASCII case folding.
pub open spec fn contains_ci(s: Seq<char>, pat: Seq<char>) -> bool {
    exists|i: int| match_at_ci(s, i, pat)
}

/// `s` ends with `pat`, up to ASCII case folding.
pub open spec fn ends_with_ci(s: Seq<char>, pat: Seq<char>) -> bool {
    match_at_ci(s, s.len() - pat.len(), pat)
}

pub fn str_match_at_ci(s: &str, i: usize, pat: &str) -> (r: bool)
    ensures
        r == match_at_ci(s@, i as int, pat@),
{
    let n = s.unicode_len();
    let m = pat.unicode_len();
    if i > n || m > n - i {
        return false;
    }
    let mut j: usize = 0;
    while j < m
        invariant
            i + m <= n,
            n == s@.len(),
            m == pat@.len(),
            j <= m,
            forall|k: int| 0 <= k < j ==> lower_code(s@[i + k]) == lower_code(pat@[k]),
        decreases m - j,
    {
        if exec_lower_code(s.get_char(i + j)) != exec_lower_code(pat.get_char(j)) {
            assert(!eq_ignore_case(s@.subrange(i as int, i + m), pat@)) by {
                assert(s@.subrange(i as int, i + m)[j as int] == s@[i + j]);
            }
            return false;
        }
        j += 1;
    }
    assert(eq_ignore_case(s@.subrange(i as int, i + m), pat@)) by {
        assert(forall|k: int|
            0 <= k < m ==> #[trigger] s@.subrange(i as int, i + m)[k] == s@[i + k]);
    }
    true
}

/// Equality of two strings up to ASCII case folding.
pub fn str_eq_ignore_case(a: &str, b: &str) -> (r: bool)
    ensures
        r == eq_ignore_case(a@, b@),
{
    let n = a.unicode_len();
    if n != b.unicode_len() {
        return false;
    }
    let r = str_match_at_ci(a, 0, b);
    if r {
        assert(a@.subrange(0, a@.len() as int) =~= a@);
    } else {
        assert(a@.subrange(0, a@.len() as int) =~= a@);
    }
    r
}

/// Does `pat` occur anywhere in `s`, up to ASCII case folding?
pub fn contains_str_ci(s: &str, pat: &str) -> (r: bool)
    ensures
        r == contains_ci(s@, pat@),
{
    let n = s.unicode_len();
    let m = pat.unicode_len();
    if m > n {
        assert(forall|k: int| !match_at_ci(s@, k, pat@));
        return false;
    }
    if m == 0 {
        assert(eq_ignore_case(s@.subrange(0, 0), pat@)) by {
            assert(s@.subrange(0, 0) =~= pat@);
        }
        assert(match_at_ci(s@, 0, pat@));
        return true;
    }
    let mut i: usize = 0;
    while i <= n - m
        invariant
            0 < m <= n,
            n == s@.len(),
            m == pat@.len(),
            i <= n - m + 1,
            forall|k: int| 0 <= k < i ==> !match_at_ci(s@, k, pat@),
        decreases n - i,
    {
        if str_match_at_ci(s, i, pat) {
            assert(match_at_ci(s@, i as int, pat@));
            return true;
        }
        i += 1;
    }
    assert(forall|k: int| k > n - m ==> !match_at_ci(s@, k, pat@));
    false
}

/// Does `s` end with `pat`, up to ASCII case folding?
pub fn str_ends_with_ci(s: &str, pat: &str) -> (r: bool)
    ensures
        r == ends_with_ci(s@, pat@),
{
    let n = s.unicode_len();
    let m = pat.unicode_len();
    if m > n {
        return false;
    }
    str_match_at_ci(s, n - m, pat)
}

// ---------------------------------------------------------------------------
// Building strings
// ---------------------------------------------------------------------------

/// The characters `s[from..to]` as an owned string.
pub fn substring(s: &str, from: usize, to: usize) -> (r: String)
    requires
        from <= to <= s@.len(),
    ensures
        r@ == s@.subrange(from as int, to as int),
{
    String::from_str(s.substring_char(from, to))
}

/// `a` followed by `b`.
pub fn concat2(a: &str, b: &str) -> (r: String)
    ensures
        r@ == a@ + b@,
{
    let mut r = String::from_str(a);
    r.append(b);
    r
}

/// `a` followed by `b` followed by `c`.
pub fn concat3(a: &str, b: &str, c: &str) -> (r: String)
    ensures
        r@ == a@ + b@ + c@,
{
    let mut r = String::from_str(a);
    r.append(b);
    r.append(c);
    r
}

/// Position of the first occurrence of `pat` at or after `i`, or -1.
pub open spec fn first_match_from(s: Seq<char>, pat: Seq<char>, i: int) -> int
    decreases s.len() - i,
{
    if i < 0 || pat.len() == 0 || i + pat.len() > s.len() {
        -1
    } else if match_at(s, i, pat) {
        i
    } else {
        first_match_from(s, pat, i + 1)
    }
}

/// Position of the first occurrence of `pat` in `s`, or -1.
pub open spec fn first_match(s: Seq<char>, pat: Seq<char>) -> int {
    first_match_from(s, pat, 0)
}

/// A match at `i` with no earlier match is the first match.
pub proof fn lemma_first_match_found(s: Seq<char>, pat: Seq<char>, i: int, j: int)
    requires
        pat.len() > 0,
        0 <= j <= i,
        match_at(s, i, pat),
        forall|k: int| 0 <= k < i ==> !match_at(s, k, pat),
    ensures
        first_match_from(s, pat, j) == i,
    decreases i - j,
{
    if j < i {
        lemma_first_match_found(s, pat, i, j + 1);
    }
}

/// With no match anywhere, the scan reports -1.
pub proof fn lemma_first_match_none(s: Seq<char>, pat: Seq<char>, j: int)
    requires
        pat.len() > 0,
        j >= 0,
        forall|k: int| !match_at(s, k, pat),
    ensures
        first_match_from(s, pat, j) == -1,
    decreases s.len() - j,
{
    if j + pat.len() <= s.len() {
        lemma_first_match_none(s, pat, j + 1);
    }
}

/// `s` with the first occurrence of `pat` replaced by `value`; `s` itself
/// when `pat` does not occur.
pub open spec fn replace_first_spec(s: Seq<char>, pat: Seq<char>, value: Seq<char>) -> Seq<char> {
    let p = first_match(s, pat);
    if p < 0 {
        s
    } else {
        s.subrange(0, p) + value + s.subrange(p + pat.len() as int, s.len() as int)
    }
}

/// The first occurrence of `pat` in `s` replaced by `value`; `s` unchanged
/// when `pat` does not occur. Mirrors a single positional-placeholder
/// substitution in a URL template.
pub fn replace_first(s: &str, pat: &str, value: &str) -> (r: String)
    requires
        pat@.len() > 0,
    ensures
        r@ == replace_first_spec(s@, pat@, value@),
{
    match find_first(s, pat) {
        Some(i) => {
            proof {
                lemma_first_match_found(s@, pat@, i as int, 0);
            }
            let n = s.unicode_len();
            let m = pat.unicode_len();
            assert(match_at(s@, i as int, pat@));
            let mut r = substring(s, 0, i);
            r.append(value);
            r.append(s.substring_char(i + m, n));
            r
        },
        None => {
            proof {
                lemma_first_match_none(s@, pat@, 0);
            }
            String::from_str(s)
        },
    }
}

/// Does `pat` occur in `s`, reported through the first-match position?
pub fn has_match(s: &str, pat: &str) -> (r: bool)
    requires
        pat@.len() > 0,
    ensures
        r == (first_match(s@, pat@) >= 0),
{
    match find_first(s, pat) {
        Some(i) => {
            proof {
                lemma_first_match_found(s@, pat@, i as int, 0);
            }
            true
        },
        None => {
            proof {
                lemma_first_match_none(s@, pat@, 0);
            }
            false
        },
    }
}

// ---------------------------------------------------------------------------
// Lexicographic order on character sequences
// ---------------------------------------------------------------------------

/// Strict lexicographic order by code point, the order `str` comparison
/// gives in Rust.
pub open spec fn str_lt(a: Seq<char>, b: Seq<char>) -> bool
    decreases a.len(),
{
    if b.len() == 0 {
        false
    } else if a.len() == 0 {
        true
    } else if (a[0] as u32) < (b[0] as u32) {
        true
    } else if (a[0] as u32) > (b[0] as u32) {
        false
    } else {
        str_lt(a.drop_first(), b.drop_first())
    }
}

/// Non-strict lexicographic order.
pub open spec fn str_le(a: Seq<char>, b: Seq<char>) -> bool {
    str_lt(a, b) || a == b
}

/// Lexicographic order is total: incomparable sequences are equal.
pub proof fn lemma_str_lt_connex(a: Seq<char>, b: Seq<char>)
    requires
        !str_lt(a, b),
        !str_lt(b, a),
    ensures
        a == b,
    decreases a.len(),
{
    if b.len() == 0 {
        if a.len() == 0 {
            assert(a =~= b);
        }
    } else if a.len() == 0 {
    } else {
        if (a[0] as u32) == (b[0] as u32) {
            lemma_str_lt_connex(a.drop_first(), b.drop_first());
            assert(a[0] == b[0]) by {
                vstd::utf8::char_u32_cast(a[0], a[0] as u32);
                vstd::utf8::char_u32_cast(b[0], b[0] as u32);
            }
            assert(a.len() == b.len()) by {
                assert(a.drop_first().len() == b.drop_first().len());
            }
            assert forall|i: int| 0 <= i < a.len() implies a[i] == b[i] by {
                if i > 0 {
                    assert(a.drop_first()[i - 1] == a[i]);
                    assert(b.drop_first()[i - 1] == b[i]);
                }
            }
            assert(a =~= b);
        }
    }
}

/// Lexicographic order is asymmetric.
pub proof fn lemma_str_lt_asym(a: Seq<char>, b: Seq<char>)
    requires
        str_lt(a, b),
    ensures
        !str_lt(b, a),
    decreases a.len(),
{
    if b.len() == 0 {
    } else if a.len() == 0 {
    } else if (a[0] as u32) == (b[0] as u32) {
        lemma_str_lt_asym(a.drop_first(), b.drop_first());
    }
}

/// Lexicographic order is transitive.
pub proof fn lemma_str_lt_trans(a: Seq<char>, b: Seq<char>, c: Seq<char>)
    requires
        str_lt(a, b),
        str_lt(b, c),
    ensures
        str_lt(a, c),
    decreases a.len(),
{
    if b.len() == 0 {
    } else if c.len() == 0 {
    } else if a.len() == 0 {
    } else {
        if (a[0] as u32) == (b[0] as u32) && (b[0] as u32) == (c[0] as u32) {
            lemma_str_lt_trans(a.drop_first(), b.drop_first(), c.drop_first());
        }
    }
}

/// Is `a` lexicographically before `b`?
pub fn str_lt_exec(a: &str, b: &str) -> (r: bool)
    ensures
        r == str_lt(a@, b@),
{
    let n = a.unicode_len();
    let m = b.unicode_len();
    let mut i: usize = 0;
    assert(a@.skip(0) =~= a@);
    assert(b@.skip(0) =~= b@);
    loop
        invariant
            n == a@.len(),
            m == b@.len(),
            i <= n,
            i <= m,
            forall|k: int| 0 <= k < i ==> a@[k] == b@[k],
            str_lt(a@, b@) == str_lt(a@.skip(i as int), b@.skip(i as int)),
        decreases n - i,
    {
        if i >= m {
            assert(b@.skip(i as int).len() == 0);
            return false;
        }
        if i >= n {
            assert(a@.skip(i as int).len() == 0 && b@.skip(i as int).len() > 0);
            return true;
        }
        let ca = a.get_char(i);
        let cb = b.get_char(i);
        assert(a@.skip(i as int)[0] == a@[i as int] && b@.skip(i as int)[0] == b@[i as int]);
        if (ca as u32) < (cb as u32) {
            return true;
        }
        if (ca as u32) > (cb as u32) {
            return false;
        }
        assert(ca == cb) by {
            vstd::utf8::char_u32_cast(ca, ca as u32);
            vstd::utf8::char_u32_cast(cb, cb as u32);
        }
        assert(a@.skip(i as int).drop_first() =~= a@.skip(i + 1));
        assert(b@.skip(i as int).drop_first() =~= b@.skip(i + 1));
        i += 1;
    }
}

/// Index of the first non-digit at or after `from`, or the length.
pub open spec fn first_non_digit(t: Seq<char>, from: int) -> int
    decreases t.len() - from,
{
    if from < 0 || from >= t.len() {
        t.len() as int
    } else if is_digit(t[from]) {
        first_non_digit(t, from + 1)
    } else {
        from
    }
}

/// `s` with a trailing slash appended when absent.
pub open spec fn with_trailing_slash(s: Seq<char>) -> Seq<char> {
    if s.len() > 0 && s.last() == '/' {
        s
    } else {
        s.push('/')
    }
}

/// Append a trailing slash when absent.
pub fn ensure_trailing_slash(s: String) -> (r: String)
    ensures
        r@ == with_trailing_slash(s@),
{
    let n = s.as_str().unicode_len();
    if n > 0 && s.as_str().get_char(n - 1) == '/' {
        s
    } else {
        let r = concat2(s.as_str(), "/");
        proof {
            reveal_strlit("/");
            assert(r@ =~= s@.push('/'));
        }
        r
    }
}

// ---------------------------------------------------------------------------
// Decimal parsing
// ---------------------------------------------------------------------------

/// The value of a sequence of decimal digits, most significant first.
pub open spec fn digits_value(s: Seq<char>) -> nat
    decreases s.len(),
{
    if s.len() == 0 {
        0
    } else {
        (digits_value(s.drop_last()) * 10 + (s.last() as u32 - '0' as u32)) as nat
    }
}

/// All characters are decimal digits.
pub open spec fn all_digits(s: Seq<char>) -> bool {
    forall|i: int| 0 <= i < s.len() ==> is_digit(s[i])
}

/// Parse a non-empty all-digit string as a `u32`; `None` on any other
/// character, an empty string, or overflow.
pub fn parse_u32(s: &str) -> (r: Option<u32>)
    ensures
        match r {
            Some(v) => s@.len() > 0 && all_digits(s@) && digits_value(s@) == v,
            None => s@.len() == 0 || !all_digits(s@) || digits_value(s@) > u32::MAX,
        },
{
    let n = s.unicode_len();
    if n == 0 {
        return None;
    }
    let mut acc: u32 = 0;
    let mut i: usize = 0;
    while i < n
        invariant
            n == s@.len(),
            i <= n,
            all_digits(s@.take(i as int)),
            acc == digits_value(s@.take(i as int)),
        decreases n - i,
    {
        let c = s.get_char(i);
        if !exec_is_digit(c) {
            assert(!all_digits(s@));
            return None;
        }
        let d: u32 = c as u32 - 48;
        let wide: u64 = acc as u64 * 10 + d as u64;
        assert(s@.take(i + 1).drop_last() =~= s@.take(i as int));
        assert(s@.take(i + 1).last() == s@[i as int]);
        assert(digits_value(s@.take(i + 1)) == wide);
        if wide > u32::MAX as u64 {
            proof {
                if all_digits(s@) {
                    lemma_digits_value_monotonic(s@, i as int + 1);
                }
            }
            return None;
        }
        acc = wide as u32;
        i += 1;
    }
    assert(s@.take(n as int) =~= s@);
    Some(acc)
}

/// Appending further digits never lowers the value: the value of a
/// digit-string prefix bounds the value of the whole.
proof fn lemma_digits_value_monotonic(s: Seq<char>, i: int)
    requires
        0 <= i <= s.len(),
        all_digits(s),
    ensures
        digits_value(s) >= digits_value(s.take(i)),
    decreases s.len() - i,
{
    if i < s.len() {
        lemma_digits_value_monotonic(s, i + 1);
        assert(s.take(i + 1).drop_last() =~= s.take(i));
        assert(is_digit(s.take(i + 1).last()));
        assert(digits_value(s.take(i + 1)) >= digits_value(s.take(i)));
    } else {
        assert(s.take(i) =~= s);
    }
}

} // verus!
