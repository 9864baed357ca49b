//! Verified list-level helpers shared by the providers and the selection
//! wizard: distinct sorted value lists, line splitting and trimming.

use vstd::prelude::*;

use crate::strutil::{
    is_space, lemma_str_lt_connex, lemma_str_lt_trans, str_lt, str_lt_exec,
    substring,
};

verus! {

// ---------------------------------------------------------------------------
// Distinct sorted string lists
// ---------------------------------------------------------------------------

/// Strictly descending in lexicographic order: later elements are smaller.
pub open spec fn sorted_strict_desc(s: Seq<Seq<char>>) -> bool {
    forall|i: int, j: int| 0 <= i < j < s.len() ==> str_lt(#[trigger] s[j], #[trigger] s[i])
}

/// Strictly ascending in lexicographic order.
pub open spec fn sorted_strict_asc(s: Seq<Seq<char>>) -> bool {
    forall|i: int, j: int| 0 <= i < j < s.len() ==> str_lt(#[trigger] s[i], #[trigger] s[j])
}

/// The set of character sequences a string list holds.
pub open spec fn str_set(s: Seq<String>) -> Set<Seq<char>> {
    Set::new(|v: Seq<char>| exists|i: int| 0 <= i < s.len() && s[i]@ == v)
}

/// The views of a string list, in order.
pub open spec fn views_of(s: Seq<String>) -> Seq<Seq<char>> {
    s.map_values(|t: String| t@)
}

/// The set of character sequences a sequence of views holds.
pub open spec fn seq_set(s: Seq<Seq<char>>) -> Set<Seq<char>> {
    Set::new(|v: Seq<char>| exists|i: int| 0 <= i < s.len() && s[i] == v)
}

/// A string list and its view sequence hold the same value set.
pub proof fn lemma_str_set_is_seq_set(items: Seq<String>)
    ensures
        str_set(items) == seq_set(views_of(items)),
{
    assert forall|v: Seq<char>| str_set(items).contains(v) implies seq_set(
        views_of(items),
    ).contains(v) by {
        let i = choose|i: int| 0 <= i < items.len() && (#[trigger] items[i])@ == v;
        assert(views_of(items)[i] == v);
    }
    assert forall|v: Seq<char>| seq_set(views_of(items)).contains(v) implies str_set(
        items,
    ).contains(v) by {
        let i = choose|i: int| 0 <= i < views_of(items).len() && #[trigger] views_of(items)[i] == v;
        assert(items[i]@ == v);
    }
    assert(str_set(items) =~= seq_set(views_of(items)));
}

/// Extending a prefix by one element adds exactly that element's view to
/// its value set.
proof fn lemma_str_set_take_step(items: Seq<String>, i: int)
    requires
        0 <= i < items.len(),
    ensures
        str_set(items.take(i + 1)) == str_set(items.take(i)).insert(items[i]@),
{
    assert forall|v: Seq<char>| str_set(items.take(i + 1)).contains(v) implies str_set(
        items.take(i),
    ).insert(items[i]@).contains(v) by {
        let k = choose|k: int|
            0 <= k < items.take(i + 1).len() && (#[trigger] items.take(i + 1)[k])@ == v;
        if k < i {
            assert(items.take(i)[k]@ == v);
        }
    }
    assert forall|v: Seq<char>| str_set(items.take(i)).insert(items[i]@).contains(v) implies str_set(
        items.take(i + 1),
    ).contains(v) by {
        if v == items[i]@ {
            assert(items.take(i + 1)[i]@ == v);
        } else {
            let k = choose|k: int|
                0 <= k < items.take(i).len() && (#[trigger] items.take(i)[k])@ == v;
            assert(items.take(i + 1)[k]@ == v);
        }
    }
    assert(str_set(items.take(i + 1)) =~= str_set(items.take(i)).insert(items[i]@));
}

/// Insert `x` into a strictly descending list, keeping it strictly
/// descending; a value already present is not duplicated.
fn insert_distinct_desc(out: &mut Vec<String>, x: &String)
    requires
        sorted_strict_desc(views_of(old(out)@)),
    ensures
        sorted_strict_desc(views_of(final(out)@)),
        str_set(final(out)@) == str_set(old(out)@).insert(x@),
{
    let ghost old_seq = out@;
    let mut j: usize = 0;
    while j < out.len() && str_lt_exec(x.as_str(), out[j].as_str())
        invariant
            out@ == old_seq,
            j <= out@.len(),
            forall|k: int| 0 <= k < j ==> str_lt(x@, #[trigger] out@[k]@),
        decreases out@.len() - j,
    {
        j += 1;
    }
    if j == out.len() {
        out.push(x.clone());
        proof {
            assert(sorted_strict_desc(views_of(out@))) by {
                assert(forall|k: int|
                    0 <= k < out@.len() ==> out@[k] == if k < old_seq.len() {
                        old_seq[k]
                    } else {
                        *x
                    });
                assert forall|i: int, j2: int| 0 <= i < j2 < out@.len() implies str_lt(
                    #[trigger] views_of(out@)[j2],
                    #[trigger] views_of(out@)[i],
                ) by {
                    assert(views_of(out@)[i] == out@[i]@ && views_of(out@)[j2] == out@[j2]@);
                    if j2 < old_seq.len() {
                        assert(str_lt(views_of(old_seq)[j2], views_of(old_seq)[i]));
                    }
                }
            }
            assert(str_set(out@) =~= str_set(old_seq).insert(x@)) by {
                assert forall|v: Seq<char>| str_set(out@).contains(v) implies str_set(
                    old_seq,
                ).insert(x@).contains(v) by {
                    let i = choose|i: int| 0 <= i < out@.len() && out@[i]@ == v;
                    if i < old_seq.len() {
                        assert(old_seq[i]@ == v);
                    }
                }
                assert forall|v: Seq<char>| str_set(old_seq).insert(x@).contains(v) implies str_set(
                    out@,
                ).contains(v) by {
                    if v == x@ {
                        assert(out@[old_seq.len() as int]@ == v);
                    } else {
                        let i = choose|i: int| 0 <= i < old_seq.len() && old_seq[i]@ == v;
                        assert(out@[i]@ == v);
                    }
                }
            }
        }
        return;
    }
    let below = str_lt_exec(out[j].as_str(), x.as_str());
    if below {
        proof {
            assert forall|k: int| j <= k < old_seq.len() implies str_lt(
                #[trigger] old_seq[k]@,
                x@,
            ) by {
                if k > j {
                    assert(str_lt(views_of(old_seq)[k], views_of(old_seq)[j as int]));
                    lemma_str_lt_trans(old_seq[k]@, old_seq[j as int]@, x@);
                }
            }
        }
        out.insert(j, x.clone());
        proof {
            assert(out@ == old_seq.insert(j as int, *x));
            assert(forall|k: int|
                0 <= k < out@.len() ==> out@[k] == if k < j {
                    old_seq[k]
                } else if k == j {
                    *x
                } else {
                    old_seq[k - 1]
                });
            assert(sorted_strict_desc(views_of(out@))) by {
                assert forall|a: int, b: int| 0 <= a < b < out@.len() implies str_lt(
                    #[trigger] views_of(out@)[b],
                    #[trigger] views_of(out@)[a],
                ) by {
                    assert(views_of(out@)[a] == out@[a]@ && views_of(out@)[b] == out@[b]@);
                    if a < j && b < j {
                        assert(str_lt(views_of(old_seq)[b], views_of(old_seq)[a]));
                    } else if a < j && b == j {
                    } else if a < j && b > j {
                        assert(str_lt(views_of(old_seq)[b - 1], views_of(old_seq)[a]));
                    } else if a == j {
                        assert(str_lt(old_seq[b - 1]@, x@));
                    } else {
                        assert(str_lt(views_of(old_seq)[b - 1], views_of(old_seq)[a - 1]));
                    }
                }
            }
            assert(str_set(out@) =~= str_set(old_seq).insert(x@)) by {
                assert forall|v: Seq<char>| str_set(out@).contains(v) implies str_set(
                    old_seq,
                ).insert(x@).contains(v) by {
                    let i = choose|i: int| 0 <= i < out@.len() && out@[i]@ == v;
                    if i < j {
                        assert(old_seq[i]@ == v);
                    } else if i > j {
                        assert(old_seq[i - 1]@ == v);
                    }
                }
                assert forall|v: Seq<char>| str_set(old_seq).insert(x@).contains(v) implies str_set(
                    out@,
                ).contains(v) by {
                    if v == x@ {
                        assert(out@[j as int]@ == v);
                    } else {
                        let i = choose|i: int| 0 <= i < old_seq.len() && old_seq[i]@ == v;
                        if i < j {
                            assert(out@[i]@ == v);
                        } else {
                            assert(out@[i + 1]@ == v);
                        }
                    }
                }
            }
        }
    } else {
        proof {
            lemma_str_lt_connex(x@, out@[j as int]@);
            assert(out@[j as int]@ == x@);
            assert(str_set(old_seq).contains(x@));
            assert(str_set(old_seq) =~= str_set(old_seq).insert(x@));
        }
    }
}

/// The distinct values of `items`, in strictly descending lexicographic
/// order.
pub fn distinct_sorted_desc(items: &Vec<String>) -> (r: Vec<String>)
    ensures
        sorted_strict_desc(views_of(r@)),
        str_set(r@) == str_set(items@),
{
    let mut out: Vec<String> = Vec::new();
    let mut i: usize = 0;
    proof {
        assert(str_set(out@) =~= str_set(items@.take(0)));
    }
    while i < items.len()
        invariant
            i <= items@.len(),
            sorted_strict_desc(views_of(out@)),
            str_set(out@) == str_set(items@.take(i as int)),
        decreases items@.len() - i,
    {
        insert_distinct_desc(&mut out, &items[i]);
        proof {
            lemma_str_set_take_step(items@, i as int);
        }
        i += 1;
    }
    proof {
        assert(items@.take(items@.len() as int) =~= items@);
    }
    out
}

/// Insert `x` into a strictly ascending list, keeping it strictly
/// ascending; a value already present is not duplicated.
fn insert_distinct_asc(out: &mut Vec<String>, x: &String)
    requires
        sorted_strict_asc(views_of(old(out)@)),
    ensures
        sorted_strict_asc(views_of(final(out)@)),
        str_set(final(out)@) == str_set(old(out)@).insert(x@),
{
    let ghost old_seq = out@;
    let mut j: usize = 0;
    while j < out.len() && str_lt_exec(out[j].as_str(), x.as_str())
        invariant
            out@ == old_seq,
            j <= out@.len(),
            forall|k: int| 0 <= k < j ==> str_lt(#[trigger] out@[k]@, x@),
        decreases out@.len() - j,
    {
        j += 1;
    }
    if j == out.len() {
        out.push(x.clone());
        proof {
            assert(sorted_strict_asc(views_of(out@))) by {
                assert(forall|k: int|
                    0 <= k < out@.len() ==> out@[k] == if k < old_seq.len() {
                        old_seq[k]
                    } else {
                        *x
                    });
                assert forall|i: int, j2: int| 0 <= i < j2 < out@.len() implies str_lt(
                    #[trigger] views_of(out@)[i],
                    #[trigger] views_of(out@)[j2],
                ) by {
                    assert(views_of(out@)[i] == out@[i]@ && views_of(out@)[j2] == out@[j2]@);
                    if j2 < old_seq.len() {
                        assert(str_lt(views_of(old_seq)[i], views_of(old_seq)[j2]));
                    }
                }
            }
            assert(str_set(out@) =~= str_set(old_seq).insert(x@)) by {
                assert forall|v: Seq<char>| str_set(out@).contains(v) implies str_set(
                    old_seq,
                ).insert(x@).contains(v) by {
                    let i = choose|i: int| 0 <= i < out@.len() && out@[i]@ == v;
                    if i < old_seq.len() {
                        assert(old_seq[i]@ == v);
                    }
                }
                assert forall|v: Seq<char>| str_set(old_seq).insert(x@).contains(v) implies str_set(
                    out@,
                ).contains(v) by {
                    if v == x@ {
                        assert(out@[old_seq.len() as int]@ == v);
                    } else {
                        let i = choose|i: int| 0 <= i < old_seq.len() && old_seq[i]@ == v;
                        assert(out@[i]@ == v);
                    }
                }
            }
        }
        return;
    }
    let above = str_lt_exec(x.as_str(), out[j].as_str());
    if above {
        proof {
            assert forall|k: int| j <= k < old_seq.len() implies str_lt(
                x@,
                #[trigger] old_seq[k]@,
            ) by {
                if k > j {
                    assert(str_lt(views_of(old_seq)[j as int], views_of(old_seq)[k]));
                    lemma_str_lt_trans(x@, old_seq[j as int]@, old_seq[k]@);
                }
            }
        }
        out.insert(j, x.clone());
        proof {
            assert(out@ == old_seq.insert(j as int, *x));
            assert(forall|k: int|
                0 <= k < out@.len() ==> out@[k] == if k < j {
                    old_seq[k]
                } else if k == j {
                    *x
                } else {
                    old_seq[k - 1]
                });
            assert(sorted_strict_asc(views_of(out@))) by {
                assert forall|a: int, b: int| 0 <= a < b < out@.len() implies str_lt(
                    #[trigger] views_of(out@)[a],
                    #[trigger] views_of(out@)[b],
                ) by {
                    assert(views_of(out@)[a] == out@[a]@ && views_of(out@)[b] == out@[b]@);
                    if a < j && b < j {
                        assert(str_lt(views_of(old_seq)[a], views_of(old_seq)[b]));
                    } else if a < j && b == j {
                    } else if a < j && b > j {
                        assert(str_lt(views_of(old_seq)[a], views_of(old_seq)[b - 1]));
                    } else if a == j {
                        assert(str_lt(x@, old_seq[b - 1]@));
                    } else {
                        assert(str_lt(views_of(old_seq)[a - 1], views_of(old_seq)[b - 1]));
                    }
                }
            }
            assert(str_set(out@) =~= str_set(old_seq).insert(x@)) by {
                assert forall|v: Seq<char>| str_set(out@).contains(v) implies str_set(
                    old_seq,
                ).insert(x@).contains(v) by {
                    let i = choose|i: int| 0 <= i < out@.len() && out@[i]@ == v;
                    if i < j {
                        assert(old_seq[i]@ == v);
                    } else if i > j {
                        assert(old_seq[i - 1]@ == v);
                    }
                }
                assert forall|v: Seq<char>| str_set(old_seq).insert(x@).contains(v) implies str_set(
                    out@,
                ).contains(v) by {
                    if v == x@ {
                        assert(out@[j as int]@ == v);
                    } else {
                        let i = choose|i: int| 0 <= i < old_seq.len() && old_seq[i]@ == v;
                        if i < j {
                            assert(out@[i]@ == v);
                        } else {
                            assert(out@[i + 1]@ == v);
                        }
                    }
                }
            }
        }
    } else {
        proof {
            lemma_str_lt_connex(out@[j as int]@, x@);
            assert(out@[j as int]@ == x@);
            assert(str_set(old_seq).contains(x@));
            assert(str_set(old_seq) =~= str_set(old_seq).insert(x@));
        }
    }
}

/// The distinct values of `items`, in strictly ascending lexicographic
/// order.
pub fn distinct_sorted_asc(items: &Vec<String>) -> (r: Vec<String>)
    ensures
        sorted_strict_asc(views_of(r@)),
        str_set(r@) == str_set(items@),
{
    let mut out: Vec<String> = Vec::new();
    let mut i: usize = 0;
    proof {
        assert(str_set(out@) =~= str_set(items@.take(0)));
    }
    while i < items.len()
        invariant
            i <= items@.len(),
            sorted_strict_asc(views_of(out@)),
            str_set(out@) == str_set(items@.take(i as int)),
        decreases items@.len() - i,
    {
        insert_distinct_asc(&mut out, &items[i]);
        proof {
            lemma_str_set_take_step(items@, i as int);
        }
        i += 1;
    }
    proof {
        assert(items@.take(items@.len() as int) =~= items@);
    }
    out
}


// ---------------------------------------------------------------------------
// Lines and trimming
// ---------------------------------------------------------------------------

/// Index of the first `c` at or after `from`, or the length when absent.
pub open spec fn first_index_from(s: Seq<char>, c: char, from: int) -> int
    decreases s.len() - from,
{
    if from < 0 || from >= s.len() {
        s.len() as int
    } else if s[from] == c {
        from
    } else {
        first_index_from(s, c, from + 1)
    }
}

/// The scan never goes backwards and stops by the end.
pub proof fn lemma_first_index_from_ge(s: Seq<char>, c: char, from: int)
    requires
        0 <= from <= s.len(),
    ensures
        from <= first_index_from(s, c, from) <= s.len(),
    decreases s.len() - from,
{
    if from < s.len() && s[from] != c {
        lemma_first_index_from_ge(s, c, from + 1);
    }
}

/// A scan that saw no `c` in `[from, k)` and stopped at `c` or the end
/// computes exactly `first_index_from`.
pub proof fn lemma_first_index_from_scan(s: Seq<char>, c: char, from: int, k: int)
    requires
        0 <= from <= k <= s.len(),
        forall|t: int| from <= t < k ==> s[t] != c,
        k < s.len() ==> s[k] == c,
    ensures
        first_index_from(s, c, from) == k,
    decreases k - from,
{
    if from < k {
        lemma_first_index_from_scan(s, c, from + 1, k);
    }
}

/// The pieces of `s` between newline characters, from `from` on.
pub open spec fn split_newlines_from(s: Seq<char>, from: int) -> Seq<Seq<char>>
    decreases s.len() - from,
    when 0 <= from <= s.len()
    via split_newlines_from_dec
{
    let i = first_index_from(s, '\n', from);
    if i >= s.len() {
        seq![s.subrange(from, s.len() as int)]
    } else {
        seq![s.subrange(from, i)] + split_newlines_from(s, i + 1)
    }
}

#[via_fn]
proof fn split_newlines_from_dec(s: Seq<char>, from: int) {
    lemma_first_index_from_ge(s, '\n', from);
}

/// The pieces of `s` between newline characters, in order; a trailing
/// newline yields a final empty piece.
pub open spec fn split_newlines(s: Seq<char>) -> Seq<Seq<char>> {
    split_newlines_from(s, 0)
}

/// Split `s` at newline characters.
pub fn split_lines(s: &str) -> (r: Vec<String>)
    ensures
        views_of(r@) == split_newlines(s@),
{
    let n = s.unicode_len();
    let mut out: Vec<String> = Vec::new();
    let mut pos: usize = 0;
    let mut done: bool = false;
    while !done
        invariant
            n == s@.len(),
            pos <= n,
            !done ==> split_newlines(s@) == views_of(out@) + split_newlines_from(s@, pos as int),
            done ==> split_newlines(s@) == views_of(out@),
        decreases n - pos + (if done { 0int } else { 1int }),
    {
        let mut k: usize = pos;
        while k < n && s.get_char(k) != '\n'
            invariant
                pos <= k <= n,
                n == s@.len(),
                forall|t: int| pos <= t < k ==> s@[t] != '\n',
            decreases n - k,
        {
            k += 1;
        }
        proof {
            lemma_first_index_from_scan(s@, '\n', pos as int, k as int);
        }
        let ghost prev = out@;
        let piece = substring(s, pos, k);
        out.push(piece);
        proof {
            assert(views_of(out@) =~= views_of(prev) + seq![piece@]);
        }
        if k == n {
            proof {
                assert(split_newlines_from(s@, pos as int) == seq![
                    s@.subrange(pos as int, n as int),
                ]);
                assert(views_of(prev) + split_newlines_from(s@, pos as int) =~= views_of(out@));
            }
            done = true;
        } else {
            proof {
                assert(split_newlines_from(s@, pos as int) == seq![s@.subrange(pos as int, k as int)]
                    + split_newlines_from(s@, k + 1));
                assert(views_of(prev) + split_newlines_from(s@, pos as int) =~= views_of(out@)
                    + split_newlines_from(s@, k + 1));
            }
            pos = k + 1;
        }
    }
    out
}

/// Index of the first non-space character at or after `from`.
pub open spec fn first_non_space(s: Seq<char>, from: int) -> int
    decreases s.len() - from,
{
    if from < 0 || from >= s.len() {
        s.len() as int
    } else if is_space(s[from]) {
        first_non_space(s, from + 1)
    } else {
        from
    }
}

/// Index just past the last non-space character at or before `upto - 1`.
pub open spec fn end_non_space(s: Seq<char>, upto: int) -> int
    decreases upto,
{
    if upto <= 0 || upto > s.len() {
        0
    } else if is_space(s[upto - 1]) {
        end_non_space(s, upto - 1)
    } else {
        upto
    }
}

/// The backward scan never passes its starting point.
proof fn lemma_end_non_space_le(s: Seq<char>, upto: int)
    requires
        0 <= upto <= s.len(),
    ensures
        0 <= end_non_space(s, upto) <= upto,
    decreases upto,
{
    if upto > 0 && is_space(s[upto - 1]) {
        lemma_end_non_space_le(s, upto - 1);
    }
}

/// `s` with leading and trailing ASCII whitespace removed.
pub open spec fn trim_spec(s: Seq<char>) -> Seq<char> {
    let a = first_non_space(s, 0);
    let b = end_non_space(s, s.len() as int);
    if a >= b {
        Seq::<char>::empty()
    } else {
        s.subrange(a, b)
    }
}

/// Remove leading and trailing ASCII whitespace.
pub fn trim(s: &str) -> (r: String)
    ensures
        r@ == trim_spec(s@),
{
    let n = s.unicode_len();
    let mut a: usize = 0;
    while a < n && crate::strutil::exec_is_space(s.get_char(a))
        invariant
            n == s@.len(),
            a <= n,
            first_non_space(s@, 0) == first_non_space(s@, a as int),
        decreases n - a,
    {
        a += 1;
    }
    assert(first_non_space(s@, 0) == a);
    let mut b: usize = n;
    while b > a && crate::strutil::exec_is_space(s.get_char(b - 1))
        invariant
            n == s@.len(),
            a <= b <= n,
            end_non_space(s@, n as int) == end_non_space(s@, b as int),
            forall|t: int| b <= t < n ==> is_space(s@[t]),
        decreases b,
    {
        b -= 1;
    }
    if b > a {
        assert(end_non_space(s@, b as int) == b);
        substring(s, a, b)
    } else {
        proof {
            if a == n {
                lemma_end_non_space_le(s@, n as int);
            } else {
                assert(!is_space(s@[a as int]));
                assert(is_space(s@[a as int]));
            }
        }
        String::new()
    }
}

} // verus!
