//! Verified string helpers: character-wise equality and ordering, joining
//! path components, prefix stripping, and sorting and de-duplicating name
//! lists.

use vstd::prelude::*;
use vstd::string::StrSliceExecFns;
use vstd::string::StringExecFns;

verus! {

/// Strict lexicographic order on character sequences, by code point.
pub open spec fn lex_lt(a: Seq<char>, b: Seq<char>) -> bool
    decreases a.len(),
{
    if b.len() == 0 {
        false
    } else if a.len() == 0 {
        true
    } else if a[0] != b[0] {
        a[0] < b[0]
    } else {
        lex_lt(a.drop_first(), b.drop_first())
    }
}

/// Non-strict lexicographic order.
pub open spec fn lex_le(a: Seq<char>, b: Seq<char>) -> bool {
    lex_lt(a, b) || a == b
}

/// Character-wise equality of two string slices.
pub fn str_eq(a: &str, b: &str) -> (r: bool)
    ensures
        r == (a@ == b@),
{
    let a_len = a.unicode_len();
    let b_len = b.unicode_len();
    if a_len != b_len {
        return false;
    }
    let mut i: usize = 0;
    while i < a_len
        invariant
            a_len == a@.len(),
            b_len == b@.len(),
            a_len == b_len,
            i <= a_len,
            forall|k: int| 0 <= k < i ==> a@[k] == b@[k],
        decreases a_len - i,
    {
        if a.get_char(i) != b.get_char(i) {
            return false;
        }
        i = i + 1;
    }
    proof {
        assert(a@ =~= b@);
    }
    true
}

/// Relates the loop-friendly suffix comparison to `lex_lt`: while two
/// sequences agree on a common prefix, their order is the order of the
/// remaining suffixes.
proof fn lemma_lex_lt_common_prefix(a: Seq<char>, b: Seq<char>, i: int)
    requires
        0 <= i <= a.len(),
        i <= b.len(),
        forall|k: int| 0 <= k < i ==> a[k] == b[k],
    ensures
        lex_lt(a, b) == lex_lt(a.skip(i), b.skip(i)),
    decreases i,
{
    if i == 0 {
        assert(a.skip(0) =~= a);
        assert(b.skip(0) =~= b);
    } else {
        assert(lex_lt(a, b) == lex_lt(a.drop_first(), b.drop_first()));
        assert(a.drop_first().len() == a.len() - 1);
        assert(forall|k: int| 0 <= k < i - 1 ==> a.drop_first()[k] == b.drop_first()[k]);
        lemma_lex_lt_common_prefix(a.drop_first(), b.drop_first(), i - 1);
        assert(a.drop_first().skip(i - 1) =~= a.skip(i));
        assert(b.drop_first().skip(i - 1) =~= b.skip(i));
    }
}

/// Character-wise strict lexicographic comparison of two string slices.
pub fn str_lt(a: &str, b: &str) -> (r: bool)
    ensures
        r == lex_lt(a@, b@),
{
    let a_len = a.unicode_len();
    let b_len = b.unicode_len();
    let min: usize = if a_len < b_len {
        a_len
    } else {
        b_len
    };
    let mut i: usize = 0;
    while i < min
        invariant
            a_len == a@.len(),
            b_len == b@.len(),
            min == if a_len < b_len {
                a_len
            } else {
                b_len
            },
            i <= min,
            forall|k: int| 0 <= k < i ==> a@[k] == b@[k],
        decreases min - i,
    {
        let ca = a.get_char(i);
        let cb = b.get_char(i);
        if ca != cb {
            proof {
                lemma_lex_lt_common_prefix(a@, b@, i as int);
                assert(lex_lt(a@.skip(i as int), b@.skip(i as int)) == (a@[i as int]
                    < b@[i as int]));
            }
            return ca < cb;
        }
        i = i + 1;
    }
    proof {
        lemma_lex_lt_common_prefix(a@, b@, min as int);
        if a_len < b_len {
            assert(a@.skip(min as int).len() == 0);
            assert(b@.skip(min as int).len() > 0);
        } else {
            assert(b@.skip(min as int).len() == 0);
        }
    }
    a_len < b_len
}

/// True when `p` is a prefix of `s`.
pub open spec fn is_prefix(p: Seq<char>, s: Seq<char>) -> bool {
    p.len() <= s.len() && s.take(p.len() as int) == p
}

/// Whether the string starts with the given prefix, character for character.
pub fn starts_with_str(s: &str, p: &str) -> (r: bool)
    ensures
        r == is_prefix(p@, s@),
{
    let s_len = s.unicode_len();
    let p_len = p.unicode_len();
    if p_len > s_len {
        proof {
            assert(!is_prefix(p@, s@));
        }
        return false;
    }
    let mut i: usize = 0;
    while i < p_len
        invariant
            s_len == s@.len(),
            p_len == p@.len(),
            p_len <= s_len,
            i <= p_len,
            forall|k: int| 0 <= k < i ==> s@[k] == p@[k],
        decreases p_len - i,
    {
        if s.get_char(i) != p.get_char(i) {
            proof {
                assert(s@.take(p@.len() as int)[i as int] != p@[i as int]);
            }
            return false;
        }
        i = i + 1;
    }
    proof {
        assert(s@.take(p@.len() as int) =~= p@);
    }
    true
}

/// The characters of a path once a package-name prefix and one following
/// `::` separator are stripped; a path that does not start with the name
/// keeps it, and a separator is only stripped right after the name.
pub open spec fn strip_prefix_spec(path: Seq<char>, name: Seq<char>) -> Seq<char> {
    let rest = if is_prefix(name, path) {
        path.skip(name.len() as int)
    } else {
        path
    };
    if rest.len() >= 2 && rest[0] == ':' && rest[1] == ':' {
        rest.skip(2)
    } else {
        rest
    }
}

/// Strips a leading package name and one following `::` separator from a
/// fully qualified path, producing the search key for the item.
pub fn strip_package_prefix(path: &str, name: &str) -> (r: String)
    ensures
        r@ == strip_prefix_spec(path@, name@),
{
    let rest: String = if starts_with_str(path, name) {
        let path_len = path.unicode_len();
        let name_len = name.unicode_len();
        path.substring_char(name_len, path_len).to_owned()
    } else {
        path.to_owned()
    };
    let ghost rest_chars = strip_prefix_spec_rest(path@, name@);
    proof {
        assert(rest@ =~= rest_chars);
    }
    if rest.unicode_len() >= 2 {
        let c0 = rest.as_str().get_char(0);
        let c1 = rest.as_str().get_char(1);
        if c0 == ':' && c1 == ':' {
            let out = rest.as_str().substring_char(2, rest.unicode_len()).to_owned();
            proof {
                assert(out@ =~= strip_prefix_spec(path@, name@));
            }
            return out;
        }
    }
    proof {
        assert(rest@ =~= strip_prefix_spec(path@, name@));
    }
    rest
}

/// The intermediate value of `strip_prefix_spec`: the path with the name
/// prefix removed but the separator still in place.
pub open spec fn strip_prefix_spec_rest(path: Seq<char>, name: Seq<char>) -> Seq<char> {
    if is_prefix(name, path) {
        path.skip(name.len() as int)
    } else {
        path
    }
}

/// The components joined with the separator between each adjacent pair.
pub open spec fn join_spec(parts: Seq<Seq<char>>, sep: Seq<char>) -> Seq<char>
    decreases parts.len(),
{
    if parts.len() == 0 {
        Seq::empty()
    } else if parts.len() == 1 {
        parts[0]
    } else {
        join_spec(parts.drop_last(), sep) + sep + parts.last()
    }
}

/// Joins path components with the given separator.
pub fn join_strings(parts: &Vec<String>, sep: &str) -> (r: String)
    ensures
        r@ == join_spec(parts.deep_view(), sep@),
{
    let mut out = String::new();
    let mut i: usize = 0;
    while i < parts.len()
        invariant
            i <= parts@.len(),
            parts.deep_view().len() == parts@.len(),
            forall|k: int| 0 <= k < parts@.len() ==> parts.deep_view()[k] == parts@[k]@,
            out@ == join_spec(parts.deep_view().take(i as int), sep@),
        decreases parts@.len() - i,
    {
        if i > 0 {
            out.append(sep);
        }
        out.append(parts[i].as_str());
        proof {
            let dv = parts.deep_view();
            assert(dv.take(i + 1 as int).drop_last() =~= dv.take(i as int));
            assert(dv.take(i + 1 as int).last() == dv[i as int]);
            if i == 0 {
                assert(join_spec(dv.take(1), sep@) == dv[0]);
            }
        }
        i = i + 1;
    }
    proof {
        assert(parts.deep_view().take(parts@.len() as int) =~= parts.deep_view());
    }
    out
}

/// The sequence with `x` inserted before the first element strictly greater
/// than it.
pub open spec fn insert_sorted_spec(s: Seq<Seq<char>>, x: Seq<char>) -> Seq<Seq<char>>
    decreases s.len(),
{
    if s.len() == 0 {
        seq![x]
    } else if lex_lt(x, s[0]) {
        seq![x] + s
    } else {
        seq![s[0]] + insert_sorted_spec(s.drop_first(), x)
    }
}

/// Insertion sort, processing the input left to right.
pub open spec fn sort_spec(s: Seq<Seq<char>>) -> Seq<Seq<char>>
    decreases s.len(),
{
    if s.len() == 0 {
        Seq::empty()
    } else {
        insert_sorted_spec(sort_spec(s.drop_last()), s.last())
    }
}

/// Inserting at the first position whose element exceeds `x` is what
/// `insert_sorted_spec` computes.
proof fn lemma_insert_sorted_at(s: Seq<Seq<char>>, x: Seq<char>, j: int)
    requires
        0 <= j <= s.len(),
        forall|k: int| 0 <= k < j ==> !lex_lt(x, s[k]),
        j < s.len() ==> lex_lt(x, s[j]),
    ensures
        insert_sorted_spec(s, x) == s.take(j) + seq![x] + s.skip(j),
    decreases j,
{
    if j == 0 {
        if s.len() == 0 {
            assert(insert_sorted_spec(s, x) =~= s.take(0) + seq![x] + s.skip(0));
        } else {
            assert(insert_sorted_spec(s, x) =~= s.take(0) + seq![x] + s.skip(0));
        }
    } else {
        assert(!lex_lt(x, s[0]));
        lemma_insert_sorted_at(s.drop_first(), x, j - 1);
        assert(s.drop_first().take(j - 1) =~= s.skip(1).take(j - 1));
        assert(seq![s[0]] + (s.skip(1).take(j - 1) + seq![x] + s.skip(1).skip(j - 1)) =~= s.take(j)
            + seq![x] + s.skip(j));
        assert(insert_sorted_spec(s, x) == seq![s[0]] + insert_sorted_spec(s.drop_first(), x));
    }
}

/// The first position in the list whose element is strictly greater than
/// `x`; inserting there keeps a sorted list sorted.
fn insert_position(out: &Vec<String>, x: &str) -> (j: usize)
    ensures
        j <= out@.len(),
        forall|k: int| 0 <= k < j ==> !lex_lt(x@, out.deep_view()[k]),
        j < out@.len() ==> lex_lt(x@, out.deep_view()[j as int]),
{
    let mut j: usize = 0;
    while j < out.len()
        invariant
            j <= out@.len(),
            out.deep_view().len() == out@.len(),
            forall|k: int| 0 <= k < out@.len() ==> out.deep_view()[k] == out@[k]@,
            forall|k: int| 0 <= k < j ==> !lex_lt(x@, out.deep_view()[k]),
        decreases out@.len() - j,
    {
        if str_lt(x, out[j].as_str()) {
            return j;
        }
        j = j + 1;
    }
    j
}

/// Sorts the strings in place, character-wise lexicographically.
pub fn sort_strings(v: &mut Vec<String>)
    ensures
        final(v).deep_view() == sort_spec(old(v).deep_view()),
{
    let mut out: Vec<String> = Vec::new();
    let mut i: usize = 0;
    while i < v.len()
        invariant
            i <= v@.len(),
            v.deep_view().len() == v@.len(),
            forall|k: int| 0 <= k < v@.len() ==> v.deep_view()[k] == v@[k]@,
            out.deep_view() == sort_spec(v.deep_view().take(i as int)),
            out@.len() == i,
        decreases v@.len() - i,
    {
        let x = v[i].clone();
        let j = insert_position(&out, x.as_str());
        proof {
            lemma_insert_sorted_at(out.deep_view(), x@, j as int);
        }
        let ghost pre = out.deep_view();
        out.insert(j, x);
        proof {
            assert(out.deep_view() =~= pre.take(j as int) + seq![v.deep_view()[i as int]]
                + pre.skip(j as int));
            let dv = v.deep_view();
            assert(dv.take(i + 1 as int).drop_last() =~= dv.take(i as int));
            assert(dv.take(i + 1 as int).last() == dv[i as int]);
        }
        i = i + 1;
    }
    proof {
        assert(v.deep_view().take(v@.len() as int) =~= v.deep_view());
    }
    *v = out;
}

/// The sequence with runs of equal adjacent elements collapsed to one.
pub open spec fn dedup_spec(s: Seq<Seq<char>>) -> Seq<Seq<char>>
    decreases s.len(),
{
    if s.len() == 0 {
        Seq::empty()
    } else if s.len() == 1 {
        s
    } else if s[0] == s[1] {
        dedup_spec(s.drop_first())
    } else {
        seq![s[0]] + dedup_spec(s.drop_first())
    }
}

/// Appending an element extends the de-duplicated sequence exactly when it
/// differs from the last element.
proof fn lemma_dedup_push(s: Seq<Seq<char>>, x: Seq<char>)
    requires
        s.len() > 0,
    ensures
        dedup_spec(s.push(x)) == if s.last() == x {
            dedup_spec(s)
        } else {
            dedup_spec(s).push(x)
        },
    decreases s.len(),
{
    if s.len() == 1 {
        let p = s.push(x);
        assert(p.len() == 2);
        assert(p[0] == s[0] && p[1] == x);
        if s[0] == x {
            assert(p.drop_first() =~= seq![x]);
            assert(dedup_spec(p) == dedup_spec(p.drop_first()));
            assert(dedup_spec(p) =~= dedup_spec(s));
        } else {
            assert(p.drop_first() =~= seq![x]);
            assert(dedup_spec(p) == seq![p[0]] + dedup_spec(p.drop_first()));
            assert(dedup_spec(p) =~= dedup_spec(s).push(x));
        }
    } else {
        let p = s.push(x);
        assert(p.drop_first() =~= s.drop_first().push(x));
        lemma_dedup_push(s.drop_first(), x);
        assert(s.drop_first().last() == s.last());
        if s[0] == s[1] {
            assert(p[0] == p[1]);
            assert(dedup_spec(p) == dedup_spec(s.drop_first().push(x)));
        } else {
            assert(p[0] != p[1]);
            assert(dedup_spec(p) == seq![p[0]] + dedup_spec(s.drop_first().push(x)));
            if s.last() == x {
            } else {
                assert(seq![s[0]] + dedup_spec(s.drop_first()).push(x) =~= (seq![s[0]] + dedup_spec(
                    s.drop_first(),
                )).push(x));
            }
        }
    }
}

/// Removes equal adjacent strings, keeping the first of each run.
pub fn dedup_strings(v: &mut Vec<String>)
    ensures
        final(v).deep_view() == dedup_spec(old(v).deep_view()),
{
    let mut out: Vec<String> = Vec::new();
    let mut i: usize = 0;
    while i < v.len()
        invariant
            i <= v@.len(),
            v.deep_view().len() == v@.len(),
            forall|k: int| 0 <= k < v@.len() ==> v.deep_view()[k] == v@[k]@,
            out.deep_view() == dedup_spec(v.deep_view().take(i as int)),
            out@.len() > 0 ==> i > 0 && out.deep_view().last() == v.deep_view()[i - 1],
            i > 0 ==> out@.len() > 0,
        decreases v@.len() - i,
    {
        let ghost dv = v.deep_view();
        proof {
            assert(dv.take(i + 1 as int) =~= dv.take(i as int).push(dv[i as int]));
        }
        if out.len() == 0 {
            out.push(v[i].clone());
            proof {
                assert(i == 0);
                assert(dv.take(1) =~= seq![dv[0]]);
                assert(out.deep_view() =~= seq![dv[0]]);
            }
        } else {
            let keep = !str_eq(out[out.len() - 1].as_str(), v[i].as_str());
            proof {
                lemma_dedup_push(dv.take(i as int), dv[i as int]);
            }
            if keep {
                let ghost pre = out.deep_view();
                out.push(v[i].clone());
                proof {
                    assert(out.deep_view() =~= pre.push(dv[i as int]));
                }
            }
        }
        i = i + 1;
    }
    proof {
        assert(v.deep_view().take(v@.len() as int) =~= v.deep_view());
    }
    *v = out;
}

/// Sorted order followed by de-duplication: the canonical form of a child
/// list.
pub open spec fn sort_dedup_spec(s: Seq<Seq<char>>) -> Seq<Seq<char>> {
    dedup_spec(sort_spec(s))
}

/// Sorts the strings and removes duplicates.
pub fn sort_dedup_strings(v: &mut Vec<String>)
    ensures
        final(v).deep_view() == sort_dedup_spec(old(v).deep_view()),
{
    sort_strings(v);
    dedup_strings(v);
}

/// The character of one decimal digit.
pub open spec fn dec_digit(d: int) -> char {
    if d == 0 {
        '0'
    } else if d == 1 {
        '1'
    } else if d == 2 {
        '2'
    } else if d == 3 {
        '3'
    } else if d == 4 {
        '4'
    } else if d == 5 {
        '5'
    } else if d == 6 {
        '6'
    } else if d == 7 {
        '7'
    } else if d == 8 {
        '8'
    } else {
        '9'
    }
}

/// The decimal rendering of a non-negative number, most significant digit
/// first, without leading zeros.
pub open spec fn dec_spec(n: int) -> Seq<char>
    decreases n,
{
    if n < 10 {
        seq![dec_digit(n)]
    } else {
        dec_spec(n / 10).push(dec_digit(n % 10))
    }
}

/// The one-character string of a decimal digit.
fn dec_digit_str(d: u64) -> (r: &'static str)
    requires
        d < 10,
    ensures
        r@ == seq![dec_digit(d as int)],
{
    proof {
        reveal_strlit("0");
        reveal_strlit("1");
        reveal_strlit("2");
        reveal_strlit("3");
        reveal_strlit("4");
        reveal_strlit("5");
        reveal_strlit("6");
        reveal_strlit("7");
        reveal_strlit("8");
        reveal_strlit("9");
    }
    if d == 0 {
        "0"
    } else if d == 1 {
        "1"
    } else if d == 2 {
        "2"
    } else if d == 3 {
        "3"
    } else if d == 4 {
        "4"
    } else if d == 5 {
        "5"
    } else if d == 6 {
        "6"
    } else if d == 7 {
        "7"
    } else if d == 8 {
        "8"
    } else {
        "9"
    }
}

/// Renders a number in decimal.
pub fn u64_to_dec(n: u64) -> (r: String)
    ensures
        r@ == dec_spec(n as int),
    decreases n,
{
    if n < 10 {
        let r = dec_digit_str(n).to_owned();
        proof {
            assert(r@ =~= dec_spec(n as int));
        }
        r
    } else {
        let mut s = u64_to_dec(n / 10);
        s.append(dec_digit_str(n % 10));
        proof {
            assert(s@ =~= dec_spec(n as int));
        }
        s
    }
}

/// Non-strict lexicographic order holds between every earlier and later
/// element.
pub open spec fn sorted_ascending(s: Seq<Seq<char>>) -> bool {
    forall|i: int, j: int| 0 <= i < j < s.len() ==> lex_le(s[i], s[j])
}

/// Strict lexicographic order holds between every earlier and later
/// element: sorted with no duplicates.
pub open spec fn strictly_ascending(s: Seq<Seq<char>>) -> bool {
    forall|i: int, j: int| 0 <= i < j < s.len() ==> lex_lt(s[i], s[j])
}

/// The order is total: two sequences compare one way, the other, or are
/// equal.
proof fn lemma_lex_lt_total(a: Seq<char>, b: Seq<char>)
    ensures
        lex_lt(a, b) || lex_lt(b, a) || a == b,
    decreases a.len(),
{
    if b.len() == 0 {
        if a.len() == 0 {
            assert(a =~= b);
        }
    } else if a.len() == 0 {
    } else if a[0] == b[0] {
        lemma_lex_lt_total(a.drop_first(), b.drop_first());
        if a.drop_first() == b.drop_first() {
            assert(a.drop_first().len() == a.len() - 1);
            assert(b.drop_first().len() == b.len() - 1);
            assert(a.len() == b.len());
            assert forall|k: int| 0 <= k < a.len() implies a[k] == b[k] by {
                if k > 0 {
                    assert(a.drop_first()[k - 1] == b.drop_first()[k - 1]);
                }
            }
            assert(a =~= b);
        }
    }
}

/// The order is transitive.
proof fn lemma_lex_lt_trans(a: Seq<char>, b: Seq<char>, c: Seq<char>)
    requires
        lex_lt(a, b),
        lex_lt(b, c),
    ensures
        lex_lt(a, c),
    decreases a.len(),
{
    if a.len() > 0 && b.len() > 0 && c.len() > 0 {
        if a[0] == b[0] && b[0] == c[0] {
            lemma_lex_lt_trans(a.drop_first(), b.drop_first(), c.drop_first());
        }
    }
}

/// Insertion into a sorted list keeps it sorted.
proof fn lemma_insert_sorted_keeps(s: Seq<Seq<char>>, x: Seq<char>)
    requires
        sorted_ascending(s),
    ensures
        sorted_ascending(insert_sorted_spec(s, x)),
    decreases s.len(),
{
    if s.len() == 0 {
    } else if lex_lt(x, s[0]) {
        let r = seq![x] + s;
        assert forall|i: int, j: int| 0 <= i < j < r.len() implies lex_le(r[i], r[j]) by {
            if i == 0 {
                assert(r[j] == s[j - 1]);
                if j > 1 {
                    assert(lex_le(s[0], s[j - 1]));
                    if s[0] == s[j - 1] {
                    } else {
                        lemma_lex_lt_trans(x, s[0], s[j - 1]);
                    }
                }
            } else {
                assert(r[i] == s[i - 1] && r[j] == s[j - 1]);
            }
        }
    } else {
        assert(sorted_ascending(s.drop_first())) by {
            assert(forall|k: int|
                0 <= k < s.drop_first().len() ==> s.drop_first()[k] == #[trigger] s[k + 1]);
        }
        lemma_insert_sorted_keeps(s.drop_first(), x);
        let inner = insert_sorted_spec(s.drop_first(), x);
        let r = seq![s[0]] + inner;
        assert(insert_sorted_spec(s, x) == r);
        lemma_lex_lt_total(x, s[0]);
        assert(lex_le(s[0], x));
        assert forall|i: int, j: int| 0 <= i < j < r.len() implies lex_le(r[i], r[j]) by {
            if i > 0 {
                assert(r[i] == inner[i - 1] && r[j] == inner[j - 1]);
            } else {
                assert(r[j] == inner[j - 1]);
                lemma_insert_sorted_elements(s.drop_first(), x, s[0]);
            }
        }
    }
}

/// Every element of an insertion respects a non-strict lower bound that
/// the list and the inserted element respect.
proof fn lemma_insert_sorted_elements(s: Seq<Seq<char>>, x: Seq<char>, bound: Seq<char>)
    requires
        lex_le(bound, x),
        forall|k: int| 0 <= k < s.len() ==> lex_le(bound, #[trigger] s[k]),
    ensures
        forall|k: int|
            0 <= k < insert_sorted_spec(s, x).len() ==> lex_le(
                bound,
                #[trigger] insert_sorted_spec(s, x)[k],
            ),
    decreases s.len(),
{
    if s.len() == 0 {
    } else if lex_lt(x, s[0]) {
        let r = seq![x] + s;
        assert(forall|k: int| 0 < k < r.len() ==> r[k] == #[trigger] s[k - 1]);
    } else {
        assert(forall|k: int|
            0 <= k < s.drop_first().len() ==> lex_le(bound, #[trigger] s.drop_first()[k])) by {
            assert(forall|k: int|
                0 <= k < s.drop_first().len() ==> s.drop_first()[k] == #[trigger] s[k + 1]);
        }
        lemma_insert_sorted_elements(s.drop_first(), x, bound);
        let inner = insert_sorted_spec(s.drop_first(), x);
        let r = seq![s[0]] + inner;
        assert(insert_sorted_spec(s, x) == r);
        assert(forall|k: int| 0 < k < r.len() ==> r[k] == #[trigger] inner[k - 1]);
    }
}

/// The insertion sort sorts.
proof fn lemma_sort_spec_sorted(s: Seq<Seq<char>>)
    ensures
        sorted_ascending(sort_spec(s)),
    decreases s.len(),
{
    if s.len() > 0 {
        lemma_sort_spec_sorted(s.drop_last());
        lemma_insert_sorted_keeps(sort_spec(s.drop_last()), s.last());
    }
}

/// Every element of the de-duplication stays above a strict lower bound
/// that the list respects.
proof fn lemma_dedup_bound(s: Seq<Seq<char>>, bound: Seq<char>)
    requires
        forall|k: int| 0 <= k < s.len() ==> lex_lt(bound, #[trigger] s[k]),
    ensures
        forall|k: int|
            0 <= k < dedup_spec(s).len() ==> lex_lt(bound, #[trigger] dedup_spec(s)[k]),
    decreases s.len(),
{
    if s.len() > 1 {
        assert(forall|k: int|
            0 <= k < s.drop_first().len() ==> lex_lt(bound, #[trigger] s.drop_first()[k])) by {
            assert(forall|k: int|
                0 <= k < s.drop_first().len() ==> s.drop_first()[k] == #[trigger] s[k + 1]);
        }
        lemma_dedup_bound(s.drop_first(), bound);
        if s[0] != s[1] {
            let r = seq![s[0]] + dedup_spec(s.drop_first());
            assert(dedup_spec(s) == r);
            assert(forall|k: int|
                0 < k < r.len() ==> r[k] == #[trigger] dedup_spec(s.drop_first())[k - 1]);
        }
    }
}

/// De-duplicating a sorted list leaves it strictly ascending.
proof fn lemma_dedup_strict(s: Seq<Seq<char>>)
    requires
        sorted_ascending(s),
    ensures
        strictly_ascending(dedup_spec(s)),
    decreases s.len(),
{
    if s.len() > 1 {
        assert(sorted_ascending(s.drop_first())) by {
            assert(forall|k: int|
                0 <= k < s.drop_first().len() ==> s.drop_first()[k] == #[trigger] s[k + 1]);
        }
        lemma_dedup_strict(s.drop_first());
        if s[0] == s[1] {
        } else {
            let inner = dedup_spec(s.drop_first());
            let r = seq![s[0]] + inner;
            assert(dedup_spec(s) == r);
            assert(forall|k: int|
                0 <= k < s.drop_first().len() ==> lex_lt(s[0], #[trigger] s.drop_first()[k])) by {
                assert forall|k: int|
                    0 <= k < s.drop_first().len() implies lex_lt(
                    s[0],
                    #[trigger] s.drop_first()[k],
                ) by {
                    assert(s.drop_first()[k] == s[k + 1]);
                    assert(lex_le(s[0], s[1]) && s[0] != s[1]);
                    if k > 0 {
                        assert(lex_le(s[1], s[k + 1]));
                        if s[1] == s[k + 1] {
                        } else {
                            lemma_lex_lt_trans(s[0], s[1], s[k + 1]);
                        }
                    }
                }
            }
            lemma_dedup_bound(s.drop_first(), s[0]);
            assert forall|i: int, j: int| 0 <= i < j < r.len() implies lex_lt(r[i], r[j]) by {
                if i > 0 {
                    assert(r[i] == inner[i - 1] && r[j] == inner[j - 1]);
                } else {
                    assert(r[j] == inner[j - 1]);
                }
            }
        }
    }
}

/// Law: a child-name list in canonical form is strictly ascending —
/// sorted lexicographically with no duplicate left.
pub proof fn lemma_sort_dedup_canonical(s: Seq<Seq<char>>)
    ensures
        strictly_ascending(sort_dedup_spec(s)),
{
    lemma_sort_spec_sorted(s);
    lemma_dedup_strict(sort_spec(s));
}

} // verus!
