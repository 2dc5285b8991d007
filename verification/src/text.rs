//! Byte-level text utilities shared by the identity and name resolvers:
//! whitespace trimming, line splitting, prefix and substring tests, and
//! token extraction, each specified over `Seq<u8>`.

use vstd::prelude::*;

verus! {

/// The bytes that `trim` removes: space and the ASCII control characters
/// tab through carriage return (the whitespace a platform query emits).
pub open spec fn is_space(b: u8) -> bool {
    b == 32 || (9 <= b && b <= 13)
}

/// Executable mirror of `is_space`.
pub fn byte_is_space(b: u8) -> (r: bool)
    ensures
        r == is_space(b),
{
    b == 32 || (9 <= b && b <= 13)
}

/// `s` with every leading whitespace byte removed.
pub open spec fn spec_trim_start(s: Seq<u8>) -> Seq<u8>
    decreases s.len(),
{
    if s.len() > 0 && is_space(s[0]) {
        spec_trim_start(s.drop_first())
    } else {
        s
    }
}

/// `s` with every trailing whitespace byte removed.
pub open spec fn spec_trim_end(s: Seq<u8>) -> Seq<u8>
    decreases s.len(),
{
    if s.len() > 0 && is_space(s[s.len() - 1]) {
        spec_trim_end(s.drop_last())
    } else {
        s
    }
}

/// `s` with leading and trailing whitespace removed.
pub open spec fn spec_trim(s: Seq<u8>) -> Seq<u8> {
    spec_trim_end(spec_trim_start(s))
}

proof fn lemma_trim_start_at(s: Seq<u8>, i: int)
    requires
        0 <= i <= s.len(),
        forall|k: int| 0 <= k < i ==> is_space(s[k]),
        i < s.len() ==> !is_space(s[i]),
    ensures
        spec_trim_start(s) =~= s.subrange(i, s.len() as int),
    decreases i,
{
    if i == 0 {
        if s.len() > 0 {
            assert(!is_space(s[0]));
        }
        assert(spec_trim_start(s) =~= s.subrange(0, s.len() as int));
    } else {
        assert(is_space(s[0]));
        let t = s.drop_first();
        lemma_trim_start_at(t, i - 1);
        assert(t.subrange(i - 1, t.len() as int) =~= s.subrange(i, s.len() as int));
    }
}

proof fn lemma_trim_end_at(s: Seq<u8>, j: int)
    requires
        0 <= j <= s.len(),
        forall|k: int| j <= k < s.len() ==> is_space(s[k]),
        j > 0 ==> !is_space(s[j - 1]),
    ensures
        spec_trim_end(s) =~= s.subrange(0, j),
    decreases s.len() - j,
{
    if j == s.len() {
        if s.len() > 0 {
            assert(!is_space(s[s.len() - 1]));
        }
        assert(spec_trim_end(s) =~= s.subrange(0, s.len() as int));
    } else {
        assert(is_space(s[s.len() - 1]));
        let t = s.drop_last();
        lemma_trim_end_at(t, j);
        assert(t.subrange(0, j) =~= s.subrange(0, j));
    }
}

/// Trims leading and trailing whitespace bytes, as the platform-query
/// parsers require before validating a candidate value.
pub fn trim(s: &Vec<u8>) -> (r: Vec<u8>)
    ensures
        r@ == spec_trim(s@),
{
    let n = s.len();
    let mut i: usize = 0;
    while i < n && byte_is_space(s[i])
        invariant
            0 <= i <= n,
            n == s@.len(),
            forall|k: int| 0 <= k < i ==> is_space(s@[k]),
        decreases n - i,
    {
        i += 1;
    }
    let mut j: usize = n;
    while j > i && byte_is_space(s[j - 1])
        invariant
            i <= j <= n,
            n == s@.len(),
            forall|k: int| j <= k < n ==> is_space(s@[k]),
        decreases j,
    {
        j -= 1;
    }
    let mut r: Vec<u8> = Vec::new();
    let mut k: usize = i;
    while k < j
        invariant
            i <= k <= j <= n,
            n == s@.len(),
            r@ =~= s@.subrange(i as int, k as int),
        decreases j - k,
    {
        r.push(s[k]);
        assert(r@ =~= s@.subrange(i as int, k + 1));
        k += 1;
    }
    proof {
        lemma_trim_start_at(s@, i as int);
        let t = s@.subrange(i as int, n as int);
        if j == i {
            lemma_trim_end_at(t, 0);
        } else {
            assert(!is_space(s@[j - 1]));
            assert(forall|k2: int| j - i <= k2 < t.len() ==> is_space(t[k2]));
            lemma_trim_end_at(t, j - i);
        }
        assert(t.subrange(0, j - i) =~= s@.subrange(i as int, j as int));
        assert(r@ =~= s@.subrange(i as int, j as int));
    }
    r
}

/// Index of the first occurrence of `b` in `s`, or `s.len()` when absent.
pub open spec fn spec_find(s: Seq<u8>, b: u8) -> int
    decreases s.len(),
{
    if s.len() == 0 {
        0
    } else if s[0] == b {
        0
    } else {
        1 + spec_find(s.drop_first(), b)
    }
}

pub proof fn lemma_find_props(s: Seq<u8>, b: u8)
    ensures
        0 <= spec_find(s, b) <= s.len(),
        spec_find(s, b) < s.len() ==> s[spec_find(s, b)] == b,
        forall|k: int| 0 <= k < spec_find(s, b) ==> s[k] != b,
    decreases s.len(),
{
    if s.len() > 0 && s[0] != b {
        let t = s.drop_first();
        lemma_find_props(t, b);
        assert forall|k: int| 0 <= k < spec_find(s, b) implies s[k] != b by {
            if k > 0 {
                assert(s[k] == t[k - 1]);
            }
        }
    }
}

proof fn lemma_find_at(s: Seq<u8>, b: u8, i: int)
    requires
        0 <= i <= s.len(),
        forall|k: int| 0 <= k < i ==> s[k] != b,
        i < s.len() ==> s[i] == b,
    ensures
        spec_find(s, b) == i,
    decreases i,
{
    if i == 0 {
        if s.len() > 0 {
            assert(s[0] == b);
        }
    } else {
        assert(s[0] != b);
        let t = s.drop_first();
        assert(forall|k: int| 0 <= k < i - 1 ==> t[k] == s[k + 1] && t[k] != b);
        lemma_find_at(t, b, i - 1);
    }
}

/// Finds the first occurrence of `b` in `s`, returning `s.len()` when absent.
pub fn find_byte(s: &Vec<u8>, b: u8) -> (r: usize)
    ensures
        r == spec_find(s@, b),
{
    let n = s.len();
    let mut i: usize = 0;
    while i < n && s[i] != b
        invariant
            0 <= i <= n,
            n == s@.len(),
            forall|k: int| 0 <= k < i ==> s@[k] != b,
        decreases n - i,
    {
        i += 1;
    }
    proof {
        lemma_find_at(s@, b, i as int);
    }
    i
}

/// A line terminated by a newline sheds one trailing carriage return.
pub open spec fn strip_cr(seg: Seq<u8>) -> Seq<u8> {
    if seg.len() > 0 && seg[seg.len() - 1] == 13 {
        seg.drop_last()
    } else {
        seg
    }
}

/// The lines of `s`: segments split at each newline byte, a carriage return
/// before a newline stripped, and an empty final segment dropped.
pub open spec fn spec_lines(s: Seq<u8>) -> Seq<Seq<u8>>
    decreases s.len(),
    via spec_lines_decreases
{
    if s.len() == 0 {
        Seq::empty()
    } else {
        let i = spec_find(s, 10);
        if i == s.len() {
            seq![s]
        } else {
            seq![strip_cr(s.subrange(0, i))] + spec_lines(
                s.subrange(i + 1, s.len() as int),
            )
        }
    }
}

#[via_fn]
proof fn spec_lines_decreases(s: Seq<u8>) {
    lemma_find_props(s, 10);
}

/// Splits a query's output into its lines, as `spec_lines` describes them.
pub fn split_lines(s: &Vec<u8>) -> (r: Vec<Vec<u8>>)
    ensures
        r.deep_view() == spec_lines(s@),
{
    let n = s.len();
    let mut r: Vec<Vec<u8>> = Vec::new();
    let mut pos: usize = 0;
    proof {
        assert(s@.subrange(0, n as int) =~= s@);
        assert(r.deep_view() =~= Seq::<Seq<u8>>::empty());
        assert(spec_lines(s@) =~= r.deep_view() + spec_lines(s@.subrange(0, n as int)));
    }
    while pos < n
        invariant
            0 <= pos <= n,
            n == s@.len(),
            spec_lines(s@) == r.deep_view() + spec_lines(s@.subrange(pos as int, n as int)),
        decreases n - pos,
    {
        let ghost rest = s@.subrange(pos as int, n as int);
        let mut k: usize = pos;
        while k < n && s[k] != 10
            invariant
                pos <= k <= n,
                n == s@.len(),
                forall|j: int| pos <= j < k ==> s@[j] != 10,
            decreases n - k,
        {
            k += 1;
        }
        proof {
            assert(forall|j: int| 0 <= j < k - pos ==> rest[j] == s@[j + pos] && rest[j] != 10);
            if k < n {
                assert(rest[k - pos] == s@[k as int]);
            }
            lemma_find_at(rest, 10, k - pos);
        }
        let mut line: Vec<u8> = Vec::new();
        let mut c: usize = pos;
        let end: usize = if k < n && k > pos && s[k - 1] == 13 {
            k - 1
        } else {
            k
        };
        while c < end
            invariant
                pos <= c <= end <= n,
                n == s@.len(),
                line@ =~= s@.subrange(pos as int, c as int),
            decreases end - c,
        {
            line.push(s[c]);
            assert(line@ =~= s@.subrange(pos as int, c + 1));
            c += 1;
        }
        proof {
            assert(rest.len() > 0);
            if k == n {
                assert(end == k);
                assert(line@ =~= rest);
                assert(spec_lines(rest) == seq![rest]);
            } else {
                let seg = rest.subrange(0, k - pos);
                assert(seg =~= s@.subrange(pos as int, k as int));
                if k > pos && s@[k - 1] == 13 {
                    assert(seg[seg.len() - 1] == 13);
                    assert(strip_cr(seg) =~= s@.subrange(pos as int, k - 1));
                    assert(line@ =~= strip_cr(seg));
                } else {
                    assert(strip_cr(seg) =~= seg);
                    assert(line@ =~= strip_cr(seg));
                }
                assert(rest.subrange(k - pos + 1, rest.len() as int) =~= s@.subrange(
                    k + 1,
                    n as int,
                ));
                assert(spec_lines(rest) == seq![line@] + spec_lines(s@.subrange(k + 1, n as int)));
            }
        }
        let ghost prev = r@;
        let ghost old_r = r.deep_view();
        r.push(line);
        proof {
            assert(r@ == prev.push(line));
            assert forall|i: int| 0 <= i < r.deep_view().len() implies r.deep_view()[i] == (old_r
                + seq![line@])[i] by {
                if i < prev.len() {
                    assert(r@[i] == prev[i]);
                    assert(old_r[i] == prev[i].deep_view());
                } else {
                    assert(r@[i] == line);
                    assert(line.deep_view() =~= line@);
                }
            }
            assert(r.deep_view() =~= old_r + seq![line@]);
        }
        if k == n {
            pos = n;
            proof {
                assert(s@.subrange(pos as int, n as int) =~= Seq::<u8>::empty());
                assert(spec_lines(s@) =~= r.deep_view());
            }
        } else {
            pos = k + 1;
            proof {
                assert(spec_lines(s@) =~= r.deep_view() + spec_lines(
                    s@.subrange(pos as int, n as int),
                ));
            }
        }
    }
    proof {
        assert(s@.subrange(pos as int, n as int) =~= Seq::<u8>::empty());
        assert(spec_lines(s@) =~= r.deep_view());
    }
    r
}

/// True when two byte vectors hold the same bytes.
pub fn bytes_eq(a: &Vec<u8>, b: &Vec<u8>) -> (r: bool)
    ensures
        r == (a@ == b@),
{
    if a.len() != b.len() {
        assert(a@ != b@);
        return false;
    }
    let n = a.len();
    let mut i: usize = 0;
    while i < n
        invariant
            0 <= i <= n,
            n == a@.len() && n == b@.len(),
            forall|k: int| 0 <= k < i ==> a@[k] == b@[k],
        decreases n - i,
    {
        if a[i] != b[i] {
            return false;
        }
        i += 1;
    }
    assert(a@ =~= b@);
    true
}

/// Copies a byte vector.
pub fn copy_bytes(s: &Vec<u8>) -> (r: Vec<u8>)
    ensures
        r@ == s@,
{
    let n = s.len();
    let mut r: Vec<u8> = Vec::new();
    let mut i: usize = 0;
    while i < n
        invariant
            0 <= i <= n,
            n == s@.len(),
            r@ =~= s@.subrange(0, i as int),
        decreases n - i,
    {
        r.push(s[i]);
        assert(r@ =~= s@.subrange(0, i + 1));
        i += 1;
    }
    assert(r@ =~= s@);
    r
}

/// True when `p` is a prefix of `s`.
pub open spec fn has_prefix(s: Seq<u8>, p: Seq<u8>) -> bool {
    p.len() <= s.len() && s.subrange(0, p.len() as int) == p
}

/// True when `n` occurs in `s` starting at index `i`.
pub open spec fn occurs_at(s: Seq<u8>, n: Seq<u8>, i: int) -> bool {
    0 <= i && i + n.len() <= s.len() && s.subrange(i, i + n.len()) == n
}

/// True when `n` occurs somewhere in `s`.
pub open spec fn contains_seq(s: Seq<u8>, n: Seq<u8>) -> bool {
    exists|i: int| occurs_at(s, n, i)
}

/// Tests whether `p` is a prefix of `s`.
pub fn starts_with(s: &Vec<u8>, p: &Vec<u8>) -> (r: bool)
    ensures
        r == has_prefix(s@, p@),
{
    let m = p.len();
    if m > s.len() {
        return false;
    }
    let mut i: usize = 0;
    while i < m
        invariant
            0 <= i <= m,
            m == p@.len() && m <= s@.len(),
            forall|k: int| 0 <= k < i ==> s@[k] == p@[k],
        decreases m - i,
    {
        if s[i] != p[i] {
            assert(s@.subrange(0, m as int)[i as int] != p@[i as int]);
            return false;
        }
        i += 1;
    }
    assert(s@.subrange(0, m as int) =~= p@);
    true
}

/// Tests whether `n` occurs somewhere in `s`.
pub fn contains(s: &Vec<u8>, n: &Vec<u8>) -> (r: bool)
    ensures
        r == contains_seq(s@, n@),
{
    let m = n.len();
    if m > s.len() {
        assert forall|i: int| !occurs_at(s@, n@, i) by {}
        return false;
    }
    if m == 0 {
        assert(s@.subrange(0, 0) =~= n@);
        assert(occurs_at(s@, n@, 0));
        return true;
    }
    let sl = s.len();
    let last = sl - m;
    let mut i: usize = 0;
    while i <= last
        invariant
            0 <= i <= last + 1,
            sl == s@.len(),
            last == sl - m,
            1 <= m,
            m == n@.len() && m <= sl,
            forall|k: int| 0 <= k < i ==> !occurs_at(s@, n@, k),
        decreases last + 1 - i,
    {
        let mut j: usize = 0;
        let mut hit = true;
        while j < m
            invariant
                0 <= j <= m,
                0 <= i <= last,
                sl == s@.len(),
                last == sl - m,
                m == n@.len() && m <= sl,
                hit ==> forall|k: int| 0 <= k < j ==> s@[i + k] == n@[k],
                !hit ==> !occurs_at(s@, n@, i as int),
            decreases m - j,
        {
            if s[i + j] != n[j] {
                proof {
                    if occurs_at(s@, n@, i as int) {
                        assert(s@.subrange(i as int, i + m)[j as int] == n@[j as int]);
                    }
                }
                hit = false;
                j = m;
            } else {
                j += 1;
            }
        }
        if hit {
            assert(s@.subrange(i as int, i + m) =~= n@);
            assert(occurs_at(s@, n@, i as int));
            return true;
        }
        i += 1;
    }
    assert forall|k: int| !occurs_at(s@, n@, k) by {
        if occurs_at(s@, n@, k) {
            assert(0 <= k <= last);
        }
    }
    false
}

/// The first of `lines` that begins with `p`, in order.
pub open spec fn spec_first_with_prefix(lines: Seq<Seq<u8>>, p: Seq<u8>) -> Option<Seq<u8>>
    decreases lines.len(),
{
    if lines.len() == 0 {
        None
    } else if has_prefix(lines[0], p) {
        Some(lines[0])
    } else {
        spec_first_with_prefix(lines.drop_first(), p)
    }
}

/// The first of `lines` in which `n` occurs, in order.
pub open spec fn spec_first_containing(lines: Seq<Seq<u8>>, n: Seq<u8>) -> Option<Seq<u8>>
    decreases lines.len(),
{
    if lines.len() == 0 {
        None
    } else if contains_seq(lines[0], n) {
        Some(lines[0])
    } else {
        spec_first_containing(lines.drop_first(), n)
    }
}

proof fn lemma_first_with_prefix_skip(lines: Seq<Seq<u8>>, p: Seq<u8>, i: int)
    requires
        0 <= i <= lines.len(),
        forall|k: int| 0 <= k < i ==> !has_prefix(lines[k], p),
    ensures
        spec_first_with_prefix(lines, p) == spec_first_with_prefix(lines.skip(i), p),
    decreases i,
{
    if i > 0 {
        assert(!has_prefix(lines[0], p));
        let t = lines.drop_first();
        assert(forall|k: int| 0 <= k < i - 1 ==> t[k] == lines[k + 1]);
        lemma_first_with_prefix_skip(t, p, i - 1);
        assert(t.skip(i - 1) =~= lines.skip(i));
    } else {
        assert(lines.skip(0) =~= lines);
    }
}

proof fn lemma_first_containing_skip(lines: Seq<Seq<u8>>, n: Seq<u8>, i: int)
    requires
        0 <= i <= lines.len(),
        forall|k: int| 0 <= k < i ==> !contains_seq(lines[k], n),
    ensures
        spec_first_containing(lines, n) == spec_first_containing(lines.skip(i), n),
    decreases i,
{
    if i > 0 {
        assert(!contains_seq(lines[0], n));
        let t = lines.drop_first();
        assert(forall|k: int| 0 <= k < i - 1 ==> t[k] == lines[k + 1]);
        lemma_first_containing_skip(t, n, i - 1);
        assert(t.skip(i - 1) =~= lines.skip(i));
    } else {
        assert(lines.skip(0) =~= lines);
    }
}

/// Finds the first line that begins with `p`.
pub fn first_line_with_prefix(lines: &Vec<Vec<u8>>, p: &Vec<u8>) -> (r: Option<Vec<u8>>)
    ensures
        match r {
            Some(line) => spec_first_with_prefix(lines.deep_view(), p@) == Some(line@),
            None => spec_first_with_prefix(lines.deep_view(), p@) is None,
        },
{
    let n = lines.len();
    let ghost lv = lines.deep_view();
    let mut i: usize = 0;
    while i < n
        invariant
            0 <= i <= n,
            n == lv.len(),
            lv == lines.deep_view(),
            forall|k: int| 0 <= k < i ==> !has_prefix(lv[k], p@),
        decreases n - i,
    {
        assert(lines@[i as int].deep_view() == lv[i as int]);
        assert(lines@[i as int].deep_view() =~= lines@[i as int]@);
        if starts_with(&lines[i], p) {
            proof {
                lemma_first_with_prefix_skip(lv, p@, i as int);
                assert(lv.skip(i as int)[0] == lv[i as int]);
            }
            let line = copy_bytes(&lines[i]);
            assert(line@ == lv[i as int]);
            return Some(line);
        }
        i += 1;
    }
    proof {
        lemma_first_with_prefix_skip(lv, p@, n as int);
        assert(lv.skip(n as int) =~= Seq::<Seq<u8>>::empty());
    }
    None
}

/// Finds the first line in which `needle` occurs.
pub fn first_line_containing(lines: &Vec<Vec<u8>>, needle: &Vec<u8>) -> (r: Option<Vec<u8>>)
    ensures
        match r {
            Some(line) => spec_first_containing(lines.deep_view(), needle@) == Some(line@),
            None => spec_first_containing(lines.deep_view(), needle@) is None,
        },
{
    let n = lines.len();
    let ghost lv = lines.deep_view();
    let mut i: usize = 0;
    while i < n
        invariant
            0 <= i <= n,
            n == lv.len(),
            lv == lines.deep_view(),
            forall|k: int| 0 <= k < i ==> !contains_seq(lv[k], needle@),
        decreases n - i,
    {
        assert(lines@[i as int].deep_view() == lv[i as int]);
        assert(lines@[i as int].deep_view() =~= lines@[i as int]@);
        if contains(&lines[i], needle) {
            proof {
                lemma_first_containing_skip(lv, needle@, i as int);
                assert(lv.skip(i as int)[0] == lv[i as int]);
            }
            let line = copy_bytes(&lines[i]);
            assert(line@ == lv[i as int]);
            return Some(line);
        }
        i += 1;
    }
    proof {
        lemma_first_containing_skip(lv, needle@, n as int);
        assert(lv.skip(n as int) =~= Seq::<Seq<u8>>::empty());
    }
    None
}

/// The text between the first `sep` byte and the next one (or the end):
/// the second field of a `key=value` line, `None` when no `sep` occurs.
pub open spec fn spec_second_field(s: Seq<u8>, sep: u8) -> Option<Seq<u8>> {
    let i = spec_find(s, sep);
    if i == s.len() {
        None
    } else {
        let rest = s.subrange(i + 1, s.len() as int);
        Some(rest.subrange(0, spec_find(rest, sep)))
    }
}

/// Extracts the second `sep`-separated field of `s`.
pub fn second_field(s: &Vec<u8>, sep: u8) -> (r: Option<Vec<u8>>)
    ensures
        match r {
            Some(f) => spec_second_field(s@, sep) == Some(f@),
            None => spec_second_field(s@, sep) is None,
        },
{
    let n = s.len();
    let i = find_byte(s, sep);
    proof {
        lemma_find_props(s@, sep);
    }
    if i == n {
        return None;
    }
    let ghost rest = s@.subrange(i + 1, n as int);
    let mut j: usize = i + 1;
    while j < n && s[j] != sep
        invariant
            i + 1 <= j <= n,
            n == s@.len(),
            i < n,
            forall|k: int| i + 1 <= k < j ==> s@[k] != sep,
        decreases n - j,
    {
        j += 1;
    }
    proof {
        assert(forall|k: int| 0 <= k < j - i - 1 ==> rest[k] == s@[k + i + 1] && rest[k] != sep);
        if j < n {
            assert(rest[j - i - 1] == s@[j as int]);
        }
        lemma_find_at(rest, sep, j - i - 1);
    }
    let mut f: Vec<u8> = Vec::new();
    let mut c: usize = i + 1;
    while c < j
        invariant
            i + 1 <= c <= j <= n,
            n == s@.len(),
            f@ =~= s@.subrange(i + 1, c as int),
        decreases j - c,
    {
        f.push(s[c]);
        assert(f@ =~= s@.subrange(i + 1, c + 1));
        c += 1;
    }
    proof {
        assert(rest.subrange(0, j - i - 1) =~= s@.subrange(i + 1, j as int));
        assert(f@ =~= rest.subrange(0, spec_find(rest, sep)));
    }
    Some(f)
}

/// Index of the last whitespace byte of `s`, or `-1` when there is none.
pub open spec fn spec_rfind_space(s: Seq<u8>) -> int
    decreases s.len(),
{
    if s.len() == 0 {
        -1
    } else if is_space(s[s.len() - 1]) {
        s.len() - 1
    } else {
        spec_rfind_space(s.drop_last())
    }
}

pub proof fn lemma_rfind_space_props(s: Seq<u8>)
    ensures
        -1 <= spec_rfind_space(s) < s.len(),
        spec_rfind_space(s) >= 0 ==> is_space(s[spec_rfind_space(s)]),
        forall|k: int| spec_rfind_space(s) < k < s.len() ==> !is_space(s[k]),
    decreases s.len(),
{
    if s.len() > 0 && !is_space(s[s.len() - 1]) {
        let t = s.drop_last();
        lemma_rfind_space_props(t);
        assert forall|k: int| spec_rfind_space(s) < k < s.len() implies !is_space(s[k]) by {
            if k < s.len() - 1 {
                assert(s[k] == t[k]);
            }
        }
    }
}

proof fn lemma_rfind_space_at(s: Seq<u8>, i: int)
    requires
        -1 <= i < s.len(),
        i >= 0 ==> is_space(s[i]),
        forall|k: int| i < k < s.len() ==> !is_space(s[k]),
    ensures
        spec_rfind_space(s) == i,
    decreases s.len(),
{
    if i == s.len() - 1 {
    } else {
        assert(!is_space(s[s.len() - 1]));
        let t = s.drop_last();
        assert(forall|k: int| i < k < t.len() ==> t[k] == s[k] && !is_space(t[k]));
        if i >= 0 {
            assert(t[i] == s[i]);
        }
        lemma_rfind_space_at(t, i);
    }
}

/// The last whitespace-separated token of `s`, or `None` when `s` is all
/// whitespace or empty.
pub open spec fn spec_last_token(s: Seq<u8>) -> Option<Seq<u8>> {
    let t = spec_trim_end(s);
    if t.len() == 0 {
        None
    } else {
        Some(t.subrange(spec_rfind_space(t) + 1, t.len() as int))
    }
}

/// Extracts the last whitespace-separated token of `s`.
pub fn last_token(s: &Vec<u8>) -> (r: Option<Vec<u8>>)
    ensures
        match r {
            Some(t) => spec_last_token(s@) == Some(t@),
            None => spec_last_token(s@) is None,
        },
{
    let n = s.len();
    let mut j: usize = n;
    while j > 0 && byte_is_space(s[j - 1])
        invariant
            0 <= j <= n,
            n == s@.len(),
            forall|k: int| j <= k < n ==> is_space(s@[k]),
        decreases j,
    {
        j -= 1;
    }
    proof {
        lemma_trim_end_at(s@, j as int);
    }
    if j == 0 {
        return None;
    }
    let ghost t = s@.subrange(0, j as int);
    let mut i: usize = j;
    while i > 0 && !byte_is_space(s[i - 1])
        invariant
            0 <= i <= j,
            n == s@.len(),
            j <= n,
            forall|k: int| i <= k < j ==> !is_space(s@[k]),
        decreases i,
    {
        i -= 1;
    }
    proof {
        assert(forall|k: int| i <= k < j ==> t[k] == s@[k] && !is_space(t[k]));
        if i > 0 {
            assert(t[i - 1] == s@[i - 1]);
        }
        lemma_rfind_space_at(t, i - 1);
    }
    let mut tok: Vec<u8> = Vec::new();
    let mut c: usize = i;
    while c < j
        invariant
            i <= c <= j <= n,
            n == s@.len(),
            tok@ =~= s@.subrange(i as int, c as int),
        decreases j - c,
    {
        tok.push(s[c]);
        assert(tok@ =~= s@.subrange(i as int, c + 1));
        c += 1;
    }
    proof {
        assert(t.subrange(i as int, t.len() as int) =~= s@.subrange(i as int, j as int));
        assert(tok@ =~= t.subrange(spec_rfind_space(t) + 1, t.len() as int));
    }
    Some(tok)
}

/// A trimmed-start sequence starts with a non-space byte.
pub proof fn lemma_trim_start_no_leading(s: Seq<u8>)
    ensures
        spec_trim_start(s).len() > 0 ==> !is_space(spec_trim_start(s)[0]),
        spec_trim_start(s).len() > 0 ==> spec_trim_start(s)[spec_trim_start(s).len() - 1] == s[s.len() - 1],
        spec_trim_start(s).len() <= s.len(),
    decreases s.len(),
{
    if s.len() > 0 && is_space(s[0]) {
        lemma_trim_start_no_leading(s.drop_first());
    }
}

/// A trimmed-end sequence ends with a non-space byte and keeps its first byte.
pub proof fn lemma_trim_end_no_trailing(s: Seq<u8>)
    ensures
        spec_trim_end(s).len() > 0 ==> !is_space(spec_trim_end(s)[spec_trim_end(s).len() - 1]),
        spec_trim_end(s).len() > 0 ==> spec_trim_end(s)[0] == s[0],
        spec_trim_end(s).len() <= s.len(),
    decreases s.len(),
{
    if s.len() > 0 && is_space(s[s.len() - 1]) {
        lemma_trim_end_no_trailing(s.drop_last());
    }
}

/// Trimming is idempotent.
pub proof fn lemma_trim_idempotent(s: Seq<u8>)
    ensures
        spec_trim(spec_trim(s)) == spec_trim(s),
{
    let a = spec_trim_start(s);
    let u = spec_trim_end(a);
    lemma_trim_start_no_leading(s);
    lemma_trim_end_no_trailing(a);
    if u.len() > 0 {
        assert(u[0] == a[0]);
        assert(!is_space(u[0]));
        assert(spec_trim_start(u) == u);
        assert(!is_space(u[u.len() - 1]));
        assert(spec_trim_end(u) == u);
    } else {
        assert(spec_trim_start(u) == u);
        assert(spec_trim_end(u) == u);
    }
}

/// A sequence without whitespace bytes is unchanged by trimming.
pub proof fn lemma_trim_spaceless(s: Seq<u8>)
    requires
        forall|k: int| 0 <= k < s.len() ==> !is_space(s[k]),
    ensures
        spec_trim(s) == s,
{
    if s.len() > 0 {
        assert(!is_space(s[0]));
        assert(!is_space(s[s.len() - 1]));
    }
    assert(spec_trim_start(s) == s);
    assert(spec_trim_end(s) == s);
}

/// The last token of a line has no whitespace in it, so trimming keeps it.
pub proof fn lemma_last_token_trimmed(s: Seq<u8>)
    ensures
        match spec_last_token(s) {
            Some(t) => spec_trim(t) == t,
            None => true,
        },
{
    let te = spec_trim_end(s);
    if te.len() > 0 {
        lemma_rfind_space_props(te);
        let tok = te.subrange(spec_rfind_space(te) + 1, te.len() as int);
        assert forall|k: int| 0 <= k < tok.len() implies !is_space(tok[k]) by {
            assert(tok[k] == te[k + spec_rfind_space(te) + 1]);
        }
        lemma_trim_spaceless(tok);
    }
}

} // verus!
