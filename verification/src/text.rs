//! Character-level string operations with specifications over `Seq<char>`.

use vstd::prelude::*;

verus! {

/// `p` is a prefix of `s`.
pub open spec fn has_prefix(s: Seq<char>, p: Seq<char>) -> bool {
    p.len() <= s.len() && s.subrange(0, p.len() as int) == p
}

/// `p` is a prefix of `s` exactly when `s` is `p` followed by something.
pub proof fn lemma_has_prefix_iff_concat(s: Seq<char>, p: Seq<char>)
    ensures
        has_prefix(s, p) <==> exists|rest: Seq<char>| s == p + rest,
{
    if has_prefix(s, p) {
        let rest = s.subrange(p.len() as int, s.len() as int);
        assert(s =~= p + rest);
    }
    if exists|rest: Seq<char>| s == p + rest {
        let rest = choose|rest: Seq<char>| s == p + rest;
        assert(s.subrange(0, p.len() as int) =~= p);
    }
}

/// An owned copy of a string.
pub fn copy_str(s: &str) -> (r: String)
    ensures
        r@ == s@,
{
    s.to_owned()
}

/// Returns whether the two strings hold the same characters.
pub fn str_eq(a: &str, b: &str) -> (r: bool)
    ensures
        r == (a@ == b@),
{
    let n = a.unicode_len();
    if n != b.unicode_len() {
        return false;
    }
    let mut i: usize = 0;
    while i < n
        invariant
            n == a@.len(),
            n == b@.len(),
            i <= n,
            forall|j: int| 0 <= j < i ==> a@[j] == b@[j],
        decreases n - i,
    {
        if a.get_char(i) != b.get_char(i) {
            return false;
        }
        i = i + 1;
    }
    assert(a@ =~= b@);
    true
}

/// Returns whether `p` is a prefix of `s`.
pub fn str_starts_with(s: &str, p: &str) -> (r: bool)
    ensures
        r == has_prefix(s@, p@),
{
    let n = p.unicode_len();
    if n > s.unicode_len() {
        return false;
    }
    let mut i: usize = 0;
    while i < n
        invariant
            n == p@.len(),
            n <= s@.len(),
            i <= n,
            forall|j: int| 0 <= j < i ==> s@[j] == p@[j],
        decreases n - i,
    {
        if s.get_char(i) != p.get_char(i) {
            assert(s@.subrange(0, n as int)[i as int] != p@[i as int]);
            return false;
        }
        i = i + 1;
    }
    assert(s@.subrange(0, n as int) =~= p@);
    true
}

/// `s` without the `"` characters at its start and at its end, as
/// `str::trim_matches('"')` leaves it.
pub open spec fn trim_quotes(s: Seq<char>) -> Seq<char>
    decreases s.len(),
{
    if s.len() > 0 && s[0] == '"' {
        trim_quotes(s.drop_first())
    } else if s.len() > 0 && s.last() == '"' {
        trim_quotes(s.drop_last())
    } else {
        s
    }
}

proof fn trim_quotes_bounds(s: Seq<char>) -> (r: (int, int))
    ensures
        0 <= r.0 <= r.1 <= s.len(),
        trim_quotes(s) == s.subrange(r.0, r.1),
        forall|j: int| 0 <= j < r.0 ==> s[j] == '"',
        forall|j: int| r.1 <= j < s.len() ==> s[j] == '"',
    decreases s.len(),
{
    if s.len() > 0 && s[0] == '"' {
        let t = s.drop_first();
        let (a, b) = trim_quotes_bounds(t);
        assert(t.subrange(a, b) =~= s.subrange(a + 1, b + 1));
        assert forall|j: int| 0 <= j < a + 1 implies s[j] == '"' by {
            if j > 0 {
                assert(s[j] == t[j - 1]);
            }
        }
        assert forall|j: int| b + 1 <= j < s.len() implies s[j] == '"' by {
            assert(s[j] == t[j - 1]);
        }
        (a + 1, b + 1)
    } else if s.len() > 0 && s.last() == '"' {
        let t = s.drop_last();
        let (a, b) = trim_quotes_bounds(t);
        assert(t.subrange(a, b) =~= s.subrange(a, b));
        assert forall|j: int| 0 <= j < a implies s[j] == '"' by {
            assert(s[j] == t[j]);
        }
        assert forall|j: int| b <= j < s.len() implies s[j] == '"' by {
            if j < t.len() {
                assert(s[j] == t[j]);
            }
        }
        (a, b)
    } else {
        assert(s.subrange(0, s.len() as int) =~= s);
        (0, s.len() as int)
    }
}

proof fn trim_quotes_ends(s: Seq<char>)
    ensures
        trim_quotes(s).len() > 0 ==> trim_quotes(s)[0] != '"' && trim_quotes(s).last() != '"',
    decreases s.len(),
{
    if s.len() > 0 && s[0] == '"' {
        trim_quotes_ends(s.drop_first());
    } else if s.len() > 0 && s.last() == '"' {
        trim_quotes_ends(s.drop_last());
    }
}

/// Trimming quotes takes off exactly the `"` characters at both ends: what is
/// left has no `"` at either end and is the part of `s` between a run of `"`
/// at its start and a run of `"` at its end.
pub proof fn lemma_trim_quotes_laws(s: Seq<char>)
    ensures
        trim_quotes(s).len() > 0 ==> trim_quotes(s)[0] != '"' && trim_quotes(s).last() != '"',
        exists|a: int, b: int| 0 <= a <= b <= s.len() && trim_quotes(s) == s.subrange(a, b)
            && (forall|j: int| 0 <= j < a ==> s[j] == '"')
            && (forall|j: int| b <= j < s.len() ==> s[j] == '"'),
{
    trim_quotes_ends(s);
    let (a, b) = trim_quotes_bounds(s);
    assert(0 <= a <= b <= s.len() && trim_quotes(s) == s.subrange(a, b)
        && (forall|j: int| 0 <= j < a ==> s[j] == '"')
        && (forall|j: int| b <= j < s.len() ==> s[j] == '"'));
}

proof fn lemma_trim_leading(s: Seq<char>, k: int)
    requires
        0 <= k <= s.len(),
        forall|j: int| 0 <= j < k ==> s[j] == '"',
    ensures
        trim_quotes(s) == trim_quotes(s.subrange(k, s.len() as int)),
    decreases k,
{
    if k == 0 {
        assert(s.subrange(0, s.len() as int) =~= s);
    } else {
        let t = s.drop_first();
        assert forall|j: int| 0 <= j < k - 1 implies t[j] == '"' by {
            assert(t[j] == s[j + 1]);
        }
        lemma_trim_leading(t, k - 1);
        assert(t.subrange(k - 1, t.len() as int) =~= s.subrange(k, s.len() as int));
    }
}

proof fn lemma_trim_trailing(t: Seq<char>, m: int)
    requires
        1 <= m <= t.len(),
        t[0] != '"',
        t[m - 1] != '"',
        forall|j: int| m <= j < t.len() ==> t[j] == '"',
    ensures
        trim_quotes(t) == t.subrange(0, m),
    decreases t.len() - m,
{
    if m == t.len() {
        assert(t.subrange(0, m) =~= t);
    } else {
        let u = t.drop_last();
        assert(u[0] == t[0]);
        assert(u[m - 1] == t[m - 1]);
        lemma_trim_trailing(u, m);
        assert(u.subrange(0, m) =~= t.subrange(0, m));
    }
}

/// `s` with the `"` characters removed from both ends.
pub fn trim_quotes_str(s: &str) -> (r: &str)
    ensures
        r@ == trim_quotes(s@),
{
    let n = s.unicode_len();
    let mut lo: usize = 0;
    while lo < n && s.get_char(lo) == '"'
        invariant
            n == s@.len(),
            lo <= n,
            forall|j: int| 0 <= j < lo ==> s@[j] == '"',
        decreases n - lo,
    {
        lo = lo + 1;
    }
    proof {
        lemma_trim_leading(s@, lo as int);
    }
    if lo == n {
        let r = s.substring_char(n, n);
        proof {
            assert(s@.subrange(n as int, n as int) =~= Seq::<char>::empty());
            assert(trim_quotes(Seq::<char>::empty()) == Seq::<char>::empty());
        }
        return r;
    }
    let mut hi: usize = n;
    while hi > lo + 1 && s.get_char(hi - 1) == '"'
        invariant
            n == s@.len(),
            lo < n,
            lo < hi <= n,
            forall|j: int| hi <= j < n ==> s@[j] == '"',
        decreases hi,
    {
        hi = hi - 1;
    }
    proof {
        let t = s@.subrange(lo as int, n as int);
        assert(t[0] == s@[lo as int]);
        assert(t[hi - lo - 1] == s@[hi - 1]);
        assert forall|j: int| hi - lo <= j < t.len() implies t[j] == '"' by {
            assert(t[j] == s@[j + lo]);
        }
        lemma_trim_trailing(t, hi - lo);
        assert(t.subrange(0, hi - lo) =~= s@.subrange(lo as int, hi as int));
    }
    s.substring_char(lo, hi)
}

/// The code of `c` with ASCII upper-case letters turned to lower case.
pub open spec fn ascii_lower_code(c: char) -> u32 {
    let x = c as u32;
    if 65 <= x <= 90 {
        (x + 32) as u32
    } else {
        x
    }
}

/// The two strings are equal when ASCII letters are compared without case.
pub open spec fn eq_ignore_ascii_case(a: Seq<char>, b: Seq<char>) -> bool {
    a.len() == b.len() && forall|i: int| 0 <= i < a.len() ==> ascii_lower_code(#[trigger] a[i]) == ascii_lower_code(b[i])
}

/// What comparing without ASCII case means: a string matches itself, the
/// match is symmetric, turning an uppercase ASCII letter into its lowercase
/// form keeps a match, strings of different lengths never match, and a
/// position where the two strings hold different characters (by code) that
/// are not ASCII letters breaks the match.
pub proof fn lemma_eq_ignore_ascii_case_laws(a: Seq<char>, b: Seq<char>, i: int)
    ensures
        eq_ignore_ascii_case(a, a),
        eq_ignore_ascii_case(a, b) == eq_ignore_ascii_case(b, a),
        0 <= i < a.len() && 65 <= (a[i] as u32) <= 90
            ==> eq_ignore_ascii_case(a, a.update(i, ((a[i] as u32) + 32) as char)),
        a.len() != b.len() ==> !eq_ignore_ascii_case(a, b),
        0 <= i < a.len() && i < b.len() && (a[i] as u32) != (b[i] as u32)
            && !(65 <= (a[i] as u32) <= 90 || 97 <= (a[i] as u32) <= 122)
            && !(65 <= (b[i] as u32) <= 90 || 97 <= (b[i] as u32) <= 122)
            ==> !eq_ignore_ascii_case(a, b),
{
    if 0 <= i < a.len() && 65 <= (a[i] as u32) <= 90 {
        let c = ((a[i] as u32) + 32) as char;
        let u = a.update(i, c);
        assert(c as u32 == (a[i] as u32) + 32);
        assert forall|j: int| 0 <= j < a.len() implies ascii_lower_code(#[trigger] a[j]) == ascii_lower_code(u[j]) by {
            if j == i {
                assert(u[j] == c);
            }
        }
    }
    if 0 <= i < a.len() && i < b.len() && (a[i] as u32) != (b[i] as u32)
        && !(65 <= (a[i] as u32) <= 90 || 97 <= (a[i] as u32) <= 122)
        && !(65 <= (b[i] as u32) <= 90 || 97 <= (b[i] as u32) <= 122) {
        assert(ascii_lower_code(a[i]) == a[i] as u32);
        assert(ascii_lower_code(b[i]) == b[i] as u32);
    }
}

fn lower_code(c: char) -> (r: u32)
    ensures
        r == ascii_lower_code(c),
{
    let x = c as u32;
    if 65 <= x && x <= 90 {
        x + 32
    } else {
        x
    }
}

/// Compares two strings, ASCII letters without case.
pub fn str_eq_ignore_ascii_case(a: &str, b: &str) -> (r: bool)
    ensures
        r == eq_ignore_ascii_case(a@, b@),
{
    let n = a.unicode_len();
    if n != b.unicode_len() {
        return false;
    }
    let mut i: usize = 0;
    while i < n
        invariant
            n == a@.len(),
            n == b@.len(),
            i <= n,
            forall|j: int| 0 <= j < i ==> ascii_lower_code(#[trigger] a@[j]) == ascii_lower_code(b@[j]),
        decreases n - i,
    {
        if lower_code(a.get_char(i)) != lower_code(b.get_char(i)) {
            return false;
        }
        i = i + 1;
    }
    true
}

/// `s` without the copies of `c` at its start.
pub open spec fn trim_start_char(s: Seq<char>, c: char) -> Seq<char>
    decreases s.len(),
{
    if s.len() > 0 && s[0] == c {
        trim_start_char(s.drop_first(), c)
    } else {
        s
    }
}

/// `s` without the copies of `c` at its end.
pub open spec fn trim_end_char(s: Seq<char>, c: char) -> Seq<char>
    decreases s.len(),
{
    if s.len() > 0 && s.last() == c {
        trim_end_char(s.drop_last(), c)
    } else {
        s
    }
}

proof fn lemma_trim_start(s: Seq<char>, c: char, k: int)
    requires
        0 <= k <= s.len(),
        forall|j: int| 0 <= j < k ==> s[j] == c,
        k < s.len() ==> s[k] != c,
    ensures
        trim_start_char(s, c) == s.subrange(k, s.len() as int),
    decreases k,
{
    if k == 0 {
        assert(s.subrange(0, s.len() as int) =~= s);
    } else {
        let t = s.drop_first();
        assert forall|j: int| 0 <= j < k - 1 implies t[j] == c by {
            assert(t[j] == s[j + 1]);
        }
        if k < s.len() {
            assert(t[k - 1] == s[k]);
        }
        lemma_trim_start(t, c, k - 1);
        assert(t.subrange(k - 1, t.len() as int) =~= s.subrange(k, s.len() as int));
    }
}

proof fn lemma_trim_end(s: Seq<char>, c: char, m: int)
    requires
        0 <= m <= s.len(),
        forall|j: int| m <= j < s.len() ==> s[j] == c,
        m > 0 ==> s[m - 1] != c,
    ensures
        trim_end_char(s, c) == s.subrange(0, m),
    decreases s.len() - m,
{
    if m == s.len() {
        assert(s.subrange(0, m) =~= s);
    } else {
        let u = s.drop_last();
        if m > 0 {
            assert(u[m - 1] == s[m - 1]);
        }
        lemma_trim_end(u, c, m);
        assert(u.subrange(0, m) =~= s.subrange(0, m));
    }
}

/// `s` without the copies of `c` at its start, as `str::trim_start_matches`.
pub fn trim_start_str(s: &str, c: char) -> (r: &str)
    ensures
        r@ == trim_start_char(s@, c),
{
    let n = s.unicode_len();
    let mut k: usize = 0;
    while k < n && s.get_char(k) == c
        invariant
            n == s@.len(),
            k <= n,
            forall|j: int| 0 <= j < k ==> s@[j] == c,
        decreases n - k,
    {
        k = k + 1;
    }
    proof {
        lemma_trim_start(s@, c, k as int);
    }
    s.substring_char(k, n)
}

/// `s` without the copies of `c` at its end, as `str::trim_end_matches`.
pub fn trim_end_str(s: &str, c: char) -> (r: &str)
    ensures
        r@ == trim_end_char(s@, c),
{
    let n = s.unicode_len();
    let mut m: usize = n;
    while m > 0 && s.get_char(m - 1) == c
        invariant
            n == s@.len(),
            m <= n,
            forall|j: int| m <= j < n ==> s@[j] == c,
        decreases m,
    {
        m = m - 1;
    }
    proof {
        lemma_trim_end(s@, c, m as int);
    }
    s.substring_char(0, m)
}

} // verus!
