//! Verified text utilities over character sequences.
//!
//! Every helper here is specified against a direct recursive definition
//! over `Seq<char>`; whitespace means ASCII whitespace throughout.

use vstd::prelude::*;

verus! {

// ---------------------------------------------------------------------------
// basic predicates
// ---------------------------------------------------------------------------

/// ASCII whitespace, the only whitespace this library's inputs hold.
pub open spec fn is_ws(c: char) -> bool {
    c == ' ' || c == '\t' || c == '\n' || c == '\r'
}

pub fn char_is_ws(c: char) -> (r: bool)
    ensures
        r == is_ws(c),
{
    c == ' ' || c == '\t' || c == '\n' || c == '\r'
}

/// The pattern `pat` occurs in `s` at position `i`.
pub open spec fn matches_at(s: Seq<char>, pat: Seq<char>, i: int) -> bool {
    0 <= i && i + pat.len() <= s.len() && s.subrange(i, i + pat.len() as int) == pat
}

/// Index of the first occurrence of `pat` in `s`, or -1.
pub open spec fn find_str(s: Seq<char>, pat: Seq<char>) -> int
    decreases s.len(),
{
    if pat.len() == 0 {
        0
    } else if s.len() < pat.len() {
        -1
    } else if s.subrange(0, pat.len() as int) == pat {
        0
    } else {
        let r = find_str(s.skip(1), pat);
        if r < 0 {
            -1
        } else {
            r + 1
        }
    }
}

/// A match of `pat` in `s` at position `k + 1` is a match in `s.skip(1)` at `k`.
pub proof fn lemma_matches_shift(s: Seq<char>, pat: Seq<char>, k: int)
    requires
        k >= 0,
        s.len() >= 1,
    ensures
        matches_at(s, pat, k + 1) == matches_at(s.skip(1), pat, k),
{
    if k + 1 + pat.len() <= s.len() {
        assert(s.skip(1).subrange(k, k + pat.len() as int) =~= s.subrange(
            k + 1,
            k + 1 + pat.len() as int,
        ));
    }
}

/// `find_str` returns the least position of a match, or -1 when none exists.
pub proof fn lemma_find_str(s: Seq<char>, pat: Seq<char>)
    ensures
        find_str(s, pat) == -1 ==> forall|i: int| !matches_at(s, pat, i),
        find_str(s, pat) >= 0 ==> matches_at(s, pat, find_str(s, pat)) && (forall|i: int|
            0 <= i < find_str(s, pat) ==> !matches_at(s, pat, i)),
    decreases s.len(),
{
    if pat.len() == 0 {
        assert(s.subrange(0, 0) =~= pat);
        assert(matches_at(s, pat, 0));
    } else if s.len() < pat.len() {
        assert forall|i: int| !matches_at(s, pat, i) by {}
    } else if s.subrange(0, pat.len() as int) == pat {
        assert(matches_at(s, pat, 0));
    } else {
        lemma_find_str(s.skip(1), pat);
        let r = find_str(s.skip(1), pat);
        if r < 0 {
            assert forall|i: int| !matches_at(s, pat, i) by {
                if 1 <= i {
                    lemma_matches_shift(s, pat, i - 1);
                    assert(!matches_at(s.skip(1), pat, i - 1));
                }
            }
        } else {
            lemma_matches_shift(s, pat, r);
            assert(matches_at(s, pat, r + 1));
            assert forall|i: int| 0 <= i < r + 1 implies !matches_at(s, pat, i) by {
                if 1 <= i {
                    lemma_matches_shift(s, pat, i - 1);
                    assert(!matches_at(s.skip(1), pat, i - 1));
                }
            }
        }
    }
}

/// Exec search for `pat` in `s`, by character positions.
pub fn str_find(s: &str, pat: &str) -> (r: Option<usize>)
    ensures
        match r {
            Some(i) => find_str(s@, pat@) == i as int,
            None => find_str(s@, pat@) == -1,
        },
{
    proof {
        lemma_find_str(s@, pat@);
    }
    let n = s.unicode_len();
    let m = pat.unicode_len();
    if m == 0 {
        return Some(0);
    }
    if m > n {
        assert(forall|i: int| !matches_at(s@, pat@, i));
        return None;
    }
    let mut i: usize = 0;
    while i <= n - m
        invariant
            0 <= i <= n - m + 1,
            0 < m <= n,
            n == s@.len(),
            m == pat@.len(),
            forall|k: int| 0 <= k < i ==> !matches_at(s@, pat@, k),
        decreases n - i,
    {
        let mut j: usize = 0;
        let mut ok = true;
        while j < m && ok
            invariant
                0 <= j <= m,
                i + m <= n,
                n == s@.len(),
                m == pat@.len(),
                ok ==> forall|t: int| 0 <= t < j ==> s@[i + t] == pat@[t],
                !ok ==> !matches_at(s@, pat@, i as int),
            decreases m - j,
        {
            let a = s.get_char(i + j);
            let b = pat.get_char(j);
            if a != b {
                proof {
                    if matches_at(s@, pat@, i as int) {
                        assert(s@.subrange(i as int, i + m as int)[j as int] == s@[i + j]);
                    }
                }
                ok = false;
            }
            j = j + 1;
        }
        if ok {
            proof {
                assert forall|t: int| 0 <= t < m implies s@.subrange(i as int, i + m as int)[t]
                    == pat@[t] by {
                    assert(s@.subrange(i as int, i + m as int)[t] == s@[i + t]);
                }
                assert(s@.subrange(i as int, i + m as int) =~= pat@);
                assert(matches_at(s@, pat@, i as int));
                lemma_find_str(s@, pat@);
            }
            return Some(i);
        }
        i = i + 1;
    }
    proof {
        assert forall|k: int| !matches_at(s@, pat@, k) by {
            if 0 <= k && k + m <= n {
                assert(!matches_at(s@, pat@, k));
            }
        }
        lemma_find_str(s@, pat@);
    }
    None
}

/// Whether `pat` occurs anywhere in `s`.
pub fn str_contains(s: &str, pat: &str) -> (r: bool)
    ensures
        r == (find_str(s@, pat@) >= 0),
{
    match str_find(s, pat) {
        Some(_) => true,
        None => false,
    }
}

/// Whether the character sequence holds `c`.
pub fn str_contains_char(s: &str, c: char) -> (r: bool)
    ensures
        r == s@.contains(c),
{
    let n = s.unicode_len();
    let mut i: usize = 0;
    while i < n
        invariant
            i <= n,
            n == s@.len(),
            forall|j: int| 0 <= j < i ==> s@[j] != c,
        decreases n - i,
    {
        if s.get_char(i) == c {
            return true;
        }
        i = i + 1;
    }
    assert(!s@.contains(c));
    false
}

// ---------------------------------------------------------------------------
// prefix / suffix
// ---------------------------------------------------------------------------

pub open spec fn starts_with(s: Seq<char>, p: Seq<char>) -> bool {
    p.len() <= s.len() && s.subrange(0, p.len() as int) == p
}

pub open spec fn ends_with(s: Seq<char>, p: Seq<char>) -> bool {
    p.len() <= s.len() && s.subrange(s.len() - p.len(), s.len() as int) == p
}

pub fn str_starts_with(s: &str, p: &str) -> (r: bool)
    ensures
        r == starts_with(s@, p@),
{
    let n = s.unicode_len();
    let m = p.unicode_len();
    if m > n {
        return false;
    }
    let mut j: usize = 0;
    while j < m
        invariant
            0 <= j <= m,
            m <= n,
            n == s@.len(),
            m == p@.len(),
            forall|t: int| 0 <= t < j ==> s@[t] == p@[t],
        decreases m - j,
    {
        if s.get_char(j) != p.get_char(j) {
            proof {
                assert(s@.subrange(0, m as int)[j as int] == s@[j as int]);
            }
            return false;
        }
        j = j + 1;
    }
    proof {
        assert(s@.subrange(0, m as int) =~= p@);
    }
    true
}

pub fn str_ends_with(s: &str, p: &str) -> (r: bool)
    ensures
        r == ends_with(s@, p@),
{
    let n = s.unicode_len();
    let m = p.unicode_len();
    if m > n {
        return false;
    }
    let mut j: usize = 0;
    while j < m
        invariant
            0 <= j <= m,
            m <= n,
            n == s@.len(),
            m == p@.len(),
            forall|t: int| 0 <= t < j ==> s@[n - m + t] == p@[t],
        decreases m - j,
    {
        if s.get_char(n - m + j) != p.get_char(j) {
            proof {
                assert(s@.subrange(n - m, n as int)[j as int] == s@[n - m + j]);
            }
            return false;
        }
        j = j + 1;
    }
    proof {
        assert(s@.subrange(n - m, n as int) =~= p@);
    }
    true
}

/// `s` without the prefix `p`, when `p` is a prefix; `None` otherwise.
pub fn str_strip_prefix(s: &str, p: &str) -> (r: Option<String>)
    ensures
        starts_with(s@, p@) ==> r is Some && r->0@ == s@.skip(p@.len() as int),
        !starts_with(s@, p@) ==> r is None,
{
    if str_starts_with(s, p) {
        let n = s.unicode_len();
        let m = p.unicode_len();
        let rest = s.substring_char(m, n);
        proof {
            assert(rest@ =~= s@.skip(p@.len() as int));
        }
        Some(rest.to_owned())
    } else {
        None
    }
}

/// `s` without the suffix `p`, when `p` is a suffix; `None` otherwise.
pub fn str_strip_suffix(s: &str, p: &str) -> (r: Option<String>)
    ensures
        ends_with(s@, p@) ==> r is Some && r->0@ == s@.take(s@.len() - p@.len()),
        !ends_with(s@, p@) ==> r is None,
{
    if str_ends_with(s, p) {
        let n = s.unicode_len();
        let m = p.unicode_len();
        let rest = s.substring_char(0, n - m);
        proof {
            assert(rest@ =~= s@.take(s@.len() - p@.len()));
        }
        Some(rest.to_owned())
    } else {
        None
    }
}

// ---------------------------------------------------------------------------
// trim
// ---------------------------------------------------------------------------

/// Number of leading ASCII-whitespace characters.
pub open spec fn leading_ws(s: Seq<char>) -> int
    decreases s.len(),
{
    if s.len() == 0 {
        0
    } else if !is_ws(s[0]) {
        0
    } else {
        1 + leading_ws(s.skip(1))
    }
}

pub proof fn lemma_leading_ws(s: Seq<char>)
    ensures
        0 <= leading_ws(s) <= s.len(),
        forall|j: int| 0 <= j < leading_ws(s) ==> is_ws(s[j]),
        leading_ws(s) < s.len() ==> !is_ws(s[leading_ws(s)]),
    decreases s.len(),
{
    if s.len() == 0 {
    } else if !is_ws(s[0]) {
    } else {
        lemma_leading_ws(s.skip(1));
        assert forall|j: int| 0 <= j < leading_ws(s) implies is_ws(s[j]) by {
            if j >= 1 {
                assert(is_ws(s.skip(1)[j - 1]));
            }
        }
    }
}

/// Number of trailing ASCII-whitespace characters.
pub open spec fn trailing_ws(s: Seq<char>) -> int
    decreases s.len(),
{
    if s.len() == 0 {
        0
    } else if !is_ws(s[s.len() - 1]) {
        0
    } else {
        1 + trailing_ws(s.take(s.len() - 1))
    }
}

pub proof fn lemma_trailing_ws(s: Seq<char>)
    ensures
        0 <= trailing_ws(s) <= s.len(),
        forall|j: int| s.len() - trailing_ws(s) <= j < s.len() ==> is_ws(s[j]),
        trailing_ws(s) < s.len() ==> !is_ws(s[s.len() - trailing_ws(s) - 1]),
    decreases s.len(),
{
    if s.len() == 0 {
    } else if !is_ws(s[s.len() - 1]) {
    } else {
        lemma_trailing_ws(s.take(s.len() - 1));
        assert forall|j: int| s.len() - trailing_ws(s) <= j < s.len() implies is_ws(s[j]) by {
            if j < s.len() - 1 {
                assert(is_ws(s.take(s.len() - 1)[j]));
            }
        }
    }
}

/// `s` with leading and trailing ASCII whitespace removed.
pub open spec fn trim_spec(s: Seq<char>) -> Seq<char> {
    let a = leading_ws(s);
    if a == s.len() {
        Seq::<char>::empty()
    } else {
        let b = trailing_ws(s);
        s.subrange(a, s.len() - b)
    }
}

/// `s` with trailing ASCII whitespace removed.
pub open spec fn trim_end_spec(s: Seq<char>) -> Seq<char> {
    s.take(s.len() - trailing_ws(s))
}

pub fn str_trim(s: &str) -> (r: String)
    ensures
        r@ == trim_spec(s@),
{
    proof {
        lemma_leading_ws(s@);
        lemma_trailing_ws(s@);
    }
    let n = s.unicode_len();
    let mut a: usize = 0;
    while a < n && char_is_ws(s.get_char(a))
        invariant
            0 <= a <= n,
            n == s@.len(),
            forall|j: int| 0 <= j < a ==> is_ws(s@[j]),
        decreases n - a,
    {
        a = a + 1;
    }
    if a == n {
        proof {
            if leading_ws(s@) < s@.len() {
                assert(is_ws(s@[leading_ws(s@)]));
            }
        }
        return String::new();
    }
    proof {
        // a is the first non-whitespace position, so a == leading_ws(s@)
        if leading_ws(s@) < a {
            assert(is_ws(s@[leading_ws(s@)]));
        }
        if a < leading_ws(s@) {
            assert(is_ws(s@[a as int]));
        }
    }
    let mut b: usize = n;
    while b > 0 && char_is_ws(s.get_char(b - 1))
        invariant
            0 <= b <= n,
            n == s@.len(),
            a < n,
            !is_ws(s@[a as int]),
            forall|j: int| b <= j < n ==> is_ws(s@[j]),
            b > a,
        decreases b,
    {
        b = b - 1;
    }
    proof {
        lemma_trailing_ws(s@);
        if n - trailing_ws(s@) < b {
            assert(is_ws(s@[b - 1]));
        }
        if b < n - trailing_ws(s@) {
            assert(is_ws(s@[b as int]));
        }
        lemma_leading_ws(s@);
        if leading_ws(s@) < a {
            assert(is_ws(s@[leading_ws(s@)]));
        }
        if a < leading_ws(s@) {
            assert(is_ws(s@[a as int]));
        }
    }
    let out = s.substring_char(a, b);
    proof {
        assert(out@ =~= trim_spec(s@));
    }
    out.to_owned()
}

pub fn str_trim_end(s: &str) -> (r: String)
    ensures
        r@ == trim_end_spec(s@),
{
    proof {
        lemma_trailing_ws(s@);
    }
    let n = s.unicode_len();
    let mut b: usize = n;
    while b > 0 && char_is_ws(s.get_char(b - 1))
        invariant
            0 <= b <= n,
            n == s@.len(),
            forall|j: int| b <= j < n ==> is_ws(s@[j]),
        decreases b,
    {
        b = b - 1;
    }
    proof {
        if n - trailing_ws(s@) < b {
            assert(is_ws(s@[b - 1]));
        }
        if b < n - trailing_ws(s@) {
            assert(is_ws(s@[b as int]));
        }
    }
    let out = s.substring_char(0, b);
    proof {
        assert(out@ =~= trim_end_spec(s@));
    }
    out.to_owned()
}

// ---------------------------------------------------------------------------
// replace
// ---------------------------------------------------------------------------

/// Leftmost, non-overlapping replacement of `from` by `to`, as `str::replace`
/// does it for a non-empty pattern.
pub open spec fn replace_spec(s: Seq<char>, from: Seq<char>, to: Seq<char>) -> Seq<char>
    decreases s.len(),
    when from.len() > 0
{
    if s.len() < from.len() {
        s
    } else if s.subrange(0, from.len() as int) == from {
        to + replace_spec(s.skip(from.len() as int), from, to)
    } else {
        seq![s[0]] + replace_spec(s.skip(1), from, to)
    }
}

pub fn str_replace(s: &str, from: &str, to: &str) -> (r: String)
    requires
        from@.len() > 0,
    ensures
        r@ == replace_spec(s@, from@, to@),
{
    let n = s.unicode_len();
    let m = from.unicode_len();
    let mut out = String::new();
    let mut i: usize = 0;
    proof {
        assert(s@.skip(0) =~= s@);
        assert(Seq::<char>::empty() + replace_spec(s@, from@, to@) =~= replace_spec(
            s@,
            from@,
            to@,
        ));
    }
    while i < n
        invariant
            0 <= i <= n,
            n == s@.len(),
            m == from@.len(),
            m > 0,
            out@ + replace_spec(s@.skip(i as int), from@, to@) == replace_spec(s@, from@, to@),
        decreases n - i,
    {
        let ghost rest = s@.skip(i as int);
        // does `from` match at position i?
        let mut j: usize = 0;
        let mut here = m <= n - i;
        let mut mismatch = false;
        while j < m && here
            invariant
                0 <= j <= m,
                0 <= i <= n,
                n == s@.len(),
                m == from@.len(),
                here ==> i + m <= n,
                here ==> forall|t: int| 0 <= t < j ==> s@[i + t] == from@[t],
                mismatch ==> i + m <= n && exists|t: int|
                    0 <= t < m && #[trigger] s@[i + t] != from@[t],
                !here && !mismatch ==> i + m > n,
            decreases m - j,
        {
            if s.get_char(i + j) != from.get_char(j) {
                here = false;
                mismatch = true;
            }
            j = j + 1;
        }
        if here {
            proof {
                assert forall|t: int| 0 <= t < m implies rest.subrange(0, m as int)[t]
                    == from@[t] by {
                    assert(rest.subrange(0, m as int)[t] == rest[t]);
                    assert(rest[t] == s@[i + t]);
                }
                assert(rest.subrange(0, m as int) =~= from@);
                assert(rest.skip(m as int) =~= s@.skip(i + m as int));
                assert(replace_spec(rest, from@, to@) == to@ + replace_spec(
                    s@.skip(i + m as int),
                    from@,
                    to@,
                ));
            }
            out.append(to);
            i = i + m;
        } else {
            proof {
                if rest.len() >= m && rest.subrange(0, m as int) == from@ {
                    // a mismatch was seen, yet the pattern matches: impossible
                    let j0 = choose|t: int| 0 <= t < m && #[trigger] s@[i + t] != from@[t];
                    assert(rest.subrange(0, m as int)[j0] == rest[j0]);
                    assert(rest[j0] == s@[i + j0]);
                    assert(false);
                }
                if rest.len() < m {
                    // too little text left for a match: the tail is kept as it is
                    assert(replace_spec(rest, from@, to@) == rest);
                    assert(replace_spec(rest.skip(1), from@, to@) == rest.skip(1));
                    assert(seq![rest[0]] + rest.skip(1) =~= rest);
                } else {
                    assert(replace_spec(rest, from@, to@) == seq![rest[0]] + replace_spec(
                        rest.skip(1),
                        from@,
                        to@,
                    ));
                }
                assert(rest.skip(1) =~= s@.skip(i + 1));
                assert(rest[0] == s@[i as int]);
            }
            let piece = s.substring_char(i, i + 1);
            proof {
                assert(piece@ =~= seq![s@[i as int]]);
            }
            out.append(piece);
            i = i + 1;
        }
    }
    proof {
        assert(s@.skip(n as int) =~= Seq::<char>::empty());
        assert(replace_spec(s@.skip(n as int), from@, to@) =~= Seq::<char>::empty());
        assert(out@ =~= replace_spec(s@, from@, to@));
    }
    out
}

// ---------------------------------------------------------------------------
// lines
// ---------------------------------------------------------------------------

/// One line of text: the segment before a newline, with a carriage return
/// before the newline dropped, as `str::lines` does it.
pub open spec fn drop_cr(s: Seq<char>) -> Seq<char> {
    if s.len() > 0 && s[s.len() - 1] == '\r' {
        s.take(s.len() - 1)
    } else {
        s
    }
}

/// The lines of `s`, split at `'\n'`; a final newline closes the last line
/// rather than opening an empty one.
pub open spec fn lines_spec(s: Seq<char>) -> Seq<Seq<char>>
    decreases s.len(),
{
    if s.len() == 0 {
        Seq::<Seq<char>>::empty()
    } else {
        let i = find_str(s, seq!['\n']);
        if i < 0 || i >= s.len() {
            seq![s]
        } else {
            seq![drop_cr(s.take(i))] + lines_spec(s.skip(i + 1))
        }
    }
}

pub fn str_lines(s: &str) -> (r: Vec<String>)
    ensures
        r@.map_values(|x: String| x@) == lines_spec(s@),
{
    let n = s.unicode_len();
    let mut out: Vec<String> = Vec::new();
    let mut i: usize = 0;
    proof {
        assert(s@.skip(0) =~= s@);
        assert(out@.map_values(|x: String| x@) + lines_spec(s@) =~= lines_spec(s@));
    }
    while i < n
        invariant
            0 <= i <= n,
            n == s@.len(),
            out@.map_values(|x: String| x@) + lines_spec(s@.skip(i as int)) == lines_spec(s@),
        decreases n - i,
    {
        let ghost rest = s@.skip(i as int);
        // find the next newline at or after i
        let mut j: usize = i;
        while j < n && s.get_char(j) != '\n'
            invariant
                i <= j <= n,
                n == s@.len(),
                forall|t: int| i <= t < j ==> s@[t] != '\n',
            decreases n - j,
        {
            j = j + 1;
        }
        proof {
            lemma_find_str(rest, seq!['\n']);
            assert forall|t: int| 0 <= t < j - i implies !matches_at(rest, seq!['\n'], t) by {
                assert(rest[t] == s@[i + t]);
                if matches_at(rest, seq!['\n'], t) {
                    assert(rest.subrange(t, t + 1)[0] == rest[t]);
                }
            }
            if j < n {
                assert(rest.subrange(j - i, j - i + 1) =~= seq!['\n']) by {
                    assert(rest[j - i] == s@[j as int]);
                }
                assert(matches_at(rest, seq!['\n'], j - i));
                assert(find_str(rest, seq!['\n']) == j - i);
            } else {
                assert forall|t: int| !matches_at(rest, seq!['\n'], t) by {
                    if 0 <= t && t + 1 <= rest.len() {
                        assert(rest.subrange(t, t + 1)[0] == rest[t]);
                        assert(rest[t] == s@[i + t]);
                    }
                }
                assert(find_str(rest, seq!['\n']) == -1);
            }
        }
        if j < n {
            // line is s[i..j], minus a trailing '\r'
            let end = if j > i && s.get_char(j - 1) == '\r' {
                j - 1
            } else {
                j
            };
            let line = s.substring_char(i, end);
            proof {
                assert(rest.take(j - i) =~= s@.subrange(i as int, j as int));
                assert(line@ =~= drop_cr(rest.take(j - i))) by {
                    if j > i && s@[j - 1] == '\r' {
                        assert(rest.take(j - i)[j - i - 1] == s@[j - 1]);
                        assert(line@ =~= rest.take(j - i).take(j - i - 1));
                    } else {
                        if rest.take(j - i).len() > 0 && rest.take(j - i)[j - i - 1] == '\r' {
                            assert(s@[j - 1] == '\r');
                        }
                    }
                }
                assert(rest.skip(j - i + 1) =~= s@.skip(j + 1));
            }
            out.push(line.to_owned());
            i = j + 1;
            proof {
                assert(out@.map_values(|x: String| x@) + lines_spec(s@.skip(i as int))
                    =~= lines_spec(s@));
            }
        } else {
            let line = s.substring_char(i, n);
            proof {
                assert(line@ =~= rest);
                assert(lines_spec(rest) == seq![rest]);
            }
            out.push(line.to_owned());
            i = n;
            proof {
                assert(s@.skip(n as int) =~= Seq::<char>::empty());
                assert(out@.map_values(|x: String| x@) + lines_spec(s@.skip(i as int))
                    =~= lines_spec(s@));
            }
        }
    }
    proof {
        assert(s@.skip(n as int) =~= Seq::<char>::empty());
        assert(out@.map_values(|x: String| x@) =~= lines_spec(s@));
    }
    out
}

// ---------------------------------------------------------------------------
// repeat and join
// ---------------------------------------------------------------------------

/// `s` repeated `n` times.
pub open spec fn repeat_spec(s: Seq<char>, n: nat) -> Seq<char>
    decreases n,
{
    if n == 0 {
        Seq::<char>::empty()
    } else {
        s + repeat_spec(s, (n - 1) as nat)
    }
}

pub fn str_repeat(s: &str, n: usize) -> (r: String)
    ensures
        r@ == repeat_spec(s@, n as nat),
{
    let mut out = String::new();
    let mut i: usize = 0;
    proof {
        assert(out@ + repeat_spec(s@, (n - i) as nat) =~= repeat_spec(s@, n as nat));
    }
    while i < n
        invariant
            0 <= i <= n,
            out@ + repeat_spec(s@, (n - i) as nat) == repeat_spec(s@, n as nat),
        decreases n - i,
    {
        out.append(s);
        i = i + 1;
        proof {
            assert(out@ + repeat_spec(s@, (n - i) as nat) =~= repeat_spec(s@, n as nat));
        }
    }
    proof {
        assert(out@ =~= repeat_spec(s@, n as nat));
    }
    out
}

/// The elements of `v` joined with `sep` between them.
pub open spec fn join_spec(v: Seq<Seq<char>>, sep: Seq<char>) -> Seq<char>
    decreases v.len(),
{
    if v.len() == 0 {
        Seq::<char>::empty()
    } else if v.len() == 1 {
        v[0]
    } else {
        v[0] + sep + join_spec(v.skip(1), sep)
    }
}

/// Joining one more element appends a separator and the element.
pub proof fn lemma_join_snoc(v: Seq<Seq<char>>, sep: Seq<char>, x: Seq<char>)
    ensures
        v.len() == 0 ==> join_spec(v.push(x), sep) == x,
        v.len() > 0 ==> join_spec(v.push(x), sep) == join_spec(v, sep) + sep + x,
    decreases v.len(),
{
    if v.len() == 0 {
        assert(v.push(x)[0] == x);
        assert(join_spec(v.push(x), sep) == x);
    } else if v.len() == 1 {
        assert(v.push(x)[0] == v[0]);
        assert(v.push(x).skip(1) =~= seq![x]);
        assert(join_spec(seq![x], sep) == x);
        assert(join_spec(v, sep) == v[0]);
    } else {
        lemma_join_snoc(v.skip(1), sep, x);
        assert(v.push(x).skip(1) =~= v.skip(1).push(x));
        assert(v.push(x)[0] == v[0]);
        assert(join_spec(v.push(x), sep) == v[0] + sep + join_spec(v.skip(1).push(x), sep));
    }
}

pub fn str_join(v: &Vec<String>, sep: &str) -> (r: String)
    ensures
        r@ == join_spec(v@.map_values(|x: String| x@), sep@),
{
    let ghost vv = v@.map_values(|x: String| x@);
    let mut out = String::new();
    let mut i: usize = 0;
    proof {
        assert(vv.take(0) =~= Seq::<Seq<char>>::empty());
    }
    while i < v.len()
        invariant
            0 <= i <= v@.len(),
            vv == v@.map_values(|x: String| x@),
            out@ == join_spec(vv.take(i as int), sep@),
        decreases v@.len() - i,
    {
        if i > 0 {
            out.append(sep);
        }
        let piece = &v[i];
        out.append(piece.as_str());
        proof {
            lemma_join_snoc(vv.take(i as int), sep@, vv[i as int]);
            assert(vv.take(i as int).push(vv[i as int]) =~= vv.take(i + 1));
            assert(vv[i as int] == v@[i as int]@);
        }
        i = i + 1;
    }
    proof {
        assert(vv.take(vv.len() as int) =~= vv);
    }
    out
}

// ---------------------------------------------------------------------------
// decimal rendering
// ---------------------------------------------------------------------------

/// The decimal digit character for `d` in 0..10.
pub open spec fn digit_char(d: int) -> char {
    if d == 0 {
        '0'
    } else if d == 1 {
        '1'
    } else if d == 2 {
        '2'
    } else if d == 3 {
        '3'
    } else if d == 4 {
        '4'
    } else if d == 5 {
        '5'
    } else if d == 6 {
        '6'
    } else if d == 7 {
        '7'
    } else if d == 8 {
        '8'
    } else {
        '9'
    }
}

/// Decimal digits of `n`, most significant first.
pub open spec fn dec_spec(n: nat) -> Seq<char>
    decreases n,
{
    if n < 10 {
        seq![digit_char(n as int)]
    } else {
        dec_spec(n / 10) + seq![digit_char((n % 10) as int)]
    }
}

/// The decimal rendering of a signed value, a minus sign before the digits
/// of its magnitude.
pub open spec fn i64_dec_spec(n: int) -> Seq<char> {
    if n < 0 {
        seq!['-'] + dec_spec((-n) as nat)
    } else {
        dec_spec(n as nat)
    }
}

fn digit_str(d: u64) -> (r: &'static str)
    requires
        d < 10,
    ensures
        r@ == seq![digit_char(d as int)],
{
    proof {
        reveal_strlit("0");
        reveal_strlit("1");
        reveal_strlit("2");
        reveal_strlit("3");
        reveal_strlit("4");
        reveal_strlit("5");
        reveal_strlit("6");
        reveal_strlit("7");
        reveal_strlit("8");
        reveal_strlit("9");
    }
    let r = if d == 0 {
        "0"
    } else if d == 1 {
        "1"
    } else if d == 2 {
        "2"
    } else if d == 3 {
        "3"
    } else if d == 4 {
        "4"
    } else if d == 5 {
        "5"
    } else if d == 6 {
        "6"
    } else if d == 7 {
        "7"
    } else if d == 8 {
        "8"
    } else {
        "9"
    };
    proof {
        assert(r@ =~= seq![digit_char(d as int)]);
    }
    r
}

pub fn digit_str32(d: u32) -> (r: &'static str)
    requires
        d < 10,
    ensures
        r@ == seq![digit_char(d as int)],
{
    digit_str(d as u64)
}

/// Relies on std's `String::from` for `char`: a string of that one character.
#[verifier::external_body]
pub fn char_to_string(c: char) -> (r: String)
    ensures
        r@ == seq![c],
{
    String::from(c)
}

pub fn u64_to_string(n: u64) -> (r: String)
    ensures
        r@ == dec_spec(n as nat),
    decreases n,
{
    if n < 10 {
        digit_str(n).to_owned()
    } else {
        let mut out = u64_to_string(n / 10);
        out.append(digit_str(n % 10));
        out
    }
}

pub fn i64_to_string(n: i64) -> (r: String)
    ensures
        r@ == i64_dec_spec(n as int),
{
    if n >= 0 {
        u64_to_string(n as u64)
    } else {
        // magnitude of a negative value, avoiding overflow at the minimum
        let mag: u64 = ((-(n + 1)) as u64) + 1;
        proof {
            assert(mag == (-(n as int)) as nat);
            reveal_strlit("-");
        }
        let mut out = String::new();
        out.append("-");
        let digits = u64_to_string(mag);
        out.append(digits.as_str());
        proof {
            assert("-"@ =~= seq!['-']);
            assert(out@ =~= i64_dec_spec(n as int));
        }
        out
    }
}

// ---------------------------------------------------------------------------
// line scanning
// ---------------------------------------------------------------------------

/// The least index at or after `from` whose line holds `pat`; the length of
/// the list when none does.
pub open spec fn first_containing(ls: Seq<Seq<char>>, from: int, pat: Seq<char>) -> int
    decreases ls.len() - from,
{
    if from < 0 || from >= ls.len() {
        ls.len() as int
    } else if find_str(ls[from], pat) >= 0 {
        from
    } else {
        first_containing(ls, from + 1, pat)
    }
}

pub proof fn lemma_first_containing(ls: Seq<Seq<char>>, from: int, pat: Seq<char>)
    requires
        0 <= from <= ls.len(),
    ensures
        from <= first_containing(ls, from, pat) <= ls.len(),
        forall|j: int|
            from <= j < first_containing(ls, from, pat) ==> find_str(#[trigger] ls[j], pat) < 0,
        first_containing(ls, from, pat) < ls.len() ==> find_str(
            ls[first_containing(ls, from, pat)],
            pat,
        ) >= 0,
    decreases ls.len() - from,
{
    if from < ls.len() && find_str(ls[from], pat) < 0 {
        lemma_first_containing(ls, from + 1, pat);
    }
}

/// The least index at or after `from` whose line starts with `p`; the length
/// of the list when none does.
pub open spec fn first_with_prefix(ls: Seq<Seq<char>>, from: int, p: Seq<char>) -> int
    decreases ls.len() - from,
{
    if from < 0 || from >= ls.len() {
        ls.len() as int
    } else if starts_with(ls[from], p) {
        from
    } else {
        first_with_prefix(ls, from + 1, p)
    }
}

pub proof fn lemma_first_with_prefix(ls: Seq<Seq<char>>, from: int, p: Seq<char>)
    requires
        0 <= from <= ls.len(),
    ensures
        from <= first_with_prefix(ls, from, p) <= ls.len(),
        forall|j: int|
            from <= j < first_with_prefix(ls, from, p) ==> !starts_with(#[trigger] ls[j], p),
        first_with_prefix(ls, from, p) < ls.len() ==> starts_with(
            ls[first_with_prefix(ls, from, p)],
            p,
        ),
    decreases ls.len() - from,
{
    if from < ls.len() && !starts_with(ls[from], p) {
        lemma_first_with_prefix(ls, from + 1, p);
    }
}

/// Exec scan for the first line at or after `from` that holds `pat`.
pub fn find_line_containing(lines: &Vec<String>, from: usize, pat: &str) -> (r: usize)
    requires
        from <= lines@.len(),
    ensures
        r == first_containing(lines@.map_values(|x: String| x@), from as int, pat@),
{
    let ghost ls = lines@.map_values(|x: String| x@);
    proof {
        lemma_first_containing(ls, from as int, pat@);
    }
    let mut i: usize = from;
    while i < lines.len()
        invariant
            from <= i <= lines@.len(),
            ls == lines@.map_values(|x: String| x@),
            forall|j: int| from <= j < i ==> find_str(#[trigger] ls[j], pat@) < 0,
        decreases lines@.len() - i,
    {
        if str_contains(lines[i].as_str(), pat) {
            proof {
                lemma_first_containing(ls, from as int, pat@);
                let fc = first_containing(ls, from as int, pat@);
                if fc < i {
                    assert(find_str(ls[fc], pat@) < 0);
                }
                if fc > i {
                    assert(find_str(ls[i as int], pat@) < 0);
                }
            }
            return i;
        }
        i = i + 1;
    }
    proof {
        lemma_first_containing(ls, from as int, pat@);
        if first_containing(ls, from as int, pat@) < ls.len() {
            assert(find_str(ls[first_containing(ls, from as int, pat@)], pat@) < 0);
        }
    }
    lines.len()
}

/// Exec scan for the first line at or after `from` that starts with `p`.
pub fn find_line_with_prefix(lines: &Vec<String>, from: usize, p: &str) -> (r: usize)
    requires
        from <= lines@.len(),
    ensures
        r == first_with_prefix(lines@.map_values(|x: String| x@), from as int, p@),
{
    let ghost ls = lines@.map_values(|x: String| x@);
    proof {
        lemma_first_with_prefix(ls, from as int, p@);
    }
    let mut i: usize = from;
    while i < lines.len()
        invariant
            from <= i <= lines@.len(),
            ls == lines@.map_values(|x: String| x@),
            forall|j: int| from <= j < i ==> !starts_with(#[trigger] ls[j], p@),
        decreases lines@.len() - i,
    {
        if str_starts_with(lines[i].as_str(), p) {
            proof {
                lemma_first_with_prefix(ls, from as int, p@);
                let fp = first_with_prefix(ls, from as int, p@);
                if fp < i {
                    assert(!starts_with(ls[fp], p@));
                }
                if fp > i {
                    assert(!starts_with(ls[i as int], p@));
                }
            }
            return i;
        }
        i = i + 1;
    }
    proof {
        lemma_first_with_prefix(ls, from as int, p@);
        if first_with_prefix(ls, from as int, p@) < ls.len() {
            assert(!starts_with(ls[first_with_prefix(ls, from as int, p@)], p@));
        }
    }
    lines.len()
}

/// The lines of the list that hold `pat`, in order.
pub open spec fn lines_containing(ls: Seq<Seq<char>>, pat: Seq<char>) -> Seq<Seq<char>>
    decreases ls.len(),
{
    if ls.len() == 0 {
        Seq::<Seq<char>>::empty()
    } else if find_str(ls[0], pat) >= 0 {
        seq![ls[0]] + lines_containing(ls.skip(1), pat)
    } else {
        lines_containing(ls.skip(1), pat)
    }
}

pub proof fn lemma_lines_containing_snoc(ls: Seq<Seq<char>>, pat: Seq<char>, x: Seq<char>)
    ensures
        find_str(x, pat) >= 0 ==> lines_containing(ls.push(x), pat) == lines_containing(
            ls,
            pat,
        ).push(x),
        find_str(x, pat) < 0 ==> lines_containing(ls.push(x), pat) == lines_containing(ls, pat),
    decreases ls.len(),
{
    if ls.len() == 0 {
        assert(ls.push(x)[0] == x);
        assert(ls.push(x).skip(1) =~= ls);
        if find_str(x, pat) >= 0 {
            assert(lines_containing(ls.push(x), pat) == seq![x] + lines_containing(ls, pat));
            assert(seq![x] + lines_containing(ls, pat) =~= lines_containing(ls, pat).push(x));
        } else {
            assert(lines_containing(ls.push(x), pat) == lines_containing(ls, pat));
        }
    } else {
        lemma_lines_containing_snoc(ls.skip(1), pat, x);
        assert(ls.push(x)[0] == ls[0]);
        assert(ls.push(x).skip(1) =~= ls.skip(1).push(x));
        if find_str(ls[0], pat) >= 0 {
            assert(lines_containing(ls.push(x), pat) == seq![ls[0]] + lines_containing(
                ls.skip(1).push(x),
                pat,
            ));
            assert(lines_containing(ls, pat) == seq![ls[0]] + lines_containing(ls.skip(1), pat));
            if find_str(x, pat) >= 0 {
                assert(seq![ls[0]] + lines_containing(ls.skip(1), pat).push(x) =~= (seq![ls[0]]
                    + lines_containing(ls.skip(1), pat)).push(x));
            }
        } else {
            assert(lines_containing(ls.push(x), pat) == lines_containing(ls.skip(1).push(x), pat));
            assert(lines_containing(ls, pat) == lines_containing(ls.skip(1), pat));
        }
    }
}

/// Exec filter of the lines that hold `pat`.
pub fn filter_lines_containing(lines: &Vec<String>, pat: &str) -> (r: Vec<String>)
    ensures
        r@.map_values(|x: String| x@) == lines_containing(
            lines@.map_values(|x: String| x@),
            pat@,
        ),
{
    let ghost ls = lines@.map_values(|x: String| x@);
    let mut out: Vec<String> = Vec::new();
    let mut i: usize = 0;
    proof {
        assert(ls.take(0) =~= Seq::<Seq<char>>::empty());
        assert(out@.map_values(|x: String| x@) =~= lines_containing(ls.take(0), pat@));
    }
    while i < lines.len()
        invariant
            0 <= i <= lines@.len(),
            ls == lines@.map_values(|x: String| x@),
            out@.map_values(|x: String| x@) == lines_containing(ls.take(i as int), pat@),
        decreases lines@.len() - i,
    {
        let keep = str_contains(lines[i].as_str(), pat);
        proof {
            lemma_lines_containing_snoc(ls.take(i as int), pat@, ls[i as int]);
            assert(ls.take(i as int).push(ls[i as int]) =~= ls.take(i + 1));
        }
        if keep {
            let line = lines[i].clone();
            out.push(line);
            proof {
                assert(out@.map_values(|x: String| x@) =~= lines_containing(
                    ls.take(i + 1),
                    pat@,
                ));
            }
        }
        i = i + 1;
    }
    proof {
        assert(ls.take(ls.len() as int) =~= ls);
    }
    out
}

/// The text after the last occurrence of `pat`, the whole text when `pat`
/// does not occur: what `split(pat).last()` reads off.
pub open spec fn after_last(s: Seq<char>, pat: Seq<char>) -> Seq<char>
    decreases s.len(),
    when pat.len() > 0
{
    let i = find_str(s, pat);
    if i < 0 || i + pat.len() > s.len() {
        s
    } else {
        after_last(s.skip(i + pat.len() as int), pat)
    }
}

/// Exec scan for the text after the last occurrence of `pat`.
pub fn str_after_last(s: &str, pat: &str) -> (r: String)
    requires
        pat@.len() > 0,
    ensures
        r@ == after_last(s@, pat@),
    decreases s@.len(),
{
    proof {
        lemma_find_str(s@, pat@);
    }
    match str_find(s, pat) {
        Option::None => s.to_owned(),
        Option::Some(i) => {
            let n = s.unicode_len();
            let m = pat.unicode_len();
            let rest = s.substring_char(i + m, n);
            proof {
                assert(rest@ =~= s@.skip(find_str(s@, pat@) + pat@.len() as int));
            }
            str_after_last(rest, pat)
        },
    }
}

/// The segments of `s` between characters of the set `cs`, empty segments
/// kept, as `str::split` with a character-set pattern yields them.
pub open spec fn split_any_spec(s: Seq<char>, cs: Seq<char>) -> Seq<Seq<char>>
    decreases s.len(),
{
    let i = first_index_in(s, cs, 0);
    if i < 0 || i >= s.len() {
        seq![s]
    } else {
        seq![s.take(i)] + split_any_spec(s.skip(i + 1), cs)
    }
}

/// The least index at or after `from` whose character is in `cs`, or -1.
pub open spec fn first_index_in(s: Seq<char>, cs: Seq<char>, from: int) -> int
    decreases s.len() - from,
{
    if from < 0 || from >= s.len() {
        -1
    } else if cs.contains(s[from]) {
        from
    } else {
        first_index_in(s, cs, from + 1)
    }
}

pub proof fn lemma_first_index_in(s: Seq<char>, cs: Seq<char>, from: int)
    requires
        0 <= from <= s.len(),
    ensures
        first_index_in(s, cs, from) == -1 || from <= first_index_in(s, cs, from) < s.len(),
        first_index_in(s, cs, from) == -1 ==> forall|j: int|
            from <= j < s.len() ==> !cs.contains(#[trigger] s[j]),
        first_index_in(s, cs, from) >= 0 ==> from <= first_index_in(s, cs, from) < s.len()
            && cs.contains(s[first_index_in(s, cs, from)]) && (forall|j: int|
            from <= j < first_index_in(s, cs, from) ==> !cs.contains(#[trigger] s[j])),
    decreases s.len() - from,
{
    if from < s.len() && !cs.contains(s[from]) {
        lemma_first_index_in(s, cs, from + 1);
    }
}

/// Whether `c` is one of the characters in `cs`.
pub fn char_in_set(c: char, cs: &Vec<char>) -> (r: bool)
    ensures
        r == cs@.contains(c),
{
    let mut k: usize = 0;
    while k < cs.len() && cs[k] != c
        invariant
            0 <= k <= cs@.len(),
            forall|t: int| 0 <= t < k ==> cs@[t] != c,
        decreases cs@.len() - k,
    {
        k = k + 1;
    }
    if k < cs.len() {
        true
    } else {
        proof {
            if cs@.contains(c) {
                let t = choose|t: int| 0 <= t < cs@.len() && cs@[t] == c;
                assert(cs@[t] != c);
            }
        }
        false
    }
}

/// Exec split of `s` at every character of the set `cs`.
pub fn str_split_any(s: &str, cs: &Vec<char>) -> (r: Vec<String>)
    ensures
        r@.map_values(|x: String| x@) == split_any_spec(s@, cs@),
    decreases s@.len(),
{
    let n = s.unicode_len();
    let mut i: usize = 0;
    while i < n && !char_in_set(s.get_char(i), cs)
        invariant
            0 <= i <= n,
            n == s@.len(),
            forall|j: int| 0 <= j < i ==> !cs@.contains(#[trigger] s@[j]),
        decreases n - i,
    {
        i = i + 1;
    }
    proof {
        lemma_first_index_in(s@, cs@, 0);
        let fi = first_index_in(s@, cs@, 0);
        if i < n {
            // s[i] is a separator and no earlier character is
            if fi != i {
                if 0 <= fi < i {
                    assert(!cs@.contains(s@[fi]));
                }
                if fi > i || fi < 0 {
                    assert(!cs@.contains(s@[i as int]));
                }
            }
        } else {
            if fi >= 0 {
                assert(!cs@.contains(s@[fi]));
            }
        }
    }
    if i < n {
        let head = s.substring_char(0, i);
        let rest = s.substring_char(i + 1, n);
        proof {
            assert(head@ =~= s@.take(i as int));
            assert(rest@ =~= s@.skip(i + 1));
        }
        let mut out: Vec<String> = Vec::new();
        out.push(head.to_owned());
        let tail_parts = str_split_any(rest, cs);
        let mut t: usize = 0;
        while t < tail_parts.len()
            invariant
                0 <= t <= tail_parts@.len(),
                out@.len() == 1 + t,
                out@[0]@ == s@.take(i as int),
                forall|k: int| 0 <= k < t ==> out@[1 + k]@ == #[trigger] tail_parts@[k]@,
            decreases tail_parts@.len() - t,
        {
            let piece = tail_parts[t].clone();
            out.push(piece);
            t = t + 1;
        }
        proof {
            let tp = tail_parts@.map_values(|x: String| x@);
            assert(out@.map_values(|x: String| x@) =~= seq![s@.take(i as int)] + tp);
            assert(out@.map_values(|x: String| x@) =~= split_any_spec(s@, cs@));
        }
        out
    } else {
        let mut out: Vec<String> = Vec::new();
        out.push(s.to_owned());
        proof {
            assert(out@.map_values(|x: String| x@) =~= split_any_spec(s@, cs@));
        }
        out
    }
}

/// The segments of `s` between occurrences of `sep`, empty segments kept,
/// as `str::split` with a string pattern yields them.
pub open spec fn split_str_spec(s: Seq<char>, sep: Seq<char>) -> Seq<Seq<char>>
    decreases s.len(),
    when sep.len() > 0
{
    let i = find_str(s, sep);
    if i < 0 || i + sep.len() > s.len() {
        seq![s]
    } else {
        seq![s.take(i)] + split_str_spec(s.skip(i + sep.len() as int), sep)
    }
}

/// Exec split of `s` at every occurrence of `sep`.
pub fn str_split_str(s: &str, sep: &str) -> (r: Vec<String>)
    requires
        sep@.len() > 0,
    ensures
        r@.map_values(|x: String| x@) == split_str_spec(s@, sep@),
    decreases s@.len(),
{
    proof {
        lemma_find_str(s@, sep@);
    }
    let n = s.unicode_len();
    let m = sep.unicode_len();
    match str_find(s, sep) {
        Option::None => {
            let mut out: Vec<String> = Vec::new();
            out.push(s.to_owned());
            proof {
                assert(out@.map_values(|x: String| x@) =~= split_str_spec(s@, sep@));
            }
            out
        },
        Option::Some(i) => {
            let head = s.substring_char(0, i);
            let rest = s.substring_char(i + m, n);
            proof {
                assert(head@ =~= s@.take(i as int));
                assert(rest@ =~= s@.skip(i + m));
            }
            let mut out: Vec<String> = Vec::new();
            out.push(head.to_owned());
            let tail_parts = str_split_str(rest, sep);
            let mut t: usize = 0;
            while t < tail_parts.len()
                invariant
                    0 <= t <= tail_parts@.len(),
                    out@.len() == 1 + t,
                    out@[0]@ == s@.take(i as int),
                    forall|k: int| 0 <= k < t ==> out@[1 + k]@ == #[trigger] tail_parts@[k]@,
                decreases tail_parts@.len() - t,
            {
                let piece = tail_parts[t].clone();
                out.push(piece);
                t = t + 1;
            }
            proof {
                let tp = tail_parts@.map_values(|x: String| x@);
                assert(out@.map_values(|x: String| x@) =~= seq![s@.take(i as int)] + tp);
                assert(out@.map_values(|x: String| x@) =~= split_str_spec(s@, sep@));
            }
            out
        },
    }
}

/// A copy of the segment `[from, to)` of a string list.
pub fn vec_slice_strings(v: &Vec<String>, from: usize, to: usize) -> (r: Vec<String>)
    requires
        from <= to <= v@.len(),
    ensures
        r@.map_values(|x: String| x@) == v@.map_values(|x: String| x@).subrange(
            from as int,
            to as int,
        ),
{
    let mut out: Vec<String> = Vec::new();
    let mut i: usize = from;
    while i < to
        invariant
            from <= i <= to <= v@.len(),
            out@.len() == i - from,
            forall|k: int| 0 <= k < i - from ==> out@[k]@ == #[trigger] v@[from + k]@,
        decreases to - i,
    {
        let piece = v[i].clone();
        out.push(piece);
        i = i + 1;
    }
    proof {
        assert forall|k: int| 0 <= k < to - from implies #[trigger] out@[k]@ == v@.map_values(
            |x: String| x@,
        ).subrange(from as int, to as int)[k] by {
            assert(out@[k]@ == v@[from + k]@);
        }
        assert(out@.map_values(|x: String| x@) =~= v@.map_values(|x: String| x@).subrange(
            from as int,
            to as int,
        ));
    }
    out
}

/// Every string of the list trimmed.
pub fn trim_all(v: &Vec<String>) -> (r: Vec<String>)
    ensures
        r@.map_values(|x: String| x@) == v@.map_values(|x: String| x@).map_values(
            |x: Seq<char>| trim_spec(x),
        ),
{
    let mut out: Vec<String> = Vec::new();
    let mut i: usize = 0;
    while i < v.len()
        invariant
            0 <= i <= v@.len(),
            out@.len() == i,
            forall|k: int| 0 <= k < i ==> out@[k]@ == trim_spec(#[trigger] v@[k]@),
        decreases v@.len() - i,
    {
        let piece = str_trim(v[i].as_str());
        out.push(piece);
        i = i + 1;
    }
    proof {
        assert(out@.map_values(|x: String| x@) =~= v@.map_values(|x: String| x@).map_values(
            |x: Seq<char>| trim_spec(x),
        ));
    }
    out
}

/// The lines joined back, a newline after each.
pub open spec fn concat_nl(ls: Seq<Seq<char>>) -> Seq<char>
    decreases ls.len(),
{
    if ls.len() == 0 {
        Seq::<char>::empty()
    } else {
        ls[0] + seq!['\n'] + concat_nl(ls.skip(1))
    }
}

pub proof fn lemma_concat_nl_snoc(ls: Seq<Seq<char>>, x: Seq<char>)
    ensures
        concat_nl(ls.push(x)) == concat_nl(ls) + x + seq!['\n'],
    decreases ls.len(),
{
    if ls.len() == 0 {
        assert(ls.push(x)[0] == x);
        assert(ls.push(x).skip(1) =~= ls);
        assert(concat_nl(ls.push(x)) == x + seq!['\n'] + concat_nl(ls));
        assert(concat_nl(ls) == Seq::<char>::empty());
        assert(x + seq!['\n'] + Seq::<char>::empty() =~= concat_nl(ls) + x + seq!['\n']);
    } else {
        lemma_concat_nl_snoc(ls.skip(1), x);
        assert(ls.push(x)[0] == ls[0]);
        assert(ls.push(x).skip(1) =~= ls.skip(1).push(x));
        assert(concat_nl(ls.push(x)) == ls[0] + seq!['\n'] + concat_nl(ls.skip(1).push(x)));
        assert(ls[0] + seq!['\n'] + (concat_nl(ls.skip(1)) + x + seq!['\n']) =~= (ls[0]
            + seq!['\n'] + concat_nl(ls.skip(1))) + x + seq!['\n']);
    }
}

/// Exec join of lines, a newline after each.
pub fn join_lines_nl(lines: &Vec<String>, from: usize, to: usize) -> (r: String)
    requires
        from <= to <= lines@.len(),
    ensures
        r@ == concat_nl(lines@.map_values(|x: String| x@).subrange(from as int, to as int)),
{
    proof {
        reveal_strlit("\n");
    }
    let ghost ls = lines@.map_values(|x: String| x@);
    let mut out = String::new();
    let mut i: usize = from;
    proof {
        assert(ls.subrange(from as int, from as int) =~= Seq::<Seq<char>>::empty());
    }
    while i < to
        invariant
            from <= i <= to <= lines@.len(),
            ls == lines@.map_values(|x: String| x@),
            out@ == concat_nl(ls.subrange(from as int, i as int)),
        decreases to - i,
    {
        out.append(lines[i].as_str());
        out.append("\n");
        proof {
            reveal_strlit("\n");
            assert(("\n")@ =~= seq!['\n']);
            lemma_concat_nl_snoc(ls.subrange(from as int, i as int), ls[i as int]);
            assert(ls.subrange(from as int, i as int).push(ls[i as int]) =~= ls.subrange(
                from as int,
                i + 1,
            ));
        }
        i = i + 1;
    }
    out
}

// ---------------------------------------------------------------------------
// equality
// ---------------------------------------------------------------------------

pub fn str_eq(a: &str, b: &str) -> (r: bool)
    ensures
        r == (a@ == b@),
{
    let n = a.unicode_len();
    let m = b.unicode_len();
    if n != m {
        return false;
    }
    let mut i: usize = 0;
    while i < n
        invariant
            0 <= i <= n,
            n == a@.len(),
            n == b@.len(),
            forall|j: int| 0 <= j < i ==> a@[j] == b@[j],
        decreases n - i,
    {
        if a.get_char(i) != b.get_char(i) {
            return false;
        }
        i = i + 1;
    }
    proof {
        assert(a@ =~= b@);
    }
    true
}

} // verus!
