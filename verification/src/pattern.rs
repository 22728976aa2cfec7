//! Substring search, replace-all and decimal rendering on sequences of
//! `char`, the way `str::find`, `str::rfind`, `str::replace`,
//! `str::matches(..).count()` and `{}` of an integer behave.

use vstd::prelude::*;

verus! {

/// `p` occurs in `s` starting at position `i`.
pub open spec fn occurs_at(s: Seq<char>, p: Seq<char>, i: int) -> bool {
    0 <= i && i + p.len() <= s.len() && s.subrange(i, i + p.len()) == p
}

/// The first position at or after `i` where `p` occurs in `s`.
pub open spec fn find_from(s: Seq<char>, p: Seq<char>, i: int) -> Option<int>
    decreases s.len() + 1 - i,
{
    if i < 0 || i + p.len() > s.len() {
        None
    } else if occurs_at(s, p, i) {
        Some(i)
    } else {
        find_from(s, p, i + 1)
    }
}

/// The last position at or before `i` where `p` occurs in `s`.
pub open spec fn rfind_at_or_before(s: Seq<char>, p: Seq<char>, i: int) -> Option<int>
    decreases i + 1,
{
    if i < 0 {
        None
    } else if occurs_at(s, p, i) {
        Some(i)
    } else {
        rfind_at_or_before(s, p, i - 1)
    }
}

/// The last position where `p` occurs in `s`.
pub open spec fn rfind(s: Seq<char>, p: Seq<char>) -> Option<int> {
    rfind_at_or_before(s, p, s.len() - p.len())
}

/// `s` contains `p`.
pub open spec fn contains(s: Seq<char>, p: Seq<char>) -> bool {
    find_from(s, p, 0) is Some
}

/// `s[i..]` with every match of `f` replaced by `r`: leftmost,
/// non-overlapping matches; an empty `f` matches at every position,
/// the end included.
pub open spec fn replace_from(s: Seq<char>, f: Seq<char>, r: Seq<char>, i: int) -> Seq<char>
    decreases s.len() - i,
{
    if f.len() == 0 {
        if i >= s.len() {
            r
        } else {
            r + seq![s[i]] + replace_from(s, f, r, i + 1)
        }
    } else if i + f.len() > s.len() {
        s.subrange(i, s.len() as int)
    } else if occurs_at(s, f, i) {
        r + replace_from(s, f, r, i + f.len())
    } else {
        seq![s[i]] + replace_from(s, f, r, i + 1)
    }
}

/// The number of matches that `replace_from` replaces.
pub open spec fn count_from(s: Seq<char>, f: Seq<char>, i: int) -> int
    decreases s.len() - i,
{
    if f.len() == 0 {
        if i >= s.len() {
            1
        } else {
            1 + count_from(s, f, i + 1)
        }
    } else if i + f.len() > s.len() {
        0
    } else if occurs_at(s, f, i) {
        1 + count_from(s, f, i + f.len())
    } else {
        count_from(s, f, i + 1)
    }
}

/// `s` with every match of `f` replaced by `r`.
pub open spec fn replace_all(s: Seq<char>, f: Seq<char>, r: Seq<char>) -> Seq<char> {
    replace_from(s, f, r, 0)
}

/// The number of matches of `f` in `s`.
pub open spec fn count_all(s: Seq<char>, f: Seq<char>) -> int {
    count_from(s, f, 0)
}

/// What `find_from` returns is the first occurrence at or after `i`.
pub proof fn lemma_find_from(s: Seq<char>, p: Seq<char>, i: int)
    requires
        0 <= i,
    ensures
        match find_from(s, p, i) {
            Some(j) => i <= j && occurs_at(s, p, j) && forall|k: int|
                i <= k < j ==> !occurs_at(s, p, k),
            None => forall|k: int| i <= k ==> !occurs_at(s, p, k),
        },
    decreases s.len() + 1 - i,
{
    if i + p.len() > s.len() {
    } else if occurs_at(s, p, i) {
    } else {
        lemma_find_from(s, p, i + 1);
    }
}

/// What `rfind_at_or_before` returns is the last occurrence at or before `i`.
pub proof fn lemma_rfind_at_or_before(s: Seq<char>, p: Seq<char>, i: int)
    ensures
        match rfind_at_or_before(s, p, i) {
            Some(j) => 0 <= j <= i && occurs_at(s, p, j) && forall|k: int|
                j < k <= i ==> !occurs_at(s, p, k),
            None => forall|k: int| k <= i ==> !occurs_at(s, p, k),
        },
    decreases i + 1,
{
    if i >= 0 && !occurs_at(s, p, i) {
        lemma_rfind_at_or_before(s, p, i - 1);
    }
}

/// An empty pattern occurs at every position up to the end.
pub proof fn lemma_empty_occurs(s: Seq<char>, p: Seq<char>, i: int)
    requires
        p.len() == 0,
        0 <= i <= s.len(),
    ensures
        occurs_at(s, p, i),
{
    assert(s.subrange(i, i) =~= p);
}

/// At most one match per position, and one more for an empty pattern.
pub proof fn lemma_count_bound(s: Seq<char>, f: Seq<char>, i: int)
    requires
        0 <= i <= s.len(),
    ensures
        0 <= count_from(s, f, i) <= s.len() - i + 1,
    decreases s.len() - i,
{
    if f.len() == 0 {
        if i < s.len() {
            lemma_count_bound(s, f, i + 1);
        }
    } else if i + f.len() > s.len() {
    } else if occurs_at(s, f, i) {
        lemma_count_bound(s, f, i + f.len());
    } else {
        lemma_count_bound(s, f, i + 1);
    }
}

/// A non-empty pattern matches at most once per character.
pub proof fn lemma_count_bound_nonempty(s: Seq<char>, f: Seq<char>, i: int)
    requires
        0 <= i <= s.len(),
        f.len() > 0,
    ensures
        0 <= count_from(s, f, i) <= s.len() - i,
    decreases s.len() - i,
{
    if i + f.len() > s.len() {
    } else if occurs_at(s, f, i) {
        lemma_count_bound_nonempty(s, f, i + f.len());
    } else {
        lemma_count_bound_nonempty(s, f, i + 1);
    }
}

/// Whether `p` occurs in `s` at `i`.
pub fn matches_at(s: &[char], p: &[char], i: usize) -> (r: bool)
    ensures
        r == occurs_at(s@, p@, i as int),
{
    if i > s.len() || p.len() > s.len() - i {
        return false;
    }
    let mut k: usize = 0;
    while k < p.len()
        invariant
            k <= p.len(),
            i + p.len() <= s.len(),
            forall|m: int| 0 <= m < k ==> s@[i + m] == p@[m],
        decreases p.len() - k,
    {
        if s[i + k] != p[k] {
            proof {
                if occurs_at(s@, p@, i as int) {
                    assert(s@.subrange(i as int, i + p.len())[k as int] == s@[i + k]);
                }
            }
            return false;
        }
        k = k + 1;
    }
    proof {
        assert(s@.subrange(i as int, i + p.len()) =~= p@);
    }
    true
}

/// `find_from` as an executable search.
pub fn find_chars(s: &[char], p: &[char], from: usize) -> (r: Option<usize>)
    ensures
        match r {
            Some(j) => find_from(s@, p@, from as int) == Some(j as int),
            None => find_from(s@, p@, from as int) is None,
        },
{
    let mut k: usize = from;
    while k <= s.len() && p.len() <= s.len() - k
        invariant
            from <= k,
            find_from(s@, p@, from as int) == find_from(s@, p@, k as int),
        decreases s.len() + 1 - k,
    {
        if matches_at(s, p, k) {
            return Some(k);
        }
        proof {
            if p.len() == 0 {
                lemma_empty_occurs(s@, p@, k as int);
            }
        }
        k = k + 1;
    }
    None
}

/// A character that may end an element name in a tag: `>`, `/` or
/// white space.
pub open spec fn name_end(c: char) -> bool {
    c == '>' || c == '/' || c == ' ' || c == '\t' || c == '\n' || c == '\r'
}

/// A tag opening `p` (such as `<w:t`) starts at `i`: `p` occurs there
/// and the name ends right after it, so `<w:t>` and `<w:t xml:space=..>`
/// open a `w:t` element and `<w:tc>` or `<w:tab/>` do not.
pub open spec fn opens_at(s: Seq<char>, p: Seq<char>, i: int) -> bool {
    occurs_at(s, p, i) && i + p.len() < s.len() && name_end(s[i + p.len()])
}

/// The first position at or after `i` where a tag opening `p` starts.
pub open spec fn find_open_from(s: Seq<char>, p: Seq<char>, i: int) -> Option<int>
    decreases s.len() + 1 - i,
{
    if i < 0 || i + p.len() >= s.len() {
        None
    } else if opens_at(s, p, i) {
        Some(i)
    } else {
        find_open_from(s, p, i + 1)
    }
}

/// The number of tag openings `p` at or after `i`.
pub open spec fn count_opens(s: Seq<char>, p: Seq<char>, i: int) -> int
    decreases s.len() - i,
{
    if i < 0 || i >= s.len() {
        0
    } else {
        (if opens_at(s, p, i) {
            1int
        } else {
            0int
        }) + count_opens(s, p, i + 1)
    }
}

pub proof fn lemma_find_open_from(s: Seq<char>, p: Seq<char>, i: int)
    requires
        0 <= i,
    ensures
        match find_open_from(s, p, i) {
            Some(j) => i <= j && opens_at(s, p, j) && occurs_at(s, p, j) && forall|k: int|
                i <= k < j ==> !opens_at(s, p, k),
            None => forall|k: int| i <= k ==> !opens_at(s, p, k),
        },
    decreases s.len() + 1 - i,
{
    if i + p.len() >= s.len() {
    } else if opens_at(s, p, i) {
    } else {
        lemma_find_open_from(s, p, i + 1);
    }
}

/// Whether a tag opening `p` starts in `s` at `i`.
pub fn opens_chars_at(s: &[char], p: &[char], i: usize) -> (r: bool)
    ensures
        r == opens_at(s@, p@, i as int),
{
    if !matches_at(s, p, i) {
        return false;
    }
    assert(i + p@.len() <= s@.len());
    if s.len() - i <= p.len() {
        return false;
    }
    let c = s[i + p.len()];
    c == '>' || c == '/' || c == ' ' || c == '\t' || c == '\n' || c == '\r'
}

/// `find_open_from` as an executable search.
pub fn find_open_chars(s: &[char], p: &[char], from: usize) -> (r: Option<usize>)
    ensures
        match r {
            Some(j) => find_open_from(s@, p@, from as int) == Some(j as int),
            None => find_open_from(s@, p@, from as int) is None,
        },
{
    let mut k: usize = from;
    while k < s.len() && p.len() < s.len() - k
        invariant
            from <= k,
            find_open_from(s@, p@, from as int) == find_open_from(s@, p@, k as int),
        decreases s.len() + 1 - k,
    {
        if opens_chars_at(s, p, k) {
            return Some(k);
        }
        k = k + 1;
    }
    None
}

/// `count_opens` from the start, as an executable count.
pub fn count_opens_chars(s: &[char], p: &[char]) -> (r: usize)
    ensures
        r == count_opens(s@, p@, 0),
{
    let mut n: usize = 0;
    let mut k: usize = s.len();
    proof {
        assert(count_opens(s@, p@, s@.len() as int) == 0);
    }
    while k > 0
        invariant
            k <= s.len(),
            n <= s.len() - k,
            count_opens(s@, p@, k as int) == n,
        decreases k,
    {
        k = k - 1;
        if opens_chars_at(s, p, k) {
            n = n + 1;
        }
    }
    n
}

/// `rfind` as an executable search.
pub fn rfind_chars(s: &[char], p: &[char]) -> (r: Option<usize>)
    ensures
        match r {
            Some(j) => rfind(s@, p@) == Some(j as int),
            None => rfind(s@, p@) is None,
        },
{
    if p.len() > s.len() {
        return None;
    }
    let mut k: usize = s.len() - p.len();
    loop
        invariant
            k <= s.len() - p.len(),
            p.len() <= s.len(),
            rfind(s@, p@) == rfind_at_or_before(s@, p@, k as int),
        decreases k,
    {
        if matches_at(s, p, k) {
            return Some(k);
        }
        if k == 0 {
            assert(rfind_at_or_before(s@, p@, -1) is None);
            return None;
        }
        k = k - 1;
    }
}

/// `s` with every match of `f` replaced by `r`, and how many were
/// replaced.
pub fn replace_all_chars(s: &[char], f: &[char], r: &[char]) -> (res: (Vec<char>, usize))
    requires
        f@.len() > 0 || s@.len() < usize::MAX,
    ensures
        res.0@ == replace_all(s@, f@, r@),
        res.1 == count_all(s@, f@),
{
    let mut out: Vec<char> = Vec::new();
    let mut count: usize = 0;
    let mut i: usize = 0;
    let slen = s.len();
    proof {
        lemma_count_bound(s@, f@, 0);
        if f@.len() > 0 {
            lemma_count_bound_nonempty(s@, f@, 0);
        }
    }
    while i < s.len()
        invariant
            i <= s.len(),
            out@ + replace_from(s@, f@, r@, i as int) == replace_all(s@, f@, r@),
            count + count_from(s@, f@, i as int) == count_all(s@, f@),
            count_all(s@, f@) <= usize::MAX,
            0 <= count_from(s@, f@, i as int),
        decreases s.len() - i,
    {
        let ghost old_out = out@;
        if f.len() == 0 {
            out.extend_from_slice(r);
            out.push(s[i]);
            proof {
                lemma_count_bound(s@, f@, i + 1);
            }
            count = count + 1;
            proof {
                assert(old_out + replace_from(s@, f@, r@, i as int) =~= out@ + replace_from(
                    s@,
                    f@,
                    r@,
                    i + 1,
                ));
                lemma_count_bound(s@, f@, i + 1);
            }
            i = i + 1;
        } else if f.len() > s.len() - i {
            let mut k: usize = i;
            while k < s.len()
                invariant
                    i <= k <= s.len(),
                    out@ == old_out + s@.subrange(i as int, k as int),
                decreases s.len() - k,
            {
                out.push(s[k]);
                proof {
                    assert(out@ =~= old_out + s@.subrange(i as int, k + 1));
                }
                k = k + 1;
            }
            proof {
                assert(out@ + replace_from(s@, f@, r@, s.len() as int) =~= old_out + replace_from(
                    s@,
                    f@,
                    r@,
                    i as int,
                ));
            }
            i = s.len();
        } else if matches_at(s, f, i) {
            out.extend_from_slice(r);
            proof {
                lemma_count_bound(s@, f@, i + f.len());
            }
            count = count + 1;
            proof {
                assert(old_out + replace_from(s@, f@, r@, i as int) =~= out@ + replace_from(
                    s@,
                    f@,
                    r@,
                    i + f.len(),
                ));
                lemma_count_bound(s@, f@, i + f.len());
            }
            i = i + f.len();
        } else {
            out.push(s[i]);
            proof {
                assert(old_out + replace_from(s@, f@, r@, i as int) =~= out@ + replace_from(
                    s@,
                    f@,
                    r@,
                    i + 1,
                ));
                lemma_count_bound(s@, f@, i + 1);
            }
            i = i + 1;
        }
    }
    if f.len() == 0 {
        out.extend_from_slice(r);
        count = count + 1;
        proof {
            assert(replace_from(s@, f@, r@, i as int) == r@);
        }
    } else {
        proof {
            assert(replace_from(s@, f@, r@, i as int) =~= Seq::<char>::empty());
        }
    }
    proof {
        assert(out@ =~= replace_all(s@, f@, r@));
    }
    (out, count)
}

/// The decimal digit `d` as a character.
pub open spec fn digit_char(d: int) -> char {
    (48 + d) as char
}

/// The decimal rendering of `n`, without leading zeros.
pub open spec fn decimal(n: nat) -> Seq<char>
    decreases n,
{
    if n < 10 {
        seq![digit_char(n as int)]
    } else {
        decimal(n / 10).push(digit_char((n % 10) as int))
    }
}

/// The decimal rendering of `n`, as `format!("{}", n)` writes it.
pub fn decimal_chars(n: u32) -> (r: Vec<char>)
    ensures
        r@ == decimal(n as nat),
    decreases n,
{
    let d: u8 = (n % 10) as u8;
    let c: char = (48u8 + d) as char;
    if n < 10 {
        let mut v: Vec<char> = Vec::new();
        v.push(c);
        proof {
            assert(v@ =~= decimal(n as nat));
        }
        v
    } else {
        let mut v = decimal_chars(n / 10);
        v.push(c);
        v
    }
}

/// The decimal rendering of `n`, for a `usize`.
pub fn decimal_usize_chars(n: usize) -> (r: Vec<char>)
    ensures
        r@ == decimal(n as nat),
    decreases n,
{
    let d: u8 = (n % 10) as u8;
    let c: char = (48u8 + d) as char;
    if n < 10 {
        let mut v: Vec<char> = Vec::new();
        v.push(c);
        proof {
            assert(v@ =~= decimal(n as nat));
        }
        v
    } else {
        let mut v = decimal_usize_chars(n / 10);
        v.push(c);
        v
    }
}

/// An upper-case hexadecimal digit.
pub open spec fn hex_digit_char(d: int) -> char {
    if d < 10 {
        ((48 + d) as u8) as char
    } else {
        ((55 + d) as u8) as char
    }
}

/// `v` as four upper-case hexadecimal digits, as `{:04X}` writes it.
pub open spec fn hex4(v: u16) -> Seq<char> {
    seq![
        hex_digit_char((v as int / 4096) % 16),
        hex_digit_char((v as int / 256) % 16),
        hex_digit_char((v as int / 16) % 16),
        hex_digit_char(v as int % 16),
    ]
}

fn hex_digit(d: u16) -> (c: char)
    requires
        d < 16,
    ensures
        c == hex_digit_char(d as int),
{
    if d < 10 {
        (48u8 + d as u8) as char
    } else {
        (55u8 + d as u8) as char
    }
}

/// `hex4` as characters.
pub fn hex4_chars(v: u16) -> (r: Vec<char>)
    ensures
        r@ == hex4(v),
{
    let mut out: Vec<char> = Vec::new();
    out.push(hex_digit((v / 4096) % 16));
    out.push(hex_digit((v / 256) % 16));
    out.push(hex_digit((v / 16) % 16));
    out.push(hex_digit(v % 16));
    proof {
        assert(out@ =~= hex4(v));
    }
    out
}

} // verus!
