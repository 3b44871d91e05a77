//! Character-level string helpers, stated over `Seq<char>`.
use vstd::prelude::*;
use vstd::string::StringExecFns;

verus! {

/// `String::push`: appends one character.
#[verifier::external_body]
pub fn push_char(s: &mut String, c: char)
    ensures
        final(s)@ == old(s)@.push(c),
{
    s.push(c);
}

/// An owned copy of a string slice.
pub fn owned(s: &str) -> (r: String)
    ensures
        r@ == s@,
{
    s.to_owned()
}

/// The characters of `s`, in order.
pub fn chars_of(s: &str) -> (v: Vec<char>)
    ensures
        v@ == s@,
{
    let mut v: Vec<char> = Vec::new();
    for c in it: s.chars()
        invariant
            v@ == it.seq().take(it.index() as int),
    {
        v.push(c);
    }
    v
}


/// Appends `t` to `s`.
pub fn push_str(s: &mut String, t: &str)
    ensures
        final(s)@ == old(s)@ + t@,
{
    s.append(t);
}

/// The string made of `v[lo..hi]`.
pub fn string_of(v: &Vec<char>, lo: usize, hi: usize) -> (r: String)
    requires
        lo <= hi <= v@.len(),
    ensures
        r@ == v@.subrange(lo as int, hi as int),
{
    let mut s = String::new();
    let mut i = lo;
    while i < hi
        invariant
            lo <= i <= hi <= v@.len(),
            s@ == v@.subrange(lo as int, i as int),
        decreases hi - i,
    {
        push_char(&mut s, v[i]);
        assert(v@.subrange(lo as int, i + 1) =~= v@.subrange(lo as int, i as int).push(v@[i as int]));
        i = i + 1;
    }
    s
}

/// Whether `s` and `t` hold the same characters.
pub fn str_eq(s: &str, t: &str) -> (r: bool)
    ensures
        r == (s@ == t@),
{
    let a = chars_of(s);
    let b = chars_of(t);
    if a.len() != b.len() {
        return false;
    }
    let mut i: usize = 0;
    while i < a.len()
        invariant
            a@.len() == b@.len(),
            i <= a@.len(),
            a@ == s@,
            b@ == t@,
            forall|j: int| 0 <= j < i ==> a@[j] == b@[j],
        decreases a@.len() - i,
    {
        if a[i] != b[i] {
            return false;
        }
        i = i + 1;
    }
    assert(a@ =~= b@);
    true
}

/// `pat` occurs in `s` starting at index `i`.
pub open spec fn matches_at(s: Seq<char>, pat: Seq<char>, i: int) -> bool {
    0 <= i && i + pat.len() <= s.len() && s.subrange(i, i + pat.len()) == pat
}

/// `i` is the first occurrence of `pat` in `s` at or after `from`.
pub open spec fn first_match_from(s: Seq<char>, pat: Seq<char>, from: int, i: int) -> bool {
    &&& from <= i
    &&& matches_at(s, pat, i)
    &&& forall|j: int| from <= j < i ==> !#[trigger] matches_at(s, pat, j)
}

/// Index of the first occurrence of `pat` in `s` at or after `from` (`str::find`, counted in characters).
pub open spec fn find_from(s: Seq<char>, pat: Seq<char>, from: int) -> Option<int> {
    if exists|i: int| first_match_from(s, pat, from, i) {
        Some(choose|i: int| first_match_from(s, pat, from, i))
    } else {
        None
    }
}

/// `i` is the last occurrence of `pat` in `s` (`str::rfind`).
pub open spec fn last_match(s: Seq<char>, pat: Seq<char>, i: int) -> bool {
    &&& matches_at(s, pat, i)
    &&& forall|j: int| i < j ==> !#[trigger] matches_at(s, pat, j)
}

/// Index of the last occurrence of `pat` in `s`.
pub open spec fn rfind(s: Seq<char>, pat: Seq<char>) -> Option<int> {
    if exists|i: int| last_match(s, pat, i) {
        Some(choose|i: int| last_match(s, pat, i))
    } else {
        None
    }
}

/// `pat` occurs somewhere in `s` (`str::contains`).
pub open spec fn contains(s: Seq<char>, pat: Seq<char>) -> bool {
    exists|i: int| matches_at(s, pat, i)
}

pub proof fn lemma_first_match_unique(s: Seq<char>, pat: Seq<char>, from: int, i: int)
    requires
        first_match_from(s, pat, from, i),
    ensures
        find_from(s, pat, from) == Some(i),
{
    let k = choose|k: int| first_match_from(s, pat, from, k);
    if k < i {
        assert(!matches_at(s, pat, k));
    } else if k > i {
        assert(!matches_at(s, pat, i));
    }
}

pub proof fn lemma_last_match_unique(s: Seq<char>, pat: Seq<char>, i: int)
    requires
        last_match(s, pat, i),
    ensures
        rfind(s, pat) == Some(i),
{
    let k = choose|k: int| last_match(s, pat, k);
    if k < i {
        assert(!matches_at(s, pat, i));
    } else if k > i {
        assert(!matches_at(s, pat, k));
    }
}

/// Whether `pat` occurs in `s` at index `i`.
pub fn match_at(s: &Vec<char>, pat: &Vec<char>, i: usize) -> (r: bool)
    ensures
        r == matches_at(s@, pat@, i as int),
{
    let n = s.len();
    if i > n || pat.len() > n - i {
        return false;
    }
    let mut k: usize = 0;
    while k < pat.len()
        invariant
            n == s@.len(),
            i + pat@.len() <= n,
            k <= pat@.len(),
            forall|j: int| 0 <= j < k ==> s@[i + j] == pat@[j],
        decreases pat@.len() - k,
    {
        if s[i + k] != pat[k] {
            assert(s@.subrange(i as int, i + pat@.len())[k as int] != pat@[k as int]);
            return false;
        }
        k = k + 1;
    }
    assert(s@.subrange(i as int, i + pat@.len()) =~= pat@);
    true
}

/// First occurrence of `pat` in `s` at or after `from`.
pub fn find_chars(s: &Vec<char>, pat: &Vec<char>, from: usize) -> (r: Option<usize>)
    ensures
        match r {
            Some(i) => find_from(s@, pat@, from as int) == Some(i as int) && matches_at(s@, pat@, i as int),
            None => find_from(s@, pat@, from as int) is None,
        },
{
    let n = s.len();
    let mut i = from;
    while i < n
        invariant
            n == s@.len(),
            from <= i,
            forall|j: int| from <= j < i ==> !#[trigger] matches_at(s@, pat@, j),
        decreases n - i,
    {
        if match_at(s, pat, i) {
            proof {
                lemma_first_match_unique(s@, pat@, from as int, i as int);
            }
            return Some(i);
        }
        i = i + 1;
    }
    if match_at(s, pat, i) {
        proof {
            lemma_first_match_unique(s@, pat@, from as int, i as int);
        }
        return Some(i);
    }
    proof {
        if exists|k: int| first_match_from(s@, pat@, from as int, k) {
            let k = choose|k: int| first_match_from(s@, pat@, from as int, k);
            assert(matches_at(s@, pat@, k));
        }
    }
    None
}

/// Last occurrence of `pat` in `s`.
pub fn rfind_chars(s: &Vec<char>, pat: &Vec<char>) -> (r: Option<usize>)
    ensures
        match r {
            Some(i) => rfind(s@, pat@) == Some(i as int) && matches_at(s@, pat@, i as int),
            None => rfind(s@, pat@) is None && !contains(s@, pat@),
        },
{
    let n = s.len();
    if match_at(s, pat, n) {
        proof {
            lemma_last_match_unique(s@, pat@, n as int);
        }
        return Some(n);
    }
    let mut i = n;
    while i > 0
        invariant
            n == s@.len(),
            i <= n,
            forall|j: int| i <= j ==> !#[trigger] matches_at(s@, pat@, j),
        decreases i,
    {
        i = i - 1;
        if match_at(s, pat, i) {
            proof {
                lemma_last_match_unique(s@, pat@, i as int);
            }
            return Some(i);
        }
    }
    proof {
        if exists|k: int| last_match(s@, pat@, k) {
            let k = choose|k: int| last_match(s@, pat@, k);
            assert(matches_at(s@, pat@, k));
        }
    }
    None
}

/// `s.contains(pat)`.
pub fn str_contains(s: &str, pat: &str) -> (r: bool)
    ensures
        r == contains(s@, pat@),
{
    let a = chars_of(s);
    let b = chars_of(pat);
    match find_chars(&a, &b, 0) {
        Some(_) => true,
        None => {
            proof {
                if contains(s@, pat@) {
                    let i = choose|i: int| matches_at(s@, pat@, i);
                    assert(matches_at(a@, b@, i));
                    assert(!first_match_from(a@, b@, 0, i));
                    lemma_no_first_implies_none(a@, b@, i);
                }
            }
            false
        },
    }
}

/// A match at or after `from` means there is a first one.
pub proof fn lemma_no_first_implies_none(s: Seq<char>, pat: Seq<char>, i: int)
    requires
        matches_at(s, pat, i),
        0 <= i,
    ensures
        find_from(s, pat, 0) is Some,
    decreases i,
{
    if first_match_from(s, pat, 0, i) {
    } else {
        let j = choose|j: int| 0 <= j < i && #[trigger] matches_at(s, pat, j);
        lemma_no_first_implies_none(s, pat, j);
    }
}

/// `s` begins with `p`.
pub open spec fn starts_with(s: Seq<char>, p: Seq<char>) -> bool {
    p.len() <= s.len() && s.take(p.len() as int) == p
}

/// `s` ends with `p`.
pub open spec fn ends_with(s: Seq<char>, p: Seq<char>) -> bool {
    p.len() <= s.len() && s.skip(s.len() - p.len()) == p
}

/// `s.ends_with(p)`.
pub fn str_ends_with(s: &str, p: &str) -> (r: bool)
    ensures
        r == ends_with(s@, p@),
{
    let a = chars_of(s);
    let b = chars_of(p);
    if b.len() > a.len() {
        return false;
    }
    let r = match_at(&a, &b, a.len() - b.len());
    assert(a@.subrange(a@.len() - b@.len(), a@.len() as int) =~= a@.skip(a@.len() - b@.len()));
    r
}

/// `s.starts_with(p)`.
pub fn str_starts_with(s: &str, p: &str) -> (r: bool)
    ensures
        r == starts_with(s@, p@),
{
    let a = chars_of(s);
    let b = chars_of(p);
    let r = match_at(&a, &b, 0);
    assert(b@.len() <= a@.len() ==> a@.subrange(0, b@.len() as int) =~= a@.take(b@.len() as int));
    r
}


/// The characters of each string, in order.
pub open spec fn strs(v: Seq<String>) -> Seq<Seq<char>> {
    v.map_values(|x: String| x@)
}

/// Appends a copy of `s` to an argument list.
pub fn push_lit(v: &mut Vec<String>, s: &str)
    ensures
        strs(final(v)@) == strs(old(v)@).push(s@),
{
    v.push(owned(s));
    assert(strs(v@) =~= strs(old(v)@).push(s@));
}

/// Appends `s` to an argument list.
pub fn push_string(v: &mut Vec<String>, s: String)
    ensures
        strs(final(v)@) == strs(old(v)@).push(s@),
{
    let ghost t = s@;
    v.push(s);
    assert(strs(v@) =~= strs(old(v)@).push(t));
}

/// Appends every string of `w` to an argument list.
pub fn extend_strings(v: &mut Vec<String>, w: Vec<String>)
    ensures
        strs(final(v)@) == strs(old(v)@) + strs(w@),
{
    let mut w = w;
    let ghost ws = strs(w@);
    v.append(&mut w);
    assert(strs(v@) =~= strs(old(v)@) + ws);
}


/// First occurrence of `pat` in `s` (`str::find`, counted in characters).
pub open spec fn find(s: Seq<char>, pat: Seq<char>) -> Option<int> {
    find_from(s, pat, 0)
}

/// `s` with every occurrence of `pat` replaced by `rep`, scanning left to right
/// without overlaps (`str::replace` for a non-empty pattern).
pub open spec fn replace_all(s: Seq<char>, pat: Seq<char>, rep: Seq<char>) -> Seq<char>
    decreases s.len(),
{
    if pat.len() == 0 || s.len() < pat.len() {
        s
    } else if s.take(pat.len() as int) == pat {
        rep + replace_all(s.skip(pat.len() as int), pat, rep)
    } else {
        seq![s[0]] + replace_all(s.skip(1), pat, rep)
    }
}

proof fn lemma_replace_short(s: Seq<char>, pat: Seq<char>, rep: Seq<char>)
    requires
        s.len() < pat.len(),
    ensures
        replace_all(s, pat, rep) == s,
{
}

/// `s.replace(pat, rep)`.
pub fn replace_str(s: &str, pat: &str, rep: &str) -> (r: String)
    requires
        pat@.len() > 0,
    ensures
        r@ == replace_all(s@, pat@, rep@),
{
    let v = chars_of(s);
    let p = chars_of(pat);
    let mut out = String::new();
    let mut i: usize = 0;
    let n = v.len();
    assert(s@.skip(0) =~= s@);
    assert(out@ + replace_all(s@.skip(0), pat@, rep@) =~= replace_all(s@, pat@, rep@));
    while i < n
        invariant
            n == v@.len(),
            v@ == s@,
            p@ == pat@,
            p@.len() > 0,
            i <= n,
            replace_all(s@, pat@, rep@) == out@ + replace_all(s@.skip(i as int), pat@, rep@),
        decreases n - i,
    {
        let ghost t = s@.skip(i as int);
        if match_at(&v, &p, i) {
            assert(t.take(p@.len() as int) =~= v@.subrange(i as int, i + p@.len()));
            assert(t.skip(p@.len() as int) =~= s@.skip(i + p@.len()));
            push_str(&mut out, rep);
            i = i + p.len();
        } else {
            proof {
                if t.len() >= p@.len() {
                    assert(t.take(p@.len() as int) =~= v@.subrange(i as int, i + p@.len()));
                } else {
                    lemma_replace_short(t, pat@, rep@);
                    lemma_replace_short(t.skip(1), pat@, rep@);
                    assert(t =~= seq![t[0]] + t.skip(1));
                }
                assert(t.skip(1) =~= s@.skip(i + 1));
            }
            push_char(&mut out, v[i]);
            i = i + 1;
        }
        assert(out@ + replace_all(s@.skip(i as int), pat@, rep@) == replace_all(s@, pat@, rep@));
    }
    assert(s@.skip(i as int) =~= Seq::<char>::empty());
    assert(replace_all(Seq::<char>::empty(), pat@, rep@) == Seq::<char>::empty());
    assert(out@ =~= replace_all(s@, pat@, rep@));
    out
}

/// Rust's `char::is_whitespace` (the Unicode White_Space property).
pub open spec fn is_ws(c: char) -> bool {
    ||| '\t' <= c <= '\r'
    ||| c == ' '
    ||| c == '\u{85}'
    ||| c == '\u{A0}'
    ||| c == '\u{1680}'
    ||| '\u{2000}' <= c <= '\u{200A}'
    ||| c == '\u{2028}'
    ||| c == '\u{2029}'
    ||| c == '\u{202F}'
    ||| c == '\u{205F}'
    ||| c == '\u{3000}'
}

/// Whether `c` is whitespace.
pub fn char_is_ws(c: char) -> (r: bool)
    ensures
        r == is_ws(c),
{
    ('\t' <= c && c <= '\r') || c == ' ' || c == '\u{85}' || c == '\u{A0}' || c == '\u{1680}'
        || ('\u{2000}' <= c && c <= '\u{200A}') || c == '\u{2028}' || c == '\u{2029}'
        || c == '\u{202F}' || c == '\u{205F}' || c == '\u{3000}'
}

/// `s` without leading whitespace.
pub open spec fn trim_start(s: Seq<char>) -> Seq<char>
    decreases s.len(),
{
    if s.len() > 0 && is_ws(s[0]) {
        trim_start(s.skip(1))
    } else {
        s
    }
}

/// `s` without trailing whitespace.
pub open spec fn trim_end(s: Seq<char>) -> Seq<char>
    decreases s.len(),
{
    if s.len() > 0 && is_ws(s.last()) {
        trim_end(s.drop_last())
    } else {
        s
    }
}

/// `s` without leading and trailing whitespace (`str::trim`).
pub open spec fn trim(s: Seq<char>) -> Seq<char> {
    trim_end(trim_start(s))
}

proof fn lemma_trim_start(s: Seq<char>, k: int)
    requires
        0 <= k <= s.len(),
        forall|j: int| 0 <= j < k ==> is_ws(#[trigger] s[j]),
        k == s.len() || !is_ws(s[k]),
    ensures
        trim_start(s) == s.skip(k),
    decreases k,
{
    if k > 0 {
        assert forall|j: int| 0 <= j < k - 1 implies is_ws(#[trigger] s.skip(1)[j]) by {
            assert(s.skip(1)[j] == s[j + 1]);
        }
        lemma_trim_start(s.skip(1), k - 1);
        assert(s.skip(1).skip(k - 1) =~= s.skip(k));
    } else {
        assert(s.skip(0) =~= s);
    }
}

proof fn lemma_trim_end(s: Seq<char>, e: int)
    requires
        0 <= e <= s.len(),
        forall|j: int| e <= j < s.len() ==> is_ws(#[trigger] s[j]),
        e == 0 || !is_ws(s[e - 1]),
    ensures
        trim_end(s) == s.take(e),
    decreases s.len(),
{
    if s.len() > e {
        assert(s.drop_last().take(e) =~= s.take(e));
        lemma_trim_end(s.drop_last(), e);
    } else {
        assert(s.take(e) =~= s);
    }
}

/// Bounds `[lo, hi)` of `v` with leading and trailing whitespace removed.
pub fn trim_bounds(v: &Vec<char>) -> (r: (usize, usize))
    ensures
        r.0 <= r.1 <= v@.len(),
        v@.subrange(r.0 as int, r.1 as int) == trim(v@),
{
    let n = v.len();
    let mut lo: usize = 0;
    while lo < n && char_is_ws(v[lo])
        invariant
            n == v@.len(),
            lo <= n,
            forall|j: int| 0 <= j < lo ==> is_ws(#[trigger] v@[j]),
        decreases n - lo,
    {
        lo = lo + 1;
    }
    proof {
        lemma_trim_start(v@, lo as int);
    }
    let mut hi: usize = n;
    while hi > lo && char_is_ws(v[hi - 1])
        invariant
            n == v@.len(),
            lo <= hi <= n,
            forall|j: int| hi <= j < n ==> is_ws(#[trigger] v@[j]),
        decreases hi,
    {
        hi = hi - 1;
    }
    proof {
        let t = v@.skip(lo as int);
        assert forall|j: int| hi - lo <= j < t.len() implies is_ws(#[trigger] t[j]) by {
            assert(t[j] == v@[lo + j]);
        }
        if hi > lo {
            assert(t[hi - lo - 1] == v@[hi - 1]);
        }
        lemma_trim_end(t, hi - lo);
        assert(t.take(hi - lo) =~= v@.subrange(lo as int, hi as int));
    }
    (lo, hi)
}

/// `s.trim()` as an owned string.
pub fn trimmed(s: &str) -> (r: String)
    ensures
        r@ == trim(s@),
{
    let v = chars_of(s);
    let (lo, hi) = trim_bounds(&v);
    string_of(&v, lo, hi)
}


/// What `str::to_lowercase` gives for `s` (Unicode lowercase mapping).
pub uninterp spec fn lowercase(s: Seq<char>) -> Seq<char>;

/// The ASCII lower case of a character: `A`-`Z` become `a`-`z`, others stay.
pub open spec fn ascii_lower(c: char) -> char {
    if 65 <= c as int <= 90 { (c as int + 32) as char } else { c }
}

/// Every character of `s` is ASCII.
pub open spec fn is_ascii_text(s: Seq<char>) -> bool {
    forall|i: int| 0 <= i < s.len() ==> (s[i] as int) < 128
}

/// `str::to_lowercase`: the Unicode lowercase form of `s`, named `lowercase`. Of ASCII
/// text it is stated exactly: each letter `A`-`Z` becomes `a`-`z`, everything else
/// stays (the Unicode mapping of ASCII characters); of other text only the name is given.
#[verifier::external_body]
pub fn to_lower(s: &str) -> (r: String)
    ensures
        r@ == lowercase(s@),
        is_ascii_text(s@) ==> r@ == s@.map_values(|c: char| ascii_lower(c)),
{
    s.to_lowercase()
}

/// `x` without one trailing carriage return.
pub open spec fn strip_cr(x: Seq<char>) -> Seq<char> {
    if x.len() > 0 && x.last() == '\r' { x.drop_last() } else { x }
}

/// The lines of `s` (`str::lines`): split at '\n', a '\r' right before a '\n' dropped, no
/// empty last line after a final '\n'.
pub open spec fn lines(s: Seq<char>) -> Seq<Seq<char>>
    decreases s.len(),
{
    if s.len() == 0 {
        Seq::empty()
    } else {
        match find(s, "\n"@) {
            None => seq![s],
            Some(i) => if 0 <= i < s.len() {
                seq![strip_cr(s.take(i))] + lines(s.skip(i + 1))
            } else {
                seq![s]
            },
        }
    }
}

/// The line of `v[lo..hi]`, a trailing '\r' dropped.
fn line_of(v: &Vec<char>, lo: usize, hi: usize) -> (r: String)
    requires
        lo <= hi <= v@.len(),
    ensures
        r@ == strip_cr(v@.subrange(lo as int, hi as int)),
{
    if hi > lo && v[hi - 1] == '\r' {
        let r = string_of(v, lo, hi - 1);
        assert(r@ =~= strip_cr(v@.subrange(lo as int, hi as int)));
        r
    } else {
        string_of(v, lo, hi)
    }
}

/// The lines of `s`.
pub fn lines_of(s: &str) -> (r: Vec<String>)
    ensures
        strs(r@) == lines(s@),
{
    proof {
        reveal_strlit("\n");
    }
    let v = chars_of(s);
    let n = v.len();
    let mut out: Vec<String> = Vec::new();
    let mut start: usize = 0;
    let mut i: usize = 0;
    assert(s@.skip(0) =~= s@);
    while i < n
        invariant
            n == v@.len(),
            v@ == s@,
            start <= i <= n,
            forall|j: int| start <= j < i ==> v@[j] != '\n',
            lines(s@) == strs(out@) + lines(s@.skip(start as int)),
        decreases n - i,
    {
        if v[i] == '\n' {
            let ghost t = s@.skip(start as int);
            proof {
                reveal_strlit("\n");
                let k = (i - start) as int;
                assert(matches_at(t, "\n"@, k)) by {
                    assert(t.subrange(k, k + 1) =~= "\n"@);
                }
                assert forall|j: int| 0 <= j < k implies !#[trigger] matches_at(t, "\n"@, j) by {
                    assert(t[j] == v@[start + j]);
                    if matches_at(t, "\n"@, j) {
                        assert(t.subrange(j, j + 1)[0] == t[j]);
                    }
                }
                lemma_first_match_unique(t, "\n"@, 0, k);
                assert(t.take(k) =~= v@.subrange(start as int, i as int));
                assert(t.skip(k + 1) =~= s@.skip(i + 1));
            }
            let line = line_of(&v, start, i);
            push_string(&mut out, line);
            start = i + 1;
            assert(strs(out@) + lines(s@.skip(start as int)) =~= lines(s@));
        }
        i = i + 1;
    }
    if start < n {
        let ghost t = s@.skip(start as int);
        proof {
            reveal_strlit("\n");
            assert forall|j: int| 0 <= j implies !#[trigger] matches_at(t, "\n"@, j) by {
                if matches_at(t, "\n"@, j) {
                    assert(t.subrange(j, j + 1)[0] == t[j]);
                    assert(t[j] == v@[start + j]);
                }
            }
            if exists|k: int| first_match_from(t, "\n"@, 0, k) {
                let k = choose|k: int| first_match_from(t, "\n"@, 0, k);
                assert(matches_at(t, "\n"@, k));
            }
            assert(t =~= v@.subrange(start as int, n as int));
        }
        let line = string_of(&v, start, n);
        push_string(&mut out, line);
    } else {
        assert(s@.skip(start as int) =~= Seq::<char>::empty());
    }
    assert(strs(out@) =~= lines(s@));
    out
}


/// Length of the leading run of non-whitespace characters of `s`.
pub open spec fn word_len(s: Seq<char>) -> nat
    decreases s.len(),
{
    if s.len() > 0 && !is_ws(s[0]) {
        1 + word_len(s.skip(1))
    } else {
        0
    }
}

pub proof fn lemma_word_len_bound(s: Seq<char>)
    ensures
        word_len(s) <= s.len(),
    decreases s.len(),
{
    if s.len() > 0 && !is_ws(s[0]) {
        lemma_word_len_bound(s.skip(1));
    }
}

/// The whitespace-separated words of `s` (`str::split_whitespace`).
pub open spec fn words(s: Seq<char>) -> Seq<Seq<char>>
    decreases s.len(),
{
    if s.len() == 0 {
        Seq::empty()
    } else if is_ws(s[0]) {
        words(s.skip(1))
    } else {
        let k = word_len(s);
        proof {
            lemma_word_len_bound(s);
        }
        seq![s.take(k as int)] + words(s.skip(k as int))
    }
}

proof fn lemma_word_len(s: Seq<char>, k: int)
    requires
        0 <= k <= s.len(),
        forall|j: int| 0 <= j < k ==> !is_ws(#[trigger] s[j]),
        k == s.len() || is_ws(s[k]),
    ensures
        word_len(s) == k,
    decreases k,
{
    if k > 0 {
        assert forall|j: int| 0 <= j < k - 1 implies !is_ws(#[trigger] s.skip(1)[j]) by {
            assert(s.skip(1)[j] == s[j + 1]);
        }
        lemma_word_len(s.skip(1), k - 1);
    }
}

/// The words of `s`.
pub fn words_of(s: &str) -> (r: Vec<String>)
    ensures
        strs(r@) == words(s@),
{
    let v = chars_of(s);
    let n = v.len();
    let mut out: Vec<String> = Vec::new();
    let mut i: usize = 0;
    assert(s@.skip(0) =~= s@);
    while i < n
        invariant
            n == v@.len(),
            v@ == s@,
            i <= n,
            words(s@) == strs(out@) + words(s@.skip(i as int)),
        decreases n - i,
    {
        let ghost t = s@.skip(i as int);
        if char_is_ws(v[i]) {
            assert(t[0] == v@[i as int]);
            assert(t.skip(1) =~= s@.skip(i + 1));
            i = i + 1;
        } else {
            let mut j = i;
            while j < n && !char_is_ws(v[j])
                invariant
                    n == v@.len(),
                    i <= j <= n,
                    forall|q: int| i <= q < j ==> !is_ws(#[trigger] v@[q]),
                decreases n - j,
            {
                j = j + 1;
            }
            proof {
                assert forall|q: int| 0 <= q < j - i implies !is_ws(#[trigger] t[q]) by {
                    assert(t[q] == v@[i + q]);
                }
                if j < n {
                    assert(t[j - i] == v@[j as int]);
                }
                lemma_word_len(t, j - i);
                assert(t[0] == v@[i as int]);
                assert(t.take(j - i) =~= v@.subrange(i as int, j as int));
                assert(t.skip(j - i) =~= s@.skip(j as int));
            }
            let w = string_of(&v, i, j);
            push_string(&mut out, w);
            i = j;
        }
    }
    assert(s@.skip(i as int) =~= Seq::<char>::empty());
    assert(strs(out@) =~= words(s@));
    out
}

} // verus!
