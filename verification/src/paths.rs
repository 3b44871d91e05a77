//! File names: the leaf of a path, free output names next to a taken one, and the
//! locations of the bundled tools.
use vstd::prelude::*;
use crate::num::{dec, push_dec};
use crate::text::{
    chars_of, owned, push_char, push_str, push_string, rfind, rfind_chars, string_of, str_eq, strs,
};

verus! {

/// A path separator ('/' or '\\').
pub open spec fn is_sep(c: char) -> bool {
    c == '/' || c == '\\'
}

/// `i` is the position of the last separator in `p`.
pub open spec fn last_sep_at(p: Seq<char>, i: int) -> bool {
    0 <= i < p.len() && is_sep(p[i]) && forall|j: int| i < j < p.len() ==> !is_sep(#[trigger] p[j])
}

/// Where the last component of `p` starts: after its last separator, or at 0.
pub open spec fn name_start(p: Seq<char>) -> int {
    if exists|i: int| last_sep_at(p, i) {
        (choose|i: int| last_sep_at(p, i)) + 1
    } else {
        0
    }
}

proof fn lemma_name_start(p: Seq<char>, k: int)
    requires
        0 <= k <= p.len(),
        k == 0 || is_sep(p[k - 1]),
        forall|j: int| k <= j < p.len() ==> !is_sep(#[trigger] p[j]),
    ensures
        name_start(p) == k,
{
    if k > 0 {
        assert(last_sep_at(p, k - 1));
        let i = choose|i: int| last_sep_at(p, i);
        if i < k - 1 {
            assert(!is_sep(p[k - 1]));
        } else if i > k - 1 {
            assert(!is_sep(p[i]));
        }
    } else {
        if exists|i: int| last_sep_at(p, i) {
            let i = choose|i: int| last_sep_at(p, i);
            assert(!is_sep(p[i]));
        }
    }
}

proof fn lemma_last_sep_exists(p: Seq<char>, j: int)
    requires
        0 <= j < p.len(),
        is_sep(p[j]),
    ensures
        exists|i: int| last_sep_at(p, i),
    decreases p.len() - j,
{
    if forall|q: int| j < q < p.len() ==> !is_sep(#[trigger] p[q]) {
        assert(last_sep_at(p, j));
    } else {
        let q = choose|q: int| j < q < p.len() && is_sep(#[trigger] p[q]);
        lemma_last_sep_exists(p, q);
    }
}

/// Index where the last component of `p` starts.
fn name_start_of(v: &Vec<char>) -> (k: usize)
    ensures
        k as int == name_start(v@),
        k <= v@.len(),
{
    let mut k = v.len();
    while k > 0
        invariant
            k <= v@.len(),
            forall|j: int| k <= j < v@.len() ==> !is_sep(#[trigger] v@[j]),
        decreases k,
    {
        let c = v[k - 1];
        if c == '/' || c == '\\' {
            proof {
                lemma_name_start(v@, k as int);
            }
            return k;
        }
        k = k - 1;
    }
    proof {
        lemma_name_start(v@, 0);
    }
    0
}

/// The file name of a path: the text after its last '/' or '\\' (the whole path when it
/// has none).
pub open spec fn leaf_spec(p: Seq<char>) -> Seq<char> {
    p.skip(name_start(p))
}

/// File name only, for notifications.
pub fn leaf(path: &str) -> (r: String)
    ensures
        r@ == leaf_spec(path@),
{
    let v = chars_of(path);
    let k = name_start_of(&v);
    let r = string_of(&v, k, v.len());
    assert(r@ =~= leaf_spec(path@));
    r
}

/// A file name holds no separator, and the path ends with it.
pub proof fn law_leaf_has_no_separator(p: Seq<char>)
    ensures
        forall|j: int| 0 <= j < leaf_spec(p).len() ==> !is_sep(#[trigger] leaf_spec(p)[j]),
        p.skip(p.len() - leaf_spec(p).len()) == leaf_spec(p),
{
    let k = name_start(p);
    if exists|i: int| last_sep_at(p, i) {
        let i = choose|i: int| last_sep_at(p, i);
        assert forall|j: int| 0 <= j < leaf_spec(p).len() implies !is_sep(#[trigger] leaf_spec(p)[j]) by {
            assert(leaf_spec(p)[j] == p[k + j]);
        }
    } else {
        assert forall|j: int| 0 <= j < leaf_spec(p).len() implies !is_sep(#[trigger] leaf_spec(p)[j]) by {
            assert(leaf_spec(p)[j] == p[j]);
            if is_sep(p[j]) {
                lemma_last_sep_exists(p, j);
            }
        }
    }
    assert(p.skip(p.len() - leaf_spec(p).len()) =~= leaf_spec(p));
}


/// An ASCII letter.
pub open spec fn is_letter(c: char) -> bool {
    (65 <= c as int <= 90) || (97 <= c as int <= 122)
}

/// A drive letter as Windows compares drives: lower case folded to upper case.
pub open spec fn drive_key(c: char) -> int {
    if 97 <= c as int <= 122 { c as int - 32 } else { c as int }
}

/// A separator, where verbatim paths (`v`) know only '\\'.
pub open spec fn sep_v(c: char, v: bool) -> bool {
    if v { c == '\\' } else { is_sep(c) }
}

/// Where the piece of `p` that starts at `i` ends: at the next separator (only '\\' when
/// `v`), or at the end.
pub open spec fn piece_end(p: Seq<char>, i: int, v: bool) -> int
    decreases p.len() - i,
{
    if i < 0 || i >= p.len() || sep_v(p[i], v) { i } else { piece_end(p, i + 1, v) }
}

/// `p` starts with a drive, such as `C:`.
pub open spec fn has_drive(p: Seq<char>) -> bool {
    p.len() >= 2 && is_letter(p[0]) && p[1] == ':'
}

/// `p` starts with `\\?\` exactly: a verbatim path.
pub open spec fn verbatim_start(p: Seq<char>) -> bool {
    p.len() >= 4 && p[0] == '\\' && p[1] == '\\' && p[2] == '?' && p[3] == '\\'
}

/// The server name of a share prefix ends here.
pub open spec fn server_end(p: Seq<char>) -> int {
    piece_end(p, 2, false)
}

/// `p` starts with a network share, `\\server\share` (either separator), both names
/// non-empty.
pub open spec fn has_share(p: Seq<char>) -> bool {
    &&& 2 < server_end(p) < p.len()
    &&& piece_end(p, server_end(p) + 1, false) > server_end(p) + 1
}

/// Where the server of a verbatim share `\\?\UNC\server\share` ends.
pub open spec fn vserver_end(p: Seq<char>) -> int {
    piece_end(p, 8, true)
}

/// The kind of prefix `p` has, as Windows reads it: 0 none, 1 a drive (`C:`), 2 a share
/// (`\\server\share`), 3 a device (`\\.\name`), 4 a verbatim name (`\\?\name`), 5 a
/// verbatim share (`\\?\UNC\server\share`), 6 a verbatim drive (`\\?\C:`). Outside the
/// verbatim forms, '/' may stand for '\\' in them.
pub open spec fn prefix_kind(p: Seq<char>) -> int {
    if p.len() >= 2 && is_sep(p[0]) && is_sep(p[1]) {
        if verbatim_start(p) {
            if p.len() >= 8 && p[4] == 'U' && p[5] == 'N' && p[6] == 'C' && is_sep(p[7]) {
                5
            } else if p.len() >= 6 && is_letter(p[4]) && p[5] == ':' && (p.len() == 6 || p[6] == '\\') {
                6
            } else {
                4
            }
        } else if p.len() >= 4 && p[2] == '.' && is_sep(p[3]) {
            3
        } else if has_share(p) {
            2
        } else {
            0
        }
    } else if has_drive(p) {
        1
    } else {
        0
    }
}

/// The prefix is verbatim: only '\\' separates, and "." and ".." stay components.
pub open spec fn verbatim(p: Seq<char>) -> bool {
    prefix_kind(p) >= 4
}

/// The length of the prefix of `p`.
pub open spec fn prefix_len(p: Seq<char>) -> int {
    let k = prefix_kind(p);
    if k == 1 {
        2
    } else if k == 2 {
        piece_end(p, server_end(p) + 1, false)
    } else if k == 3 {
        piece_end(p, 4, false)
    } else if k == 4 {
        piece_end(p, 4, true)
    } else if k == 5 {
        let se = vserver_end(p);
        if se < p.len() && piece_end(p, se + 1, true) > se + 1 { piece_end(p, se + 1, true) } else { se }
    } else if k == 6 {
        6
    } else {
        0
    }
}

/// Two paths have the same prefix: of the same kind, with the same drive letter (in
/// either case), the same server and share, or the same name.
pub open spec fn same_prefix(a: Seq<char>, b: Seq<char>) -> bool {
    let k = prefix_kind(a);
    &&& k == prefix_kind(b)
    &&& k == 1 ==> drive_key(a[0]) == drive_key(b[0])
    &&& k == 6 ==> drive_key(a[4]) == drive_key(b[4])
    &&& k == 2 ==> a.subrange(2, server_end(a)) == b.subrange(2, server_end(b))
        && a.subrange(server_end(a) + 1, prefix_len(a)) == b.subrange(server_end(b) + 1, prefix_len(b))
    &&& (k == 3 || k == 4) ==> a.subrange(4, prefix_len(a)) == b.subrange(4, prefix_len(b))
    &&& k == 5 ==> a.subrange(8, vserver_end(a)) == b.subrange(8, vserver_end(b))
        && (if prefix_len(a) > vserver_end(a) { a.subrange(vserver_end(a) + 1, prefix_len(a)) } else { Seq::empty() })
            == (if prefix_len(b) > vserver_end(b) { b.subrange(vserver_end(b) + 1, prefix_len(b)) } else { Seq::empty() })
}

/// A separator follows the prefix.
pub open spec fn phys_root(p: Seq<char>) -> bool {
    prefix_len(p) < p.len() && sep_v(p[prefix_len(p)], verbatim(p))
}

/// The path starts at a root: a separator after its prefix, or a share or device prefix
/// (which always has one).
pub open spec fn rooted(p: Seq<char>) -> bool {
    phys_root(p) || prefix_kind(p) == 2 || prefix_kind(p) == 3
}

/// `p` after its prefix.
pub open spec fn after_prefix(p: Seq<char>) -> Seq<char> {
    p.skip(prefix_len(p))
}

proof fn lemma_piece_end_bounds(p: Seq<char>, i: int, v: bool)
    requires
        0 <= i <= p.len(),
    ensures
        i <= piece_end(p, i, v) <= p.len(),
    decreases p.len() - i,
{
    if i < p.len() && !sep_v(p[i], v) {
        lemma_piece_end_bounds(p, i + 1, v);
    }
}

proof fn lemma_prefix_len_bounds(p: Seq<char>)
    ensures
        0 <= prefix_len(p) <= p.len(),
{
    if p.len() >= 2 {
        lemma_piece_end_bounds(p, 2, false);
        if server_end(p) < p.len() {
            lemma_piece_end_bounds(p, server_end(p) + 1, false);
        }
    }
    if p.len() >= 4 {
        lemma_piece_end_bounds(p, 4, false);
        lemma_piece_end_bounds(p, 4, true);
    }
    if p.len() >= 8 {
        lemma_piece_end_bounds(p, 8, true);
        if vserver_end(p) < p.len() {
            lemma_piece_end_bounds(p, vserver_end(p) + 1, true);
        }
    }
}

/// Where the piece of `v` that starts at `i` ends.
fn piece_end_of(v: &Vec<char>, i: usize, verb: bool) -> (r: usize)
    requires
        i <= v@.len(),
    ensures
        r as int == piece_end(v@, i as int, verb),
        i <= r <= v@.len(),
{
    let mut j = i;
    while j < v.len() && !(v[j] == '\\' || (!verb && v[j] == '/'))
        invariant
            i <= j <= v@.len(),
            piece_end(v@, j as int, verb) == piece_end(v@, i as int, verb),
        decreases v@.len() - j,
    {
        j = j + 1;
    }
    j
}

fn is_letter_of(c: char) -> (r: bool)
    ensures
        r == is_letter(c),
{
    let x = c as u32;
    (65 <= x && x <= 90) || (97 <= x && x <= 122)
}

fn drive_key_of(c: char) -> (r: u32)
    ensures
        r as int == drive_key(c),
{
    let x = c as u32;
    if 97 <= x && x <= 122 { x - 32 } else { x }
}

fn is_sep_of(c: char) -> (r: bool)
    ensures
        r == is_sep(c),
{
    c == '/' || c == '\\'
}

/// The prefix of `v`: its length and its kind.
fn prefix_of(v: &Vec<char>) -> (r: (usize, u8))
    ensures
        r.0 as int == prefix_len(v@),
        r.0 <= v@.len(),
        r.1 as int == prefix_kind(v@),
{
    proof {
        lemma_prefix_len_bounds(v@);
    }
    let n = v.len();
    if n >= 2 && is_sep_of(v[0]) && is_sep_of(v[1]) {
        if n >= 4 && v[0] == '\\' && v[1] == '\\' && v[2] == '?' && v[3] == '\\' {
            if n >= 8 && v[4] == 'U' && v[5] == 'N' && v[6] == 'C' && is_sep_of(v[7]) {
                let se = piece_end_of(v, 8, true);
                if se < n {
                    let he = piece_end_of(v, se + 1, true);
                    if he > se + 1 {
                        return (he, 5);
                    }
                }
                return (se, 5);
            } else if n >= 6 && is_letter_of(v[4]) && v[5] == ':' && (n == 6 || v[6] == '\\') {
                return (6, 6);
            } else {
                return (piece_end_of(v, 4, true), 4);
            }
        } else if n >= 4 && v[2] == '.' && is_sep_of(v[3]) {
            return (piece_end_of(v, 4, false), 3);
        } else {
            let se = piece_end_of(v, 2, false);
            if se > 2 && se < n {
                let he = piece_end_of(v, se + 1, false);
                if he > se + 1 {
                    return (he, 2);
                }
            }
            return (0, 0);
        }
    }
    if n >= 2 && is_letter_of(v[0]) && v[1] == ':' {
        return (2, 1);
    }
    (0, 0)
}

/// Whether a "." piece with nothing else opens the path after the prefix, when no root
/// does (that "." stays a component of its own).
pub open spec fn cur_dir_len(p: Seq<char>) -> int {
    let k = prefix_len(p);
    if !phys_root(p) && k < p.len() && p[k] == '.' && (k + 1 == p.len() || is_sep(p[k + 1])) {
        1
    } else {
        0
    }
}

/// Where the named part of `p` starts: after its prefix, its root and a leading ".".
pub open spec fn body_start(p: Seq<char>) -> int {
    prefix_len(p) + (if phys_root(p) { 1int } else { 0int }) + cur_dir_len(p)
}

/// Where the piece that ends at `e` starts: after the separator before it, but not
/// before `s`.
pub open spec fn piece_start(p: Seq<char>, s: int, e: int) -> int
    decreases e,
{
    if e <= s || e <= 0 {
        s
    } else if is_sep(p[e - 1]) {
        e
    } else {
        piece_start(p, s, e - 1)
    }
}

/// The end of `p.take(e)` once the separators and "." pieces that close it (after `s`)
/// are dropped.
pub open spec fn trim_end(p: Seq<char>, s: int, e: int) -> int
    decreases e,
{
    if e <= s || e <= 0 {
        e
    } else if is_sep(p[e - 1]) {
        trim_end(p, s, e - 1)
    } else if p[e - 1] == '.' && piece_start(p, s, e) == e - 1 {
        trim_end(p, s, e - 1)
    } else {
        e
    }
}

/// Where the piece of `v` that ends at `e` starts.
fn piece_start_of(v: &Vec<char>, s: usize, e: usize) -> (r: usize)
    requires
        s <= e <= v@.len(),
    ensures
        r as int == piece_start(v@, s as int, e as int),
        s <= r <= e,
{
    let mut j = e;
    while j > s && !(v[j - 1] == '/' || v[j - 1] == '\\')
        invariant
            s <= j <= e <= v@.len(),
            piece_start(v@, s as int, j as int) == piece_start(v@, s as int, e as int),
        decreases j,
    {
        j = j - 1;
    }
    j
}

/// The end of `v.take(e)` without the separators and "." pieces that close it.
fn trim_end_of(v: &Vec<char>, s: usize, e: usize) -> (r: usize)
    requires
        s <= e <= v@.len(),
    ensures
        r as int == trim_end(v@, s as int, e as int),
        s <= r <= e,
{
    let mut j = e;
    while j > s
        invariant
            s <= j <= e <= v@.len(),
            trim_end(v@, s as int, j as int) == trim_end(v@, s as int, e as int),
        decreases j,
    {
        let c = v[j - 1];
        if c == '/' || c == '\\' {
            j = j - 1;
        } else if c == '.' && piece_start_of(v, s, j) == j - 1 {
            j = j - 1;
        } else {
            return j;
        }
    }
    j
}

/// Stem and extension of a file name: split at its last '.', unless that dot opens the
/// name; an empty name, "." or ".." has the stem "output" and no extension.
pub open spec fn stem_ext(name: Seq<char>) -> (Seq<char>, Seq<char>) {
    if name.len() == 0 || name == "."@ || name == ".."@ {
        ("output"@, Seq::empty())
    } else {
        match rfind(name, "."@) {
            Some(i) => if i > 0 { (name.take(i), name.skip(i + 1)) } else { (name, Seq::empty()) },
            None => (name, Seq::empty()),
        }
    }
}

/// The file name of the `n`-th alternative: `<stem>_<n>`, then `.<ext>` when there is one.
pub open spec fn alt_name(stem: Seq<char>, ext: Seq<char>, n: nat) -> Seq<char> {
    stem + "_"@ + dec(n) + (if ext.len() == 0 { Seq::<char>::empty() } else { "."@ + ext })
}

/// The `n`-th alternative to a taken path, by Windows path rules: the path's folder
/// (`Path::parent`) joined with `<stem>_<n>.<ext>`, where stem and extension come from
/// the path's file name (`file_stem`, `extension`). Closing separators and "." pieces
/// are not part of the name (in a verbatim path a closing "." is, and the name is then
/// missing); a path without a file name (one ending in "..", a root or a bare prefix)
/// gives the stem "output", and one without a folder gives the bare name.
pub open spec fn candidate_spec(p: Seq<char>, n: nat) -> Seq<char> {
    let s = body_start(p);
    let e = trim_end(p, s, p.len() as int);
    if verbatim(p) {
        if body(p).len() == 0 {
            alt_name("output"@, Seq::empty(), n)
        } else {
            let (stem, ext) = stem_ext(body(p).last());
            vjoin_spec(p.take(prefix_len(p)), phys_root(p), body(p).drop_last(), alt_name(stem, ext, n))
        }
    } else if e > s {
        let ls = piece_start(p, s, e);
        let (stem, ext) = stem_ext(p.subrange(ls, e));
        join_spec(p.take(trim_end(p, s, ls)), alt_name(stem, ext, n), '\\')
    } else if cur_dir_len(p) == 1 {
        join_spec(p.take(prefix_len(p)), alt_name("output"@, Seq::empty(), n), '\\')
    } else {
        alt_name("output"@, Seq::empty(), n)
    }
}

/// `f` may answer `v` for the path `p`.
pub open spec fn says<F: Fn(&str) -> bool>(f: F, p: Seq<char>, v: bool) -> bool {
    exists|s: &str| s@ == p && call_ensures(f, (s,), v)
}

/// What `available_output_path` settles on: the path itself when it is free; else the
/// first free alternative `_2` .. `_9999`; else, all taken, the path itself.
pub open spec fn available_spec<F: Fn(&str) -> bool>(f: F, p: Seq<char>, r: Seq<char>) -> bool {
    ||| r == p && says(f, p, false)
    ||| r == p && says(f, p, true) && forall|m: nat| 2 <= m < 10000 ==> says(f, #[trigger] candidate_spec(p, m), true)
    ||| says(f, p, true) && exists|n: nat| 2 <= n < 10000 && r == candidate_spec(p, n) && says(f, candidate_spec(p, n), false)
        && forall|m: nat| 2 <= m < n ==> says(f, #[trigger] candidate_spec(p, m), true)
}

/// A path settled on other than the requested one is one of its alternatives `_2` ..
/// `_9999`, and `is_taken` reported it free.
pub proof fn law_chosen_path_is_free<F: Fn(&str) -> bool>(f: F, p: Seq<char>, r: Seq<char>)
    requires
        available_spec(f, p, r),
    ensures
        r != p ==> says(f, r, false),
        r != p ==> exists|n: nat| 2 <= n < 10000 && r == candidate_spec(p, n),
{
}

/// The stem and extension of `name`.
fn stem_ext_of(name: &Vec<char>) -> (r: (String, String))
    ensures
        (r.0@, r.1@) == stem_ext(name@),
{
    proof {
        reveal_strlit(".");
        reveal_strlit("..");
    }
    let n = name.len();
    if n == 0 || (n == 1 && name[0] == '.') || (n == 2 && name[0] == '.' && name[1] == '.') {
        proof {
            if n == 1 {
                assert(name@ =~= "."@);
            }
            if n == 2 {
                assert(name@ =~= ".."@);
            }
        }
        return (owned("output"), String::new());
    }
    proof {
        if name@ == "."@ {
            assert(name@.len() == 1);
        }
        if name@ == ".."@ {
            assert(name@.len() == 2 && name@[0] == '.' && name@[1] == '.');
        }
    }
    let dot = chars_of(".");
    match rfind_chars(name, &dot) {
        Some(i) => {
            if i > 0 {
                (string_of(name, 0, i), string_of(name, i + 1, n))
            } else {
                (string_of(name, 0, n), String::new())
            }
        },
        None => (string_of(name, 0, n), String::new()),
    }
}

/// The components `b` with `c` added as a verbatim path adds a component of a joined
/// relative path: "." adds nothing, ".." takes back a last plain component, anything else
/// is appended.
pub open spec fn push_comp(b: Seq<Seq<char>>, c: Seq<char>) -> Seq<Seq<char>> {
    if c == "."@ {
        b
    } else if c == ".."@ {
        if b.len() > 0 && b.last() != "."@ && b.last() != ".."@ { b.drop_last() } else { b }
    } else {
        b.push(c)
    }
}

/// The components `b` with every one of `cs` added in turn.
pub open spec fn push_comps(b: Seq<Seq<char>>, cs: Seq<Seq<char>>) -> Seq<Seq<char>>
    decreases cs.len(),
{
    if cs.len() == 0 {
        b
    } else {
        push_comp(push_comps(b, cs.drop_last()), cs.last())
    }
}

/// Components written out with '\\' between them.
pub open spec fn join_sep(b: Seq<Seq<char>>) -> Seq<char>
    decreases b.len(),
{
    if b.len() == 0 {
        Seq::empty()
    } else if b.len() == 1 {
        b[0]
    } else {
        join_sep(b.drop_last()) + "\\"@ + b.last()
    }
}

/// `name` joined onto a verbatim folder with prefix `pre`, a root or not, and components
/// `pc` (`PathBuf::push` on a verbatim path): a name with a prefix of its own replaces
/// the folder; otherwise the path is written anew from its components, a rooted name
/// keeping only the prefix, "." and ".." of the name applied, '\\' between components.
pub open spec fn vjoin_spec(pre: Seq<char>, root: bool, pc: Seq<Seq<char>>, name: Seq<char>) -> Seq<char> {
    if prefix_kind(name) != 0 {
        name
    } else {
        let nr = rooted(name);
        let b = push_comps(if nr { Seq::empty() } else { pc }, components(pieces(name, false), false));
        pre + (if nr || root || b.len() > 0 { "\\"@ } else { Seq::<char>::empty() }) + join_sep(b)
    }
}

/// A copy of a list of strings.
fn copy_strings(v: &Vec<String>) -> (r: Vec<String>)
    ensures
        strs(r@) == strs(v@),
{
    let mut out: Vec<String> = Vec::new();
    let mut i: usize = 0;
    while i < v.len()
        invariant
            i <= v@.len(),
            strs(out@) == strs(v@).take(i as int),
        decreases v@.len() - i,
    {
        push_string(&mut out, owned(v[i].as_str()));
        assert(strs(v@).take(i + 1) =~= strs(v@).take(i as int).push(v@[i as int]@));
        i = i + 1;
    }
    assert(strs(v@).take(i as int) =~= strs(v@));
    out
}

/// `name` joined onto a verbatim folder.
fn vjoin(pre: &String, root: bool, pc: &Vec<String>, name: &String) -> (r: String)
    ensures
        r@ == vjoin_spec(pre@, root, strs(pc@), name@),
{
    proof {
        reveal_strlit(".");
        reveal_strlit("..");
        reveal_strlit("\\");
    }
    let nv = chars_of(name.as_str());
    let (_nk, nkind) = prefix_of(&nv);
    if nkind != 0 {
        return owned(name.as_str());
    }
    let nr = nv.len() > 0 && (nv[0] == '/' || nv[0] == '\\');
    assert(nr == rooted(name@));
    let cs = components_of(&pieces_of(&nv, false), false);
    let ghost csv = strs(cs@);
    let mut b: Vec<String> = if nr { Vec::new() } else { copy_strings(pc) };
    let ghost b0 = strs(b@);
    assert(b0 == (if nr { Seq::<Seq<char>>::empty() } else { strs(pc@) }));
    let mut i: usize = 0;
    while i < cs.len()
        invariant
            csv == strs(cs@),
            i <= cs@.len(),
            strs(b@) == push_comps(b0, csv.take(i as int)),
        decreases cs@.len() - i,
    {
        proof {
            reveal_strlit(".");
            reveal_strlit("..");
        }
        assert(csv.take(i + 1).drop_last() =~= csv.take(i as int));
        assert(csv.take(i + 1).last() == cs@[i as int]@);
        let c = cs[i].as_str();
        if str_eq(c, ".") {
        } else if str_eq(c, "..") {
            if b.len() > 0 && !str_eq(b[b.len() - 1].as_str(), ".") && !str_eq(b[b.len() - 1].as_str(), "..") {
                let ghost before = strs(b@);
                b.pop();
                assert(strs(b@) =~= before.drop_last());
            }
        } else {
            push_string(&mut b, owned(c));
        }
        i = i + 1;
    }
    assert(csv.take(i as int) =~= csv);
    let mut s = owned(pre.as_str());
    if nr || root || b.len() > 0 {
        push_str(&mut s, "\\");
    }
    let ghost head = s@;
    let ghost bv = strs(b@);
    let mut j: usize = 0;
    assert(bv.take(0) =~= Seq::<Seq<char>>::empty());
    while j < b.len()
        invariant
            bv == strs(b@),
            j <= b@.len(),
            s@ == head + join_sep(bv.take(j as int)),
        decreases b@.len() - j,
    {
        assert(bv.take(j + 1).drop_last() =~= bv.take(j as int));
        assert(bv.take(j + 1).last() == b@[j as int]@);
        if j > 0 {
            push_str(&mut s, "\\");
        } else {
            assert(bv.take(1) =~= seq![b@[0]@]);
        }
        push_str(&mut s, b[j].as_str());
        assert(s@ =~= head + join_sep(bv.take(j + 1)));
        j = j + 1;
    }
    assert(bv.take(j as int) =~= bv);
    s
}

/// Where the alternatives of a path go: joined onto the folder `dir` (not verbatim), or
/// onto a verbatim folder with prefix `dir`, root `root` and components `pc`.
pub open spec fn place_name(verb: bool, dir: Seq<char>, root: bool, pc: Seq<Seq<char>>, name: Seq<char>) -> Seq<char> {
    if verb { vjoin_spec(dir, root, pc, name) } else { join_spec(dir, name, '\\') }
}

/// Builds the `n`-th alternative from its place and the parts of its name.
fn make_candidate(verb: bool, dir: &String, root: bool, pc: &Vec<String>, stem: &String, ext: &String, n: u64) -> (r: String)
    ensures
        r@ == place_name(verb, dir@, root, strs(pc@), alt_name(stem@, ext@, n as nat)),
{
    let mut s = stem.clone();
    push_str(&mut s, "_");
    push_dec(&mut s, n);
    if !ext.as_str().is_empty() {
        push_str(&mut s, ".");
        push_str(&mut s, ext.as_str());
    }
    assert(s@ =~= alt_name(stem@, ext@, n as nat));
    if verb {
        vjoin(dir, root, pc, &s)
    } else {
        join_path(dir.as_str(), s.as_str(), '\\')
    }
}

/// A path for the output that does not clobber an existing file: the requested one when
/// `is_taken` says it is free, else `<stem>_2`, `<stem>_3`, ... up to `_9999` in the same
/// folder.
pub fn available_output_path<F: Fn(&str) -> bool>(requested: &str, is_taken: &F) -> (r: String)
    requires
        forall|s: &str| call_requires(*is_taken, (s,)),
    ensures
        available_spec(*is_taken, requested@, r@),
{
    let taken = is_taken(requested);
    if !taken {
        return owned(requested);
    }
    let v = chars_of(requested);
    let len = v.len();
    let (k, kind) = prefix_of(&v);
    let verb = kind >= 4;
    let phys = k < len && (v[k] == '\\' || (!verb && v[k] == '/'));
    let cd: usize = if !phys && k < len && v[k] == '.' && (k + 1 == len || v[k + 1] == '/' || v[k + 1] == '\\') {
        1
    } else {
        0
    };
    let s: usize = k + (if phys { 1 } else { 0 }) + cd;
    let ghost p = requested@;
    assert(s as int == body_start(p));
    let e = trim_end_of(&v, s, len);
    let mut pc: Vec<String> = Vec::new();
    let mut root = false;
    let mut vplace = false;
    let (dir, stem, ext) = if verb {
        let comps = body_of(&v, k, true);
        if comps.len() == 0 {
            (String::new(), owned("output"), String::new())
        } else {
            let last = chars_of(comps[comps.len() - 1].as_str());
            let (stem, ext) = stem_ext_of(&last);
            let mut j: usize = 0;
            let upto = comps.len() - 1;
            while j < upto
                invariant
                    upto == comps@.len() - 1,
                    j <= upto,
                    comps@.len() > 0,
                    strs(pc@) == strs(comps@).take(j as int),
                decreases comps@.len() - j,
            {
                push_string(&mut pc, owned(comps[j].as_str()));
                assert(strs(comps@).take(j + 1) =~= strs(comps@).take(j as int).push(comps@[j as int]@));
                j = j + 1;
            }
            assert(strs(pc@) =~= strs(comps@).drop_last());
            root = phys;
            vplace = true;
            (string_of(&v, 0, k), stem, ext)
        }
    } else if e > s {
        let ls = piece_start_of(&v, s, e);
        let name = {
            let nv = string_of(&v, ls, e);
            chars_of(nv.as_str())
        };
        let (stem, ext) = stem_ext_of(&name);
        let pe = trim_end_of(&v, s, ls);
        (string_of(&v, 0, pe), stem, ext)
    } else if cd == 1 {
        (string_of(&v, 0, k), owned("output"), String::new())
    } else {
        (String::new(), owned("output"), String::new())
    };
    assert forall|m: nat| #[trigger] candidate_spec(p, m) == place_name(vplace, dir@, root, strs(pc@), alt_name(stem@, ext@, m)) by {
        if !vplace && ((verb && body(p).len() == 0) || (!verb && e <= s && cd != 1)) {
            assert(join_spec(dir@, alt_name(stem@, ext@, m), '\\') =~= alt_name(stem@, ext@, m));
        }
    }
    assert(says(*is_taken, p, true));
    let mut n: u64 = 2;
    while n < 10000
        invariant
            2 <= n <= 10000,
            p == requested@,
            forall|m: nat| #[trigger] candidate_spec(p, m) == place_name(vplace, dir@, root, strs(pc@), alt_name(stem@, ext@, m)),
            says(*is_taken, p, true),
            forall|s: &str| call_requires(*is_taken, (s,)),
            forall|m: nat| 2 <= m < n ==> says(*is_taken, #[trigger] candidate_spec(p, m), true),
        decreases 10000 - n,
    {
        let cand = make_candidate(vplace, &dir, root, &pc, &stem, &ext, n);
        assert(cand@ == candidate_spec(p, n as nat));
        let t = is_taken(cand.as_str());
        if !t {
            assert(says(*is_taken, candidate_spec(p, n as nat), false));
            return cand;
        }
        assert(says(*is_taken, candidate_spec(p, n as nat), true));
        n = n + 1;
    }
    owned(requested)
}


/// `name` joined onto the folder `dir` (as `PathBuf::join` does for a name without
/// separators): a name that starts with a drive replaces the folder; no separator is
/// added after an empty folder, one that already ends with one, or a bare drive such as
/// `C:`; otherwise `sep`, the platform's separator.
pub open spec fn join_spec(dir: Seq<char>, name: Seq<char>, sep: char) -> Seq<char> {
    if has_drive(name) {
        name
    } else if dir.len() == 0 || is_sep(dir.last()) || (has_drive(dir) && dir.len() == 2) {
        dir + name
    } else {
        dir.push(sep) + name
    }
}

/// `dir` joined with the relative `name`.
pub fn join_path(dir: &str, name: &str, sep: char) -> (r: String)
    ensures
        r@ == join_spec(dir@, name@, sep),
{
    let nm = chars_of(name);
    if nm.len() >= 2 && is_letter_of(nm[0]) && nm[1] == ':' {
        return owned(name);
    }
    let v = chars_of(dir);
    let mut s = owned(dir);
    if v.len() > 0 && (v[v.len() - 1] == '/' || v[v.len() - 1] == '\\') {
        push_str(&mut s, name);
    } else if v.len() == 0 || (v.len() == 2 && is_letter_of(v[0]) && v[1] == ':') {
        push_str(&mut s, name);
    } else {
        push_char(&mut s, sep);
        push_str(&mut s, name);
    }
    s
}

/// Where the installed FFmpeg release is remembered.
pub fn marker_path(bin_dir: &str, sep: char) -> (r: String)
    ensures
        r@ == join_spec(bin_dir@, "ffmpeg_release.txt"@, sep),
{
    join_path(bin_dir, "ffmpeg_release.txt", sep)
}

/// The bundled yt-dlp, when `is_file` finds it in the tools folder.
pub fn ytdlp_path<F: Fn(&str) -> bool>(bin_dir: &str, sep: char, is_file: &F) -> (r: Option<String>)
    requires
        forall|s: &str| call_requires(*is_file, (s,)),
    ensures
        ({
            let local = join_spec(bin_dir@, "yt-dlp.exe"@, sep);
            ||| says(*is_file, local, true) && opt_chars(r) == Some(local)
            ||| says(*is_file, local, false) && r is None
        }),
{
    let local = join_path(bin_dir, "yt-dlp.exe", sep);
    if is_file(local.as_str()) {
        Some(local)
    } else {
        None
    }
}

/// Where a tool is found: the bundled copy `<bin>/<file>` when it exists, else the bare
/// `<name>` when `runs` says it answers on the PATH, else nowhere.
pub open spec fn tool_found<F: Fn(&str) -> bool, G: Fn(&str) -> bool>(
    is_file: F,
    runs: G,
    bin_dir: Seq<char>,
    sep: char,
    file: Seq<char>,
    name: Seq<char>,
    r: Option<Seq<char>>,
) -> bool {
    let local = join_spec(bin_dir, file, sep);
    ||| says(is_file, local, true) && r == Some(local)
    ||| says(is_file, local, false) && says(runs, name, true) && r == Some(name)
    ||| says(is_file, local, false) && says(runs, name, false) && r is None
}

fn locate_one<F: Fn(&str) -> bool, G: Fn(&str) -> bool>(bin_dir: &str, sep: char, file: &str, name: &str, is_file: &F, runs: &G) -> (r: Option<String>)
    requires
        forall|s: &str| call_requires(*is_file, (s,)),
        forall|s: &str| call_requires(*runs, (s,)),
    ensures
        tool_found(*is_file, *runs, bin_dir@, sep, file@, name@, opt_chars(r)),
{
    let local = join_path(bin_dir, file, sep);
    if is_file(local.as_str()) {
        Some(local)
    } else if runs(name) {
        Some(owned(name))
    } else {
        None
    }
}

/// The characters of an optional string.
pub open spec fn opt_chars(r: Option<String>) -> Option<Seq<char>> {
    match r {
        Some(x) => Some(x@),
        None => None,
    }
}

/// Finds ffmpeg and ffprobe, preferring the bundled copies in `bin_dir` over the PATH.
pub fn locate_tools<F: Fn(&str) -> bool, G: Fn(&str) -> bool>(bin_dir: &str, sep: char, is_file: &F, runs: &G) -> (r: (Option<String>, Option<String>))
    requires
        forall|s: &str| call_requires(*is_file, (s,)),
        forall|s: &str| call_requires(*runs, (s,)),
    ensures
        tool_found(*is_file, *runs, bin_dir@, sep, "ffmpeg.exe"@, "ffmpeg"@, opt_chars(r.0)),
        tool_found(*is_file, *runs, bin_dir@, sep, "ffprobe.exe"@, "ffprobe"@, opt_chars(r.1)),
{
    let m = locate_one(bin_dir, sep, "ffmpeg.exe", "ffmpeg", is_file, runs);
    let p = locate_one(bin_dir, sep, "ffprobe.exe", "ffprobe", is_file, runs);
    (m, p)
}

/// Name of a scratch file: `<prefix>_<pid>_<n>`, plus `.<extension>` when there is one.
pub open spec fn temp_name_spec(prefix: Seq<char>, pid: nat, n: nat, extension: Seq<char>) -> Seq<char> {
    prefix + "_"@ + dec(pid) + "_"@ + dec(n) + (if extension.len() == 0 { Seq::<char>::empty() } else { "."@ + extension })
}

/// The name of the `n`-th scratch file of process `pid`.
pub fn temp_name(prefix: &str, pid: u32, n: u64, extension: &str) -> (r: String)
    ensures
        r@ == temp_name_spec(prefix@, pid as nat, n as nat, extension@),
{
    let mut s = owned(prefix);
    push_str(&mut s, "_");
    push_dec(&mut s, pid as u64);
    push_str(&mut s, "_");
    push_dec(&mut s, n);
    if !extension.is_empty() {
        push_str(&mut s, ".");
        push_str(&mut s, extension);
    }
    assert(s@ =~= temp_name_spec(prefix@, pid as nat, n as nat, extension@));
    s
}


/// The pieces of `p` between separators (only '\\' when `v`), empty ones included.
pub open spec fn pieces(p: Seq<char>, v: bool) -> Seq<Seq<char>>
    decreases p.len(),
{
    if p.len() == 0 {
        seq![Seq::empty()]
    } else {
        let q = pieces(p.drop_last(), v);
        if sep_v(p.last(), v) {
            q.push(Seq::empty())
        } else if q.len() > 0 {
            q.update(q.len() - 1, q.last().push(p.last()))
        } else {
            seq![seq![p.last()]]
        }
    }
}

/// The components of a path from its pieces: empty pieces (repeated or trailing
/// separators) drop out, and so do "." pieces other than a leading one, except in a
/// verbatim path (`v`), which keeps them.
pub open spec fn components(ps: Seq<Seq<char>>, v: bool) -> Seq<Seq<char>>
    decreases ps.len(),
{
    if ps.len() == 0 {
        Seq::empty()
    } else {
        let c = components(ps.drop_last(), v);
        let x = ps.last();
        if x.len() > 0 && (v || !(x == "."@ && ps.len() > 1)) { c.push(x) } else { c }
    }
}

/// The components of `p` after its prefix.
pub open spec fn body(p: Seq<char>) -> Seq<Seq<char>> {
    components(pieces(after_prefix(p), verbatim(p)), verbatim(p))
}

/// Two paths name the same file, as Windows paths compare (`Path`'s `==`): the same
/// prefix, both or neither rooted, and the same components after the prefix.
pub open spec fn same_path_spec(a: Seq<char>, b: Seq<char>) -> bool {
    &&& same_prefix(a, b)
    &&& rooted(a) == rooted(b)
    &&& body(a) == body(b)
}

proof fn lemma_pieces_nonempty(p: Seq<char>, v: bool)
    ensures
        pieces(p, v).len() > 0,
    decreases p.len(),
{
    if p.len() > 0 {
        lemma_pieces_nonempty(p.drop_last(), v);
    }
}

fn pieces_of(v: &Vec<char>, verb: bool) -> (r: Vec<String>)
    ensures
        strs(r@) == pieces(v@, verb),
{
    let n = v.len();
    let mut done: Vec<String> = Vec::new();
    let mut start: usize = 0;
    let mut i: usize = 0;
    assert(v@.take(0) =~= Seq::<char>::empty());
    assert(v@.subrange(0, 0) =~= Seq::<char>::empty());
    while i < n
        invariant
            n == v@.len(),
            start <= i <= n,
            pieces(v@.take(i as int), verb) == strs(done@).push(v@.subrange(start as int, i as int)),
        decreases n - i,
    {
        let ghost before = v@.take(i as int);
        assert(v@.take(i + 1).drop_last() =~= before);
        assert(v@.take(i + 1).last() == v@[i as int]);
        proof {
            lemma_pieces_nonempty(before, verb);
        }
        let c = v[i];
        if c == '\\' || (!verb && c == '/') {
            let piece = string_of(v, start, i);
            push_string(&mut done, piece);
            start = i + 1;
            assert(v@.subrange(start as int, i + 1) =~= Seq::<char>::empty());
        } else {
            assert(v@.subrange(start as int, i + 1) =~= v@.subrange(start as int, i as int).push(c));
            assert(pieces(v@.take(i + 1), verb) =~= strs(done@).push(v@.subrange(start as int, i + 1)));
        }
        i = i + 1;
    }
    let last = string_of(v, start, n);
    push_string(&mut done, last);
    assert(v@.take(n as int) =~= v@);
    done
}

fn components_of(ps: &Vec<String>, verb: bool) -> (r: Vec<String>)
    ensures
        strs(r@) == components(strs(ps@), verb),
{
    proof {
        reveal_strlit(".");
    }
    let ghost l = strs(ps@);
    let mut out: Vec<String> = Vec::new();
    let mut i: usize = 0;
    while i < ps.len()
        invariant
            l == strs(ps@),
            i <= ps@.len(),
            strs(out@) == components(l.take(i as int), verb),
        decreases ps@.len() - i,
    {
        proof {
            reveal_strlit(".");
        }
        assert(l.take(i + 1).drop_last() =~= l.take(i as int));
        assert(l.take(i + 1).last() == ps@[i as int]@);
        let x = ps[i].as_str();
        if !x.is_empty() && (verb || !(str_eq(x, ".") && i > 0)) {
            push_string(&mut out, ps[i].clone());
        }
        i = i + 1;
    }
    assert(l.take(i as int) =~= l);
    out
}

/// The text of `v[lo..hi]`, or nothing when `hi <= lo`.
fn part_of(v: &Vec<char>, lo: usize, hi: usize) -> (r: String)
    requires
        hi <= v@.len(),
    ensures
        r@ == (if lo < hi { v@.subrange(lo as int, hi as int) } else { Seq::<char>::empty() }),
{
    if lo < hi { string_of(v, lo, hi) } else { String::new() }
}

/// Whether the prefixes of two paths agree.
fn same_prefix_of(av: &Vec<char>, ka: usize, kind_a: u8, bv: &Vec<char>, kb: usize, kind_b: u8) -> (r: bool)
    requires
        ka as int == prefix_len(av@),
        kind_a as int == prefix_kind(av@),
        kb as int == prefix_len(bv@),
        kind_b as int == prefix_kind(bv@),
        ka <= av@.len(),
        kb <= bv@.len(),
    ensures
        r == same_prefix(av@, bv@),
{
    proof {
        lemma_prefix_len_bounds(av@);
        lemma_prefix_len_bounds(bv@);
        if av@.len() >= 2 {
            lemma_piece_end_bounds(av@, 2, false);
        }
        if bv@.len() >= 2 {
            lemma_piece_end_bounds(bv@, 2, false);
        }
        if av@.len() >= 4 {
            lemma_piece_end_bounds(av@, 4, false);
            lemma_piece_end_bounds(av@, 4, true);
        }
        if bv@.len() >= 4 {
            lemma_piece_end_bounds(bv@, 4, false);
            lemma_piece_end_bounds(bv@, 4, true);
        }
        if av@.len() >= 8 {
            lemma_piece_end_bounds(av@, 8, true);
        }
        if bv@.len() >= 8 {
            lemma_piece_end_bounds(bv@, 8, true);
        }
    }
    if kind_a != kind_b {
        return false;
    }
    if kind_a == 1 {
        drive_key_of(av[0]) == drive_key_of(bv[0])
    } else if kind_a == 6 {
        drive_key_of(av[4]) == drive_key_of(bv[4])
    } else if kind_a == 2 {
        let ea = piece_end_of(av, 2, false);
        let eb = piece_end_of(bv, 2, false);
        let server_a = string_of(av, 2, ea);
        let server_b = string_of(bv, 2, eb);
        let share_a = string_of(av, ea + 1, ka);
        let share_b = string_of(bv, eb + 1, kb);
        str_eq(server_a.as_str(), server_b.as_str()) && str_eq(share_a.as_str(), share_b.as_str())
    } else if kind_a == 3 || kind_a == 4 {
        let na = string_of(av, 4, ka);
        let nb = string_of(bv, 4, kb);
        str_eq(na.as_str(), nb.as_str())
    } else if kind_a == 5 {
        let ea = piece_end_of(av, 8, true);
        let eb = piece_end_of(bv, 8, true);
        let server_a = string_of(av, 8, ea);
        let server_b = string_of(bv, 8, eb);
        let share_a = if ea < av.len() { part_of(av, ea + 1, ka) } else { String::new() };
        let share_b = if eb < bv.len() { part_of(bv, eb + 1, kb) } else { String::new() };
        str_eq(server_a.as_str(), server_b.as_str()) && str_eq(share_a.as_str(), share_b.as_str())
    } else {
        true
    }
}

/// The components of a path after its prefix.
fn body_of(v: &Vec<char>, k: usize, verb: bool) -> (r: Vec<String>)
    requires
        k as int == prefix_len(v@),
        k <= v@.len(),
        verb == verbatim(v@),
    ensures
        strs(r@) == body(v@),
{
    let rest = {
        let t = string_of(v, k, v.len());
        chars_of(t.as_str())
    };
    assert(rest@ =~= after_prefix(v@));
    components_of(&pieces_of(&rest, verb), verb)
}

/// Whether two paths name the same file.
pub fn same_path(a: &str, b: &str) -> (r: bool)
    ensures
        r == same_path_spec(a@, b@),
{
    let av = chars_of(a);
    let bv = chars_of(b);
    let (ka, kind_a) = prefix_of(&av);
    let (kb, kind_b) = prefix_of(&bv);
    if !same_prefix_of(&av, ka, kind_a, &bv, kb, kind_b) {
        return false;
    }
    let va = kind_a >= 4;
    let vb = kind_b >= 4;
    let ra = (ka < av.len() && (av[ka] == '\\' || (!va && av[ka] == '/'))) || kind_a == 2 || kind_a == 3;
    let rb = (kb < bv.len() && (bv[kb] == '\\' || (!vb && bv[kb] == '/'))) || kind_b == 2 || kind_b == 3;
    assert(ra == rooted(a@));
    assert(rb == rooted(b@));
    if ra != rb {
        return false;
    }
    let ca = body_of(&av, ka, va);
    let cb = body_of(&bv, kb, vb);
    if ca.len() != cb.len() {
        assert(strs(ca@).len() != strs(cb@).len());
        return false;
    }
    let mut i: usize = 0;
    while i < ca.len()
        invariant
            ca@.len() == cb@.len(),
            i <= ca@.len(),
            strs(ca@) == body(a@),
            strs(cb@) == body(b@),
            rooted(a@) == rooted(b@),
            same_prefix(a@, b@),
            forall|j: int| 0 <= j < i ==> strs(ca@)[j] == strs(cb@)[j],
        decreases ca@.len() - i,
    {
        if !str_eq(ca[i].as_str(), cb[i].as_str()) {
            assert(strs(ca@)[i as int] != strs(cb@)[i as int]);
            return false;
        }
        i = i + 1;
    }
    assert(strs(ca@) =~= strs(cb@));
    true
}

/// The message when a conversion would write over its own input.
pub open spec fn same_file_message() -> Seq<char> {
    "The output file must be different from the original."@
}

/// A conversion may not write over its input.
pub fn check_distinct_output(input: &str, output: &str) -> (r: Result<(), String>)
    ensures
        r is Ok <==> !same_path_spec(input@, output@),
        r matches Err(e) ==> e@ == same_file_message(),
{
    if same_path(input, output) {
        Err(owned("The output file must be different from the original."))
    } else {
        Ok(())
    }
}


/// Every path names the same file as itself, and sameness does not depend on the order:
/// so a conversion onto its own input is always refused.
pub proof fn law_same_path_is_an_equivalence(a: Seq<char>, b: Seq<char>, c: Seq<char>)
    ensures
        same_path_spec(a, a),
        same_path_spec(a, b) == same_path_spec(b, a),
        same_path_spec(a, b) && same_path_spec(b, c) ==> same_path_spec(a, c),
{
}

} // verus!
