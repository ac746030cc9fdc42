//! Character and string utilities: ASCII case folding, suffix and substring
//! matching, and path decomposition (directory / base name).
use vstd::prelude::*;

verus! {

/// Case-folds one character: ASCII uppercase letters map to lowercase,
/// everything else is unchanged.
pub open spec fn lower_char(c: char) -> char {
    if 'A' <= c && c <= 'Z' {
        (((c as u8) + 32) as char)
    } else {
        c
    }
}

/// Case-folds a whole character sequence.
pub open spec fn lower_seq(s: Seq<char>) -> Seq<char> {
    s.map_values(|c: char| lower_char(c))
}

/// `s` ends with `suffix`, compared ASCII-case-insensitively.
pub open spec fn suffix_ci(s: Seq<char>, suffix: Seq<char>) -> bool {
    s.len() >= suffix.len() && lower_seq(s.subrange(s.len() - suffix.len(), s.len() as int))
        == lower_seq(suffix)
}

/// `needle` occurs contiguously somewhere in `hay`.
pub open spec fn contains_seq(hay: Seq<char>, needle: Seq<char>) -> bool {
    exists|i: int|
        0 <= i && i + needle.len() <= hay.len() && #[trigger] hay.subrange(i, i + needle.len())
            == needle
}

/// The part of `s` after its last `/`, or all of `s` when it has none.
pub open spec fn base_name_spec(s: Seq<char>) -> Seq<char> {
    match s.index_of_last('/') {
        Some(i) => s.subrange(i + 1, s.len() as int),
        None => s,
    }
}

/// The part of `s` before its last `/` (the slash excluded), or all of `s`
/// when it has none.
pub open spec fn parent_dir_spec(s: Seq<char>) -> Seq<char> {
    match s.index_of_last('/') {
        Some(i) => s.subrange(0, i),
        None => s,
    }
}

/// Case-folds one character (ASCII letters only).
pub fn to_lower_char(c: char) -> (r: char)
    ensures
        r == lower_char(c),
{
    if 'A' <= c && c <= 'Z' {
        ((c as u8) + 32) as char
    } else {
        c
    }
}

/// ASCII-case-insensitive suffix test.
pub fn ends_with_ignore_case(s: &str, suffix: &str) -> (r: bool)
    ensures
        r == suffix_ci(s@, suffix@),
{
    let n: usize = s.unicode_len();
    let m: usize = suffix.unicode_len();
    if n < m {
        return false;
    }
    let off: usize = n - m;
    let mut j: usize = 0;
    while j < m
        invariant
            m <= n,
            n == s@.len(),
            m == suffix@.len(),
            off == n - m,
            j <= m,
            forall|k: int| 0 <= k < j ==> lower_char(s@[off + k]) == lower_char(suffix@[k]),
        decreases m - j,
    {
        if to_lower_char(s.get_char(off + j)) != to_lower_char(suffix.get_char(j)) {
            proof {
                let sub = s@.subrange(off as int, n as int);
                assert(sub[j as int] == s@[off + j]);
                assert(lower_seq(sub)[j as int] != lower_seq(suffix@)[j as int]);
            }
            return false;
        }
        j += 1;
    }
    proof {
        let sub = s@.subrange(off as int, n as int);
        assert(lower_seq(sub) =~= lower_seq(suffix@)) by {
            assert forall|k: int| 0 <= k < m implies lower_seq(sub)[k] == lower_seq(suffix@)[k] by {
                assert(sub[k] == s@[off + k]);
            }
        }
    }
    true
}

/// Substring test: does `needle` occur anywhere in `hay`?
pub fn contains_str(hay: &str, needle: &str) -> (r: bool)
    ensures
        r == contains_seq(hay@, needle@),
{
    let n: usize = hay.unicode_len();
    let m: usize = needle.unicode_len();
    if m > n {
        return false;
    }
    if m == 0 {
        proof {
            assert(hay@.subrange(0, 0 + needle@.len() as int) =~= needle@);
        }
        return true;
    }
    let mut i: usize = 0;
    while i <= n - m
        invariant
            0 < m <= n,
            n == hay@.len(),
            m == needle@.len(),
            i <= n,
            forall|p: int| 0 <= p < i ==> #[trigger] hay@.subrange(p, p + m) != needle@,
        decreases n - i,
    {
        let mut j: usize = 0;
        let mut mismatch: bool = false;
        while j < m
            invariant
                i + m <= n,
            n == hay@.len(),
                m == needle@.len(),
                j <= m,
                !mismatch ==> forall|k: int| 0 <= k < j ==> hay@[i + k] == needle@[k],
                mismatch ==> hay@.subrange(i as int, i + m) != needle@,
            decreases m - j,
        {
            if hay.get_char(i + j) != needle.get_char(j) {
                proof {
                    let sub = hay@.subrange(i as int, i + m);
                    assert(sub[j as int] == hay@[i + j]);
                }
                mismatch = true;
                j = m;
            } else {
                j += 1;
            }
        }
        if !mismatch {
            proof {
                assert(hay@.subrange(i as int, i + m) =~= needle@);
            }
            return true;
        }
        i += 1;
    }
    proof {
        assert forall|p: int| 0 <= p && p + m <= n implies #[trigger] hay@.subrange(p, p + m)
            != needle@ by {
            assert(p < i);
        }
    }
    false
}

/// Character-wise string equality.
pub fn str_eq(a: &str, b: &str) -> (r: bool)
    ensures
        r == (a@ == b@),
{
    let n: usize = a.unicode_len();
    let m: usize = b.unicode_len();
    if n != m {
        return false;
    }
    let mut i: usize = 0;
    while i < n
        invariant
            n == a@.len(),
            n == b@.len(),
            i <= n,
            forall|k: int| 0 <= k < i ==> a@[k] == b@[k],
        decreases n - i,
    {
        if a.get_char(i) != b.get_char(i) {
            return false;
        }
        i += 1;
    }
    proof {
        assert(a@ =~= b@);
    }
    true
}

/// Lexicographic order on character sequences, by code point.
pub open spec fn lex_le(a: Seq<char>, b: Seq<char>) -> bool
    decreases a.len(),
{
    if a.len() == 0 {
        true
    } else if b.len() == 0 {
        false
    } else if a[0] != b[0] {
        a[0] < b[0]
    } else {
        lex_le(a.drop_first(), b.drop_first())
    }
}

/// The lexicographic order is total: one of the two directions holds.
pub proof fn lemma_lex_le_total(a: Seq<char>, b: Seq<char>)
    ensures
        lex_le(a, b) || lex_le(b, a),
    decreases a.len(),
{
    if a.len() != 0 && b.len() != 0 && a[0] == b[0] {
        lemma_lex_le_total(a.drop_first(), b.drop_first());
    }
}

/// The lexicographic order is transitive.
pub proof fn lemma_lex_le_trans(a: Seq<char>, b: Seq<char>, c: Seq<char>)
    requires
        lex_le(a, b),
        lex_le(b, c),
    ensures
        lex_le(a, c),
    decreases a.len(),
{
    if a.len() != 0 && b.len() != 0 && c.len() != 0 && a[0] == b[0] && b[0] == c[0] {
        lemma_lex_le_trans(a.drop_first(), b.drop_first(), c.drop_first());
    }
}

/// Lexicographic string comparison, by code point.
pub fn str_le(a: &str, b: &str) -> (r: bool)
    ensures
        r == lex_le(a@, b@),
{
    let n: usize = a.unicode_len();
    let m: usize = b.unicode_len();
    let mut i: usize = 0;
    proof {
        assert(a@.skip(0) =~= a@);
        assert(b@.skip(0) =~= b@);
    }
    while i < n && i < m
        invariant
            n == a@.len(),
            m == b@.len(),
            i <= n,
            i <= m,
            lex_le(a@, b@) == lex_le(a@.skip(i as int), b@.skip(i as int)),
        decreases n - i,
    {
        let ca = a.get_char(i);
        let cb = b.get_char(i);
        proof {
            assert(a@.skip(i as int)[0] == a@[i as int]);
            assert(b@.skip(i as int)[0] == b@[i as int]);
            assert(a@.skip(i as int).drop_first() =~= a@.skip(i + 1));
            assert(b@.skip(i as int).drop_first() =~= b@.skip(i + 1));
        }
        if ca < cb {
            return true;
        }
        if cb < ca {
            return false;
        }
        i += 1;
    }
    proof {
        if i >= n {
            assert(a@.skip(i as int).len() == 0);
        } else {
            assert(b@.skip(i as int).len() == 0);
            assert(a@.skip(i as int).len() > 0);
        }
    }
    n <= m
}

/// Index of the last `/` in `s`, if any.
fn find_last_slash(s: &str) -> (r: Option<usize>)
    ensures
        match r {
            Some(k) => s@.index_of_last('/') == Some(k as int),
            None => s@.index_of_last('/') is None,
        },
{
    let n: usize = s.unicode_len();
    let mut k: usize = n;
    while k > 0
        invariant
            n == s@.len(),
            k <= n,
            forall|j: int| k <= j < n ==> s@[j] != '/',
        decreases k,
    {
        k = k - 1;
        if s.get_char(k) == '/' {
            proof {
                s@.index_of_last_ensures('/');
                assert(s@.contains('/')) by {
                    assert(s@[k as int] == '/');
                }
                let w = s@.index_of_last('/').unwrap();
                assert(w == k) by {
                    if w < k {
                        assert(s@[k as int] != '/');
                    }
                    if w > k {
                        assert(s@[w] != '/');
                    }
                }
            }
            return Some(k);
        }
    }
    proof {
        s@.index_of_last_ensures('/');
        if s@.contains('/') {
            let w = choose|w: int| 0 <= w < s@.len() && s@[w] == '/';
            assert(s@[w] != '/');
        }
    }
    None
}

/// The file or directory name at the end of a path: everything after the
/// last `/`, or the whole path when it holds none.
pub fn base_name(path: &str) -> (r: String)
    ensures
        r@ == base_name_spec(path@),
{
    proof {
        path@.index_of_last_ensures('/');
    }
    match find_last_slash(path) {
        Some(i) => {
            let n: usize = path.unicode_len();
            path.substring_char(i + 1, n).to_owned()
        },
        None => path.to_owned(),
    }
}

/// The directory part of a path: everything before the last `/`, or the
/// whole path when it holds none.
pub fn parent_dir(path: &str) -> (r: String)
    ensures
        r@ == parent_dir_spec(path@),
{
    proof {
        path@.index_of_last_ensures('/');
    }
    match find_last_slash(path) {
        Some(i) => path.substring_char(0, i).to_owned(),
        None => path.to_owned(),
    }
}

} // verus!
