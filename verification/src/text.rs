//! Joining lists of text fragments.
use vstd::prelude::*;

verus! {

/// `parts` separated by `sep` (no leading or trailing separator).
pub open spec fn join(parts: Seq<Seq<char>>, sep: Seq<char>) -> Seq<char>
    decreases parts.len(),
{
    if parts.len() == 0 {
        Seq::empty()
    } else if parts.len() == 1 {
        parts[0]
    } else {
        join(parts.drop_last(), sep) + sep + parts.last()
    }
}

/// The views of a list of string slices.
pub open spec fn views(parts: Seq<&str>) -> Seq<Seq<char>> {
    parts.map_values(|p: &str| p@)
}

/// Joins string slices with a separator (`parts.join(sep)`).
pub fn join_strs(parts: &Vec<&str>, sep: &str) -> (res: String)
    ensures
        res@ == join(views(parts@), sep@),
{
    let mut res = String::new();
    let ghost all = views(parts@);
    let mut i: usize = 0;
    while i < parts.len()
        invariant
            i <= parts.len(),
            all == views(parts@),
            res@ == join(all.take(i as int), sep@),
        decreases parts.len() - i,
    {
        if i != 0 {
            res.append(sep);
        }
        res.append(parts[i]);
        proof {
            assert(all.take(i + 1).drop_last() =~= all.take(i as int));
            assert(all.take(i + 1).last() == parts@[i as int]@);
            if i == 0 {
                assert(all.take(1).len() == 1);
                assert(res@ =~= join(all.take(1), sep@));
            }
        }
        i += 1;
    }
    assert(all.take(parts.len() as int) =~= all);
    res
}

/// ASCII upper-casing of one character (`char::to_ascii_uppercase`).
pub open spec fn ascii_upper(c: char) -> char {
    if 'a' <= c && c <= 'z' { ((c as u32) - 32) as char } else { c }
}

/// ASCII lower-casing of one character (`char::to_ascii_lowercase`).
pub open spec fn ascii_lower(c: char) -> char {
    if 'A' <= c && c <= 'Z' { ((c as u32) + 32) as char } else { c }
}

/// `s` with every ASCII letter folded to upper case (`upper`) or lower case.
pub open spec fn fold_case(s: Seq<char>, upper: bool) -> Seq<char> {
    s.map_values(|c: char| if upper { ascii_upper(c) } else { ascii_lower(c) })
}

/// `needle` occurs in `hay` as a contiguous run.
pub open spec fn occurs_in(hay: Seq<char>, needle: Seq<char>) -> bool {
    exists|i: int| 0 <= i <= hay.len() - needle.len() && #[trigger] hay.subrange(i, i + needle.len()) == needle
}

fn fold_char(c: char, upper: bool) -> (r: char)
    ensures
        r == (if upper { ascii_upper(c) } else { ascii_lower(c) }),
{
    if upper {
        if 'a' <= c && c <= 'z' {
            let u: u32 = (c as u32) - 32;
            assert(u < 0xD800);
            char_from_ascii(u)
        } else {
            c
        }
    } else {
        if 'A' <= c && c <= 'Z' {
            let u: u32 = (c as u32) + 32;
            char_from_ascii(u)
        } else {
            c
        }
    }
}

fn char_from_ascii(u: u32) -> (c: char)
    requires
        u < 128,
    ensures
        c == u as char,
{
    let b: u8 = u as u8;
    b as char
}

/// Whether `needle` occurs in `hay` after ASCII case folding of `hay`
/// (the needle is compared as given).
pub fn contains_folded(hay: &str, needle: &str, upper: bool) -> (b: bool)
    ensures
        b == occurs_in(fold_case(hay@, upper), needle@),
{
    let n = hay.unicode_len();
    let m = needle.unicode_len();
    let ghost h = fold_case(hay@, upper);
    if m > n {
        assert forall|i: int| 0 <= i <= h.len() - needle@.len() implies #[trigger] h.subrange(
            i,
            i + needle@.len(),
        ) != needle@ by {}
        return false;
    }
    let mut i: usize = 0;
    while i <= n - m
        invariant
            n == hay@.len(),
            m == needle@.len(),
            m <= n,
            i <= n - m + 1,
            h == fold_case(hay@, upper),
            forall|k: int| 0 <= k < i ==> #[trigger] h.subrange(k, k + m) != needle@,
        decreases n - i,
    {
        let mut j: usize = 0;
        let mut ok = true;
        while j < m
            invariant
                n == hay@.len(),
                m == needle@.len(),
                i + m <= n,
                j <= m,
                h == fold_case(hay@, upper),
                ok <==> forall|t: int| 0 <= t < j ==> h[i + t] == needle@[t],
            decreases m - j,
        {
            let c = fold_char(hay.get_char(i + j), upper);
            if c != needle.get_char(j) {
                ok = false;
            }
            j += 1;
        }
        if ok {
            assert(h.subrange(i as int, i + m) =~= needle@);
            return true;
        } else {
            assert(h.subrange(i as int, i + m) != needle@) by {
                let t = choose|t: int| 0 <= t < m && h[i + t] != needle@[t];
                assert(h.subrange(i as int, i + m)[t] == h[i + t]);
            }
        }
        i += 1;
    }
    false
}

/// Whether `needle` occurs in `hay` (`str::contains` on a string needle).
pub fn contains_str(hay: &str, needle: &str) -> (b: bool)
    ensures
        b == occurs_in(hay@, needle@),
{
    let n = hay.unicode_len();
    let m = needle.unicode_len();
    let ghost h = hay@;
    if m > n {
        assert forall|i: int| 0 <= i <= h.len() - needle@.len() implies #[trigger] h.subrange(
            i,
            i + needle@.len(),
        ) != needle@ by {}
        return false;
    }
    let mut i: usize = 0;
    while i <= n - m
        invariant
            n == hay@.len(),
            m == needle@.len(),
            m <= n,
            i <= n - m + 1,
            h == hay@,
            forall|k: int| 0 <= k < i ==> #[trigger] h.subrange(k, k + m) != needle@,
        decreases n - i,
    {
        let mut j: usize = 0;
        let mut ok = true;
        while j < m
            invariant
                n == hay@.len(),
                m == needle@.len(),
                i + m <= n,
                j <= m,
                h == hay@,
                ok <==> forall|t: int| 0 <= t < j ==> h[i + t] == needle@[t],
            decreases m - j,
        {
            if hay.get_char(i + j) != needle.get_char(j) {
                ok = false;
            }
            j += 1;
        }
        if ok {
            assert(h.subrange(i as int, i + m) =~= needle@);
            return true;
        } else {
            assert(h.subrange(i as int, i + m) != needle@) by {
                let t = choose|t: int| 0 <= t < m && h[i + t] != needle@[t];
                assert(h.subrange(i as int, i + m)[t] == h[i + t]);
            }
        }
        i += 1;
    }
    false
}

/// Whether `s` begins with `prefix` (`str::starts_with`).
pub fn starts_with_str(s: &str, prefix: &str) -> (b: bool)
    ensures
        b == (prefix@.len() <= s@.len() && s@.subrange(0, prefix@.len() as int) == prefix@),
{
    let n = s.unicode_len();
    let m = prefix.unicode_len();
    if m > n {
        return false;
    }
    let mut j: usize = 0;
    while j < m
        invariant
            n == s@.len(),
            m == prefix@.len(),
            m <= n,
            j <= m,
            forall|t: int| 0 <= t < j ==> s@[t] == prefix@[t],
        decreases m - j,
    {
        if s.get_char(j) != prefix.get_char(j) {
            assert(s@.subrange(0, m as int)[j as int] != prefix@[j as int]);
            return false;
        }
        j += 1;
    }
    assert(s@.subrange(0, m as int) =~= prefix@);
    true
}

/// Lexicographic order on text, character by character (for UTF-8 text the
/// same order as comparing the bytes).
pub open spec fn text_lt(a: Seq<char>, b: Seq<char>) -> bool
    decreases a.len(),
{
    if a.len() == 0 {
        b.len() > 0
    } else if b.len() == 0 {
        false
    } else if a[0] != b[0] {
        (a[0] as int) < (b[0] as int)
    } else {
        text_lt(a.drop_first(), b.drop_first())
    }
}

pub proof fn lemma_text_lt_irreflexive(a: Seq<char>)
    ensures
        !text_lt(a, a),
    decreases a.len(),
{
    if a.len() > 0 {
        lemma_text_lt_irreflexive(a.drop_first());
    }
}

pub proof fn lemma_text_lt_transitive(a: Seq<char>, b: Seq<char>, c: Seq<char>)
    requires
        text_lt(a, b),
        text_lt(b, c),
    ensures
        text_lt(a, c),
    decreases a.len(),
{
    if a.len() > 0 && b.len() > 0 && c.len() > 0 && a[0] == b[0] && b[0] == c[0] {
        lemma_text_lt_transitive(a.drop_first(), b.drop_first(), c.drop_first());
    }
}

pub proof fn lemma_text_lt_total(a: Seq<char>, b: Seq<char>)
    requires
        a != b,
    ensures
        text_lt(a, b) || text_lt(b, a),
    decreases a.len(),
{
    if a.len() > 0 && b.len() > 0 && a[0] == b[0] {
        if a.drop_first() == b.drop_first() {
            assert(a.drop_first().len() == b.drop_first().len());
            assert(a.len() == b.len());
            assert(a =~= b) by {
                assert forall|i: int| 0 <= i < a.len() implies a[i] == b[i] by {
                    if i > 0 {
                        assert(a[i] == a.drop_first()[i - 1]);
                        assert(b[i] == b.drop_first()[i - 1]);
                    }
                }
            }
        }
        lemma_text_lt_total(a.drop_first(), b.drop_first());
    } else if a.len() == 0 && b.len() == 0 {
        assert(a =~= b);
    }
}

pub proof fn lemma_text_lt_trichotomy(a: Seq<char>, b: Seq<char>)
    ensures
        text_lt(a, b) || text_lt(b, a) || a == b,
{
    if a != b {
        lemma_text_lt_total(a, b);
    }
}

/// Whether `a` sorts strictly before `b` (`text_lt`).
pub fn str_lt(a: &str, b: &str) -> (r: bool)
    ensures
        r == text_lt(a@, b@),
{
    let n = a.unicode_len();
    let m = b.unicode_len();
    let mut i: usize = 0;
    assert(a@.skip(0) =~= a@ && b@.skip(0) =~= b@);
    while i < n && i < m
        invariant
            n == a@.len(),
            m == b@.len(),
            i <= n,
            i <= m,
            text_lt(a@, b@) == text_lt(a@.skip(i as int), b@.skip(i as int)),
        decreases n - i,
    {
        let x = a.get_char(i);
        let y = b.get_char(i);
        assert(a@.skip(i as int)[0] == x && b@.skip(i as int)[0] == y);
        if x != y {
            return x < y;
        }
        assert(a@.skip(i as int).drop_first() =~= a@.skip(i + 1));
        assert(b@.skip(i as int).drop_first() =~= b@.skip(i + 1));
        i += 1;
    }
    i < m
}



/// The texts of some strings.
pub open spec fn string_views(v: Seq<String>) -> Seq<Seq<char>> {
    v.map_values(|s: String| s@)
}

/// Joins strings with a separator (`v.join(sep)`).
pub fn join_strings(v: &Vec<String>, sep: &str) -> (res: String)
    ensures
        res@ == join(string_views(v@), sep@),
{
    let mut parts: Vec<&str> = Vec::new();
    let mut i: usize = 0;
    while i < v.len()
        invariant
            i <= v@.len(),
            parts@.len() == i,
            forall|q: int| 0 <= q < i ==> (#[trigger] parts@[q])@ == v@[q]@,
        decreases v@.len() - i,
    {
        parts.push(v[i].as_str());
        i += 1;
    }
    assert(views(parts@) =~= string_views(v@));
    join_strs(&parts, sep)
}


/// Whether `a` and `b` are the same text up to ASCII case
/// (`str::eq_ignore_ascii_case`).
pub fn eq_ignore_ascii_case(a: &str, b: &str) -> (r: bool)
    ensures
        r == (fold_case(a@, false) == fold_case(b@, false)),
{
    let n = a.unicode_len();
    if n != b.unicode_len() {
        proof {
            assert(fold_case(a@, false).len() != fold_case(b@, false).len());
        }
        return false;
    }
    let mut i: usize = 0;
    while i < n
        invariant
            n == a@.len(),
            n == b@.len(),
            i <= n,
            forall|k: int| 0 <= k < i ==> ascii_lower(#[trigger] a@[k]) == ascii_lower(b@[k]),
        decreases n - i,
    {
        if fold_char(a.get_char(i), false) != fold_char(b.get_char(i), false) {
            proof {
                assert(fold_case(a@, false)[i as int] != fold_case(b@, false)[i as int]);
            }
            return false;
        }
        i += 1;
    }
    proof {
        assert(fold_case(a@, false) =~= fold_case(b@, false));
    }
    true
}

} // verus!
