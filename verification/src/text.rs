//! Character-level text utilities shared by the header, cookie, query and
//! multipart code: conversions between `&str`/`String` and `Vec<char>`,
//! searching, splitting, trimming and number formatting/parsing, each with a
//! specification over `Seq<char>`.
use vstd::prelude::*;

verus! {

broadcast use vstd::string::group_string_axioms;

// ───────────────────────── conversions ─────────────────────────

/// `String::push` from std: appends one character.
#[verifier::external_body]
pub fn push_char(s: &mut String, c: char)
    ensures
        final(s)@ == old(s)@.push(c),
{
    s.push(c)
}

/// The characters of a string slice, in order.
pub fn chars_of(s: &str) -> (r: Vec<char>)
    ensures
        r@ == s@,
{
    let n = s.unicode_len();
    let mut r: Vec<char> = Vec::new();
    let mut i: usize = 0;
    while i < n
        invariant
            n == s@.len(),
            i <= n,
            r@ == s@.subrange(0, i as int),
        decreases n - i,
    {
        let c = s.get_char(i);
        r.push(c);
        i = i + 1;
        assert(r@ =~= s@.subrange(0, i as int));
    }
    assert(r@ =~= s@);
    r
}

/// A new string holding the characters `v[from..to]`.
pub fn string_from_range(v: &Vec<char>, from: usize, to: usize) -> (r: String)
    requires
        from <= to <= v.len(),
    ensures
        r@ == v@.subrange(from as int, to as int),
{
    let mut r = String::new();
    let mut i = from;
    while i < to
        invariant
            from <= i <= to <= v.len(),
            r@ == v@.subrange(from as int, i as int),
        decreases to - i,
    {
        push_char(&mut r, v[i]);
        i = i + 1;
        assert(r@ =~= v@.subrange(from as int, i as int));
    }
    r
}

/// A new string holding all the characters of `v`.
pub fn string_from_chars(v: &Vec<char>) -> (r: String)
    ensures
        r@ == v@,
{
    let r = string_from_range(v, 0, v.len());
    assert(v@.subrange(0, v@.len() as int) =~= v@);
    r
}

/// An owned copy of a string slice.
pub fn to_owned_string(s: &str) -> (r: String)
    ensures
        r@ == s@,
{
    s.to_string()
}

/// Appends the characters of `s` to `out`.
pub fn push_str(out: &mut String, s: &str)
    ensures
        final(out)@ == old(out)@ + s@,
{
    let cs = chars_of(s);
    push_chars(out, &cs);
}

/// Appends the characters of `v` to `out`.
pub fn push_chars(out: &mut String, v: &Vec<char>)
    ensures
        final(out)@ == old(out)@ + v@,
{
    let ghost start = out@;
    let mut i: usize = 0;
    while i < v.len()
        invariant
            i <= v.len(),
            out@ == start + v@.subrange(0, i as int),
        decreases v.len() - i,
    {
        push_char(out, v[i]);
        i = i + 1;
        assert(out@ =~= start + v@.subrange(0, i as int));
    }
    assert(v@.subrange(0, v@.len() as int) =~= v@);
}

/// Whether two character sequences are equal.
pub fn chars_eq(a: &Vec<char>, b: &Vec<char>) -> (r: bool)
    ensures
        r == (a@ == b@),
{
    if a.len() != b.len() {
        return false;
    }
    let mut i: usize = 0;
    while i < a.len()
        invariant
            a.len() == b.len(),
            i <= a.len(),
            forall|j: int| 0 <= j < i ==> a@[j] == b@[j],
        decreases a.len() - i,
    {
        if a[i] != b[i] {
            return false;
        }
        i = i + 1;
    }
    assert(a@ =~= b@);
    true
}

/// Whether two string slices hold the same characters.
pub fn str_eq(a: &str, b: &str) -> (r: bool)
    ensures
        r == (a@ == b@),
{
    let x = chars_of(a);
    let y = chars_of(b);
    chars_eq(&x, &y)
}

// ───────────────────────── searching ─────────────────────────

/// `p` occurs in `s` starting at position `i`.
pub open spec fn match_at(s: Seq<char>, p: Seq<char>, i: int) -> bool {
    0 <= i && i + p.len() <= s.len() && s.subrange(i, i + p.len()) == p
}

/// The first position at or after `i` where `p` occurs in `s`.
pub open spec fn find_from(s: Seq<char>, p: Seq<char>, i: int) -> Option<int>
    decreases s.len() + 1 - i,
{
    if i < 0 || i + p.len() > s.len() {
        None
    } else if match_at(s, p, i) {
        Some(i)
    } else {
        find_from(s, p, i + 1)
    }
}

/// The first position where `p` occurs in `s` (`str::find`).
pub open spec fn spec_find(s: Seq<char>, p: Seq<char>) -> Option<int> {
    find_from(s, p, 0)
}

/// What `find_from` returns: the least matching position, or none at all.
pub proof fn lemma_find_from(s: Seq<char>, p: Seq<char>, i: int)
    requires
        0 <= i,
    ensures
        find_from(s, p, i) matches Some(k) ==> i <= k && match_at(s, p, k) && (forall|j: int|
            i <= j < k ==> !match_at(s, p, j)),
        find_from(s, p, i) is None ==> forall|j: int| i <= j ==> !match_at(s, p, j),
    decreases s.len() + 1 - i,
{
    if i + p.len() > s.len() {
    } else if match_at(s, p, i) {
    } else {
        lemma_find_from(s, p, i + 1);
    }
}

/// The least position of a match, when one exists.
pub proof fn lemma_find(s: Seq<char>, p: Seq<char>)
    ensures
        spec_find(s, p) matches Some(k) ==> match_at(s, p, k) && (forall|j: int|
            0 <= j < k ==> !match_at(s, p, j)),
        spec_find(s, p) is None ==> forall|j: int| 0 <= j ==> !match_at(s, p, j),
{
    lemma_find_from(s, p, 0);
}

/// Whether `p` occurs in `s` at position `i`.
pub fn matches_at(s: &Vec<char>, p: &Vec<char>, i: usize) -> (r: bool)
    ensures
        r == match_at(s@, p@, i as int),
{
    if i > s.len() || p.len() > s.len() - i {
        return false;
    }
    let mut j: usize = 0;
    while j < p.len()
        invariant
            i + p.len() <= s.len(),
            j <= p.len(),
            forall|k: int| 0 <= k < j ==> s@[i + k] == p@[k],
        decreases p.len() - j,
    {
        if s[i + j] != p[j] {
            assert(s@.subrange(i as int, i + p.len())[j as int] != p@[j as int]);
            return false;
        }
        j = j + 1;
    }
    assert(s@.subrange(i as int, i + p.len()) =~= p@);
    true
}

/// The first position at or after `from` where `p` occurs in `s`.
pub fn find_chars_from(s: &Vec<char>, p: &Vec<char>, from: usize) -> (r: Option<usize>)
    ensures
        r matches Some(k) ==> find_from(s@, p@, from as int) == Some(k as int),
        r is None ==> find_from(s@, p@, from as int) is None,
{
    let mut i = from;
    if i > s.len() || p.len() > s.len() - i {
        return None;
    }
    let last = s.len() - p.len();
    while i <= last
        invariant
            from <= i,
            last + p.len() == s.len(),
            find_from(s@, p@, from as int) == find_from(s@, p@, i as int),
        decreases s.len() + 1 - i,
    {
        if matches_at(s, p, i) {
            return Some(i);
        }
        if i == last {
            assert(find_from(s@, p@, i as int + 1) is None);
            return None;
        }
        i = i + 1;
    }
    None
}

/// The first position where `p` occurs in `s`.
pub fn find_chars(s: &Vec<char>, p: &Vec<char>) -> (r: Option<usize>)
    ensures
        r matches Some(k) ==> spec_find(s@, p@) == Some(k as int),
        r is None ==> spec_find(s@, p@) is None,
{
    find_chars_from(s, p, 0)
}

/// The first position of character `c` in `s`.
pub open spec fn index_of_char(s: Seq<char>, c: char) -> Option<int> {
    spec_find(s, seq![c])
}

/// What `index_of_char` returns.
pub proof fn lemma_index_of_char(s: Seq<char>, c: char)
    ensures
        index_of_char(s, c) matches Some(k) ==> 0 <= k < s.len() && s[k] == c && (forall|j: int|
            0 <= j < k ==> s[j] != c),
        index_of_char(s, c) is None ==> forall|j: int| 0 <= j < s.len() ==> s[j] != c,
{
    lemma_find(s, seq![c]);
    if let Some(k) = index_of_char(s, c) {
        assert(s.subrange(k, k + 1)[0] == s[k]);
        assert forall|j: int| 0 <= j < k implies s[j] != c by {
            if s[j] == c {
                assert(s.subrange(j, j + 1) =~= seq![c]);
                assert(match_at(s, seq![c], j));
            }
        }
    } else {
        assert forall|j: int| 0 <= j < s.len() implies s[j] != c by {
            if s[j] == c {
                assert(s.subrange(j, j + 1) =~= seq![c]);
                assert(match_at(s, seq![c], j));
            }
        }
    }
}

/// The first position of character `c` in `s`.
pub fn find_char(s: &Vec<char>, c: char) -> (r: Option<usize>)
    ensures
        r matches Some(k) ==> index_of_char(s@, c) == Some(k as int),
        r is None ==> index_of_char(s@, c) is None,
{
    let mut i: usize = 0;
    while i < s.len()
        invariant
            i <= s.len(),
            forall|j: int| 0 <= j < i ==> s@[j] != c,
        decreases s.len() - i,
    {
        if s[i] == c {
            proof {
                lemma_index_of_char(s@, c);
            }
            return Some(i);
        }
        i = i + 1;
    }
    proof {
        lemma_index_of_char(s@, c);
    }
    None
}

/// `p` is a prefix of `s`.
pub open spec fn has_prefix(s: Seq<char>, p: Seq<char>) -> bool {
    p.len() <= s.len() && s.subrange(0, p.len() as int) == p
}

/// `str::strip_prefix`: the rest of `s` after the prefix `p`.
pub open spec fn spec_strip_prefix(s: Seq<char>, p: Seq<char>) -> Option<Seq<char>> {
    if has_prefix(s, p) {
        Some(s.subrange(p.len() as int, s.len() as int))
    } else {
        None
    }
}

/// `str::strip_prefix` on string slices.
pub fn strip_prefix<'a>(s: &'a str, p: &str) -> (r: Option<&'a str>)
    ensures
        r matches Some(x) ==> spec_strip_prefix(s@, p@) == Some(x@),
        r is None ==> spec_strip_prefix(s@, p@) is None,
{
    let cs = chars_of(s);
    let ps = chars_of(p);
    if matches_at(&cs, &ps, 0) {
        Some(s.substring_char(ps.len(), cs.len()))
    } else {
        None
    }
}

// ───────────────────────── splitting ─────────────────────────

/// `str::split` on a character: the pieces between occurrences of `c`.
pub open spec fn split_char(s: Seq<char>, c: char) -> Seq<Seq<char>>
    decreases s.len(),
{
    match index_of_char(s, c) {
        Some(i) => {
            proof {
                lemma_index_of_char(s, c);
            }
            seq![s.subrange(0, i)] + split_char(s.subrange(i + 1, s.len() as int), c)
        },
        None => seq![s],
    }
}

/// The first occurrence of `c` is the least position holding it.
pub proof fn lemma_index_of_char_at(s: Seq<char>, c: char, k: int)
    requires
        0 <= k < s.len(),
        s[k] == c,
        forall|j: int| 0 <= j < k ==> s[j] != c,
    ensures
        index_of_char(s, c) == Some(k),
{
    lemma_index_of_char(s, c);
}

/// The contents of a sequence of character vectors.
pub open spec fn views(v: Seq<Vec<char>>) -> Seq<Seq<char>> {
    v.map_values(|x: Vec<char>| x@)
}

/// The pieces of `s` between occurrences of `c`, as character vectors.
pub fn split_chars(s: &Vec<char>, c: char) -> (r: Vec<Vec<char>>)
    ensures
        views(r@) == split_char(s@, c),
{
    let mut pieces: Vec<Vec<char>> = Vec::new();
    let mut start: usize = 0;
    let mut i: usize = 0;
    assert(s@.subrange(0, s@.len() as int) =~= s@);
    assert(views(pieces@) =~= Seq::<Seq<char>>::empty());
    while i < s.len()
        invariant
            start <= i <= s.len(),
            views(pieces@) + split_char(s@.subrange(start as int, s@.len() as int), c)
                == split_char(s@, c),
            forall|j: int| start <= j < i ==> s@[j] != c,
        decreases s.len() - i,
    {
        if s[i] == c {
            let ghost rest = s@.subrange(start as int, s@.len() as int);
            proof {
                lemma_index_of_char_at(rest, c, i - start);
                assert(rest.subrange(0, i - start) =~= s@.subrange(start as int, i as int));
                assert(rest.subrange(i - start + 1, rest.len() as int) =~= s@.subrange(
                    i + 1,
                    s@.len() as int,
                ));
            }
            let piece = copy_range(s, start, i);
            let ghost pv = views(pieces@);
            pieces.push(piece);
            assert(views(pieces@) =~= pv.push(s@.subrange(start as int, i as int)));
            start = i + 1;
        }
        i = i + 1;
    }
    let ghost rest = s@.subrange(start as int, s@.len() as int);
    proof {
        lemma_index_of_char(rest, c);
        if index_of_char(rest, c) is Some {
            let k = index_of_char(rest, c)->0;
            assert(rest[k] == s@[start + k]);
        }
    }
    let piece = copy_range(s, start, s.len());
    let ghost pv = views(pieces@);
    pieces.push(piece);
    assert(views(pieces@) =~= pv.push(rest));
    assert(views(pieces@) =~= pv + seq![rest]);
    pieces
}

/// `splitn(2, c)`: the text before the first `c`, and the text after it if
/// there is one.
pub open spec fn split_once_char(s: Seq<char>, c: char) -> (Seq<char>, Option<Seq<char>>) {
    match index_of_char(s, c) {
        Some(i) => (s.subrange(0, i), Some(s.subrange(i + 1, s.len() as int))),
        None => (s, None),
    }
}

/// `splitn(2, c)` on a character vector.
pub fn split_once(s: &Vec<char>, c: char) -> (r: (Vec<char>, Option<Vec<char>>))
    ensures
        r.0@ == split_once_char(s@, c).0,
        match (r.1, split_once_char(s@, c).1) {
            (Some(a), Some(b)) => a@ == b,
            (None, None) => true,
            _ => false,
        },
{
    proof {
        lemma_index_of_char(s@, c);
    }
    match find_char(s, c) {
        Some(i) => {
            let a = copy_range(s, 0, i);
            let b = copy_range(s, i + 1, s.len());
            (a, Some(b))
        },
        None => {
            let a = copy_range(s, 0, s.len());
            assert(s@.subrange(0, s@.len() as int) =~= s@);
            (a, None)
        },
    }
}

/// A copy of `v[from..to]`.
pub fn copy_range(v: &Vec<char>, from: usize, to: usize) -> (r: Vec<char>)
    requires
        from <= to <= v.len(),
    ensures
        r@ == v@.subrange(from as int, to as int),
{
    let mut r: Vec<char> = Vec::new();
    let mut i = from;
    while i < to
        invariant
            from <= i <= to <= v.len(),
            r@ == v@.subrange(from as int, i as int),
        decreases to - i,
    {
        r.push(v[i]);
        i = i + 1;
        assert(r@ =~= v@.subrange(from as int, i as int));
    }
    r
}

/// The first position of `c` in `v[from..to]`.
pub fn find_char_in(v: &Vec<char>, c: char, from: usize, to: usize) -> (r: Option<usize>)
    requires
        from <= to <= v.len(),
    ensures
        match r {
            Some(k) => from <= k < to && index_of_char(v@.subrange(from as int, to as int), c)
                == Some(k - from),
            None => index_of_char(v@.subrange(from as int, to as int), c) is None,
        },
{
    let ghost sub = v@.subrange(from as int, to as int);
    let mut i = from;
    while i < to
        invariant
            from <= i <= to <= v.len(),
            sub == v@.subrange(from as int, to as int),
            forall|j: int| from <= j < i ==> v@[j] != c,
        decreases to - i,
    {
        if v[i] == c {
            proof {
                lemma_index_of_char_at(sub, c, i - from);
            }
            return Some(i);
        }
        i = i + 1;
    }
    proof {
        lemma_index_of_char(sub, c);
        if index_of_char(sub, c) is Some {
            let k = index_of_char(sub, c)->0;
            assert(sub[k] == v@[from + k]);
        }
    }
    None
}

/// Whether `v[from..to]` equals `w`.
pub fn range_eq(v: &Vec<char>, from: usize, to: usize, w: &Vec<char>) -> (r: bool)
    requires
        from <= to <= v.len(),
    ensures
        r == (v@.subrange(from as int, to as int) == w@),
{
    if to - from != w.len() {
        return false;
    }
    let mut i: usize = 0;
    while i < w.len()
        invariant
            from <= to <= v.len(),
            to - from == w.len(),
            i <= w.len(),
            forall|j: int| 0 <= j < i ==> v@[from + j] == w@[j],
        decreases w.len() - i,
    {
        if v[from + i] != w[i] {
            assert(v@.subrange(from as int, to as int)[i as int] != w@[i as int]);
            return false;
        }
        i = i + 1;
    }
    assert(v@.subrange(from as int, to as int) =~= w@);
    true
}

/// `str::from_utf8`: the text of `b` when it is valid UTF-8.
#[verifier::external_body]
pub fn utf8_str(b: &[u8]) -> (r: Option<&str>)
    ensures
        r is Some <==> vstd::utf8::valid_utf8(b@),
        r matches Some(s) ==> s@ == vstd::utf8::decode_utf8(b@),
{
    std::str::from_utf8(b).ok()
}

/// What `String::from_utf8_lossy` returns for the bytes `b`.
pub uninterp spec fn utf8_lossy(b: Seq<u8>) -> Seq<char>;

/// `String::from_utf8_lossy`: the text of `b`, each invalid sequence replaced
/// by U+FFFD; valid UTF-8 decodes exactly.
#[verifier::external_body]
pub fn lossy_string(b: &[u8]) -> (r: String)
    ensures
        r@ == utf8_lossy(b@),
        vstd::utf8::valid_utf8(b@) ==> r@ == vstd::utf8::decode_utf8(b@),
{
    String::from_utf8_lossy(b).into_owned()
}

/// Whether two byte slices are equal.
pub fn bytes_eq(a: &[u8], b: &[u8]) -> (r: bool)
    ensures
        r == (a@ == b@),
{
    if a.len() != b.len() {
        return false;
    }
    let mut i: usize = 0;
    while i < a.len()
        invariant
            a@.len() == b@.len(),
            i <= a@.len(),
            forall|j: int| 0 <= j < i ==> a@[j] == b@[j],
        decreases a.len() - i,
    {
        if a[i] != b[i] {
            return false;
        }
        i = i + 1;
    }
    assert(a@ =~= b@);
    true
}

/// What `str::to_lowercase` returns for a text.
pub uninterp spec fn unicode_lower(s: Seq<char>) -> Seq<char>;

/// `str::to_lowercase`: the text with every character in Unicode lowercase;
/// on ASCII text that is ASCII lowercasing (`A`-`Z` become `a`-`z`, nothing
/// else changes), as Unicode's mapping of those characters is.
#[verifier::external_body]
pub fn to_lowercase(s: &str) -> (r: String)
    ensures
        r@ == unicode_lower(s@),
        vstd::utf8::is_ascii_chars(s@) ==> r@ == ascii_lower_seq(s@),
{
    s.to_lowercase()
}

// ───────────────────────── whitespace and trimming ─────────────────────────

/// `char::is_whitespace`: the Unicode `White_Space` property.
pub open spec fn is_ws(c: char) -> bool {
    let u = c as u32;
    (0x9 <= u <= 0xd) || u == 0x20 || u == 0x85 || u == 0xa0 || u == 0x1680 || (0x2000 <= u
        <= 0x200a) || u == 0x2028 || u == 0x2029 || u == 0x202f || u == 0x205f || u == 0x3000
}

/// Whether `c` has the Unicode `White_Space` property.
pub fn is_whitespace(c: char) -> (r: bool)
    ensures
        r == is_ws(c),
{
    let u = c as u32;
    (0x9 <= u && u <= 0xd) || u == 0x20 || u == 0x85 || u == 0xa0 || u == 0x1680 || (0x2000 <= u
        && u <= 0x200a) || u == 0x2028 || u == 0x2029 || u == 0x202f || u == 0x205f || u == 0x3000
}

/// `str::trim_start`.
pub open spec fn trim_start(s: Seq<char>) -> Seq<char>
    decreases s.len(),
{
    if s.len() > 0 && is_ws(s[0]) {
        trim_start(s.drop_first())
    } else {
        s
    }
}

/// `str::trim_end`.
pub open spec fn trim_end(s: Seq<char>) -> Seq<char>
    decreases s.len(),
{
    if s.len() > 0 && is_ws(s.last()) {
        trim_end(s.drop_last())
    } else {
        s
    }
}

/// `str::trim`.
pub open spec fn trim(s: Seq<char>) -> Seq<char> {
    trim_end(trim_start(s))
}

/// The bounds `[a, b)` of the trimmed part of `v[from..to]`.
pub fn trim_bounds(v: &Vec<char>, from: usize, to: usize) -> (r: (usize, usize))
    requires
        from <= to <= v.len(),
    ensures
        from <= r.0 <= r.1 <= to,
        v@.subrange(r.0 as int, r.1 as int) == trim(v@.subrange(from as int, to as int)),
{
    let mut a = from;
    while a < to && is_whitespace(v[a])
        invariant
            from <= a <= to <= v.len(),
            trim_start(v@.subrange(from as int, to as int)) == trim_start(
                v@.subrange(a as int, to as int),
            ),
        decreases to - a,
    {
        assert(v@.subrange(a as int, to as int).drop_first() =~= v@.subrange(a + 1, to as int));
        a = a + 1;
    }
    let mut b = to;
    while b > a && is_whitespace(v[b - 1])
        invariant
            from <= a <= b <= to <= v.len(),
            trim_end(v@.subrange(a as int, to as int)) == trim_end(
                v@.subrange(a as int, b as int),
            ),
        decreases b - a,
    {
        assert(v@.subrange(a as int, b as int).drop_last() =~= v@.subrange(a as int, b - 1));
        b = b - 1;
    }
    (a, b)
}

/// `str::trim` on a character vector.
pub fn trim_chars(v: &Vec<char>) -> (r: Vec<char>)
    ensures
        r@ == trim(v@),
{
    let (a, b) = trim_bounds(v, 0, v.len());
    assert(v@.subrange(0, v@.len() as int) =~= v@);
    copy_range(v, a, b)
}

/// Removes every leading copy of `c` (`trim_start_matches` on a character).
pub open spec fn trim_start_char(s: Seq<char>, c: char) -> Seq<char>
    decreases s.len(),
{
    if s.len() > 0 && s[0] == c {
        trim_start_char(s.drop_first(), c)
    } else {
        s
    }
}

/// Removes every trailing copy of `c` (`trim_end_matches` on a character).
pub open spec fn trim_end_char(s: Seq<char>, c: char) -> Seq<char>
    decreases s.len(),
{
    if s.len() > 0 && s.last() == c {
        trim_end_char(s.drop_last(), c)
    } else {
        s
    }
}

/// `trim_start_matches(c)` on a character vector.
pub fn trim_start_matches_char(v: &Vec<char>, c: char) -> (r: Vec<char>)
    ensures
        r@ == trim_start_char(v@, c),
{
    let mut a: usize = 0;
    assert(v@.subrange(0, v@.len() as int) =~= v@);
    while a < v.len() && v[a] == c
        invariant
            a <= v.len(),
            trim_start_char(v@, c) == trim_start_char(v@.subrange(a as int, v@.len() as int), c),
        decreases v.len() - a,
    {
        assert(v@.subrange(a as int, v@.len() as int).drop_first() =~= v@.subrange(
            a + 1,
            v@.len() as int,
        ));
        a = a + 1;
    }
    assert(a == 0 ==> v@.subrange(0, v@.len() as int) =~= v@);
    copy_range(v, a, v.len())
}

/// `trim_end_matches(c)` on a character vector.
pub fn trim_end_matches_char(v: &Vec<char>, c: char) -> (r: Vec<char>)
    ensures
        r@ == trim_end_char(v@, c),
{
    let mut b: usize = v.len();
    assert(v@.subrange(0, b as int) =~= v@);
    while b > 0 && v[b - 1] == c
        invariant
            b <= v.len(),
            trim_end_char(v@, c) == trim_end_char(v@.subrange(0, b as int), c),
        decreases b,
    {
        assert(v@.subrange(0, b as int).drop_last() =~= v@.subrange(0, b - 1));
        b = b - 1;
    }
    copy_range(v, 0, b)
}

// ───────────────────────── ASCII case ─────────────────────────

/// `char::to_ascii_lowercase`.
pub open spec fn ascii_lower(c: char) -> char {
    if 'A' <= c <= 'Z' {
        ((c as u32) + 32) as char
    } else {
        c
    }
}

/// `str::to_ascii_lowercase`.
pub open spec fn ascii_lower_seq(s: Seq<char>) -> Seq<char> {
    s.map_values(|c: char| ascii_lower(c))
}

/// `str::eq_ignore_ascii_case`.
pub open spec fn eq_ignore_case(a: Seq<char>, b: Seq<char>) -> bool {
    ascii_lower_seq(a) == ascii_lower_seq(b)
}

/// Lowercases an ASCII letter, leaving every other character alone.
pub fn to_ascii_lower(c: char) -> (r: char)
    ensures
        r == ascii_lower(c),
{
    if 'A' <= c && c <= 'Z' {
        let b = (c as u8) + 32;
        b as char
    } else {
        c
    }
}

/// `str::to_ascii_lowercase` on a character vector.
pub fn ascii_lowercase(v: &Vec<char>) -> (r: Vec<char>)
    ensures
        r@ == ascii_lower_seq(v@),
{
    let mut r: Vec<char> = Vec::new();
    let mut i: usize = 0;
    while i < v.len()
        invariant
            i <= v.len(),
            r@ == ascii_lower_seq(v@.subrange(0, i as int)),
        decreases v.len() - i,
    {
        let c = to_ascii_lower(v[i]);
        r.push(c);
        i = i + 1;
        assert(r@ =~= ascii_lower_seq(v@.subrange(0, i as int)));
    }
    assert(v@.subrange(0, v@.len() as int) =~= v@);
    r
}

/// `str::eq_ignore_ascii_case` on character vectors.
pub fn eq_ignore_ascii_case(a: &Vec<char>, b: &Vec<char>) -> (r: bool)
    ensures
        r == eq_ignore_case(a@, b@),
{
    let x = ascii_lowercase(a);
    let y = ascii_lowercase(b);
    chars_eq(&x, &y)
}

} // verus!

verus! {

// ───────────────────────── joining ─────────────────────────

/// The pieces with `sep` between each two (`[..].join(sep)`).
pub open spec fn join(parts: Seq<Seq<char>>, sep: Seq<char>) -> Seq<char>
    decreases parts.len(),
{
    if parts.len() == 0 {
        Seq::empty()
    } else if parts.len() == 1 {
        parts[0]
    } else {
        join(parts.drop_last(), sep) + sep + parts.last()
    }
}

/// `[..].join(sep)` on character vectors.
pub fn join_chars(parts: &Vec<Vec<char>>, sep: &str) -> (r: String)
    ensures
        r@ == join(views(parts@), sep@),
{
    let mut out = String::new();
    let mut i: usize = 0;
    while i < parts.len()
        invariant
            i <= parts.len(),
            out@ == join(views(parts@).subrange(0, i as int), sep@),
        decreases parts.len() - i,
    {
        let ghost before = views(parts@).subrange(0, i as int);
        let ghost after = views(parts@).subrange(0, i as int + 1);
        assert(after.drop_last() =~= before);
        assert(after.last() == parts@[i as int]@);
        if i > 0 {
            push_str(&mut out, sep);
        }
        push_chars(&mut out, &parts[i]);
        i = i + 1;
        if i == 1 {
            assert(out@ =~= after[0]);
        }
    }
    assert(views(parts@).subrange(0, parts.len() as int) =~= views(parts@));
    out
}

/// UTF-8 takes at most four bytes per character.
pub proof fn lemma_encode_utf8_len(s: Seq<char>)
    ensures
        vstd::utf8::encode_utf8(s).len() <= 4 * s.len(),
    decreases s.len(),
{
    if s.len() > 0 {
        lemma_encode_utf8_len(s.drop_first());
    }
}

// ───────────────────────── splitting on a text ─────────────────────────

/// The pieces of `s` from position `from` on, between the occurrences of
/// the non-empty text `p`, found left to right (`str::split` on a text).
pub open spec fn split_from(s: Seq<char>, p: Seq<char>, from: int) -> Seq<Seq<char>>
    decreases s.len() + 1 - from,
{
    if from < 0 || from > s.len() || p.len() == 0 {
        Seq::empty()
    } else {
        match find_from(s, p, from) {
            Some(i) => {
                proof {
                    lemma_find_from(s, p, from);
                }
                seq![s.subrange(from, i)] + split_from(s, p, i + p.len())
            },
            None => seq![s.subrange(from, s.len() as int)],
        }
    }
}

/// `s.split(p)` for a non-empty text `p`.
pub open spec fn split_str(s: Seq<char>, p: Seq<char>) -> Seq<Seq<char>> {
    split_from(s, p, 0)
}

/// `s.split(p)` on character vectors, for a non-empty `p`.
pub fn split_on(s: &Vec<char>, p: &Vec<char>) -> (r: Vec<Vec<char>>)
    requires
        p.len() > 0,
    ensures
        views(r@) == split_str(s@, p@),
{
    let mut out: Vec<Vec<char>> = Vec::new();
    let mut pos: usize = 0;
    loop
        invariant
            pos <= s.len(),
            p@.len() > 0,
            views(out@) + split_from(s@, p@, pos as int) == split_str(s@, p@),
        decreases s.len() - pos,
    {
        let found = find_chars_from(s, p, pos);
        proof {
            lemma_find_from(s@, p@, pos as int);
        }
        match found {
            Some(i) => {
                let piece = copy_range(s, pos, i);
                let ghost before = views(out@);
                out.push(piece);
                assert(views(out@) =~= before.push(piece@));
                assert(seq![piece@] + split_from(s@, p@, i + p@.len()) == split_from(s@, p@, pos as int));
                assert(views(out@) + split_from(s@, p@, i + p@.len()) =~= before + split_from(s@, p@, pos as int));
                pos = i + p.len();
            },
            None => {
                let piece = copy_range(s, pos, s.len());
                let ghost before = views(out@);
                out.push(piece);
                assert(views(out@) =~= before + split_from(s@, p@, pos as int));
                return out;
            },
        }
    }
}

/// `s` with every trailing copy of the non-empty text `p` removed
/// (`trim_end_matches` on a text).
pub open spec fn trim_end_str(s: Seq<char>, p: Seq<char>) -> Seq<char>
    decreases s.len(),
{
    if p.len() > 0 && p.len() <= s.len() && s.subrange(s.len() - p.len(), s.len() as int) == p {
        trim_end_str(s.subrange(0, s.len() - p.len()), p)
    } else {
        s
    }
}

/// `s` with every leading copy of the non-empty text `p` removed
/// (`trim_start_matches` on a text).
pub open spec fn trim_start_str(s: Seq<char>, p: Seq<char>) -> Seq<char>
    decreases s.len(),
{
    if p.len() > 0 && has_prefix(s, p) {
        trim_start_str(s.subrange(p.len() as int, s.len() as int), p)
    } else {
        s
    }
}

/// `trim_end_matches` on a text, for character vectors.
pub fn trim_end_text(v: &Vec<char>, p: &Vec<char>) -> (r: Vec<char>)
    ensures
        r@ == trim_end_str(v@, p@),
{
    let mut end = v.len();
    assert(v@.subrange(0, v@.len() as int) =~= v@);
    while p.len() > 0 && p.len() <= end && range_eq(v, end - p.len(), end, p)
        invariant
            end <= v.len(),
            trim_end_str(v@, p@) == trim_end_str(v@.subrange(0, end as int), p@),
        decreases end,
    {
        let ghost cur = v@.subrange(0, end as int);
        assert(cur.subrange(cur.len() - p@.len(), cur.len() as int) =~= v@.subrange(
            end - p@.len(),
            end as int,
        ));
        assert(cur.subrange(0, cur.len() - p@.len()) =~= v@.subrange(0, end - p@.len()));
        end = end - p.len();
    }
    proof {
        let cur = v@.subrange(0, end as int);
        if p@.len() > 0 && p@.len() <= end {
            assert(cur.subrange(cur.len() - p@.len(), cur.len() as int) =~= v@.subrange(
                end - p@.len(),
                end as int,
            ));
        }
    }
    copy_range(v, 0, end)
}

/// `trim_start_matches` on a text, for character vectors.
pub fn trim_start_text(v: &Vec<char>, p: &Vec<char>) -> (r: Vec<char>)
    ensures
        r@ == trim_start_str(v@, p@),
{
    let mut start: usize = 0;
    assert(v@.subrange(0, v@.len() as int) =~= v@);
    while p.len() > 0 && p.len() <= v.len() - start && range_eq(v, start, start + p.len(), p)
        invariant
            start <= v.len(),
            trim_start_str(v@, p@) == trim_start_str(v@.subrange(start as int, v@.len() as int), p@),
        decreases v.len() - start,
    {
        let ghost cur = v@.subrange(start as int, v@.len() as int);
        assert(cur.subrange(0, p@.len() as int) =~= v@.subrange(start as int, start + p@.len()));
        assert(cur.subrange(p@.len() as int, cur.len() as int) =~= v@.subrange(
            start + p@.len(),
            v@.len() as int,
        ));
        start = start + p.len();
    }
    proof {
        let cur = v@.subrange(start as int, v@.len() as int);
        if p@.len() > 0 && p@.len() <= cur.len() {
            assert(cur.subrange(0, p@.len() as int) =~= v@.subrange(
                start as int,
                start + p@.len(),
            ));
        }
    }
    copy_range(v, start, v.len())
}

/// The text between the first occurrence of `search` and the next `"`.
pub open spec fn quoted_after(s: Seq<char>, search: Seq<char>) -> Option<Seq<char>> {
    match spec_find(s, search) {
        Some(i) => {
            let rest = s.subrange(i + search.len(), s.len() as int);
            match index_of_char(rest, '"') {
                Some(j) => Some(rest.subrange(0, j)),
                None => None,
            }
        },
        None => None,
    }
}

/// The text between the first occurrence of `search` in `s` and the next
/// `"`.
pub fn quoted_value(s: &Vec<char>, search: &Vec<char>) -> (r: Option<String>)
    ensures
        match r {
            Some(v) => quoted_after(s@, search@) == Some(v@),
            None => quoted_after(s@, search@) is None,
        },
{
    let found = find_chars(s, search);
    proof {
        lemma_find(s@, search@);
    }
    let i = match found {
        Some(i) => i,
        None => return None,
    };
    let total = s.len();
    assert(i + search@.len() <= total);
    let start = i + search.len();
    match find_char_in(s, '"', start, s.len()) {
        Some(end) => Some(string_from_range(s, start, end)),
        None => None,
    }
}

/// A line without the `\r` of a `\r\n` ending.
pub open spec fn strip_cr(l: Seq<char>) -> Seq<char> {
    if l.len() > 0 && l.last() == '\r' {
        l.drop_last()
    } else {
        l
    }
}

/// `str::lines`: the pieces between `\n`, each line ended by `\n` also
/// losing a `\r` before it, and no empty piece after a final `\n`.
pub open spec fn lines_of(s: Seq<char>) -> Seq<Seq<char>> {
    let ps = split_char(s, '\n');
    let n = if ps.last().len() == 0 {
        ps.len() - 1
    } else {
        ps.len() as int
    };
    Seq::new(
        n as nat,
        |i: int|
            if i < ps.len() - 1 {
                strip_cr(ps[i])
            } else {
                ps[i]
            },
    )
}

/// `str::lines` on a character vector.
pub fn lines(v: &Vec<char>) -> (r: Vec<Vec<char>>)
    ensures
        views(r@) == lines_of(v@),
{
    let pieces = split_chars(v, '\n');
    proof {
        lemma_split_char_nonempty(v@, '\n');
    }
    let n = pieces.len();
    let count = if pieces[n - 1].len() == 0 {
        n - 1
    } else {
        n
    };
    let mut out: Vec<Vec<char>> = Vec::new();
    let mut i: usize = 0;
    while i < count
        invariant
            count <= n == pieces.len(),
            n >= 1,
            i <= count,
            views(pieces@) == split_char(v@, '\n'),
            count == (if split_char(v@, '\n').last().len() == 0 {
                n - 1
            } else {
                n as int
            }),
            forall|j: int| 0 <= j < i ==> #[trigger] out@[j]@ == lines_of(v@)[j],
            out@.len() == i,
        decreases count - i,
    {
        assert(views(pieces@)[i as int] == pieces@[i as int]@);
        let p = &pieces[i];
        if i + 1 < n && p.len() > 0 && p[p.len() - 1] == '\r' {
            out.push(copy_range(p, 0, p.len() - 1));
            assert(out@[i as int]@ =~= lines_of(v@)[i as int]);
        } else {
            out.push(copy_range(p, 0, p.len()));
            assert(p@.subrange(0, p@.len() as int) =~= p@);
            assert(out@[i as int]@ =~= lines_of(v@)[i as int]);
        }
        i = i + 1;
    }
    assert(views(out@) =~= lines_of(v@));
    out
}

/// `str::split` on a character gives at least one piece.
pub proof fn lemma_split_char_nonempty(s: Seq<char>, c: char)
    ensures
        split_char(s, c).len() >= 1,
    decreases s.len(),
{
    lemma_index_of_char(s, c);
    if let Some(i) = index_of_char(s, c) {
        lemma_split_char_nonempty(s.subrange(i + 1, s.len() as int), c);
    }
}

/// A text without `c` is one piece.
pub proof fn lemma_split_char_absent(a: Seq<char>, c: char)
    requires
        forall|i: int| 0 <= i < a.len() ==> a[i] != c,
    ensures
        split_char(a, c) == seq![a],
{
    lemma_index_of_char(a, c);
}

/// Splitting `a`, `c`, `rest` where `a` has no `c` gives `a` and then the
/// pieces of `rest`.
pub proof fn lemma_split_char_after(a: Seq<char>, rest: Seq<char>, c: char)
    requires
        forall|i: int| 0 <= i < a.len() ==> a[i] != c,
    ensures
        split_char(a + seq![c] + rest, c) == seq![a] + split_char(rest, c),
{
    let t = a + seq![c] + rest;
    assert(t[a.len() as int] == c);
    assert forall|j: int| 0 <= j < a.len() implies t[j] != c by {
        assert(t[j] == a[j]);
    }
    lemma_index_of_char_at(t, c, a.len() as int);
    assert(t.subrange(0, a.len() as int) =~= a);
    assert(t.subrange(a.len() as int + 1, t.len() as int) =~= rest);
}

} // verus!
