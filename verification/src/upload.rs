//! File uploads: the parts of a `multipart/form-data` body.
use vstd::prelude::*;
use vstd::string::StringSliceAdditionalSpecFns;
use vstd::utf8::encode_utf8;
use crate::text::{
    chars_eq, chars_of, copy_range, find_chars, has_prefix, lines, lines_of, lossy_string,
    quoted_after, quoted_value, split_char, split_chars, split_on, split_once, split_once_char,
    split_str, spec_find, string_from_chars, to_lowercase, trim, trim_chars, trim_end_str,
    trim_start, trim_end, is_ws, split_from,
    trim_end_text, trim_start_str, trim_start_text, unicode_lower, utf8_lossy, views,
    lemma_find,
};

verus! {

/// One part of a multipart body that names a form field.
#[derive(Debug, Clone)]
pub struct UploadedFile {
    pub name: String,
    pub filename: Option<String>,
    pub content_type: Option<String>,
    pub data: Vec<u8>,
}

/// What the parser reads from one part: the field name, the file name
/// and content type when given, and the content's bytes.
pub type PartView = (Seq<char>, Option<Seq<char>>, Option<Seq<char>>, Seq<u8>);

/// The view of an uploaded file.
pub open spec fn file_view(f: UploadedFile) -> PartView {
    (
        f.name@,
        match f.filename {
            Some(x) => Some(x@),
            None => None,
        },
        match f.content_type {
            Some(x) => Some(x@),
            None => None,
        },
        f.data@,
    )
}

/// The value of the header line `Content-Type:` (named in any case) among
/// `lines`, from position `i` on: the text after its first `:`, trimmed.
pub open spec fn content_type_from(ls: Seq<Seq<char>>, i: int) -> Option<Seq<char>>
    decreases ls.len() - i,
{
    if i < 0 || i >= ls.len() {
        None
    } else if has_prefix(unicode_lower(ls[i]), "content-type:"@) {
        Some(
            match split_once_char(ls[i], ':').1 {
                Some(v) => trim(v),
                None => Seq::empty(),
            },
        )
    } else {
        content_type_from(ls, i + 1)
    }
}

/// What one piece of the body, between delimiters, holds: `None` for a
/// piece that is blank or `--`, that has no blank line ending its headers,
/// or whose headers name no field.
pub open spec fn part_of(piece: Seq<char>) -> Option<PartView> {
    let t = trim(piece);
    if t.len() == 0 || t == "--"@ {
        None
    } else {
        match spec_find(piece, "\r\n\r\n"@) {
            Some(sep) => {
                let headers = piece.subrange(0, sep);
                let content = trim_end_str(piece.subrange(sep + 4, piece.len() as int), "\r\n"@);
                match quoted_after(headers, "name=\""@) {
                    Some(name) => Some(
                        (
                            name,
                            quoted_after(headers, "filename=\""@),
                            content_type_from(lines_of(headers), 0),
                            encode_utf8(content),
                        ),
                    ),
                    None => None,
                }
            },
            None => None,
        }
    }
}

/// The parts of the pieces, in order, skipping the pieces that hold none.
pub open spec fn parts_of(pieces: Seq<Seq<char>>) -> Seq<PartView>
    decreases pieces.len(),
{
    if pieces.len() == 0 {
        Seq::empty()
    } else {
        match part_of(pieces.last()) {
            Some(p) => parts_of(pieces.drop_last()).push(p),
            None => parts_of(pieces.drop_last()),
        }
    }
}

/// The parts of a multipart body read as text (invalid UTF-8 replaced),
/// split at `--boundary`.
pub open spec fn multipart_parts(body: Seq<u8>, boundary: Seq<char>) -> Seq<PartView> {
    parts_of(split_str(utf8_lossy(body), "--"@ + boundary))
}

/// Whether `v` starts with `p`.
fn starts_with_chars(v: &Vec<char>, p: &Vec<char>) -> (r: bool)
    ensures
        r == has_prefix(v@, p@),
{
    if p.len() > v.len() {
        return false;
    }
    let head = copy_range(v, 0, p.len());
    chars_eq(&head, p)
}

/// The content type named among the header lines.
fn content_type_of(headers: &Vec<char>) -> (r: Option<String>)
    ensures
        match r {
            Some(v) => content_type_from(lines_of(headers@), 0) == Some(v@),
            None => content_type_from(lines_of(headers@), 0) is None,
        },
{
    let ls = lines(headers);
    let ghost lv = lines_of(headers@);
    let prefix = chars_of("content-type:");
    let mut i: usize = 0;
    while i < ls.len()
        invariant
            i <= ls.len(),
            views(ls@) == lv,
            lv == lines_of(headers@),
            prefix@ == "content-type:"@,
            content_type_from(lv, 0) == content_type_from(lv, i as int),
        decreases ls.len() - i,
    {
        assert(views(ls@)[i as int] == ls@[i as int]@);
        let text = string_from_chars(&ls[i]);
        let lower = chars_of(to_lowercase(text.as_str()).as_str());
        let starts = starts_with_chars(&lower, &prefix);
        assert(lower@ == unicode_lower(lv[i as int]));
        assert(starts == has_prefix(unicode_lower(lv[i as int]), "content-type:"@));
        if starts {
            let (_, value) = split_once(&ls[i], ':');
            assert(i < lv.len());
            assert(ls@[i as int]@ == lv[i as int]);
            let r = match value {
                Some(v) => Some(string_from_chars(&trim_chars(&v))),
                None => Some(String::new()),
            };
            assert(content_type_from(lv, i as int) == Some(
                match split_once_char(lv[i as int], ':').1 {
                    Some(v) => trim(v),
                    None => Seq::empty(),
                },
            ));
            return r;
        }
        i = i + 1;
    }
    None
}

/// What one piece of the body holds.
fn parse_part(piece: &Vec<char>) -> (r: Option<UploadedFile>)
    ensures
        match r {
            Some(f) => part_of(piece@) == Some(file_view(f)),
            None => part_of(piece@) is None,
        },
{
    let t = trim_chars(piece);
    if t.len() == 0 || chars_eq(&t, &chars_of("--")) {
        return None;
    }
    let blank = chars_of("\r\n\r\n");
    proof {
        reveal_strlit("\r\n\r\n");
    }
    let found = find_chars(piece, &blank);
    proof {
        lemma_find(piece@, blank@);
    }
    let sep = match found {
        Some(s) => s,
        None => return None,
    };
    let total = piece.len();
    assert(sep + 4 <= total);
    let headers = copy_range(piece, 0, sep);
    let content = trim_end_text(&copy_range(piece, sep + 4, piece.len()), &chars_of("\r\n"));
    let name = match quoted_value(&headers, &chars_of("name=\"")) {
        Some(n) => n,
        None => return None,
    };
    let filename = quoted_value(&headers, &chars_of("filename=\""));
    let content_type = content_type_of(&headers);
    let text = string_from_chars(&content);
    let data = vstd::slice::slice_to_vec(text.as_str().as_bytes());
    Some(UploadedFile { name, filename, content_type, data })
}

/// The fields of a `multipart/form-data` body delimited by `--boundary`,
/// in order.
pub fn parse_multipart(body: &[u8], boundary: &str) -> (r: Vec<UploadedFile>)
    ensures
        r@.map_values(|f: UploadedFile| file_view(f)) == multipart_parts(body@, boundary@),
{
    let text = lossy_string(body);
    let chars = chars_of(text.as_str());
    let mut delimiter = chars_of("--");
    let mut b = chars_of(boundary);
    delimiter.append(&mut b);
    proof {
        reveal_strlit("--");
    }
    let pieces = split_on(&chars, &delimiter);
    let ghost ps = split_str(utf8_lossy(body@), "--"@ + boundary@);
    assert(views(pieces@) == ps);
    let mut files: Vec<UploadedFile> = Vec::new();
    let mut i: usize = 0;
    while i < pieces.len()
        invariant
            i <= pieces.len(),
            views(pieces@) == ps,
            files@.map_values(|f: UploadedFile| file_view(f)) == parts_of(
                ps.subrange(0, i as int),
            ),
        decreases pieces.len() - i,
    {
        assert(views(pieces@)[i as int] == pieces@[i as int]@);
        let ghost sub = ps.subrange(0, i as int + 1);
        assert(sub.drop_last() =~= ps.subrange(0, i as int));
        let ghost before = files@.map_values(|f: UploadedFile| file_view(f));
        match parse_part(&pieces[i]) {
            Some(f) => {
                files.push(f);
                assert(files@.map_values(|f: UploadedFile| file_view(f)) =~= before.push(
                    file_view(files@[files@.len() - 1]),
                ));
            },
            None => {},
        }
        i = i + 1;
    }
    assert(ps.subrange(0, ps.len() as int) =~= ps);
    files
}

/// The boundary named in a `Content-Type` header value: the first
/// `;`-separated piece that starts with `boundary=` once trimmed, with
/// that prefix removed.
pub open spec fn boundary_from(pieces: Seq<Seq<char>>, i: int) -> Option<Seq<char>>
    decreases pieces.len() - i,
{
    if i < 0 || i >= pieces.len() {
        None
    } else if has_prefix(trim(pieces[i]), "boundary="@) {
        Some(trim_start_str(trim(pieces[i]), "boundary="@))
    } else {
        boundary_from(pieces, i + 1)
    }
}

/// The boundary of a `multipart/form-data` content type.
pub fn extract_boundary(content_type: &str) -> (r: Option<String>)
    ensures
        match r {
            Some(b) => boundary_from(split_char(content_type@, ';'), 0) == Some(b@),
            None => boundary_from(split_char(content_type@, ';'), 0) is None,
        },
{
    let pieces = split_chars(&chars_of(content_type), ';');
    let ghost ps = split_char(content_type@, ';');
    let key = chars_of("boundary=");
    let mut i: usize = 0;
    while i < pieces.len()
        invariant
            i <= pieces.len(),
            views(pieces@) == ps,
            ps == split_char(content_type@, ';'),
            key@ == "boundary="@,
            boundary_from(ps, 0) == boundary_from(ps, i as int),
        decreases pieces.len() - i,
    {
        assert(views(pieces@)[i as int] == pieces@[i as int]@);
        let t = trim_chars(&pieces[i]);
        let starts = starts_with_chars(&t, &key);
        assert(t@ == trim(ps[i as int]));
        assert(starts == has_prefix(trim(ps[i as int]), "boundary="@));
        if starts {
            assert(i < ps.len());
            assert(boundary_from(ps, i as int) == Some(trim_start_str(trim(ps[i as int]), "boundary="@)));
            return Some(string_from_chars(&trim_start_text(&t, &key)));
        }
        i = i + 1;
    }
    None
}

// ───────────────────────── the content of a part ─────────────────────────

/// `trim_start` drops only leading whitespace: a character that is not
/// whitespace at `k` stays, with everything after it.
proof fn lemma_trim_start_keeps(s: Seq<char>, k: int)
    requires
        0 <= k < s.len(),
        !is_ws(s[k]),
    ensures
        exists|a: int| 0 <= a <= k && trim_start(s) == s.subrange(a, s.len() as int),
    decreases s.len(),
{
    if is_ws(s[0]) {
        let d = s.drop_first();
        assert(d[k - 1] == s[k]);
        lemma_trim_start_keeps(d, k - 1);
        let a = choose|a: int| 0 <= a <= k - 1 && trim_start(d) == d.subrange(a, d.len() as int);
        assert(d.subrange(a, d.len() as int) =~= s.subrange(a + 1, s.len() as int));
    } else {
        assert(s.subrange(0, s.len() as int) =~= s);
    }
}

/// `trim_end` drops only trailing whitespace: a character that is not
/// whitespace at `k` stays, with everything before it.
proof fn lemma_trim_end_keeps(s: Seq<char>, k: int)
    requires
        0 <= k < s.len(),
        !is_ws(s[k]),
    ensures
        exists|b: int| k < b <= s.len() && trim_end(s) == s.subrange(0, b),
    decreases s.len(),
{
    if is_ws(s.last()) {
        let d = s.drop_last();
        assert(k < s.len() - 1);
        assert(d[k] == s[k]);
        lemma_trim_end_keeps(d, k);
        let b = choose|b: int| k < b <= d.len() && trim_end(d) == d.subrange(0, b);
        assert(d.subrange(0, b) =~= s.subrange(0, b));
    } else {
        assert(s.subrange(0, s.len() as int) =~= s);
    }
}

/// Trimming keeps a character that is not whitespace.
proof fn lemma_trim_keeps(s: Seq<char>, k: int)
    requires
        0 <= k < s.len(),
        !is_ws(s[k]),
    ensures
        exists|j: int| 0 <= j < trim(s).len() && trim(s)[j] == s[k],
{
    lemma_trim_start_keeps(s, k);
    let a = choose|a: int| 0 <= a <= k && trim_start(s) == s.subrange(a, s.len() as int);
    let t = trim_start(s);
    assert(t[k - a] == s[k]);
    lemma_trim_end_keeps(t, k - a);
    let b = choose|b: int| k - a < b <= t.len() && trim_end(t) == t.subrange(0, b);
    assert(trim(s)[k - a] == s[k]);
}

/// A part's data is all of its content after the blank line that ends its
/// headers, less only trailing CRLFs: for headers `h` on one line (no CR)
/// that name a field, and any content `c` that does not end in CRLF (it
/// may hold CRLFs and blank lines), the piece between two delimiters,
/// CRLF `h` CRLF CRLF `c` CRLF, is that field with the data `c`.
pub proof fn lemma_part_content(h: Seq<char>, c: Seq<char>)
    requires
        forall|i: int| 0 <= i < h.len() ==> h[i] != '\r',
        quoted_after("\r\n"@ + h, "name=\""@) is Some,
        !(c.len() >= 2 && c.subrange(c.len() - 2, c.len() as int) == "\r\n"@),
    ensures
        part_of("\r\n"@ + h + "\r\n\r\n"@ + c + "\r\n"@) matches Some(p) && p.0 == quoted_after(
            "\r\n"@ + h,
            "name=\""@,
        )->0 && p.3 == encode_utf8(c),
{
    reveal_strlit("\r\n");
    reveal_strlit("\r\n\r\n");
    reveal_strlit("name=\"");
    reveal_strlit("--");
    let headers = "\r\n"@ + h;
    let piece = "\r\n"@ + h + "\r\n\r\n"@ + c + "\r\n"@;
    let blank = "\r\n\r\n"@;
    let m: int = h.len() as int + 2;
    // Where the field's name is written.
    crate::text::lemma_find(headers, "name=\""@);
    let i = spec_find(headers, "name=\""@)->0;
    assert(crate::text::match_at(headers, "name=\""@, i));
    assert(headers.subrange(i, i + 6)[0] == headers[i]);
    assert(headers[i] == 'n');
    assert(h.len() >= 4);
    assert(piece[i] == headers[i]);
    // The piece is not blank and not `--`.
    lemma_trim_keeps(piece, i);
    let t = trim(piece);
    let j = choose|j: int| 0 <= j < t.len() && t[j] == piece[i];
    assert(t.len() > 0);
    if t == "--"@ {
        assert(t[j] == '-');
    }
    // The blank line is right after the headers.
    assert(piece.subrange(m, m + 4) =~= blank);
    assert(crate::text::match_at(piece, blank, m));
    assert forall|k: int| 0 <= k < m implies !crate::text::match_at(piece, blank, k) by {
        if crate::text::match_at(piece, blank, k) {
            assert(piece.subrange(k, k + 4)[0] == piece[k]);
            assert(piece.subrange(k, k + 4)[1] == piece[k + 1]);
            assert(piece.subrange(k, k + 4)[2] == piece[k + 2]);
            if k == 0 {
                assert(piece[2] == h[0]);
            } else if k == 1 {
                assert(piece[1] == '\n');
            } else {
                assert(piece[k] == h[k - 2]);
            }
        }
    }
    crate::text::lemma_find(piece, blank);
    crate::text::lemma_find_from(piece, blank, 0);
    assert(spec_find(piece, blank) == Some(m));
    // The headers, and the content after the blank line.
    assert(piece.subrange(0, m) =~= headers);
    let rest = piece.subrange(m + 4, piece.len() as int);
    assert(rest =~= c + "\r\n"@);
    assert(rest.subrange(rest.len() - 2, rest.len() as int) =~= "\r\n"@);
    assert(rest.subrange(0, rest.len() - 2) =~= c);
    assert(trim_end_str(rest, "\r\n"@) == trim_end_str(c, "\r\n"@));
    assert(trim_end_str(c, "\r\n"@) == c);
}

/// The piece CRLF `h` CRLF CRLF `c` CRLF of a part with headers `h` and
/// content `c`.
pub open spec fn part_piece(h: Seq<char>, c: Seq<char>) -> Seq<char> {
    "\r\n"@ + h + "\r\n\r\n"@ + c + "\r\n"@
}

/// Neither `-` nor `--` is blank, and `--` trims to itself.
proof fn lemma_trim_dashes()
    ensures
        trim("--"@) == "--"@,
        trim(Seq::<char>::empty()).len() == 0,
{
    reveal_strlit("--");
    let d = "--"@;
    assert(d[0] == '-' && d[1] == '-');
    assert(!is_ws('-'));
    assert(trim_start(d) == d);
    assert(d.last() == '-');
    assert(trim_end(d) == d);
}

/// A whole body with one field: for a non-empty boundary `b`, a body that
/// reads as `--b`, then the part with one-line headers `h` naming a field
/// and content `c` (not ending in CRLF, and not holding the delimiter),
/// then `--b--`, has exactly that one field, with all of `c` as its data.
pub proof fn lemma_multipart_one_field(b: Seq<char>, h: Seq<char>, c: Seq<char>, body: Seq<u8>)
    requires
        b.len() > 0,
        forall|i: int| 0 <= i < h.len() ==> h[i] != '\r',
        quoted_after("\r\n"@ + h, "name=\""@) is Some,
        !(c.len() >= 2 && c.subrange(c.len() - 2, c.len() as int) == "\r\n"@),
        forall|j: int|
            0 <= j < part_piece(h, c).len() ==> !crate::text::match_at(
                part_piece(h, c) + "--"@ + b + "--"@,
                "--"@ + b,
                j,
            ),
        utf8_lossy(body) == "--"@ + b + part_piece(h, c) + "--"@ + b + "--"@,
    ensures
        multipart_parts(body, b).len() == 1,
        multipart_parts(body, b)[0].0 == quoted_after("\r\n"@ + h, "name=\""@)->0,
        multipart_parts(body, b)[0].3 == encode_utf8(c),
{
    reveal_strlit("--");
    let d = "--"@ + b;
    let p = part_piece(h, c);
    let q = p + d + "--"@;
    let t = d + q;
    assert(utf8_lossy(body) =~= t);
    let dl = d.len() as int;
    let k = dl + p.len();
    // The first delimiter opens the body.
    assert(t.subrange(0, dl) =~= d);
    crate::text::lemma_find_from(t, d, 0);
    assert(crate::text::find_from(t, d, 0) == Some(0int));
    // The next one comes right after the part.
    assert(t.subrange(k, k + dl) =~= d);
    assert(crate::text::match_at(t, d, k));
    assert(q =~= part_piece(h, c) + "--"@ + b + "--"@);
    assert forall|j: int| dl <= j < k implies !crate::text::match_at(t, d, j) by {
        if j + dl <= t.len() {
            assert(t.subrange(j, j + dl) =~= q.subrange(j - dl, j - dl + dl));
        }
        assert(!crate::text::match_at(q, d, j - dl));
    }
    crate::text::lemma_find_from(t, d, dl);
    assert(crate::text::find_from(t, d, dl) == Some(k));
    // Then only `--` is left.
    let e = k + dl;
    assert(e + dl > t.len());
    assert(crate::text::find_from(t, d, e) is None);
    assert(split_from(t, d, e) == seq![t.subrange(e, t.len() as int)]);
    assert(t.subrange(e, t.len() as int) =~= "--"@);
    assert(t.subrange(dl, k) =~= p);
    assert(split_from(t, d, dl) == seq![p] + seq!["--"@]);
    assert(split_from(t, d, 0) == seq![t.subrange(0, 0)] + split_from(t, d, dl));
    let pieces = seq![Seq::<char>::empty(), p, "--"@];
    assert(t.subrange(0, 0) =~= Seq::<char>::empty());
    assert(split_str(t, d) =~= pieces);
    // Only the middle piece is a part.
    lemma_trim_dashes();
    assert(part_of("--"@) is None);
    assert(part_of(Seq::<char>::empty()) is None);
    lemma_part_content(h, c);
    assert(pieces.drop_last() =~= seq![Seq::<char>::empty(), p]);
    assert(pieces.drop_last().drop_last() =~= seq![Seq::<char>::empty()]);
    assert(seq![Seq::<char>::empty()].drop_last() =~= Seq::<Seq<char>>::empty());
    let one = seq![Seq::<char>::empty()];
    assert(one.last() == Seq::<char>::empty());
    assert(part_of(one.last()) is None);
    assert(parts_of(one) == parts_of(one.drop_last()));
    assert(parts_of(Seq::<Seq<char>>::empty()) == Seq::<PartView>::empty());
    assert(parts_of(one) == Seq::<PartView>::empty());
    assert(parts_of(pieces) == parts_of(pieces.drop_last()));
}

} // verus!
