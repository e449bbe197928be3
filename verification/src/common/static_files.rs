//! Static files: the content type of a file, and where a request path
//! leads under a directory.
use vstd::prelude::*;
use crate::text::{
    chars_eq, chars_of, copy_range, has_prefix, string_from_chars, strip_prefix, to_lowercase,
    to_owned_string, trim_start_char, trim_start_matches_char, unicode_lower, push_str,
    spec_strip_prefix, ascii_lower_seq,
};

verus! {

/// The text after the last `c` (all of `s` when there is none), as
/// `rsplit(c).next()` gives it.
pub open spec fn after_last(s: Seq<char>, c: char) -> Seq<char>
    decreases s.len(),
{
    if s.len() == 0 {
        s
    } else if s.last() == c {
        Seq::empty()
    } else {
        after_last(s.drop_last(), c).push(s.last())
    }
}

/// The content type served for a lower-case file extension.
pub open spec fn mime_for_ext(e: Seq<char>) -> Seq<char> {
    if e == "html"@ {
        "text/html; charset=utf-8"@
    } else if e == "htm"@ {
        "text/html; charset=utf-8"@
    } else if e == "css"@ {
        "text/css"@
    } else if e == "js"@ {
        "application/javascript"@
    } else if e == "mjs"@ {
        "application/javascript"@
    } else if e == "json"@ {
        "application/json"@
    } else if e == "xml"@ {
        "application/xml"@
    } else if e == "png"@ {
        "image/png"@
    } else if e == "jpg"@ {
        "image/jpeg"@
    } else if e == "jpeg"@ {
        "image/jpeg"@
    } else if e == "gif"@ {
        "image/gif"@
    } else if e == "svg"@ {
        "image/svg+xml"@
    } else if e == "ico"@ {
        "image/x-icon"@
    } else if e == "webp"@ {
        "image/webp"@
    } else if e == "ttf"@ {
        "font/ttf"@
    } else if e == "woff"@ {
        "font/woff"@
    } else if e == "woff2"@ {
        "font/woff2"@
    } else if e == "mp4"@ {
        "video/mp4"@
    } else if e == "mp3"@ {
        "audio/mpeg"@
    } else if e == "wav"@ {
        "audio/wav"@
    } else if e == "pdf"@ {
        "application/pdf"@
    } else if e == "txt"@ {
        "text/plain"@
    } else if e == "csv"@ {
        "text/csv"@
    } else if e == "zip"@ {
        "application/zip"@
    } else {
        "application/octet-stream"@
    }
}

/// The content type of a file: by the text after its last `.`, in lower
/// case; `application/octet-stream` when the extension is not known.
pub open spec fn mime_of(path: Seq<char>) -> Seq<char> {
    mime_for_ext(unicode_lower(after_last(path, '.')))
}

/// What `mime_type` answers for `path`, on an ASCII extension: the type of
/// the extension in ASCII lower case (`str::to_lowercase` lowers ASCII text
/// that way).
pub open spec fn mime_answer(path: Seq<char>, r: Seq<char>) -> bool {
    vstd::utf8::is_ascii_chars(after_last(path, '.')) ==> r == mime_for_ext(
        ascii_lower_seq(after_last(path, '.')),
    )
}

/// Whether the characters `v` spell `lit`.
fn spells(v: &Vec<char>, lit: &str) -> (r: bool)
    ensures
        r == (v@ == lit@),
{
    let w = chars_of(lit);
    chars_eq(v, &w)
}

/// The characters of `v` after its last `c`.
fn chars_after_last(v: &Vec<char>, c: char) -> (r: Vec<char>)
    ensures
        r@ == after_last(v@, c),
{
    let mut start: usize = 0;
    let mut i: usize = 0;
    while i < v.len()
        invariant
            start <= i <= v.len(),
            after_last(v@.subrange(0, i as int), c) == v@.subrange(start as int, i as int),
        decreases v.len() - i,
    {
        let ghost next = v@.subrange(0, i as int + 1);
        assert(next.drop_last() =~= v@.subrange(0, i as int));
        if v[i] == c {
            start = i + 1;
            assert(v@.subrange(start as int, i as int + 1) =~= Seq::<char>::empty());
        } else {
            assert(v@.subrange(start as int, i as int + 1) =~= v@.subrange(
                start as int,
                i as int,
            ).push(v@[i as int]));
        }
        i = i + 1;
    }
    assert(v@.subrange(0, v@.len() as int) =~= v@);
    copy_range(v, start, v.len())
}

/// The content type for the file at `path`.
pub fn mime_type(path: &str) -> (r: &'static str)
    ensures
        r@ == mime_of(path@),
        mime_answer(path@, r@),
{
    let ext = chars_after_last(&chars_of(path), '.');
    let ext_text = string_from_chars(&ext);
    let lower = to_lowercase(ext_text.as_str());
    let e = chars_of(lower.as_str());
    if spells(&e, "html") {
        "text/html; charset=utf-8"
    } else if spells(&e, "htm") {
        "text/html; charset=utf-8"
    } else if spells(&e, "css") {
        "text/css"
    } else if spells(&e, "js") {
        "application/javascript"
    } else if spells(&e, "mjs") {
        "application/javascript"
    } else if spells(&e, "json") {
        "application/json"
    } else if spells(&e, "xml") {
        "application/xml"
    } else if spells(&e, "png") {
        "image/png"
    } else if spells(&e, "jpg") {
        "image/jpeg"
    } else if spells(&e, "jpeg") {
        "image/jpeg"
    } else if spells(&e, "gif") {
        "image/gif"
    } else if spells(&e, "svg") {
        "image/svg+xml"
    } else if spells(&e, "ico") {
        "image/x-icon"
    } else if spells(&e, "webp") {
        "image/webp"
    } else if spells(&e, "ttf") {
        "font/ttf"
    } else if spells(&e, "woff") {
        "font/woff"
    } else if spells(&e, "woff2") {
        "font/woff2"
    } else if spells(&e, "mp4") {
        "video/mp4"
    } else if spells(&e, "mp3") {
        "audio/mpeg"
    } else if spells(&e, "wav") {
        "audio/wav"
    } else if spells(&e, "pdf") {
        "application/pdf"
    } else if spells(&e, "txt") {
        "text/plain"
    } else if spells(&e, "csv") {
        "text/csv"
    } else if spells(&e, "zip") {
        "application/zip"
    } else {
        "application/octet-stream"
    }
}

/// What `Path::extension` finds in a path: whether it has an extension.
pub uninterp spec fn path_has_extension(p: Seq<char>) -> bool;

/// `Path::new(p).extension().is_some()`.
#[verifier::external_body]
fn has_extension(p: &str) -> (r: bool)
    ensures
        r == path_has_extension(p@),
{
    std::path::Path::new(p).extension().is_some()
}

/// `PathBuf::push` of a relative path on Unix: `rel` appended, with a `/`
/// between unless `base` is empty or already ends in one.
pub open spec fn join_path(base: Seq<char>, rel: Seq<char>) -> Seq<char> {
    if base.len() == 0 || base.last() == '/' {
        base + rel
    } else {
        base + "/"@ + rel
    }
}

/// The part of `url_path` below `route_prefix`, without leading slashes;
/// empty when the path is not below the prefix.
pub open spec fn relative_part(url_path: Seq<char>, route_prefix: Seq<char>) -> Seq<char> {
    trim_start_char(
        match spec_strip_prefix(url_path, route_prefix) {
            Some(rest) => rest,
            None => Seq::empty(),
        },
        '/',
    )
}

/// The file that a request for `url_path`, under the route `route_prefix`,
/// reads from `static_dir`: `index.html` for the directory itself and for
/// any part without an extension.
pub open spec fn resolved_path(
    url_path: Seq<char>,
    route_prefix: Seq<char>,
    static_dir: Seq<char>,
) -> Seq<char> {
    let rel = relative_part(url_path, route_prefix);
    if rel.len() == 0 {
        join_path(static_dir, "index.html"@)
    } else if !path_has_extension(rel) {
        join_path(join_path(static_dir, rel), "index.html"@)
    } else {
        join_path(static_dir, rel)
    }
}

/// Appends the relative path `rel` to `base` as `PathBuf::push` does.
fn push_path(base: &mut String, rel: &str)
    ensures
        final(base)@ == join_path(old(base)@, rel@),
{
    let chars = chars_of(base.as_str());
    let n = chars.len();
    if n > 0 && chars[n - 1] != '/' {
        push_str(base, "/");
    }
    push_str(base, rel);
    assert(final(base)@ =~= join_path(old(base)@, rel@)) by {
        assert(chars@ == old(base)@);
    }
}

/// The path of the file that serves `url_path` under `route_prefix` from
/// `static_dir`.
pub fn resolve_path(url_path: &str, route_prefix: &str, static_dir: &str) -> (r: String)
    ensures
        r@ == resolved_path(url_path@, route_prefix@, static_dir@),
{
    let below = match strip_prefix(url_path, route_prefix) {
        Some(rest) => chars_of(rest),
        None => Vec::new(),
    };
    let rel_chars = trim_start_matches_char(&below, '/');
    let rel = string_from_chars(&rel_chars);
    let mut path = to_owned_string(static_dir);
    if rel_chars.len() == 0 {
        push_path(&mut path, "index.html");
    } else {
        push_path(&mut path, rel.as_str());
        if !has_extension(rel.as_str()) {
            push_path(&mut path, "index.html");
        }
    }
    path
}

/// The text after the last `.` of a stem, a `.` and an extension without
/// `.` is the extension.
proof fn lemma_after_last_ext(s: Seq<char>, e: Seq<char>)
    requires
        forall|i: int| 0 <= i < e.len() ==> e[i] != '.',
    ensures
        after_last(s + seq!['.'] + e, '.') == e,
    decreases e.len(),
{
    let p = s + seq!['.'] + e;
    if e.len() == 0 {
        assert(p =~= s.push('.'));
        assert(p.last() == '.');
    } else {
        let d = e.drop_last();
        assert forall|i: int| 0 <= i < d.len() implies d[i] != '.' by {
            assert(d[i] == e[i]);
        }
        lemma_after_last_ext(s, d);
        assert(p.drop_last() =~= s + seq!['.'] + d);
        assert(p.last() == e.last());
        assert(e.last() == e[e.len() - 1]);
        assert(d.push(e.last()) =~= e);
    }
}

/// The content type goes by the extension alone, in any ASCII case: for a
/// path made of any stem, a `.` and an ASCII extension `e` without `.`,
/// what `mime_type` answers (`mime_answer`) is the registered type of `e`:
/// `text/css` for `css`, `CSS` or `Css`, and so on for each known
/// extension; `application/octet-stream` for any other.
pub proof fn lemma_mime_by_extension(stem: Seq<char>, e: Seq<char>, r: Seq<char>)
    requires
        forall|i: int| 0 <= i < e.len() ==> e[i] != '.',
        vstd::utf8::is_ascii_chars(e),
        mime_answer(stem + seq!['.'] + e, r),
    ensures
        ascii_lower_seq(e) == "html"@ || ascii_lower_seq(e) == "htm"@ ==> r
            == "text/html; charset=utf-8"@,
        ascii_lower_seq(e) == "css"@ ==> r == "text/css"@,
        ascii_lower_seq(e) == "js"@ || ascii_lower_seq(e) == "mjs"@ ==> r
            == "application/javascript"@,
        ascii_lower_seq(e) == "json"@ ==> r == "application/json"@,
        ascii_lower_seq(e) == "xml"@ ==> r == "application/xml"@,
        ascii_lower_seq(e) == "png"@ ==> r == "image/png"@,
        ascii_lower_seq(e) == "jpg"@ || ascii_lower_seq(e) == "jpeg"@ ==> r == "image/jpeg"@,
        ascii_lower_seq(e) == "gif"@ ==> r == "image/gif"@,
        ascii_lower_seq(e) == "svg"@ ==> r == "image/svg+xml"@,
        ascii_lower_seq(e) == "ico"@ ==> r == "image/x-icon"@,
        ascii_lower_seq(e) == "webp"@ ==> r == "image/webp"@,
        ascii_lower_seq(e) == "ttf"@ ==> r == "font/ttf"@,
        ascii_lower_seq(e) == "woff"@ ==> r == "font/woff"@,
        ascii_lower_seq(e) == "woff2"@ ==> r == "font/woff2"@,
        ascii_lower_seq(e) == "mp4"@ ==> r == "video/mp4"@,
        ascii_lower_seq(e) == "mp3"@ ==> r == "audio/mpeg"@,
        ascii_lower_seq(e) == "wav"@ ==> r == "audio/wav"@,
        ascii_lower_seq(e) == "pdf"@ ==> r == "application/pdf"@,
        ascii_lower_seq(e) == "txt"@ ==> r == "text/plain"@,
        ascii_lower_seq(e) == "csv"@ ==> r == "text/csv"@,
        ascii_lower_seq(e) == "zip"@ ==> r == "application/zip"@,
{
    lemma_after_last_ext(stem, e);
    reveal_strlit("html");
    reveal_strlit("htm");
    reveal_strlit("css");
    reveal_strlit("js");
    reveal_strlit("mjs");
    reveal_strlit("json");
    reveal_strlit("xml");
    reveal_strlit("png");
    reveal_strlit("jpg");
    reveal_strlit("jpeg");
    reveal_strlit("gif");
    reveal_strlit("svg");
    reveal_strlit("ico");
    reveal_strlit("webp");
    reveal_strlit("ttf");
    reveal_strlit("woff");
    reveal_strlit("woff2");
    reveal_strlit("mp4");
    reveal_strlit("mp3");
    reveal_strlit("wav");
    reveal_strlit("pdf");
    reveal_strlit("txt");
    reveal_strlit("csv");
    reveal_strlit("zip");
    let x = ascii_lower_seq(e);
    if x == "html"@ {
        assert(x.len() == 4);
        assert(x[0] == 'h');
        assert(x[1] == 't');
        assert(x[2] == 'm');
        assert(x[3] == 'l');
    }
    if x == "htm"@ {
        assert(x.len() == 3);
        assert(x[0] == 'h');
        assert(x[1] == 't');
        assert(x[2] == 'm');
    }
    if x == "css"@ {
        assert(x.len() == 3);
        assert(x[0] == 'c');
        assert(x[1] == 's');
        assert(x[2] == 's');
    }
    if x == "js"@ {
        assert(x.len() == 2);
        assert(x[0] == 'j');
        assert(x[1] == 's');
    }
    if x == "mjs"@ {
        assert(x.len() == 3);
        assert(x[0] == 'm');
        assert(x[1] == 'j');
        assert(x[2] == 's');
    }
    if x == "json"@ {
        assert(x.len() == 4);
        assert(x[0] == 'j');
        assert(x[1] == 's');
        assert(x[2] == 'o');
        assert(x[3] == 'n');
    }
    if x == "xml"@ {
        assert(x.len() == 3);
        assert(x[0] == 'x');
        assert(x[1] == 'm');
        assert(x[2] == 'l');
    }
    if x == "png"@ {
        assert(x.len() == 3);
        assert(x[0] == 'p');
        assert(x[1] == 'n');
        assert(x[2] == 'g');
    }
    if x == "jpg"@ {
        assert(x.len() == 3);
        assert(x[0] == 'j');
        assert(x[1] == 'p');
        assert(x[2] == 'g');
    }
    if x == "jpeg"@ {
        assert(x.len() == 4);
        assert(x[0] == 'j');
        assert(x[1] == 'p');
        assert(x[2] == 'e');
        assert(x[3] == 'g');
    }
    if x == "gif"@ {
        assert(x.len() == 3);
        assert(x[0] == 'g');
        assert(x[1] == 'i');
        assert(x[2] == 'f');
    }
    if x == "svg"@ {
        assert(x.len() == 3);
        assert(x[0] == 's');
        assert(x[1] == 'v');
        assert(x[2] == 'g');
    }
    if x == "ico"@ {
        assert(x.len() == 3);
        assert(x[0] == 'i');
        assert(x[1] == 'c');
        assert(x[2] == 'o');
    }
    if x == "webp"@ {
        assert(x.len() == 4);
        assert(x[0] == 'w');
        assert(x[1] == 'e');
        assert(x[2] == 'b');
        assert(x[3] == 'p');
    }
    if x == "ttf"@ {
        assert(x.len() == 3);
        assert(x[0] == 't');
        assert(x[1] == 't');
        assert(x[2] == 'f');
    }
    if x == "woff"@ {
        assert(x.len() == 4);
        assert(x[0] == 'w');
        assert(x[1] == 'o');
        assert(x[2] == 'f');
        assert(x[3] == 'f');
    }
    if x == "woff2"@ {
        assert(x.len() == 5);
        assert(x[0] == 'w');
        assert(x[1] == 'o');
        assert(x[2] == 'f');
        assert(x[3] == 'f');
        assert(x[4] == '2');
    }
    if x == "mp4"@ {
        assert(x.len() == 3);
        assert(x[0] == 'm');
        assert(x[1] == 'p');
        assert(x[2] == '4');
    }
    if x == "mp3"@ {
        assert(x.len() == 3);
        assert(x[0] == 'm');
        assert(x[1] == 'p');
        assert(x[2] == '3');
    }
    if x == "wav"@ {
        assert(x.len() == 3);
        assert(x[0] == 'w');
        assert(x[1] == 'a');
        assert(x[2] == 'v');
    }
    if x == "pdf"@ {
        assert(x.len() == 3);
        assert(x[0] == 'p');
        assert(x[1] == 'd');
        assert(x[2] == 'f');
    }
    if x == "txt"@ {
        assert(x.len() == 3);
        assert(x[0] == 't');
        assert(x[1] == 'x');
        assert(x[2] == 't');
    }
    if x == "csv"@ {
        assert(x.len() == 3);
        assert(x[0] == 'c');
        assert(x[1] == 's');
        assert(x[2] == 'v');
    }
    if x == "zip"@ {
        assert(x.len() == 3);
        assert(x[0] == 'z');
        assert(x[1] == 'i');
        assert(x[2] == 'p');
    }
}

} // verus!
