//! Cookies: the `Set-Cookie` text of a cookie, and the pairs of a `Cookie`
//! request header.
use vstd::prelude::*;
use crate::num::{dec_repr, u64_to_string};
use crate::strmap::StrMap;
use crate::text::{
    chars_of, push_str, split_char, split_chars, split_once, split_once_char, string_from_chars,
    to_owned_string, trim, trim_chars, views,
};

verus! {

/// A cookie to set.
#[derive(Debug, Clone)]
pub struct Cookie {
    pub name: String,
    pub value: String,
    pub path: Option<String>,
    pub domain: Option<String>,
    pub max_age: Option<u64>,
    pub http_only: bool,
    pub secure: bool,
}

/// `lead + value` (`lead` is `"; Key="`) when the attribute is present.
pub open spec fn cookie_attr(lead: Seq<char>, value: Option<Seq<char>>) -> Seq<char> {
    match value {
        Some(v) => lead + v,
        None => Seq::empty(),
    }
}

/// A flag attribute (`"; Flag"`) when it is set.
pub open spec fn cookie_flag(text: Seq<char>, set: bool) -> Seq<char> {
    if set {
        text
    } else {
        Seq::empty()
    }
}

/// The text of an optional string.
pub open spec fn opt_text(s: Option<String>) -> Option<Seq<char>> {
    match s {
        Some(x) => Some(x@),
        None => None,
    }
}

/// The `Set-Cookie` value of a cookie: `name=value`, then `Path`, `Domain`
/// and `Max-Age` when present, then `HttpOnly` and `Secure` when set.
pub open spec fn cookie_header(c: Cookie) -> Seq<char> {
    c.name@ + "="@ + c.value@ + cookie_attr("; Path="@, opt_text(c.path)) + cookie_attr(
        "; Domain="@,
        opt_text(c.domain),
    ) + cookie_attr(
        "; Max-Age="@,
        match c.max_age {
            Some(a) => Some(dec_repr(a as nat)),
            None => None,
        },
    ) + cookie_flag("; HttpOnly"@, c.http_only) + cookie_flag("; Secure"@, c.secure)
}

impl Cookie {
    /// A cookie `name=value` for the path `/`, HTTP only and not secure.
    pub fn new(name: &str, value: &str) -> (r: Self)
        ensures
            r.name@ == name@,
            r.value@ == value@,
            r.path matches Some(p) && p@ == "/"@,
            r.domain is None,
            r.max_age is None,
            r.http_only,
            !r.secure,
    {
        Cookie {
            name: to_owned_string(name),
            value: to_owned_string(value),
            path: Some(to_owned_string("/")),
            domain: None,
            max_age: None,
            http_only: true,
            secure: false,
        }
    }

    /// The cookie with `HttpOnly` set to `v`.
    pub fn http_only(self, v: bool) -> (r: Self)
        ensures
            r == (Cookie { http_only: v, ..self }),
    {
        let mut c = self;
        c.http_only = v;
        c
    }

    /// The cookie with `Secure` set to `v`.
    pub fn secure(self, v: bool) -> (r: Self)
        ensures
            r == (Cookie { secure: v, ..self }),
    {
        let mut c = self;
        c.secure = v;
        c
    }

    /// The cookie with a `Max-Age` of `secs`.
    pub fn max_age(self, secs: u64) -> (r: Self)
        ensures
            r == (Cookie { max_age: Some(secs), ..self }),
    {
        let mut c = self;
        c.max_age = Some(secs);
        c
    }

    /// The cookie for the path `p`.
    pub fn path(self, p: &str) -> (r: Self)
        ensures
            r.path matches Some(x) && x@ == p@,
            r == (Cookie { path: r.path, ..self }),
    {
        let mut c = self;
        c.path = Some(to_owned_string(p));
        c
    }

    /// The cookie's `Set-Cookie` value.
    pub fn to_header(&self) -> (r: String)
        ensures
            r@ == cookie_header(*self),
    {
        let mut s = String::new();
        push_str(&mut s, self.name.as_str());
        push_str(&mut s, "=");
        push_str(&mut s, self.value.as_str());
        if let Some(p) = &self.path {
            push_str(&mut s, "; Path=");
            push_str(&mut s, p.as_str());
        }
        if let Some(d) = &self.domain {
            push_str(&mut s, "; Domain=");
            push_str(&mut s, d.as_str());
        }
        if let Some(age) = self.max_age {
            push_str(&mut s, "; Max-Age=");
            let a = u64_to_string(age);
            push_str(&mut s, a.as_str());
        }
        if self.http_only {
            push_str(&mut s, "; HttpOnly");
        }
        if self.secure {
            push_str(&mut s, "; Secure");
        }
        let ghost want = cookie_header(*self);
        assert(s@ =~= want);
        s
    }
}

/// The name of a `name=value` piece of a `Cookie` header, trimmed.
pub open spec fn cookie_key(piece: Seq<char>) -> Seq<char> {
    trim(split_once_char(trim(piece), '=').0)
}

/// The value of a `name=value` piece, trimmed; empty when there is no `=`.
pub open spec fn cookie_value(piece: Seq<char>) -> Seq<char> {
    match split_once_char(trim(piece), '=').1 {
        Some(v) => trim(v),
        None => Seq::empty(),
    }
}

/// The cookies of the pieces, a later one replacing an earlier one of the
/// same name.
pub open spec fn cookie_map(pieces: Seq<Seq<char>>) -> Map<Seq<char>, Seq<char>>
    decreases pieces.len(),
{
    if pieces.len() == 0 {
        Map::empty()
    } else {
        cookie_map(pieces.drop_last()).insert(cookie_key(pieces.last()), cookie_value(pieces.last()))
    }
}

/// The cookies of a `Cookie` request header: the `;`-separated pieces,
/// each split at its first `=`.
pub fn parse_cookies(header: &str) -> (r: StrMap<String>)
    ensures
        r@.map_values(|v: String| v@) == cookie_map(split_char(header@, ';')),
{
    let chars = chars_of(header);
    let pieces = split_chars(&chars, ';');
    let ghost ps = split_char(header@, ';');
    assert(views(pieces@) == ps);
    assert forall|j: int| 0 <= j < ps.len() implies #[trigger] pieces@[j]@ == ps[j] by {
        assert(views(pieces@)[j] == pieces@[j]@);
    }
    let mut out: StrMap<String> = StrMap::new();
    let mut i: usize = 0;
    assert(out@.map_values(|v: String| v@) =~= cookie_map(ps.subrange(0, 0)));
    while i < pieces.len()
        invariant
            i <= pieces.len(),
            pieces@.len() == ps.len(),
            forall|j: int| 0 <= j < ps.len() ==> #[trigger] pieces@[j]@ == ps[j],
            out@.map_values(|v: String| v@) == cookie_map(ps.subrange(0, i as int)),
        decreases pieces.len() - i,
    {
        let t = trim_chars(&pieces[i]);
        let (k0, rest) = split_once(&t, '=');
        let k = trim_chars(&k0);
        let v = match rest {
            Some(x) => trim_chars(&x),
            None => Vec::new(),
        };
        let ghost before = out@.map_values(|v: String| v@);
        assert(k@ == cookie_key(ps[i as int]));
        assert(v@ == cookie_value(ps[i as int]));
        out.insert(string_from_chars(&k), string_from_chars(&v));
        let ghost sub = ps.subrange(0, i as int + 1);
        assert(sub.drop_last() =~= ps.subrange(0, i as int));
        assert(out@.map_values(|v: String| v@) =~= before.insert(k@, v@));
        i = i + 1;
    }
    assert(ps.subrange(0, ps.len() as int) =~= ps);
    out
}

} // verus!
