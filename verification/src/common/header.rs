//! HTTP header names, values and header maps.
use vstd::prelude::*;
use crate::num::{parse_decimal, parse_unsigned};
use crate::strmap::StrMap;
use crate::text::{ascii_lower_seq, ascii_lowercase, chars_eq, chars_of, to_owned_string};

verus! {

/// A header name: one of the common ones, or any other.
#[derive(Debug, Clone, PartialEq, Eq, Hash)]
pub enum HeaderName {
    ContentType,
    ContentLength,
    Authorization,
    Accept,
    CacheControl,
    Connection,
    KeepAlive,
    Host,
    UserAgent,
    Custom(String),
}

/// The text of a header name; the common ones in lower case.
pub open spec fn header_name_text(h: HeaderName) -> Seq<char> {
    match h {
        HeaderName::ContentType => "content-type"@,
        HeaderName::ContentLength => "content-length"@,
        HeaderName::Authorization => "authorization"@,
        HeaderName::Accept => "accept"@,
        HeaderName::CacheControl => "cache-control"@,
        HeaderName::Connection => "connection"@,
        HeaderName::KeepAlive => "keep-alive"@,
        HeaderName::Host => "host"@,
        HeaderName::UserAgent => "user-agent"@,
        HeaderName::Custom(s) => s@,
    }
}

/// The common header whose lower-case name is `l`, if any.
pub open spec fn standard_header(l: Seq<char>) -> Option<HeaderName> {
    if l == "content-type"@ {
        Some(HeaderName::ContentType)
    } else if l == "content-length"@ {
        Some(HeaderName::ContentLength)
    } else if l == "authorization"@ {
        Some(HeaderName::Authorization)
    } else if l == "accept"@ {
        Some(HeaderName::Accept)
    } else if l == "cache-control"@ {
        Some(HeaderName::CacheControl)
    } else if l == "connection"@ {
        Some(HeaderName::Connection)
    } else if l == "keep-alive"@ {
        Some(HeaderName::KeepAlive)
    } else if l == "host"@ {
        Some(HeaderName::Host)
    } else if l == "user-agent"@ {
        Some(HeaderName::UserAgent)
    } else {
        None
    }
}

/// Whether the characters `v` spell `lit`.
fn spells(v: &Vec<char>, lit: &str) -> (r: bool)
    ensures
        r == (v@ == lit@),
{
    let w = chars_of(lit);
    chars_eq(v, &w)
}

impl HeaderName {
    /// The name's text.
    pub fn as_str(&self) -> (r: &str)
        ensures
            r@ == header_name_text(*self),
    {
        match self {
            HeaderName::ContentType => "content-type",
            HeaderName::ContentLength => "content-length",
            HeaderName::Authorization => "authorization",
            HeaderName::Accept => "accept",
            HeaderName::CacheControl => "cache-control",
            HeaderName::Connection => "connection",
            HeaderName::KeepAlive => "keep-alive",
            HeaderName::Host => "host",
            HeaderName::UserAgent => "user-agent",
            HeaderName::Custom(s) => s.as_str(),
        }
    }

    /// The header named `s`, compared without regard to ASCII case; a name
    /// that is not a common one is kept as it was written.
    pub fn from_str(s: &str) -> (r: Self)
        ensures
            match standard_header(ascii_lower_seq(s@)) {
                Some(h) => r == h,
                None => r matches HeaderName::Custom(x) && x@ == s@,
            },
    {
        let l = ascii_lowercase(&chars_of(s));
        if spells(&l, "content-type") {
            HeaderName::ContentType
        } else if spells(&l, "content-length") {
            HeaderName::ContentLength
        } else if spells(&l, "authorization") {
            HeaderName::Authorization
        } else if spells(&l, "accept") {
            HeaderName::Accept
        } else if spells(&l, "cache-control") {
            HeaderName::CacheControl
        } else if spells(&l, "connection") {
            HeaderName::Connection
        } else if spells(&l, "keep-alive") {
            HeaderName::KeepAlive
        } else if spells(&l, "host") {
            HeaderName::Host
        } else if spells(&l, "user-agent") {
            HeaderName::UserAgent
        } else {
            HeaderName::Custom(to_owned_string(s))
        }
    }
}

/// A common header's name reads back as that header, in any ASCII case.
pub proof fn lemma_header_name_roundtrip(h: HeaderName)
    requires
        !(h is Custom),
    ensures
        standard_header(ascii_lower_seq(header_name_text(h))) == Some(h),
{
    reveal_strlit("content-type");
    reveal_strlit("content-length");
    reveal_strlit("authorization");
    reveal_strlit("accept");
    reveal_strlit("cache-control");
    reveal_strlit("connection");
    reveal_strlit("keep-alive");
    reveal_strlit("host");
    reveal_strlit("user-agent");
    let t = header_name_text(h);
    assert(ascii_lower_seq(t) =~= t);
    let names = seq![
        "content-type"@,
        "content-length"@,
        "authorization"@,
        "accept"@,
        "cache-control"@,
        "connection"@,
        "keep-alive"@,
        "host"@,
        "user-agent"@,
    ];
    assert forall|i: int, j: int| 0 <= i < j < 9 implies names[i] != names[j] by {
        assert(names[i].len() != names[j].len() || names[i][0] != names[j][0]);
    }
}

/// A header value.
#[derive(Debug, Clone, PartialEq, Eq)]
pub struct HeaderValue {
    inner: String,
}

impl HeaderValue {
    /// The value's text.
    pub closed spec fn text(&self) -> Seq<char> {
        self.inner@
    }

    /// The value `value`.
    pub fn new(value: &str) -> (r: Self)
        ensures
            r.text() == value@,
    {
        HeaderValue { inner: to_owned_string(value) }
    }

    /// The value's text.
    pub fn as_str(&self) -> (r: &str)
        ensures
            r@ == self.text(),
    {
        self.inner.as_str()
    }
}

impl From<&str> for HeaderValue {
    fn from(s: &str) -> (r: Self) {
        HeaderValue::new(s)
    }
}

impl vstd::std_specs::convert::FromSpecImpl<&str> for HeaderValue {
    open spec fn obeys_from_spec() -> bool {
        false
    }

    closed spec fn from_spec(s: &str) -> Self {
        arbitrary()
    }
}

impl From<String> for HeaderValue {
    fn from(s: String) -> (r: Self) {
        HeaderValue { inner: s }
    }
}

impl vstd::std_specs::convert::FromSpecImpl<String> for HeaderValue {
    open spec fn obeys_from_spec() -> bool {
        true
    }

    closed spec fn from_spec(s: String) -> Self {
        HeaderValue { inner: s }
    }
}

/// Headers by name; a later insert under the same name replaces the value.
pub struct Headers {
    inner: StrMap<String>,
}

/// A map of strings, by the text of its values.
pub open spec fn text_values(m: Map<Seq<char>, String>) -> Map<Seq<char>, Seq<char>> {
    m.map_values(|v: String| v@)
}

impl Headers {
    /// The headers, by name.
    pub closed spec fn view(&self) -> Map<Seq<char>, Seq<char>> {
        text_values(self.inner@)
    }

    /// No headers.
    pub fn new() -> (r: Self)
        ensures
            r@ == Map::<Seq<char>, Seq<char>>::empty(),
    {
        let r = Headers { inner: StrMap::new() };
        assert(r@ =~= Map::<Seq<char>, Seq<char>>::empty());
        r
    }

    /// Sets the header `key` to `value`.
    pub fn insert(&mut self, key: &str, value: &str)
        ensures
            final(self)@ == old(self)@.insert(key@, value@),
    {
        let ghost before = self.inner@;
        self.inner.insert(to_owned_string(key), to_owned_string(value));
        assert(self@ =~= text_values(before).insert(key@, value@));
    }

    /// The value of the header `key`.
    pub fn get(&self, key: &str) -> (r: Option<&String>)
        ensures
            match r {
                Some(v) => self@.contains_key(key@) && self@[key@] == v@,
                None => !self@.contains_key(key@),
            },
    {
        self.inner.get(key)
    }

    /// Whether the header `key` is set.
    pub fn contains_key(&self, key: &str) -> (r: bool)
        ensures
            r == self@.contains_key(key@),
    {
        self.inner.contains_key(key)
    }

    /// The headers as name and value pairs, each name once.
    pub fn iter(&self) -> (r: Vec<(&String, &String)>)
        ensures
            forall|i: int|
                0 <= i < r@.len() ==> self@.contains_key(r@[i].0@) && self@[r@[i].0@]
                    == r@[i].1@,
            forall|k: Seq<char>| #[trigger] self@.contains_key(k) ==> exists|i: int|
                0 <= i < r@.len() && r@[i].0@ == k,
    {
        self.inner.pairs()
    }

    /// Whether no header is set.
    pub fn is_empty(&self) -> (r: bool)
        ensures
            r == (self@ == Map::<Seq<char>, Seq<char>>::empty()),
    {
        let r = self.inner.is_empty();
        if !r {
            assert(exists|k: Seq<char>| self.inner@.dom().contains(k)) by {
                if !exists|k: Seq<char>| self.inner@.dom().contains(k) {
                    assert(self.inner@ =~= Map::<Seq<char>, String>::empty());
                }
            }
            let ghost k = choose|k: Seq<char>| self.inner@.dom().contains(k);
            assert(self@.dom().contains(k));
        } else {
            assert(self@ =~= Map::<Seq<char>, Seq<char>>::empty());
        }
        r
    }

    /// The `content-type` header.
    pub fn content_type(&self) -> (r: Option<&str>)
        ensures
            match r {
                Some(v) => self@.contains_key("content-type"@) && self@["content-type"@] == v@,
                None => !self@.contains_key("content-type"@),
            },
    {
        match self.get("content-type") {
            Some(s) => Some(s.as_str()),
            None => None,
        }
    }

    /// The `content-length` header as a number; `None` when it is absent
    /// or not a number that fits in a `usize`.
    pub fn content_length(&self) -> (r: Option<usize>)
        ensures
            match r {
                Some(n) => self@.contains_key("content-length"@) && parse_unsigned(
                    self@["content-length"@],
                    10,
                    usize::MAX as nat,
                ) == Some(n as nat),
                None => !self@.contains_key("content-length"@) || parse_unsigned(
                    self@["content-length"@],
                    10,
                    usize::MAX as nat,
                ) is None,
            },
    {
        match self.get("content-length") {
            Some(s) => {
                let v = chars_of(s.as_str());
                assert(v@.subrange(0, v@.len() as int) =~= v@);
                match parse_decimal(&v, 0, v.len(), usize::MAX as u64) {
                    Some(n) => Some(n as usize),
                    None => None,
                }
            },
            None => None,
        }
    }
}

impl Default for Headers {
    fn default() -> (r: Self)
        ensures
            r@ == Map::<Seq<char>, Seq<char>>::empty(),
    {
        Headers::new()
    }
}

} // verus!
