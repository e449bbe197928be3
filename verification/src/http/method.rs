//! HTTP request methods.
use vstd::prelude::*;
use crate::text::bytes_eq;
use vstd::string::StringSliceAdditionalSpecFns;

verus! {

#[derive(Debug, Clone, Copy, PartialEq, Eq, Structural)]
pub enum Method {
    GET,
    POST,
    PUT,
    DELETE,
    PATCH,
    HEAD,
    OPTIONS,
    CONNECT,
    TRACE,
}

/// The method's name as it appears on the request line.
pub open spec fn method_name(m: Method) -> Seq<char> {
    match m {
        Method::GET => "GET"@,
        Method::POST => "POST"@,
        Method::PUT => "PUT"@,
        Method::DELETE => "DELETE"@,
        Method::PATCH => "PATCH"@,
        Method::HEAD => "HEAD"@,
        Method::OPTIONS => "OPTIONS"@,
        Method::CONNECT => "CONNECT"@,
        Method::TRACE => "TRACE"@,
    }
}

/// The method whose name is spelled by the bytes `b`, if any.
pub open spec fn method_of_bytes(b: Seq<u8>) -> Option<Method> {
    if b == "GET".spec_bytes() {
        Some(Method::GET)
    } else if b == "POST".spec_bytes() {
        Some(Method::POST)
    } else if b == "PUT".spec_bytes() {
        Some(Method::PUT)
    } else if b == "DELETE".spec_bytes() {
        Some(Method::DELETE)
    } else if b == "PATCH".spec_bytes() {
        Some(Method::PATCH)
    } else if b == "HEAD".spec_bytes() {
        Some(Method::HEAD)
    } else if b == "OPTIONS".spec_bytes() {
        Some(Method::OPTIONS)
    } else if b == "CONNECT".spec_bytes() {
        Some(Method::CONNECT)
    } else if b == "TRACE".spec_bytes() {
        Some(Method::TRACE)
    } else {
        None
    }
}

/// The method spelled by the text `s`, if any.
pub open spec fn method_of_str(s: Seq<char>) -> Option<Method> {
    method_of_bytes(vstd::utf8::encode_utf8(s))
}

impl Method {
    pub fn as_str(&self) -> (r: &'static str)
        ensures
            r@ == method_name(*self),
    {
        match self {
            Method::GET => "GET",
            Method::POST => "POST",
            Method::PUT => "PUT",
            Method::DELETE => "DELETE",
            Method::PATCH => "PATCH",
            Method::HEAD => "HEAD",
            Method::OPTIONS => "OPTIONS",
            Method::CONNECT => "CONNECT",
            Method::TRACE => "TRACE",
        }
    }

    pub fn from_bytes(b: &[u8]) -> (r: Option<Self>)
        ensures
            r == method_of_bytes(b@),
    {
        if bytes_eq(b, "GET".as_bytes()) {
            Some(Method::GET)
        } else if bytes_eq(b, "POST".as_bytes()) {
            Some(Method::POST)
        } else if bytes_eq(b, "PUT".as_bytes()) {
            Some(Method::PUT)
        } else if bytes_eq(b, "DELETE".as_bytes()) {
            Some(Method::DELETE)
        } else if bytes_eq(b, "PATCH".as_bytes()) {
            Some(Method::PATCH)
        } else if bytes_eq(b, "HEAD".as_bytes()) {
            Some(Method::HEAD)
        } else if bytes_eq(b, "OPTIONS".as_bytes()) {
            Some(Method::OPTIONS)
        } else if bytes_eq(b, "CONNECT".as_bytes()) {
            Some(Method::CONNECT)
        } else if bytes_eq(b, "TRACE".as_bytes()) {
            Some(Method::TRACE)
        } else {
            None
        }
    }

    pub fn from_str(s: &str) -> (r: Option<Self>)
        ensures
            r == method_of_str(s@),
    {
        Self::from_bytes(s.as_bytes())
    }

    /// The method's number, in declaration order (`GET` is 0).
    pub fn code(&self) -> (r: u8)
        ensures
            r == method_code(*self),
    {
        match self {
            Method::GET => 0,
            Method::POST => 1,
            Method::PUT => 2,
            Method::DELETE => 3,
            Method::PATCH => 4,
            Method::HEAD => 5,
            Method::OPTIONS => 6,
            Method::CONNECT => 7,
            Method::TRACE => 8,
        }
    }
}

/// The method's number, in declaration order.
pub open spec fn method_code(m: Method) -> u8 {
    match m {
        Method::GET => 0,
        Method::POST => 1,
        Method::PUT => 2,
        Method::DELETE => 3,
        Method::PATCH => 4,
        Method::HEAD => 5,
        Method::OPTIONS => 6,
        Method::CONNECT => 7,
        Method::TRACE => 8,
    }
}

impl Default for Method {
    fn default() -> (r: Self)
        ensures
            r == Method::GET,
    {
        Method::GET
    }
}

/// Two ASCII texts have equal UTF-8 encodings exactly when they are equal.
pub proof fn lemma_ascii_encode_eq(a: Seq<char>, b: Seq<char>)
    requires
        vstd::utf8::is_ascii_chars(a),
        vstd::utf8::is_ascii_chars(b),
    ensures
        (vstd::utf8::encode_utf8(a) == vstd::utf8::encode_utf8(b)) == (a == b),
{
    vstd::utf8::is_ascii_chars_encode_utf8(a);
    vstd::utf8::is_ascii_chars_encode_utf8(b);
    if vstd::utf8::encode_utf8(a) == vstd::utf8::encode_utf8(b) {
        assert forall|i: int| 0 <= i < a.len() implies a[i] == b[i] by {
            assert(a[i] as u8 == vstd::utf8::encode_utf8(a)[i]);
            assert(b[i] as u8 == vstd::utf8::encode_utf8(b)[i]);
        }
        assert(a =~= b);
    }
}

/// Parsing a method's own name gives the method back.
pub proof fn lemma_method_name_roundtrip(m: Method)
    ensures
        method_of_str(method_name(m)) == Some(m),
{
    reveal_strlit("GET");
    reveal_strlit("POST");
    reveal_strlit("PUT");
    reveal_strlit("DELETE");
    reveal_strlit("PATCH");
    reveal_strlit("HEAD");
    reveal_strlit("OPTIONS");
    reveal_strlit("CONNECT");
    reveal_strlit("TRACE");
    let x = method_name(m);
    assert(vstd::utf8::is_ascii_chars(x));
    assert(vstd::utf8::is_ascii_chars("GET"@));
    lemma_ascii_encode_eq(x, "GET"@);
    assert(vstd::utf8::is_ascii_chars("POST"@));
    lemma_ascii_encode_eq(x, "POST"@);
    assert(vstd::utf8::is_ascii_chars("PUT"@));
    lemma_ascii_encode_eq(x, "PUT"@);
    assert(vstd::utf8::is_ascii_chars("DELETE"@));
    lemma_ascii_encode_eq(x, "DELETE"@);
    assert(vstd::utf8::is_ascii_chars("PATCH"@));
    lemma_ascii_encode_eq(x, "PATCH"@);
    assert(vstd::utf8::is_ascii_chars("HEAD"@));
    lemma_ascii_encode_eq(x, "HEAD"@);
    assert(vstd::utf8::is_ascii_chars("OPTIONS"@));
    lemma_ascii_encode_eq(x, "OPTIONS"@);
    assert(vstd::utf8::is_ascii_chars("CONNECT"@));
    lemma_ascii_encode_eq(x, "CONNECT"@);
    assert(vstd::utf8::is_ascii_chars("TRACE"@));
    lemma_ascii_encode_eq(x, "TRACE"@);
}

/// Distinct methods have distinct names.
pub proof fn lemma_method_names_distinct(m1: Method, m2: Method)
    ensures
        m1 != m2 ==> method_name(m1) != method_name(m2),
{
    lemma_method_name_roundtrip(m1);
    lemma_method_name_roundtrip(m2);
}

} // verus!
