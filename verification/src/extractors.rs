//! Extractors: values a handler takes from the request and its route
//! parameters.
use vstd::prelude::*;
use crate::http::parser::{pair_views, pairs_map, text_values};
use crate::http::Request;
use crate::strmap::StrMap;
use crate::text::split_char;

verus! {

/// A value taken from a request and its route parameters, or `None` when
/// the request does not supply it.
pub trait FromRequest: Sized {
    fn extract(req: &Request, params: &StrMap<String>) -> Option<Self>;
}

/// The query string's fields.
pub struct Query(pub StrMap<String>);

impl FromRequest for Query {
    /// The query's fields; `None` when there is no query or it has no
    /// field.
    fn extract(req: &Request, _params: &StrMap<String>) -> (r: Option<Self>)
        ensures
            match r {
                Some(q) => req.query@.len() > 0 && text_values(q.0@) == pairs_map(
                    split_char(req.query@, '&'),
                ) && q.0@ != Map::<Seq<char>, String>::empty(),
                None => req.query@.len() == 0 || pairs_map(split_char(req.query@, '&'))
                    == Map::<Seq<char>, Seq<char>>::empty(),
            },
    {
        if req.query.as_str().unicode_len() == 0 {
            return None;
        }
        let map = req.query_all();
        if map.is_empty() {
            assert(text_values(map@) =~= Map::<Seq<char>, Seq<char>>::empty());
            None
        } else {
            Some(Query(map))
        }
    }
}

impl core::ops::Deref for Query {
    type Target = StrMap<String>;

    fn deref(&self) -> (r: &StrMap<String>)
        ensures
            r@ == self.0@,
    {
        &self.0
    }
}

/// The request's headers.
pub struct ReqHeaders(pub Vec<(String, String)>);

/// A copy of a list of string pairs.
fn copy_pairs(v: &Vec<(String, String)>) -> (r: Vec<(String, String)>)
    ensures
        pair_views(r@) == pair_views(v@),
{
    let mut out: Vec<(String, String)> = Vec::new();
    let mut i: usize = 0;
    while i < v.len()
        invariant
            i <= v.len(),
            out@.len() == i,
            pair_views(out@) == pair_views(v@).subrange(0, i as int),
        decreases v.len() - i,
    {
        let k = v[i].0.clone();
        let w = v[i].1.clone();
        out.push((k, w));
        assert(out@[i as int] == (k, w));
        assert(pair_views(out@)[i as int] == (k@, w@));
        i = i + 1;
        assert(pair_views(out@) =~= pair_views(v@).subrange(0, i as int));
    }
    assert(pair_views(v@).subrange(0, v@.len() as int) =~= pair_views(v@));
    out
}

impl FromRequest for ReqHeaders {
    /// The headers; `None` when there are none.
    fn extract(req: &Request, _params: &StrMap<String>) -> (r: Option<Self>)
        ensures
            match r {
                Some(h) => req.headers@.len() > 0 && pair_views(h.0@) == pair_views(req.headers@),
                None => req.headers@.len() == 0,
            },
    {
        if req.headers.len() == 0 {
            return None;
        }
        Some(ReqHeaders(copy_pairs(&req.headers)))
    }
}

impl core::ops::Deref for ReqHeaders {
    type Target = Vec<(String, String)>;

    fn deref(&self) -> (r: &Vec<(String, String)>)
        ensures
            r@ == self.0@,
    {
        &self.0
    }
}

/// The request's body.
pub struct Body(pub Vec<u8>);

impl FromRequest for Body {
    /// The body; `None` when it is empty.
    fn extract(req: &Request, _params: &StrMap<String>) -> (r: Option<Self>)
        ensures
            match r {
                Some(b) => req.body@.len() > 0 && b.0@ == req.body@,
                None => req.body@.len() == 0,
            },
    {
        if req.body.len() == 0 {
            return None;
        }
        Some(Body(vstd::slice::slice_to_vec(req.body.as_slice())))
    }
}

impl core::ops::Deref for Body {
    type Target = Vec<u8>;

    fn deref(&self) -> (r: &Vec<u8>)
        ensures
            r@ == self.0@,
    {
        &self.0
    }
}

impl FromRequest for Request {
    /// A copy of the request.
    fn extract(req: &Request, _params: &StrMap<String>) -> (r: Option<Self>)
        ensures
            r matches Some(c) && c@ == req@,
    {
        let copy = Request {
            method: req.method,
            path: req.path.clone(),
            query: req.query.clone(),
            headers: copy_pairs(&req.headers),
            body: vstd::slice::slice_to_vec(req.body.as_slice()),
            keep_alive: req.keep_alive,
            chunked: req.chunked,
        };
        Some(copy)
    }
}

} // verus!
