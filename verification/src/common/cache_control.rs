//! The `Cache-Control` response header.
use vstd::prelude::*;
use crate::num::{dec_chars, dec_repr};
use crate::text::{chars_of, join, join_chars, views};

verus! {

/// The directives of a `Cache-Control` header.
pub struct CacheControl {
    pub max_age: Option<u64>,
    pub no_cache: bool,
    pub no_store: bool,
    pub public: bool,
    pub private: bool,
    pub immutable: bool,
}

/// `[item]` when `set`, else nothing.
pub open spec fn directive(set: bool, item: Seq<char>) -> Seq<Seq<char>> {
    if set {
        seq![item]
    } else {
        Seq::empty()
    }
}

/// The directives set, in the order `no-store`, `no-cache`, `public`,
/// `private`, `immutable`, `max-age=N`.
pub open spec fn cache_directives(c: CacheControl) -> Seq<Seq<char>> {
    directive(c.no_store, "no-store"@) + directive(c.no_cache, "no-cache"@) + directive(
        c.public,
        "public"@,
    ) + directive(c.private, "private"@) + directive(c.immutable, "immutable"@) + match c.max_age {
        Some(a) => seq!["max-age="@ + dec_repr(a as nat)],
        None => Seq::empty(),
    }
}

impl CacheControl {
    /// No directives.
    pub fn new() -> (r: Self)
        ensures
            r.max_age is None,
            !r.no_cache && !r.no_store && !r.public && !r.private && !r.immutable,
    {
        CacheControl {
            max_age: None,
            no_cache: false,
            no_store: false,
            public: false,
            private: false,
            immutable: false,
        }
    }

    /// With `max-age` of `secs`.
    pub fn max_age(self, secs: u64) -> (r: Self)
        ensures
            r == (CacheControl { max_age: Some(secs), ..self }),
    {
        let mut c = self;
        c.max_age = Some(secs);
        c
    }

    /// With `no-cache`.
    pub fn no_cache(self) -> (r: Self)
        ensures
            r == (CacheControl { no_cache: true, ..self }),
    {
        let mut c = self;
        c.no_cache = true;
        c
    }

    /// With `no-store`.
    pub fn no_store(self) -> (r: Self)
        ensures
            r == (CacheControl { no_store: true, ..self }),
    {
        let mut c = self;
        c.no_store = true;
        c
    }

    /// With `public`.
    pub fn public(self) -> (r: Self)
        ensures
            r == (CacheControl { public: true, ..self }),
    {
        let mut c = self;
        c.public = true;
        c
    }

    /// With `private`.
    pub fn private(self) -> (r: Self)
        ensures
            r == (CacheControl { private: true, ..self }),
    {
        let mut c = self;
        c.private = true;
        c
    }

    /// With `immutable`.
    pub fn immutable(self) -> (r: Self)
        ensures
            r == (CacheControl { immutable: true, ..self }),
    {
        let mut c = self;
        c.immutable = true;
        c
    }

    /// The header value: the directives set, separated by `", "`.
    pub fn to_header(&self) -> (r: String)
        ensures
            r@ == join(cache_directives(*self), ", "@),
    {
        let mut parts: Vec<Vec<char>> = Vec::new();
        if self.no_store {
            parts.push(chars_of("no-store"));
        }
        if self.no_cache {
            parts.push(chars_of("no-cache"));
        }
        if self.public {
            parts.push(chars_of("public"));
        }
        if self.private {
            parts.push(chars_of("private"));
        }
        if self.immutable {
            parts.push(chars_of("immutable"));
        }
        if let Some(age) = self.max_age {
            let mut item = chars_of("max-age=");
            let mut digits = dec_chars(age);
            item.append(&mut digits);
            parts.push(item);
        }
        assert(views(parts@) =~= cache_directives(*self));
        join_chars(&parts, ", ")
    }
}

impl Default for CacheControl {
    fn default() -> (r: Self)
        ensures
            r.max_age is None,
            !r.no_cache && !r.no_store && !r.public && !r.private && !r.immutable,
    {
        CacheControl::new()
    }
}

/// A `Cache-Control` with no directives, to build on.
pub fn cache_control() -> (r: CacheControl)
    ensures
        r.max_age is None,
        !r.no_cache && !r.no_store && !r.public && !r.private && !r.immutable,
{
    CacheControl::new()
}

} // verus!
