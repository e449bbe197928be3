//! HTTP status codes and their status lines.
use vstd::prelude::*;

verus! {

/// The status line text for `code`; unknown codes read as 500.
pub open spec fn status_text_of(code: u16) -> Seq<char> {
    if code == 200 {
        "200 OK"@
    } else if code == 201 {
        "201 Created"@
    } else if code == 204 {
        "204 No Content"@
    } else if code == 301 {
        "301 Moved Permanently"@
    } else if code == 302 {
        "302 Found"@
    } else if code == 400 {
        "400 Bad Request"@
    } else if code == 401 {
        "401 Unauthorized"@
    } else if code == 403 {
        "403 Forbidden"@
    } else if code == 404 {
        "404 Not Found"@
    } else if code == 405 {
        "405 Method Not Allowed"@
    } else if code == 429 {
        "429 Too Many Requests"@
    } else if code == 500 {
        "500 Internal Server Error"@
    } else if code == 502 {
        "502 Bad Gateway"@
    } else if code == 503 {
        "503 Service Unavailable"@
    } else {
        "500 Internal Server Error"@
    }
}

/// The status line text for `code`.
pub fn status_text(code: u16) -> (r: &'static str)
    ensures
        r@ == status_text_of(code),
{
    match code {
        200 => "200 OK",
        201 => "201 Created",
        204 => "204 No Content",
        301 => "301 Moved Permanently",
        302 => "302 Found",
        400 => "400 Bad Request",
        401 => "401 Unauthorized",
        403 => "403 Forbidden",
        404 => "404 Not Found",
        405 => "405 Method Not Allowed",
        429 => "429 Too Many Requests",
        500 => "500 Internal Server Error",
        502 => "502 Bad Gateway",
        503 => "503 Service Unavailable",
        _ => "500 Internal Server Error",
    }
}

/// An HTTP status code.
#[derive(Debug, Clone, Copy, PartialEq, Eq, Structural)]
pub struct StatusCode(pub u16);

impl StatusCode {
    pub fn as_u16(&self) -> (r: u16)
        ensures
            r == self.0,
    {
        self.0
    }

    pub fn as_str(&self) -> (r: &'static str)
        ensures
            r@ == status_text_of(self.0),
    {
        status_text(self.0)
    }

    pub fn is_success(&self) -> (r: bool)
        ensures
            r == (200 <= self.0 < 300),
    {
        200 <= self.0 && self.0 < 300
    }

    pub fn is_client_error(&self) -> (r: bool)
        ensures
            r == (400 <= self.0 < 500),
    {
        400 <= self.0 && self.0 < 500
    }

    pub fn is_server_error(&self) -> (r: bool)
        ensures
            r == (500 <= self.0 < 600),
    {
        500 <= self.0 && self.0 < 600
    }
}

impl From<u16> for StatusCode {
    fn from(code: u16) -> Self {
        StatusCode(code)
    }
}

impl vstd::std_specs::convert::FromSpecImpl<u16> for StatusCode {
    open spec fn obeys_from_spec() -> bool {
        true
    }

    open spec fn from_spec(code: u16) -> Self {
        StatusCode(code)
    }
}

impl From<StatusCode> for u16 {
    fn from(code: StatusCode) -> Self {
        code.0
    }
}

impl vstd::std_specs::convert::FromSpecImpl<StatusCode> for u16 {
    open spec fn obeys_from_spec() -> bool {
        true
    }

    open spec fn from_spec(code: StatusCode) -> u16 {
        code.0
    }
}

} // verus!
