use crate::strutil::str_eq;
use vstd::prelude::*;

verus! {

/// HTTP request method named on an access-log line.
#[derive(Clone, Copy, PartialEq, Eq, Structural, Debug)]
pub enum HttpMethod {
    CONNECT,
    DELETE,
    GET,
    HEAD,
    OPTIONS,
    PATCH,
    POST,
    PUT,
}

/// HTTP protocol version named on an access-log line.
#[derive(Clone, Copy, PartialEq, Eq, Structural, Debug)]
pub enum HttpVersion {
    Http0_9,
    Http1_0,
    Http1_1,
    Http2_0,
    Http3_0,
}

pub open spec fn spec_method_of(s: Seq<char>) -> Option<HttpMethod> {
    if s == "CONNECT"@ {
        Some(HttpMethod::CONNECT)
    } else if s == "DELETE"@ {
        Some(HttpMethod::DELETE)
    } else if s == "GET"@ {
        Some(HttpMethod::GET)
    } else if s == "HEAD"@ {
        Some(HttpMethod::HEAD)
    } else if s == "OPTIONS"@ {
        Some(HttpMethod::OPTIONS)
    } else if s == "PATCH"@ {
        Some(HttpMethod::PATCH)
    } else if s == "POST"@ {
        Some(HttpMethod::POST)
    } else if s == "PUT"@ {
        Some(HttpMethod::PUT)
    } else {
        None
    }
}

pub open spec fn spec_version_of(s: Seq<char>) -> Option<HttpVersion> {
    if s == "HTTP/0.9"@ {
        Some(HttpVersion::Http0_9)
    } else if s == "HTTP/1.0"@ {
        Some(HttpVersion::Http1_0)
    } else if s == "HTTP/1.1"@ {
        Some(HttpVersion::Http1_1)
    } else if s == "HTTP/2.0"@ {
        Some(HttpVersion::Http2_0)
    } else if s == "HTTP/3.0"@ {
        Some(HttpVersion::Http3_0)
    } else {
        None
    }
}

impl HttpMethod {
    /// Recognizes exactly the eight method spellings; anything else is
    /// rejected so a malformed line can be dropped by the caller.
    pub fn from_str(input: &str) -> (r: Option<HttpMethod>)
        ensures
            r == spec_method_of(input@),
    {
        if str_eq(input, "CONNECT") {
            Some(HttpMethod::CONNECT)
        } else if str_eq(input, "DELETE") {
            Some(HttpMethod::DELETE)
        } else if str_eq(input, "GET") {
            Some(HttpMethod::GET)
        } else if str_eq(input, "HEAD") {
            Some(HttpMethod::HEAD)
        } else if str_eq(input, "OPTIONS") {
            Some(HttpMethod::OPTIONS)
        } else if str_eq(input, "PATCH") {
            Some(HttpMethod::PATCH)
        } else if str_eq(input, "POST") {
            Some(HttpMethod::POST)
        } else if str_eq(input, "PUT") {
            Some(HttpMethod::PUT)
        } else {
            None
        }
    }
}

impl HttpVersion {
    /// Recognizes exactly the five version spellings used on log lines.
    pub fn from_str(input: &str) -> (r: Option<HttpVersion>)
        ensures
            r == spec_version_of(input@),
    {
        if str_eq(input, "HTTP/0.9") {
            Some(HttpVersion::Http0_9)
        } else if str_eq(input, "HTTP/1.0") {
            Some(HttpVersion::Http1_0)
        } else if str_eq(input, "HTTP/1.1") {
            Some(HttpVersion::Http1_1)
        } else if str_eq(input, "HTTP/2.0") {
            Some(HttpVersion::Http2_0)
        } else if str_eq(input, "HTTP/3.0") {
            Some(HttpVersion::Http3_0)
        } else {
            None
        }
    }
}

/// One parsed access-log line.  Immutable once constructed; the parser that
/// produces it from raw text lives outside this crate and hands over plain
/// values only.  `time` is seconds since the Unix epoch.
#[derive(Debug, PartialEq, Eq)]
pub struct Request {
    pub ip_address: String,
    pub identd: Option<String>,
    pub username: Option<String>,
    pub time: i64,
    pub method: HttpMethod,
    pub uri: String,
    pub http_version: HttpVersion,
    pub status_code: i64,
    pub size: i64,
    pub referer: String,
    pub user_agent: String,
}

impl Clone for Request {
    /// Field-for-field copy; the clone is equal to the original, which lets
    /// the same record live in the root window and in a group partition.
    fn clone(&self) -> (r: Self)
        ensures
            r == *self,
    {
        Request {
            ip_address: self.ip_address.clone(),
            identd: match &self.identd {
                Some(s) => Some(s.clone()),
                None => None,
            },
            username: match &self.username {
                Some(s) => Some(s.clone()),
                None => None,
            },
            time: self.time,
            method: self.method,
            uri: self.uri.clone(),
            http_version: self.http_version,
            status_code: self.status_code,
            size: self.size,
            referer: self.referer.clone(),
            user_agent: self.user_agent.clone(),
        }
    }
}

} // verus!
