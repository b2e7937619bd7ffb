//! HTTP protocol versions as request logs record them.
use vstd::prelude::*;

use crate::schema::str_eq;

verus! {

#[derive(Debug, Clone, Copy, PartialEq, Eq, Structural)]
pub enum HttpVersion {
    Unknown,
    Http09,
    Http10,
    Http11,
    Http20,
    Http30,
}

pub open spec fn version_text(v: HttpVersion) -> Seq<char> {
    match v {
        HttpVersion::Http09 => seq!['H', 'T', 'T', 'P', '/', '0', '.', '9'],
        HttpVersion::Http10 => seq!['H', 'T', 'T', 'P', '/', '1', '.', '0'],
        HttpVersion::Http11 => seq!['H', 'T', 'T', 'P', '/', '1', '.', '1'],
        HttpVersion::Http20 => seq!['H', 'T', 'T', 'P', '/', '2', '.', '0'],
        HttpVersion::Http30 => seq!['H', 'T', 'T', 'P', '/', '3', '.', '0'],
        HttpVersion::Unknown => seq!['H', 'T', 'T', 'P', '/', '?'],
    }
}

impl HttpVersion {
    /// The version as written in a request line, `HTTP/?` where unknown.
    pub fn as_str(&self) -> (r: &'static str)
        ensures
            r@ == version_text(*self),
    {
        proof {
            reveal_strlit("HTTP/0.9");
            reveal_strlit("HTTP/1.0");
            reveal_strlit("HTTP/1.1");
            reveal_strlit("HTTP/2.0");
            reveal_strlit("HTTP/3.0");
            reveal_strlit("HTTP/?");
        }
        let r = match self {
            HttpVersion::Http09 => "HTTP/0.9",
            HttpVersion::Http10 => "HTTP/1.0",
            HttpVersion::Http11 => "HTTP/1.1",
            HttpVersion::Http20 => "HTTP/2.0",
            HttpVersion::Http30 => "HTTP/3.0",
            HttpVersion::Unknown => "HTTP/?",
        };
        assert(r@ =~= version_text(*self));
        r
    }

    /// The version a request line names; `Unknown` for anything else.
    pub fn parse(value: &str) -> (r: HttpVersion)
        ensures
            r != HttpVersion::Unknown ==> version_text(r) == value@,
            r == HttpVersion::Unknown ==> forall|v: HttpVersion|
                v != HttpVersion::Unknown ==> version_text(v) != value@,
    {
        if str_eq(value, HttpVersion::Http09.as_str()) {
            HttpVersion::Http09
        } else if str_eq(value, HttpVersion::Http10.as_str()) {
            HttpVersion::Http10
        } else if str_eq(value, HttpVersion::Http11.as_str()) {
            HttpVersion::Http11
        } else if str_eq(value, HttpVersion::Http20.as_str()) {
            HttpVersion::Http20
        } else if str_eq(value, HttpVersion::Http30.as_str()) {
            HttpVersion::Http30
        } else {
            HttpVersion::Unknown
        }
    }
}

impl Default for HttpVersion {
    fn default() -> (r: HttpVersion)
        ensures
            r == HttpVersion::Unknown,
    {
        HttpVersion::Unknown
    }
}

} // verus!
