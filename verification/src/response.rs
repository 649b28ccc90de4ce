//! A response under construction: status line, headers and body, and its
//! serialized byte form.

use vstd::prelude::*;

use crate::text::contains_sub;
use crate::text::str_contains;
use crate::text::str_eq;
use crate::text::upsert;
use crate::text::upsert_pair;

verus! {

/// The one protocol version the engine speaks.
#[derive(Debug, Clone, Copy, PartialEq, Eq, Structural)]
pub enum HttpVersion {
    V1_1,
}

/// The version's wire text.
pub open spec fn version_text(v: HttpVersion) -> Seq<char> {
    match v {
        HttpVersion::V1_1 => "HTTP/1.1"@,
    }
}

impl HttpVersion {
    /// The version's wire text.
    pub fn text(&self) -> (r: String)
        ensures
            r@ == version_text(*self),
    {
        match self {
            HttpVersion::V1_1 => String::from_str("HTTP/1.1"),
        }
    }
}

impl From<&str> for HttpVersion {
    fn from(value: &str) -> (r: HttpVersion) {
        HttpVersion::V1_1
    }
}

impl vstd::std_specs::convert::FromSpecImpl<&str> for HttpVersion {
    open spec fn obeys_from_spec() -> bool {
        true
    }

    open spec fn from_spec(v: &str) -> HttpVersion {
        HttpVersion::V1_1
    }
}

/// The response statuses the engine issues.
#[derive(Debug, Clone, Copy, PartialEq, Eq, Structural)]
pub enum HttpStatus {
    Okay,
    NotFound,
    BadRequest,
    InternalServerError,
}

/// The status's wire text.
pub open spec fn status_text(s: HttpStatus) -> Seq<char> {
    match s {
        HttpStatus::Okay => "200 OK"@,
        HttpStatus::NotFound => "404 Not Found"@,
        HttpStatus::BadRequest => "400 Bad Request"@,
        HttpStatus::InternalServerError => "500 Internal Server Error"@,
    }
}

impl HttpStatus {
    /// The status's wire text.
    pub fn text(&self) -> (r: String)
        ensures
            r@ == status_text(*self),
    {
        match self {
            HttpStatus::Okay => String::from_str("200 OK"),
            HttpStatus::NotFound => String::from_str("404 Not Found"),
            HttpStatus::BadRequest => String::from_str("400 Bad Request"),
            HttpStatus::InternalServerError => String::from_str("500 Internal Server Error"),
        }
    }
}

/// The content types the engine serves.
#[derive(Debug, Clone, Copy, PartialEq, Eq, Structural)]
pub enum ContentType {
    Html,
    PlainText,
    AvifImage,
    Css,
    Mp4Video,
}

/// How a `Content-Type` value reads; unknown values fall back to plain text.
pub open spec fn content_type_of(s: Seq<char>) -> ContentType {
    if s == "text/plain"@ {
        ContentType::PlainText
    } else if s == "text/html"@ {
        ContentType::Html
    } else if s == "text/css"@ {
        ContentType::Css
    } else if s == "image/avif"@ {
        ContentType::AvifImage
    } else {
        ContentType::PlainText
    }
}

impl From<&str> for ContentType {
    fn from(value: &str) -> (r: ContentType) {
        if str_eq(value, "text/plain") {
            ContentType::PlainText
        } else if str_eq(value, "text/html") {
            ContentType::Html
        } else if str_eq(value, "text/css") {
            ContentType::Css
        } else if str_eq(value, "image/avif") {
            ContentType::AvifImage
        } else {
            ContentType::PlainText
        }
    }
}

impl vstd::std_specs::convert::FromSpecImpl<&str> for ContentType {
    open spec fn obeys_from_spec() -> bool {
        true
    }

    open spec fn from_spec(v: &str) -> ContentType {
        content_type_of(v@)
    }
}

/// The header value a content type is sent as.
pub open spec fn content_type_text(c: ContentType) -> Seq<char> {
    match c {
        ContentType::Html => "text/html; charset=utf-8"@,
        ContentType::Css => "text/css; charset=utf-8"@,
        ContentType::PlainText => "text/plain; charset=utf-8"@,
        ContentType::AvifImage => "image/avif"@,
        ContentType::Mp4Video => "video/mp4"@,
    }
}

impl ContentType {
    /// The header value this content type is sent as.
    pub fn text(&self) -> (r: String)
        ensures
            r@ == content_type_text(*self),
    {
        match self {
            ContentType::Html => String::from_str("text/html; charset=utf-8"),
            ContentType::Css => String::from_str("text/css; charset=utf-8"),
            ContentType::PlainText => String::from_str("text/plain; charset=utf-8"),
            ContentType::AvifImage => String::from_str("image/avif"),
            ContentType::Mp4Video => String::from_str("video/mp4"),
        }
    }
}

/// The content type a request path asks for, read off its extension.
pub open spec fn path_content_type(s: Seq<char>) -> ContentType {
    if contains_sub(s, ".htm"@) {
        ContentType::Html
    } else if contains_sub(s, ".txt"@) {
        ContentType::PlainText
    } else if contains_sub(s, ".css"@) {
        ContentType::Css
    } else if contains_sub(s, ".png"@) || contains_sub(s, ".jpg"@) || contains_sub(s, ".ico"@) {
        ContentType::AvifImage
    } else if contains_sub(s, ".mp4"@) {
        ContentType::Mp4Video
    } else {
        ContentType::Html
    }
}

/// The content type a request path asks for, read off its extension.
pub fn parse_content_type(req: &str) -> (r: ContentType)
    ensures
        r == path_content_type(req@),
{
    if str_contains(req, ".htm") {
        ContentType::Html
    } else if str_contains(req, ".txt") {
        ContentType::PlainText
    } else if str_contains(req, ".css") {
        ContentType::Css
    } else if str_contains(req, ".png") || str_contains(req, ".jpg") || str_contains(req, ".ico") {
        ContentType::AvifImage
    } else if str_contains(req, ".mp4") {
        ContentType::Mp4Video
    } else {
        ContentType::Html
    }
}

/// The header block's text: each pair as `name: value`, each line closed by
/// `\r\n`, in storage order.
pub open spec fn headers_text(hs: Seq<(Seq<char>, Seq<char>)>) -> Seq<char>
    decreases hs.len(),
{
    if hs.len() == 0 {
        Seq::empty()
    } else {
        headers_text(hs.drop_last()) + hs.last().0 + ": "@ + hs.last().1 + "\r\n"@
    }
}

/// The full head of a response: status line, header block and the blank
/// line that closes the head.
pub open spec fn head_text(
    version: HttpVersion,
    status: HttpStatus,
    hs: Seq<(Seq<char>, Seq<char>)>,
) -> Seq<char> {
    version_text(version) + " "@ + status_text(status) + "\r\n"@ + headers_text(hs) + "\r\n"@
}

/// A response under construction.  Headers keep their insertion order;
/// setting a name again replaces its value in place.
#[derive(Debug)]
pub struct Response {
    pub version: HttpVersion,
    pub status: HttpStatus,
    pub headers: Vec<(String, String)>,
    pub body: Vec<u8>,
}

impl Response {
    /// An empty `200 OK` response.
    pub fn new() -> (r: Response)
        ensures
            r.version == HttpVersion::V1_1,
            r.status == HttpStatus::Okay,
            r.headers.deep_view() == Seq::<(Seq<char>, Seq<char>)>::empty(),
            r.body@ == Seq::<u8>::empty(),
    {
        let r = Response {
            version: HttpVersion::V1_1,
            status: HttpStatus::Okay,
            headers: Vec::new(),
            body: Vec::new(),
        };
        proof {
            assert(r.headers.deep_view() =~= Seq::<(Seq<char>, Seq<char>)>::empty());
        }
        r
    }

    /// The response's version.
    pub fn version(&self) -> (r: HttpVersion)
        ensures
            r == self.version,
    {
        self.version
    }

    /// The response's status.
    pub fn status(&self) -> (r: HttpStatus)
        ensures
            r == self.status,
    {
        self.status
    }

    /// A copy of the headers, in storage order.
    pub fn headers(&self) -> (r: Vec<(String, String)>)
        ensures
            r@ == self.headers@,
    {
        let mut r: Vec<(String, String)> = Vec::new();
        let mut i: usize = 0;
        while i < self.headers.len()
            invariant
                i <= self.headers.len(),
                r@ == self.headers@.take(i as int),
            decreases self.headers.len() - i,
        {
            let pair = &self.headers[i];
            r.push((pair.0.clone(), pair.1.clone()));
            proof {
                assert(r@ =~= self.headers@.take(i as int + 1));
            }
            i = i + 1;
        }
        proof {
            assert(self.headers@.take(self.headers.len() as int) =~= self.headers@);
        }
        r
    }

    /// The header block as wire text.
    pub fn headers_http(&self) -> (r: String)
        ensures
            r@ == headers_text(self.headers.deep_view()),
    {
        let ghost hs = self.headers.deep_view();
        let mut out = String::new();
        let mut i: usize = 0;
        proof {
            assert(hs.take(0) =~= Seq::<(Seq<char>, Seq<char>)>::empty());
        }
        while i < self.headers.len()
            invariant
                i <= self.headers.len(),
                hs == self.headers.deep_view(),
                hs.len() == self.headers.len(),
                out@ == headers_text(hs.take(i as int)),
            decreases self.headers.len() - i,
        {
            proof {
                assert(hs.take(i as int + 1).drop_last() =~= hs.take(i as int));
                assert(hs.take(i as int + 1).last() == hs[i as int]);
                assert(hs[i as int] == (self.headers@[i as int].0@, self.headers@[i as int].1@));
            }
            let pair = &self.headers[i];
            out.append(pair.0.as_str());
            out.append(": ");
            out.append(pair.1.as_str());
            out.append("\r\n");
            proof {
                assert(out@ =~= headers_text(hs.take(i as int + 1)));
            }
            i = i + 1;
        }
        proof {
            assert(hs.take(self.headers.len() as int) =~= hs);
        }
        out
    }

    /// The response body.
    pub fn body(&self) -> (r: &[u8])
        ensures
            r@ == self.body@,
    {
        self.body.as_slice()
    }

    /// The whole response as bytes: the head's UTF-8, then the body.
    pub fn as_bytes(&self) -> (r: Vec<u8>)
        ensures
            r@ == vstd::utf8::encode_utf8(
                head_text(self.version, self.status, self.headers.deep_view()),
            ) + self.body@,
    {
        let mut head = self.version.text();
        head.append(" ");
        let status = self.status.text();
        head.append(status.as_str());
        head.append("\r\n");
        let hdrs = self.headers_http();
        head.append(hdrs.as_str());
        head.append("\r\n");
        proof {
            assert(head@ =~= head_text(self.version, self.status, self.headers.deep_view()));
        }
        let mut r = head.as_str().as_bytes_vec();
        let mut i: usize = 0;
        let ghost hb = r@;
        while i < self.body.len()
            invariant
                i <= self.body.len(),
                r@ == hb + self.body@.take(i as int),
            decreases self.body.len() - i,
        {
            r.push(self.body[i]);
            proof {
                assert(r@ =~= hb + self.body@.take(i as int + 1));
            }
            i = i + 1;
        }
        proof {
            assert(self.body@.take(self.body.len() as int) =~= self.body@);
        }
        r
    }

    /// Set the version.
    pub fn set_version(&mut self, version: HttpVersion)
        ensures
            final(self).version == version,
            final(self).status == old(self).status,
            final(self).headers == old(self).headers,
            final(self).body == old(self).body,
    {
        self.version = version;
    }

    /// Set the status.
    pub fn set_status(&mut self, status: HttpStatus)
        ensures
            final(self).version == old(self).version,
            final(self).status == status,
            final(self).headers == old(self).headers,
            final(self).body == old(self).body,
    {
        self.status = status;
    }

    /// Set a header: an existing name keeps its place with its value
    /// replaced, a fresh one is appended.
    pub fn set_headers(&mut self, key: String, value: String)
        ensures
            final(self).version == old(self).version,
            final(self).status == old(self).status,
            final(self).headers.deep_view() == upsert(old(self).headers.deep_view(), key@, value@),
            final(self).body == old(self).body,
    {
        upsert_pair(&mut self.headers, key, value);
    }

    /// Set the body.
    pub fn set_body(&mut self, body: &[u8])
        ensures
            final(self).version == old(self).version,
            final(self).status == old(self).status,
            final(self).headers == old(self).headers,
            final(self).body@ == body@,
    {
        self.body = vstd::slice::slice_to_vec(body);
    }
}

} // verus!
