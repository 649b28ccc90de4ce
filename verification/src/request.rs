//! The parsed form of a request line: method, path and version, with
//! helpers that split the path into segments and query pairs.

use vstd::prelude::*;

use crate::response::HttpVersion;
use crate::text::is_blank;
use crate::text::split_char;
use crate::text::split_str;
use crate::text::str_contains_char;
use crate::text::str_eq;
use crate::text::str_is_blank;
use crate::text::str_upper_eq;
use crate::text::upper_eq;
use crate::text::upsert;
use crate::text::upsert_pair;
use crate::text::ws_split;
use crate::text::ws_tokens;

verus! {

/// The request methods the engine distinguishes.
#[derive(Debug, Clone, Copy, PartialEq, Eq, Structural)]
pub enum HttpMethod {
    Get,
    Post,
}

/// How a method token reads: `GET` and `POST` regardless of case; anything
/// else falls back to `Get`.
pub open spec fn method_of(s: Seq<char>) -> HttpMethod {
    if upper_eq(s, "GET"@) {
        HttpMethod::Get
    } else if upper_eq(s, "POST"@) {
        HttpMethod::Post
    } else {
        HttpMethod::Get
    }
}

/// Read a method token.
pub fn method_from_text(s: &str) -> (r: HttpMethod)
    ensures
        r == method_of(s@),
{
    if str_upper_eq(s, "GET") {
        HttpMethod::Get
    } else if str_upper_eq(s, "POST") {
        HttpMethod::Post
    } else {
        HttpMethod::Get
    }
}

impl From<&str> for HttpMethod {
    fn from(value: &str) -> (r: HttpMethod) {
        method_from_text(value)
    }
}

impl vstd::std_specs::convert::FromSpecImpl<&str> for HttpMethod {
    open spec fn obeys_from_spec() -> bool {
        true
    }

    open spec fn from_spec(v: &str) -> HttpMethod {
        method_of(v@)
    }
}

impl HttpMethod {
    /// The method's canonical text.
    pub fn text(&self) -> (r: String)
        ensures
            self == HttpMethod::Get ==> r@ == "GET"@,
            self == HttpMethod::Post ==> r@ == "POST"@,
    {
        match self {
            HttpMethod::Get => String::from_str("GET"),
            HttpMethod::Post => String::from_str("POST"),
        }
    }
}

/// A parsed request line.
#[derive(Debug)]
pub struct Request {
    pub method: HttpMethod,
    pub path: String,
    pub version: HttpVersion,
}

impl PartialEq for Request {
    fn eq(&self, other: &Request) -> (r: bool) {
        self.method == other.method && str_eq(self.path.as_str(), other.path.as_str())
            && self.version == other.version
    }
}

impl vstd::std_specs::cmp::PartialEqSpecImpl for Request {
    open spec fn obeys_eq_spec() -> bool {
        true
    }

    open spec fn eq_spec(&self, other: &Request) -> bool {
        self.method == other.method && self.path@ == other.path@ && self.version == other.version
    }
}

/// The path split at `/`, except that an all-whitespace path yields one
/// empty segment.
pub open spec fn spec_parse_params(path: Seq<char>) -> Seq<Seq<char>> {
    if is_blank(path) {
        seq![Seq::<char>::empty()]
    } else {
        split_char(path, '/')
    }
}

/// The key and value of one `key=value` piece: text after a second `=` is
/// dropped, and a piece without `=` maps the whole piece to the empty value.
pub open spec fn kv_of(piece: Seq<char>) -> (Seq<char>, Seq<char>) {
    let kv = split_char(piece, '=');
    (kv[0], if kv.len() >= 2 { kv[1] } else { Seq::<char>::empty() })
}

/// The query pairs one path segment contributes: everything after its first
/// `?`, cut at the further `?`s, each piece read as `key=value`.
pub open spec fn part_pairs(part: Seq<char>) -> Seq<(Seq<char>, Seq<char>)> {
    if part.contains('?') {
        split_char(part, '?').skip(1).map_values(|piece: Seq<char>| kv_of(piece))
    } else {
        Seq::empty()
    }
}

/// `acc` with every pair of `pairs` set in order, later values replacing
/// earlier ones for the same key.
pub open spec fn upsert_all(
    acc: Seq<(Seq<char>, Seq<char>)>,
    pairs: Seq<(Seq<char>, Seq<char>)>,
) -> Seq<(Seq<char>, Seq<char>)>
    decreases pairs.len(),
{
    if pairs.len() == 0 {
        acc
    } else {
        upsert_all(upsert(acc, pairs[0].0, pairs[0].1), pairs.skip(1))
    }
}

/// The query pairs collected over a sequence of path segments.
pub open spec fn queries_from(parts: Seq<Seq<char>>) -> Seq<(Seq<char>, Seq<char>)>
    decreases parts.len(),
{
    if parts.len() == 0 {
        Seq::empty()
    } else {
        upsert_all(queries_from(parts.drop_last()), part_pairs(parts.last()))
    }
}

/// The query pairs of a whole path.
pub open spec fn spec_parse_queries(path: Seq<char>) -> Seq<(Seq<char>, Seq<char>)> {
    queries_from(spec_parse_params(path))
}

impl Request {
    /// An empty `GET` request.
    pub fn new() -> (r: Request)
        ensures
            r.method == HttpMethod::Get,
            r.path@ == Seq::<char>::empty(),
            r.version == HttpVersion::V1_1,
    {
        Request { method: HttpMethod::Get, path: String::new(), version: HttpVersion::V1_1 }
    }

    /// The request's method.
    pub fn method(&self) -> (r: HttpMethod)
        ensures
            r == self.method,
    {
        self.method
    }

    /// The request's path.
    pub fn path(&self) -> (r: String)
        ensures
            r == self.path,
    {
        self.path.clone()
    }

    /// The request's version.
    pub fn version(&self) -> (r: HttpVersion)
        ensures
            r == self.version,
    {
        self.version
    }

    /// The path's segments, split at `/`.
    pub fn parse_params(&self) -> (r: Vec<&str>)
        ensures
            r.deep_view() == spec_parse_params(self.path@),
    {
        if !str_is_blank(self.path.as_str()) {
            split_str(self.path.as_str(), '/')
        } else {
            let mut v: Vec<&str> = Vec::new();
            v.push("");
            proof {
                reveal_strlit("");
                assert(""@ =~= Seq::<char>::empty());
                assert(v.deep_view() =~= seq![Seq::<char>::empty()]);
            }
            v
        }
    }

    /// The query pairs of the path, later values replacing earlier ones for
    /// the same key.
    pub fn parse_queries(&self) -> (r: Vec<(String, String)>)
        ensures
            r.deep_view() == spec_parse_queries(self.path@),
    {
        let parsed = self.parse_params();
        let ghost parts = parsed.deep_view();
        let mut result: Vec<(String, String)> = Vec::new();
        let mut i: usize = 0;
        proof {
            assert(parts.take(0) =~= Seq::<Seq<char>>::empty());
        }
        while i < parsed.len()
            invariant
                i <= parsed.len(),
                parts == parsed.deep_view(),
                parts.len() == parsed.len(),
                result.deep_view() == queries_from(parts.take(i as int)),
            decreases parsed.len() - i,
        {
            let part = parsed[i];
            proof {
                assert(parts[i as int] == part@);
                assert(parts.take(i as int + 1).drop_last() =~= parts.take(i as int));
                assert(parts.take(i as int + 1).last() == part@);
            }
            let ghost acc0 = result.deep_view();
            let ghost pp = part_pairs(part@);
            if str_contains_char(part, '?') {
                let pieces = split_str(part, '?');
                proof {
                    assert(pp == pieces.deep_view().skip(1).map_values(
                        |piece: Seq<char>| kv_of(piece),
                    ));
                    assert(pp.len() == pieces.deep_view().len() - 1);
                    assert(pp.skip(0) =~= pp);
                }
                let mut j: usize = 1;
                while j < pieces.len()
                    invariant
                        1 <= j <= pieces.len(),
                        pp.len() == pieces.deep_view().len() - 1,
                        pp == pieces.deep_view().skip(1).map_values(
                            |piece: Seq<char>| kv_of(piece),
                        ),
                        pieces.deep_view().len() == pieces.len(),
                        upsert_all(acc0, pp) == upsert_all(
                            result.deep_view(),
                            pp.skip(j as int - 1),
                        ),
                    decreases pieces.len() - j,
                {
                    let piece = pieces[j];
                    let kv = split_str(piece, '=');
                    let k = kv[0];
                    let v = if kv.len() >= 2 {
                        kv[1]
                    } else {
                        ""
                    };
                    proof {
                        reveal_strlit("");
                        assert(""@ =~= Seq::<char>::empty());
                        assert(pieces.deep_view()[j as int] == piece@);
                        assert(pieces.deep_view().skip(1)[j as int - 1] == piece@);
                        assert(pp[j as int - 1] == kv_of(piece@));
                        assert(kv.deep_view()[0] == k@);
                        if kv.len() >= 2 {
                            assert(kv.deep_view()[1] == v@);
                        }
                        assert(kv_of(piece@) == (k@, v@));
                        assert(pp.skip(j as int - 1)[0] == pp[j as int - 1]);
                        assert(pp.skip(j as int - 1).skip(1) =~= pp.skip(j as int));
                    }
                    upsert_pair(&mut result, k.to_owned(), v.to_owned());
                    j = j + 1;
                }
                proof {
                    assert(pp.skip(pieces.len() as int - 1).len() == 0);
                    assert(upsert_all(result.deep_view(), pp.skip(pieces.len() as int - 1))
                        == result.deep_view());
                }
            } else {
                proof {
                    assert(!part@.contains('?'));
                    assert(pp.len() == 0);
                    assert(upsert_all(acc0, pp) == acc0);
                }
            }
            proof {
                assert(queries_from(parts.take(i as int + 1)) == upsert_all(
                    queries_from(parts.take(i as int)),
                    pp,
                ));
                assert(result.deep_view() == queries_from(parts.take(i as int + 1)));
            }
            i = i + 1;
        }
        proof {
            assert(parts.take(parsed.len() as int) =~= parts);
        }
        result
    }

    /// Set the method; the request's new state is also handed back.
    pub fn set_method(&mut self, method: HttpMethod) -> (r: Request)
        ensures
            final(self).method == method,
            final(self).path == old(self).path,
            final(self).version == old(self).version,
            r == *final(self),
    {
        self.method = method;
        Request { method: self.method, path: self.path.clone(), version: self.version }
    }

    /// Set the path; the request's new state is also handed back.
    pub fn set_path(&mut self, path: String) -> (r: Request)
        ensures
            final(self).method == old(self).method,
            final(self).path == path,
            final(self).version == old(self).version,
            r == *final(self),
    {
        self.path = path;
        Request { method: self.method, path: self.path.clone(), version: self.version }
    }

    /// Set the version; the request's new state is also handed back.
    pub fn set_version(&mut self, version: HttpVersion) -> (r: Request)
        ensures
            final(self).method == old(self).method,
            final(self).path == old(self).path,
            final(self).version == version,
            r == *final(self),
    {
        self.version = version;
        Request { method: self.method, path: self.path.clone(), version: self.version }
    }
}

/// What `String::from_utf8_lossy` makes of the given bytes.
pub uninterp spec fn lossy_decode(bytes: Seq<u8>) -> Seq<char>;

/// Relies on `String::from_utf8_lossy`: the result is a function of the
/// bytes alone, and well-formed UTF-8 decodes to itself, so ASCII bytes
/// decode to their own characters.
#[verifier::external_body]
fn decode_lossy(bytes: &[u8]) -> (r: String)
    ensures
        r@ == lossy_decode(bytes@),
        (forall|i: int| 0 <= i < bytes@.len() ==> bytes@[i] < 128) ==> r@ == Seq::new(
            bytes@.len(),
            |i: int| bytes@[i] as char,
        ),
{
    String::from_utf8_lossy(bytes).into_owned()
}

/// The token at `k`, or the empty string when there are too few.
pub open spec fn token_at(ts: Seq<Seq<char>>, k: int) -> Seq<char> {
    if 0 <= k < ts.len() {
        ts[k]
    } else {
        Seq::empty()
    }
}

/// Read a request line: its first three whitespace-separated tokens give the
/// method, the path and the version; missing tokens fall back to the
/// defaults.
pub fn parse_request(req: &[u8]) -> (r: Request)
    ensures
        r.method == method_of(token_at(ws_tokens(lossy_decode(req@)), 0)),
        r.path@ == token_at(ws_tokens(lossy_decode(req@)), 1),
        r.version == HttpVersion::V1_1,
{
    let text = decode_lossy(req);
    let tokens = ws_split(text.as_str());
    let method = if tokens.len() >= 1 {
        proof {
            assert(tokens.deep_view()[0] == tokens@[0]@);
        }
        method_from_text(tokens[0])
    } else {
        proof {
            reveal_strlit("GET");
            reveal_strlit("POST");
        }
        HttpMethod::Get
    };
    let path: String = if tokens.len() >= 2 {
        proof {
            assert(tokens.deep_view()[1] == tokens@[1]@);
        }
        tokens[1].to_owned()
    } else {
        String::new()
    };
    Request { method, path, version: HttpVersion::V1_1 }
}

// A spec-level `Request` cannot be built from raw bytes, since its path is a
// `String`; the conversion therefore carries no contract of its own and
// `parse_request` states what the result holds.
impl From<Vec<u8>> for Request {
    fn from(req: Vec<u8>) -> (r: Request) {
        parse_request(req.as_slice())
    }
}

impl vstd::std_specs::convert::FromSpecImpl<Vec<u8>> for Request {
    open spec fn obeys_from_spec() -> bool {
        false
    }

    open spec fn from_spec(v: Vec<u8>) -> Request {
        vstd::pervasive::arbitrary()
    }
}

} // verus!
