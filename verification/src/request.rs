//! Parsing the request line of an HTTP/1.1 request: UTF-8 validation,
//! tokenization, protocol check, method lookup and path/query split, with a
//! closed taxonomy of the failure modes.

use vstd::prelude::*;
use vstd::string::StrSliceExecFns;
use vstd::utf8::{decode_utf8, valid_utf8};
use crate::method::{spec_method, Method};
use crate::query_string::{spec_query, QueryString};
use crate::scan::{find_first, first_occurrence, str_eq};

verus! {

/// Why a buffer failed to parse. The variants carry no payload: an error
/// names its kind and nothing else.
#[derive(Debug, Clone, Copy, PartialEq, Eq, Structural)]
pub enum ParseError {
    InvalidRequest,
    InvalidEncodingError,
    InvalidProtocolError,
    InvalidMethodError,
}

/// The label of each error kind.
pub open spec fn spec_message(e: ParseError) -> Seq<char> {
    match e {
        ParseError::InvalidRequest => "InvalidRequest"@,
        ParseError::InvalidEncodingError => "InvalidEncodingError"@,
        ParseError::InvalidProtocolError => "InvalidProtocolError"@,
        ParseError::InvalidMethodError => "InvalidMethodError"@,
    }
}

impl ParseError {
    /// The fixed human-readable label of this error kind.
    pub fn message(&self) -> (r: &str)
        ensures
            r@ == spec_message(*self),
    {
        match self {
            ParseError::InvalidRequest => "InvalidRequest",
            ParseError::InvalidEncodingError => "InvalidEncodingError",
            ParseError::InvalidProtocolError => "InvalidProtocolError",
            ParseError::InvalidMethodError => "InvalidMethodError",
        }
    }
}

/// The first token of `s` and the remainder: the text before the first space
/// or carriage return, and everything after that delimiter. Nothing when `s`
/// holds no delimiter.
pub open spec fn spec_next_word(s: Seq<char>) -> Option<(Seq<char>, Seq<char>)> {
    let i = first_occurrence(s, ' ', '\r');
    if i < s.len() {
        Some((s.take(i), s.skip(i + 1)))
    } else {
        None
    }
}

/// Take the next space- or carriage-return-delimited token off the front of
/// `request`, returning the token and the remainder.
pub fn get_next_word<'b>(request: &'b str) -> (r: Option<(&'b str, &'b str)>)
    ensures
        match r {
            Some(pair) => spec_next_word(request@) == Some((pair.0@, pair.1@)),
            None => spec_next_word(request@) is None,
        },
{
    let n = request.unicode_len();
    let i = find_first(request, ' ', '\r');
    if i < n {
        let word = request.substring_char(0, i);
        let rest = request.substring_char(i + 1, n);
        proof {
            assert(word@ =~= request@.take(i as int));
            assert(rest@ =~= request@.skip(i + 1));
        }
        Some((word, rest))
    } else {
        None
    }
}

/// The mathematical value of a parsed request: the path, the query-string
/// multi-map if the path carried one, and the method.
pub ghost struct RequestModel {
    pub path: Seq<char>,
    pub query: Option<Map<Seq<char>, Seq<Seq<char>>>>,
    pub method: Method,
}

/// What parsing a decoded request line yields, step by step and fail-fast:
/// three tokens or `InvalidRequest`; a third token of exactly "HTTP/1.1" or
/// `InvalidProtocolError`; a known verb or `InvalidMethodError`; then the
/// path, split at its first `?` into path and query text.
pub open spec fn spec_parse(s: Seq<char>) -> Result<RequestModel, ParseError> {
    match spec_next_word(s) {
        None => Err(ParseError::InvalidRequest),
        Some((method_tok, rest1)) => match spec_next_word(rest1) {
            None => Err(ParseError::InvalidRequest),
            Some((path_tok, rest2)) => match spec_next_word(rest2) {
                None => Err(ParseError::InvalidRequest),
                Some((protocol, _)) => {
                    if protocol != "HTTP/1.1"@ {
                        Err(ParseError::InvalidProtocolError)
                    } else {
                        match spec_method(method_tok) {
                            None => Err(ParseError::InvalidMethodError),
                            Some(m) => {
                                let q = first_occurrence(path_tok, '?', '?');
                                if q < path_tok.len() {
                                    Ok(RequestModel {
                                        path: path_tok.take(q),
                                        query: Some(spec_query(path_tok.skip(q + 1))),
                                        method: m,
                                    })
                                } else {
                                    Ok(RequestModel { path: path_tok, query: None, method: m })
                                }
                            },
                        }
                    }
                },
            },
        },
    }
}

/// A parsed request line. Every text field is a slice of the buffer the
/// request was parsed from and lives no longer than that buffer.
#[derive(Debug)]
pub struct Request<'a> {
    pub path: &'a str,
    pub query_string: Option<QueryString<'a>>,
    pub method: Method,
}

impl<'a> View for Request<'a> {
    type V = RequestModel;

    open spec fn view(&self) -> RequestModel {
        RequestModel {
            path: self.path@,
            query: match self.query_string {
                Some(qs) => Some(qs@),
                None => None,
            },
            method: self.method,
        }
    }
}

impl<'a> Request<'a> {
    /// The query string, if present, is well formed.
    pub open spec fn wf(&self) -> bool {
        self.query_string matches Some(qs) ==> qs.wf()
    }

    /// Parse the request line at the front of a byte buffer. The buffer must
    /// decode as UTF-8, hold at least three delimited tokens, name the
    /// protocol "HTTP/1.1" exactly and open with a known verb; the first of
    /// these to fail names the error, and on success every parsed field is
    /// exactly what `spec_parse` says of the decoded text.
    pub fn parse(buf: &'a [u8]) -> (r: Result<Request<'a>, ParseError>)
        ensures
            match r {
                Ok(req) => valid_utf8(buf@) && spec_parse(decode_utf8(buf@)) == Ok::<
                    RequestModel,
                    ParseError,
                >(req@) && req.wf(),
                Err(e) => if valid_utf8(buf@) {
                    spec_parse(decode_utf8(buf@)) == Err::<RequestModel, ParseError>(e)
                } else {
                    e == ParseError::InvalidEncodingError
                },
            },
    {
        let text = match from_utf8(buf) {
            Some(t) => t,
            None => {
                return Err(ParseError::InvalidEncodingError);
            },
        };
        let (method_tok, rest1) = match get_next_word(text) {
            Some(pair) => pair,
            None => {
                return Err(ParseError::InvalidRequest);
            },
        };
        let (path_tok, rest2) = match get_next_word(rest1) {
            Some(pair) => pair,
            None => {
                return Err(ParseError::InvalidRequest);
            },
        };
        let (protocol, _rest3) = match get_next_word(rest2) {
            Some(pair) => pair,
            None => {
                return Err(ParseError::InvalidRequest);
            },
        };
        if !str_eq(protocol, "HTTP/1.1") {
            return Err(ParseError::InvalidProtocolError);
        }
        let method = match Method::from_str(method_tok) {
            Ok(m) => m,
            Err(_) => {
                return Err(ParseError::InvalidMethodError);
            },
        };
        let n = path_tok.unicode_len();
        let q = find_first(path_tok, '?', '?');
        if q < n {
            let path = path_tok.substring_char(0, q);
            let query_text = path_tok.substring_char(q + 1, n);
            proof {
                assert(path@ =~= path_tok@.take(q as int));
                assert(query_text@ =~= path_tok@.skip(q + 1));
            }
            let qs = QueryString::from_text(query_text);
            Ok(Request { path, query_string: Some(qs), method })
        } else {
            Ok(Request { path: path_tok, query_string: None, method })
        }
    }
}

/// Relies on str::from_utf8: it succeeds exactly on buffers that are valid
/// UTF-8, and the resulting string views the given bytes, so its characters
/// are their UTF-8 decoding.
#[verifier::external_body]
fn from_utf8<'b>(buf: &'b [u8]) -> (r: Option<&'b str>)
    ensures
        r is Some <==> valid_utf8(buf@),
        r matches Some(s) ==> s@ == decode_utf8(buf@),
{
    core::str::from_utf8(buf).ok()
}

} // verus!
