//! The request reader: one request line, the header lines after it, and the
//! forwarding destination resolved from the reserved proxy header or from the
//! configured default.  After resolution the reserved header is removed,
//! `host` is set to the destination's hostname, and `connection` is forced to
//! `close`.

use vstd::prelude::*;
use vstd::slice::slice_to_vec;

use crate::error::HttpError;
use crate::headers::{
    keys_distinct, keys_lower, lemma_insert_line_wf, lemma_remove_key, lemma_upsert,
    spec_has_key, spec_insert_line, spec_lookup, spec_remove_key, spec_upsert, HeaderMap,
};
use crate::message::Http;
use crate::text::{
    find_char_from, find_from, lemma_find_from_bounds, next_ws_char_from, next_ws_from,
    skip_ws_char_from, skip_ws_from, spec_trim, to_lower, trim_of,
};
use crate::url::{spec_parse_url, UrlModel, URL};

verus! {

/// The reserved header naming the forwarding destination.
pub open spec fn dest_key() -> Seq<char> {
    "x-proxy-destination"@
}

/// The mathematical shape of a parsed request.
pub ghost struct RequestModel {
    pub method: Seq<char>,
    pub path: Seq<char>,
    pub version: Seq<char>,
    pub headers: Seq<(Seq<char>, Seq<char>)>,
    pub destination: UrlModel,
    pub body: Option<Seq<u8>>,
}

/// One HTTP request, read from a client and rewritten for upstream delivery.
pub struct HttpRequest {
    pub method: String,
    pub path: String,
    pub version: String,
    pub headers: HeaderMap,
    pub destination: URL,
    pub body: Option<Vec<u8>>,
}

impl View for HttpRequest {
    type V = RequestModel;

    open spec fn view(&self) -> RequestModel {
        RequestModel {
            method: self.method@,
            path: self.path@,
            version: self.version@,
            headers: self.headers@,
            destination: self.destination@,
            body: match self.body {
                Some(b) => Some(b@),
                None => None,
            },
        }
    }
}

/// How a request line is read: trimmed, it must hold exactly three
/// whitespace-separated tokens.
pub open spec fn spec_request_line(line: Seq<char>) -> Option<
    (Seq<char>, Seq<char>, Seq<char>),
> {
    let t = spec_trim(line);
    let e0 = next_ws_from(t, 0);
    let b1 = skip_ws_from(t, e0);
    let e1 = next_ws_from(t, b1);
    let b2 = skip_ws_from(t, e1);
    let e2 = next_ws_from(t, b2);
    let b3 = skip_ws_from(t, e2);
    if e0 == 0 || e1 == b1 || e2 == b2 || b3 != t.len() {
        None
    } else {
        Some((t.subrange(0, e0), t.subrange(b1, e1), t.subrange(b2, e2)))
    }
}

/// How the header section is read: one line at a time until a blank line or
/// the end of the input, folding each into the mapping.
pub open spec fn spec_fold_header_lines(
    s: Seq<char>,
    i: int,
    acc: Seq<(Seq<char>, Seq<char>)>,
) -> Seq<(Seq<char>, Seq<char>)>
    decreases s.len() - i,
    via spec_fold_header_lines_decreases
{
    if i < 0 || i >= s.len() {
        acc
    } else {
        let e = find_from(s, i, '\n');
        let t = spec_trim(s.subrange(i, e));
        if t.len() == 0 {
            acc
        } else if e >= s.len() {
            spec_insert_line(acc, t)
        } else {
            spec_fold_header_lines(s, e + 1, spec_insert_line(acc, t))
        }
    }
}

#[via_fn]
proof fn spec_fold_header_lines_decreases(
    s: Seq<char>,
    i: int,
    acc: Seq<(Seq<char>, Seq<char>)>,
) {
    if 0 <= i < s.len() {
        lemma_find_from_bounds(s, i, '\n');
    }
}

/// A view of an optional configured destination string.
pub open spec fn opt_str_view(d: &Option<String>) -> Option<Seq<char>> {
    match d {
        Some(s) => Some(s@),
        None => None,
    }
}

/// How the destination is resolved: the reserved header's value when present,
/// else the configured default, else a failure.
pub open spec fn spec_get_destination(
    hs: Seq<(Seq<char>, Seq<char>)>,
    default: Option<Seq<char>>,
) -> Result<UrlModel, Seq<char>> {
    match spec_lookup(hs, dest_key()) {
        Some(v) => spec_parse_url(v),
        None => match default {
            Some(d) => spec_parse_url(d),
            None => Err("No destination found"@),
        },
    }
}

/// Why reading a request failed.
pub ghost enum RequestFailure {
    /// The request line did not hold exactly three tokens.
    BadRequestLine,
    /// A destination string was present but unusable; carries the parser's
    /// message.
    BadDestination(Seq<char>),
    /// Neither a proxy-destination header nor a configured default.
    MissingDestination,
}

/// The headers a request carries upstream: the reserved destination header
/// removed, `host` set to the destination's hostname, `connection` forced to
/// `close`.
pub open spec fn spec_upstream_headers(
    hs: Seq<(Seq<char>, Seq<char>)>,
    u: UrlModel,
) -> Seq<(Seq<char>, Seq<char>)> {
    spec_upsert(
        spec_upsert(spec_remove_key(hs, dest_key()), "host"@, u.hostname),
        "connection"@,
        "close"@,
    )
}

/// How a whole request head is read.
pub open spec fn spec_parse_request(head: Seq<char>, default: Option<Seq<char>>) -> Result<
    RequestModel,
    RequestFailure,
> {
    let e = find_from(head, 0, '\n');
    match spec_request_line(head.subrange(0, e)) {
        None => Err(RequestFailure::BadRequestLine),
        Some(tok) => {
            let hs = spec_fold_header_lines(head, e + 1, Seq::empty());
            match spec_get_destination(hs, default) {
                Err(msg) => if spec_lookup(hs, dest_key()) is None && default is None {
                    Err(RequestFailure::MissingDestination)
                } else {
                    Err(RequestFailure::BadDestination(msg))
                },
                Ok(u) => Ok(
                    RequestModel {
                        method: tok.0,
                        path: tok.1,
                        version: tok.2,
                        headers: spec_upstream_headers(hs, u),
                        destination: u,
                        body: None,
                    },
                ),
            }
        },
    }
}

/// Splits a request line into its three tokens, or refuses it.
fn split_request_line(line: &str) -> (r: Option<(String, String, String)>)
    ensures
        match r {
            Some(v) => spec_request_line(line@) == Some((v.0@, v.1@, v.2@)),
            None => spec_request_line(line@) is None,
        },
{
    let t = trim_of(line);
    let tl: usize = t.unicode_len();
    let e0 = next_ws_char_from(t, 0);
    let b1 = skip_ws_char_from(t, e0);
    let e1 = next_ws_char_from(t, b1);
    let b2 = skip_ws_char_from(t, e1);
    let e2 = next_ws_char_from(t, b2);
    let b3 = skip_ws_char_from(t, e2);
    if e0 == 0 || e1 == b1 || e2 == b2 || b3 != tl {
        return None;
    }
    Some(
        (
            String::from_str(t.substring_char(0, e0)),
            String::from_str(t.substring_char(b1, e1)),
            String::from_str(t.substring_char(b2, e2)),
        ),
    )
}

/// Reads header lines from `from` until a blank line or the end, folding each
/// into the mapping.
fn parse_header_lines(s: &str, from: usize, headers: &mut HeaderMap)
    requires
        old(headers).wf(),
        from <= s@.len(),
    ensures
        final(headers).wf(),
        final(headers)@ == spec_fold_header_lines(s@, from as int, old(headers)@),
{
    let n: usize = s.unicode_len();
    let mut i: usize = from;
    loop
        invariant
            n == s@.len(),
            i <= n,
            headers.wf(),
            spec_fold_header_lines(s@, from as int, old(headers)@) == spec_fold_header_lines(
                s@,
                i as int,
                headers@,
            ),
        decreases n - i,
    {
        if i >= n {
            return ;
        }
        let ghost hs0 = headers@;
        let e = find_char_from(s, i, '\n');
        let line = s.substring_char(i, e);
        let t = trim_of(line);
        if t.unicode_len() == 0 {
            return ;
        }
        headers.insert_line(t);
        if e >= n {
            proof {
                assert(spec_fold_header_lines(s@, i as int, hs0) == spec_insert_line(hs0, t@));
            }
            return ;
        }
        proof {
            assert(spec_fold_header_lines(s@, i as int, hs0) == spec_fold_header_lines(
                s@,
                e + 1,
                spec_insert_line(hs0, t@),
            ));
        }
        i = e + 1;
    }
}

/// Parsed header mappings hold lower-cased keys, each exactly once, whatever
/// the casing of the lines they were read from.
pub proof fn lemma_fold_header_lines_wf(s: Seq<char>, i: int, acc: Seq<(Seq<char>, Seq<char>)>)
    requires
        keys_distinct(acc),
        keys_lower(acc),
    ensures
        keys_distinct(spec_fold_header_lines(s, i, acc)),
        keys_lower(spec_fold_header_lines(s, i, acc)),
    decreases s.len() - i,
{
    if 0 <= i < s.len() {
        lemma_find_from_bounds(s, i, '\n');
        let e = find_from(s, i, '\n');
        let t = spec_trim(s.subrange(i, e));
        if t.len() == 0 {
        } else {
            lemma_insert_line_wf(acc, t);
            if e < s.len() {
                lemma_fold_header_lines_wf(s, e + 1, spec_insert_line(acc, t));
            }
        }
    }
}

/// Every request that parses carries headers rewritten for upstream
/// delivery: the reserved destination marker is gone, `host` names the
/// destination's hostname, `connection` is forced to `close`, the keys stay
/// lower-case and unique, and no body is attached.
pub proof fn lemma_parsed_request_invariant(head: Seq<char>, default: Option<Seq<char>>)
    requires
        spec_parse_request(head, default) is Ok,
    ensures
        ({
            let m = spec_parse_request(head, default)->Ok_0;
            &&& !spec_has_key(m.headers, dest_key())
            &&& spec_lookup(m.headers, "host"@) == Some(m.destination.hostname)
            &&& spec_lookup(m.headers, "connection"@) == Some("close"@)
            &&& keys_distinct(m.headers)
            &&& keys_lower(m.headers)
            &&& m.body is None
        }),
{
    reveal_strlit("x-proxy-destination");
    reveal_strlit("host");
    reveal_strlit("connection");
    let e = find_from(head, 0, '\n');
    let hs = spec_fold_header_lines(head, e + 1, Seq::empty());
    let m = spec_parse_request(head, default)->Ok_0;
    lemma_fold_header_lines_wf(head, e + 1, Seq::empty());
    lemma_remove_key(hs, dest_key());
    let removed = spec_remove_key(hs, dest_key());
    assert(("host"@).len() == 4);
    assert(("connection"@).len() == 10);
    assert((dest_key()).len() == 19);
    assert(to_lower("host"@) =~= "host"@);
    assert(to_lower("connection"@) =~= "connection"@);
    lemma_upsert(removed, "host"@, m.destination.hostname);
    let up1 = spec_upsert(removed, "host"@, m.destination.hostname);
    lemma_upsert(up1, "connection"@, "close"@);
    assert(spec_lookup(removed, dest_key()) is None);
    assert(spec_lookup(m.headers, dest_key()) is None);
}

impl HttpRequest {
    /// Resolves the destination: the reserved header's value when the mapping
    /// holds one, else the configured default, else a failure.
    pub fn get_destination(headers: &HeaderMap, default_destination: &Option<String>) -> (r:
        Result<URL, String>)
        ensures
            match spec_get_destination(headers@, opt_str_view(default_destination)) {
                Ok(m) => r is Ok && r->Ok_0@ == m,
                Err(msg) => r is Err && r->Err_0@ == msg,
            },
    {
        match headers.get("x-proxy-destination") {
            Some(v) => URL::new(v.as_str()),
            None => match default_destination {
                Some(d) => URL::new(d.as_str()),
                None => Err(String::from_str("No destination found")),
            },
        }
    }

    /// Reads one request head: the request line, the header lines, and the
    /// destination, then rewrites the headers for upstream delivery.
    pub fn parse(head: &str, default_destination: &Option<String>) -> (r: Result<
        HttpRequest,
        HttpError,
    >)
        ensures
            match spec_parse_request(head@, opt_str_view(default_destination)) {
                Ok(m) => r is Ok && r->Ok_0@ == m,
                Err(f) => r is Err && (match f {
                    RequestFailure::BadRequestLine => r->Err_0 is MalformedRequestLine
                        && r->Err_0.spec_message() == "Malformed request line"@,
                    RequestFailure::BadDestination(msg) => r->Err_0 is DestinationError
                        && r->Err_0.spec_message() == msg,
                    RequestFailure::MissingDestination => r->Err_0 is NoDestination
                        && r->Err_0.spec_message() == "No destination found"@,
                }),
            },
    {
        let n: usize = head.unicode_len();
        let e = find_char_from(head, 0, '\n');
        let line = head.substring_char(0, e);
        let (method, path, version) = match split_request_line(line) {
            Some(tok) => tok,
            None => {
                return Err(
                    HttpError::MalformedRequestLine(String::from_str("Malformed request line")),
                );
            },
        };
        let mut headers = HeaderMap::new();
        let ghost hs = spec_fold_header_lines(head@, e + 1, Seq::empty());
        if e < n {
            parse_header_lines(head, e + 1, &mut headers);
        }
        proof {
            assert(headers@ == hs);
        }
        let destination = match Self::get_destination(&headers, default_destination) {
            Ok(u) => u,
            Err(msg) => {
                if !headers.contains_key("x-proxy-destination")
                    && default_destination.is_none() {
                    return Err(HttpError::NoDestination(msg));
                } else {
                    return Err(HttpError::DestinationError(msg));
                }
            },
        };
        proof {
            lemma_fold_header_lines_wf(head@, e + 1, Seq::empty());
            lemma_remove_key(hs, dest_key());
        }
        headers.remove("x-proxy-destination");
        headers.insert(String::from_str("host"), destination.hostname.clone());
        headers.insert(String::from_str("connection"), String::from_str("close"));
        Ok(HttpRequest { method, path, version, headers, destination, body: None })
    }
}

impl Http for HttpRequest {
    open spec fn spec_first_line(&self) -> Seq<char> {
        self.method@ + " "@ + self.path@ + " "@ + self.version@
    }

    open spec fn spec_headers(&self) -> Seq<(Seq<char>, Seq<char>)> {
        self.headers@
    }

    open spec fn spec_body(&self) -> Option<Seq<u8>> {
        match self.body {
            Some(b) => Some(b@),
            None => None,
        }
    }

    fn get_first_line(&self) -> (r: String) {
        String::from_str(self.method.as_str()).concat(" ").concat(self.path.as_str()).concat(
            " ",
        ).concat(self.version.as_str())
    }

    fn get_headers(&self) -> (r: HeaderMap) {
        self.headers.duplicate()
    }

    fn get_body(&self) -> (r: Option<Vec<u8>>) {
        match &self.body {
            Some(b) => Some(slice_to_vec(b.as_slice())),
            None => None,
        }
    }
}

} // verus!
