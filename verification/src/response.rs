//! The response reader: a status line whose reason runs to the end of the
//! line, header lines, and a body framed either by chunked transfer encoding
//! or by the close of the upstream connection.  The chunked decoder reads
//! hex-sized chunks, demands a line ending after each, and stops at the
//! zero-sized chunk; what follows it is discarded, never merged into the
//! headers.

use vstd::prelude::*;
use vstd::slice::{slice_index_get, slice_subrange, slice_to_vec};
use vstd::utf8::{decode_utf8, valid_utf8};

use crate::error::HttpError;
use crate::headers::{spec_insert_line, spec_lookup, HeaderMap};
use crate::message::{te_key, Http};
use crate::num::{
    dec_digits, parse_hex_usize, spec_parse_hex_usize, spec_parse_u16, u64_to_dec_string,
};
use crate::raw::{
    find_byte, find_byte_from, lemma_find_byte_from_bounds, trim_b, trim_slice, utf8_to_str,
};
use crate::text::{
    contains_seq, contains_str, next_ws_char_from, next_ws_from, skip_ws_char_from, skip_ws_from,
    to_lower, to_lower_str,
};

verus! {

/// The mathematical shape of a parsed response.
pub ghost struct ResponseModel {
    pub version: Seq<char>,
    pub code: u16,
    pub reason: Seq<char>,
    pub headers: Seq<(Seq<char>, Seq<char>)>,
    pub body: Option<Seq<u8>>,
}

/// One HTTP response, read whole from the upstream stream.
pub struct HttpResponse {
    pub version: String,
    pub headers: HeaderMap,
    pub code: u16,
    pub reason: String,
    pub body: Option<Vec<u8>>,
}

impl View for HttpResponse {
    type V = ResponseModel;

    open spec fn view(&self) -> ResponseModel {
        ResponseModel {
            version: self.version@,
            code: self.code,
            reason: self.reason@,
            headers: self.headers@,
            body: match self.body {
                Some(b) => Some(b@),
                None => None,
            },
        }
    }
}

/// How a status line is read: a version token, a 16-bit numeric code, and a
/// non-empty reason running from after the code to the end of the line.
pub open spec fn spec_status_line(t: Seq<char>) -> Option<(Seq<char>, u16, Seq<char>)> {
    let e0 = next_ws_from(t, 0);
    let b1 = skip_ws_from(t, e0);
    let e1 = next_ws_from(t, b1);
    let b2 = skip_ws_from(t, e1);
    if e0 == 0 || e1 == b1 || b2 >= t.len() {
        None
    } else {
        match spec_parse_u16(t.subrange(b1, e1)) {
            None => None,
            Some(code) => Some((t.subrange(0, e0), code, t.subrange(b2, t.len() as int))),
        }
    }
}

/// How the header section of the upstream stream is read: one line at a time
/// until a blank line or the end, folding in each line that decodes as text
/// and skipping one that does not.  Yields the mapping and the position
/// where the body begins.
pub open spec fn spec_fold_header_lines_b(
    s: Seq<u8>,
    i: int,
    acc: Seq<(Seq<char>, Seq<char>)>,
) -> (Seq<(Seq<char>, Seq<char>)>, int)
    decreases s.len() - i,
    via spec_fold_header_lines_b_decreases
{
    if i < 0 || i >= s.len() {
        (acc, i)
    } else {
        let e = find_byte_from(s, i, 10);
        let t = trim_b(s.subrange(i, e));
        let next = if e < s.len() {
            e + 1
        } else {
            e
        };
        if t.len() == 0 {
            (acc, next)
        } else {
            let acc2 = if valid_utf8(t) {
                spec_insert_line(acc, decode_utf8(t))
            } else {
                acc
            };
            spec_fold_header_lines_b(s, next, acc2)
        }
    }
}

#[via_fn]
proof fn spec_fold_header_lines_b_decreases(
    s: Seq<u8>,
    i: int,
    acc: Seq<(Seq<char>, Seq<char>)>,
) {
    if 0 <= i < s.len() {
        lemma_find_byte_from_bounds(s, i, 10);
    }
}

/// Whether the mapping declares chunked transfer encoding.
pub open spec fn spec_is_chunked(hs: Seq<(Seq<char>, Seq<char>)>) -> bool {
    match spec_lookup(hs, te_key()) {
        Some(v) => contains_seq(to_lower(v), "chunked"@),
        None => false,
    }
}

/// Why a chunked decode failed.
pub ghost enum ChunkFailure {
    /// The trimmed size field that is not a hexadecimal number.
    BadSize(Seq<u8>),
    /// The bytes found where a line ending was owed; fewer than two when the
    /// stream ended early.
    BadTerminator(Seq<u8>),
}

/// The chunked-transfer decode: a hex size line, that many body bytes, a
/// line ending, around again; a zero size ends the body.
pub open spec fn spec_decode_chunked(s: Seq<u8>, i: int) -> Result<Seq<u8>, ChunkFailure>
    decreases s.len() - i,
    via spec_decode_chunked_decreases
{
    if i < 0 || i >= s.len() {
        Err(ChunkFailure::BadSize(Seq::empty()))
    } else {
        let e = find_byte_from(s, i, 10);
        let t = trim_b(s.subrange(i, e));
        match spec_parse_hex_usize(t) {
            None => Err(ChunkFailure::BadSize(t)),
            Some(size) => if size == 0 {
                Ok(Seq::empty())
            } else {
                let d = if e < s.len() {
                    e + 1
                } else {
                    e
                };
                if d + size + 2 <= s.len() {
                    let data = s.subrange(d, d + size);
                    let term = s.subrange(d + size, d + size + 2);
                    if term == seq![13u8, 10u8] {
                        match spec_decode_chunked(s, d + size + 2) {
                            Ok(rest) => Ok(data + rest),
                            Err(f) => Err(f),
                        }
                    } else {
                        Err(ChunkFailure::BadTerminator(term))
                    }
                } else {
                    Err(
                        ChunkFailure::BadTerminator(
                            if d + size <= s.len() {
                                s.subrange(d + size, s.len() as int)
                            } else {
                                Seq::empty()
                            },
                        ),
                    )
                }
            },
        }
    }
}

#[via_fn]
proof fn spec_decode_chunked_decreases(s: Seq<u8>, i: int) {
    if 0 <= i < s.len() {
        lemma_find_byte_from_bounds(s, i, 10);
    }
}

/// The message reported for a chunk-size field that is not hexadecimal.
pub open spec fn chunk_size_message(t: Seq<u8>) -> Seq<char> {
    if valid_utf8(t) {
        "Invalid chunk size: '"@ + decode_utf8(t) + "'"@
    } else {
        "Invalid chunk size"@
    }
}

/// The decimal listing of bytes, as `13, 10`.
pub open spec fn byte_list_chars(b: Seq<u8>) -> Seq<char>
    decreases b.len(),
{
    if b.len() == 0 {
        Seq::empty()
    } else if b.len() == 1 {
        dec_digits(b[0] as nat)
    } else {
        byte_list_chars(b.drop_last()) + ", "@ + dec_digits(b.last() as nat)
    }
}

/// The message reported when a chunk's bytes are not followed by a line
/// ending.
pub open spec fn terminator_message(b: Seq<u8>) -> Seq<char> {
    "Expected CRLF after chunk, got ["@ + byte_list_chars(b) + "]"@
}

/// Why reading a response failed.
pub ghost enum ResponseFailure {
    /// The status line was not text, or did not hold its three parts.
    BadStatusLine,
    /// The declared chunked body could not be decoded.
    Chunk(ChunkFailure),
}

/// How a whole response is read.
pub open spec fn spec_parse_response(input: Seq<u8>) -> Result<ResponseModel, ResponseFailure> {
    let e = find_byte_from(input, 0, 10);
    let t = trim_b(input.subrange(0, e));
    if !valid_utf8(t) {
        Err(ResponseFailure::BadStatusLine)
    } else {
        match spec_status_line(decode_utf8(t)) {
            None => Err(ResponseFailure::BadStatusLine),
            Some(parts) => {
                let p0 = if e < input.len() {
                    e + 1
                } else {
                    e
                };
                let folded = spec_fold_header_lines_b(input, p0, Seq::empty());
                let hs = folded.0;
                let body_start = folded.1;
                if spec_is_chunked(hs) {
                    match spec_decode_chunked(input, body_start) {
                        Ok(b) => Ok(
                            ResponseModel {
                                version: parts.0,
                                code: parts.1,
                                reason: parts.2,
                                headers: hs,
                                body: Some(b),
                            },
                        ),
                        Err(f) => Err(ResponseFailure::Chunk(f)),
                    }
                } else {
                    Ok(
                        ResponseModel {
                            version: parts.0,
                            code: parts.1,
                            reason: parts.2,
                            headers: hs,
                            body: Some(input.subrange(body_start, input.len() as int)),
                        },
                    )
                }
            },
        }
    }
}

/// Splits a status line into version, numeric code and reason, or refuses it.
fn split_status_line(t: &str) -> (r: Option<(String, u16, String)>)
    ensures
        match r {
            Some(v) => spec_status_line(t@) == Some((v.0@, v.1, v.2@)),
            None => spec_status_line(t@) is None,
        },
{
    let tl: usize = t.unicode_len();
    let e0 = next_ws_char_from(t, 0);
    let b1 = skip_ws_char_from(t, e0);
    let e1 = next_ws_char_from(t, b1);
    let b2 = skip_ws_char_from(t, e1);
    if e0 == 0 || e1 == b1 || b2 >= tl {
        return None;
    }
    let code = match crate::num::parse_u16(t.substring_char(b1, e1)) {
        Some(c) => c,
        None => {
            return None;
        },
    };
    Some(
        (
            String::from_str(t.substring_char(0, e0)),
            code,
            String::from_str(t.substring_char(b2, tl)),
        ),
    )
}

/// The decimal listing of bytes, as the terminator message shows them.
fn byte_list_string(b: &[u8]) -> (r: String)
    ensures
        r@ == byte_list_chars(b@),
{
    let n: usize = b.len();
    let mut r = String::new();
    let mut i: usize = 0;
    while i < n
        invariant
            n == b@.len(),
            i <= n,
            r@ =~= byte_list_chars(b@.subrange(0, i as int)),
        decreases n - i,
    {
        proof {
            assert(b@.subrange(0, i as int + 1).drop_last() =~= b@.subrange(0, i as int));
            assert(b@.subrange(0, i as int + 1).last() == b@[i as int]);
        }
        if i > 0 {
            r.append(", ");
        }
        r.append(u64_to_dec_string(*slice_index_get(b, i) as u64).as_str());
        i += 1;
    }
    proof {
        assert(b@.subrange(0, n as int) =~= b@);
    }
    r
}

fn size_error(t: &[u8]) -> (r: HttpError)
    ensures
        r is InvalidChunkSize,
        r.spec_message() == chunk_size_message(t@),
{
    match utf8_to_str(t) {
        Some(s) => HttpError::InvalidChunkSize(
            String::from_str("Invalid chunk size: '").concat(s).concat("'"),
        ),
        None => HttpError::InvalidChunkSize(String::from_str("Invalid chunk size")),
    }
}

fn terminator_error(tail: &[u8]) -> (r: HttpError)
    ensures
        r is MissingChunkTerminator,
        r.spec_message() == terminator_message(tail@),
{
    HttpError::MissingChunkTerminator(
        String::from_str("Expected CRLF after chunk, got [").concat(
            byte_list_string(tail).as_str(),
        ).concat("]"),
    )
}

/// Reads header lines from `from` until a blank line or the end, folding in
/// each line that decodes as text.  Returns where the body begins.
fn parse_header_lines_b(input: &Vec<u8>, from: usize, headers: &mut HeaderMap) -> (r: usize)
    requires
        old(headers).wf(),
        from <= input@.len(),
    ensures
        final(headers).wf(),
        (final(headers)@, r as int) == spec_fold_header_lines_b(
            input@,
            from as int,
            old(headers)@,
        ),
        r <= input@.len(),
{
    let n: usize = input.len();
    let mut i: usize = from;
    loop
        invariant
            n == input@.len(),
            i <= n,
            headers.wf(),
            spec_fold_header_lines_b(input@, from as int, old(headers)@)
                == spec_fold_header_lines_b(input@, i as int, headers@),
        decreases n - i,
    {
        if i >= n {
            return i;
        }
        let ghost hs0 = headers@;
        let e = find_byte(input, i, 10);
        let line = slice_subrange(input.as_slice(), i, e);
        let t = trim_slice(line);
        let next: usize = if e < n {
            e + 1
        } else {
            e
        };
        if t.len() == 0 {
            return next;
        }
        match utf8_to_str(t) {
            Some(ls) => {
                headers.insert_line(ls);
            },
            None => {},
        }
        proof {
            assert(spec_fold_header_lines_b(input@, i as int, hs0) == spec_fold_header_lines_b(
                input@,
                next as int,
                headers@,
            ));
        }
        i = next;
    }
}

impl HttpResponse {
    /// Decodes a chunked body that begins at `from`: hex-sized chunks, each
    /// closed by a line ending, down to the zero-sized chunk.  Trailer lines
    /// after it are discarded unread — the body is complete without them.
    pub fn decode_chunked(input: &Vec<u8>, from: usize) -> (r: Result<Vec<u8>, HttpError>)
        requires
            from <= input@.len(),
        ensures
            match spec_decode_chunked(input@, from as int) {
                Ok(b) => r is Ok && r->Ok_0@ == b,
                Err(f) => r is Err && (match f {
                    ChunkFailure::BadSize(t) => r->Err_0 is InvalidChunkSize
                        && r->Err_0.spec_message() == chunk_size_message(t),
                    ChunkFailure::BadTerminator(b2) => r->Err_0 is MissingChunkTerminator
                        && r->Err_0.spec_message() == terminator_message(b2),
                }),
            },
    {
        let n: usize = input.len();
        let mut body: Vec<u8> = Vec::new();
        let mut pos: usize = from;
        loop
            invariant
                n == input@.len(),
                pos <= n,
                spec_decode_chunked(input@, from as int) == (match spec_decode_chunked(
                    input@,
                    pos as int,
                ) {
                    Ok(rest) => Ok::<Seq<u8>, ChunkFailure>(body@ + rest),
                    Err(f) => Err::<Seq<u8>, ChunkFailure>(f),
                }),
            decreases n - pos,
        {
            let e = find_byte(input, pos, 10);
            let line = slice_subrange(input.as_slice(), pos, e);
            let t = trim_slice(line);
            if pos >= n {
                proof {
                    assert(t@ =~= Seq::<u8>::empty());
                    assert(spec_parse_hex_usize(Seq::<u8>::empty()) is None);
                }
                return Err(size_error(t));
            }
            let size = match parse_hex_usize(t) {
                Some(s) => s,
                None => {
                    return Err(size_error(t));
                },
            };
            if size == 0 {
                proof {
                    assert(body@ + Seq::<u8>::empty() =~= body@);
                }
                return Ok(body);
            }
            let d: usize = if e < n {
                e + 1
            } else {
                e
            };
            if size > n - d {
                let tail = slice_subrange(input.as_slice(), n, n);
                proof {
                    assert(tail@ =~= Seq::<u8>::empty());
                }
                return Err(terminator_error(tail));
            }
            if n - d - size < 2 {
                let tail = slice_subrange(input.as_slice(), d + size, n);
                return Err(terminator_error(tail));
            }
            let c0: u8 = input[d + size];
            let c1: u8 = input[d + size + 1];
            let ghost term = input@.subrange(d + size, d + size + 2);
            proof {
                assert(term[0] == input@[d + size]);
                assert(term[1] == input@[d + size + 1]);
            }
            if !(c0 == 13 && c1 == 10) {
                let tail = slice_subrange(input.as_slice(), d + size, d + size + 2);
                proof {
                    if term == seq![13u8, 10u8] {
                        assert(term[0] == 13 && term[1] == 10);
                    }
                }
                return Err(terminator_error(tail));
            }
            proof {
                assert(term =~= seq![13u8, 10u8]);
            }
            let data = slice_subrange(input.as_slice(), d, d + size);
            let ghost body0 = body@;
            crate::message::append_byte_slice(&mut body, data);
            proof {
                let rest_pos = d + size + 2;
                assert(spec_decode_chunked(input@, pos as int) == (match spec_decode_chunked(
                    input@,
                    rest_pos as int,
                ) {
                    Ok(rest) => Ok::<Seq<u8>, ChunkFailure>(data@ + rest),
                    Err(f) => Err::<Seq<u8>, ChunkFailure>(f),
                }));
                assert(forall|rest: Seq<u8>|
                    body0 + (data@ + rest) =~= #[trigger] (body@ + rest));
            }
            pos = d + size + 2;
        }
    }

    /// Reads one whole upstream response: status line, headers, and the body
    /// under the framing the headers declare — chunked when
    /// `transfer-encoding` says so, else everything to the end of the stream.
    pub fn parse(input: &Vec<u8>) -> (r: Result<HttpResponse, HttpError>)
        ensures
            match spec_parse_response(input@) {
                Ok(m) => r is Ok && r->Ok_0@ == m,
                Err(f) => r is Err && (match f {
                    ResponseFailure::BadStatusLine => r->Err_0 is MalformedStatusLine
                        && r->Err_0.spec_message() == "Malformed status line"@,
                    ResponseFailure::Chunk(cf) => (match cf {
                        ChunkFailure::BadSize(t) => r->Err_0 is InvalidChunkSize
                            && r->Err_0.spec_message() == chunk_size_message(t),
                        ChunkFailure::BadTerminator(b2) => r->Err_0 is MissingChunkTerminator
                            && r->Err_0.spec_message() == terminator_message(b2),
                    }),
                }),
            },
    {
        let n: usize = input.len();
        let e = find_byte(input, 0, 10);
        let line = slice_subrange(input.as_slice(), 0, e);
        let t = trim_slice(line);
        let sl = match utf8_to_str(t) {
            Some(s) => s,
            None => {
                return Err(
                    HttpError::MalformedStatusLine(String::from_str("Malformed status line")),
                );
            },
        };
        let (version, code, reason) = match split_status_line(sl) {
            Some(parts) => parts,
            None => {
                return Err(
                    HttpError::MalformedStatusLine(String::from_str("Malformed status line")),
                );
            },
        };
        let p0: usize = if e < n {
            e + 1
        } else {
            e
        };
        let mut headers = HeaderMap::new();
        let body_start = parse_header_lines_b(input, p0, &mut headers);
        let chunked = match headers.get("transfer-encoding") {
            Some(v) => contains_str(to_lower_str(v.as_str()).as_str(), "chunked"),
            None => false,
        };
        let body = if chunked {
            match Self::decode_chunked(input, body_start) {
                Ok(b) => b,
                Err(err) => {
                    return Err(err);
                },
            }
        } else {
            slice_to_vec(slice_subrange(input.as_slice(), body_start, n))
        };
        Ok(HttpResponse { version, code, reason, headers, body: Some(body) })
    }
}

impl Http for HttpResponse {
    open spec fn spec_first_line(&self) -> Seq<char> {
        self.version@ + " "@ + dec_digits(self.code as nat) + " "@ + self.reason@
    }

    open spec fn spec_headers(&self) -> Seq<(Seq<char>, Seq<char>)> {
        self.headers@
    }

    open spec fn spec_body(&self) -> Option<Seq<u8>> {
        match self.body {
            Some(b) => Some(b@),
            None => None,
        }
    }

    fn get_first_line(&self) -> (r: String) {
        String::from_str(self.version.as_str()).concat(" ").concat(
            u64_to_dec_string(self.code as u64).as_str(),
        ).concat(" ").concat(self.reason.as_str())
    }

    fn get_headers(&self) -> (r: HeaderMap) {
        self.headers.duplicate()
    }

    fn get_body(&self) -> (r: Option<Vec<u8>>) {
        match &self.body {
            Some(b) => Some(slice_to_vec(b.as_slice())),
            None => None,
        }
    }
}

} // verus!
