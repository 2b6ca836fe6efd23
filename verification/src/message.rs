//! The shared framing contract: any message that can state its first line,
//! its header mapping and its optional body serializes to wire bytes the same
//! way.  The serializer never re-emits a `transfer-encoding` header — bodies
//! are always carried whole, with an explicit length — and injects
//! `Content-Length` when a body is present without one.

use vstd::prelude::*;
use vstd::utf8::encode_utf8;

use crate::headers::{
    keys_lower, lemma_remove_key, spec_has_key, spec_remove_key, HeaderMap,
};
use crate::num::{dec_digits, dec_val, lemma_dec_digits_value};
use crate::text::{str_eq, to_lower};

verus! {

pub open spec fn crlf() -> Seq<u8> {
    seq![13u8, 10u8]
}

/// The header key the serializer refuses to pass on.
pub open spec fn te_key() -> Seq<char> {
    "transfer-encoding"@
}

/// The header key that states a body's exact byte length.
pub open spec fn cl_key() -> Seq<char> {
    "content-length"@
}

/// The headers that actually reach the wire: every `transfer-encoding` entry
/// dropped, and `Content-Length` appended when a body is present and no
/// entry states a length already.
pub open spec fn emitted_headers(
    hs: Seq<(Seq<char>, Seq<char>)>,
    body: Option<Seq<u8>>,
) -> Seq<(Seq<char>, Seq<char>)> {
    let kept = spec_remove_key(hs, te_key());
    if body is Some && !spec_has_key(hs, cl_key()) {
        kept.push(("Content-Length"@, dec_digits(body->0.len())))
    } else {
        kept
    }
}

/// One header line on the wire.
pub open spec fn header_line(k: Seq<char>, v: Seq<char>) -> Seq<u8> {
    encode_utf8(k) + seq![58u8, 32u8] + encode_utf8(v) + crlf()
}

/// A run of header lines, in order.
pub open spec fn header_block(hs: Seq<(Seq<char>, Seq<char>)>) -> Seq<u8>
    decreases hs.len(),
{
    if hs.len() == 0 {
        Seq::empty()
    } else {
        header_block(hs.drop_last()) + header_line(hs.last().0, hs.last().1)
    }
}

/// The canonical wire form of a message.
pub open spec fn serialize_msg(
    fl: Seq<char>,
    hs: Seq<(Seq<char>, Seq<char>)>,
    body: Option<Seq<u8>>,
) -> Seq<u8> {
    encode_utf8(fl) + crlf() + header_block(emitted_headers(hs, body)) + crlf() + (match body {
        Some(b) => b,
        None => Seq::empty(),
    })
}

/// What any HTTP message can say about itself, and how it serializes.
pub trait Http {
    spec fn spec_first_line(&self) -> Seq<char>;

    spec fn spec_headers(&self) -> Seq<(Seq<char>, Seq<char>)>;

    spec fn spec_body(&self) -> Option<Seq<u8>>;

    fn get_first_line(&self) -> (r: String)
        ensures
            r@ == self.spec_first_line(),
    ;

    fn get_headers(&self) -> (r: HeaderMap)
        ensures
            r@ == self.spec_headers(),
    ;

    fn get_body(&self) -> (r: Option<Vec<u8>>)
        ensures
            match r {
                Some(b) => self.spec_body() == Some(b@),
                None => self.spec_body() is None,
            },
    ;

    /// Serializes the message: first line, headers with `transfer-encoding`
    /// withheld and `Content-Length` supplied when owed, a blank line, and
    /// the body verbatim.
    fn to_bytes(&self) -> (r: Vec<u8>)
        ensures
            r@ == serialize_msg(self.spec_first_line(), self.spec_headers(), self.spec_body()),
    {
        let fl = self.get_first_line();
        let headers = self.get_headers();
        let body = self.get_body();
        let ghost hs = self.spec_headers();
        let mut out: Vec<u8> = Vec::new();
        append_str_bytes(&mut out, fl.as_str());
        push_crlf(&mut out);
        let ghost head = encode_utf8(self.spec_first_line()) + crlf();
        proof {
            assert(out@ =~= head + header_block(spec_remove_key(hs.subrange(0, 0), te_key())));
        }
        let has_cl = headers.contains_key("content-length");
        let n: usize = headers.len();
        let mut i: usize = 0;
        while i < n
            invariant
                n == headers@.len(),
                headers@ == hs,
                i <= n,
                out@ == head + header_block(spec_remove_key(hs.subrange(0, i as int), te_key())),
            decreases n - i,
        {
            let ghost prefix = hs.subrange(0, i as int);
            let ghost prefix2 = hs.subrange(0, i as int + 1);
            proof {
                assert(prefix2.drop_last() =~= prefix);
                assert(prefix2.last() == hs[i as int]);
            }
            let (k, v) = headers.entry_at(i);
            if !str_eq(k.as_str(), "transfer-encoding") {
                append_str_bytes(&mut out, k.as_str());
                out.push(58);
                out.push(32);
                append_str_bytes(&mut out, v.as_str());
                push_crlf(&mut out);
                proof {
                    let kept = spec_remove_key(prefix, te_key());
                    assert(spec_remove_key(prefix2, te_key()) == kept + seq![hs[i as int]]);
                    assert(header_block(kept + seq![hs[i as int]]) == header_block(
                        (kept + seq![hs[i as int]]).drop_last(),
                    ) + header_line(hs[i as int].0, hs[i as int].1));
                    assert((kept + seq![hs[i as int]]).drop_last() =~= kept);
                    assert(out@ =~= head + header_block(spec_remove_key(prefix2, te_key())));
                }
            } else {
                proof {
                    assert(spec_remove_key(prefix2, te_key()) == spec_remove_key(
                        prefix,
                        te_key(),
                    ));
                }
            }
            i += 1;
        }
        proof {
            assert(hs.subrange(0, n as int) =~= hs);
        }
        let body_present = match &body {
            Some(_) => true,
            None => false,
        };
        if body_present && !has_cl {
            let len: usize = match &body {
                Some(b) => b.len(),
                None => 0,
            };
            append_str_bytes(&mut out, "Content-Length");
            out.push(58);
            out.push(32);
            let digits = crate::num::u64_to_dec_string(len as u64);
            append_str_bytes(&mut out, digits.as_str());
            push_crlf(&mut out);
            proof {
                let kept = spec_remove_key(hs, te_key());
                let entry = ("Content-Length"@, dec_digits(self.spec_body()->0.len()));
                assert(emitted_headers(hs, self.spec_body()) == kept.push(entry));
                assert(header_block(kept.push(entry)) == header_block(
                    kept.push(entry).drop_last(),
                ) + header_line(entry.0, entry.1));
                assert(kept.push(entry).drop_last() =~= kept);
                assert(out@ =~= head + header_block(emitted_headers(hs, self.spec_body())));
            }
        } else {
            proof {
                assert(emitted_headers(hs, self.spec_body()) == spec_remove_key(hs, te_key()));
            }
        }
        push_crlf(&mut out);
        match &body {
            Some(b) => {
                append_byte_slice(&mut out, b.as_slice());
            },
            None => {},
        }
        proof {
            assert(out@ =~= serialize_msg(
                self.spec_first_line(),
                self.spec_headers(),
                self.spec_body(),
            ));
        }
        out
    }
}

/// Appends a string's UTF-8 bytes to the wire buffer.
pub fn append_str_bytes(out: &mut Vec<u8>, s: &str)
    ensures
        final(out)@ == old(out)@ + encode_utf8(s@),
{
    out.extend_from_slice(s.as_bytes());
    proof {
        assert(out@ =~= old(out)@ + encode_utf8(s@));
    }
}

/// Appends raw bytes to the wire buffer.
pub fn append_byte_slice(out: &mut Vec<u8>, b: &[u8])
    ensures
        final(out)@ == old(out)@ + b@,
{
    out.extend_from_slice(b);
    proof {
        assert(out@ =~= old(out)@ + b@);
    }
}

/// Appends a line ending to the wire buffer.
pub fn push_crlf(out: &mut Vec<u8>)
    ensures
        final(out)@ == old(out)@ + crlf(),
{
    out.push(13);
    out.push(10);
    proof {
        assert(out@ =~= old(out)@ + crlf());
    }
}

/// No emitted header is a `transfer-encoding` header: not letter for letter,
/// and — when the stored keys are lower-case, as parsed ones always are —
/// not in any casing either.
pub proof fn lemma_serialize_strips_transfer_encoding(
    hs: Seq<(Seq<char>, Seq<char>)>,
    body: Option<Seq<u8>>,
)
    ensures
        forall|i: int|
            0 <= i < emitted_headers(hs, body).len() ==> (#[trigger] emitted_headers(
                hs,
                body,
            )[i]).0 != te_key(),
        keys_lower(hs) ==> forall|i: int|
            0 <= i < emitted_headers(hs, body).len() ==> to_lower(
                (#[trigger] emitted_headers(hs, body)[i]).0,
            ) != te_key(),
{
    reveal_strlit("transfer-encoding");
    reveal_strlit("Content-Length");
    reveal_strlit("content-length");
    let kept = spec_remove_key(hs, te_key());
    let out = emitted_headers(hs, body);
    lemma_remove_key(hs, te_key());
    assert(("Content-Length"@).len() == 14);
    assert((te_key()).len() == 17);
    assert forall|i: int| 0 <= i < out.len() implies (#[trigger] out[i]).0 != te_key() by {
        if i < kept.len() {
            assert(out[i] == kept[i]);
        } else {
            assert(out[i].0 == "Content-Length"@);
        }
    }
    if keys_lower(hs) {
        assert forall|i: int| 0 <= i < out.len() implies to_lower((#[trigger] out[i]).0)
            != te_key() by {
            if i < kept.len() {
                assert(out[i] == kept[i]);
                let w = choose|w: int| 0 <= w < hs.len() && hs[w] == kept[i];
                assert(to_lower(hs[w].0) == hs[w].0);
            } else {
                assert(out[i].0 == "Content-Length"@);
                assert(to_lower("Content-Length"@) =~= "content-length"@);
                assert(("content-length"@).len() == 14);
            }
        }
    }
}

/// When a body is present and no `content-length` entry was stored, the
/// emitted headers end with a `Content-Length` entry whose decimal value is
/// the body's exact byte length.
pub proof fn lemma_serialize_content_length(
    hs: Seq<(Seq<char>, Seq<char>)>,
    body: Option<Seq<u8>>,
)
    requires
        body is Some,
        !spec_has_key(hs, cl_key()),
    ensures
        emitted_headers(hs, body).len() > 0,
        emitted_headers(hs, body).last() == (
            "Content-Length"@,
            dec_digits(body->0.len()),
        ),
        dec_val(dec_digits(body->0.len())) == body->0.len(),
{
    lemma_dec_digits_value(body->0.len());
}

} // verus!
