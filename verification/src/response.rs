//! Response framing: status lines, headers, the decimal content length and
//! the body, assembled exactly as the route table prescribes.
//!
//! Every response has the shape `head ++ close-header? ++ blank line ++
//! body`, captured by [`frame`]; the conditional close header appears in the
//! frame exactly when the request asked for it.

use vstd::prelude::*;
use crate::bytes::{push_all, to_vec_exec, match_at, contains_seq};
use crate::request::crlf;
use crate::gzip::{gzip_of, gzip_compress};

verus! {

/// The bytes `"HTTP/1.1 200 OK\r\n"`.
pub open spec fn status_200() -> Seq<u8> {
    seq![72u8, 84, 84, 80, 47, 49, 46, 49, 32, 50, 48, 48, 32, 79, 75, 13, 10]
}

/// The bytes `"HTTP/1.1 201 Created\r\n"`.
pub open spec fn status_201() -> Seq<u8> {
    seq![72u8, 84, 84, 80, 47, 49, 46, 49, 32, 50, 48, 49, 32, 67, 114, 101, 97, 116, 101, 100, 13, 10]
}

/// The bytes `"HTTP/1.1 404 Not Found\r\n"`.
pub open spec fn status_404() -> Seq<u8> {
    seq![
        72u8, 84, 84, 80, 47, 49, 46, 49, 32, 52, 48, 52, 32, 78, 111, 116, 32, 70, 111, 117, 110,
        100, 13, 10,
    ]
}

/// The bytes `"HTTP/1.1 500 Internal Server Error\r\n"`.
pub open spec fn status_500() -> Seq<u8> {
    seq![
        72u8, 84, 84, 80, 47, 49, 46, 49, 32, 53, 48, 48, 32, 73, 110, 116, 101, 114, 110, 97,
        108, 32, 83, 101, 114, 118, 101, 114, 32, 69, 114, 114, 111, 114, 13, 10,
    ]
}

/// The bytes `"Connection: close\r\n"`: the literal close header.
pub open spec fn close_hdr() -> Seq<u8> {
    seq![67u8, 111, 110, 110, 101, 99, 116, 105, 111, 110, 58, 32, 99, 108, 111, 115, 101, 13, 10]
}

/// The bytes `"Content-Type: text/plain\r\nContent-Length: "`.
pub open spec fn text_head() -> Seq<u8> {
    seq![
        67u8, 111, 110, 116, 101, 110, 116, 45, 84, 121, 112, 101, 58, 32, 116, 101, 120, 116, 47,
        112, 108, 97, 105, 110, 13, 10, 67, 111, 110, 116, 101, 110, 116, 45, 76, 101, 110, 103,
        116, 104, 58, 32,
    ]
}

/// The bytes `"Content-Type: text/plain\r\nContent-Encoding: gzip\r\nContent-Length: "`.
pub open spec fn gzip_head() -> Seq<u8> {
    seq![
        67u8, 111, 110, 116, 101, 110, 116, 45, 84, 121, 112, 101, 58, 32, 116, 101, 120, 116, 47,
        112, 108, 97, 105, 110, 13, 10, 67, 111, 110, 116, 101, 110, 116, 45, 69, 110, 99, 111,
        100, 105, 110, 103, 58, 32, 103, 122, 105, 112, 13, 10, 67, 111, 110, 116, 101, 110, 116,
        45, 76, 101, 110, 103, 116, 104, 58, 32,
    ]
}

/// The bytes `"Content-Type: application/octet-stream\r\nContent-Length: "`.
pub open spec fn octet_head() -> Seq<u8> {
    seq![
        67u8, 111, 110, 116, 101, 110, 116, 45, 84, 121, 112, 101, 58, 32, 97, 112, 112, 108, 105,
        99, 97, 116, 105, 111, 110, 47, 111, 99, 116, 101, 116, 45, 115, 116, 114, 101, 97, 109,
        13, 10, 67, 111, 110, 116, 101, 110, 116, 45, 76, 101, 110, 103, 116, 104, 58, 32,
    ]
}

/// The close header when the request asked to close, nothing otherwise.
pub open spec fn conn_line(close: bool) -> Seq<u8> {
    if close {
        close_hdr()
    } else {
        Seq::empty()
    }
}

/// The shape every response takes: a head (status line and any sizing
/// headers), the conditional close header, a blank line, and the body.
pub open spec fn frame(head: Seq<u8>, close: bool, body: Seq<u8>) -> Seq<u8> {
    head + conn_line(close) + crlf() + body
}

/// A bodyless response: a status line, the conditional close header and a
/// blank line.
pub open spec fn simple_response(status: Seq<u8>, close: bool) -> Seq<u8> {
    frame(status, close, Seq::empty())
}

/// The decimal numeral of `n`, most significant digit first.
pub open spec fn dec_of(n: int) -> Seq<u8>
    decreases n,
{
    if n <= 9 {
        seq![
            (48 + (if 0 <= n {
                n
            } else {
                0
            })) as u8,
        ]
    } else {
        dec_of(n / 10) + seq![(48 + (n % 10)) as u8]
    }
}

/// A plain-text body framed with its exact byte length.
pub open spec fn text_response(body: Seq<u8>, close: bool) -> Seq<u8> {
    frame(status_200() + text_head() + dec_of(body.len() as int) + crlf(), close, body)
}

/// The compressed echo value framed with the compressed byte length.
pub open spec fn gzip_response(value: Seq<u8>, close: bool) -> Seq<u8> {
    frame(
        status_200() + gzip_head() + dec_of(gzip_of(value).len() as int) + crlf(),
        close,
        gzip_of(value),
    )
}

/// File contents framed as an octet stream with their exact byte length.
pub open spec fn octet_response(contents: Seq<u8>, close: bool) -> Seq<u8> {
    frame(status_200() + octet_head() + dec_of(contents.len() as int) + crlf(), close, contents)
}

/// No carriage return in `s` directly follows the letter `e`.
pub open spec fn no_cr_e(s: Seq<u8>) -> bool {
    forall|j: int| 0 < j < s.len() && #[trigger] s[j] == 13 ==> s[j - 1] != 101
}

/// The close header cannot occur in a sequence where no carriage return
/// follows the letter `e`: its own carriage return follows the final `e` of
/// `close`.
pub proof fn lemma_no_cr_e_close_free(x: Seq<u8>)
    requires
        no_cr_e(x),
    ensures
        !contains_seq(x, close_hdr()),
{
    assert forall|i: int| !match_at(x, close_hdr(), i) by {
        if match_at(x, close_hdr(), i) {
            assert(x.subrange(i, i + close_hdr().len() as int)[17] == x[i + 17]);
            assert(x.subrange(i, i + close_hdr().len() as int)[16] == x[i + 16]);
            assert(close_hdr()[17] == 13);
            assert(close_hdr()[16] == 101);
        }
    }
}

/// Concatenation preserves the property, provided no carriage return opens
/// the second part right after a final `e` of the first.
pub proof fn lemma_no_cr_e_concat(a: Seq<u8>, b: Seq<u8>)
    requires
        no_cr_e(a),
        no_cr_e(b),
        (b.len() > 0 && b[0] == 13 && a.len() > 0) ==> a.last() != 101,
    ensures
        no_cr_e(a + b),
{
    assert forall|j: int| 0 < j < (a + b).len() && #[trigger] (a + b)[j] == 13 implies (a + b)[j
        - 1] != 101 by {
        if j < a.len() {
            assert((a + b)[j] == a[j]);
            assert((a + b)[j - 1] == a[j - 1]);
        } else if j == a.len() {
            assert((a + b)[j] == b[0]);
            assert((a + b)[j - 1] == a[j - 1]);
        } else {
            assert((a + b)[j] == b[j - a.len()]);
            assert((a + b)[j - 1] == b[j - 1 - a.len()]);
        }
    }
}

/// In none of the fixed header literals does a carriage return follow an
/// `e`.
pub proof fn lemma_literals_no_cr_e()
    ensures
        no_cr_e(status_200()),
        no_cr_e(status_201()),
        no_cr_e(status_404()),
        no_cr_e(status_500()),
        no_cr_e(text_head()),
        no_cr_e(gzip_head()),
        no_cr_e(octet_head()),
        no_cr_e(crlf()),
{
}

/// A decimal numeral consists of digit bytes alone, and is never empty.
pub proof fn lemma_dec_of_digits(n: int)
    ensures
        forall|j: int| 0 <= j < dec_of(n).len() ==> 48 <= #[trigger] dec_of(n)[j] <= 57,
        dec_of(n).len() >= 1,
    decreases n,
{
    if n > 9 {
        lemma_dec_of_digits(n / 10);
        assert forall|j: int| 0 <= j < dec_of(n).len() implies 48 <= #[trigger] dec_of(n)[j]
            <= 57 by {
            if j < dec_of(n / 10).len() {
                assert(dec_of(n)[j] == dec_of(n / 10)[j]);
            } else {
                assert(dec_of(n)[j] == 48 + (n % 10));
            }
        }
    }
}

/// A bodyless response built without the close header contains the close
/// literal nowhere at all.
pub proof fn lemma_simple_close_free(status: Seq<u8>)
    requires
        status == status_200() || status == status_201() || status == status_404() || status
            == status_500(),
    ensures
        !contains_seq(simple_response(status, false), close_hdr()),
{
    lemma_literals_no_cr_e();
    assert(status.last() == 10);
    lemma_no_cr_e_concat(status, crlf());
    assert(simple_response(status, false) =~= status + crlf());
    lemma_no_cr_e_close_free(status + crlf());
}

/// A response with a body, built without the close header, is its header
/// block followed by the body, and the header block contains the close
/// literal nowhere. (The body is the client's own data, so nothing can be
/// said of the bytes after the blank line.)
pub proof fn lemma_sized_close_free(head: Seq<u8>, n: int, body: Seq<u8>)
    requires
        head == text_head() || head == gzip_head() || head == octet_head(),
    ensures
        frame(status_200() + head + dec_of(n) + crlf(), false, body) == (status_200() + head
            + dec_of(n) + crlf() + crlf()) + body,
        !contains_seq(status_200() + head + dec_of(n) + crlf() + crlf(), close_hdr()),
{
    lemma_literals_no_cr_e();
    lemma_dec_of_digits(n);
    let d = dec_of(n);
    assert(no_cr_e(d));
    assert(head[0] == 67);
    lemma_no_cr_e_concat(status_200(), head);
    assert(d[0] != 13);
    lemma_no_cr_e_concat(status_200() + head, d);
    assert((status_200() + head + d).last() == d.last());
    assert(d.last() != 101);
    lemma_no_cr_e_concat(status_200() + head + d, crlf());
    assert((status_200() + head + d + crlf()).last() == 10);
    lemma_no_cr_e_concat(status_200() + head + d + crlf(), crlf());
    lemma_no_cr_e_close_free(status_200() + head + d + crlf() + crlf());
    assert(frame(status_200() + head + d + crlf(), false, body) =~= (status_200() + head + d
        + crlf() + crlf()) + body);
}

pub fn crlf_exec() -> (r: Vec<u8>)
    ensures
        r@ == crlf(),
{
    let mut v: Vec<u8> = Vec::new();
    v.push(13);
    v.push(10);
    proof {
        assert(v@ =~= crlf());
    }
    v
}

pub fn status_200_exec() -> (r: Vec<u8>)
    ensures
        r@ == status_200(),
{
    let v: Vec<u8> = vec![72u8, 84, 84, 80, 47, 49, 46, 49, 32, 50, 48, 48, 32, 79, 75, 13, 10];
    proof {
        assert(v@ =~= status_200());
    }
    v
}

pub fn status_201_exec() -> (r: Vec<u8>)
    ensures
        r@ == status_201(),
{
    let v: Vec<u8> = vec![
        72u8, 84, 84, 80, 47, 49, 46, 49, 32, 50, 48, 49, 32, 67, 114, 101, 97, 116, 101, 100, 13,
        10,
    ];
    proof {
        assert(v@ =~= status_201());
    }
    v
}

pub fn status_404_exec() -> (r: Vec<u8>)
    ensures
        r@ == status_404(),
{
    let v: Vec<u8> = vec![
        72u8, 84, 84, 80, 47, 49, 46, 49, 32, 52, 48, 52, 32, 78, 111, 116, 32, 70, 111, 117, 110,
        100, 13, 10,
    ];
    proof {
        assert(v@ =~= status_404());
    }
    v
}

pub fn status_500_exec() -> (r: Vec<u8>)
    ensures
        r@ == status_500(),
{
    let v: Vec<u8> = vec![
        72u8, 84, 84, 80, 47, 49, 46, 49, 32, 53, 48, 48, 32, 73, 110, 116, 101, 114, 110, 97,
        108, 32, 83, 101, 114, 118, 101, 114, 32, 69, 114, 114, 111, 114, 13, 10,
    ];
    proof {
        assert(v@ =~= status_500());
    }
    v
}

pub fn close_hdr_exec() -> (r: Vec<u8>)
    ensures
        r@ == close_hdr(),
{
    let v: Vec<u8> = vec![
        67u8, 111, 110, 110, 101, 99, 116, 105, 111, 110, 58, 32, 99, 108, 111, 115, 101, 13, 10,
    ];
    proof {
        assert(v@ =~= close_hdr());
    }
    v
}

pub fn text_head_exec() -> (r: Vec<u8>)
    ensures
        r@ == text_head(),
{
    let v: Vec<u8> = vec![
        67u8, 111, 110, 116, 101, 110, 116, 45, 84, 121, 112, 101, 58, 32, 116, 101, 120, 116, 47,
        112, 108, 97, 105, 110, 13, 10, 67, 111, 110, 116, 101, 110, 116, 45, 76, 101, 110, 103,
        116, 104, 58, 32,
    ];
    proof {
        assert(v@ =~= text_head());
    }
    v
}

pub fn gzip_head_exec() -> (r: Vec<u8>)
    ensures
        r@ == gzip_head(),
{
    let v: Vec<u8> = vec![
        67u8, 111, 110, 116, 101, 110, 116, 45, 84, 121, 112, 101, 58, 32, 116, 101, 120, 116, 47,
        112, 108, 97, 105, 110, 13, 10, 67, 111, 110, 116, 101, 110, 116, 45, 69, 110, 99, 111,
        100, 105, 110, 103, 58, 32, 103, 122, 105, 112, 13, 10, 67, 111, 110, 116, 101, 110, 116,
        45, 76, 101, 110, 103, 116, 104, 58, 32,
    ];
    proof {
        assert(v@ =~= gzip_head());
    }
    v
}

pub fn octet_head_exec() -> (r: Vec<u8>)
    ensures
        r@ == octet_head(),
{
    let v: Vec<u8> = vec![
        67u8, 111, 110, 116, 101, 110, 116, 45, 84, 121, 112, 101, 58, 32, 97, 112, 112, 108, 105,
        99, 97, 116, 105, 111, 110, 47, 111, 99, 116, 101, 116, 45, 115, 116, 114, 101, 97, 109,
        13, 10, 67, 111, 110, 116, 101, 110, 116, 45, 76, 101, 110, 103, 116, 104, 58, 32,
    ];
    proof {
        assert(v@ =~= octet_head());
    }
    v
}

/// The decimal numeral of `n`.
pub fn dec_exec(n: usize) -> (r: Vec<u8>)
    ensures
        r@ == dec_of(n as int),
    decreases n,
{
    if n <= 9 {
        let mut v: Vec<u8> = Vec::new();
        v.push(48 + n as u8);
        proof {
            assert(v@ =~= dec_of(n as int));
        }
        v
    } else {
        let mut v = dec_exec(n / 10);
        v.push(48 + (n % 10) as u8);
        proof {
            assert(v@ =~= dec_of(n as int));
        }
        v
    }
}

/// A bodyless response for the given status line.
pub fn build_simple_response(status: &[u8], close: bool) -> (r: Vec<u8>)
    ensures
        r@ == simple_response(status@, close),
{
    let mut v = to_vec_exec(status);
    if close {
        let c = close_hdr_exec();
        push_all(&mut v, c.as_slice());
    }
    let crlf_v = crlf_exec();
    push_all(&mut v, crlf_v.as_slice());
    proof {
        assert(v@ =~= simple_response(status@, close));
    }
    v
}

/// A 200 response whose head carries the given sizing headers, the body's
/// decimal length, and then the body itself.
pub fn build_sized_response(head: &[u8], close: bool, body: &[u8]) -> (r: Vec<u8>)
    ensures
        r@ == frame(status_200() + head@ + dec_of(body@.len() as int) + crlf(), close, body@),
{
    let mut v = status_200_exec();
    push_all(&mut v, head);
    let d = dec_exec(body.len());
    push_all(&mut v, d.as_slice());
    let crlf_v = crlf_exec();
    push_all(&mut v, crlf_v.as_slice());
    if close {
        let c = close_hdr_exec();
        push_all(&mut v, c.as_slice());
    }
    push_all(&mut v, crlf_v.as_slice());
    push_all(&mut v, body);
    proof {
        assert(v@ =~= frame(
            status_200() + head@ + dec_of(body@.len() as int) + crlf(),
            close,
            body@,
        ));
    }
    v
}

/// The plain-text echo or user-agent response.
pub fn build_text_response(body: &[u8], close: bool) -> (r: Vec<u8>)
    ensures
        r@ == text_response(body@, close),
{
    let head = text_head_exec();
    build_sized_response(head.as_slice(), close, body)
}

/// The compressed echo response: compresses the value and frames it.
pub fn build_gzip_response(value: &[u8], close: bool) -> (r: Vec<u8>)
    ensures
        r@ == gzip_response(value@, close),
{
    let compressed = gzip_compress(value);
    let head = gzip_head_exec();
    build_sized_response(head.as_slice(), close, compressed.as_slice())
}

/// The octet-stream response carrying file contents.
pub fn build_octet_response(contents: &[u8], close: bool) -> (r: Vec<u8>)
    ensures
        r@ == octet_response(contents@, close),
{
    let head = octet_head_exec();
    build_sized_response(head.as_slice(), close, contents)
}

} // verus!
