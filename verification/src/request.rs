//! The request model: how a raw request buffer is read as a request line,
//! headers and body, and the verified parser that extracts those parts.
//!
//! The buffer is modelled as a byte sequence. Lines are split at line feeds,
//! with a carriage return dropped before each line feed; header matching
//! folds ASCII case, as the handler's case-insensitive scans do.

use vstd::prelude::*;
use vstd::slice::slice_subrange;
use crate::bytes::{
    lower, find_byte_from, contains_seq, starts_with, find_seq_from, skip_space_from,
    skip_nonspace_from, trim, parse_usize, lower_exec, find_byte, skip_space, skip_nonspace,
    contains_exec, starts_with_exec, trim_exec, parse_usize_exec, to_vec_exec,
    lemma_find_byte_from_bounds,
};

verus! {

/// The bytes `"\r\n"`.
pub open spec fn crlf() -> Seq<u8> {
    seq![13u8, 10u8]
}

/// The bytes `"\r\n\r\n"`: the boundary between headers and body.
pub open spec fn crlfcrlf() -> Seq<u8> {
    seq![13u8, 10u8, 13u8, 10u8]
}

/// The bytes `"content-length:"`.
pub open spec fn cl_pat() -> Seq<u8> {
    seq![99u8, 111, 110, 116, 101, 110, 116, 45, 108, 101, 110, 103, 116, 104, 58]
}

/// The bytes `"connection: close"`.
pub open spec fn close_pat() -> Seq<u8> {
    seq![99u8, 111, 110, 110, 101, 99, 116, 105, 111, 110, 58, 32, 99, 108, 111, 115, 101]
}

/// The bytes `"accept-encoding: gzip"`.
pub open spec fn gzip_pat() -> Seq<u8> {
    seq![97u8, 99, 99, 101, 112, 116, 45, 101, 110, 99, 111, 100, 105, 110, 103, 58, 32, 103, 122, 105, 112]
}

/// The bytes `"User-Agent:"` (matched with its exact case).
pub open spec fn ua_pat() -> Seq<u8> {
    seq![85u8, 115, 101, 114, 45, 65, 103, 101, 110, 116, 58]
}

pub fn crlfcrlf_exec() -> (r: Vec<u8>)
    ensures
        r@ == crlfcrlf(),
{
    let mut v: Vec<u8> = Vec::new();
    v.push(13);
    v.push(10);
    v.push(13);
    v.push(10);
    proof {
        assert(v@ =~= crlfcrlf());
    }
    v
}

pub fn cl_pat_exec() -> (r: Vec<u8>)
    ensures
        r@ == cl_pat(),
{
    let v: Vec<u8> = vec![
        99u8, 111, 110, 116, 101, 110, 116, 45, 108, 101, 110, 103, 116, 104, 58,
    ];
    proof {
        assert(v@ =~= cl_pat());
    }
    v
}

pub fn close_pat_exec() -> (r: Vec<u8>)
    ensures
        r@ == close_pat(),
{
    let v: Vec<u8> = vec![
        99u8, 111, 110, 110, 101, 99, 116, 105, 111, 110, 58, 32, 99, 108, 111, 115, 101,
    ];
    proof {
        assert(v@ =~= close_pat());
    }
    v
}

pub fn gzip_pat_exec() -> (r: Vec<u8>)
    ensures
        r@ == gzip_pat(),
{
    let v: Vec<u8> = vec![
        97u8, 99, 99, 101, 112, 116, 45, 101, 110, 99, 111, 100, 105, 110, 103, 58, 32, 103, 122,
        105, 112,
    ];
    proof {
        assert(v@ =~= gzip_pat());
    }
    v
}

pub fn ua_pat_exec() -> (r: Vec<u8>)
    ensures
        r@ == ua_pat(),
{
    let v: Vec<u8> = vec![85u8, 115, 101, 114, 45, 65, 103, 101, 110, 116, 58];
    proof {
        assert(v@ =~= ua_pat());
    }
    v
}

/// A line with a trailing carriage return dropped.
pub open spec fn strip_cr(l: Seq<u8>) -> Seq<u8> {
    if l.len() > 0 && l.last() == 13 {
        l.drop_last()
    } else {
        l
    }
}

/// The line beginning at `i`: the bytes before the next line feed, with a
/// carriage return dropped before it; everything from `i` on if no line feed
/// follows.
pub open spec fn line_at(s: Seq<u8>, i: int) -> Seq<u8> {
    let f = find_byte_from(s, 10, i);
    if f == s.len() {
        s.subrange(i, f)
    } else {
        strip_cr(s.subrange(i, f))
    }
}

/// The first line of the buffer: the request line.
pub open spec fn first_line(s: Seq<u8>) -> Seq<u8> {
    line_at(s, 0)
}

/// The method token: the first whitespace-separated token of the request
/// line; empty if the line has no token.
pub open spec fn method_of_line(l: Seq<u8>) -> Seq<u8> {
    let a = skip_space_from(l, 0);
    let b = skip_nonspace_from(l, a);
    l.subrange(a, b)
}

/// The path token: the second whitespace-separated token of the request
/// line, defaulting to `"/"` when absent.
pub open spec fn path_of_line(l: Seq<u8>) -> Seq<u8> {
    let a1 = skip_space_from(l, 0);
    let b1 = skip_nonspace_from(l, a1);
    let a2 = skip_space_from(l, b1);
    let b2 = skip_nonspace_from(l, a2);
    if a2 >= l.len() {
        seq![47u8]
    } else {
        l.subrange(a2, b2)
    }
}

pub open spec fn method_of(s: Seq<u8>) -> Seq<u8> {
    method_of_line(first_line(s))
}

pub open spec fn path_of(s: Seq<u8>) -> Seq<u8> {
    path_of_line(first_line(s))
}

/// Some line at or after `i` contains `pat`.
pub open spec fn any_line_contains_from(s: Seq<u8>, pat: Seq<u8>, i: int) -> bool
    decreases s.len() - i,
        via any_line_contains_from_decreases
{
    if i < 0 || i >= s.len() {
        false
    } else {
        let f = find_byte_from(s, 10, i);
        contains_seq(line_at(s, i), pat) || (f < s.len() && any_line_contains_from(s, pat, f + 1))
    }
}

#[via_fn]
proof fn any_line_contains_from_decreases(s: Seq<u8>, pat: Seq<u8>, i: int) {
    if 0 <= i < s.len() {
        lemma_find_byte_from_bounds(s, 10, i);
    }
}

/// The request asks the connection to be closed: some header line contains
/// `connection: close` once case is folded.
pub open spec fn wants_close(s: Seq<u8>) -> bool {
    any_line_contains_from(lower(s), close_pat(), 0)
}

/// The request accepts gzip encoding: the buffer contains
/// `accept-encoding: gzip` anywhere once case is folded.
pub open spec fn wants_gzip(s: Seq<u8>) -> bool {
    contains_seq(lower(s), gzip_pat())
}

/// The value carried by a `content-length:` line: the bytes between the
/// first colon and the following colon or line end, trimmed and parsed;
/// `0` if they do not parse.
pub open spec fn cl_value(l: Seq<u8>) -> int {
    let e = find_byte_from(l, 58, 15);
    match parse_usize(trim(l.subrange(15, e))) {
        Some(n) => n,
        None => 0,
    }
}

/// The declared content length: the value of the first line (at or after
/// `i`) that starts with `content-length:`; `0` when no line does.
pub open spec fn content_length_from(s: Seq<u8>, i: int) -> int
    decreases s.len() - i,
        via content_length_from_decreases
{
    if i < 0 || i >= s.len() {
        0
    } else {
        let f = find_byte_from(s, 10, i);
        let l = line_at(s, i);
        if starts_with(l, cl_pat()) {
            cl_value(l)
        } else if f < s.len() {
            content_length_from(s, f + 1)
        } else {
            0
        }
    }
}

#[via_fn]
proof fn content_length_from_decreases(s: Seq<u8>, i: int) {
    if 0 <= i < s.len() {
        lemma_find_byte_from_bounds(s, 10, i);
    }
}

/// The declared content length of the request, over the case-folded buffer.
pub open spec fn content_length_of(s: Seq<u8>) -> int {
    content_length_from(lower(s), 0)
}

/// The `User-Agent` value: the remainder of the first line (at or after `i`)
/// that starts with `User-Agent:`, trimmed; empty when no line does.
pub open spec fn user_agent_from(s: Seq<u8>, i: int) -> Seq<u8>
    decreases s.len() - i,
        via user_agent_from_decreases
{
    if i < 0 || i >= s.len() {
        Seq::empty()
    } else {
        let f = find_byte_from(s, 10, i);
        let l = line_at(s, i);
        if starts_with(l, ua_pat()) {
            trim(l.skip(11))
        } else if f < s.len() {
            user_agent_from(s, f + 1)
        } else {
            Seq::empty()
        }
    }
}

#[via_fn]
proof fn user_agent_from_decreases(s: Seq<u8>, i: int) {
    if 0 <= i < s.len() {
        lemma_find_byte_from_bounds(s, 10, i);
    }
}

pub open spec fn user_agent_of(s: Seq<u8>) -> Seq<u8> {
    user_agent_from(s, 0)
}

/// The body: the bytes after the first `"\r\n\r\n"`, truncated to the
/// declared content length; empty when no such boundary fits in the buffer.
pub open spec fn body_of(s: Seq<u8>) -> Seq<u8> {
    let h = find_seq_from(s, crlfcrlf(), 0) + 4;
    if h > s.len() {
        Seq::empty()
    } else {
        let cl = content_length_of(s);
        let avail = s.len() - h;
        s.subrange(
            h,
            h + (if cl <= avail {
                cl
            } else {
                avail
            }),
        )
    }
}

/// The parts of one parsed request, as the handler reads them out of the
/// raw buffer.
pub struct Request {
    pub method: Vec<u8>,
    pub path: Vec<u8>,
    pub content_length: usize,
    pub wants_close: bool,
    pub wants_gzip: bool,
    pub user_agent: Vec<u8>,
    pub body: Vec<u8>,
}

/// `r` holds exactly the parts that the model reads out of the buffer `s`.
pub open spec fn request_models(r: Request, s: Seq<u8>) -> bool {
    &&& r.method@ == method_of(s)
    &&& r.path@ == path_of(s)
    &&& r.content_length as int == content_length_of(s)
    &&& r.wants_close == wants_close(s)
    &&& r.wants_gzip == wants_gzip(s)
    &&& r.user_agent@ == user_agent_of(s)
    &&& r.body@ == body_of(s)
}

/// The line starting at `i` as a slice, together with the index of the line
/// feed that ends it (or the buffer length).
pub fn line_at_exec<'a>(s: &'a [u8], i: usize) -> (r: (&'a [u8], usize))
    requires
        i <= s@.len(),
    ensures
        r.0@ == line_at(s@, i as int),
        r.1 == find_byte_from(s@, 10, i as int),
        i <= r.1 <= s@.len(),
{
    let f = find_byte(s, 10, i);
    let lend: usize = if f < s.len() && f > i && s[f - 1] == 13 {
        f - 1
    } else {
        f
    };
    let line = slice_subrange(s, i, lend);
    proof {
        let sub = s@.subrange(i as int, f as int);
        if f < s@.len() && f > i && s@[f - 1] == 13 {
            assert(sub.last() == s@[f - 1]);
            assert(sub.drop_last() =~= s@.subrange(i as int, f - 1));
            assert(line@ =~= line_at(s@, i as int));
        } else {
            if f > i {
                assert(sub.last() == s@[f - 1]);
            }
            assert(line@ =~= line_at(s@, i as int));
        }
    }
    (line, f)
}

/// The method and path tokens of a request line.
pub fn parse_request_line(line: &[u8]) -> (r: (Vec<u8>, Vec<u8>))
    ensures
        r.0@ == method_of_line(line@),
        r.1@ == path_of_line(line@),
{
    let a1 = skip_space(line, 0);
    let b1 = skip_nonspace(line, a1);
    let method = to_vec_exec(slice_subrange(line, a1, b1));
    let a2 = skip_space(line, b1);
    let b2 = skip_nonspace(line, a2);
    let path = if a2 >= line.len() {
        let mut v: Vec<u8> = Vec::new();
        v.push(47);
        proof {
            assert(v@ =~= seq![47u8]);
        }
        v
    } else {
        to_vec_exec(slice_subrange(line, a2, b2))
    };
    (method, path)
}

/// Whether some line at or after `i` contains `pat`.
pub fn any_line_contains_exec(s: &[u8], pat: &[u8], i: usize) -> (r: bool)
    requires
        pat@.len() >= 1,
        i <= s@.len(),
    ensures
        r == any_line_contains_from(s@, pat@, i as int),
    decreases s@.len() - i,
{
    if i >= s.len() {
        return false;
    }
    let (line, f) = line_at_exec(s, i);
    if contains_exec(line, pat) {
        true
    } else if f < s.len() {
        any_line_contains_exec(s, pat, f + 1)
    } else {
        false
    }
}

/// The value of a `content-length:` line.
pub fn cl_value_exec(l: &[u8]) -> (r: usize)
    requires
        l@.len() >= 15,
    ensures
        r as int == cl_value(l@),
{
    let e = find_byte(l, 58, 15);
    let v = trim_exec(slice_subrange(l, 15, e));
    match parse_usize_exec(v) {
        Some(n) => n,
        None => 0,
    }
}

/// The declared content length, scanning lines at or after `i`.
pub fn content_length_exec(s: &[u8], pat: &[u8], i: usize) -> (r: usize)
    requires
        pat@ == cl_pat(),
        i <= s@.len(),
    ensures
        r as int == content_length_from(s@, i as int),
    decreases s@.len() - i,
{
    if i >= s.len() {
        return 0;
    }
    let (line, f) = line_at_exec(s, i);
    if starts_with_exec(line, pat) {
        cl_value_exec(line)
    } else if f < s.len() {
        content_length_exec(s, pat, f + 1)
    } else {
        0
    }
}

/// The `User-Agent` value, scanning lines at or after `i`.
pub fn user_agent_exec(s: &[u8], pat: &[u8], i: usize) -> (r: Vec<u8>)
    requires
        pat@ == ua_pat(),
        i <= s@.len(),
    ensures
        r@ == user_agent_from(s@, i as int),
    decreases s@.len() - i,
{
    if i >= s.len() {
        return Vec::new();
    }
    let (line, f) = line_at_exec(s, i);
    if starts_with_exec(line, pat) {
        let rest = slice_subrange(line, 11, line.len());
        proof {
            assert(rest@ =~= line@.skip(11));
        }
        to_vec_exec(trim_exec(rest))
    } else if f < s.len() {
        user_agent_exec(s, pat, f + 1)
    } else {
        Vec::new()
    }
}

/// Parses the raw buffer into its request parts.
pub fn parse_request(buf: &[u8]) -> (r: Request)
    ensures
        request_models(r, buf@),
{
    let low = lower_exec(buf);
    let close_pat_v = close_pat_exec();
    let gzip_pat_v = gzip_pat_exec();
    let cl_pat_v = cl_pat_exec();
    let ua_pat_v = ua_pat_exec();
    let crlfcrlf_v = crlfcrlf_exec();

    let (line, _) = line_at_exec(buf, 0);
    let (method, path) = parse_request_line(line);
    let wants_close_r = any_line_contains_exec(low.as_slice(), close_pat_v.as_slice(), 0);
    let wants_gzip_r = contains_exec(low.as_slice(), gzip_pat_v.as_slice());
    let content_length = content_length_exec(low.as_slice(), cl_pat_v.as_slice(), 0);
    let user_agent = user_agent_exec(buf, ua_pat_v.as_slice(), 0);

    let h4 = crate::bytes::find_seq(buf, crlfcrlf_v.as_slice(), 0);
    let body: Vec<u8> = if buf.len() >= 4 && h4 <= buf.len() - 4 {
        let start = h4 + 4;
        let avail = buf.len() - start;
        let take: usize = if content_length <= avail {
            content_length
        } else {
            avail
        };
        to_vec_exec(slice_subrange(buf, start, start + take))
    } else {
        let empty: Vec<u8> = Vec::new();
        proof {
            assert(empty@ =~= body_of(buf@));
        }
        empty
    };

    Request { method, path, content_length, wants_close: wants_close_r, wants_gzip: wants_gzip_r, user_agent, body }
}

} // verus!
