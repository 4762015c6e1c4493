//! The per-connection handling plan: routing a parsed request to the exact
//! response bytes, or to a file operation whose outcome is then framed.
//!
//! Reading the connection and touching the file store happen outside this
//! crate; this module decides everything in between. `plan` turns the raw
//! buffer into either a finished response or a file request, and
//! `file_read_response` / `file_write_response` frame the outcome that the
//! file store reported.

use vstd::prelude::*;
use vstd::slice::slice_subrange;
use crate::bytes::{contains_seq, match_at, starts_with, eq_bytes, starts_with_exec, to_vec_exec};
use crate::request::{
    method_of, path_of, wants_close, wants_gzip, user_agent_of, body_of, parse_request, crlf,
};
use crate::response::{
    status_200, status_201, status_404, status_500, close_hdr, conn_line, frame, simple_response,
    text_response, gzip_response, octet_response, status_200_exec, status_404_exec,
    build_simple_response, build_text_response, build_gzip_response, build_octet_response,
    status_201_exec, status_500_exec, text_head, gzip_head, octet_head, dec_of,
    lemma_simple_close_free,
};
use crate::gzip::gzip_of;

verus! {

/// The bytes `"GET"`.
pub open spec fn get_tok() -> Seq<u8> {
    seq![71u8, 69, 84]
}

/// The bytes `"POST"`.
pub open spec fn post_tok() -> Seq<u8> {
    seq![80u8, 79, 83, 84]
}

/// The bytes `"/"`.
pub open spec fn root_path() -> Seq<u8> {
    seq![47u8]
}

/// The bytes `"/echo/"`.
pub open spec fn echo_prefix() -> Seq<u8> {
    seq![47u8, 101, 99, 104, 111, 47]
}

/// The bytes `"/user-agent"`.
pub open spec fn ua_path() -> Seq<u8> {
    seq![47u8, 117, 115, 101, 114, 45, 97, 103, 101, 110, 116]
}

/// The bytes `"/files/"`.
pub open spec fn files_prefix() -> Seq<u8> {
    seq![47u8, 102, 105, 108, 101, 115, 47]
}

/// What handling one request buffer comes to, at the model level: either
/// finished response bytes, or a file operation that someone outside must
/// perform before the response can be framed.
pub enum PlanSpec {
    Respond(Seq<u8>),
    FileRead { name: Seq<u8>, close: bool },
    FileWrite { name: Seq<u8>, body: Seq<u8>, close: bool },
}

/// The route table: how the model answers a request buffer.
pub open spec fn plan_spec(s: Seq<u8>) -> PlanSpec {
    let m = method_of(s);
    let p = path_of(s);
    let close = wants_close(s);
    if m == get_tok() && p == root_path() {
        PlanSpec::Respond(simple_response(status_200(), close))
    } else if m == get_tok() && starts_with(p, echo_prefix()) {
        if wants_gzip(s) {
            PlanSpec::Respond(gzip_response(p.skip(6), close))
        } else {
            PlanSpec::Respond(text_response(p.skip(6), close))
        }
    } else if m == get_tok() && p == ua_path() {
        PlanSpec::Respond(text_response(user_agent_of(s), close))
    } else if m == get_tok() && starts_with(p, files_prefix()) {
        PlanSpec::FileRead { name: p.skip(7), close }
    } else if m == post_tok() && starts_with(p, files_prefix()) {
        PlanSpec::FileWrite { name: p.skip(7), body: body_of(s), close }
    } else {
        PlanSpec::Respond(simple_response(status_404(), close))
    }
}

/// The executable counterpart of [`PlanSpec`].
pub enum Plan {
    Respond(Vec<u8>),
    FileRead { name: Vec<u8>, close: bool },
    FileWrite { name: Vec<u8>, body: Vec<u8>, close: bool },
}

/// The executable plan holds exactly the bytes of the model's plan.
pub open spec fn plan_matches(p: Plan, q: PlanSpec) -> bool {
    match p {
        Plan::Respond(r) => q == PlanSpec::Respond(r@),
        Plan::FileRead { name, close } => q == (PlanSpec::FileRead { name: name@, close }),
        Plan::FileWrite { name, body, close } => q == (PlanSpec::FileWrite {
            name: name@,
            body: body@,
            close,
        }),
    }
}

/// Routes one request buffer: parses it and either builds the response or
/// names the file operation still needed.
pub fn plan(buf: &[u8]) -> (p: Plan)
    ensures
        plan_matches(p, plan_spec(buf@)),
{
    let req = parse_request(buf);
    let close = req.wants_close;
    let get_v: Vec<u8> = vec![71u8, 69, 84];
    let post_v: Vec<u8> = vec![80u8, 79, 83, 84];
    let root_v: Vec<u8> = vec![47u8];
    let echo_v: Vec<u8> = vec![47u8, 101, 99, 104, 111, 47];
    let ua_v: Vec<u8> = vec![47u8, 117, 115, 101, 114, 45, 97, 103, 101, 110, 116];
    let files_v: Vec<u8> = vec![47u8, 102, 105, 108, 101, 115, 47];
    proof {
        assert(get_v@ =~= get_tok());
        assert(post_v@ =~= post_tok());
        assert(root_v@ =~= root_path());
        assert(echo_v@ =~= echo_prefix());
        assert(ua_v@ =~= ua_path());
        assert(files_v@ =~= files_prefix());
    }
    let is_get = eq_bytes(req.method.as_slice(), get_v.as_slice());
    let is_post = eq_bytes(req.method.as_slice(), post_v.as_slice());
    if is_get && eq_bytes(req.path.as_slice(), root_v.as_slice()) {
        let st = status_200_exec();
        Plan::Respond(build_simple_response(st.as_slice(), close))
    } else if is_get && starts_with_exec(req.path.as_slice(), echo_v.as_slice()) {
        let value = slice_subrange(req.path.as_slice(), 6, req.path.len());
        proof {
            assert(value@ =~= path_of(buf@).skip(6));
        }
        if req.wants_gzip {
            Plan::Respond(build_gzip_response(value, close))
        } else {
            Plan::Respond(build_text_response(value, close))
        }
    } else if is_get && eq_bytes(req.path.as_slice(), ua_v.as_slice()) {
        Plan::Respond(build_text_response(req.user_agent.as_slice(), close))
    } else if is_get && starts_with_exec(req.path.as_slice(), files_v.as_slice()) {
        let name = to_vec_exec(slice_subrange(req.path.as_slice(), 7, req.path.len()));
        proof {
            assert(name@ =~= path_of(buf@).skip(7));
        }
        Plan::FileRead { name, close }
    } else if is_post && starts_with_exec(req.path.as_slice(), files_v.as_slice()) {
        let name = to_vec_exec(slice_subrange(req.path.as_slice(), 7, req.path.len()));
        proof {
            assert(name@ =~= path_of(buf@).skip(7));
        }
        Plan::FileWrite { name, body: req.body, close }
    } else {
        let st = status_404_exec();
        Plan::Respond(build_simple_response(st.as_slice(), close))
    }
}

/// How a file read's outcome is framed.
pub open spec fn file_read_response_spec(contents: Option<Seq<u8>>, close: bool) -> Seq<u8> {
    match contents {
        Some(c) => octet_response(c, close),
        None => simple_response(status_404(), close),
    }
}

/// Frames what the file store returned for a read: the contents as an octet
/// stream on success, 404 with an empty body on failure.
pub fn file_read_response(contents: Option<&[u8]>, close: bool) -> (r: Vec<u8>)
    ensures
        contents matches Some(c) ==> r@ == octet_response(c@, close),
        contents is None ==> r@ == simple_response(status_404(), close),
{
    match contents {
        Some(c) => build_octet_response(c, close),
        None => {
            let st = status_404_exec();
            build_simple_response(st.as_slice(), close)
        },
    }
}

/// How a file write's outcome is framed.
pub open spec fn file_write_response_spec(ok: bool, close: bool) -> Seq<u8> {
    if ok {
        simple_response(status_201(), close)
    } else {
        simple_response(status_500(), close)
    }
}

/// Frames what the file store reported for a write: 201 with an empty body
/// on success, 500 with an empty body on failure.
pub fn file_write_response(ok: bool, close: bool) -> (r: Vec<u8>)
    ensures
        r@ == file_write_response_spec(ok, close),
{
    if ok {
        let st = status_201_exec();
        build_simple_response(st.as_slice(), close)
    } else {
        let st = status_500_exec();
        build_simple_response(st.as_slice(), close)
    }
}

/// The path under the base directory where a named file lives: the directory,
/// one separator, the name.
pub fn join_path(dir: &[u8], name: &[u8]) -> (r: Vec<u8>)
    ensures
        r@ == dir@ + seq![47u8] + name@,
{
    let mut v = to_vec_exec(dir);
    v.push(47);
    crate::bytes::push_all(&mut v, name);
    proof {
        assert(v@ =~= dir@ + seq![47u8] + name@);
    }
    v
}

/// A `GET` for the root path is always answered 200 with an empty body: the
/// response is the 200 status line, the conditional close header, and a
/// blank line — nothing after it.
pub proof fn lemma_root_response(s: Seq<u8>)
    requires
        method_of(s) == get_tok(),
        path_of(s) == root_path(),
    ensures
        plan_spec(s) == PlanSpec::Respond(simple_response(status_200(), wants_close(s))),
        simple_response(status_200(), wants_close(s)) == status_200() + conn_line(wants_close(s))
            + crlf(),
{
    assert(simple_response(status_200(), wants_close(s)) =~= status_200() + conn_line(
        wants_close(s),
    ) + crlf());
}

/// A request whose path matches no route is answered 404 with an empty body,
/// whatever its method: the response is the 404 status line, the conditional
/// close header, and a blank line — nothing after it.
pub proof fn lemma_unknown_route(s: Seq<u8>)
    requires
        path_of(s) != root_path(),
        path_of(s) != ua_path(),
        !starts_with(path_of(s), echo_prefix()),
        !starts_with(path_of(s), files_prefix()),
    ensures
        plan_spec(s) == PlanSpec::Respond(simple_response(status_404(), wants_close(s))),
        simple_response(status_404(), wants_close(s)) == status_404() + conn_line(wants_close(s))
            + crlf(),
{
    assert(simple_response(status_404(), wants_close(s)) =~= status_404() + conn_line(
        wants_close(s),
    ) + crlf());
}

/// A `GET` under the echo prefix is answered 200 with the path segment
/// after the prefix as the body: plain with its exact byte length when the
/// request did not accept gzip, compressed with the compressed byte length
/// when it did.
pub proof fn lemma_echo_response(s: Seq<u8>)
    requires
        method_of(s) == get_tok(),
        starts_with(path_of(s), echo_prefix()),
    ensures
        !wants_gzip(s) ==> plan_spec(s) == PlanSpec::Respond(
            text_response(path_of(s).skip(6), wants_close(s)),
        ),
        wants_gzip(s) ==> plan_spec(s) == PlanSpec::Respond(
            gzip_response(path_of(s).skip(6), wants_close(s)),
        ),
{
    let p = path_of(s);
    assert(p != root_path()) by {
        assert(p.len() >= echo_prefix().len());
    }
}

/// A `GET` for the user-agent path is answered 200 with the trimmed
/// `User-Agent` value as the plain-text body.
pub proof fn lemma_user_agent_response(s: Seq<u8>)
    requires
        method_of(s) == get_tok(),
        path_of(s) == ua_path(),
    ensures
        plan_spec(s) == PlanSpec::Respond(text_response(user_agent_of(s), wants_close(s))),
{
    let p = path_of(s);
    assert(p != root_path()) by {
        assert(p.len() == 11);
    }
    assert(!starts_with(p, echo_prefix())) by {
        if starts_with(p, echo_prefix()) {
            assert(p.subrange(0, 6)[1] == p[1]);
        }
    }
}

/// A `GET` under the files prefix is planned as a read of the named file;
/// the response then frames the store's outcome: the contents with their
/// exact byte length on success, 404 with an empty body on failure.
pub proof fn lemma_file_read(s: Seq<u8>)
    requires
        method_of(s) == get_tok(),
        starts_with(path_of(s), files_prefix()),
    ensures
        plan_spec(s) == (PlanSpec::FileRead { name: path_of(s).skip(7), close: wants_close(s) }),
        file_read_response_spec(None, wants_close(s)) == simple_response(
            status_404(),
            wants_close(s),
        ),
{
    let p = path_of(s);
    assert(p != root_path()) by {
        assert(p.len() >= files_prefix().len());
    }
    assert(!starts_with(p, echo_prefix())) by {
        if starts_with(p, echo_prefix()) {
            assert(p.subrange(0, 6)[1] == p[1]);
            assert(p.subrange(0, 7)[1] == p[1]);
        }
    }
    assert(p != ua_path()) by {
        assert(p.subrange(0, 7)[1] == p[1]);
    }
}

/// A response frame carries the literal close header exactly when the
/// request asked to close: when it did, the header stands right after the
/// head; when it did not, the frame is the head, the blank line and the
/// body, with no close segment between them.
pub proof fn lemma_close_header(head: Seq<u8>, close: bool, body: Seq<u8>)
    ensures
        close ==> contains_seq(frame(head, close, body), close_hdr()),
        !close ==> frame(head, close, body) == head + crlf() + body,
{
    if close {
        let f = frame(head, true, body);
        assert(f.subrange(head.len() as int, head.len() + close_hdr().len() as int)
            =~= close_hdr());
        assert(match_at(f, close_hdr(), head.len() as int));
    } else {
        assert(frame(head, false, body) =~= head + crlf() + body);
    }
}

/// A request that asked to close gets the literal close header in whatever
/// response the plan produces directly.
pub proof fn lemma_close_in_response(s: Seq<u8>)
    requires
        wants_close(s),
    ensures
        plan_spec(s) matches PlanSpec::Respond(r) ==> contains_seq(r, close_hdr()),
{
    let m = method_of(s);
    let p = path_of(s);
    let c = wants_close(s);
    if m == get_tok() && p == root_path() {
        lemma_close_header(status_200(), c, Seq::empty());
    } else if m == get_tok() && starts_with(p, echo_prefix()) {
        if wants_gzip(s) {
            lemma_close_header(
                status_200() + gzip_head() + dec_of(gzip_of(p.skip(6)).len() as int) + crlf(),
                c,
                gzip_of(p.skip(6)),
            );
        } else {
            lemma_close_header(
                status_200() + text_head() + dec_of(p.skip(6).len() as int) + crlf(),
                c,
                p.skip(6),
            );
        }
    } else if m == get_tok() && p == ua_path() {
        lemma_close_header(
            status_200() + text_head() + dec_of(user_agent_of(s).len() as int) + crlf(),
            c,
            user_agent_of(s),
        );
    } else if m == get_tok() && starts_with(p, files_prefix()) {
    } else if m == post_tok() && starts_with(p, files_prefix()) {
    } else {
        lemma_close_header(status_404(), c, Seq::empty());
    }
}

/// The responses framed for a file outcome carry the literal close header
/// exactly when the request asked to close; the bodyless ones are free of
/// the literal everywhere otherwise.
pub proof fn lemma_close_in_outcome(ok: bool, contents: Option<Seq<u8>>)
    ensures
        contains_seq(file_write_response_spec(ok, true), close_hdr()),
        !contains_seq(file_write_response_spec(ok, false), close_hdr()),
        contains_seq(file_read_response_spec(contents, true), close_hdr()),
        !contains_seq(file_read_response_spec(None, false), close_hdr()),
{
    lemma_close_header(status_201(), true, Seq::empty());
    lemma_close_header(status_500(), true, Seq::empty());
    lemma_close_header(status_404(), true, Seq::empty());
    lemma_simple_close_free(status_201());
    lemma_simple_close_free(status_500());
    lemma_simple_close_free(status_404());
    if let Some(c) = contents {
        lemma_close_header(
            status_200() + octet_head() + dec_of(c.len() as int) + crlf(),
            true,
            c,
        );
    }
}

/// Writing a file is planned from the request alone: the same `POST` buffer
/// read any number of times yields the same write plan — same name, same
/// body — and a write the store accepts is always answered 201. (Whether a
/// repeated write replaces the previous contents is the file store's
/// contract, outside this crate.)
pub proof fn lemma_write_idempotent(s: Seq<u8>)
    requires
        method_of(s) == post_tok(),
        starts_with(path_of(s), files_prefix()),
    ensures
        plan_spec(s) == (PlanSpec::FileWrite {
            name: path_of(s).skip(7),
            body: body_of(s),
            close: wants_close(s),
        }),
        file_write_response_spec(true, wants_close(s)) == simple_response(
            status_201(),
            wants_close(s),
        ),
{
    assert(get_tok().len() == 3);
    assert(post_tok().len() == 4);
    assert(method_of(s) != get_tok());
}

} // verus!
