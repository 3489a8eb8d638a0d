//! The dispatcher: turns one parsed request into exactly one decision —
//! an inline reply, or the transfer of the connection to the actor that
//! owns the work.  The decision is a total function of the router, the
//! method, the path, the headers and the body.

use vstd::prelude::*;
use crate::http_utils::{header_views, spec_find_header, find_header_in_request, ParsedRequest};
use crate::router::{
    seg_views, spec_router_route, Content, HandlerKind, RouteError, Router,
};
use crate::text::{chars_of_str, string_from_chars};

verus! {

/// The limit on the size of one request, headers and body together.
pub const MAX_REQUEST_BYTES: usize = 4096;

/// True when an announced body size is within the request limit.
pub fn request_fits(body_size: usize) -> (r: bool)
    ensures
        r == (body_size <= MAX_REQUEST_BYTES),
{
    body_size <= MAX_REQUEST_BYTES
}

/// First position at or after `i` holding a slash, or the length.
pub open spec fn slash_end(s: Seq<char>, i: int) -> int
    decreases s.len() - i,
{
    if i < 0 || i >= s.len() {
        s.len() as int
    } else if s[i] == '/' {
        i
    } else {
        slash_end(s, i + 1)
    }
}

pub proof fn lemma_slash_end_at(s: Seq<char>, i: int, k: int)
    requires
        0 <= i <= k <= s.len(),
        forall|t: int| i <= t < k ==> s[t] != '/',
        k == s.len() || s[k] == '/',
    ensures
        slash_end(s, i) == k,
    decreases k - i,
{
    if i < k {
        lemma_slash_end_at(s, i + 1, k);
    }
}

/// The path tokens from position `i` on: slash-separated runs, with
/// empty runs and lone dots dropped.
pub open spec fn split_segs_from(p: Seq<char>, i: int) -> Seq<Seq<char>>
    decreases p.len() - i,
{
    if i < 0 || i >= p.len() {
        Seq::<Seq<char>>::empty()
    } else {
        let e = slash_end(p, i);
        let tok = p.subrange(i, e);
        let head = if tok.len() > 0 && tok != "."@ {
            seq![tok]
        } else {
            Seq::<Seq<char>>::empty()
        };
        if e >= p.len() || e < i {
            head
        } else {
            head + split_segs_from(p, e + 1)
        }
    }
}

/// The segments of a request path: a leading slash stands as its own
/// `"/"` segment, the rest are the split tokens.
pub open spec fn path_segments(p: Seq<char>) -> Seq<Seq<char>> {
    if p.len() > 0 && p[0] == '/' {
        seq!["/"@] + split_segs_from(p, 1)
    } else {
        split_segs_from(p, 0)
    }
}

/// Splits a path into its segments.
#[verifier::loop_isolation(false)]
pub fn split_path(path: &str) -> (r: Vec<String>)
    ensures
        seg_views(r@) == path_segments(path@),
{
    let v = chars_of_str(path);
    let n = v.len();
    let mut out: Vec<String> = Vec::new();
    let mut st: usize = 0;
    if n > 0 {
        if v[0] == '/' {
            out.push(String::from_str("/"));
            st = 1;
        }
    }
    proof {
        assert(seg_views(out@) + split_segs_from(v@, st as int) =~= path_segments(path@));
    }
    while st < n
        invariant
            st <= n,
            seg_views(out@) + split_segs_from(v@, st as int) =~= path_segments(path@),
        decreases n - st,
    {
        let mut e: usize = st;
        while e < n && v[e] != '/'
            invariant
                st <= e <= n,
                forall|t: int| st <= t < e ==> v@[t] != '/',
            decreases n - e,
        {
            e = e + 1;
        }
        proof {
            lemma_slash_end_at(v@, st as int, e as int);
        }
        let ghost tok = v@.subrange(st as int, e as int);
        let mut tv: Vec<char> = Vec::new();
        let mut k: usize = st;
        while k < e
            invariant
                st <= k <= e,
                tv@ == v@.subrange(st as int, k as int),
            decreases e - k,
        {
            tv.push(v[k]);
            proof {
                assert(tv@ =~= v@.subrange(st as int, k + 1));
            }
            k = k + 1;
        }
        let keep = if tv.len() == 0 {
            false
        } else if tv.len() == 1 {
            let dot = tv[0] == '.';
            proof {
                reveal_strlit(".");
                if dot {
                    assert(tok =~= "."@);
                } else {
                    assert(tok != "."@);
                }
            }
            !dot
        } else {
            proof {
                reveal_strlit(".");
            }
            true
        };
        if keep {
            out.push(string_from_chars(&tv));
            proof {
                assert(seg_views(out@) =~= seg_views(out@.drop_last()) + seq![tok]);
            }
        }
        proof {
            let head = if tok.len() > 0 && tok != "."@ {
                seq![tok]
            } else {
                Seq::<Seq<char>>::empty()
            };
            if e < n {
                assert(split_segs_from(v@, st as int) == head + split_segs_from(v@, e + 1));
                assert(seg_views(out@) + split_segs_from(v@, e + 1) =~= path_segments(path@));
            } else {
                assert(split_segs_from(v@, st as int) == head);
                assert(seg_views(out@) + split_segs_from(v@, n as int) =~= path_segments(path@));
            }
        }
        if e >= n {
            st = n;
        } else {
            st = e + 1;
        }
    }
    proof {
        assert(seg_views(out@) + split_segs_from(v@, st as int) =~= seg_views(out@));
    }
    out
}

/// What the dispatcher decides to do with one request.
pub enum Dispatch {
    StaticFile { filename: String },
    Register { body: String },
    Login { body: String },
    Logout { token: String },
    UserCommand { token: String, body: String },
    UserData { token: String },
    TelemetryQuery,
    RespondNotFound,
    RespondBadRequest,
    RespondMethodNotAllowed,
    RespondTooLarge,
}

/// The mathematical image of a decision.
pub ghost enum DispatchV {
    StaticFile { filename: Seq<char> },
    Register { body: Seq<char> },
    Login { body: Seq<char> },
    Logout { token: Seq<char> },
    UserCommand { token: Seq<char>, body: Seq<char> },
    UserData { token: Seq<char> },
    TelemetryQuery,
    RespondNotFound,
    RespondBadRequest,
    RespondMethodNotAllowed,
    RespondTooLarge,
}

pub open spec fn dispatch_view(d: Dispatch) -> DispatchV {
    match d {
        Dispatch::StaticFile { filename } => DispatchV::StaticFile { filename: filename@ },
        Dispatch::Register { body } => DispatchV::Register { body: body@ },
        Dispatch::Login { body } => DispatchV::Login { body: body@ },
        Dispatch::Logout { token } => DispatchV::Logout { token: token@ },
        Dispatch::UserCommand { token, body } => DispatchV::UserCommand {
            token: token@,
            body: body@,
        },
        Dispatch::UserData { token } => DispatchV::UserData { token: token@ },
        Dispatch::TelemetryQuery => DispatchV::TelemetryQuery,
        Dispatch::RespondNotFound => DispatchV::RespondNotFound,
        Dispatch::RespondBadRequest => DispatchV::RespondBadRequest,
        Dispatch::RespondMethodNotAllowed => DispatchV::RespondMethodNotAllowed,
        Dispatch::RespondTooLarge => DispatchV::RespondTooLarge,
    }
}

/// The remaining path segments joined with slashes: the file name a
/// file route asks for.
pub open spec fn join_segs(segs: Seq<Seq<char>>, i: int) -> Seq<char>
    decreases segs.len() - i,
{
    if i < 0 || i >= segs.len() {
        Seq::<char>::empty()
    } else if i == segs.len() - 1 {
        segs[i]
    } else {
        segs[i] + "/"@ + join_segs(segs, i + 1)
    }
}

/// Joins the remaining segments into a relative file path.
#[verifier::loop_isolation(false)]
pub fn join_path(segs: &Vec<String>, from: usize) -> (r: String)
    ensures
        r@ == join_segs(seg_views(segs@), from as int),
{
    let mut out: Vec<char> = Vec::new();
    let n = segs.len();
    if from >= n {
        return string_from_chars(&out);
    }
    let mut i: usize = from;
    while i < n
        invariant
            from <= i <= n,
            n == segs@.len(),
            i > from ==> out@ + (if i < n {
                "/"@ + join_segs(seg_views(segs@), i as int)
            } else {
                Seq::<char>::empty()
            }) == join_segs(seg_views(segs@), from as int),
            i == from ==> out@.len() == 0 && from < n,
        decreases n - i,
    {
        if i > from {
            let mut slash = chars_of_str("/");
            out.append(&mut slash);
        }
        let mut cs = chars_of_str(segs[i].as_str());
        out.append(&mut cs);
        proof {
            let gs = seg_views(segs@);
            if i + 1 < n {
                assert(out@ + ("/"@ + join_segs(gs, i + 1)) =~= join_segs(gs, from as int));
            } else {
                assert(out@ =~= join_segs(gs, from as int));
            }
        }
        i = i + 1;
    }
    string_from_chars(&out)
}

/// The decision for one routed request: what the matched action needs —
/// a body, an authorization token — is checked here, and a missing
/// piece turns into the reply the owner of the connection sends.
pub open spec fn spec_dispatch(
    router: Router,
    method: Seq<char>,
    path: Seq<char>,
    headers: Seq<(Seq<char>, Seq<char>)>,
    body: Seq<char>,
) -> DispatchV {
    let segs = path_segments(path);
    match spec_router_route(router, method, segs) {
        Err(RouteError::MethodNotAllowed) => DispatchV::RespondMethodNotAllowed,
        Err(RouteError::NotFound) => DispatchV::RespondNotFound,
        Ok((c, depth)) => match c {
            Content::HandlerFunction(k) => match k {
                HandlerKind::IndexPage => DispatchV::StaticFile { filename: "index.html"@ },
                HandlerKind::HomePage => DispatchV::StaticFile { filename: "home.html"@ },
                HandlerKind::Favicon => DispatchV::StaticFile { filename: "favicon.ico"@ },
                HandlerKind::FileFetch => DispatchV::StaticFile {
                    filename: join_segs(segs, depth),
                },
            },
            Content::RegisterRequest => {
                if body.len() == 0 {
                    DispatchV::RespondBadRequest
                } else {
                    DispatchV::Register { body }
                }
            },
            Content::LoginRequest => {
                if body.len() == 0 {
                    DispatchV::RespondBadRequest
                } else {
                    DispatchV::Login { body }
                }
            },
            Content::LogoutRequest => {
                match spec_find_header(headers, "Authorization"@) {
                    Some(token) => DispatchV::Logout { token },
                    None => DispatchV::RespondBadRequest,
                }
            },
            Content::UserCommand => {
                match spec_find_header(headers, "authorization"@) {
                    Some(token) => {
                        if body.len() == 0 {
                            DispatchV::RespondBadRequest
                        } else {
                            DispatchV::UserCommand { token, body }
                        }
                    },
                    None => DispatchV::RespondBadRequest,
                }
            },
            Content::UserDataRequest => {
                match spec_find_header(headers, "authorization"@) {
                    Some(token) => DispatchV::UserData { token },
                    None => DispatchV::RespondBadRequest,
                }
            },
            Content::TelemetryQuery => DispatchV::TelemetryQuery,
        },
    }
}

/// Decides what to do with a parsed request.
pub fn dispatch(router: &Router, req: &ParsedRequest, body: &String) -> (d: Dispatch)
    ensures
        dispatch_view(d) == spec_dispatch(
            *router,
            req.method@,
            req.path@,
            header_views(req.headers@),
            body@,
        ),
{
    let segs = split_path(req.path.as_str());
    match router.route(req.method.as_str(), &segs) {
        Err(RouteError::MethodNotAllowed) => Dispatch::RespondMethodNotAllowed,
        Err(RouteError::NotFound) => Dispatch::RespondNotFound,
        Ok((c, depth)) => match c {
            Content::HandlerFunction(k) => match k {
                HandlerKind::IndexPage => Dispatch::StaticFile {
                    filename: String::from_str("index.html"),
                },
                HandlerKind::HomePage => Dispatch::StaticFile {
                    filename: String::from_str("home.html"),
                },
                HandlerKind::Favicon => Dispatch::StaticFile {
                    filename: String::from_str("favicon.ico"),
                },
                HandlerKind::FileFetch => Dispatch::StaticFile {
                    filename: join_path(&segs, depth),
                },
            },
            Content::RegisterRequest => {
                if body.as_str().unicode_len() == 0 {
                    Dispatch::RespondBadRequest
                } else {
                    Dispatch::Register { body: body.clone() }
                }
            },
            Content::LoginRequest => {
                if body.as_str().unicode_len() == 0 {
                    Dispatch::RespondBadRequest
                } else {
                    Dispatch::Login { body: body.clone() }
                }
            },
            Content::LogoutRequest => {
                match find_header_in_request(req, "Authorization") {
                    Some(token) => Dispatch::Logout { token },
                    None => Dispatch::RespondBadRequest,
                }
            },
            Content::UserCommand => {
                match find_header_in_request(req, "authorization") {
                    Some(token) => {
                        if body.as_str().unicode_len() == 0 {
                            Dispatch::RespondBadRequest
                        } else {
                            Dispatch::UserCommand { token, body: body.clone() }
                        }
                    },
                    None => Dispatch::RespondBadRequest,
                }
            },
            Content::UserDataRequest => {
                match find_header_in_request(req, "authorization") {
                    Some(token) => Dispatch::UserData { token },
                    None => Dispatch::RespondBadRequest,
                }
            },
            Content::TelemetryQuery => Dispatch::TelemetryQuery,
        },
    }
}

/// What the HTTP parser makes of a byte buffer: the method, path and
/// headers of a complete request; an incomplete or a malformed one.
pub enum RequestParse {
    Complete(ParsedRequest),
    Incomplete,
    Malformed,
}

/// What parsing a buffer yields, as a function of the bytes alone.
pub uninterp spec fn http_parse_of(buf: Seq<u8>) -> Option<
    Option<(Seq<char>, Seq<char>, Seq<(Seq<char>, Seq<char>)>)>,
>;

pub open spec fn request_parse_view(r: RequestParse) -> Option<
    Option<(Seq<char>, Seq<char>, Seq<(Seq<char>, Seq<char>)>)>,
> {
    match r {
        RequestParse::Complete(pr) => Some(Some((pr.method@, pr.path@, header_views(pr.headers@)))),
        RequestParse::Incomplete => Some(None),
        RequestParse::Malformed => None,
    }
}

/// Relies on `httparse::Request::parse`: reads the request line and the
/// headers out of the buffer; what comes back depends on the bytes
/// alone.
#[verifier::external_body]
fn parse_http_request(buf: &Vec<u8>) -> (r: RequestParse)
    ensures
        request_parse_view(r) == http_parse_of(buf@),
{
    let mut hs = [httparse::EMPTY_HEADER; 64];
    let mut req = httparse::Request::new(&mut hs);
    match req.parse(buf.as_slice()) {
        Ok(httparse::Status::Partial) => RequestParse::Incomplete,
        Err(_) => RequestParse::Malformed,
        Ok(httparse::Status::Complete(_)) => match (req.method, req.path) {
            (Some(m), Some(p)) => RequestParse::Complete(ParsedRequest {
                method: m.to_string(),
                path: p.to_string(),
                headers: req.headers.iter().map(
                    |h| (h.name.to_string(), String::from_utf8_lossy(h.value).to_string()),
                ).collect() }),
            _ => RequestParse::Malformed,
        },
    }
}

/// Reads one raw request buffer and decides its handling: a malformed
/// request is refused, an incomplete one is over the size the reader
/// grants, and a complete one is dispatched on its parsed parts.
pub fn classify_request(router: &Router, buf: &Vec<u8>, body: &String) -> (d: Dispatch)
    ensures
        match http_parse_of(buf@) {
            None => dispatch_view(d) == DispatchV::RespondBadRequest,
            Some(None) => dispatch_view(d) == DispatchV::RespondTooLarge,
            Some(Some(t)) => dispatch_view(d) == spec_dispatch(*router, t.0, t.1, t.2, body@),
        },
{
    match parse_http_request(buf) {
        RequestParse::Malformed => Dispatch::RespondBadRequest,
        RequestParse::Incomplete => Dispatch::RespondTooLarge,
        RequestParse::Complete(req) => dispatch(router, &req, body),
    }
}

/// A name with every leading `"../"` stripped away, so that a file
/// request cannot climb out of the static directory.
pub open spec fn spec_sanitize(s: Seq<char>) -> Seq<char>
    decreases s.len(),
{
    if s.len() >= 3 && s.subrange(0, 3) == "../"@ {
        spec_sanitize(s.skip(3))
    } else {
        s
    }
}

/// Strips every leading `"../"` from a requested file name.
pub fn sanitize_filename(filename: &str) -> (r: String)
    ensures
        r@ == spec_sanitize(filename@),
{
    let v = chars_of_str(filename);
    let n = v.len();
    let mut st: usize = 0;
    proof {
        reveal_strlit("../");
        assert(v@.skip(0) =~= v@);
    }
    while n - st >= 3 && v[st] == '.' && v[st + 1] == '.' && v[st + 2] == '/'
        invariant
            st <= n,
            n == v@.len(),
            spec_sanitize(v@) == spec_sanitize(v@.skip(st as int)),
        decreases n - st,
    {
        proof {
            reveal_strlit("../");
            let t = v@.skip(st as int);
            assert(t.subrange(0, 3)[0] == v@[st as int]);
            assert(t.subrange(0, 3)[1] == v@[st + 1]);
            assert(t.subrange(0, 3)[2] == v@[st + 2]);
            assert(t.subrange(0, 3) =~= "../"@);
            assert(t.skip(3) =~= v@.skip(st + 3));
        }
        st = st + 3;
    }
    let mut out: Vec<char> = Vec::new();
    let mut k: usize = st;
    while k < n
        invariant
            st <= k <= n,
            n == v@.len(),
            out@ == v@.subrange(st as int, k as int),
        decreases n - k,
    {
        out.push(v[k]);
        proof {
            assert(out@ =~= v@.subrange(st as int, k + 1));
        }
        k = k + 1;
    }
    proof {
        reveal_strlit("../");
        let t = v@.skip(st as int);
        assert(out@ =~= t);
        if t.len() >= 3 && t.subrange(0, 3) == "../"@ {
            assert(t.subrange(0, 3)[0] == v@[st as int]);
            assert(t.subrange(0, 3)[1] == v@[st + 1]);
            assert(t.subrange(0, 3)[2] == v@[st + 2]);
            assert(false);
        }
    }
    string_from_chars(&out)
}

} // verus!
