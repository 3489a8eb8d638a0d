//! Building and serializing HTTP responses, finding request headers,
//! and reading the `Content-Length` value out of a raw header block.

use vstd::prelude::*;
use vstd::string::StrSliceExecFns;
use vstd::string::StringSliceAdditionalSpecFns;
use crate::text::{
    all_digits, chars_of_str, dec_nat, digits_val, is_digit, lower, lower_char, push_dec_u64,
    string_from_chars, to_lower_char,
};

verus! {

/// An HTTP response: status code, header pairs, and body bytes.
pub struct Response {
    pub status: u16,
    pub headers: Vec<(String, String)>,
    pub body: Vec<u8>,
}

/// The character sequences of a vector of header pairs.
pub open spec fn header_views(hs: Seq<(String, String)>) -> Seq<(Seq<char>, Seq<char>)> {
    hs.map_values(|h: (String, String)| (h.0@, h.1@))
}

/// A fresh response: the given status, no headers, an empty body.
pub fn empty_response(status: u16) -> (r: Response)
    ensures
        r.status == status,
        header_views(r.headers@) == Seq::<(Seq<char>, Seq<char>)>::empty(),
        r.body@ == Seq::<u8>::empty(),
{
    let r = Response { status, headers: Vec::new(), body: Vec::new() };
    proof {
        assert(header_views(r.headers@) =~= Seq::<(Seq<char>, Seq<char>)>::empty());
    }
    r
}

/// A response carrying a JSON body, with its content type and length.
pub fn ok_json(status: u16, body: String) -> (r: Response)
    ensures
        r.status == status,
        header_views(r.headers@) =~= seq![
            ("Content-Type"@, "application/json"@),
            ("Content-Length"@, dec_nat(vstd::utf8::encode_utf8(body@).len() as nat)),
        ],
        r.body@ == vstd::utf8::encode_utf8(body@),
{
    let bytes = body.as_str().as_bytes_vec();
    let mut len_chars: Vec<char> = Vec::new();
    push_dec_u64(bytes.len() as u64, &mut len_chars);
    let len_str = string_from_chars(&len_chars);
    let mut headers: Vec<(String, String)> = Vec::new();
    headers.push((String::from_str("Content-Type"), String::from_str("application/json")));
    headers.push((String::from_str("Content-Length"), len_str));
    let r = Response { status, headers, body: bytes };
    proof {
        assert(header_views(r.headers@) =~= seq![
            ("Content-Type"@, "application/json"@),
            ("Content-Length"@, dec_nat(vstd::utf8::encode_utf8(body@).len() as nat)),
        ]);
    }
    r
}

/// A minimal greeting page, useful when probing a fresh deployment.
pub fn hello_world() -> (r: Response)
    ensures
        r.status == 200,
        r.body@ == vstd::utf8::encode_utf8("<h1>hello pi world!</h1>"@),
        header_views(r.headers@).len() == 2,
        header_views(r.headers@)[0] == ("Content-Type"@, "text/html"@),
        header_views(r.headers@)[1].0 == "Content-Length"@,
{
    let body = String::from_str("<h1>hello pi world!</h1>");
    let bytes = body.as_str().as_bytes_vec();
    let mut len_chars: Vec<char> = Vec::new();
    push_dec_u64(bytes.len() as u64, &mut len_chars);
    let len_str = string_from_chars(&len_chars);
    let mut headers: Vec<(String, String)> = Vec::new();
    headers.push((String::from_str("Content-Type"), String::from_str("text/html")));
    headers.push((String::from_str("Content-Length"), len_str));
    let r = Response { status: 200, headers, body: bytes };
    proof {
        assert(header_views(r.headers@) =~= seq![
            ("Content-Type"@, "text/html"@),
            ("Content-Length"@, header_views(r.headers@)[1].1),
        ]);
    }
    r
}

/// The bytes of the `{"error":"<code>"}` body for an error code.
pub open spec fn spec_error_body(msg: Seq<char>) -> Seq<u8> {
    vstd::utf8::encode_utf8("{\"error\":\""@ + msg + "\"}"@)
}

/// A 400 reply whose JSON body names the error code.
pub fn bad_request_msg(msg: String) -> (r: Response)
    ensures
        r.status == 400,
        r.body@ == spec_error_body(msg@),
{
    let mut body = String::from_str("{\"error\":\"");
    body.append(msg.as_str());
    body.append("\"}");
    ok_json(400, body)
}

/// A plain 400 reply with an empty body.
pub fn bad_request() -> (r: Response)
    ensures
        r.status == 400,
        header_views(r.headers@) == Seq::<(Seq<char>, Seq<char>)>::empty(),
        r.body@ == Seq::<u8>::empty(),
{
    empty_response(400)
}

/// A 413 reply: the request exceeded the size limit.
pub fn content_too_large() -> (r: Response)
    ensures
        r.status == 413,
        header_views(r.headers@) == Seq::<(Seq<char>, Seq<char>)>::empty(),
        r.body@ == Seq::<u8>::empty(),
{
    empty_response(413)
}

/// A 404 reply with an empty body.
pub fn not_found() -> (r: Response)
    ensures
        r.status == 404,
        header_views(r.headers@) == Seq::<(Seq<char>, Seq<char>)>::empty(),
        r.body@ == Seq::<u8>::empty(),
{
    empty_response(404)
}

/// A 401 reply with an empty body.
pub fn unauthorized() -> (r: Response)
    ensures
        r.status == 401,
        header_views(r.headers@) == Seq::<(Seq<char>, Seq<char>)>::empty(),
        r.body@ == Seq::<u8>::empty(),
{
    empty_response(401)
}

/// Appends a header pair; the callers add each name once.
pub fn add_header(res: &mut Response, key: &str, val: &str)
    ensures
        final(res).status == old(res).status,
        final(res).body == old(res).body,
        header_views(final(res).headers@) == header_views(old(res).headers@).push((key@, val@)),
{
    res.headers.push((String::from_str(key), String::from_str(val)));
    proof {
        assert(header_views(res.headers@) =~= header_views(old(res).headers@).push((key@, val@)));
    }
}

/// The header lines, each `name: value` ended by CRLF.
pub open spec fn headers_text(hs: Seq<(Seq<char>, Seq<char>)>) -> Seq<char>
    decreases hs.len(),
{
    if hs.len() == 0 {
        Seq::<char>::empty()
    } else {
        headers_text(hs.drop_last()) + hs.last().0 + ": "@ + hs.last().1 + "\r\n"@
    }
}

/// The reason phrase sent with a status code.
pub open spec fn reason_phrase(status: int) -> Seq<char> {
    if status == 200 {
        "OK"@
    } else if status == 201 {
        "Created"@
    } else if status == 400 {
        "Bad Request"@
    } else if status == 401 {
        "Unauthorized"@
    } else if status == 404 {
        "Not Found"@
    } else if status == 405 {
        "Method Not Allowed"@
    } else if status == 413 {
        "Payload Too Large"@
    } else if status == 451 {
        "Unavailable For Legal Reasons"@
    } else if status == 500 {
        "Internal Server Error"@
    } else {
        ""@
    }
}

/// The bytes a response is sent as: the status line, the header lines,
/// a blank line, then the body.
pub open spec fn spec_serialize_response(r: Response) -> Seq<u8> {
    vstd::utf8::encode_utf8(
        "HTTP/1.1 "@ + dec_nat(r.status as nat) + " "@ + reason_phrase(r.status as int) + "\r\n"@
            + headers_text(header_views(r.headers@)) + "\r\n"@,
    ) + r.body@
}

fn push_str_chars(out: &mut Vec<char>, s: &str)
    ensures
        final(out)@ == old(out)@ + s@,
{
    let mut cs = chars_of_str(s);
    out.append(&mut cs);
}

/// Writes the response into wire bytes.
pub fn serialize_response(response: &Response) -> (r: Vec<u8>)
    ensures
        r@ == spec_serialize_response(*response),
{
    let mut text: Vec<char> = Vec::new();
    push_str_chars(&mut text, "HTTP/1.1 ");
    push_dec_u64(response.status as u64, &mut text);
    push_str_chars(&mut text, " ");
    let reason: &str = if response.status == 200 {
        "OK"
    } else if response.status == 201 {
        "Created"
    } else if response.status == 400 {
        "Bad Request"
    } else if response.status == 401 {
        "Unauthorized"
    } else if response.status == 404 {
        "Not Found"
    } else if response.status == 405 {
        "Method Not Allowed"
    } else if response.status == 413 {
        "Payload Too Large"
    } else if response.status == 451 {
        "Unavailable For Legal Reasons"
    } else if response.status == 500 {
        "Internal Server Error"
    } else {
        ""
    };
    push_str_chars(&mut text, reason);
    push_str_chars(&mut text, "\r\n");
    let ghost hviews = header_views(response.headers@);
    let mut i: usize = 0;
    while i < response.headers.len()
        invariant
            hviews == header_views(response.headers@),
            i <= response.headers@.len(),
            text@ == "HTTP/1.1 "@ + dec_nat(response.status as nat) + " "@ + reason_phrase(
                response.status as int,
            ) + "\r\n"@ + headers_text(hviews.take(i as int)),
        decreases response.headers@.len() - i,
    {
        let h = &response.headers[i];
        push_str_chars(&mut text, h.0.as_str());
        push_str_chars(&mut text, ": ");
        push_str_chars(&mut text, h.1.as_str());
        push_str_chars(&mut text, "\r\n");
        proof {
            assert(hviews.take(i + 1).drop_last() =~= hviews.take(i as int));
            assert(hviews.take(i + 1).last() == hviews[i as int]);
        }
        i = i + 1;
    }
    push_str_chars(&mut text, "\r\n");
    proof {
        assert(hviews.take(hviews.len() as int) =~= hviews);
    }
    let text_string = string_from_chars(&text);
    let mut out = text_string.as_str().as_bytes_vec();
    let mut k: usize = 0;
    while k < response.body.len()
        invariant
            k <= response.body@.len(),
            out@ == vstd::utf8::encode_utf8(text_string@) + response.body@.take(k as int),
            text_string@ == text@,
        decreases response.body@.len() - k,
    {
        out.push(response.body[k]);
        proof {
            assert(out@ =~= vstd::utf8::encode_utf8(text_string@) + response.body@.take(k + 1));
        }
        k = k + 1;
    }
    proof {
        assert(response.body@.take(response.body@.len() as int) =~= response.body@);
    }
    out
}

/// One parsed request: its method, path, and header pairs, as the
/// HTTP parser handed them over.
pub struct ParsedRequest {
    pub method: String,
    pub path: String,
    pub headers: Vec<(String, String)>,
}

/// The first header whose name matches case-insensitively, if any.
pub open spec fn spec_find_header(hs: Seq<(Seq<char>, Seq<char>)>, key: Seq<char>) -> Option<
    Seq<char>,
>
    decreases hs.len(),
{
    if hs.len() == 0 {
        None
    } else if lower(hs[0].0) == lower(key) {
        Some(hs[0].1)
    } else {
        spec_find_header(hs.skip(1), key)
    }
}

/// Finds a header value in a request by case-insensitive name.
pub fn find_header_in_request(req: &ParsedRequest, key: &str) -> (r: Option<String>)
    ensures
        match r {
            Some(v) => spec_find_header(header_views(req.headers@), key@) == Some(v@),
            None => spec_find_header(header_views(req.headers@), key@) is None,
        },
{
    let kv = chars_of_str(key);
    let klow = crate::text::to_lower_chars(&kv);
    let ghost hviews = header_views(req.headers@);
    proof {
        assert(hviews.skip(0) =~= hviews);
    }
    let mut i: usize = 0;
    while i < req.headers.len()
        invariant
            hviews == header_views(req.headers@),
            i <= req.headers@.len(),
            klow@ == lower(key@),
            spec_find_header(hviews, key@) == spec_find_header(hviews.skip(i as int), key@),
        decreases req.headers@.len() - i,
    {
        let h = &req.headers[i];
        let nv = chars_of_str(h.0.as_str());
        let nlow = crate::text::to_lower_chars(&nv);
        let same = chars_eq(&nlow, &klow);
        proof {
            assert(hviews.skip(i as int)[0] == hviews[i as int]);
            if !same {
                assert(lower(hviews[i as int].0) != lower(key@));
                assert(hviews.skip(i as int).skip(1) =~= hviews.skip(i + 1));
            }
        }
        if same {
            return Some(h.1.clone());
        }
        i = i + 1;
    }
    proof {
        assert(hviews.skip(i as int).len() == 0);
    }
    None
}

/// Equality of two character vectors.
pub fn chars_eq(a: &Vec<char>, b: &Vec<char>) -> (r: bool)
    ensures
        r == (a@ == b@),
{
    if a.len() != b.len() {
        return false;
    }
    let mut i: usize = 0;
    while i < a.len()
        invariant
            a@.len() == b@.len(),
            i <= a@.len(),
            forall|j: int| 0 <= j < i ==> a@[j] == b@[j],
        decreases a@.len() - i,
    {
        if a[i] != b[i] {
            return false;
        }
        i = i + 1;
    }
    proof {
        assert(a@ =~= b@);
    }
    true
}

/// A character that `Content-Length` values may be padded with.
pub open spec fn is_pad(c: char) -> bool {
    c == ' ' || c == '\t' || c == '\r'
}

/// First position at or after `i` holding a newline, or the length.
pub open spec fn nl_end(s: Seq<char>, i: int) -> int
    decreases s.len() - i,
{
    if i < 0 || i >= s.len() {
        s.len() as int
    } else if s[i] == '\n' {
        i
    } else {
        nl_end(s, i + 1)
    }
}

pub proof fn lemma_nl_end_at(s: Seq<char>, i: int, k: int)
    requires
        0 <= i <= k <= s.len(),
        forall|t: int| i <= t < k ==> s[t] != '\n',
        k == s.len() || s[k] == '\n',
    ensures
        nl_end(s, i) == k,
    decreases k - i,
{
    if i < k {
        lemma_nl_end_at(s, i + 1, k);
    }
}

/// First position at or after `i` holding something other than padding.
pub open spec fn pad_end(s: Seq<char>, i: int) -> int
    decreases s.len() - i,
{
    if i < 0 || i >= s.len() {
        s.len() as int
    } else if is_pad(s[i]) {
        pad_end(s, i + 1)
    } else {
        i
    }
}

pub proof fn lemma_pad_end_at(s: Seq<char>, i: int, k: int)
    requires
        0 <= i <= k <= s.len(),
        forall|t: int| i <= t < k ==> is_pad(#[trigger] s[t]),
        k == s.len() || !is_pad(s[k]),
    ensures
        pad_end(s, i) == k,
    decreases k - i,
{
    if i < k {
        lemma_pad_end_at(s, i + 1, k);
    }
}

/// Largest position at or before `j` such that everything from it to
/// `j` is padding.
pub open spec fn pad_start_back(s: Seq<char>, j: int) -> int
    decreases j,
{
    if j <= 0 {
        0
    } else if 0 <= j - 1 < s.len() && is_pad(s[j - 1]) {
        pad_start_back(s, j - 1)
    } else {
        j
    }
}

pub proof fn lemma_pad_start_back_le(s: Seq<char>, j: int)
    requires
        0 <= j,
    ensures
        0 <= pad_start_back(s, j) <= j,
    decreases j,
{
    if j > 0 && 0 <= j - 1 < s.len() && is_pad(s[j - 1]) {
        lemma_pad_start_back_le(s, j - 1);
    }
}

pub proof fn lemma_pad_start_back_at(s: Seq<char>, j: int, k: int)
    requires
        0 <= k <= j <= s.len(),
        forall|t: int| k <= t < j ==> is_pad(#[trigger] s[t]),
        k == 0 || !is_pad(s[k - 1]),
    ensures
        pad_start_back(s, j) == k,
    decreases j - k,
{
    if k < j {
        lemma_pad_start_back_at(s, j - 1, k);
    }
}

/// A line that announces the body length: it starts, case folded, with
/// the header name.
pub open spec fn is_cl_line(l: Seq<char>) -> bool {
    l.len() >= 14 && lower(l.take(14)) == "content-length"@
}

/// The value of a length line: what stands after the first colon,
/// stripped of padding, read as an unsigned number; anything else
/// counts as zero.
pub open spec fn cl_value(l: Seq<char>) -> nat {
    let c = colon_end(l, 0);
    if c >= l.len() {
        0
    } else {
        let a = pad_end(l, c + 1);
        let b = pad_start_back(l, l.len() as int);
        if a >= b {
            0
        } else {
            let d = l.subrange(a, b);
            if all_digits(d) && digits_val(d) <= usize::MAX {
                digits_val(d)
            } else {
                0
            }
        }
    }
}

/// First position at or after `i` holding a colon, or the length.
pub open spec fn colon_end(s: Seq<char>, i: int) -> int
    decreases s.len() - i,
{
    if i < 0 || i >= s.len() {
        s.len() as int
    } else if s[i] == ':' {
        i
    } else {
        colon_end(s, i + 1)
    }
}

pub proof fn lemma_colon_end_at(s: Seq<char>, i: int, k: int)
    requires
        0 <= i <= k <= s.len(),
        forall|t: int| i <= t < k ==> s[t] != ':',
        k == s.len() || s[k] == ':',
    ensures
        colon_end(s, i) == k,
    decreases k - i,
{
    if i < k {
        lemma_colon_end_at(s, i + 1, k);
    }
}

/// The announced body size of a header block: the value of its first
/// `Content-Length` line, or zero when there is none.
pub open spec fn spec_body_size(s: Seq<char>, i: int) -> nat
    decreases s.len() - i,
{
    if i < 0 || i > s.len() {
        0
    } else {
        let e = nl_end(s, i);
        let line = s.subrange(i, e);
        if is_cl_line(line) {
            cl_value(line)
        } else if e >= s.len() {
            0
        } else if e < i {
            0
        } else {
            spec_body_size(s, e + 1)
        }
    }
}

/// Reads the announced body size out of a raw header block: the value
/// after the colon of the first `Content-Length` line (case
/// insensitively), or zero when absent or unreadable.
#[verifier::loop_isolation(false)]
pub fn body_size_from_headers(headers: &str) -> (r: usize)
    ensures
        r as nat == spec_body_size(headers@, 0),
{
    let v = chars_of_str(headers);
    let n = v.len();
    let mut st: usize = 0;
    loop
        invariant
            st <= n,
            spec_body_size(v@, 0) == spec_body_size(v@, st as int),
        decreases n - st,
    {
        // find the end of this line
        let mut e: usize = st;
        while e < n && v[e] != '\n'
            invariant
                st <= e <= n,
                forall|t: int| st <= t < e ==> v@[t] != '\n',
            decreases n - e,
        {
            e = e + 1;
        }
        proof {
            lemma_nl_end_at(v@, st as int, e as int);
        }
        let ghost line = v@.subrange(st as int, e as int);
        // does the line start with content-length, case folded?
        let is_cl = if e - st >= 14 {
            let mut ok = true;
            let pat = chars_of_str("content-length");
            proof {
                reveal_strlit("content-length");
            }
            let mut t: usize = 0;
            while t < 14 && ok
                invariant
                    pat@ == "content-length"@,
                    st + 14 <= e <= n,
                    t <= 14,
                    pat@.len() == 14,
                    ok ==> forall|x: int| 0 <= x < t ==> lower_char(v@[st + x]) == pat@[x],
                    !ok ==> exists|x: int|
                        0 <= x < pat@.len() && #[trigger] lower_char(v@[st + x]) != pat@[x],
                decreases 14 - t,
            {
                if to_lower_char(v[st + t]) != pat[t] {
                    ok = false;
                }
                t = t + 1;
            }
            proof {
                if ok {
                    assert forall|x: int| 0 <= x < 14 implies #[trigger] lower(line.take(14))[x]
                        == "content-length"@[x] by {
                        assert(line.take(14)[x] == v@[st + x]);
                        assert(lower_char(v@[st + x]) == pat@[x]);
                    }
                    assert(lower(line.take(14)) =~= "content-length"@);
                } else {
                    let x = choose|x: int|
                        0 <= x < pat@.len() && #[trigger] lower_char(v@[st + x]) != pat@[x];
                    assert(lower(line.take(14))[x] == lower_char(line.take(14)[x]));
                    assert(line.take(14)[x] == v@[st + x]);
                    assert(lower(line.take(14)) != "content-length"@);
                }
            }
            ok
        } else {
            proof {
                assert(line.len() < 14);
            }
            false
        };
        if is_cl {
            // find the colon
            let mut c: usize = st;
            while c < e && v[c] != ':'
                invariant
                    st <= c <= e,
                    forall|t: int| st <= t < c ==> v@[t] != ':',
                decreases e - c,
            {
                c = c + 1;
            }
            proof {
                assert forall|t: int| 0 <= t < c - st implies line[t] != ':' by {
                    assert(line[t] == v@[st + t]);
                }
                if c < e {
                    assert(line[c - st] == ':');
                }
                lemma_colon_end_at(line, 0, c - st as int);
            }
            if c == e {
                return 0;
            }
            // strip padding after the colon
            let mut a: usize = c + 1;
            while a < e && (v[a] == ' ' || v[a] == '\t' || v[a] == '\r')
                invariant
                    c + 1 <= a <= e,
                    forall|t: int| c + 1 <= t < a ==> is_pad(#[trigger] v@[t]),
                decreases e - a,
            {
                a = a + 1;
            }
            proof {
                assert forall|t: int| c + 1 - st <= t < a - st implies is_pad(
                    #[trigger] line[t],
                ) by {
                    assert(line[t] == v@[st + t]);
                }
                if a < e {
                    assert(line[a - st] == v@[a as int]);
                }
                lemma_pad_end_at(line, c + 1 - st as int, a - st as int);
            }
            // strip padding before the end of the line
            let mut b: usize = e;
            while b > a && (v[b - 1] == ' ' || v[b - 1] == '\t' || v[b - 1] == '\r')
                invariant
                    a <= b <= e,
                    forall|t: int| b <= t < e ==> is_pad(#[trigger] v@[t]),
                decreases b,
            {
                b = b - 1;
            }
            proof {
                assert forall|t: int| b - st <= t < line.len() implies is_pad(
                    #[trigger] line[t],
                ) by {
                    assert(line[t] == v@[st + t]);
                }
                if b > a {
                    assert(line[b - 1 - st] == v@[b - 1]);
                    assert(!is_pad(line[b - 1 - st]));
                    lemma_pad_start_back_at(line, line.len() as int, b - st as int);
                } else {
                    assert(b == a);
                    if a < e {
                        assert(is_pad(v@[a as int]));
                        assert(!is_pad(line[a - st]));
                        assert(false);
                    }
                    lemma_pad_start_back_le(line, line.len() as int);
                }
            }
            if a >= b {
                return 0;
            }
            // read the digits
            let mut j: usize = a;
            let mut acc: Option<u64> = Some(0u64);
            while j < b
                invariant
                    a <= j <= b <= e <= n,
                    all_digits(v@.subrange(a as int, j as int)),
                    acc matches Some(x) ==> x == digits_val(v@.subrange(a as int, j as int))
                        && digits_val(v@.subrange(a as int, j as int)) <= u64::MAX,
                    acc is None ==> digits_val(v@.subrange(a as int, j as int)) > u64::MAX,
                decreases b - j,
            {
                let ch = v[j];
                let nc: u32 = ch as u32;
                if !(48 <= nc && nc <= 57) {
                    proof {
                        assert(v@.subrange(a as int, b as int)[j - a] == ch);
                        assert(line.subrange(a - st as int, b - st as int) =~= v@.subrange(
                            a as int,
                            b as int,
                        ));
                    }
                    return 0;
                }
                let d: u64 = (nc - 48) as u64;
                proof {
                    assert(v@.subrange(a as int, j + 1).drop_last() =~= v@.subrange(
                        a as int,
                        j as int,
                    ));
                    assert(v@.subrange(a as int, j + 1).last() == ch);
                }
                let ghost pre = digits_val(v@.subrange(a as int, j as int));
                acc = match acc {
                    Some(x) => {
                        match x.checked_mul(10) {
                            Some(y) => {
                                match y.checked_add(d) {
                                    Some(z) => Some(z),
                                    None => None,
                                }
                            }
                            None => None,
                        }
                    }
                    None => {
                        proof {
                            assert(pre * 10 + crate::text::digit_val(ch) > u64::MAX)
                                by (nonlinear_arith)
                                requires
                                    pre > u64::MAX,
                                    crate::text::digit_val(ch) >= 0,
                            ;
                        }
                        None
                    }
                };
                j = j + 1;
            }
            proof {
                assert(line.subrange(a - st as int, b - st as int) =~= v@.subrange(
                    a as int,
                    b as int,
                ));
            }
            match acc {
                Some(u) => {
                    if u > usize::MAX as u64 {
                        return 0;
                    }
                    return u as usize;
                }
                None => {
                    proof {
                        assert(digits_val(v@.subrange(a as int, b as int)) > u64::MAX
                            >= usize::MAX);
                    }
                    return 0;
                }
            }
        }
        // not the length line: move past it, or give up at the end
        if e >= n {
            return 0;
        }
        st = e + 1;
    }
}

/// Index of the last dot of the name, or -1.
pub open spec fn last_dot(name: Seq<char>) -> int
    decreases name.len(),
{
    if name.len() == 0 {
        -1
    } else if name.last() == '.' {
        name.len() - 1
    } else {
        last_dot(name.drop_last())
    }
}

/// The extension of a file name: what follows the last dot, when one
/// exists.
pub open spec fn extension_of(name: Seq<char>) -> Option<Seq<char>> {
    if last_dot(name) >= 0 {
        Some(name.skip(last_dot(name) + 1))
    } else {
        None
    }
}

proof fn lemma_last_dot_at(s: Seq<char>, k: int)
    requires
        0 <= k < s.len(),
        s[k] == '.',
        forall|j: int| k < j < s.len() ==> s[j] != '.',
    ensures
        last_dot(s) == k,
    decreases s.len(),
{
    if k == s.len() - 1 {
    } else {
        assert(s.last() != '.');
        lemma_last_dot_at(s.drop_last(), k);
    }
}

proof fn lemma_no_dot(s: Seq<char>)
    requires
        forall|j: int| 0 <= j < s.len() ==> s[j] != '.',
    ensures
        last_dot(s) == -1,
    decreases s.len(),
{
    if s.len() > 0 {
        lemma_no_dot(s.drop_last());
    }
}

/// Finds the extension after the last dot of a file name.
pub fn extension(name: &str) -> (r: Option<String>)
    ensures
        match r {
            Some(e) => extension_of(name@) == Some(e@),
            None => extension_of(name@) is None,
        },
{
    let v = chars_of_str(name);
    let mut i: usize = v.len();
    while i > 0
        invariant
            v@ == name@,
            i <= v@.len(),
            forall|j: int| i <= j < v@.len() ==> v@[j] != '.',
        decreases i,
    {
        i = i - 1;
        if v[i] == '.' {
            proof {
                lemma_last_dot_at(v@, i as int);
            }
            let mut out: Vec<char> = Vec::new();
            let mut k: usize = i + 1;
            while k < v.len()
                invariant
                    v@ == name@,
                    i < k <= v@.len(),
                    out@ == v@.subrange(i + 1, k as int),
                decreases v@.len() - k,
            {
                out.push(v[k]);
                proof {
                    assert(out@ =~= v@.subrange(i + 1, k + 1));
                }
                k = k + 1;
            }
            proof {
                assert(v@.subrange(i + 1, v@.len() as int) =~= v@.skip(i + 1));
            }
            return Some(string_from_chars(&out));
        }
    }
    proof {
        lemma_no_dot(v@);
    }
    None
}

/// The content type this server sends for an extension; `None` for an
/// unknown one.
pub open spec fn spec_content_type(ext: Seq<char>) -> Option<Seq<char>> {
    if ext == "html"@ {
        Some("text/html; charset=utf-8"@)
    } else if ext == "css"@ {
        Some("text/css"@)
    } else if ext == "js"@ {
        Some("text/javascript"@)
    } else if ext == "ico"@ {
        Some("image/ico"@)
    } else if ext == "png"@ {
        Some("image/png"@)
    } else if ext == "jpg"@ {
        Some("image/jpg"@)
    } else {
        None
    }
}

/// The content type for a file name, decided by its extension.
pub fn content_type_for(name: &str) -> (r: Option<String>)
    ensures
        match extension_of(name@) {
            Some(e) => match spec_content_type(e) {
                Some(ct) => r matches Some(s) && s@ == ct,
                None => r is None,
            },
            None => r is None,
        },
{
    let ext = match extension(name) {
        Some(e) => e,
        None => {
            return None;
        },
    };
    let e = ext.as_str();
    if crate::router::str_eq(e, "html") {
        Some(String::from_str("text/html; charset=utf-8"))
    } else if crate::router::str_eq(e, "css") {
        Some(String::from_str("text/css"))
    } else if crate::router::str_eq(e, "js") {
        Some(String::from_str("text/javascript"))
    } else if crate::router::str_eq(e, "ico") {
        Some(String::from_str("image/ico"))
    } else if crate::router::str_eq(e, "png") {
        Some(String::from_str("image/png"))
    } else if crate::router::str_eq(e, "jpg") {
        Some(String::from_str("image/jpg"))
    } else {
        None
    }
}

/// A file reply: the bytes of the file under the content type of its
/// extension; an unknown or missing extension is an error.
pub fn ok_file(status: u16, filename: &str, bytes: Vec<u8>) -> (r: Result<Response, String>)
    ensures
        ({
            let ct = match extension_of(filename@) {
                Some(e) => spec_content_type(e),
                None => None,
            };
            match ct {
                Some(c) => r matches Ok(resp) && resp.status == status && resp.body@ == bytes@
                    && header_views(resp.headers@).len() == 2 && header_views(resp.headers@)[0]
                    == ("Content-Type"@, c) && header_views(resp.headers@)[1].0
                    == "Content-Length"@ && header_views(resp.headers@)[1].1 == dec_nat(
                    bytes@.len() as nat,
                ),
                None => r is Err,
            }
        }),
{
    let ct = match content_type_for(filename) {
        Some(c) => c,
        None => {
            return Err(String::from_str("unknown file extension"));
        },
    };
    let mut len_chars: Vec<char> = Vec::new();
    push_dec_u64(bytes.len() as u64, &mut len_chars);
    let len_str = string_from_chars(&len_chars);
    let mut headers: Vec<(String, String)> = Vec::new();
    headers.push((String::from_str("Content-Type"), ct));
    headers.push((String::from_str("Content-Length"), len_str));
    let r = Response { status, headers, body: bytes };
    proof {
        assert(header_views(r.headers@) =~= seq![
            ("Content-Type"@, header_views(r.headers@)[0].1),
            ("Content-Length"@, dec_nat(r.body@.len() as nat)),
        ]);
    }
    Ok(r)
}

} // verus!
