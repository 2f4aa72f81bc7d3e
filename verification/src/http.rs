//! Requests to the web interface: how they are read, and how each is answered.
use vstd::prelude::*;
use vstd::slice::{slice_subrange, slice_to_vec};

use crate::header;
use crate::text;

verus! {

/// A request, as slices of the bytes that were received.
pub struct HttpRequest<'a> {
    /// The first word of the first line.
    pub method: &'a str,
    /// The second word of the first line.
    pub path: &'a str,
    /// What stands between the first line and the empty line.
    pub headers: &'a [u8],
    /// What was received behind the empty line.
    pub body: &'a [u8],
}

/// What a request holds.
pub struct RequestModel {
    pub method: Seq<char>,
    pub path: Seq<char>,
    pub headers: Seq<u8>,
    pub body: Seq<u8>,
}

impl<'a> View for HttpRequest<'a> {
    type V = RequestModel;

    open spec fn view(&self) -> RequestModel {
        RequestModel {
            method: self.method@,
            path: self.path@,
            headers: self.headers@,
            body: self.body@,
        }
    }
}

/// The end of a line.
pub open spec fn crlf() -> Seq<u8> {
    seq![13u8, 10u8]
}

/// The empty line that ends the head of a request.
pub open spec fn blank_line() -> Seq<u8> {
    seq![13u8, 10u8, 13u8, 10u8]
}

/// The first line of a text: what stands before the first line feed, without a carriage return
/// right before it, or all of the text if it has no line feed.
pub open spec fn first_line(s: Seq<char>) -> Seq<char> {
    match text::first_at(s, seq!['\n'], 0) {
        Some(i) => if i > 0 && s[i - 1] == '\r' {
            s.take(i - 1)
        } else {
            s.take(i)
        },
        None => s,
    }
}

/// The first two words of a line.
pub open spec fn two_words(line: Seq<char>) -> Option<(Seq<char>, Seq<char>)> {
    let (a, b) = text::word_at(line, 0);
    let (c, d) = text::word_at(line, b);
    if a < b && c < d {
        Some((line.subrange(a, b), line.subrange(c, d)))
    } else {
        None
    }
}

/// The request that `buffer` starts with, if its head is complete, is UTF-8 and has a first line
/// of at least two words.
pub open spec fn request_in(buffer: Seq<u8>) -> Option<RequestModel> {
    match text::first_at(buffer, blank_line(), 0) {
        Some(end) => {
            let head = buffer.take(end);
            if vstd::utf8::valid_utf8(head) {
                match two_words(first_line(vstd::utf8::decode_utf8(head))) {
                    Some((method, path)) => Some(
                        RequestModel {
                            method,
                            path,
                            headers: match text::first_at(head, crlf(), 0) {
                                Some(i) => head.skip(i + 2),
                                None => head,
                            },
                            body: buffer.skip(end + 4),
                        },
                    ),
                    None => None,
                }
            } else {
                None
            }
        },
        None => None,
    }
}

/// Whether `buffer` holds the empty line that ends the head of a request.
pub fn head_is_complete(buffer: &[u8]) -> (r: bool)
    ensures
        r == (text::first_at(buffer@, blank_line(), 0) is Some),
{
    let pat: [u8; 4] = [13, 10, 13, 10];
    assert(pat@ =~= blank_line());
    text::find_bytes(buffer, pat.as_slice()).is_some()
}

/// The first line of a text, as the position of its end.
fn first_line_end(s: &Vec<char>) -> (r: usize)
    ensures
        r <= s@.len(),
        s@.take(r as int) == first_line(s@),
{
    let mut i: usize = 0;
    while i < s.len()
        invariant
            i <= s@.len(),
            text::first_at(s@, seq!['\n'], 0) == text::first_at(s@, seq!['\n'], i as int),
        decreases s@.len() - i,
    {
        assert(s@.subrange(i as int, i + 1) =~= seq![s@[i as int]]);
        assert(seq![s@[i as int]][0] == s@[i as int]);
        assert(seq!['\n'][0] == '\n');
        if s[i] == '\n' {
            if i > 0 && s[i - 1] == '\r' {
                return i - 1;
            }
            return i;
        }
        i += 1;
    }
    assert(s@.take(i as int) =~= s@);
    i
}

/// Reads the request that `buffer` starts with.
pub fn parse_http_request(buffer: &[u8]) -> (r: Option<HttpRequest<'_>>)
    ensures
        match r {
            Some(request) => request_in(buffer@) == Some(request@),
            None => request_in(buffer@) is None,
        },
{
    let n: usize = buffer.len();
    let blank: [u8; 4] = [13, 10, 13, 10];
    assert(blank@ =~= blank_line());
    let end = match text::find_bytes(buffer, blank.as_slice()) {
        Some(end) => end,
        None => {
            return None;
        },
    };
    let head = slice_subrange(buffer, 0, end);
    assert(head@ =~= buffer@.take(end as int));
    let section = match text::text_of(head) {
        Some(section) => section,
        None => {
            return None;
        },
    };
    let chars = text::chars_of(section);
    let line_end = first_line_end(&chars);
    let line = section.substring_char(0, line_end);
    assert(line@ =~= first_line(section@));
    let line_chars = text::chars_of(line);
    let (a, b) = text::find_word(&line_chars, 0);
    let (c, d) = text::find_word(&line_chars, b);
    if a == b || c == d {
        return None;
    }
    let method = line.substring_char(a, b);
    let path = line.substring_char(c, d);
    let end_of_line: [u8; 2] = [13, 10];
    assert(end_of_line@ =~= crlf());
    let start: usize = match text::find_bytes(head, end_of_line.as_slice()) {
        Some(i) => i + 2,
        None => 0,
    };
    let headers = slice_subrange(buffer, start, end);
    assert(headers@ =~= head@.skip(start as int));
    assert(head@.skip(0) =~= head@);
    let body = slice_subrange(buffer, end + 4, n);
    assert(body@ =~= buffer@.skip(end + 4));
    Some(HttpRequest { method, path, headers, body })
}

/// A response, before its head is written.
pub struct Response<'a> {
    pub status: &'a str,
    pub content_type: &'a str,
    pub body: &'a [u8],
}

/// What a response holds.
pub struct ResponseModel {
    pub status: Seq<char>,
    pub content_type: Seq<char>,
    pub body: Seq<u8>,
}

impl<'a> View for Response<'a> {
    type V = ResponseModel;

    open spec fn view(&self) -> ResponseModel {
        ResponseModel {
            status: self.status@,
            content_type: self.content_type@,
            body: self.body@,
        }
    }
}

/// How a request is answered.
pub struct Answer<'a> {
    /// The connection details that are handed to the connecting task before the response goes
    /// out, if the request brings any.
    pub conn_info: Option<Vec<u8>>,
    pub response: Response<'a>,
}

/// The pages and the scan result that requests ask for.
pub struct Site<'a> {
    /// The page at the root.
    pub wifi_panel: &'a str,
    /// The page for firmware updates.
    pub update_panel: &'a str,
    /// The last scan result, unless it is being replaced right now.
    pub scan_result: Option<&'a str>,
}

/// The page for firmware updates where there is no support for them.
pub open spec fn updates_disabled_page() -> Seq<char> {
    "<html><body><p>OTA updates disabled</p></body></html>"@
}

/// The page for firmware updates: the one that is built in, or a note that updates are disabled.
pub fn update_panel_html(built_in: Option<&'static str>) -> (r: &'static str)
    ensures
        r@ == (match built_in {
            Some(page) => page@,
            None => updates_disabled_page(),
        }),
        built_in is None ==> r@ == "<html><body><p>OTA updates disabled</p></body></html>"@,
{
    match built_in {
        Some(page) => page,
        None => "<html><body><p>OTA updates disabled</p></body></html>",
    }
}

/// A response with a text as its body.
pub open spec fn page(status: Seq<char>, content_type: Seq<char>, body: Seq<char>) -> ResponseModel {
    ResponseModel { status, content_type, body: vstd::utf8::encode_utf8(body) }
}

/// The response to a request that is no update, from what the site shows.
pub open spec fn response_to(
    request: RequestModel,
    wifi_panel: Seq<char>,
    update_panel: Seq<char>,
    scan_result: Option<Seq<char>>,
) -> ResponseModel {
    if request.method == "GET"@ && request.path == "/"@ {
        page("200 OK"@, "text/html"@, wifi_panel)
    } else if request.method == "GET"@ && request.path == "/update"@ {
        page("200 OK"@, "text/html"@, update_panel)
    } else if is_list(request) {
        page(
            "200 OK"@,
            "text/plain"@,
            match scan_result {
                Some(list) => list,
                None => ""@,
            },
        )
    } else if is_setup(request) {
        page("200 OK"@, "text/plain"@, "."@)
    } else {
        page("404 Not Found"@, "text/plain"@, "Not Found"@)
    }
}

/// Whether a request asks for the scan result.
pub open spec fn is_list(request: RequestModel) -> bool {
    request.method == "GET"@ && request.path == "/list"@
}

/// Whether a request asks for the scan result.
pub fn wants_scan_result(request: &HttpRequest<'_>) -> (r: bool)
    ensures
        r == is_list(request@),
        r == (request.method@ == "GET"@ && request.path@ == "/list"@),
{
    text::same_text(request.method, "GET") && text::same_text(request.path, "/list")
}

/// Whether a request brings connection details.
pub open spec fn is_setup(request: RequestModel) -> bool {
    request.method == "POST"@ && request.path == "/setup"@
}

/// The text in an optional one.
pub open spec fn opt_text(t: Option<&str>) -> Option<Seq<char>> {
    match t {
        Some(t) => Some(t@),
        None => None,
    }
}

/// Answers a request that is no update.
pub fn handle_request<'a>(request: &HttpRequest<'a>, site: &Site<'a>) -> (r: Answer<'a>)
    ensures
        r.response@ == response_to(
            request@,
            site.wifi_panel@,
            site.update_panel@,
            opt_text(site.scan_result),
        ),
        match r.conn_info {
            Some(info) => is_setup(request@) && info@ == request.body@,
            None => !is_setup(request@),
        },
        request.method@ == "POST"@ && request.path@ == "/setup"@ ==> {
            &&& r.conn_info matches Some(info) && info@ == request.body@
            &&& r.response.status@ == "200 OK"@
            &&& r.response.content_type@ == "text/plain"@
            &&& r.response.body@ == vstd::utf8::encode_utf8("."@)
        },
        r.conn_info is Some ==> request.method@ == "POST"@ && request.path@ == "/setup"@,
{
    proof {
        reveal_strlit("GET");
        reveal_strlit("POST");
        assert("GET"@.len() != "POST"@.len());
    }
    if text::same_text(request.method, "GET") {
        if text::same_text(request.path, "/") {
            return answer("200 OK", "text/html", site.wifi_panel);
        }
        if text::same_text(request.path, "/update") {
            return answer("200 OK", "text/html", site.update_panel);
        }
        if text::same_text(request.path, "/list") {
            let list = match site.scan_result {
                Some(list) => list,
                None => "",
            };
            return answer("200 OK", "text/plain", list);
        }
    } else if text::same_text(request.method, "POST") && text::same_text(request.path, "/setup") {
        let mut a = answer("200 OK", "text/plain", ".");
        a.conn_info = Some(slice_to_vec(request.body));
        return a;
    }
    answer("404 Not Found", "text/plain", "Not Found")
}

/// An answer that brings no connection details.
fn answer<'a>(status: &'a str, content_type: &'a str, body: &'a str) -> (r: Answer<'a>)
    ensures
        r.response@ == page(status@, content_type@, body@),
        r.conn_info is None,
{
    Answer {
        conn_info: None,
        response: Response { status, content_type, body: body.as_bytes() },
    }
}

/// What is done with the bytes that were received on a connection.
pub enum Dispatch<'a> {
    /// They hold no request: nothing is sent back.
    Ignore,
    /// A firmware update.
    Update(HttpRequest<'a>),
    /// Any other request.
    Serve(HttpRequest<'a>),
}

/// Whether a request with this path is a firmware update, given its method in upper case.
pub open spec fn is_update(path: Seq<char>, upper_method: Seq<char>) -> bool {
    "/update"@.is_prefix_of(path) && upper_method == "POST"@
}

/// Whether a request with this path is a firmware update, given its method in upper case.
pub fn wants_update(path: &str, upper_method: &str) -> (r: bool)
    ensures
        r == is_update(path@, upper_method@),
        r == ("/update"@.is_prefix_of(path@) && upper_method@ == "POST"@),
{
    text::starts_with(path, "/update") && text::same_text(upper_method, "POST")
}

/// Decides what is done with the bytes that were received on a connection.
pub fn dispatch(buffer: &[u8]) -> (r: Dispatch<'_>)
    ensures
        match r {
            Dispatch::Ignore => request_in(buffer@) is None,
            Dispatch::Update(request) => {
                &&& request_in(buffer@) == Some(request@)
                &&& is_update(request.path@, text::uppercased(request.method@))
                &&& "/update"@.is_prefix_of(request.path@)
                &&& text::uppercased(request.method@) == "POST"@
            },
            Dispatch::Serve(request) => {
                &&& request_in(buffer@) == Some(request@)
                &&& !is_update(request.path@, text::uppercased(request.method@))
                &&& !("/update"@.is_prefix_of(request.path@) && text::uppercased(
                    request.method@,
                ) == "POST"@)
            },
        },
        match request_in(buffer@) {
            Some(request) => vstd::utf8::is_ascii_chars(request.method) ==> (r is Update
                <==> is_update(
                request.path,
                request.method.map_values(|c: char| text::ascii_upper(c)),
            )),
            None => true,
        },
{
    match parse_http_request(buffer) {
        None => Dispatch::Ignore,
        Some(request) => {
            let method = text::upper(request.method);
            if wants_update(request.path, method.as_str()) {
                Dispatch::Update(request)
            } else {
                Dispatch::Serve(request)
            }
        },
    }
}

/// The response to an update that was refused or that could not be carried through.
pub open spec fn update_failed_page() -> ResponseModel {
    page("500 Internal Server Error"@, "text/plain"@, "Update handler failed"@)
}

/// The response to an update that was refused or that could not be carried through.
pub fn update_failed_response() -> (r: Response<'static>)
    ensures
        r@ == update_failed_page(),
        r.status@ == "500 Internal Server Error"@,
        r.content_type@ == "text/plain"@,
        r.body@ == vstd::utf8::encode_utf8("Update handler failed"@),
{
    Response {
        status: "500 Internal Server Error",
        content_type: "text/plain",
        body: "Update handler failed".as_bytes(),
    }
}

/// Whether a text can stand as a word.
pub open spec fn is_word(s: Seq<char>) -> bool {
    s.len() > 0 && forall|i: int| 0 <= i < s.len() ==> !text::is_white(s[i])
}

/// A request line: two words and whatever follows them on the line.
pub open spec fn request_line(method: Seq<char>, path: Seq<char>, rest: Seq<char>) -> Seq<char> {
    method + seq![' '] + path + rest
}

/// Whether `rest` can follow the two words of a request line.
pub open spec fn ends_line(rest: Seq<char>) -> bool {
    !rest.contains('\n') && (rest.len() == 0 || text::is_white(rest[0]))
}

/// The first two words of a request line are its method and its path.
proof fn request_line_words(method: Seq<char>, path: Seq<char>, rest: Seq<char>)
    requires
        is_word(method),
        is_word(path),
        ends_line(rest),
    ensures
        two_words(request_line(method, path, rest)) == Some((method, path)),
        !request_line(method, path, rest).contains('\n'),
{
    let line = request_line(method, path, rest);
    let m = method.len() as int;
    let p = path.len() as int;
    assert forall|j: int| 0 <= j < m implies line[j] == method[j] by {}
    assert(line[m] == ' ');
    assert forall|j: int| 0 <= j < p implies line[m + 1 + j] == path[j] by {}
    assert forall|j: int| m + 1 <= j < m + 1 + p implies !text::is_white(line[j]) by {
        assert(line[m + 1 + (j - m - 1)] == path[j - m - 1]);
    }
    assert forall|j: int| 0 <= j < rest.len() implies line[m + 1 + p + j] == rest[j] by {}
    if rest.len() > 0 {
        assert(line[m + 1 + p + 0] == rest[0]);
    }
    text::white_end_is(line, 0, 0);
    text::word_end_is(line, 0, m);
    text::white_end_is(line, m, m + 1);
    text::word_end_is(line, m + 1, m + 1 + p);
    assert(line.subrange(0, m) =~= method);
    assert(line.subrange(m + 1, m + 1 + p) =~= path);
    if line.contains('\n') {
        let j = choose|j: int| 0 <= j < line.len() && line[j] == '\n';
        assert(text::is_white('\n'));
        assert(text::is_white(line[j]));
        assert(j >= m + 1 + p);
        assert(rest[j - m - 1 - p] == '\n');
    }
}

/// The first line of a text that starts with a line and its end is that line.
proof fn first_line_is(line: Seq<char>, more: Seq<char>)
    requires
        !line.contains('\n'),
    ensures
        first_line(line + seq!['\r', '\n'] + more) == line,
        first_line(line) == line,
{
    let s = line + seq!['\r', '\n'] + more;
    let n = line.len() as int;
    let pat = seq!['\n'];
    assert(s[n] == '\r');
    assert(s[n + 1] == '\n');
    assert(s.subrange(n + 1, n + 2) =~= pat);
    assert forall|j: int| 0 <= j < n + 1 implies !text::occurs_at(s, pat, j) by {
        assert(s.subrange(j, j + 1)[0] == s[j]);
        assert(pat[0] == '\n');
        if j < n {
            assert(s[j] == line[j]);
            assert(line.contains(line[j]));
        }
    }
    text::first_at_is(s, pat, 0, n + 1);
    assert(s.take(n) =~= line);
    text::first_at_is_first(line, pat, 0);
    match text::first_at(line, pat, 0) {
        Some(k) => {
            assert(line.subrange(k, k + 1)[0] == line[k]);
            assert(pat[0] == '\n');
            assert(line.contains(line[k]));
        },
        None => {},
    }
}

/// The end of a line is found right behind a text without a line feed.
proof fn crlf_follows_line(line: Seq<u8>, more: Seq<u8>)
    requires
        !line.contains(10u8),
    ensures
        text::first_at(line + crlf() + more, crlf(), 0) == Some(line.len() as int),
        text::first_at(line, crlf(), 0) is None,
{
    let s = line + crlf() + more;
    let n = line.len() as int;
    assert(s.subrange(n, n + 2) =~= crlf());
    assert forall|j: int| 0 <= j < n implies !text::occurs_at(s, crlf(), j) by {
        if text::occurs_at(s, crlf(), j) {
            assert(s.subrange(j, j + 2)[1] == s[j + 1]);
            assert(crlf()[1] == 10u8);
            if j + 1 < n {
                assert(s[j + 1] == line[j + 1]);
                assert(line.contains(line[j + 1]));
            } else {
                assert(s[j + 1] == 13u8);
            }
        }
    }
    text::first_at_is(s, crlf(), 0, n);
    text::first_at_is_first(line, crlf(), 0);
    match text::first_at(line, crlf(), 0) {
        Some(k) => {
            assert(line.subrange(k, k + 2)[1] == line[k + 1]);
            assert(crlf()[1] == 10u8);
            assert(line.contains(line[k + 1]));
        },
        None => {},
    }
}

/// Whether the empty line that ends a head is the first one there is.
pub open spec fn is_head(head: Seq<u8>) -> bool {
    text::first_at(head + blank_line(), blank_line(), 0) == Some(head.len() as int)
}

/// What is behind the empty line does not change where the head ends.
proof fn head_end_is(head: Seq<u8>, body: Seq<u8>)
    requires
        is_head(head),
    ensures
        text::first_at(head + blank_line() + body, blank_line(), 0) == Some(head.len() as int),
{
    let whole = head + blank_line() + body;
    let part = head + blank_line();
    let n = head.len() as int;
    text::first_at_is_first(part, blank_line(), 0);
    assert(whole.subrange(n, n + 4) =~= blank_line());
    assert forall|j: int| 0 <= j < n implies !text::occurs_at(whole, blank_line(), j) by {
        assert(whole.subrange(j, j + 4) =~= part.subrange(j, j + 4));
        assert(!text::occurs_at(part, blank_line(), j));
    }
    text::first_at_is(whole, blank_line(), 0, n);
}

/// A well-formed request is read as what it says: its method, its path, its header lines and all
/// that follows the empty line.
pub proof fn well_formed_request_is_read(
    method: Seq<char>,
    path: Seq<char>,
    rest: Seq<char>,
    headers: Seq<char>,
    body: Seq<u8>,
)
    requires
        is_word(method),
        is_word(path),
        ends_line(rest),
        is_head(
            vstd::utf8::encode_utf8(
                request_line(method, path, rest) + seq!['\r', '\n'] + headers,
            ),
        ),
    ensures
        request_in(
            vstd::utf8::encode_utf8(
                request_line(method, path, rest) + seq!['\r', '\n'] + headers,
            ) + blank_line() + body,
        ) == Some(
            RequestModel { method, path, headers: vstd::utf8::encode_utf8(headers), body },
        ),
{
    let line = request_line(method, path, rest);
    let end = seq!['\r', '\n'];
    let head_text = line + end + headers;
    let head = vstd::utf8::encode_utf8(head_text);
    let buffer = head + blank_line() + body;
    let line_bytes = vstd::utf8::encode_utf8(line);
    let header_bytes = vstd::utf8::encode_utf8(headers);
    request_line_words(method, path, rest);
    first_line_is(line, headers);
    head_end_is(head, body);
    assert(buffer.take(head.len() as int) =~= head);
    assert(buffer.skip(head.len() as int + 4) =~= body);
    vstd::utf8::encode_utf8_valid_utf8(head_text);
    vstd::utf8::encode_utf8_decode_utf8(head_text);
    text::encode_keeps_lines(line);
    text::encode_concat(line + end, headers);
    text::encode_concat(line, end);
    vstd::utf8::is_ascii_chars_encode_utf8(end);
    assert(end[0] == '\r' && end[1] == '\n');
    assert(vstd::utf8::encode_utf8(end) =~= crlf());
    crlf_follows_line(line_bytes, header_bytes);
    assert(head.skip(line_bytes.len() as int + 2) =~= header_bytes);
}

/// A request without header lines is read likewise; its headers are then its only line.
pub proof fn bare_request_is_read(
    method: Seq<char>,
    path: Seq<char>,
    rest: Seq<char>,
    body: Seq<u8>,
)
    requires
        is_word(method),
        is_word(path),
        ends_line(rest),
        is_head(vstd::utf8::encode_utf8(request_line(method, path, rest))),
    ensures
        request_in(
            vstd::utf8::encode_utf8(request_line(method, path, rest)) + blank_line() + body,
        ) == Some(
            RequestModel {
                method,
                path,
                headers: vstd::utf8::encode_utf8(request_line(method, path, rest)),
                body,
            },
        ),
{
    let line = request_line(method, path, rest);
    let head = vstd::utf8::encode_utf8(line);
    let buffer = head + blank_line() + body;
    request_line_words(method, path, rest);
    first_line_is(line, Seq::empty());
    head_end_is(head, body);
    assert(buffer.take(head.len() as int) =~= head);
    assert(buffer.skip(head.len() as int + 4) =~= body);
    vstd::utf8::encode_utf8_valid_utf8(line);
    vstd::utf8::encode_utf8_decode_utf8(line);
    text::encode_keeps_lines(line);
    crlf_follows_line(head, Seq::empty());
}

/// Requests outside the four routes are answered with 404, whatever the site shows.
pub proof fn other_requests_are_not_found(
    request: RequestModel,
    wifi_panel: Seq<char>,
    update_panel: Seq<char>,
    scan_result: Option<Seq<char>>,
)
    requires
        request.method == "GET"@ ==> {
            &&& request.path != "/"@
            &&& request.path != "/update"@
            &&& request.path != "/list"@
        },
        request.method == "POST"@ ==> request.path != "/setup"@,
    ensures
        response_to(request, wifi_panel, update_panel, scan_result) == page(
            "404 Not Found"@,
            "text/plain"@,
            "Not Found"@,
        ),
{
}

/// The scan result makes no difference to a request that does not ask for it.
pub proof fn scan_result_is_for_the_list(
    request: RequestModel,
    wifi_panel: Seq<char>,
    update_panel: Seq<char>,
    a: Option<Seq<char>>,
    b: Option<Seq<char>>,
)
    requires
        !is_list(request),
    ensures
        response_to(request, wifi_panel, update_panel, a) == response_to(
            request,
            wifi_panel,
            update_panel,
            b,
        ),
{
}

/// No request of the four routes is taken for an update.
pub proof fn routes_are_no_updates(upper_method: Seq<char>)
    ensures
        !is_update("/"@, upper_method),
        !is_update("/list"@, upper_method),
        !is_update("/setup"@, upper_method),
        !is_update("/update"@, "GET"@),
{
    reveal_strlit("/");
    reveal_strlit("/list");
    reveal_strlit("/setup");
    reveal_strlit("/update");
    reveal_strlit("GET");
    reveal_strlit("POST");
    assert("/update"@[1] == 'u' && "/setup"@[1] == 's');
    assert("GET"@.len() != "POST"@.len());
}

/// The head of every answer is complete: nothing is left out of it, however long the pages are.
pub proof fn answers_have_complete_heads(
    request: RequestModel,
    wifi_panel: Seq<char>,
    update_panel: Seq<char>,
    scan_result: Option<Seq<char>>,
    body_len: usize,
)
    ensures
        ({
            let r = response_to(request, wifi_panel, update_panel, scan_result);
            header::head(r.status, r.content_type, body_len as nat) == header::joined(
                header::head_pieces(r.status, r.content_type, body_len as nat),
            )
        }),
{
    let r = response_to(request, wifi_panel, update_panel, scan_result);
    reveal_strlit("200 OK");
    reveal_strlit("404 Not Found");
    reveal_strlit("text/html");
    reveal_strlit("text/plain");
    header::short_head_is_complete(r.status, r.content_type, body_len);
}

/// Each route has its answer, whatever the headers and the body of the request: the panel at the
/// root, the page for updates, the list, the acknowledgement of a setup, and for everything else
/// that it was not found.
pub proof fn every_route_has_its_answer(
    request: RequestModel,
    wifi_panel: Seq<char>,
    update_panel: Seq<char>,
    scan_result: Option<Seq<char>>,
)
    ensures
        ({
            let r = response_to(request, wifi_panel, update_panel, scan_result);
            if request.method == "GET"@ && request.path == "/"@ {
                &&& r.status == "200 OK"@
                &&& r.content_type == "text/html"@
                &&& r.body == vstd::utf8::encode_utf8(wifi_panel)
            } else if request.method == "GET"@ && request.path == "/update"@ {
                &&& r.status == "200 OK"@
                &&& r.content_type == "text/html"@
                &&& r.body == vstd::utf8::encode_utf8(update_panel)
            } else if request.method == "GET"@ && request.path == "/list"@ {
                &&& r.status == "200 OK"@
                &&& r.content_type == "text/plain"@
                &&& scan_result matches Some(list) ==> r.body == vstd::utf8::encode_utf8(list)
                &&& scan_result is None ==> r.body == Seq::<u8>::empty()
            } else if request.method == "POST"@ && request.path == "/setup"@ {
                &&& r.status == "200 OK"@
                &&& r.content_type == "text/plain"@
                &&& r.body == seq!['.' as u8]
            } else {
                &&& r.status == "404 Not Found"@
                &&& r.content_type == "text/plain"@
                &&& r.body == vstd::utf8::encode_utf8("Not Found"@)
            }
        }),
        is_setup(request) <==> request.method == "POST"@ && request.path == "/setup"@,
        is_list(request) <==> request.method == "GET"@ && request.path == "/list"@,
{
    reveal_strlit("");
    reveal_strlit(".");
    assert(""@ =~= Seq::<char>::empty());
    assert("."@ =~= seq!['.']);
    assert(vstd::utf8::is_ascii_chars("."@));
    vstd::utf8::is_ascii_chars_encode_utf8("."@);
    assert(vstd::utf8::encode_utf8("."@) =~= seq!['.' as u8]);
}

/// Two requests with the same method and path get the same answer, and bring connection details
/// both or neither: headers and bodies make no difference.
pub proof fn answers_depend_on_method_and_path(
    a: RequestModel,
    b: RequestModel,
    wifi_panel: Seq<char>,
    update_panel: Seq<char>,
    scan_result: Option<Seq<char>>,
)
    requires
        a.method == b.method,
        a.path == b.path,
    ensures
        response_to(a, wifi_panel, update_panel, scan_result) == response_to(
            b,
            wifi_panel,
            update_panel,
            scan_result,
        ),
        is_setup(a) == is_setup(b),
        is_list(a) == is_list(b),
{
}

/// An update is a request whose method is POST in upper case and whose path starts with the seven
/// characters of `/update`, however it goes on.
pub proof fn updates_are_told_by_their_beginning(more: Seq<char>, path: Seq<char>, upper: Seq<char>)
    ensures
        is_update("/update"@ + more, "POST"@),
        upper != "POST"@ ==> !is_update(path, upper),
        path.len() < 7 ==> !is_update(path, upper),
        path.len() >= 7 && path.take(7) != "/update"@ ==> !is_update(path, upper),
{
    reveal_strlit("/update");
    assert("/update"@.len() == 7);
    assert(("/update"@ + more).subrange(0, 7) =~= "/update"@);
    if path.len() >= 7 {
        assert(path.take(7) =~= path.subrange(0, 7));
    }
}

/// How the first line of a text ends, if the text begins with `words` and those have no line feed
/// in them and no carriage return at their end.
proof fn first_line_keeps(words: Seq<char>, tail: Seq<char>)
    requires
        !words.contains('\n'),
        words.len() > 0 ==> words[words.len() - 1] != '\r',
    ensures
        ({
            let line = first_line(words + tail);
            &&& words.len() <= line.len() <= words.len() + tail.len()
            &&& line == (words + tail).take(line.len() as int)
            &&& forall|i: int|
                0 <= i < tail.len() && tail[i] == '\n' ==> line.len() <= words.len() + i
        }),
{
    let s = words + tail;
    let pat = seq!['\n'];
    text::first_at_is_first(s, pat, 0);
    match text::first_at(s, pat, 0) {
        Some(i) => {
            assert(s.subrange(i, i + 1)[0] == s[i]);
            assert(pat[0] == '\n');
            assert(s[i] == '\n');
            if i < words.len() {
                assert(words[i] == '\n');
                assert(words.contains(words[i]));
            }
            if i == words.len() && i > 0 {
                assert(s[i - 1] == words[i - 1]);
            }
            assert forall|k: int| 0 <= k < tail.len() && tail[k] == '\n' implies i <= words.len()
                + k by {
                let at = words.len() + k;
                assert(s.subrange(at, at + 1) =~= pat) by {
                    assert(s[at] == '\n');
                }
                if at < i {
                    assert(text::occurs_at(s, pat, at));
                }
            }
        },
        None => {
            assert(s.take(s.len() as int) =~= s);
            assert forall|k: int| 0 <= k < tail.len() && tail[k] == '\n' implies false by {
                let at = words.len() + k;
                assert(s[at] == '\n');
                assert(s.subrange(at, at + 1) =~= pat);
                assert(text::occurs_at(s, pat, at));
            }
        },
    }
}

/// Where the head of a request ends, when the empty line begins nowhere before.
proof fn head_ends_at(buffer: Seq<u8>, head: Seq<u8>, body: Seq<u8>)
    requires
        buffer == head + seq![13u8, 10u8, 13u8, 10u8] + body,
        forall|j: int|
            0 <= j < head.len() ==> !seq![13u8, 10u8, 13u8, 10u8].is_prefix_of(
                #[trigger] buffer.skip(j),
            ),
    ensures
        ({
            &&& text::first_at(buffer, blank_line(), 0) == Some(head.len() as int)
            &&& buffer.take(head.len() as int) == head
            &&& buffer.skip(head.len() as int + 4) == body
        }),
{
    let end = seq![13u8, 10u8, 13u8, 10u8];
    let n = head.len() as int;
    assert(buffer.skip(n) =~= end + body);
    assert(end =~= (end + body).subrange(0, 4));
    text::first_at_is_leftmost(buffer, end, 0, n);
    assert(buffer.take(n) =~= head);
    assert(buffer.skip(n + 4) =~= body);
}

/// A request is read by its first two words, which are its method and its path, whatever white
/// space stands before and between them and whatever follows them. Its headers are what stands
/// behind the first end of a line, or all of its head if that is a single line, and its body is all
/// that stands behind the first empty line.
pub proof fn requests_are_read_by_their_words(
    lead: Seq<char>,
    method: Seq<char>,
    gap: Seq<char>,
    path: Seq<char>,
    tail: Seq<char>,
    head: Seq<u8>,
    body: Seq<u8>,
    buffer: Seq<u8>,
)
    requires
        forall|i: int| 0 <= i < lead.len() ==> text::is_white(#[trigger] lead[i]) && lead[i] != '\n',
        method.len() > 0,
        forall|i: int| 0 <= i < method.len() ==> !text::is_white(#[trigger] method[i]),
        gap.len() > 0,
        forall|i: int| 0 <= i < gap.len() ==> text::is_white(#[trigger] gap[i]) && gap[i] != '\n',
        path.len() > 0,
        forall|i: int| 0 <= i < path.len() ==> !text::is_white(#[trigger] path[i]),
        tail.len() > 0 ==> text::is_white(tail[0]),
        head == vstd::utf8::encode_utf8(lead + method + gap + path + tail),
        buffer == head + seq![13u8, 10u8, 13u8, 10u8] + body,
        forall|j: int|
            0 <= j < head.len() ==> !seq![13u8, 10u8, 13u8, 10u8].is_prefix_of(
                #[trigger] buffer.skip(j),
            ),
    ensures
        ({
            request_in(buffer) matches Some(r) && {
                &&& r.method == method
                &&& r.path == path
                &&& r.body == body
                &&& forall|i: int|
                    0 <= i <= head.len() && seq![13u8, 10u8].is_prefix_of(#[trigger] head.skip(i))
                        && (forall|j: int|
                        0 <= j < i ==> !seq![13u8, 10u8].is_prefix_of(#[trigger] head.skip(j)))
                        ==> r.headers == head.skip(i + 2)
                &&& (forall|j: int|
                    0 <= j <= head.len() ==> !seq![13u8, 10u8].is_prefix_of(
                        #[trigger] head.skip(j),
                    )) ==> r.headers == head
            }
        }),
{
    let words = lead + method + gap + path;
    let s = words + tail;
    head_ends_at(buffer, head, body);
    vstd::utf8::encode_utf8_valid_utf8(s);
    vstd::utf8::encode_utf8_decode_utf8(s);
    let a = lead.len() as int;
    let b = a + method.len();
    let c = b + gap.len();
    let d = c + path.len();
    assert(text::is_white('\n') && text::is_white('\r'));
    assert(!words.contains('\n')) by {
        if words.contains('\n') {
            let i = choose|i: int| 0 <= i < words.len() && words[i] == '\n';
            if i < a {
                assert(lead[i] == '\n');
            } else if i < b {
                assert(method[i - a] == '\n');
            } else if i < c {
                assert(gap[i - b] == '\n');
            } else {
                assert(path[i - c] == '\n');
            }
        }
    }
    assert(words[d - 1] == path[d - 1 - c]);
    first_line_keeps(words, tail);
    let line = first_line(s);
    assert forall|i: int| 0 <= i < line.len() implies line[i] == s[i] by {}
    assert forall|i: int| 0 <= i < a implies text::is_white(line[i]) by {
        assert(line[i] == lead[i]);
    }
    assert forall|i: int| a <= i < b implies !text::is_white(line[i]) by {
        assert(line[i] == method[i - a]);
    }
    assert forall|i: int| b <= i < c implies text::is_white(line[i]) by {
        assert(line[i] == gap[i - b]);
    }
    assert forall|i: int| c <= i < d implies !text::is_white(line[i]) by {
        assert(line[i] == path[i - c]);
    }
    if d < line.len() {
        assert(line[d] == tail[0]);
    }
    text::word_is_found(line, 0, a, b);
    text::word_is_found(line, b, c, d);
    assert(line.subrange(a, b) =~= method);
    assert(line.subrange(c, d) =~= path);
    let r = request_in(buffer)->0;
    assert forall|i: int|
        0 <= i <= head.len() && seq![13u8, 10u8].is_prefix_of(#[trigger] head.skip(i)) && (forall|
            j: int,
        |
            0 <= j < i ==> !seq![13u8, 10u8].is_prefix_of(#[trigger] head.skip(j)))
        implies r.headers == head.skip(i + 2) by {
        text::first_at_is_leftmost(head, seq![13u8, 10u8], 0, i);
    }
    if forall|j: int|
        0 <= j <= head.len() ==> !seq![13u8, 10u8].is_prefix_of(#[trigger] head.skip(j)) {
        text::first_at_is_nowhere(head, seq![13u8, 10u8], 0);
    }
}

/// There is no request without an empty line, in a head that is not UTF-8, or whose first line has
/// fewer than two words.
pub proof fn no_request_without_head_and_words(
    buffer: Seq<u8>,
    whole: Seq<u8>,
    head: Seq<u8>,
    lead: Seq<char>,
    word: Seq<char>,
    trail: Seq<char>,
    more: Seq<char>,
    body: Seq<u8>,
)
    requires
        whole == head + seq![13u8, 10u8, 13u8, 10u8] + body,
        forall|j: int|
            0 <= j < head.len() ==> !seq![13u8, 10u8, 13u8, 10u8].is_prefix_of(
                #[trigger] whole.skip(j),
            ),
        forall|i: int| 0 <= i < lead.len() ==> text::is_white(#[trigger] lead[i]) && lead[i] != '\n',
        forall|i: int| 0 <= i < word.len() ==> !text::is_white(#[trigger] word[i]),
        forall|i: int|
            0 <= i < trail.len() ==> text::is_white(#[trigger] trail[i]) && trail[i] != '\n',
        more.len() > 0 ==> more[0] == '\n',
    ensures
        (forall|j: int|
            0 <= j <= buffer.len() ==> !seq![13u8, 10u8, 13u8, 10u8].is_prefix_of(
                #[trigger] buffer.skip(j),
            )) ==> request_in(buffer) is None,
        !vstd::utf8::valid_utf8(head) ==> request_in(whole) is None,
        head == vstd::utf8::encode_utf8(lead + word + trail + more) ==> request_in(whole) is None,
{
    let end = seq![13u8, 10u8, 13u8, 10u8];
    if forall|j: int| 0 <= j <= buffer.len() ==> !end.is_prefix_of(#[trigger] buffer.skip(j)) {
        text::first_at_is_nowhere(buffer, end, 0);
    }
    head_ends_at(whole, head, body);
    let s = lead + word + trail + more;
    if head == vstd::utf8::encode_utf8(s) {
        vstd::utf8::encode_utf8_valid_utf8(s);
        vstd::utf8::encode_utf8_decode_utf8(s);
        assert(text::is_white('\n') && text::is_white('\r'));
        let words = lead + word + trail;
        let line = first_line(s);
        let n = words.len() as int;
        assert(!words.contains('\n')) by {
            if words.contains('\n') {
                let i = choose|i: int| 0 <= i < words.len() && words[i] == '\n';
                if i < lead.len() {
                    assert(lead[i] == '\n');
                } else if i < lead.len() + word.len() {
                    assert(word[i - lead.len()] == '\n');
                } else {
                    assert(trail[i - lead.len() - word.len()] == '\n');
                }
            }
        }
        line_of_words(words, more);
        assert forall|i: int| 0 <= i < line.len() implies line[i] == s[i] by {}
        let a = lead.len() as int;
        let b = a + word.len();
        assert forall|i: int| 0 <= i < a && i < line.len() implies text::is_white(line[i]) by {
            assert(line[i] == lead[i]);
        }
        assert forall|i: int| a <= i < b && i < line.len() implies !text::is_white(line[i]) by {
            assert(line[i] == word[i - a]);
        }
        assert forall|i: int| b <= i < line.len() implies text::is_white(line[i]) by {
            assert(line[i] == trail[i - b]);
        }
        let l = line.len() as int;
        if word.len() == 0 {
            text::word_is_found(line, 0, l, l);
        } else {
            if n > 0 && trail.len() == 0 {
                assert(words[n - 1] == word[word.len() - 1]);
            }
            assert(l >= b);
            text::word_is_found(line, 0, a, b);
            text::word_is_found(line, b, l, l);
        }
    }
}

/// The first line of a text of which a line feed, or nothing, follows `words`.
proof fn line_of_words(words: Seq<char>, more: Seq<char>)
    requires
        !words.contains('\n'),
        more.len() > 0 ==> more[0] == '\n',
    ensures
        ({
            let n = words.len() as int;
            let line = first_line(words + more);
            &&& line.len() == n || line.len() == n - 1 && words[n - 1] == '\r'
            &&& line == (words + more).take(line.len() as int)
        }),
{
    let s = words + more;
    let n = words.len() as int;
    let pat = seq!['\n'];
    assert forall|j: int| 0 <= j < n implies !text::occurs_at(s, pat, j) by {
        assert(s.subrange(j, j + 1)[0] == words[j]);
        assert(pat[0] == '\n');
        assert(words.contains(words[j]));
    }
    if more.len() > 0 {
        assert(s[n] == '\n');
        assert(s.subrange(n, n + 1) =~= pat);
        text::first_at_is(s, pat, 0, n);
        if n > 0 {
            assert(s[n - 1] == words[n - 1]);
        }
    } else {
        assert(s =~= words);
        text::first_at_is_first(s, pat, 0);
        assert(s.take(n) =~= s);
    }
}

} // verus!
