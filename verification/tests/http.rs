use wifimanager::header::response_head;
use wifimanager::http::{
    dispatch, handle_request, head_is_complete, parse_http_request, update_failed_response,
    update_panel_html, wants_scan_result, wants_update, Dispatch, HttpRequest, Site,
};

const SITE: Site<'static> = Site {
    wifi_panel: "<h1>panel</h1>",
    update_panel: "<h1>update</h1>",
    scan_result: Some("home\noffice"),
};

fn request<'a>(method: &'a str, path: &'a str, body: &'a [u8]) -> HttpRequest<'a> {
    HttpRequest { method, path, headers: b"", body }
}

#[test]
fn reads_a_request_with_headers_and_body() {
    let r = parse_http_request(
        b"POST /setup HTTP/1.1\r\nHost: x\r\nContent-Length: 2\r\n\r\n{}",
    )
    .unwrap();
    assert_eq!(r.method, "POST");
    assert_eq!(r.path, "/setup");
    assert_eq!(r.headers, b"Host: x\r\nContent-Length: 2");
    assert_eq!(r.body, b"{}");
}

#[test]
fn a_request_without_headers_has_its_line_as_headers() {
    let r = parse_http_request(b"GET / HTTP/1.1\r\n\r\n").unwrap();
    assert_eq!((r.method, r.path), ("GET", "/"));
    assert_eq!(r.headers, b"GET / HTTP/1.1");
    assert_eq!(r.body, b"");
}

#[test]
fn a_request_may_lack_the_version_and_hold_any_white_space() {
    let r = parse_http_request(b"  GET\t\x0b/list\r\nA: b\r\n\r\n").unwrap();
    assert_eq!((r.method, r.path), ("GET", "/list"));
    assert_eq!(r.headers, b"A: b");
    let r = parse_http_request("G\u{d6}T\u{2003}/\u{fc} x\r\n\r\n".as_bytes()).unwrap();
    assert_eq!((r.method, r.path), ("G\u{d6}T", "/\u{fc}"));
}

#[test]
fn a_lone_line_feed_ends_the_first_line_but_not_the_headers() {
    let r = parse_http_request(b"GET / x\nA: b\r\nC: d\r\n\r\n").unwrap();
    assert_eq!((r.method, r.path), ("GET", "/"));
    assert_eq!(r.headers, b"C: d");
    assert!(parse_http_request(b"GET\n/ x\r\n\r\n").is_none());
}

#[test]
fn no_request_where_something_is_missing() {
    assert!(parse_http_request(b"").is_none());
    assert!(parse_http_request(b"GET / HTTP/1.1\r\nHost: x\r\n").is_none());
    assert!(parse_http_request(b"\r\n\r\n").is_none());
    assert!(parse_http_request(b"GET\r\n\r\n").is_none());
    assert!(parse_http_request(b"   \r\n\r\n").is_none());
    assert!(parse_http_request(b"GET /\xff HTTP/1.1\r\n\r\n").is_none());
    assert!(parse_http_request(b"GET / HTTP/1.1\r\n\r\n\xff").is_some());
}

#[test]
fn the_first_empty_line_ends_the_head() {
    let r = parse_http_request(b"GET / x\r\nA: b\r\n\r\nC: d\r\n\r\n").unwrap();
    assert_eq!(r.headers, b"A: b");
    assert_eq!(r.body, b"C: d\r\n\r\n");
    assert!(head_is_complete(b"x\r\n\r\ny"));
    assert!(!head_is_complete(b"x\r\n\r"));
}

#[test]
fn the_root_shows_the_panel() {
    let a = handle_request(&request("GET", "/", b""), &SITE);
    assert_eq!(a.response.status, "200 OK");
    assert_eq!(a.response.content_type, "text/html");
    assert_eq!(a.response.body, b"<h1>panel</h1>");
    assert!(a.conn_info.is_none());
}

#[test]
fn the_update_page_is_shown() {
    let a = handle_request(&request("GET", "/update", b""), &SITE);
    assert_eq!(a.response.content_type, "text/html");
    assert_eq!(a.response.body, b"<h1>update</h1>");
}

#[test]
fn the_scan_result_is_listed() {
    let a = handle_request(&request("GET", "/list", b""), &SITE);
    assert_eq!(a.response.content_type, "text/plain");
    assert_eq!(a.response.body, b"home\noffice");
    let busy = Site { scan_result: None, ..SITE };
    let a = handle_request(&request("GET", "/list", b""), &busy);
    assert_eq!(a.response.status, "200 OK");
    assert_eq!(a.response.body, b"");
}

#[test]
fn only_the_list_asks_for_the_scan_result() {
    assert!(wants_scan_result(&request("GET", "/list", b"")));
    let busy = Site { scan_result: None, ..SITE };
    for (method, path) in [("POST", "/list"), ("GET", "/"), ("GET", "/lists"), ("POST", "/setup")] {
        let r = request(method, path, b"");
        assert!(!wants_scan_result(&r));
        let with = handle_request(&r, &SITE);
        let without = handle_request(&r, &busy);
        assert_eq!(with.response.status, without.response.status);
        assert_eq!(with.response.body, without.response.body);
    }
}

#[test]
fn a_setup_hands_over_its_body() {
    let a = handle_request(&request("POST", "/setup", b"{\"ssid\":\"x\"}"), &SITE);
    assert_eq!(a.conn_info, Some(b"{\"ssid\":\"x\"}".to_vec()));
    assert_eq!(a.response.status, "200 OK");
    assert_eq!(a.response.content_type, "text/plain");
    assert_eq!(a.response.body, b".");
}

#[test]
fn anything_else_is_not_found() {
    for (method, path) in [
        ("GET", "/setup"),
        ("POST", "/"),
        ("post", "/setup"),
        ("GET", "/list?"),
        ("PUT", "/update"),
        ("", ""),
    ] {
        let a = handle_request(&request(method, path, b"x"), &SITE);
        assert_eq!(a.response.status, "404 Not Found");
        assert_eq!(a.response.content_type, "text/plain");
        assert_eq!(a.response.body, b"Not Found");
        assert!(a.conn_info.is_none());
    }
}

#[test]
fn updates_are_told_from_other_requests() {
    assert!(matches!(
        dispatch(b"POST /update?size=1&crc=2 HTTP/1.1\r\nA: b\r\n\r\n"),
        Dispatch::Update(_)
    ));
    assert!(matches!(dispatch(b"post /updates x\r\n\r\n"), Dispatch::Update(_)));
    assert!(matches!(dispatch(b"GET /update x\r\n\r\n"), Dispatch::Serve(_)));
    assert!(matches!(dispatch(b"POST /setup x\r\n\r\n"), Dispatch::Serve(_)));
    assert!(matches!(dispatch(b"POST /Update x\r\n\r\n"), Dispatch::Serve(_)));
    assert!(matches!(dispatch(b"nonsense"), Dispatch::Ignore));
}

#[test]
fn methods_are_compared_in_unicode_upper_case() {
    // The long s is an S in upper case.
    assert!(matches!(
        dispatch("po\u{17f}t /update x\r\n\r\n".as_bytes()),
        Dispatch::Update(_)
    ));
    assert!(wants_update("/update", "POST"));
    assert!(!wants_update("/update", "post"));
    assert!(!wants_update("/setup", "POST"));
}

#[test]
fn the_update_page_may_be_missing() {
    assert_eq!(update_panel_html(Some("x")), "x");
    assert_eq!(
        update_panel_html(None),
        "<html><body><p>OTA updates disabled</p></body></html>"
    );
}

#[test]
fn a_failed_update_is_an_internal_error() {
    let r = update_failed_response();
    assert_eq!(r.status, "500 Internal Server Error");
    assert_eq!(r.content_type, "text/plain");
    assert_eq!(r.body, b"Update handler failed");
}

#[test]
fn a_head_names_status_type_and_length() {
    assert_eq!(
        response_head("200 OK", "text/html", 1234),
        b"HTTP/1.1 200 OK\r\nContent-Type: text/html; charset=utf-8\r\nContent-Length: 1234\r\nConnection: close\r\n\r\n".to_vec()
    );
}

#[test]
fn a_head_holds_the_pieces_that_fit() {
    for n in 0..200 {
        let status = "s".repeat(n);
        let pieces = [
            "HTTP/1.1 ",
            status.as_str(),
            "\r\nContent-Type: ",
            "text/plain",
            "; charset=utf-8\r\nContent-Length: ",
            "12",
            "\r\nConnection: close\r\n\r\n",
        ];
        let mut expected = String::new();
        for piece in pieces {
            if expected.len() + piece.len() > 192 {
                break;
            }
            expected.push_str(piece);
        }
        assert_eq!(response_head(&status, "text/plain", 12), expected.into_bytes());
    }
}

#[test]
fn a_head_stops_at_the_piece_that_does_not_fit() {
    assert_eq!(response_head(&"s".repeat(184), "t", 0), b"HTTP/1.1 ".to_vec());
    let whole = response_head(&"s".repeat(90), "t", usize::MAX);
    assert!(whole.ends_with(b"\r\n\r\n"));
    assert!(whole.len() <= 192);
}

#[test]
fn every_answer_has_a_complete_head() {
    for (method, path) in [("GET", "/"), ("GET", "/list"), ("POST", "/setup"), ("GET", "/x")] {
        let a = handle_request(&request(method, path, b""), &SITE);
        let head = response_head(a.response.status, a.response.content_type, usize::MAX);
        assert!(head.ends_with(b"Connection: close\r\n\r\n"));
    }
}
