use wifimanager::http::{parse_http_request, HttpRequest};
use wifimanager::update::{
    content_length, find_length, parse_query, parse_update_request, UpdateRequest,
};

#[test]
fn size_and_checksum_are_read_from_the_query() {
    assert_eq!(parse_query("/update?size=10&crc=20"), Some((10, 20)));
    assert_eq!(parse_query("/update?a=b&size=10&c&crc=20&size=1&crc=2"), Some((10, 20)));
    assert_eq!(parse_query("/update?size=4294967295&crc=0"), Some((u32::MAX, 0)));
    assert_eq!(parse_query("/update?size=+1&crc=\u{2003}2\u{2003}"), Some((1, 2)));
    assert_eq!(parse_query("?size=1&crc=2?size=3&crc=4"), Some((1, 2)));
    assert_eq!(parse_query("/update?size=1=9&crc=2=8"), Some((1, 2)));
}

#[test]
fn no_query_without_both_numbers_in_order() {
    for path in [
        "/update",
        "/update?",
        "/update?size=1",
        "/update?crc=2",
        "/update?crc=2&size=1",
        "/update?size=&crc=2",
        "/update?size=1&crc=",
        "/update?size=x&crc=2",
        "/update?size=-1&crc=2",
        "/update?size=4294967296&crc=2",
        "/update?size=1&crc=4294967296",
        "/update?Size=1&crc=2",
        "/update?size=x&size=1&crc=2",
        "/update?x?size=1&crc=2",
    ] {
        assert_eq!(parse_query(path), None, "{}", path);
    }
}

#[test]
fn query_numbers_are_read_back() {
    for (size, crc) in [(0, 0), (1, u32::MAX), (1048576, 3735928559), (u32::MAX, 7)] {
        let path = format!("/update?size={}&crc={}", size, crc);
        assert_eq!(parse_query(&path), Some((size, crc)));
    }
}

#[test]
fn the_length_is_read_from_the_headers() {
    assert_eq!(content_length(b"Content-Length: 12"), Some(12));
    assert_eq!(content_length(b"Host: x\r\ncontent-length:  12 \r\nA: b"), Some(12));
    assert_eq!(content_length(b"CONTENT-LENGTH: 1\r\nContent-Length: 2"), Some(1));
    assert_eq!(content_length(b"POST /update x\r\nContent-Length: 0"), Some(0));
    assert_eq!(
        content_length("Content-Length: 18446744073709551615".as_bytes()),
        Some(18446744073709551615)
    );
}

#[test]
fn no_length_where_none_is_announced() {
    for headers in [
        "",
        "Host: x",
        "Content-Length:12",
        "Content-Length",
        "Content-Length: ",
        "Content-Length: 1: 2",
        "Content-Length: 18446744073709551616",
        "Content-Length: x\r\nContent-Length: 1",
        " Content-Length: 1",
    ] {
        assert_eq!(content_length(headers.as_bytes()), None, "{}", headers);
    }
    assert_eq!(content_length(b"Content-Length: 1\r\nA: \xff"), None);
}

#[test]
fn header_names_that_only_resemble_are_passed_over() {
    assert_eq!(content_length("Content\u{2010}Length: 1".as_bytes()), None);
    assert_eq!(content_length("\u{149}: 1\r\ncOnTeNt-lEnGtH: 5".as_bytes()), Some(5));
}

#[test]
fn lengths_are_read_back() {
    for n in [0usize, 1, 4096, usize::MAX] {
        let headers = format!("Host: x\r\ncontent-Length: {}\r\nAccept: */*", n);
        assert_eq!(content_length(headers.as_bytes()), Some(n));
    }
}

#[test]
fn the_length_is_found_among_names_and_values() {
    let keys = vec![String::from("HOST"), String::from("CONTENT-LENGTH")];
    assert_eq!(find_length(&keys, &vec!["1", " 7 "]), Some(7));
    assert_eq!(find_length(&keys, &vec!["1", "seven"]), None);
    assert_eq!(find_length(&vec![String::from("content-length")], &vec!["7"]), None);
}

#[test]
fn an_update_needs_query_and_length() {
    let buffer = b"POST /update?size=5&crc=6 HTTP/1.1\r\nContent-Length: 5\r\n\r\nabc";
    let request = parse_http_request(buffer).unwrap();
    assert_eq!(
        parse_update_request(&request),
        Some(UpdateRequest { size: 5, crc: 6, content_length: 5 })
    );
    let no_length =
        HttpRequest { method: "POST", path: "/update?size=5&crc=6", headers: b"", body: b"" };
    assert_eq!(parse_update_request(&no_length), None);
    let no_query = HttpRequest {
        method: "POST",
        path: "/update",
        headers: b"Content-Length: 5",
        body: b"",
    };
    assert_eq!(parse_update_request(&no_query), None);
}
