use naqix_remote_support::signalling::{error_response, is_offer_request, offer_body, ok_response};

#[test]
fn offers_are_posts_to_offer() {
    assert!(is_offer_request("POST /offer HTTP/1.1\r\n\r\n{}"));
    assert!(!is_offer_request("GET / HTTP/1.1\r\n\r\n"));
    assert!(!is_offer_request("POST /offe"));
}

#[test]
fn the_body_follows_the_blank_line() {
    let req = "POST /offer HTTP/1.1\r\nHost: x\r\n\r\n{\"type\":\"offer\"}";
    assert_eq!(offer_body(req), "{\"type\":\"offer\"}");
}

#[test]
fn the_body_stops_at_the_next_blank_line() {
    assert_eq!(offer_body("a\r\n\r\nb\r\n\r\nc"), "b");
    assert_eq!(offer_body("a\r\n\r\n\r\n"), "\r\n");
}

#[test]
fn no_blank_line_no_body() {
    assert_eq!(offer_body("POST /offer HTTP/1.1\r\n"), "");
    assert_eq!(offer_body(""), "");
    assert_eq!(offer_body("\r\n\r\n"), "");
}

#[test]
fn replies_carry_their_byte_length() {
    assert_eq!(
        ok_response("application/json", "{}"),
        "HTTP/1.1 200 OK\r\ncontent-type: application/json\r\ncontent-length: 2\r\n\r\n{}"
    );
    assert_eq!(
        ok_response("text/html", "é"),
        "HTTP/1.1 200 OK\r\ncontent-type: text/html\r\ncontent-length: 2\r\n\r\né"
    );
    assert_eq!(
        error_response(),
        "HTTP/1.1 500 Internal Server Error\r\ncontent-length: 0\r\n\r\n"
    );
}
