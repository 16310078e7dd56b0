use quicklan::http::{
    request_line,
    avatar_content_type, avatar_head, body_text, json_post, json_response, manifest_request,
    parse_lan_request, response_body, LanRoute, lan_status, LanOutcome};

#[test]
fn requests_are_routed() {
    let q = parse_lan_request("GET /manifest HTTP/1.1\r\nHost: x\r\n\r\n").unwrap();
    assert_eq!(q.route, LanRoute::Manifest);
    assert_eq!(q.body, "");

    let q = parse_lan_request("GET /avatars/abc123?v=2 HTTP/1.1\r\n\r\n").unwrap();
    assert_eq!(q.route, LanRoute::Avatar);
    assert_eq!(q.target, "abc123");

    let q = parse_lan_request("GET /shares/s-1/versions/3 HTTP/1.1\r\n\r\n").unwrap();
    assert_eq!(q.route, LanRoute::ShareVersion);
    assert_eq!(q.target, "s-1");
    assert_eq!(q.version, 3);

    let q = parse_lan_request("GET /shares/s-1/versions/x HTTP/1.1\r\n\r\n").unwrap();
    assert_eq!(q.route, LanRoute::ShareVersion);
    assert_eq!(q.version, 0);

    let q = parse_lan_request("GET /shares/s-1/v/3 HTTP/1.1\r\n\r\n").unwrap();
    assert_eq!(q.route, LanRoute::NotFound);

    let q = parse_lan_request("POST /games/gomoku/move HTTP/1.1\r\nContent-Length: 2\r\n\r\n{}").unwrap();
    assert_eq!(q.route, LanRoute::GomokuMove);
    assert_eq!(q.body, "{}");

    let q = parse_lan_request("POST /chat/messages HTTP/1.1\n\n{\"a\":1}").unwrap();
    assert_eq!(q.route, LanRoute::ChatMessages);
    assert_eq!(q.body, "{\"a\":1}");

    let q = parse_lan_request("DELETE /manifest HTTP/1.1\r\n\r\n").unwrap();
    assert_eq!(q.route, LanRoute::NotFound);

    assert!(parse_lan_request("GARBAGE\r\n\r\n").is_none());
    assert!(parse_lan_request("").is_none());
}

#[test]
fn bodies_sit_after_the_blank_line() {
    assert_eq!(body_text("h\r\n\r\nbody\r\n\r\nmore"), "body");
    assert_eq!(body_text("h\n\nbody"), "body");
    assert_eq!(body_text("no body"), "");
    assert_eq!(response_body("HTTP/1.1 200 OK\r\n\r\n[1]").unwrap(), "[1]");
    assert_eq!(response_body("HTTP/1.1 200 OK").unwrap_err(), "manifest 响应无正文");
}

#[test]
fn answers_and_requests_are_written_out() {
    assert_eq!(
        json_response(404, "{\"error\":\"not_found\"}"),
        "HTTP/1.1 404 Not Found\r\nContent-Type: application/json; charset=utf-8\r\nContent-Length: 21\r\nConnection: close\r\n\r\n{\"error\":\"not_found\"}"
    );
    assert_eq!(
        json_response(202, "好"),
        "HTTP/1.1 202 Accepted\r\nContent-Type: application/json; charset=utf-8\r\nContent-Length: 3\r\nConnection: close\r\n\r\n好"
    );
    assert!(json_response(500, "").starts_with("HTTP/1.1 500 OK\r\n"));
    assert_eq!(
        manifest_request("10.0.0.2", 45457),
        "GET /manifest HTTP/1.1\r\nHost: 10.0.0.2:45457\r\nConnection: close\r\n\r\n"
    );
    assert_eq!(
        json_post("/watch/sync", "10.0.0.2", 45457, "application/json", "{}"),
        "POST /watch/sync HTTP/1.1\r\nHost: 10.0.0.2:45457\r\nContent-Type: application/json\r\nContent-Length: 2\r\nConnection: close\r\n\r\n{}"
    );
    assert_eq!(avatar_content_type("PNG"), "image/png");
    assert_eq!(avatar_content_type("webp"), "image/webp");
    assert_eq!(avatar_content_type("jpeg"), "image/jpeg");
    assert_eq!(
        avatar_head("image/png", 10),
        "HTTP/1.1 200 OK\r\nContent-Type: image/png\r\nContent-Length: 10\r\nCache-Control: max-age=86400\r\nConnection: close\r\n\r\n"
    );
}

#[test]
fn request_lines_give_method_and_path() {
    assert_eq!(
        request_line("POST /send HTTP/1.1\r\nHost: x\r\n\r\n{}"),
        Some(("POST".to_string(), "/send".to_string()))
    );
    assert_eq!(request_line("  GET   /health  \n"), Some(("GET".to_string(), "/health".to_string())));
    assert_eq!(request_line("GET\r\n/health"), None);
    assert_eq!(request_line(""), None);
}

#[test]
fn lan_answers_carry_their_status() {
    assert_eq!(lan_status(LanOutcome::Accepted), 202);
    assert_eq!(lan_status(LanOutcome::Answered), 200);
    assert_eq!(lan_status(LanOutcome::Missing), 404);
    assert_eq!(lan_status(LanOutcome::Unreadable), 400);
}
