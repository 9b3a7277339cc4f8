use http_server::request::{route, sent_value, starts_with, Route};

#[test]
fn routes_by_request_line() {
    assert_eq!(route(b"GET /talkingdrums/ HTTP/1.1\r\nHost: x\r\n"), Route::Home);
    assert_eq!(route(b"GET /talkingdrums/status HTTP/1.1\r\n"), Route::Status);
    assert_eq!(route(b"GET /talkingdrums/image/send/12 HTTP/1.1\r\n"), Route::SendPixels);
    assert_eq!(route(b"GET /talkingdrums/image/original/ HTTP/1.1\r\n"), Route::ImageOriginal);
    assert_eq!(route(b"GET /talkingdrums/image/current/ HTTP/1.1\r\n"), Route::ImageCurrent);
    assert_eq!(route(b"GET /talkingdrums/image/get/next/ HTTP/1.1\r\n"), Route::GetPixels);
    assert_eq!(route(b"GET /talkingdrums/image/start/ HTTP/1.1\r\n"), Route::Start);
    assert_eq!(route(b"GET /talkingdrums/image/stop/ HTTP/1.1\r\n"), Route::Stop);
    assert_eq!(route(b"GET /talkingdrums/image/reset/ HTTP/1.1\r\n"), Route::Reset);
}

#[test]
fn unknown_requests_are_not_found() {
    assert_eq!(route(b"GET /talkingdrums/image/update/ HTTP/1.1\r\n"), Route::NotFound);
    assert_eq!(route(b"GET /talkingdrums/ HTTP/1.0\r\n"), Route::NotFound);
    assert_eq!(route(b""), Route::NotFound);
    assert_eq!(route(b"POST /talkingdrums/ HTTP/1.1\r\n"), Route::NotFound);
}

#[test]
fn starts_with_checks_prefix() {
    assert!(starts_with(b"abcdef", b"abc"));
    assert!(starts_with(b"abc", b""));
    assert!(!starts_with(b"ab", b"abc"));
    assert!(!starts_with(b"abd", b"abc"));
}

#[test]
fn sent_value_takes_up_to_three_digits() {
    assert_eq!(
        sent_value("GET /talkingdrums/image/send/123 HTTP/1.1\r\n"),
        Some(String::from("123"))
    );
    assert_eq!(sent_value("GET /talkingdrums/image/send/98765 "), Some(String::from("987")));
    assert_eq!(sent_value("GET /talkingdrums/image/send/x "), None);
    assert_eq!(sent_value("send/a send/7"), Some(String::from("7")));
}

use http_server::color_table::Color;
use http_server::helper::Bitmap;
use http_server::request::{reply_header, respond, Reply};
use http_server::state::{State, Timestamp};

fn relay_state() -> State {
    let pixels = (0..4u8).map(|k| Color(k, k, k)).collect();
    let img = Bitmap { width: 2, height: 2, pixels };
    State::new("image.png", &img, Timestamp { secs: 0, nanos: 0 })
}

#[test]
fn respond_changes_state_by_route() {
    let mut s = relay_state();
    assert_eq!(respond(b"GET /talkingdrums/image/send/5 HTTP/1.1\r\n", &mut s), Reply::HelloPage);
    assert_eq!((s.cnt_in, s.cnt_out), (1, 0));
    assert_eq!(respond(b"GET /talkingdrums/image/get/next/ HTTP/1.1\r\n", &mut s), Reply::StateJson);
    assert_eq!((s.cnt_in, s.cnt_out), (1, 1));
    assert_eq!(respond(b"GET /talkingdrums/image/stop/ HTTP/1.1\r\n", &mut s), Reply::StateJson);
    assert!(!s.is_running);
    assert_eq!(respond(b"GET /talkingdrums/image/start/ HTTP/1.1\r\n", &mut s), Reply::StateJson);
    assert!(s.is_running);
    assert_eq!(respond(b"GET /talkingdrums/image/reset/ HTTP/1.1\r\n", &mut s), Reply::StateJson);
    assert_eq!((s.cnt_in, s.cnt_out), (0, 0));
}

#[test]
fn respond_leaves_state_for_other_routes() {
    let mut s = relay_state();
    assert_eq!(respond(b"GET /talkingdrums/ HTTP/1.1\r\n", &mut s), Reply::HelloPage);
    assert_eq!(respond(b"GET /talkingdrums/status HTTP/1.1\r\n", &mut s), Reply::StateJson);
    assert_eq!(respond(b"GET /talkingdrums/image/original/ HTTP/1.1\r\n", &mut s), Reply::OriginalImage);
    assert_eq!(respond(b"GET /talkingdrums/image/current/ HTTP/1.1\r\n", &mut s), Reply::CurrentImage);
    assert_eq!(respond(b"GET /nothing HTTP/1.1\r\n", &mut s), Reply::NotFoundPage);
    assert_eq!((s.cnt_in, s.cnt_out), (0, 0));
    assert!(s.is_running);
}

#[test]
fn reply_headers() {
    assert_eq!(reply_header(Reply::HelloPage, 10), b"HTTP/1.1 200 OK\r\n\r\n".to_vec());
    assert_eq!(
        reply_header(Reply::StateJson, 10),
        b"HTTP/1.1 200 OK\r\n\r\nContent-Type:application/json;charset=UTF-8\r\n\r\n".to_vec()
    );
    assert_eq!(
        reply_header(Reply::CurrentImage, 42),
        b"HTTP/1.1 200 OK\r\n\r\nContent-Length:42\r\nContent-Type:image/png\r\n\r\n".to_vec()
    );
    assert_eq!(reply_header(Reply::NotFoundPage, 0), b"HTTP/1/1 404 NOT FOUND\r\n\r\n".to_vec());
}
