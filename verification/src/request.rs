use vstd::prelude::*;
use vstd::string::*;
use vstd::utf8::is_ascii_chars_encode_utf8;
use crate::helper::{
    content_length_prefix,
    crlf,
    decimal,
    json_content_type,
    make_image_header,
    make_json_header,
    make_not_found_header,
    make_ok_header,
    not_found_status,
    ok_status,
    png_content_type,
};
use crate::state::{State, StateView};

verus! {

/// What a request asks for, by the start of its request line.
#[derive(Debug, PartialEq, Eq, Structural, Copy, Clone)]
pub enum Route {
    Home,
    Status,
    SendPixels,
    ImageOriginal,
    ImageCurrent,
    GetPixels,
    Start,
    Stop,
    Reset,
    NotFound,
}

/// Whether `bytes` starts with `prefix`.
pub open spec fn has_prefix(bytes: Seq<u8>, prefix: Seq<u8>) -> bool {
    prefix.len() <= bytes.len() && bytes.take(prefix.len() as int) == prefix
}

/// Whether `buffer` starts with `prefix`.
pub fn starts_with(buffer: &[u8], prefix: &[u8]) -> (res: bool)
    ensures
        res == has_prefix(buffer@, prefix@),
{
    if prefix.len() > buffer.len() {
        return false;
    }
    let mut i: usize = 0;
    while i < prefix.len()
        invariant
            prefix@.len() <= buffer@.len(),
            i <= prefix@.len(),
            forall|j: int| 0 <= j < i ==> buffer@[j] == prefix@[j],
        decreases prefix@.len() - i,
    {
        if buffer[i] != prefix[i] {
            assert(buffer@.take(prefix@.len() as int)[i as int] != prefix@[i as int]);
            return false;
        }
        i = i + 1;
    }
    assert(buffer@.take(prefix@.len() as int) =~= prefix@);
    true
}

/// The request line start that selects each route; none selects "not found".
pub open spec fn request_line(r: Route) -> Seq<u8> {
    match r {
        Route::Home => "GET /talkingdrums/ HTTP/1.1\r\n".spec_bytes(),
        Route::Status => "GET /talkingdrums/status HTTP/1.1\r\n".spec_bytes(),
        Route::SendPixels => "GET /talkingdrums/image/send/".spec_bytes(),
        Route::ImageOriginal => "GET /talkingdrums/image/original/ HTTP/1.1\r\n".spec_bytes(),
        Route::ImageCurrent => "GET /talkingdrums/image/current/ HTTP/1.1\r\n".spec_bytes(),
        Route::GetPixels => "GET /talkingdrums/image/get/next/ HTTP/1.1\r\n".spec_bytes(),
        Route::Start => "GET /talkingdrums/image/start/ HTTP/1.1\r\n".spec_bytes(),
        Route::Stop => "GET /talkingdrums/image/stop/ HTTP/1.1\r\n".spec_bytes(),
        Route::Reset => "GET /talkingdrums/image/reset/ HTTP/1.1\r\n".spec_bytes(),
        Route::NotFound => Seq::empty(),
    }
}

/// The route of a request: the first of these request line starts that the
/// request begins with, in this order; any other request is not found.
pub open spec fn route_of(request: Seq<u8>) -> Route {
    if has_prefix(request, request_line(Route::Home)) {
        Route::Home
    } else if has_prefix(request, request_line(Route::Status)) {
        Route::Status
    } else if has_prefix(request, request_line(Route::SendPixels)) {
        Route::SendPixels
    } else if has_prefix(request, request_line(Route::ImageOriginal)) {
        Route::ImageOriginal
    } else if has_prefix(request, request_line(Route::ImageCurrent)) {
        Route::ImageCurrent
    } else if has_prefix(request, request_line(Route::GetPixels)) {
        Route::GetPixels
    } else if has_prefix(request, request_line(Route::Start)) {
        Route::Start
    } else if has_prefix(request, request_line(Route::Stop)) {
        Route::Stop
    } else if has_prefix(request, request_line(Route::Reset)) {
        Route::Reset
    } else {
        Route::NotFound
    }
}

/// The bytes at 18, 24, 25 and 26 of each request line start.
spec fn request_line_marks(r: Route) -> (u8, u8, u8, u8) {
    match r {
        Route::Home => (32u8, 49u8, 46u8, 49u8),
        Route::Status => (115u8, 32u8, 72u8, 84u8),
        Route::SendPixels => (105u8, 115u8, 101u8, 110u8),
        Route::ImageOriginal => (105u8, 111u8, 114u8, 105u8),
        Route::ImageCurrent => (105u8, 99u8, 117u8, 114u8),
        Route::GetPixels => (105u8, 103u8, 101u8, 116u8),
        Route::Start => (105u8, 115u8, 116u8, 97u8),
        Route::Stop => (105u8, 115u8, 116u8, 111u8),
        Route::Reset => (105u8, 114u8, 101u8, 115u8),
        Route::NotFound => (0u8, 0u8, 0u8, 0u8),
    }
}

/// Each request line start is at least 29 bytes long, and any two differ in
/// one of the bytes at 18, 24, 25 and 26.
proof fn lemma_request_line_bytes(r: Route)
    requires
        r != Route::NotFound,
    ensures
        request_line(r).len() >= 29,
        request_line(r)[18] == request_line_marks(r).0,
        request_line(r)[24] == request_line_marks(r).1,
        request_line(r)[25] == request_line_marks(r).2,
        request_line(r)[26] == request_line_marks(r).3,
{
    reveal_strlit("GET /talkingdrums/ HTTP/1.1\r\n");
    is_ascii_chars_encode_utf8("GET /talkingdrums/ HTTP/1.1\r\n"@);
    assert(request_line(Route::Home).len() == 29);
    assert(request_line(Route::Home)[18] == 32u8 && request_line(Route::Home)[24] == 49u8
        && request_line(Route::Home)[25] == 46u8 && request_line(Route::Home)[26] == 49u8);
    reveal_strlit("GET /talkingdrums/status HTTP/1.1\r\n");
    is_ascii_chars_encode_utf8("GET /talkingdrums/status HTTP/1.1\r\n"@);
    assert(request_line(Route::Status).len() == 35);
    assert(request_line(Route::Status)[18] == 115u8 && request_line(Route::Status)[24] == 32u8
        && request_line(Route::Status)[25] == 72u8 && request_line(Route::Status)[26] == 84u8);
    reveal_strlit("GET /talkingdrums/image/send/");
    is_ascii_chars_encode_utf8("GET /talkingdrums/image/send/"@);
    assert(request_line(Route::SendPixels).len() == 29);
    assert(request_line(Route::SendPixels)[18] == 105u8 && request_line(Route::SendPixels)[24] == 115u8
        && request_line(Route::SendPixels)[25] == 101u8 && request_line(Route::SendPixels)[26] == 110u8);
    reveal_strlit("GET /talkingdrums/image/original/ HTTP/1.1\r\n");
    is_ascii_chars_encode_utf8("GET /talkingdrums/image/original/ HTTP/1.1\r\n"@);
    assert(request_line(Route::ImageOriginal).len() == 44);
    assert(request_line(Route::ImageOriginal)[18] == 105u8 && request_line(Route::ImageOriginal)[24] == 111u8
        && request_line(Route::ImageOriginal)[25] == 114u8 && request_line(Route::ImageOriginal)[26] == 105u8);
    reveal_strlit("GET /talkingdrums/image/current/ HTTP/1.1\r\n");
    is_ascii_chars_encode_utf8("GET /talkingdrums/image/current/ HTTP/1.1\r\n"@);
    assert(request_line(Route::ImageCurrent).len() == 43);
    assert(request_line(Route::ImageCurrent)[18] == 105u8 && request_line(Route::ImageCurrent)[24] == 99u8
        && request_line(Route::ImageCurrent)[25] == 117u8 && request_line(Route::ImageCurrent)[26] == 114u8);
    reveal_strlit("GET /talkingdrums/image/get/next/ HTTP/1.1\r\n");
    is_ascii_chars_encode_utf8("GET /talkingdrums/image/get/next/ HTTP/1.1\r\n"@);
    assert(request_line(Route::GetPixels).len() == 44);
    assert(request_line(Route::GetPixels)[18] == 105u8 && request_line(Route::GetPixels)[24] == 103u8
        && request_line(Route::GetPixels)[25] == 101u8 && request_line(Route::GetPixels)[26] == 116u8);
    reveal_strlit("GET /talkingdrums/image/start/ HTTP/1.1\r\n");
    is_ascii_chars_encode_utf8("GET /talkingdrums/image/start/ HTTP/1.1\r\n"@);
    assert(request_line(Route::Start).len() == 41);
    assert(request_line(Route::Start)[18] == 105u8 && request_line(Route::Start)[24] == 115u8
        && request_line(Route::Start)[25] == 116u8 && request_line(Route::Start)[26] == 97u8);
    reveal_strlit("GET /talkingdrums/image/stop/ HTTP/1.1\r\n");
    is_ascii_chars_encode_utf8("GET /talkingdrums/image/stop/ HTTP/1.1\r\n"@);
    assert(request_line(Route::Stop).len() == 40);
    assert(request_line(Route::Stop)[18] == 105u8 && request_line(Route::Stop)[24] == 115u8
        && request_line(Route::Stop)[25] == 116u8 && request_line(Route::Stop)[26] == 111u8);
    reveal_strlit("GET /talkingdrums/image/reset/ HTTP/1.1\r\n");
    is_ascii_chars_encode_utf8("GET /talkingdrums/image/reset/ HTTP/1.1\r\n"@);
    assert(request_line(Route::Reset).len() == 41);
    assert(request_line(Route::Reset)[18] == 105u8 && request_line(Route::Reset)[24] == 114u8
        && request_line(Route::Reset)[25] == 101u8 && request_line(Route::Reset)[26] == 115u8);
}

/// A request that begins with the request line start of a route takes that route.
proof fn lemma_route_of_line(request: Seq<u8>, k: Route)
    requires
        k != Route::NotFound,
        has_prefix(request, request_line(k)),
    ensures
        route_of(request) == k,
{
    lemma_request_line_bytes(k);
    let line = request_line(k);
    assert(request[18] == line[18] && request[24] == line[24] && request[25] == line[25]
        && request[26] == line[26]) by {
        assert(request.take(line.len() as int)[18] == request[18]);
        assert(request.take(line.len() as int)[24] == request[24]);
        assert(request.take(line.len() as int)[25] == request[25]);
        assert(request.take(line.len() as int)[26] == request[26]);
    }
    assert forall|r: Route| r != k && r != Route::NotFound implies !has_prefix(
        request,
        #[trigger] request_line(r),
    ) by {
        lemma_request_line_bytes(r);
        let other = request_line(r);
        if has_prefix(request, other) {
            assert(request.take(other.len() as int)[18] == request[18]);
            assert(request.take(other.len() as int)[24] == request[24]);
            assert(request.take(other.len() as int)[25] == request[25]);
            assert(request.take(other.len() as int)[26] == request[26]);
        }
    }
    assert(!has_prefix(request, request_line(Route::Home)) || k == Route::Home);
    assert(!has_prefix(request, request_line(Route::Status)) || k == Route::Status);
    assert(!has_prefix(request, request_line(Route::SendPixels)) || k == Route::SendPixels);
    assert(!has_prefix(request, request_line(Route::ImageOriginal)) || k == Route::ImageOriginal);
    assert(!has_prefix(request, request_line(Route::ImageCurrent)) || k == Route::ImageCurrent);
    assert(!has_prefix(request, request_line(Route::GetPixels)) || k == Route::GetPixels);
    assert(!has_prefix(request, request_line(Route::Start)) || k == Route::Start);
    assert(!has_prefix(request, request_line(Route::Stop)) || k == Route::Stop);
    assert(!has_prefix(request, request_line(Route::Reset)) || k == Route::Reset);
}

/// A request that begins with a route's request line start takes that route,
/// whatever follows the line (headers, padding).
pub proof fn law_route_of_request_line(k: Route, rest: Seq<u8>)
    requires
        k != Route::NotFound,
    ensures
        route_of(request_line(k) + rest) == k,
{
    let line = request_line(k);
    assert((line + rest).take(line.len() as int) =~= line);
    lemma_route_of_line(line + rest, k);
}

/// The route depends only on the start of the request: a request that takes a
/// route keeps it whatever bytes are appended to it.
pub proof fn law_route_depends_on_prefix(request: Seq<u8>, extra: Seq<u8>)
    requires
        route_of(request) != Route::NotFound,
    ensures
        route_of(request + extra) == route_of(request),
{
    let k = route_of(request);
    let line = request_line(k);
    assert(has_prefix(request, line));
    assert((request + extra).take(line.len() as int) =~= request.take(line.len() as int));
    lemma_route_of_line(request + extra, k);
}

/// The route that a request asks for.
pub fn route(request: &[u8]) -> (r: Route)
    ensures
        r == route_of(request@),
{
    if starts_with(request, "GET /talkingdrums/ HTTP/1.1\r\n".as_bytes()) {
        Route::Home
    } else if starts_with(request, "GET /talkingdrums/status HTTP/1.1\r\n".as_bytes()) {
        Route::Status
    } else if starts_with(request, "GET /talkingdrums/image/send/".as_bytes()) {
        Route::SendPixels
    } else if starts_with(request, "GET /talkingdrums/image/original/ HTTP/1.1\r\n".as_bytes()) {
        Route::ImageOriginal
    } else if starts_with(request, "GET /talkingdrums/image/current/ HTTP/1.1\r\n".as_bytes()) {
        Route::ImageCurrent
    } else if starts_with(request, "GET /talkingdrums/image/get/next/ HTTP/1.1\r\n".as_bytes()) {
        Route::GetPixels
    } else if starts_with(request, "GET /talkingdrums/image/start/ HTTP/1.1\r\n".as_bytes()) {
        Route::Start
    } else if starts_with(request, "GET /talkingdrums/image/stop/ HTTP/1.1\r\n".as_bytes()) {
        Route::Stop
    } else if starts_with(request, "GET /talkingdrums/image/reset/ HTTP/1.1\r\n".as_bytes()) {
        Route::Reset
    } else {
        Route::NotFound
    }
}

/// What the reply to a request carries after its header. The server reads
/// the bodies: the page "hello.html", the relay state as JSON, the file
/// "image.png", the file "current.png" (or "image.png" when that cannot be
/// read), and the page "404.html".
#[derive(Debug, PartialEq, Eq, Structural, Copy, Clone)]
pub enum Reply {
    HelloPage,
    StateJson,
    OriginalImage,
    CurrentImage,
    NotFoundPage,
}

/// The reply to each route.
pub open spec fn reply_for(r: Route) -> Reply {
    match r {
        Route::Home => Reply::HelloPage,
        Route::SendPixels => Reply::HelloPage,
        Route::Status => Reply::StateJson,
        Route::GetPixels => Reply::StateJson,
        Route::Start => Reply::StateJson,
        Route::Stop => Reply::StateJson,
        Route::Reset => Reply::StateJson,
        Route::ImageOriginal => Reply::OriginalImage,
        Route::ImageCurrent => Reply::CurrentImage,
        Route::NotFound => Reply::NotFoundPage,
    }
}

/// The relay state after a request on each route: a sent pixel counts one
/// byte in, a request for the next pixels counts one byte out, start, stop
/// and reset do what they say, and the other routes leave the state alone.
pub open spec fn next_state(r: Route, s: StateView) -> StateView {
    match r {
        Route::SendPixels => StateView { cnt_in: (s.cnt_in + 1) as usize, ..s },
        Route::GetPixels => StateView { cnt_out: (s.cnt_out + 1) as usize, ..s },
        Route::Start => StateView { is_running: true, ..s },
        Route::Stop => StateView { is_running: false, ..s },
        Route::Reset => StateView { cnt_in: 0, cnt_out: 0, ..s },
        _ => s,
    }
}

/// What each route does to the relay state, field by field: start sets the
/// state running and stop sets it stopped, a sent pixel counts one byte in, a
/// request for the next pixels counts one byte out, reset sets both counters
/// to zero, and nothing else changes.
pub proof fn law_next_state_effects(r: Route, s: StateView)
    requires
        r == Route::SendPixels ==> s.cnt_in < usize::MAX,
        r == Route::GetPixels ==> s.cnt_out < usize::MAX,
    ensures
        next_state(r, s).is_running == (if r == Route::Start {
            true
        } else if r == Route::Stop {
            false
        } else {
            s.is_running
        }),
        next_state(r, s).cnt_in == (if r == Route::SendPixels {
            s.cnt_in + 1
        } else if r == Route::Reset {
            0
        } else {
            s.cnt_in as int
        }),
        next_state(r, s).cnt_out == (if r == Route::GetPixels {
            s.cnt_out + 1
        } else if r == Route::Reset {
            0
        } else {
            s.cnt_out as int
        }),
        next_state(r, s).image_bytes == s.image_bytes,
        next_state(r, s).last_update == s.last_update,
        next_state(r, s).width == s.width,
        next_state(r, s).height == s.height,
        next_state(r, s).file_name == s.file_name,
{
}

/// Start, stop and reset settle the state: doing one twice is doing it once,
/// start after stop is start, and stop after start is stop.
pub proof fn law_start_stop_reset_settle(s: StateView)
    ensures
        next_state(Route::Start, next_state(Route::Start, s)) == next_state(Route::Start, s),
        next_state(Route::Stop, next_state(Route::Stop, s)) == next_state(Route::Stop, s),
        next_state(Route::Reset, next_state(Route::Reset, s)) == next_state(Route::Reset, s),
        next_state(Route::Start, next_state(Route::Stop, s)) == next_state(Route::Start, s),
        next_state(Route::Stop, next_state(Route::Start, s)) == next_state(Route::Stop, s),
        next_state(Route::Start, s).is_running,
        !next_state(Route::Stop, s).is_running,
{
}

/// Applies a request to the relay state and says what its reply carries.
pub fn respond(request: &[u8], state: &mut State) -> (reply: Reply)
    requires
        route_of(request@) == Route::SendPixels ==> old(state)@.cnt_in < usize::MAX,
        route_of(request@) == Route::GetPixels ==> old(state)@.cnt_out < usize::MAX,
    ensures
        final(state)@ == next_state(route_of(request@), old(state)@),
        reply == reply_for(route_of(request@)),
{
    match route(request) {
        Route::Home => Reply::HelloPage,
        Route::Status => Reply::StateJson,
        Route::SendPixels => {
            state.increment_in();
            Reply::HelloPage
        },
        Route::ImageOriginal => Reply::OriginalImage,
        Route::ImageCurrent => Reply::CurrentImage,
        Route::GetPixels => {
            state.increment_out();
            Reply::StateJson
        },
        Route::Start => {
            state.start();
            Reply::StateJson
        },
        Route::Stop => {
            state.stop();
            Reply::StateJson
        },
        Route::Reset => {
            state.reset();
            Reply::StateJson
        },
        Route::NotFound => Reply::NotFoundPage,
    }
}

/// The header of a reply whose body is `body_len` bytes long.
pub open spec fn reply_header_bytes(reply: Reply, body_len: nat) -> Seq<u8> {
    match reply {
        Reply::HelloPage => ok_status() + crlf(),
        Reply::StateJson => ok_status() + crlf() + json_content_type() + crlf(),
        Reply::OriginalImage => ok_status() + crlf() + content_length_prefix() + decimal(body_len)
            + crlf() + png_content_type() + crlf(),
        Reply::CurrentImage => ok_status() + crlf() + content_length_prefix() + decimal(body_len)
            + crlf() + png_content_type() + crlf(),
        Reply::NotFoundPage => not_found_status() + crlf(),
    }
}

/// The header that goes before a reply's body of `body_len` bytes.
pub fn reply_header(reply: Reply, body_len: usize) -> (header: Vec<u8>)
    ensures
        header@ == reply_header_bytes(reply, body_len as nat),
{
    match reply {
        Reply::HelloPage => make_ok_header(),
        Reply::StateJson => make_json_header(),
        Reply::OriginalImage => make_image_header(body_len),
        Reply::CurrentImage => make_image_header(body_len),
        Reply::NotFoundPage => make_not_found_header(),
    }
}

/// The text of group `group` in the first match of regular expression
/// `pattern` in `haystack`, as the `regex` crate finds it; none when the
/// pattern does not compile, nothing matches, or the group took no part.
pub uninterp spec fn regex_group(pattern: Seq<char>, haystack: Seq<char>, group: Seq<char>) -> Option<
    Seq<char>,
>;

/// Compiles `pattern` with `regex::Regex::new`, takes the first match in
/// `haystack` with `Regex::captures`, and gives the text of the named group
/// (`Captures::name`). Its contract names the outcome as `regex_group` of the
/// three arguments and says nothing of how the `regex` crate matches.
#[verifier::external_body]
fn capture_group(pattern: &str, haystack: &str, group: &str) -> (res: Option<String>)
    ensures
        match res {
            Some(text) => regex_group(pattern@, haystack@, group@) == Some(text@),
            None => regex_group(pattern@, haystack@, group@) is None,
        },
{
    let re = regex::Regex::new(pattern).ok()?;
    let caps = re.captures(haystack)?;
    caps.name(group).map(|m| m.as_str().to_string())
}

/// The pattern of a pixel sent in a request: "send/" and one to three digits,
/// the digits forming the group "value".
pub open spec fn sent_value_pattern() -> Seq<char> {
    "(send/)(?P<value>[0-9]{1,3})"@
}

/// The digits of the pixel value that a send request carries, if it has any.
pub fn sent_value(request: &str) -> (value: Option<String>)
    ensures
        match value {
            Some(text) => regex_group(sent_value_pattern(), request@, "value"@) == Some(text@),
            None => regex_group(sent_value_pattern(), request@, "value"@) is None,
        },
{
    capture_group("(send/)(?P<value>[0-9]{1,3})", request, "value")
}

} // verus!
