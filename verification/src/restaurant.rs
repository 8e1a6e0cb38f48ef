//! The restaurant order API: answers `GET /menu` with the menu, `POST /order`
//! with a confirmation (and reports the order that the body carries), and any
//! other request with an error. Three response styles are offered: a JSON API
//! that announces lengths and closes the connection, an API that also serves
//! an HTML order page, and a minimal JSON API.

use vstd::prelude::*;
use crate::text::{
    chars_of, decimal, find, find_chars, lemma_find_from, push_decimal, same_text, string_of,
    trim,
};
use crate::http::{
    blank_line, http_response, json_number_field, json_response_text, json_string_field, number_field,
    request_parts, request_words, string_field, texts,
};
use vstd::string::StringExecFns;

verus! {

/// The menu, as the JSON API and the minimal API send it.
pub const MENU_JSON: &'static str = "{\n  \"foods\": [\n    \"Jollof Rice\",\n    \"Fried Rice\",\n    \"Chicken\",\n    \"Burger\"\n  ]\n}";

/// The confirmation of an order, as the JSON API and the minimal API send it.
pub const ORDER_RECEIVED_JSON: &'static str = "{\n  \"message\": \"Order received successfully\"\n}";

/// The answer to an unknown route, as the JSON API and the minimal API send it.
pub const ROUTE_NOT_FOUND_JSON: &'static str = "{\n  \"error\": \"Route not found\"\n}";

/// The order page that the page-serving API sends for `GET /`.
pub const ORDER_PAGE_HTML: &'static str = r#"<!DOCTYPE html>
<html>
<head>
    <title>Restaurant Order System</title>
    <style>
        body { font-family: Arial, sans-serif; margin: 40px; background-color: #f5f5f5; }
        .container { max-width: 600px; margin: 0 auto; background: white; padding: 20px; border-radius: 8px; }
        h1 { color: #333; }
        .menu { margin: 20px 0; }
        .menu-item { padding: 10px; background: #f9f9f9; margin: 10px 0; border-left: 4px solid #ff6b6b; }
        input { padding: 8px; margin: 5px; width: 200px; }
        button { padding: 10px 20px; background-color: #ff6b6b; color: white; border: none; border-radius: 4px; cursor: pointer; }
        button:hover { background-color: #ff5252; }
    </style>
</head>
<body>
    <div class="container">
        <h1>Welcome to Our Restaurant!</h1>
        <h2>Available Menu:</h2>
        <div class="menu">
            <div class="menu-item">Jollof Rice</div>
            <div class="menu-item">Fried Rice</div>
            <div class="menu-item">Chicken</div>
            <div class="menu-item">Burger</div>
        </div>
        <h2>Place Your Order:</h2>
        <form action="http://127.0.0.1:8080/order" method="POST">
            <div>
                <label>Food Item:</label><br>
                <input type="text" name="food" placeholder="e.g., Jollof Rice" required>
            </div>
            <div>
                <label>Quantity:</label><br>
                <input type="number" name="quantity" min="1" placeholder="e.g., 2" required>
            </div>
            <button type="submit">Order Now</button>
        </form>
        <hr>
        <p><strong>API Routes:</strong></p>
        <ul>
            <li>GET /menu - Get menu in JSON</li>
            <li>POST /order - Submit order</li>
        </ul>
    </div>
</body>
</html>"#;

/// The menu, as the page-serving API sends it.
pub const COMPACT_MENU_JSON: &'static str = r#"{"foods": ["Jollof Rice", "Fried Rice", "Chicken", "Burger"]}"#;

/// The confirmation of an order, as the page-serving API sends it.
pub const COMPACT_ORDER_RECEIVED_JSON: &'static str = r#"{"message": "Order received successfully"}"#;

/// The answer to an unknown route, as the page-serving API sends it.
pub const COMPACT_ROUTE_NOT_FOUND_JSON: &'static str = r#"{"error": "Route not found"}"#;

/// The answer to a request line with fewer than two words.
pub const INVALID_REQUEST_JSON: &'static str = r#"{"error": "Invalid request"}"#;

/// The order that a request's body carries, as the server reports it.
pub enum OrderNote {
    /// The body names a food and a quantity.
    Parsed { food: String, quantity: u64 },
    /// The body as text (trimmed or not, as the server style says).
    Raw(String),
}

/// The mathematical form of an `OrderNote`.
pub enum OrderNoteView {
    Parsed(Seq<char>, nat),
    Raw(Seq<char>),
}

impl View for OrderNote {
    type V = OrderNoteView;

    open spec fn view(&self) -> OrderNoteView {
        match self {
            OrderNote::Parsed { food, quantity } => OrderNoteView::Parsed(food@, *quantity as nat),
            OrderNote::Raw(text) => OrderNoteView::Raw(text@),
        }
    }
}

/// The view of an optional note.
pub open spec fn note_view(n: Option<OrderNote>) -> Option<OrderNoteView> {
    match n {
        Some(n) => Some(n@),
        None => None,
    }
}

/// What a server answers to one request: the response bytes as text, and the
/// order to report, if any.
pub struct Reply {
    pub response: String,
    pub order: Option<OrderNote>,
}

/// The `i`-th word of the request line, empty when there is none.
pub open spec fn word(words: Seq<Seq<char>>, i: int) -> Seq<char> {
    if 0 <= i < words.len() {
        words[i]
    } else {
        Seq::empty()
    }
}

/// The body of a request: what follows the first blank line, if there is one.
pub open spec fn body_of(request: Seq<char>) -> Option<Seq<char>> {
    match find(request, blank_line()) {
        Some(i) => Some(request.skip(i + 4)),
        None => None,
    }
}

/// The order that the JSON API reports for a `POST /order` body: food and
/// quantity when both fields parse, otherwise the trimmed body unless it is empty.
pub open spec fn json_order_note(request: Seq<char>) -> Option<OrderNoteView> {
    match body_of(request) {
        None => None,
        Some(body) => match (string_field(body, "food"@), number_field(body, "quantity"@)) {
            (Some(food), Some(quantity)) => Some(OrderNoteView::Parsed(food, quantity)),
            _ => if trim(body).len() > 0 {
                Some(OrderNoteView::Raw(trim(body)))
            } else {
                None
            },
        },
    }
}

/// Whether the `i`-th word of the request line (empty when missing) is `lit`.
fn word_is(parts: &Vec<String>, i: usize, lit: &str) -> (b: bool)
    ensures
        b == (word(texts(parts@), i as int) == lit@),
{
    if i < parts.len() {
        assert(texts(parts@)[i as int] == parts@[i as int]@);
        assert(word(texts(parts@), i as int) == parts@[i as int]@);
        let r = same_text(parts[i].as_str(), lit);
        assert(r == (parts@[i as int]@ == lit@));
        r
    } else {
        proof {
            reveal_strlit("");
            assert(""@ =~= Seq::<char>::empty());
            assert(word(texts(parts@), i as int) == Seq::<char>::empty());
        }
        same_text("", lit)
    }
}

/// The position of the first blank line in `s`, with what `find` says of it.
fn find_blank_line(s: &Vec<char>, from: usize) -> (res: Option<usize>)
    requires
        from <= s@.len(),
    ensures
        match res {
            Some(i) => crate::text::find_from(s@, blank_line(), from as int) == Some(i as int)
                && from <= i && i + 4 <= s@.len(),
            None => crate::text::find_from(s@, blank_line(), from as int) is None,
        },
{
    let sep: [char; 4] = ['\r', '\n', '\r', '\n'];
    assert(sep@ =~= blank_line());
    let r = find_chars(s.as_slice(), sep.as_slice(), from);
    proof {
        lemma_find_from(s@, blank_line(), from as int);
    }
    r
}

/// Answers a request in the JSON API style: `GET /menu` gives the menu,
/// `POST /order` a confirmation (the order in the body is reported), anything
/// else `404 Not Found`; every response announces its length and closes.
pub fn handle_request(request: &str) -> (res: Reply)
    ensures
        ({
            let words = request_words(request@);
            let is_menu = word(words, 0) == "GET"@ && word(words, 1) == "/menu"@;
            let is_order = word(words, 0) == "POST"@ && word(words, 1) == "/order"@;
            &&& res.response@ == if is_menu {
                json_response_text("200 OK"@, MENU_JSON)
            } else if is_order {
                json_response_text("200 OK"@, ORDER_RECEIVED_JSON)
            } else {
                json_response_text("404 Not Found"@, ROUTE_NOT_FOUND_JSON)
            }
            &&& note_view(res.order) == if is_order {
                json_order_note(request@)
            } else {
                None
            }
        }),
{
    let parts = request_parts(request);
    if word_is(&parts, 0, "GET") && word_is(&parts, 1, "/menu") {
        proof {
            reveal_strlit("GET");
            reveal_strlit("POST");
            assert("GET"@[0] != "POST"@[0]);
        }
        Reply { response: http_response("200 OK", MENU_JSON), order: None }
    } else if word_is(&parts, 0, "POST") && word_is(&parts, 1, "/order") {
        let order = json_order(request);
        Reply { response: http_response("200 OK", ORDER_RECEIVED_JSON), order }
    } else {
        Reply { response: http_response("404 Not Found", ROUTE_NOT_FOUND_JSON), order: None }
    }
}

/// The order that the JSON API reports for a request (see `json_order_note`).
fn json_order(request: &str) -> (res: Option<OrderNote>)
    ensures
        note_view(res) == json_order_note(request@),
{
    let s = chars_of(request);
    let slen = s.len();
    let i = match find_blank_line(&s, 0) {
        None => {
            return None;
        },
        Some(i) => i,
    };
    let body = string_of(s.as_slice(), i + 4, s.len());
    assert(body@ =~= request@.skip(i + 4));
    let food = json_string_field(body.as_str(), "food");
    let quantity = json_number_field(body.as_str(), "quantity");
    match (food, quantity) {
        (Some(food), Some(quantity)) => Some(OrderNote::Parsed { food, quantity }),
        _ => {
            let t = trimmed(&body);
            if !t.as_str().is_empty() {
                Some(OrderNote::Raw(t))
            } else {
                None
            }
        },
    }
}

/// `s.trim()` as a new string.
pub fn trimmed(s: &String) -> (res: String)
    ensures
        res@ == trim(s@),
{
    let c = chars_of(s.as_str());
    let lead = crate::text::count_leading_ws(c.as_slice(), 0);
    let trail = crate::text::count_trailing_ws(c.as_slice(), c.len());
    let start = lead;
    let end = if c.len() - trail >= start { c.len() - trail } else { start };
    proof {
        crate::text::lemma_trim_range(c@, 0, c@.len() as int, lead as int, trail as int);
        assert(c@.subrange(0, c@.len() as int) =~= c@);
    }
    string_of(c.as_slice(), start, end)
}

/// A response of the page-serving API: status line, content type, body length, body.
pub open spec fn page_response_text(status_line: Seq<char>, content_type: Seq<char>, body: &str) -> Seq<char> {
    status_line + "\r\nContent-Type: "@ + content_type + "\r\nContent-Length: "@ + decimal(
        body.len() as nat,
    ) + "\r\n\r\n"@ + body@
}

/// Builds a response of the page-serving API.
pub fn page_response(status_line: &str, content_type: &str, body: &str) -> (res: String)
    ensures
        res@ == page_response_text(status_line@, content_type@, body),
{
    let mut res = String::from_str(status_line);
    res.append("\r\nContent-Type: ");
    res.append(content_type);
    res.append("\r\nContent-Length: ");
    push_decimal(&mut res, body.len() as u64);
    res.append("\r\n\r\n");
    res.append(body);
    res
}

/// The order that the page-serving API reports: the whole body after the
/// first blank line, when it is not empty.
pub open spec fn page_order_note(request: Seq<char>) -> Option<OrderNoteView> {
    match body_of(request) {
        Some(body) => if body.len() > 0 {
            Some(OrderNoteView::Raw(body))
        } else {
            None
        },
        None => None,
    }
}

/// Answers a request in the page-serving style. A request line of fewer than
/// two words gets `400 Bad Request`; `GET /` gets the HTML order page,
/// `GET /menu` the menu, `POST /order` a confirmation (the body, when not
/// empty, is reported as the order); anything else `404 Not Found`.
pub fn handle_page_request(request: &str) -> (res: Reply)
    ensures
        ({
            let words = request_words(request@);
            let enough = words.len() >= 2;
            let is_page = enough && word(words, 0) == "GET"@ && word(words, 1) == "/"@;
            let is_menu = enough && word(words, 0) == "GET"@ && word(words, 1) == "/menu"@;
            let is_order = enough && word(words, 0) == "POST"@ && word(words, 1) == "/order"@;
            &&& res.response@ == if !enough {
                page_response_text("HTTP/1.1 400 Bad Request"@, "application/json"@, INVALID_REQUEST_JSON)
            } else if is_page {
                page_response_text("HTTP/1.1 200 OK"@, "text/html"@, ORDER_PAGE_HTML)
            } else if is_menu {
                page_response_text("HTTP/1.1 200 OK"@, "application/json"@, COMPACT_MENU_JSON)
            } else if is_order {
                page_response_text("HTTP/1.1 200 OK"@, "application/json"@, COMPACT_ORDER_RECEIVED_JSON)
            } else {
                page_response_text("HTTP/1.1 404 Not Found"@, "application/json"@, COMPACT_ROUTE_NOT_FOUND_JSON)
            }
            &&& note_view(res.order) == if is_order {
                page_order_note(request@)
            } else {
                None
            }
        }),
{
    proof {
        reveal_strlit("GET");
        reveal_strlit("POST");
        assert("GET"@[0] != "POST"@[0]);
        reveal_strlit("/");
        reveal_strlit("/menu");
        assert("/"@.len() != "/menu"@.len());
    }
    let parts = request_parts(request);
    if parts.len() < 2 {
        return Reply {
            response: page_response("HTTP/1.1 400 Bad Request", "application/json", INVALID_REQUEST_JSON),
            order: None,
        };
    }
    if word_is(&parts, 0, "GET") && word_is(&parts, 1, "/") {
        Reply { response: page_response("HTTP/1.1 200 OK", "text/html", ORDER_PAGE_HTML), order: None }
    } else if word_is(&parts, 0, "GET") && word_is(&parts, 1, "/menu") {
        Reply { response: page_response("HTTP/1.1 200 OK", "application/json", COMPACT_MENU_JSON), order: None }
    } else if word_is(&parts, 0, "POST") && word_is(&parts, 1, "/order") {
        let s = chars_of(request);
        let slen = s.len();
        let order = match find_blank_line(&s, 0) {
            Some(i) => {
                let body = string_of(s.as_slice(), i + 4, slen);
                assert(body@ =~= request@.skip(i + 4));
                if !body.as_str().is_empty() {
                    Some(OrderNote::Raw(body))
                } else {
                    None
                }
            },
            None => None,
        };
        Reply {
            response: page_response("HTTP/1.1 200 OK", "application/json", COMPACT_ORDER_RECEIVED_JSON),
            order,
        }
    } else {
        Reply {
            response: page_response("HTTP/1.1 404 Not Found", "application/json", COMPACT_ROUTE_NOT_FOUND_JSON),
            order: None,
        }
    }
}

/// A response of the minimal API: status line, JSON content type, body.
pub open spec fn plain_response_text(status_line: Seq<char>, body: Seq<char>) -> Seq<char> {
    status_line + "\r\nContent-Type: application/json\r\n\r\n"@ + body
}

/// The order that the minimal API reports: the text between the first blank
/// line and the next one (or the end), trimmed.
pub open spec fn plain_order_note(request: Seq<char>) -> Option<OrderNoteView> {
    match find(request, blank_line()) {
        None => None,
        Some(i) => match crate::text::find_from(request, blank_line(), i + 4) {
            Some(j) => Some(OrderNoteView::Raw(trim(request.subrange(i + 4, j)))),
            None => Some(OrderNoteView::Raw(trim(request.skip(i + 4)))),
        },
    }
}

/// The first `\r\n\r\n` of `head + \r\n\r\n + rest` is the one after
/// `head`, when `head` (with that blank line after it) holds none earlier.
proof fn lemma_first_blank_line_after(head: Seq<char>, rest: Seq<char>)
    requires
        forall|j: int| 0 <= j < head.len() ==> !crate::text::matches_at(head + blank_line(), blank_line(), j),
    ensures
        find(head + blank_line() + rest, blank_line()) == Some(head.len() as int),
{
    let r = head + blank_line() + rest;
    let hb = head + blank_line();
    let h = head.len() as int;
    assert(r.subrange(h, h + 4) =~= blank_line());
    assert forall|j: int| 0 <= j < h implies !crate::text::matches_at(r, blank_line(), j) by {
        assert(!crate::text::matches_at(hb, blank_line(), j));
        assert(r.subrange(j, j + 4) =~= hb.subrange(j, j + 4));
    }
    crate::text::lemma_find_from_is(r, blank_line(), 0, h);
}

/// The minimal API reports the whole body of an order, trimmed, when the
/// body holds no blank line: `head`, the first blank line, then `body`.
pub proof fn law_plain_note_is_trimmed_body(head: Seq<char>, body: Seq<char>)
    requires
        forall|j: int| 0 <= j < head.len() ==> !crate::text::matches_at(head + blank_line(), blank_line(), j),
        forall|j: int| 0 <= j ==> !crate::text::matches_at(body, blank_line(), j),
    ensures
        plain_order_note(head + blank_line() + body) == Some(OrderNoteView::Raw(trim(body))),
{
    let r = head + blank_line() + body;
    let h = head.len() as int;
    lemma_first_blank_line_after(head, body);
    assert forall|j: int| h + 4 <= j implies !crate::text::matches_at(r, blank_line(), j) by {
        if j + 4 <= r.len() {
            assert(r.subrange(j, j + 4) =~= body.subrange(j - h - 4, j - h));
            assert(!crate::text::matches_at(body, blank_line(), j - h - 4));
        }
    }
    crate::text::lemma_find_from_none(r, blank_line(), h + 4);
    assert(r.skip(h + 4) =~= body);
}

/// When the body holds a blank line, the minimal API reports the part of it
/// before the first one, trimmed: `head`, a blank line, `segment`, a blank
/// line, then anything.
pub proof fn law_plain_note_is_first_segment(head: Seq<char>, segment: Seq<char>, rest: Seq<char>)
    requires
        forall|j: int| 0 <= j < head.len() ==> !crate::text::matches_at(head + blank_line(), blank_line(), j),
        forall|j: int| 0 <= j < segment.len() ==> !crate::text::matches_at(segment + blank_line(), blank_line(), j),
    ensures
        plain_order_note(head + blank_line() + segment + blank_line() + rest) == Some(
            OrderNoteView::Raw(trim(segment)),
        ),
{
    let tail = segment + blank_line() + rest;
    let sb = segment + blank_line();
    let r = head + blank_line() + tail;
    assert(r =~= head + blank_line() + segment + blank_line() + rest);
    let h = head.len() as int;
    let g = segment.len() as int;
    lemma_first_blank_line_after(head, tail);
    assert(r.subrange(h + 4 + g, h + 8 + g) =~= blank_line());
    assert forall|j: int| h + 4 <= j < h + 4 + g implies !crate::text::matches_at(r, blank_line(), j) by {
        assert(!crate::text::matches_at(sb, blank_line(), j - h - 4));
        assert(r.subrange(j, j + 4) =~= sb.subrange(j - h - 4, j - h));
    }
    crate::text::lemma_find_from_is(r, blank_line(), h + 4, h + 4 + g);
    assert(r.subrange(h + 4, h + 4 + g) =~= segment);
}

/// Answers a request in the minimal style: `GET /menu` gets the menu,
/// `POST /order` a confirmation (the first body segment, trimmed, is reported
/// as the order), anything else `404 Not Found`; no length is announced.
pub fn handle_plain_request(request: &str) -> (res: Reply)
    ensures
        ({
            let words = request_words(request@);
            let is_menu = word(words, 0) == "GET"@ && word(words, 1) == "/menu"@;
            let is_order = word(words, 0) == "POST"@ && word(words, 1) == "/order"@;
            &&& res.response@ == if is_menu {
                plain_response_text("HTTP/1.1 200 OK"@, MENU_JSON@)
            } else if is_order {
                plain_response_text("HTTP/1.1 200 OK"@, ORDER_RECEIVED_JSON@)
            } else {
                plain_response_text("HTTP/1.1 404 Not Found"@, ROUTE_NOT_FOUND_JSON@)
            }
            &&& note_view(res.order) == if is_order {
                plain_order_note(request@)
            } else {
                None
            }
        }),
{
    proof {
        reveal_strlit("GET");
        reveal_strlit("POST");
        assert("GET"@[0] != "POST"@[0]);
    }
    let parts = request_parts(request);
    if word_is(&parts, 0, "GET") && word_is(&parts, 1, "/menu") {
        let mut response = String::from_str("HTTP/1.1 200 OK");
        response.append("\r\nContent-Type: application/json\r\n\r\n");
        response.append(MENU_JSON);
        Reply { response, order: None }
    } else if word_is(&parts, 0, "POST") && word_is(&parts, 1, "/order") {
        let s = chars_of(request);
        let slen = s.len();
        let order = match find_blank_line(&s, 0) {
            None => None,
            Some(i) => {
                let end = match find_blank_line(&s, i + 4) {
                    Some(j) => j,
                    None => slen,
                };
                let segment = string_of(s.as_slice(), i + 4, end);
                assert(s@.skip(i + 4) =~= s@.subrange(i + 4, slen as int));
                Some(OrderNote::Raw(trimmed(&segment)))
            },
        };
        let mut response = String::from_str("HTTP/1.1 200 OK");
        response.append("\r\nContent-Type: application/json\r\n\r\n");
        response.append(ORDER_RECEIVED_JSON);
        Reply { response, order }
    } else {
        let mut response = String::from_str("HTTP/1.1 404 Not Found");
        response.append("\r\nContent-Type: application/json\r\n\r\n");
        response.append(ROUTE_NOT_FOUND_JSON);
        Reply { response, order: None }
    }
}

} // verus!
