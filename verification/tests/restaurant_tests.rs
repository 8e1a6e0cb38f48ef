use server_core::restaurant::{
    handle_page_request, handle_plain_request, handle_request, OrderNote, COMPACT_MENU_JSON,
    INVALID_REQUEST_JSON, MENU_JSON, ORDER_PAGE_HTML, ORDER_RECEIVED_JSON, ROUTE_NOT_FOUND_JSON,
};

fn note(n: &Option<OrderNote>) -> Option<(String, Option<u64>)> {
    match n {
        None => None,
        Some(OrderNote::Parsed { food, quantity }) => Some((food.clone(), Some(*quantity))),
        Some(OrderNote::Raw(t)) => Some((t.clone(), None)),
    }
}

#[test]
fn json_api_serves_the_menu() {
    let r = handle_request("GET /menu HTTP/1.1\r\nHost: x\r\n\r\n");
    let expected = format!(
        "HTTP/1.1 200 OK\r\nContent-Type: application/json\r\nContent-Length: {}\r\nConnection: close\r\n\r\n{}",
        MENU_JSON.len(),
        MENU_JSON
    );
    assert_eq!(r.response, expected);
    assert!(r.order.is_none());
    assert!(MENU_JSON.contains("\"Jollof Rice\""));
}

#[test]
fn json_api_reports_a_parsed_order() {
    let r = handle_request("POST /order HTTP/1.1\r\nContent-Length: 36\r\n\r\n{\"food\": \"Chicken\", \"quantity\": 2}");
    assert!(r.response.starts_with("HTTP/1.1 200 OK\r\n"));
    assert!(r.response.ends_with(ORDER_RECEIVED_JSON));
    assert_eq!(note(&r.order), Some(("Chicken".to_string(), Some(2))));
}

#[test]
fn json_api_reports_a_raw_order() {
    let r = handle_request("POST /order HTTP/1.1\r\n\r\n  two burgers please \n");
    assert_eq!(note(&r.order), Some(("two burgers please".to_string(), None)));
    let r = handle_request("POST /order HTTP/1.1\r\n\r\n   ");
    assert!(r.order.is_none());
    let r = handle_request("POST /order HTTP/1.1\r\nHost: x");
    assert!(r.order.is_none());
}

#[test]
fn json_api_rejects_unknown_routes() {
    for req in ["GET / HTTP/1.1\r\n\r\n", "", "DELETE /menu HTTP/1.1\r\n\r\n", "GET /menu/ HTTP/1.1"] {
        let r = handle_request(req);
        assert!(r.response.starts_with("HTTP/1.1 404 Not Found\r\n"), "{req}");
        assert!(r.response.ends_with(ROUTE_NOT_FOUND_JSON));
    }
}

#[test]
fn page_api_routes() {
    let r = handle_page_request("GET / HTTP/1.1\r\n\r\n");
    assert_eq!(
        r.response,
        format!("HTTP/1.1 200 OK\r\nContent-Type: text/html\r\nContent-Length: {}\r\n\r\n{}", ORDER_PAGE_HTML.len(), ORDER_PAGE_HTML)
    );
    let r = handle_page_request("GET /menu HTTP/1.1\r\n\r\n");
    assert_eq!(
        r.response,
        format!("HTTP/1.1 200 OK\r\nContent-Type: application/json\r\nContent-Length: {}\r\n\r\n{}", COMPACT_MENU_JSON.len(), COMPACT_MENU_JSON)
    );
    let r = handle_page_request("GET\r\n\r\n");
    assert_eq!(
        r.response,
        format!("HTTP/1.1 400 Bad Request\r\nContent-Type: application/json\r\nContent-Length: {}\r\n\r\n{}", INVALID_REQUEST_JSON.len(), INVALID_REQUEST_JSON)
    );
    let r = handle_page_request("PUT /menu HTTP/1.1\r\n\r\n");
    assert!(r.response.starts_with("HTTP/1.1 404 Not Found\r\n"));
}

#[test]
fn page_api_reports_the_raw_body() {
    let r = handle_page_request("POST /order HTTP/1.1\r\n\r\nfood=Burger&quantity=2");
    assert_eq!(note(&r.order), Some(("food=Burger&quantity=2".to_string(), None)));
    let r = handle_page_request("POST /order HTTP/1.1\r\n\r\n");
    assert!(r.order.is_none());
}

#[test]
fn plain_api_routes_and_reports_first_segment() {
    let r = handle_plain_request("GET /menu HTTP/1.1\r\n\r\n");
    assert_eq!(r.response, format!("HTTP/1.1 200 OK\r\nContent-Type: application/json\r\n\r\n{}", MENU_JSON));
    let r = handle_plain_request("POST /order HTTP/1.1\r\n\r\n  {\"food\": \"Burger\"} \r\n\r\nextra");
    assert_eq!(note(&r.order), Some(("{\"food\": \"Burger\"}".to_string(), None)));
    let r = handle_plain_request("POST /order HTTP/1.1\r\n\r\n");
    assert_eq!(note(&r.order), Some((String::new(), None)));
    let r = handle_plain_request("GET /nothing HTTP/1.1\r\n\r\n");
    assert_eq!(r.response, format!("HTTP/1.1 404 Not Found\r\nContent-Type: application/json\r\n\r\n{}", ROUTE_NOT_FOUND_JSON));
}
